use blog_generator::article::{analyze_article, Article};
use blog_generator::config::{default_format, default_language, Config};
use blog_generator::rss::{build_rss, generate_rss, parse_date_to_rfc2822, rss_date};
use blog_generator::site::{
    comment_script, is_article_path, is_hidden, page_file_name, page_title, page_url_path,
    sort_articles, str_less,
};

fn article(title: &str, date: &str, tags: &[&str]) -> Article {
    Article {
        title: title.to_string(),
        markdown: String::new(),
        date: date.to_string(),
        author: "alice".to_string(),
        tags: tags.iter().map(|t| t.to_string()).collect(),
        filename: title.to_lowercase(),
        html: None,
        url_path: Some(format!("/posts/{}.html", title.to_lowercase())),
    }
}

fn config() -> Config {
    Config {
        site_name: "My <Blog>".to_string(),
        site_url: "https://example.com".to_string(),
        site_description: "Notes & more".to_string(),
        site_language: default_language(),
        posts_path: "posts".to_string(),
        output_path: "out".to_string(),
        profile_path: None,
        article_format: default_format(),
        default_author: "alice".to_string(),
        web_master: "alice".to_string(),
        github_repo: None,
        github_repo_id: None,
        google_analytics_id: None,
    }
}

#[test]
fn test_parse_date_to_rfc2822() {
    let result = parse_date_to_rfc2822("2024.03.23");
    assert!(result.contains("23 Mar 2024"));
}

#[test]
fn rss_dates() {
    assert_eq!(rss_date("2024.03.23", "NOW"), "Sat, 23 Mar 2024 00:00:00 GMT");
    assert_eq!(rss_date("not a date", "NOW"), "NOW");
    assert_eq!(rss_date("", "NOW"), "NOW");
}

#[test]
fn defaults() {
    assert_eq!(default_language(), "zh-CN");
    assert_eq!(default_format(), "md");
}

#[test]
fn rss_feed_exact() {
    let arts = vec![article("A&B", "2024.03.23", &["Rust", "C++"])];
    let feed = build_rss(&arts, &config(), "NOW");
    let expected = "<?xml version=\"1.0\" encoding=\"UTF-8\"?>\n<rss version=\"2.0\" xmlns:atom=\"http://www.w3.org/2005/Atom\" xmlns:dc=\"http://purl.org/dc/elements/1.1/\">\n  <channel>\n    <title>My &lt;Blog&gt;</title>\n    <link>https://example.com</link>\n    <description>Notes &amp; more</description>\n    <language>zh-CN</language>\n    <lastBuildDate>NOW</lastBuildDate>\n    <atom:link href=\"https://example.com/rss.xml\" rel=\"self\" type=\"application/rss+xml\" />\n    <item>\n      <title>A&amp;B</title>\n      <link>https://example.com/posts/a&amp;b.html</link>\n      <guid isPermaLink=\"true\">https://example.com/posts/a&amp;b.html</guid>\n      <pubDate>Sat, 23 Mar 2024 00:00:00 GMT</pubDate>\n      <dc:creator>alice</dc:creator>\n      <category>Rust</category>\n      <category>C++</category>\n    </item>\n  </channel>\n</rss>";
    assert_eq!(feed, expected);
}

#[test]
fn rss_feed_holds_at_most_twenty_items() {
    let arts: Vec<Article> = (0..25).map(|i| article(&format!("T{}", i), "2024.01.01", &[])).collect();
    let feed = build_rss(&arts, &config(), "NOW");
    assert_eq!(feed.matches("<item>").count(), 20);
    assert!(feed.contains("<title>T19</title>"));
    assert!(!feed.contains("<title>T20</title>"));
    let live = generate_rss(&arts, &config());
    assert_eq!(live.matches("<item>").count(), 20);
}

#[test]
fn hidden_articles() {
    assert!(is_hidden(&article("x", "d", &["Go", "Hidden"])));
    assert!(!is_hidden(&article("x", "d", &["hidden"])));
    assert!(!is_hidden(&article("x", "d", &[])));
}

#[test]
fn page_names_and_paths() {
    assert_eq!(page_file_name("post", false), "post.html");
    assert_eq!(page_file_name("post", true), "post.htm");
    assert_eq!(page_url_path("rust", "post.html"), "/rust/post.html");
    assert_eq!(page_url_path("", "post.html"), "//post.html");
    assert_eq!(page_title("Post", "Site"), "Post | Site");
}

#[test]
fn comment_widget() {
    let repo = Some("me/blog".to_string());
    let id = Some("R_1".to_string());
    let w = comment_script(false, &repo, &id);
    assert!(w.starts_with("<script src=\"https://giscus.app/client.js\"\n      data-repo=\"me/blog\"\n      data-repo-id=\"R_1\""));
    assert!(w.ends_with("async>\n    </script>"));
    assert_eq!(comment_script(true, &repo, &id), "");
    assert_eq!(comment_script(false, &None, &id), "");
}

#[test]
fn article_paths() {
    assert!(is_article_path("sub/test.md", "md"));
    assert!(!is_article_path("sub/test.mdx", "md"));
    assert!(!is_article_path("md", "md"));
    assert!(is_article_path(".md", "md"));
}

#[test]
fn string_order() {
    assert!(str_less("2024.01.01", "2024.03.23"));
    assert!(!str_less("b", "a"));
    assert!(str_less("", "a"));
    assert!(!str_less("a", "a"));
    assert!(str_less("ab", "abc"));
}

#[test]
fn articles_sorted_newest_first() {
    let arts = vec![
        article("B", "2024.01.01", &[]),
        article("Z", "2024.03.23", &[]),
        article("A", "2024.01.01", &[]),
        article("M", "2023.12.31", &[]),
    ];
    let sorted = sort_articles(arts);
    let titles: Vec<&str> = sorted.iter().map(|a| a.title.as_str()).collect();
    assert_eq!(titles, vec!["Z", "A", "B", "M"]);
}

#[test]
fn analyzed_article_feeds_pages() {
    let a = analyze_article("# Hi\n\nbody", "[2024.05.06 Hidden]secret", "bob");
    assert!(is_hidden(&a));
    assert_eq!(page_file_name(&a.filename, is_hidden(&a)), "secret.htm");
}

#[test]
fn equal_keys_keep_their_order() {
    let mut first = article("Same", "2024.01.01", &[]);
    first.author = "first".to_string();
    let mut second = article("Same", "2024.01.01", &[]);
    second.author = "second".to_string();
    let sorted = sort_articles(vec![first, article("New", "2025.01.01", &[]), second]);
    let authors: Vec<&str> = sorted.iter().map(|a| a.author.as_str()).collect();
    assert_eq!(authors, vec!["alice", "first", "second"]);
}
