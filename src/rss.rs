//! The RSS feed of the site: the newest articles as items with their
//! links, dates, authors and tags.
use vstd::prelude::*;
use crate::article::Article;
use crate::config::Config;
use crate::escape::{escape_into, xml_escaped};
use crate::math::opt_view;
use crate::text::{chars_of, joined, push_all, push_str, string_of, strings_view};

verus! {

/// How many articles the feed holds at most.
pub const FEED_LIMIT: usize = 20;

/// What chrono makes of a `YYYY-MM-DD` date: its RFC 2822 form at
/// midnight GMT, or `None` where the text is no such date.
pub uninterp spec fn rfc2822_day(date: Seq<char>) -> Option<Seq<char>>;

/// Relies on `chrono::NaiveDate::parse_from_str` with `%Y-%m-%d`, and on
/// formatting the date with `%a, %d %b %Y 00:00:00 GMT`; `None` where the
/// parse fails.
#[verifier::external_body]
fn rfc2822_of_date(date: &str) -> (r: Option<String>)
    ensures
        opt_view(r) == rfc2822_day(date@),
{
    chrono::NaiveDate::parse_from_str(date, "%Y-%m-%d").ok().map(
        |d| d.format("%a, %d %b %Y 00:00:00 GMT").to_string(),
    )
}

/// Relies on `chrono::Utc::now` formatted with `%a, %d %b %Y %H:%M:%S GMT`;
/// nothing is promised of the time it gives.
#[verifier::external_body]
fn now_rfc2822() -> String {
    chrono::Utc::now().format("%a, %d %b %Y %H:%M:%S GMT").to_string()
}

/// The date with its dots made dashes (`2024.03.23` to `2024-03-23`).
pub open spec fn dashed(s: Seq<char>) -> Seq<char> {
    s.map_values(|c: char| if c == '.' { '-' } else { c })
}

/// The publication date of an item: the RFC 2822 form of the article's
/// date, or `now` where the date cannot be read.
pub open spec fn item_date(date: Seq<char>, now: Seq<char>) -> Seq<char> {
    match rfc2822_day(dashed(date)) {
        Some(d) => d,
        None => now,
    }
}

fn dashes(date: &str) -> (r: String)
    ensures
        r@ == dashed(date@),
{
    let cs = chars_of(date);
    let mut out: Vec<char> = Vec::new();
    let mut i: usize = 0;
    while i < cs.len()
        invariant
            i <= cs@.len(),
            out@ == dashed(cs@.subrange(0, i as int)),
        decreases cs@.len() - i,
    {
        if cs[i] == '.' {
            out.push('-');
        } else {
            out.push(cs[i]);
        }
        i = i + 1;
        assert(out@ =~= dashed(cs@.subrange(0, i as int)));
    }
    assert(cs@.subrange(0, cs@.len() as int) == cs@);
    string_of(out.as_slice())
}

/// The publication date of an item, with `now` standing in for a date
/// that cannot be read.
pub fn rss_date(date: &str, now: &str) -> (r: String)
    ensures
        r@ == item_date(date@, now@),
{
    let d = dashes(date);
    match rfc2822_of_date(d.as_str()) {
        Some(s) => s,
        None => String::from_str(now),
    }
}

/// The RFC 2822 form of a `YYYY.MM.DD` date, or the current time where the
/// date cannot be read.
pub fn parse_date_to_rfc2822(date_str: &str) -> (r: String)
    ensures
        rfc2822_day(dashed(date_str@)) is Some ==> r@ == rfc2822_day(dashed(date_str@))->0,
{
    let d = dashes(date_str);
    match rfc2822_of_date(d.as_str()) {
        Some(s) => s,
        None => now_rfc2822(),
    }
}

/// The article's link: the site URL followed by its URL path.
pub open spec fn article_link(a: Article, site_url: Seq<char>) -> Seq<char> {
    site_url + match a.url_path {
        Some(u) => u@,
        None => Seq::empty(),
    }
}

pub open spec fn category_line(t: Seq<char>) -> Seq<char> {
    "      <category>"@ + xml_escaped(t) + "</category>"@
}

/// One category line per tag, joined by newlines.
pub open spec fn category_lines(tags: Seq<Seq<char>>) -> Seq<char> {
    joined(tags.map_values(|t: Seq<char>| category_line(t)), '\n')
}

/// The feed item for an article.
pub open spec fn rss_item(a: Article, site_url: Seq<char>, now: Seq<char>) -> Seq<char> {
    let link = xml_escaped(article_link(a, site_url));
    "    <item>\n      <title>"@ + xml_escaped(a.title@) + "</title>\n      <link>"@ + link
        + "</link>\n      <guid isPermaLink=\"true\">"@ + link + "</guid>\n      <pubDate>"@
        + item_date(a.date@, now) + "</pubDate>\n      <dc:creator>"@ + xml_escaped(a.author@)
        + "</dc:creator>\n"@ + category_lines(strings_view(a.tags@)) + "\n    </item>"@
}

/// The items of the first articles, at most `FEED_LIMIT`, joined by newlines.
pub open spec fn rss_items(arts: Seq<Article>, site_url: Seq<char>, now: Seq<char>) -> Seq<char> {
    let n = if arts.len() < FEED_LIMIT {
        arts.len() as int
    } else {
        FEED_LIMIT as int
    };
    joined(arts.subrange(0, n).map_values(|a: Article| rss_item(a, site_url, now)), '\n')
}

/// The whole feed, built at time `now`.
pub open spec fn rss_feed(arts: Seq<Article>, c: Config, now: Seq<char>) -> Seq<char> {
    "<?xml version=\"1.0\" encoding=\"UTF-8\"?>\n<rss version=\"2.0\" xmlns:atom=\"http://www.w3.org/2005/Atom\" xmlns:dc=\"http://purl.org/dc/elements/1.1/\">\n  <channel>\n    <title>"@
        + xml_escaped(c.site_name@) + "</title>\n    <link>"@ + xml_escaped(c.site_url@)
        + "</link>\n    <description>"@ + xml_escaped(c.site_description@)
        + "</description>\n    <language>"@ + c.site_language@
        + "</language>\n    <lastBuildDate>"@ + now + "</lastBuildDate>\n    <atom:link href=\""@
        + xml_escaped(c.site_url@)
        + "/rss.xml\" rel=\"self\" type=\"application/rss+xml\" />\n"@ + rss_items(
        arts,
        c.site_url@,
        now,
    ) + "\n  </channel>\n</rss>"@
}

fn push_xml(out: &mut Vec<char>, s: &str)
    ensures
        final(out)@ == old(out)@ + xml_escaped(s@),
{
    let cs = chars_of(s);
    escape_into(out, cs.as_slice(), true);
}

fn item_text(a: &Article, site_url: &str, now: &str) -> (r: String)
    ensures
        r@ == rss_item(*a, site_url@, now@),
{
    let mut link: Vec<char> = Vec::new();
    push_str(&mut link, site_url);
    match &a.url_path {
        Some(u) => push_str(&mut link, u.as_str()),
        None => {},
    }
    assert(link@ =~= article_link(*a, site_url@));
    let link_s = string_of(link.as_slice());
    let mut lines: Vec<String> = Vec::new();
    let mut i: usize = 0;
    while i < a.tags.len()
        invariant
            i <= a.tags@.len(),
            strings_view(lines@) == strings_view(a.tags@).subrange(0, i as int).map_values(
                |t: Seq<char>| category_line(t),
            ),
        decreases a.tags@.len() - i,
    {
        let mut l: Vec<char> = Vec::new();
        push_str(&mut l, "      <category>");
        push_xml(&mut l, a.tags[i].as_str());
        push_str(&mut l, "</category>");
        let ghost before = strings_view(lines@);
        lines.push(string_of(l.as_slice()));
        proof {
            let tv = strings_view(a.tags@);
            assert(tv[i as int] == a.tags@[i as int]@);
            assert(strings_view(lines@) =~= before.push(category_line(tv[i as int])));
            assert(tv.subrange(0, i + 1).map_values(|t: Seq<char>| category_line(t))
                =~= tv.subrange(0, i as int).map_values(|t: Seq<char>| category_line(t)).push(
                category_line(tv[i as int]),
            ));
        }
        i = i + 1;
    }
    assert(strings_view(a.tags@).subrange(0, a.tags@.len() as int) == strings_view(a.tags@));
    let cats = crate::text::join_with(&lines, '\n');
    let mut out: Vec<char> = Vec::new();
    push_str(&mut out, "    <item>\n      <title>");
    push_xml(&mut out, a.title.as_str());
    push_str(&mut out, "</title>\n      <link>");
    push_xml(&mut out, link_s.as_str());
    push_str(&mut out, "</link>\n      <guid isPermaLink=\"true\">");
    push_xml(&mut out, link_s.as_str());
    push_str(&mut out, "</guid>\n      <pubDate>");
    let d = rss_date(a.date.as_str(), now);
    push_str(&mut out, d.as_str());
    push_str(&mut out, "</pubDate>\n      <dc:creator>");
    push_xml(&mut out, a.author.as_str());
    push_str(&mut out, "</dc:creator>\n");
    push_all(&mut out, cats.as_slice());
    push_str(&mut out, "\n    </item>");
    assert(out@ =~= rss_item(*a, site_url@, now@));
    string_of(out.as_slice())
}

/// Builds the feed for the articles at time `now` (see `rss_feed`).
pub fn build_rss(articles: &[Article], config: &Config, now: &str) -> (r: String)
    ensures
        r@ == rss_feed(articles@, *config, now@),
{
    let n: usize = if articles.len() < FEED_LIMIT {
        articles.len()
    } else {
        FEED_LIMIT
    };
    let ghost firsts = articles@.subrange(0, n as int);
    let mut items: Vec<String> = Vec::new();
    let mut i: usize = 0;
    while i < n
        invariant
            i <= n <= articles@.len(),
            firsts == articles@.subrange(0, n as int),
            strings_view(items@) == firsts.subrange(0, i as int).map_values(
                |a: Article| rss_item(a, config.site_url@, now@),
            ),
        decreases n - i,
    {
        let it = item_text(&articles[i], config.site_url.as_str(), now);
        let ghost before = strings_view(items@);
        items.push(it);
        proof {
            assert(firsts[i as int] == articles@[i as int]);
            assert(strings_view(items@) =~= before.push(
                rss_item(firsts[i as int], config.site_url@, now@),
            ));
            assert(firsts.subrange(0, i + 1).map_values(
                |a: Article| rss_item(a, config.site_url@, now@),
            ) =~= firsts.subrange(0, i as int).map_values(
                |a: Article| rss_item(a, config.site_url@, now@),
            ).push(rss_item(firsts[i as int], config.site_url@, now@)));
        }
        i = i + 1;
    }
    assert(firsts.subrange(0, n as int) == firsts);
    let body = crate::text::join_with(&items, '\n');
    let mut out: Vec<char> = Vec::new();
    push_str(
        &mut out,
        "<?xml version=\"1.0\" encoding=\"UTF-8\"?>\n<rss version=\"2.0\" xmlns:atom=\"http://www.w3.org/2005/Atom\" xmlns:dc=\"http://purl.org/dc/elements/1.1/\">\n  <channel>\n    <title>",
    );
    push_xml(&mut out, config.site_name.as_str());
    push_str(&mut out, "</title>\n    <link>");
    push_xml(&mut out, config.site_url.as_str());
    push_str(&mut out, "</link>\n    <description>");
    push_xml(&mut out, config.site_description.as_str());
    push_str(&mut out, "</description>\n    <language>");
    push_str(&mut out, config.site_language.as_str());
    push_str(&mut out, "</language>\n    <lastBuildDate>");
    push_str(&mut out, now);
    push_str(&mut out, "</lastBuildDate>\n    <atom:link href=\"");
    push_xml(&mut out, config.site_url.as_str());
    push_str(&mut out, "/rss.xml\" rel=\"self\" type=\"application/rss+xml\" />\n");
    push_all(&mut out, body.as_slice());
    push_str(&mut out, "\n  </channel>\n</rss>");
    assert(out@ =~= rss_feed(articles@, *config, now@));
    string_of(out.as_slice())
}

/// Builds the feed for the articles as of the current time.
pub fn generate_rss(articles: &[Article], config: &Config) -> (r: String)
    ensures
        exists|now: Seq<char>| r@ == rss_feed(articles@, *config, now),
{
    let now = now_rfc2822();
    let r = build_rss(articles, config, now.as_str());
    assert(r@ == rss_feed(articles@, *config, now@));
    r
}

} // verus!
