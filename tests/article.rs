use blog_generator::article::analyze_article;

#[test]
fn test_analyze_article_with_metadata() {
    let markdown = "# Test Title\n\nSome content";
    let filename = "[2024.03.23 Rust,C++,CMake]test_file";
    let article = analyze_article(markdown, filename, "default_author");

    assert_eq!(article.title, "Test Title");
    assert_eq!(article.date, "2024.03.23");
    assert_eq!(article.tags, vec!["Rust", "C++", "CMake"]);
    assert_eq!(article.author, "default_author");
    assert_eq!(article.filename, "test_file");
}

#[test]
fn test_analyze_article_with_author() {
    let markdown = "# Test Title\n\nSome content";
    let filename = "[2024.03.23 Rust CustomAuthor]test_file";
    let article = analyze_article(markdown, filename, "default_author");

    assert_eq!(article.author, "CustomAuthor");
}

#[test]
fn test_analyze_article_without_h1() {
    let markdown = "Some content without title";
    let filename = "[2024.03.23 Rust]test_file";
    let article = analyze_article(markdown, filename, "default_author");

    assert_eq!(article.title, "test_file");
    assert_eq!(article.markdown, "Some content without title");
}

#[test]
fn metadata_from_file_stem() {
    let stem = std::path::Path::new("[2024.03.23 Rust,C++,CMake]link_rust_in_cmake.md")
        .file_stem()
        .unwrap()
        .to_string_lossy()
        .to_string();
    let article = analyze_article("# Linking Rust in CMake\n\nBody text", &stem, "alice");
    assert_eq!(article.title, "Linking Rust in CMake");
    assert_eq!(article.date, "2024.03.23");
    assert_eq!(article.tags, vec!["Rust", "C++", "CMake"]);
    assert_eq!(article.author, "alice");
    assert_eq!(article.filename, "link_rust_in_cmake");
    assert_eq!(article.markdown, "Body text");
    assert!(article.html.is_none());
    assert!(article.url_path.is_none());
}

#[test]
fn author_field_overrides_default() {
    let stem = std::path::Path::new("[2024.01.01 Go alice]post.md")
        .file_stem()
        .unwrap()
        .to_string_lossy()
        .to_string();
    let article = analyze_article("text", &stem, "bob");
    assert_eq!(article.author, "alice");
    assert_eq!(article.tags, vec!["Go"]);
    assert_eq!(article.filename, "post");
}

#[test]
fn no_heading_keeps_body() {
    let article = analyze_article("no heading here", "my-post", "alice");
    assert_eq!(article.title, "my-post");
    assert_eq!(article.markdown, "no heading here");
    assert_eq!(article.date, "");
    assert!(article.tags.is_empty());
    assert_eq!(article.author, "alice");
    assert_eq!(article.filename, "my-post");
}

#[test]
fn malformed_headers_degrade() {
    let a = analyze_article("x", "[]name", "d");
    assert_eq!(a.filename, "[]name");
    assert_eq!(a.date, "");
    let b = analyze_article("x", "[unclosed name", "d");
    assert_eq!(b.filename, "[unclosed name");
    let c = analyze_article("x", "[   ]name", "d");
    assert_eq!(c.filename, "name");
    assert_eq!(c.date, "");
    assert!(c.tags.is_empty());
    assert_eq!(c.author, "d");
}

#[test]
fn empty_tags_are_kept() {
    let a = analyze_article("x", "[2024 a,,b]n", "d");
    assert_eq!(a.tags, vec!["a", "", "b"]);
}

#[test]
fn title_line_endings() {
    let a = analyze_article("# T\r\n\r\nBody\r\nmore", "n", "d");
    assert_eq!(a.title, "T");
    assert_eq!(a.markdown, "Body\r\nmore");
    let b = analyze_article("# Only", "n", "d");
    assert_eq!(b.title, "Only");
    assert_eq!(b.markdown, "");
    let c = analyze_article("#NoSpace\nx", "n", "d");
    assert_eq!(c.title, "n");
    assert_eq!(c.markdown, "#NoSpace\nx");
}
