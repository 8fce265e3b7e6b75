use blog_generator::escape::{escape_html, escape_xml, html_escape};

#[test]
fn test_html_escape() {
    assert_eq!(html_escape("<script>"), "&lt;script&gt;");
}

#[test]
fn test_escape_html() {
    assert_eq!(escape_html("<script>"), "&lt;script&gt;");
}

#[test]
fn test_escape_xml() {
    assert_eq!(escape_xml("<test>"), "&lt;test&gt;");
    assert_eq!(escape_xml("&"), "&amp;");
}

#[test]
fn escape_html_all_specials() {
    assert_eq!(escape_html("a&b<c>d\"e'f"), "a&amp;b&lt;c&gt;d&quot;e&#39;f");
    assert_eq!(escape_html(""), "");
    assert_eq!(escape_html("plain ü text"), "plain ü text");
}

#[test]
fn escape_xml_apostrophe() {
    assert_eq!(escape_xml("it's \"x\""), "it&apos;s &quot;x&quot;");
}
