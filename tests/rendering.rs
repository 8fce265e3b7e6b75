use blog_generator::headings::{add_heading_anchors, encode_fragment, slugify, HeadingRecord};
use blog_generator::markdown::{code_block_html, finish_html, map_language, MarkdownRenderer};
use blog_generator::math::{formula_of, math_html, process_math, render_math, segment_html};
use blog_generator::scan::{tokenize, Kind};
use blog_generator::toc::generate_toc;

fn record(level: u32, slug: &str, text: &str) -> HeadingRecord {
    HeadingRecord { level, slug: slug.to_string(), text: text.to_string() }
}

#[test]
fn markdown_test_slugify() {
    assert_eq!(slugify("Hello World"), "hello-world");
    assert_eq!(slugify("Test 123"), "test-123");
}

#[test]
fn slugify_strips_and_collapses() {
    assert_eq!(slugify("  Hello,   World!  "), "hello-world");
    assert_eq!(slugify("a - b"), "a---b");
    assert_eq!(slugify(""), "");
    assert_eq!(slugify("Ünïcode Wörds"), "ünïcode-wörds");
}

#[test]
fn slugify_is_idempotent_on_slugs() {
    for s in ["hello-world", "test-123", "a--b", "-x-", ""] {
        assert_eq!(slugify(s), s);
        assert_eq!(slugify(&slugify(s)), slugify(s));
    }
}

#[test]
fn fragment_encoding() {
    assert_eq!(encode_fragment("hello-world").into_iter().collect::<String>(), "hello-world");
    assert_eq!(encode_fragment("a b").into_iter().collect::<String>(), "a%20b");
    assert_eq!(encode_fragment("é").into_iter().collect::<String>(), "%C3%A9");
}

#[test]
fn test_display_math() {
    let result = process_math("test $$ x^2 $$ end");
    assert!(result.contains("katex"));
}

#[test]
fn code_block_dollars_untouched() {
    let body = "```\nprice: $5$\n```\n$x$";
    let segs = tokenize(body);
    assert_eq!(segs.len(), 3);
    assert_eq!(segs[0].kind, Kind::Code);
    assert_eq!(segs[0].text, "```\nprice: $5$\n```");
    assert_eq!(segs[1].kind, Kind::Prose);
    assert_eq!(segs[2].kind, Kind::InlineMath);
    assert_eq!(segs[2].text, "$x$");
    let out = process_math(body);
    assert!(out.starts_with("```\nprice: $5$\n```\n"));
    assert!(!out.contains("$x$"));
    assert!(out.contains("katex"));
}

#[test]
fn inline_code_protects_dollars() {
    let out = process_math("cost `$a$` and $b$");
    assert!(out.starts_with("cost `$a$` and "));
    assert!(!out.ends_with("$b$"));
}

#[test]
fn plain_prose_round_trip() {
    for s in ["", "just words", "line one\nline two", "a < b & c"] {
        let segs = tokenize(s);
        assert!(segs.iter().all(|g| g.kind == Kind::Prose));
        assert_eq!(process_math(s), s);
    }
}

#[test]
fn unterminated_delimiters_stay_literal() {
    assert_eq!(process_math("costs $5 today"), "costs $5 today");
    assert_eq!(process_math("a $x\ny$ b"), "a $x\ny$ b");
    assert_eq!(process_math("open ``` fence"), "open ``` fence");
    assert_eq!(process_math("tick ` alone"), "tick ` alone");
}

#[test]
fn empty_display_math_renders_nothing() {
    assert_eq!(process_math("a$$$$b"), "ab");
    assert_eq!(process_math("a$$ $$b"), "ab");
}

#[test]
fn failing_renderer_gives_escaped_source() {
    let segs = tokenize("$$ x^2 + y^2 = z^2 $$");
    assert_eq!(segs.len(), 1);
    assert_eq!(segs[0].kind, Kind::DisplayMath);
    assert_eq!(formula_of(&segs[0]), "x^2 + y^2 = z^2");
    assert_eq!(
        segment_html(&segs[0], None),
        "<eqn><p class=\"katex-display\">x^2 + y^2 = z^2</p></eqn>"
    );
    assert_eq!(math_html("a<b", false, None), "a&lt;b");
    assert_eq!(math_html("m", true, Some("R".to_string())), "<eqn><p class=\"katex-display\">R</p></eqn>");
}

#[test]
fn display_math_is_rendered() {
    let out = process_math("$$ x^2 + y^2 = z^2 $$");
    assert!(out.starts_with("<eqn><p class=\"katex-display\">"));
    assert!(out.ends_with("</p></eqn>"));
    assert!(out.contains("katex"));
}

#[test]
fn heading_anchor_link() {
    let (html, recs) = add_heading_anchors("<h2>Hello World</h2>\n<p>x</p>");
    assert_eq!(html, "<h2><a href=\"#hello-world\">Hello World</a></h2>\n<p>x</p>");
    assert_eq!(recs.len(), 1);
    assert_eq!(recs[0].level, 2);
    assert_eq!(recs[0].slug, "hello-world");
    assert_eq!(recs[0].text, "Hello World");
}

#[test]
fn heading_with_markup_gets_no_anchor() {
    let (html, recs) = add_heading_anchors("<h2><em>x</em></h2>");
    assert_eq!(html, "<h2><em>x</em></h2>");
    assert!(recs.is_empty());
}

#[test]
fn render_heading_anchor() {
    let r = MarkdownRenderer::new();
    let html = r.render("## Hello World");
    assert!(html.contains("<h2><a href=\"#hello-world\">Hello World</a></h2>"));
}

#[test]
fn toc_nesting_is_symmetric() {
    let recs = vec![
        record(1, "a", "A"),
        record(2, "b", "B"),
        record(3, "c", "C"),
        record(2, "d", "D"),
        record(1, "e", "E"),
    ];
    let toc = generate_toc(&recs);
    assert_eq!(
        toc,
        "<div class=\"table-of-contents\"><ul><li><a href=\"#a\">A</a></li><ul><li><a href=\"#b\">B</a></li><ul><li><a href=\"#c\">C</a></li></ul><li><a href=\"#d\">D</a></li></ul><li><a href=\"#e\">E</a></li></ul></div>"
    );
    assert_eq!(toc.matches("<ul>").count(), toc.matches("</ul>").count());
}

#[test]
fn toc_skips_deep_levels_and_closes_open_lists() {
    let recs = vec![record(1, "a", "A"), record(4, "x", "X"), record(3, "c", "C")];
    assert_eq!(
        generate_toc(&recs),
        "<div class=\"table-of-contents\"><ul><li><a href=\"#a\">A</a></li><ul><ul><li><a href=\"#c\">C</a></li></ul></ul></ul></div>"
    );
    assert_eq!(generate_toc(&Vec::new()), "");
}

#[test]
fn toc_marker_is_replaced() {
    let html = "<!-- TOC_PLACEHOLDER -->\n<h1>Intro</h1>\n<h2>Part</h2>";
    let out = finish_html(html, true);
    assert!(out.starts_with("<div class=\"table-of-contents\"><ul><li><a href=\"#intro\">Intro</a></li><ul><li><a href=\"#part\">Part</a></li></ul></ul></div>"));
    let none = finish_html("<!-- TOC_PLACEHOLDER --><h4>Deep</h4>", true);
    assert_eq!(none, "<h4><a href=\"#deep\">Deep</a></h4>");
}

#[test]
fn render_with_toc_marker() {
    let r = MarkdownRenderer::new();
    let html = r.render("[TOC]\n\n# Intro\n\n## Part");
    assert!(html.contains("table-of-contents"));
    assert!(html.contains("<a href=\"#part\">Part</a>"));
    assert!(!html.contains("TOC_PLACEHOLDER"));
}

#[test]
fn render_image_figure() {
    let r = MarkdownRenderer::new();
    let html = r.render("![alt](pic.png \"A caption\")");
    assert!(html.contains("<figure><a href=\"pic.png\"><img src=\"pic.png\" alt=\"A caption\" title=\"A caption\" tabindex=\"-1\">"));
    assert!(html.contains("</a><figcaption>A caption</figcaption></figure>"));
    let plain = r.render("![alt](pic.png)");
    assert!(plain.contains("</a></figure>"));
    assert!(!plain.contains("figcaption"));
}

#[test]
fn render_code_block_highlighted() {
    let r = MarkdownRenderer::new();
    let html = r.render("```rust\nlet price = \"$5$\";\n```\n");
    assert!(html.contains("<pre"));
    assert!(html.contains("style="));
    assert!(html.contains("$5$"));
    assert!(!html.contains("katex"));
}

#[test]
fn language_aliases() {
    assert_eq!(map_language("PY"), "Python");
    assert_eq!(map_language("rs"), "Rust");
    assert_eq!(map_language("shell"), "Bash");
    assert_eq!(map_language(""), "Plain Text");
    assert_eq!(map_language("unknown-lang"), "Plain Text");
    assert_eq!(map_language("C++"), "C++");
}

#[test]
fn code_block_fallback() {
    assert_eq!(
        code_block_html("a<b", "RS", None),
        "<pre class=\"language-rs\"><code class=\"language-rs\">a&lt;b</code></pre>"
    );
    assert_eq!(code_block_html("x", "rs", Some("H".to_string())), "H");
}

#[test]
fn display_math_spans_lines() {
    let segs = tokenize("before\n$$\na + b\n$$\nafter");
    assert_eq!(segs.len(), 3);
    assert_eq!(segs[1].kind, Kind::DisplayMath);
    assert_eq!(formula_of(&segs[1]), "a + b");
    let out = process_math("before\n$$\na + b\n$$\nafter");
    assert!(out.starts_with("before\n<eqn><p class=\"katex-display\">"));
    assert!(out.ends_with("</p></eqn>\nafter"));
}

#[test]
fn math_inside_inline_code_is_code() {
    let segs = tokenize("`$$x$$` and ``` $y$ ```");
    assert!(segs.iter().all(|g| g.kind != Kind::DisplayMath && g.kind != Kind::InlineMath));
}

#[test]
fn single_formula_rendering() {
    let inline = render_math("x^2", false);
    assert!(inline.contains("katex"));
    assert!(!inline.starts_with("<eqn>"));
    let display = render_math("x^2", true);
    assert!(display.starts_with("<eqn><p class=\"katex-display\">"));
}
