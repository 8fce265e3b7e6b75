//! The Markdown renderer: math first, then the Markdown parser, with code
//! blocks sent to the highlighter, images made into captioned figures and
//! a `[TOC]` paragraph marked; afterwards heading anchors and the table of
//! contents.
use vstd::prelude::*;
use pulldown_cmark::{CodeBlockKind, Event, Options, Parser, Tag};
use syntect::highlighting::ThemeSet;
use syntect::parsing::SyntaxSet;
use crate::escape::{escape_html, html_escaped};
use crate::headings::{add_heading_anchors, html_headings, html_with_anchors, recs_view};
use crate::math::{math_processed, opt_view, process_math};
use crate::text::{
    chars_of, contains, contains_seq, equals_str, lowercase_of, push_str,
    replace_all, replaced_from, string_of, to_lowercase, trim_range, trimmed,
};
use crate::toc::{generate_toc, toc_html};

verus! {

#[verifier::external_type_specification]
#[verifier::external_body]
pub struct ExEvent<'a>(Event<'a>);

#[verifier::external_type_specification]
#[verifier::external_body]
pub struct ExSyntaxSet(SyntaxSet);

#[verifier::external_type_specification]
#[verifier::external_body]
pub struct ExThemeSet(ThemeSet);

/// A parser event as the renderer sees it: the events it intercepts, with
/// their text, and every other event by its index in the parse.
#[derive(Debug)]
pub enum MdEvent {
    /// Start of a code block, with its language tag (empty for none).
    CodeStart(String),
    CodeEnd,
    Text(String),
    /// Start of an image, with its URL and title.
    ImageStart(String, String),
    /// End of an image, with its title.
    ImageEnd(String),
    /// Any other event: its index among the parser's events.
    Other(usize),
}

/// The value of a parser event.
pub enum EvV {
    CodeStart(Seq<char>),
    CodeEnd,
    Text(Seq<char>),
    ImageStart(Seq<char>, Seq<char>),
    ImageEnd(Seq<char>),
    Other(int),
}

pub open spec fn ev_view(e: MdEvent) -> EvV {
    match e {
        MdEvent::CodeStart(l) => EvV::CodeStart(l@),
        MdEvent::CodeEnd => EvV::CodeEnd,
        MdEvent::Text(t) => EvV::Text(t@),
        MdEvent::ImageStart(u, t) => EvV::ImageStart(u@, t@),
        MdEvent::ImageEnd(t) => EvV::ImageEnd(t@),
        MdEvent::Other(k) => EvV::Other(k as int),
    }
}

pub open spec fn events_view(v: Seq<MdEvent>) -> Seq<EvV> {
    v.map_values(|e: MdEvent| ev_view(e))
}

/// What the renderer emits for the events: raw HTML, text, a code block
/// still to highlight (code, language tag), or a parser event passed on
/// by its index.
pub enum Emit {
    Html(String),
    Text(String),
    Code(String, String),
    Keep(usize),
}

/// The value of an emitted item.
pub enum EmitV {
    Html(Seq<char>),
    Text(Seq<char>),
    Code(Seq<char>, Seq<char>),
    Keep(int),
}

pub open spec fn emit_view(e: Emit) -> EmitV {
    match e {
        Emit::Html(s) => EmitV::Html(s@),
        Emit::Text(s) => EmitV::Text(s@),
        Emit::Code(c, l) => EmitV::Code(c@, l@),
        Emit::Keep(k) => EmitV::Keep(k as int),
    }
}

pub open spec fn emits_view(v: Seq<Emit>) -> Seq<EmitV> {
    v.map_values(|e: Emit| emit_view(e))
}

/// The comment that marks where the table of contents goes.
pub open spec fn toc_mark() -> Seq<char> {
    "<!-- TOC_PLACEHOLDER -->"@
}

/// The opening of a figure for an image with the given URL and title.
pub open spec fn figure_open(url: Seq<char>, title: Seq<char>) -> Seq<char> {
    "<figure><a href=\""@ + url + "\"><img src=\""@ + url + "\" alt=\""@ + title
        + "\" title=\""@ + title + "\" tabindex=\"-1\">"@
}

/// The closing of a figure: with a caption where the title is not empty.
pub open spec fn figure_close(title: Seq<char>) -> Seq<char> {
    if title.len() == 0 {
        "</a></figure>"@
    } else {
        "</a><figcaption>"@ + title + "</figcaption></figure>"@
    }
}

/// The state after a prefix of the events: what was emitted, whether a
/// code block is open, its language tag and the code gathered so far.
pub open spec fn emit_state(evs: Seq<EvV>, toc: bool) -> (
    Seq<EmitV>,
    bool,
    Seq<char>,
    Seq<char>,
)
    decreases evs.len(),
{
    if evs.len() == 0 {
        (Seq::empty(), false, Seq::empty(), Seq::empty())
    } else {
        let (out, in_code, lang, buf) = emit_state(evs.drop_last(), toc);
        match evs.last() {
            EvV::CodeStart(l) => (out, true, l, Seq::empty()),
            EvV::CodeEnd => (out.push(EmitV::Code(buf, lang)), false, lang, buf),
            EvV::Text(t) => if in_code {
                (out, in_code, lang, buf + t)
            } else if out.len() > 0 && out.last() is Text {
                (out.drop_last().push(EmitV::Text(out.last()->Text_0 + t)), in_code, lang, buf)
            } else {
                (out.push(EmitV::Text(t)), in_code, lang, buf)
            },
            EvV::ImageStart(url, title) => (
                out.push(EmitV::Html(figure_open(url, title))),
                in_code,
                lang,
                buf,
            ),
            EvV::ImageEnd(title) => (
                out.push(EmitV::Html(figure_close(title))),
                in_code,
                lang,
                buf,
            ),
            EvV::Other(k) => (out.push(EmitV::Keep(k)), in_code, lang, buf),
        }
    }
}

/// An emitted item with the table of contents marked: where one was asked
/// for, a text reading `[TOC]` (whitespace aside) becomes the mark.
pub open spec fn mark_item(e: EmitV, toc: bool) -> EmitV {
    match e {
        EmitV::Text(t) => if toc && trimmed(t) == "[TOC]"@ {
            EmitV::Html(toc_mark())
        } else {
            e
        },
        _ => e,
    }
}

/// What the renderer emits for the events: code block contents gathered
/// into one item per block, adjacent texts joined, images made into
/// figures, a text reading `[TOC]` marked where a table of contents was
/// asked for, and every other event passed on.
pub open spec fn emitted(evs: Seq<EvV>, toc: bool) -> Seq<EmitV> {
    marked(emit_state(evs, toc).0, toc)
}

/// The items with the table of contents marked.
pub open spec fn marked(items: Seq<EmitV>, toc: bool) -> Seq<EmitV> {
    items.map_values(|e: EmitV| mark_item(e, toc))
}

/// Handles the parser's events (see `emitted`).
pub fn plan_events(events: Vec<MdEvent>, toc: bool) -> (r: Vec<Emit>)
    ensures
        emits_view(r@) == emitted(events_view(events@), toc),
{
    let items = gather_events(events, toc);
    let ghost iv = emits_view(items@);
    let mut out: Vec<Emit> = Vec::new();
    for e in it: items
        invariant
            iv == emits_view(it.seq()),
            emits_view(out@) == marked(iv.subrange(0, it.index() as int), toc),
    {
        let ghost idx = it.index();
        let ghost before = emits_view(out@);
        let ghost ev = emit_view(e);
        assert(iv[idx as int] == ev);
        assert(iv.subrange(0, idx + 1) =~= iv.subrange(0, idx as int).push(ev));
        let m = match e {
            Emit::Text(t) => {
                let tc = chars_of(t.as_str());
                let tt = trim_range(&tc, 0, tc.len());
                assert(tc@.subrange(0, tc@.len() as int) == tc@);
                if toc && equals_str(&tt, "[TOC]") {
                    Emit::Html(lit("<!-- TOC_PLACEHOLDER -->"))
                } else {
                    Emit::Text(t)
                }
            },
            other => other,
        };
        assert(emit_view(m) == mark_item(ev, toc));
        out.push(m);
        let ghost next = iv.subrange(0, idx + 1);
        assert(emits_view(out@) =~= before.push(emit_view(m)));
        assert(marked(next, toc).len() == next.len());
        assert forall|k: int| 0 <= k < next.len() implies #[trigger] marked(next, toc)[k]
            == emits_view(out@)[k] by {
            if k < idx {
                assert(next[k] == iv.subrange(0, idx as int)[k]);
                assert(before[k] == mark_item(iv.subrange(0, idx as int)[k], toc));
            } else {
                assert(next[k] == ev);
            }
        }
        assert(emits_view(out@) =~= marked(next, toc));
    }
    assert(iv.subrange(0, iv.len() as int) == iv);
    out
}

fn lit(s: &str) -> (r: String)
    ensures
        r@ == s@,
{
    String::from_str(s)
}

fn gather_events(events: Vec<MdEvent>, toc: bool) -> (r: Vec<Emit>)
    ensures
        emits_view(r@) == emit_state(events_view(events@), toc).0,
{
    let ghost all = events_view(events@);
    let mut out: Vec<Emit> = Vec::new();
    let mut in_code = false;
    let mut lang: Vec<char> = Vec::new();
    let mut buf: Vec<char> = Vec::new();
    for ev in it: events
        invariant
            all == events_view(it.seq()),
            (emits_view(out@), in_code, lang@, buf@) == emit_state(
                all.subrange(0, it.index() as int),
                toc,
            ),
    {
        let ghost idx = it.index();
        proof {
            assert(all.subrange(0, idx + 1).drop_last() =~= all.subrange(0, idx as int));
            assert(all.subrange(0, idx + 1).last() == all[idx as int]);
            assert(all[idx as int] == ev_view(ev));
        }
        let ghost before = emits_view(out@);
        match ev {
            MdEvent::CodeStart(l) => {
                in_code = true;
                lang = chars_of(l.as_str());
                buf = Vec::new();
            },
            MdEvent::CodeEnd => {
                in_code = false;
                let c = string_of(buf.as_slice());
                let l = string_of(lang.as_slice());
                out.push(Emit::Code(c, l));
                assert(emits_view(out@) =~= before.push(EmitV::Code(buf@, lang@)));
            },
            MdEvent::Text(t) => {
                if in_code {
                    push_str(&mut buf, t.as_str());
                } else {
                    let mut merged = false;
                    if out.len() > 0 {
                        let last = out.pop();
                        match last {
                            Some(Emit::Text(u)) => {
                                let mut v = chars_of(u.as_str());
                                push_str(&mut v, t.as_str());
                                out.push(Emit::Text(string_of(v.as_slice())));
                                merged = true;
                                assert(emits_view(out@) =~= before.drop_last().push(
                                    EmitV::Text(before.last()->Text_0 + t@),
                                ));
                            },
                            Some(other) => {
                                out.push(other);
                                assert(emits_view(out@) =~= before);
                            },
                            None => {},
                        }
                    }
                    if !merged {
                        let ghost tv = t@;
                        out.push(Emit::Text(t));
                        assert(emits_view(out@) =~= before.push(EmitV::Text(tv)));
                    }
                }
            },
            MdEvent::ImageStart(url, title) => {
                let mut h: Vec<char> = Vec::new();
                push_str(&mut h, "<figure><a href=\"");
                push_str(&mut h, url.as_str());
                push_str(&mut h, "\"><img src=\"");
                push_str(&mut h, url.as_str());
                push_str(&mut h, "\" alt=\"");
                push_str(&mut h, title.as_str());
                push_str(&mut h, "\" title=\"");
                push_str(&mut h, title.as_str());
                push_str(&mut h, "\" tabindex=\"-1\">");
                assert(h@ =~= figure_open(url@, title@));
                out.push(Emit::Html(string_of(h.as_slice())));
                assert(emits_view(out@) =~= before.push(EmitV::Html(figure_open(url@, title@))));
            },
            MdEvent::ImageEnd(title) => {
                let mut h: Vec<char> = Vec::new();
                if title.as_str().is_empty() {
                    push_str(&mut h, "</a></figure>");
                } else {
                    push_str(&mut h, "</a><figcaption>");
                    push_str(&mut h, title.as_str());
                    push_str(&mut h, "</figcaption></figure>");
                }
                assert(h@ =~= figure_close(title@));
                out.push(Emit::Html(string_of(h.as_slice())));
                assert(emits_view(out@) =~= before.push(EmitV::Html(figure_close(title@))));
            },
            MdEvent::Other(k) => {
                out.push(Emit::Keep(k));
                assert(emits_view(out@) =~= before.push(EmitV::Keep(k as int)));
            },
        }
    }
    assert(all.subrange(0, all.len() as int) == all);
    out
}

/// The highlighter's name for a language tag, looked up in lowercase:
/// common aliases map to their language, anything else to plain text.
pub open spec fn syntax_name(tag: Seq<char>) -> Seq<char> {
    let l = lowercase_of(tag);
    if l == "c++"@ || l == "cpp"@ {
        "C++"@
    } else if l == "c"@ {
        "C"@
    } else if l == "rust"@ || l == "rs"@ {
        "Rust"@
    } else if l == "python"@ || l == "py"@ {
        "Python"@
    } else if l == "javascript"@ || l == "js"@ {
        "JavaScript"@
    } else if l == "typescript"@ || l == "ts"@ {
        "TypeScript"@
    } else if l == "go"@ {
        "Go"@
    } else if l == "java"@ {
        "Java"@
    } else if l == "bash"@ || l == "shell"@ || l == "sh"@ {
        "Bash"@
    } else if l == "json"@ {
        "JSON"@
    } else if l == "yaml"@ || l == "yml"@ {
        "YAML"@
    } else if l == "toml"@ {
        "TOML"@
    } else if l == "html"@ {
        "HTML"@
    } else if l == "css"@ {
        "CSS"@
    } else if l == "sql"@ {
        "SQL"@
    } else if l == "xml"@ {
        "XML"@
    } else if l == "markdown"@ || l == "md"@ {
        "Markdown"@
    } else if l == "makefile"@ || l == "make"@ {
        "Makefile"@
    } else if l == "cmake"@ {
        "CMake"@
    } else if l == "diff"@ {
        "Diff"@
    } else if l == "protobuf"@ || l == "proto"@ {
        "Protocol Buffers"@
    } else if l == "lua"@ {
        "Lua"@
    } else if l == "asm"@ || l == "assembly"@ || l == "nasm"@ {
        "Assembly x86 (NASM)"@
    } else {
        "Plain Text"@
    }
}

/// Maps a code block's language tag to the highlighter's syntax name.
pub fn map_language(lang: &str) -> (r: &'static str)
    ensures
        r@ == syntax_name(lang@),
{
    let lower = to_lowercase(lang);
    let l = chars_of(lower.as_str());
    if equals_str(&l, "c++") || equals_str(&l, "cpp") {
        "C++"
    } else if equals_str(&l, "c") {
        "C"
    } else if equals_str(&l, "rust") || equals_str(&l, "rs") {
        "Rust"
    } else if equals_str(&l, "python") || equals_str(&l, "py") {
        "Python"
    } else if equals_str(&l, "javascript") || equals_str(&l, "js") {
        "JavaScript"
    } else if equals_str(&l, "typescript") || equals_str(&l, "ts") {
        "TypeScript"
    } else if equals_str(&l, "go") {
        "Go"
    } else if equals_str(&l, "java") {
        "Java"
    } else if equals_str(&l, "bash") || equals_str(&l, "shell") || equals_str(&l, "sh") {
        "Bash"
    } else if equals_str(&l, "json") {
        "JSON"
    } else if equals_str(&l, "yaml") || equals_str(&l, "yml") {
        "YAML"
    } else if equals_str(&l, "toml") {
        "TOML"
    } else if equals_str(&l, "html") {
        "HTML"
    } else if equals_str(&l, "css") {
        "CSS"
    } else if equals_str(&l, "sql") {
        "SQL"
    } else if equals_str(&l, "xml") {
        "XML"
    } else if equals_str(&l, "markdown") || equals_str(&l, "md") {
        "Markdown"
    } else if equals_str(&l, "makefile") || equals_str(&l, "make") {
        "Makefile"
    } else if equals_str(&l, "cmake") {
        "CMake"
    } else if equals_str(&l, "diff") {
        "Diff"
    } else if equals_str(&l, "protobuf") || equals_str(&l, "proto") {
        "Protocol Buffers"
    } else if equals_str(&l, "lua") {
        "Lua"
    } else if equals_str(&l, "asm") || equals_str(&l, "assembly") || equals_str(&l, "nasm") {
        "Assembly x86 (NASM)"
    } else {
        "Plain Text"
    }
}

/// The block that stands for a code block the highlighter could not
/// handle: the escaped code in `<pre><code>`, tagged with the lowercased
/// language.
pub open spec fn plain_code_block(code: Seq<char>, lang: Seq<char>) -> Seq<char> {
    "<pre class=\"language-"@ + lowercase_of(lang) + "\"><code class=\"language-"@
        + lowercase_of(lang) + "\">"@ + html_escaped(code) + "</code></pre>"@
}

/// The HTML for a code block given the highlighter's result: that result,
/// or the plain escaped block where there is none.
pub fn code_block_html(code: &str, lang: &str, highlighted: Option<String>) -> (r: String)
    ensures
        r@ == match highlighted {
            Some(h) => h@,
            None => plain_code_block(code@, lang@),
        },
{
    match highlighted {
        Some(h) => h,
        None => {
            let l = to_lowercase(lang);
            let e = escape_html(code);
            let mut out: Vec<char> = Vec::new();
            push_str(&mut out, "<pre class=\"language-");
            push_str(&mut out, l.as_str());
            push_str(&mut out, "\"><code class=\"language-");
            push_str(&mut out, l.as_str());
            push_str(&mut out, "\">");
            push_str(&mut out, e.as_str());
            push_str(&mut out, "</code></pre>");
            assert(out@ =~= plain_code_block(code@, lang@));
            string_of(out.as_slice())
        },
    }
}

/// The HTML after the parser: heading anchors added, and where a table of
/// contents was asked for, the mark replaced by it (by nothing where no
/// heading of levels one to three was found).
pub open spec fn finished(html: Seq<char>, toc: bool) -> Seq<char> {
    let anchored = html_with_anchors(html);
    let recs = html_headings(html);
    if toc {
        let t = if exists|k: int| 0 <= k < recs.len() && recs[k].0 <= 3 {
            toc_html(recs)
        } else {
            Seq::empty()
        };
        replaced_from(anchored, toc_mark(), t, 0)
    } else {
        anchored
    }
}

/// Adds heading anchors to the parser's HTML and, where `toc` is set, puts
/// the table of contents in place of its mark.
pub fn finish_html(html: &str, toc: bool) -> (r: String)
    ensures
        r@ == finished(html@, toc),
{
    let (anchored, recs) = add_heading_anchors(html);
    if !toc {
        return anchored;
    }
    let ghost rv = recs_view(recs@);
    let mut any = false;
    let mut i: usize = 0;
    while i < recs.len()
        invariant
            i <= recs@.len(),
            rv == recs_view(recs@),
            any == exists|k: int| 0 <= k < i && rv[k].0 <= 3,
        decreases recs@.len() - i,
    {
        assert(rv[i as int].0 == recs@[i as int].level as int);
        if recs[i].level <= 3 {
            any = true;
        }
        i = i + 1;
    }
    let t: Vec<char> = if any {
        let s = generate_toc(&recs);
        chars_of(s.as_str())
    } else {
        Vec::new()
    };
    let mark = chars_of("<!-- TOC_PLACEHOLDER -->");
    proof {
        reveal_strlit("<!-- TOC_PLACEHOLDER -->");
    }
    let a = chars_of(anchored.as_str());
    let out = replace_all(&a, mark.as_slice(), t.as_slice());
    string_of(out.as_slice())
}

/// Relies on `SyntaxSet::load_defaults_newlines`: syntect's bundled syntax
/// definitions.
#[verifier::external_body]
fn default_syntaxes() -> SyntaxSet {
    SyntaxSet::load_defaults_newlines()
}

/// Relies on `ThemeSet::load_defaults`: syntect's bundled color themes.
#[verifier::external_body]
fn default_themes() -> ThemeSet {
    ThemeSet::load_defaults()
}

/// Whether syntect's bundled syntax definitions hold one of that name.
pub uninterp spec fn bundled_syntax_named(name: Seq<char>) -> bool;

/// The name of the bundled syntax that syntect picks for a file extension,
/// if there is one.
pub uninterp spec fn bundled_syntax_for_extension(ext: Seq<char>) -> Option<Seq<char>>;

/// What syntect's highlighter returns for code with the bundled syntax and
/// theme of those names: its HTML, or `None` where the syntax or the theme
/// is missing or highlighting fails.
pub uninterp spec fn highlight_outcome(code: Seq<char>, syntax: Seq<char>, theme: Seq<char>) -> Option<
    Seq<char>,
>;

/// The events that pulldown-cmark gives for a text, with tables, footnotes,
/// strikethrough and task lists enabled, as the renderer sees them.
pub uninterp spec fn cmark_events(text: Seq<char>) -> Seq<EvV>;

/// A piece of the HTML to write: raw HTML, text, or an event of the parse
/// by its index.
pub enum HtmlPiece {
    Html(String),
    Text(String),
    Parsed(usize),
}

/// The value of a piece.
pub enum PieceV {
    Html(Seq<char>),
    Text(Seq<char>),
    Parsed(int),
}

pub open spec fn piece_view(p: HtmlPiece) -> PieceV {
    match p {
        HtmlPiece::Html(s) => PieceV::Html(s@),
        HtmlPiece::Text(s) => PieceV::Text(s@),
        HtmlPiece::Parsed(k) => PieceV::Parsed(k as int),
    }
}

pub open spec fn pieces_view(v: Seq<HtmlPiece>) -> Seq<PieceV> {
    v.map_values(|p: HtmlPiece| piece_view(p))
}

/// The HTML that pulldown-cmark writes for the pieces, each parsed piece
/// standing for the event of that index in the parse of `text`.
pub uninterp spec fn cmark_html(text: Seq<char>, pieces: Seq<PieceV>) -> Seq<char>;

/// Relies on `pulldown_cmark::Parser::new_ext` with tables, footnotes,
/// strikethrough and task lists enabled: its events in order, each
/// converted by `md_event` with its index.
#[verifier::external_body]
fn parse_events(text: &str) -> (r: Vec<MdEvent>)
    ensures
        events_view(r@) == cmark_events(text@),
        forall|k: int| 0 <= k < r@.len() && (#[trigger] r@[k]) is Other ==> r@[k]->Other_0 == k,
{
    let options = Options::ENABLE_TABLES | Options::ENABLE_FOOTNOTES
        | Options::ENABLE_STRIKETHROUGH | Options::ENABLE_TASKLISTS;
    Parser::new_ext(text, options).enumerate().map(|(k, e)| md_event(k, e)).collect()
}

/// Tells pulldown-cmark's event variants apart for `parse_events`: code
/// block and image starts and ends and text carry their strings over;
/// any other event is given by its index `k`.
#[verifier::external_body]
fn md_event(k: usize, e: Event) -> MdEvent {
    match e {
        Event::Start(Tag::CodeBlock(CodeBlockKind::Fenced(l))) => MdEvent::CodeStart(l.to_string()),
        Event::Start(Tag::CodeBlock(CodeBlockKind::Indented)) => MdEvent::CodeStart(String::new()),
        Event::End(Tag::CodeBlock(_)) => MdEvent::CodeEnd,
        Event::Text(t) => MdEvent::Text(t.to_string()),
        Event::Start(Tag::Image(_, u, t)) => MdEvent::ImageStart(u.to_string(), t.to_string()),
        Event::End(Tag::Image(_, _, t)) => MdEvent::ImageEnd(t.to_string()),
        _ => MdEvent::Other(k),
    }
}

/// Relies on `pulldown_cmark::html::push_html` over the events that the
/// pieces stand for: raw HTML and text events made of their strings, and
/// each parsed piece the event of that index from `Parser::new_ext` on
/// `text` with the options of `parse_events`.
#[verifier::external_body]
fn render_pieces(text: &str, pieces: Vec<HtmlPiece>) -> (r: String)
    requires
        forall|k: int|
            0 <= k < pieces@.len() && (#[trigger] pieces@[k]) is Parsed ==> pieces@[k]->Parsed_0
                < cmark_events(text@).len(),
    ensures
        r@ == cmark_html(text@, pieces_view(pieces@)),
{
    let options = Options::ENABLE_TABLES | Options::ENABLE_FOOTNOTES
        | Options::ENABLE_STRIKETHROUGH | Options::ENABLE_TASKLISTS;
    let parsed: Vec<Event> = Parser::new_ext(text, options).collect();
    let events = pieces.into_iter().map(|p| match p {
        HtmlPiece::Html(s) => Event::Html(s.into()),
        HtmlPiece::Text(s) => Event::Text(s.into()),
        HtmlPiece::Parsed(k) => parsed[k].clone(),
    });
    let mut out = String::new();
    pulldown_cmark::html::push_html(&mut out, events);
    out
}

/// Whether the text asks for a table of contents.
pub open spec fn toc_requested(s: Seq<char>) -> bool {
    contains_seq(s, "[TOC]"@)
}

/// The syntax a code block is highlighted with: the highlighter's name for
/// its language tag where the bundled syntaxes have it, else the syntax for
/// the tag as a file extension, else plain text.
pub open spec fn chosen_syntax(lang: Seq<char>) -> Seq<char> {
    if bundled_syntax_named(syntax_name(lang)) {
        syntax_name(lang)
    } else {
        match bundled_syntax_for_extension(lang) {
            Some(n) => n,
            None => "Plain Text"@,
        }
    }
}

/// The theme code is highlighted with.
pub open spec fn code_theme() -> Seq<char> {
    "base16-ocean.dark"@
}

/// The HTML for a code block: the highlighter's output with the chosen
/// syntax and the theme, or the plain escaped block where it gives none.
pub open spec fn highlighted_block(code: Seq<char>, lang: Seq<char>) -> Seq<char> {
    match highlight_outcome(code, chosen_syntax(lang), code_theme()) {
        Some(h) => h,
        None => plain_code_block(code, lang),
    }
}

/// The piece written for an emitted item: code blocks become their
/// highlighted HTML, kept events stand by their index.
pub open spec fn piece_of(e: EmitV) -> PieceV {
    match e {
        EmitV::Html(s) => PieceV::Html(s),
        EmitV::Text(s) => PieceV::Text(s),
        EmitV::Code(c, l) => PieceV::Html(highlighted_block(c, l)),
        EmitV::Keep(k) => PieceV::Parsed(k),
    }
}

pub open spec fn pieces_of(items: Seq<EmitV>) -> Seq<PieceV> {
    items.map_values(|e: EmitV| piece_of(e))
}

/// The HTML for an article body: math rendered, parsed, its events handled
/// (see `emitted`) with code blocks highlighted, written out by the parser's
/// HTML writer, then anchors and the table of contents added.
pub open spec fn rendered_page(markdown: Seq<char>) -> Seq<char> {
    let p = math_processed(markdown);
    let toc = toc_requested(p);
    finished(cmark_html(p, pieces_of(emitted(cmark_events(p), toc))), toc)
}

/// Every kept event of the emitted items is one of the parsed events.
proof fn lemma_kept_in_range(evs: Seq<EvV>, toc: bool)
    requires
        forall|k: int| 0 <= k < evs.len() && (#[trigger] evs[k]) is Other ==> evs[k]->Other_0 == k,
    ensures
        forall|j: int|
            0 <= j < emit_state(evs, toc).0.len() && (#[trigger] emit_state(evs, toc).0[j]) is Keep
                ==> 0 <= emit_state(evs, toc).0[j]->Keep_0 < evs.len(),
    decreases evs.len(),
{
    if evs.len() > 0 {
        let p = evs.drop_last();
        assert forall|k: int| 0 <= k < p.len() && (#[trigger] p[k]) is Other implies p[k]->Other_0
            == k by {
            assert(p[k] == evs[k]);
        }
        lemma_kept_in_range(p, toc);
        let out = emit_state(p, toc).0;
        let now = emit_state(evs, toc).0;
        assert(evs.last() == evs[evs.len() - 1]);
        assert forall|j: int| 0 <= j < now.len() && (#[trigger] now[j]) is Keep implies 0
            <= now[j]->Keep_0 < evs.len() by {
            if j < out.len() {
                if now[j] != out[j] {
                    assert(j == out.len() - 1);
                }
            }
        }
    }
}

/// Renders Markdown articles to HTML. Holds syntect's bundled syntax
/// definitions and themes, loaded once; no renderer holds any others.
pub struct MarkdownRenderer {
    syntax_set: SyntaxSet,
    theme_set: ThemeSet,
}

impl MarkdownRenderer {
    /// A renderer with the highlighter's bundled syntaxes and themes.
    pub fn new() -> Self {
        MarkdownRenderer { syntax_set: default_syntaxes(), theme_set: default_themes() }
    }

    /// Relies on `SyntaxSet::find_syntax_by_name` over the bundled syntaxes
    /// that every renderer holds: whether one has that name.
    #[verifier::external_body]
    fn has_syntax(&self, name: &str) -> (r: bool)
        ensures
            r == bundled_syntax_named(name@),
    {
        self.syntax_set.find_syntax_by_name(name).is_some()
    }

    /// Relies on `SyntaxSet::find_syntax_by_extension` over the bundled
    /// syntaxes: the name of the syntax it finds.
    #[verifier::external_body]
    fn syntax_for_extension(&self, ext: &str) -> (r: Option<String>)
        ensures
            opt_view(r) == bundled_syntax_for_extension(ext@),
    {
        self.syntax_set.find_syntax_by_extension(ext).map(|s| s.name.clone())
    }

    /// Relies on `syntect::html::highlighted_html_for_string`, with the
    /// bundled syntax and theme of those names (`find_syntax_by_name`,
    /// `ThemeSet::themes`); `None` where either is missing or on its error.
    #[verifier::external_body]
    fn highlighted(&self, code: &str, syntax: &str, theme: &str) -> (r: Option<String>)
        ensures
            opt_view(r) == highlight_outcome(code@, syntax@, theme@),
    {
        let s = self.syntax_set.find_syntax_by_name(syntax)?;
        let t = self.theme_set.themes.get(theme)?;
        syntect::html::highlighted_html_for_string(code, &self.syntax_set, s, t).ok()
    }

    /// Highlights a code block (see `highlighted_block`).
    fn highlight_code(&self, code: &str, lang: &str) -> (r: String)
        ensures
            r@ == highlighted_block(code@, lang@),
    {
        let name = map_language(lang);
        let syntax = if self.has_syntax(name) {
            String::from_str(name)
        } else {
            match self.syntax_for_extension(lang) {
                Some(n) => n,
                None => String::from_str("Plain Text"),
            }
        };
        let outcome = self.highlighted(code, syntax.as_str(), "base16-ocean.dark");
        code_block_html(code, lang, outcome)
    }

    /// Renders an article body to HTML (see `rendered_page`): math, Markdown
    /// with highlighted code and captioned images, heading anchors, and a
    /// table of contents where the body holds `[TOC]`.
    pub fn render(&self, markdown: &str) -> (r: String)
        ensures
            r@ == rendered_page(markdown@),
    {
        let processed = process_math(markdown);
        let pc = chars_of(processed.as_str());
        let mark = chars_of("[TOC]");
        proof {
            reveal_strlit("[TOC]");
        }
        let toc = contains(&pc, mark.as_slice());
        let events = parse_events(processed.as_str());
        let ghost evs = cmark_events(processed@);
        proof {
            assert forall|k: int| 0 <= k < evs.len() && (#[trigger] evs[k]) is Other
                implies evs[k]->Other_0 == k by {
                assert(evs[k] == ev_view(events@[k]));
            }
            lemma_kept_in_range(evs, toc);
        }
        let plan = plan_events(events, toc);
        let ghost items = emitted(evs, toc);
        proof {
            let st = emit_state(evs, toc).0;
            assert forall|j: int| 0 <= j < items.len() && (#[trigger] items[j]) is Keep
                implies 0 <= items[j]->Keep_0 < evs.len() by {
                assert(items[j] == mark_item(st[j], toc));
            }
        }
        let mut pieces: Vec<HtmlPiece> = Vec::new();
        for e in it: plan
            invariant
                items == emits_view(it.seq()),
                pieces_view(pieces@) == pieces_of(items.subrange(0, it.index() as int)),
                forall|j: int|
                    0 <= j < items.len() && (#[trigger] items[j]) is Keep ==> 0 <= items[j]->Keep_0
                        < evs.len(),
        {
            let ghost idx = it.index();
            let ghost before = pieces_view(pieces@);
            assert(items[idx as int] == emit_view(e));
            let piece = match e {
                Emit::Html(s) => HtmlPiece::Html(s),
                Emit::Text(s) => HtmlPiece::Text(s),
                Emit::Code(c, l) => HtmlPiece::Html(self.highlight_code(c.as_str(), l.as_str())),
                Emit::Keep(k) => HtmlPiece::Parsed(k),
            };
            assert(piece_view(piece) == piece_of(items[idx as int]));
            pieces.push(piece);
            proof {
                let next = items.subrange(0, idx + 1);
                assert(pieces_view(pieces@) =~= before.push(piece_of(items[idx as int])));
                assert(pieces_of(next).len() == next.len());
                assert forall|k: int| 0 <= k < next.len() implies #[trigger] pieces_of(next)[k]
                    == pieces_view(pieces@)[k] by {
                    if k < idx {
                        assert(next[k] == items.subrange(0, idx as int)[k]);
                        assert(before[k] == piece_of(items.subrange(0, idx as int)[k]));
                    }
                }
                assert(pieces_view(pieces@) =~= pieces_of(next));
            }
        }
        proof {
            assert(items.subrange(0, items.len() as int) == items);
            assert forall|k: int| 0 <= k < pieces@.len() && (#[trigger] pieces@[k]) is Parsed
                implies pieces@[k]->Parsed_0 < cmark_events(processed@).len() by {
                assert(pieces_view(pieces@)[k] == piece_of(items[k]));
            }
        }
        let html = render_pieces(processed.as_str(), pieces);
        finish_html(html.as_str(), toc)
    }
}

} // verus!
