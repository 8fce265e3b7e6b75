//! Math rendering of an article body. Code regions are recognised first
//! and passed through untouched; display math (`$$...$$`) and inline math
//! (`$...$`) in the remaining prose go to the math renderer, and where it
//! fails the escaped source stands in its place.
use vstd::prelude::*;
use crate::escape::{escape_html, html_escaped};
use crate::scan::{
    body_segments, expand, lemma_refine_texts, lemma_scan_from_texts, prose, refine, region_end, scan,
    scan_from, seg_view, segs_view, texts, tokenize, Kind, Seg, Segment, Stage,
};
use crate::text::{chars_of, push_str, string_of, trim_range, trimmed};

verus! {

/// What the math renderer returns for a formula in the given mode: the
/// typeset HTML, or `None` where it fails.
pub uninterp spec fn katex_output(math: Seq<char>, display: bool) -> Option<Seq<char>>;

pub open spec fn opt_view(o: Option<String>) -> Option<Seq<char>> {
    match o {
        Some(h) => Some(h@),
        None => None,
    }
}

/// Relies on `katex::render_with_opts` with the display mode set as asked:
/// the HTML it returns, or `None` on its error.
#[verifier::external_body]
fn katex_render(math: &str, display: bool) -> (r: Option<String>)
    ensures
        opt_view(r) == katex_output(math@, display),
{
    let mut opts = katex::Opts::default();
    opts.set_display_mode(display);
    katex::render_with_opts(math, &opts).ok()
}

pub open spec fn display_open() -> Seq<char> {
    "<eqn><p class=\"katex-display\">"@
}

pub open spec fn display_close() -> Seq<char> {
    "</p></eqn>"@
}

/// The HTML for a formula: the renderer's output, or the escaped source
/// where it failed; display math goes inside the display container.
pub open spec fn formula_html(src: Seq<char>, display: bool, outcome: Option<Seq<char>>) -> Seq<
    char,
> {
    let inner = match outcome {
        Some(h) => h,
        None => html_escaped(src),
    };
    if display {
        display_open() + inner + display_close()
    } else {
        inner
    }
}

pub open spec fn is_math(k: Kind) -> bool {
    k == Kind::DisplayMath || k == Kind::InlineMath
}

/// The formula of a math segment: the text between `$$` and `$$` without
/// surrounding whitespace, or the text between `$` and `$`.
pub open spec fn math_source(g: Seg) -> Seq<char> {
    if g.0 == Kind::DisplayMath && g.1.len() >= 4 {
        trimmed(g.1.subrange(2, g.1.len() - 2))
    } else if g.0 == Kind::InlineMath && g.1.len() >= 2 {
        g.1.subrange(1, g.1.len() - 1)
    } else {
        Seq::empty()
    }
}

/// The output for a segment, given what the renderer returned for its
/// formula: an empty formula gives nothing, other math its formula HTML,
/// and any other segment its own text.
pub open spec fn segment_output(g: Seg, outcome: Option<Seq<char>>) -> Seq<char> {
    if is_math(g.0) {
        if math_source(g).len() == 0 {
            Seq::empty()
        } else {
            formula_html(math_source(g), g.0 == Kind::DisplayMath, outcome)
        }
    } else {
        g.1
    }
}

/// The output for a segment with the renderer's actual result.
pub open spec fn rendered_segment(g: Seg) -> Seq<char> {
    segment_output(g, katex_output(math_source(g), g.0 == Kind::DisplayMath))
}

/// The outputs of the segments, concatenated.
pub open spec fn rendered(segs: Seq<Seg>) -> Seq<char>
    decreases segs.len(),
{
    if segs.len() == 0 {
        Seq::empty()
    } else {
        rendered(segs.drop_last()) + rendered_segment(segs.last())
    }
}

/// An article body with its math rendered.
pub open spec fn math_processed(s: Seq<char>) -> Seq<char> {
    rendered(body_segments(s))
}

/// The HTML for a formula, given the renderer's result (`None` where it
/// failed).
pub fn math_html(source: &str, display: bool, outcome: Option<String>) -> (r: String)
    ensures
        r@ == formula_html(source@, display, opt_view(outcome)),
{
    let mut out: Vec<char> = Vec::new();
    if display {
        push_str(&mut out, "<eqn><p class=\"katex-display\">");
    }
    match outcome {
        Some(h) => push_str(&mut out, h.as_str()),
        None => {
            let e = escape_html(source);
            push_str(&mut out, e.as_str());
        },
    }
    if display {
        push_str(&mut out, "</p></eqn>");
    }
    let r = string_of(out.as_slice());
    assert(r@ =~= formula_html(source@, display, opt_view(outcome)));
    r
}

/// The formula of a segment (empty for a segment that is not math).
pub fn formula_of(seg: &Segment) -> (r: String)
    ensures
        r@ == math_source(seg_view(*seg)),
{
    let cs = chars_of(seg.text.as_str());
    let n = cs.len();
    if seg.kind == Kind::DisplayMath && n >= 4 {
        let t = trim_range(&cs, 2, n - 2);
        string_of(t.as_slice())
    } else if seg.kind == Kind::InlineMath && n >= 2 {
        crate::text::substring(&cs, 1, n - 1)
    } else {
        String::new()
    }
}

/// The output for a segment given the renderer's result for its formula.
pub fn segment_html(seg: &Segment, outcome: Option<String>) -> (r: String)
    ensures
        r@ == segment_output(seg_view(*seg), opt_view(outcome)),
{
    if seg.kind == Kind::DisplayMath || seg.kind == Kind::InlineMath {
        let src = formula_of(seg);
        if src.as_str().is_empty() {
            String::new()
        } else {
            math_html(src.as_str(), seg.kind == Kind::DisplayMath, outcome)
        }
    } else {
        seg.text.clone()
    }
}

/// Renders one formula, falling back to its escaped source.
pub fn render_math(math: &str, display: bool) -> (r: String)
    ensures
        r@ == formula_html(math@, display, katex_output(math@, display)),
{
    let outcome = katex_render(math, display);
    math_html(math, display, outcome)
}

fn render_segment(seg: &Segment) -> (r: String)
    ensures
        r@ == rendered_segment(seg_view(*seg)),
{
    if seg.kind == Kind::DisplayMath || seg.kind == Kind::InlineMath {
        let src = formula_of(seg);
        if src.as_str().is_empty() {
            segment_html(seg, None)
        } else {
            let outcome = katex_render(src.as_str(), seg.kind == Kind::DisplayMath);
            segment_html(seg, outcome)
        }
    } else {
        segment_html(seg, None)
    }
}

/// Renders the math of an article body; code and prose pass through as
/// they are.
pub fn process_math(content: &str) -> (r: String)
    ensures
        r@ == math_processed(content@),
{
    let segs = tokenize(content);
    let ghost sv = segs_view(segs@);
    let mut out: Vec<char> = Vec::new();
    let mut i: usize = 0;
    while i < segs.len()
        invariant
            i <= segs@.len(),
            sv == segs_view(segs@),
            out@ == rendered(sv.subrange(0, i as int)),
        decreases segs@.len() - i,
    {
        let h = render_segment(&segs[i]);
        push_str(&mut out, h.as_str());
        proof {
            assert(sv.subrange(0, i + 1).drop_last() =~= sv.subrange(0, i as int));
            assert(sv.subrange(0, i + 1).last() == seg_view(segs@[i as int]));
        }
        i = i + 1;
    }
    assert(sv.subrange(0, sv.len() as int) == sv);
    string_of(out.as_slice())
}

proof fn lemma_rendered_append(a: Seq<Seg>, b: Seq<Seg>)
    ensures
        rendered(a + b) == rendered(a) + rendered(b),
    decreases b.len(),
{
    if b.len() == 0 {
        assert(a + b == a);
    } else {
        lemma_rendered_append(a, b.drop_last());
        assert((a + b).drop_last() == a + b.drop_last());
        assert((a + b).last() == b.last());
    }
}

/// Splitting an article body into code, math and prose, and putting the
/// pieces back together, gives the body unchanged.
pub proof fn lemma_segments_round_trip(s: Seq<char>)
    ensures
        texts(body_segments(s)) == s,
{
    lemma_scan_from_texts(Stage::Fence, s, 0, 0);
    assert(s.subrange(0, s.len() as int) == s);
    let a = scan(Stage::Fence, s);
    lemma_refine_texts(Stage::InlineCode, a);
    let b = refine(Stage::InlineCode, a);
    lemma_refine_texts(Stage::DisplayMath, b);
    let c = refine(Stage::DisplayMath, b);
    lemma_refine_texts(Stage::InlineMath, c);
}

/// Code is never touched by math rendering: every code segment of a body
/// (whose segments concatenate to the body) stands in the output verbatim,
/// between the outputs of the segments before and after it.
pub proof fn lemma_code_untouched(s: Seq<char>, j: int)
    requires
        0 <= j < body_segments(s).len(),
        body_segments(s)[j].0 == Kind::Code,
    ensures
        texts(body_segments(s)) == s,
        math_processed(s) == rendered(body_segments(s).subrange(0, j)) + body_segments(s)[j].1
            + rendered(body_segments(s).subrange(j + 1, body_segments(s).len() as int)),
{
    lemma_segments_round_trip(s);
    let segs = body_segments(s);
    let a = segs.subrange(0, j);
    let b = seq![segs[j]];
    let c = segs.subrange(j + 1, segs.len() as int);
    assert(segs == a + b + c);
    lemma_rendered_append(a + b, c);
    lemma_rendered_append(a, b);
    assert(b.drop_last() =~= Seq::<Seg>::empty());
    assert(b.last() == segs[j]);
    assert(rendered(Seq::<Seg>::empty()) == Seq::<char>::empty());
    assert(rendered(b) =~= rendered_segment(segs[j]));
}

proof fn lemma_scan_plain(st: Stage, s: Seq<char>, p: int, i: int)
    requires
        0 <= p <= i <= s.len(),
        st != Stage::Heading,
        forall|k: int| 0 <= k < s.len() ==> s[k] != '`' && s[k] != '$',
    ensures
        scan_from(st, s, p, i) == prose(s.subrange(p, s.len() as int)),
    decreases s.len() - i,
{
    if i < s.len() {
        assert(region_end(st, s, i) == -1) by {
            if st == Stage::Fence {
                if crate::text::occurs_at(s, crate::scan::fence(), i) {
                    assert(s.subrange(i, i + 3)[0] == s[i]);
                }
            }
            if st == Stage::DisplayMath {
                if crate::text::occurs_at(s, crate::scan::dollars(), i) {
                    assert(s.subrange(i, i + 2)[0] == s[i]);
                }
            }
        }
        lemma_scan_plain(st, s, p, i + 1);
    }
}

proof fn lemma_refine_plain(st: Stage, s: Seq<char>)
    requires
        st != Stage::Heading,
        forall|k: int| 0 <= k < s.len() ==> s[k] != '`' && s[k] != '$',
    ensures
        refine(st, prose(s)) == prose(s),
{
    if s.len() > 0 {
        let g = (Kind::Prose, s);
        assert(prose(s).drop_last() =~= Seq::<Seg>::empty());
        assert(prose(s).last() == g);
        lemma_scan_plain(st, s, 0, 0);
        assert(s.subrange(0, s.len() as int) == s);
        assert(refine(st, Seq::<Seg>::empty()) == Seq::<Seg>::empty());
        assert(expand(st, g) == scan(st, s));
        assert(Seq::<Seg>::empty() + prose(s) =~= prose(s));
    }
}

/// Text with no backtick and no dollar sign holds neither code nor math,
/// and math rendering gives it back unchanged.
pub proof fn lemma_plain_prose_unchanged(s: Seq<char>)
    requires
        forall|k: int| 0 <= k < s.len() ==> s[k] != '`' && s[k] != '$',
    ensures
        body_segments(s) == prose(s),
        math_processed(s) == s,
{
    lemma_scan_plain(Stage::Fence, s, 0, 0);
    assert(s.subrange(0, s.len() as int) == s);
    lemma_refine_plain(Stage::InlineCode, s);
    lemma_refine_plain(Stage::DisplayMath, s);
    lemma_refine_plain(Stage::InlineMath, s);
    if s.len() > 0 {
        let p = prose(s);
        assert(p.drop_last() =~= Seq::<Seg>::empty());
        assert(p.last() == (Kind::Prose, s));
        assert(rendered(Seq::<Seg>::empty()) == Seq::<char>::empty());
        assert(rendered_segment((Kind::Prose, s)) == s);
        assert(Seq::<char>::empty() + s =~= s);
    } else {
        assert(s =~= Seq::<char>::empty());
    }
}

} // verus!
