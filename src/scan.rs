//! Splitting text into tagged segments. Each stage recognises one kind of
//! region (fenced code, inline code, display math, inline math, heading
//! element), scanning left to right and taking the leftmost region first;
//! what lies between regions is prose. Concatenating the segments' texts
//! always gives back the input.
use vstd::prelude::*;
use crate::text::{chars_of, find, find_from, matches_at, occurs_at};

verus! {

/// The region a scanning stage looks for.
#[derive(PartialEq, Eq, Structural, Clone, Copy, Debug)]
pub enum Stage {
    /// From a triple backtick to the next triple backtick.
    Fence,
    /// From a backtick to the next backtick on the same line.
    InlineCode,
    /// From `$$` to the next `$$`.
    DisplayMath,
    /// From a single `$` to the next `$` on the same line.
    InlineMath,
    /// A heading element `<hN>text</hM>` whose text holds no tag.
    Heading,
}

/// What a segment holds.
#[derive(PartialEq, Eq, Structural, Clone, Copy, Debug)]
pub enum Kind {
    Prose,
    Code,
    DisplayMath,
    InlineMath,
    Heading,
}

/// A piece of text with its kind. For code, math and headings the text is
/// the whole region, delimiters included.
#[derive(Debug)]
pub struct Segment {
    pub kind: Kind,
    pub text: String,
}

/// A segment as a value: its kind and its characters.
pub type Seg = (Kind, Seq<char>);

pub open spec fn seg_view(s: Segment) -> Seg {
    (s.kind, s.text@)
}

pub open spec fn segs_view(v: Seq<Segment>) -> Seq<Seg> {
    v.map_values(|s: Segment| seg_view(s))
}

pub open spec fn kind_of(st: Stage) -> Kind {
    match st {
        Stage::Fence => Kind::Code,
        Stage::InlineCode => Kind::Code,
        Stage::DisplayMath => Kind::DisplayMath,
        Stage::InlineMath => Kind::InlineMath,
        Stage::Heading => Kind::Heading,
    }
}

/// First index `j >= i` holding `a` or `b`, or the length of `s`.
pub open spec fn stop_at(s: Seq<char>, i: int, a: char, b: char) -> int
    decreases s.len() - i,
{
    if i < 0 || i >= s.len() {
        s.len() as int
    } else if s[i] == a || s[i] == b {
        i
    } else {
        stop_at(s, i + 1, a, b)
    }
}

pub open spec fn fence() -> Seq<char> {
    seq!['`', '`', '`']
}

pub open spec fn dollars() -> Seq<char> {
    seq!['$', '$']
}

pub open spec fn heading_close() -> Seq<char> {
    seq!['<', '/', 'h']
}

pub open spec fn level_digit(c: char) -> bool {
    '1' <= c && c <= '6'
}

/// Where a region of the stage that starts at `i` ends (exclusive), or -1
/// where none starts there.
pub open spec fn region_end(st: Stage, s: Seq<char>, i: int) -> int {
    if i < 0 || i >= s.len() {
        -1
    } else {
        match st {
            Stage::Fence => if occurs_at(s, fence(), i) && find_from(s, fence(), i + 3) >= 0 {
                find_from(s, fence(), i + 3) + 3
            } else {
                -1
            },
            Stage::InlineCode => {
                let e = stop_at(s, i + 1, '`', '\n');
                if s[i] == '`' && e < s.len() && s[e] == '`' {
                    e + 1
                } else {
                    -1
                }
            },
            Stage::DisplayMath => if occurs_at(s, dollars(), i) && find_from(s, dollars(), i + 2)
                >= 0 {
                find_from(s, dollars(), i + 2) + 2
            } else {
                -1
            },
            Stage::InlineMath => {
                let e = stop_at(s, i + 1, '$', '\n');
                if s[i] == '$' && !(i + 1 < s.len() && s[i + 1] == '$') && e < s.len() && s[e]
                    == '$' {
                    e + 1
                } else {
                    -1
                }
            },
            Stage::Heading => {
                let j = stop_at(s, i + 4, '<', '<');
                if i + 4 <= s.len() && s[i] == '<' && s[i + 1] == 'h' && level_digit(s[i + 2])
                    && s[i + 3] == '>' && j > i + 4 && occurs_at(s, heading_close(), j) && j + 4
                    < s.len() && level_digit(s[j + 3]) && s[j + 4] == '>' {
                    j + 5
                } else {
                    -1
                }
            },
        }
    }
}

/// A prose segment for a non-empty text, nothing for an empty one.
pub open spec fn prose(t: Seq<char>) -> Seq<Seg> {
    if t.len() == 0 {
        Seq::empty()
    } else {
        seq![(Kind::Prose, t)]
    }
}

/// The segments of `s[p..]` where the current prose began at `p` and the
/// scan stands at `i`.
pub open spec fn scan_from(st: Stage, s: Seq<char>, p: int, i: int) -> Seq<Seg>
    decreases s.len() - i,
{
    if p < 0 || p > i || i >= s.len() {
        prose(s.subrange(p, s.len() as int))
    } else {
        let e = region_end(st, s, i);
        if i < e && e <= s.len() {
            prose(s.subrange(p, i)) + seq![(kind_of(st), s.subrange(i, e))] + scan_from(
                st,
                s,
                e,
                e,
            )
        } else {
            scan_from(st, s, p, i + 1)
        }
    }
}

/// The segments a stage makes of a whole text.
pub open spec fn scan(st: Stage, s: Seq<char>) -> Seq<Seg> {
    scan_from(st, s, 0, 0)
}

/// A segment after a further stage: prose is split by the stage, any other
/// segment is kept.
pub open spec fn expand(st: Stage, g: Seg) -> Seq<Seg> {
    if g.0 == Kind::Prose {
        scan(st, g.1)
    } else {
        seq![g]
    }
}

/// The segments after a further stage.
pub open spec fn refine(st: Stage, segs: Seq<Seg>) -> Seq<Seg>
    decreases segs.len(),
{
    if segs.len() == 0 {
        Seq::empty()
    } else {
        refine(st, segs.drop_last()) + expand(st, segs.last())
    }
}

/// The segments of an article body: fenced code first, then inline code,
/// display math and inline math, each stage working on the prose that the
/// earlier ones left.
pub open spec fn body_segments(s: Seq<char>) -> Seq<Seg> {
    refine(
        Stage::InlineMath,
        refine(Stage::DisplayMath, refine(Stage::InlineCode, scan(Stage::Fence, s))),
    )
}

/// The segments' texts, concatenated.
pub open spec fn texts(segs: Seq<Seg>) -> Seq<char>
    decreases segs.len(),
{
    if segs.len() == 0 {
        Seq::empty()
    } else {
        texts(segs.drop_last()) + segs.last().1
    }
}

pub fn stop_index(s: &Vec<char>, i: usize, a: char, b: char) -> (r: usize)
    ensures
        r as int == stop_at(s@, i as int, a, b),
        i <= s@.len() ==> i <= r,
        r <= s@.len(),
{
    let mut j = i;
    while j < s.len()
        invariant
            i <= j,
            stop_at(s@, i as int, a, b) == stop_at(s@, j as int, a, b),
            i <= s@.len() ==> forall|k: int| i <= k < j ==> s@[k] != a && s@[k] != b,
        decreases s@.len() - j,
    {
        if s[j] == a || s[j] == b {
            return j;
        }
        j = j + 1;
    }
    s.len()
}

fn lit_fence() -> (r: Vec<char>)
    ensures
        r@ == fence(),
{
    let r = vec!['`', '`', '`'];
    assert(r@ =~= fence());
    r
}

fn lit_dollars() -> (r: Vec<char>)
    ensures
        r@ == dollars(),
{
    let r = vec!['$', '$'];
    assert(r@ =~= dollars());
    r
}

fn lit_heading_close() -> (r: Vec<char>)
    ensures
        r@ == heading_close(),
{
    let r = vec!['<', '/', 'h'];
    assert(r@ =~= heading_close());
    r
}

/// Where a region of the stage starting at `i` ends, if one starts there.
pub fn region_at(st: Stage, s: &Vec<char>, i: usize) -> (r: Option<usize>)
    requires
        i < s@.len(),
    ensures
        match r {
            Some(e) => i < e <= s@.len() && e as int == region_end(st, s@, i as int),
            None => !(i < region_end(st, s@, i as int) <= s@.len()),
        },
{
    let n = s.len();
    match st {
        Stage::Fence => {
            let f = lit_fence();
            if matches_at(s, f.as_slice(), i) {
                match find(s, f.as_slice(), i + 3) {
                    Some(e) => {
                        proof {
                            crate::text::lemma_find_from(s@, fence(), i + 3);
                        }
                        return Some(e + 3);
                    },
                    None => {
                        return None;
                    },
                }
            }
            None
        },
        Stage::DisplayMath => {
            let d = lit_dollars();
            if matches_at(s, d.as_slice(), i) {
                match find(s, d.as_slice(), i + 2) {
                    Some(e) => {
                        proof {
                            crate::text::lemma_find_from(s@, dollars(), i + 2);
                        }
                        return Some(e + 2);
                    },
                    None => {
                        return None;
                    },
                }
            }
            None
        },
        Stage::InlineCode => {
            if s[i] != '`' {
                return None;
            }
            let e = stop_index(s, i + 1, '`', '\n');
            if e < n && s[e] == '`' {
                Some(e + 1)
            } else {
                None
            }
        },
        Stage::InlineMath => {
            if s[i] != '$' || (i + 1 < n && s[i + 1] == '$') {
                return None;
            }
            let e = stop_index(s, i + 1, '$', '\n');
            if e < n && s[e] == '$' {
                Some(e + 1)
            } else {
                None
            }
        },
        Stage::Heading => {
            if n - i < 4 || s[i] != '<' || s[i + 1] != 'h' || !('1' <= s[i + 2] && s[i + 2]
                <= '6') || s[i + 3] != '>' {
                return None;
            }
            let j = stop_index(s, i + 4, '<', '<');
            let hc = lit_heading_close();
            if j > i + 4 && matches_at(s, hc.as_slice(), j) && j < n && n - j > 4 && '1' <= s[j + 3]
                && s[j + 3] <= '6' && s[j + 4] == '>' {
                Some(j + 5)
            } else {
                None
            }
        },
    }
}

proof fn lemma_texts_append(a: Seq<Seg>, b: Seq<Seg>)
    ensures
        texts(a + b) == texts(a) + texts(b),
    decreases b.len(),
{
    if b.len() == 0 {
        assert(a + b == a);
    } else {
        lemma_texts_append(a, b.drop_last());
        assert((a + b).drop_last() == a + b.drop_last());
        assert((a + b).last() == b.last());
    }
}

proof fn lemma_texts_single(g: Seg)
    ensures
        texts(seq![g]) == g.1,
{
    assert(seq![g].drop_last() =~= Seq::<Seg>::empty());
    assert(seq![g].last() == g);
    assert(texts(Seq::<Seg>::empty()) == Seq::<char>::empty());
    assert(Seq::<char>::empty() + g.1 =~= g.1);
}

proof fn lemma_texts_prose(t: Seq<char>)
    ensures
        texts(prose(t)) == t,
{
    if t.len() > 0 {
        lemma_texts_single((Kind::Prose, t));
    }
}

/// The segments of a scan give back the text scanned.
pub proof fn lemma_scan_from_texts(st: Stage, s: Seq<char>, p: int, i: int)
    requires
        0 <= p <= i <= s.len(),
    ensures
        texts(scan_from(st, s, p, i)) == s.subrange(p, s.len() as int),
    decreases s.len() - i,
{
    if i >= s.len() {
        lemma_texts_prose(s.subrange(p, s.len() as int));
    } else {
        let e = region_end(st, s, i);
        if i < e && e <= s.len() {
            lemma_scan_from_texts(st, s, e, e);
            let a = prose(s.subrange(p, i));
            let b = seq![(kind_of(st), s.subrange(i, e))];
            let c = scan_from(st, s, e, e);
            lemma_texts_append(a + b, c);
            lemma_texts_append(a, b);
            lemma_texts_prose(s.subrange(p, i));
            lemma_texts_single((kind_of(st), s.subrange(i, e)));
            assert(s.subrange(p, i) + s.subrange(i, e) + s.subrange(e, s.len() as int)
                =~= s.subrange(p, s.len() as int));
        } else {
            lemma_scan_from_texts(st, s, p, i + 1);
        }
    }
}

/// Refining keeps the concatenated text.
pub proof fn lemma_refine_texts(st: Stage, segs: Seq<Seg>)
    ensures
        texts(refine(st, segs)) == texts(segs),
    decreases segs.len(),
{
    if segs.len() > 0 {
        lemma_refine_texts(st, segs.drop_last());
        lemma_texts_append(refine(st, segs.drop_last()), expand(st, segs.last()));
        let g = segs.last();
        if g.0 == Kind::Prose {
            lemma_scan_from_texts(st, g.1, 0, 0);
            assert(g.1.subrange(0, g.1.len() as int) == g.1);
        } else {
            lemma_texts_single(g);
        }
    }
}

/// Every heading segment that a scan finds starts with `<hN>` for a level
/// digit N and is at least ten characters long.
pub proof fn lemma_scan_from_heading_digits(s: Seq<char>, p: int, i: int)
    requires
        0 <= p <= i <= s.len(),
    ensures
        forall|k: int|
            0 <= k < scan_from(Stage::Heading, s, p, i).len() && (#[trigger] scan_from(
                Stage::Heading,
                s,
                p,
                i,
            )[k]).0 == Kind::Heading ==> level_digit(scan_from(Stage::Heading, s, p, i)[k].1[2])
                && scan_from(Stage::Heading, s, p, i)[k].1.len() >= 10,
    decreases s.len() - i,
{
    if i < s.len() {
        let e = region_end(Stage::Heading, s, i);
        if i < e && e <= s.len() {
            lemma_scan_from_heading_digits(s, e, e);
            let a = prose(s.subrange(p, i));
            let g = (Kind::Heading, s.subrange(i, e));
            let rest = scan_from(Stage::Heading, s, e, e);
            let all = a + seq![g] + rest;
            assert(scan_from(Stage::Heading, s, p, i) == all);
            let j = stop_at(s, i + 4, '<', '<');
            assert(e == j + 5);
            assert(g.1[2] == s[i + 2]);
            assert forall|k: int| 0 <= k < all.len() && (#[trigger] all[k]).0 == Kind::Heading
                implies level_digit(all[k].1[2]) && all[k].1.len() >= 10 by {
                if k < a.len() {
                } else if k == a.len() {
                    assert(all[k] == g);
                } else {
                    assert(all[k] == rest[k - a.len() - 1]);
                }
            }
        } else {
            lemma_scan_from_heading_digits(s, p, i + 1);
        }
    }
}

/// Every heading segment of a heading scan starts with `<hN>` for a level
/// digit N.
pub proof fn lemma_scan_heading_digits(s: Seq<char>)
    ensures
        forall|k: int|
            0 <= k < scan(Stage::Heading, s).len() && (#[trigger] scan(Stage::Heading, s)[k]).0
                == Kind::Heading ==> level_digit(scan(Stage::Heading, s)[k].1[2])
                && scan(Stage::Heading, s)[k].1.len() >= 10,
{
    lemma_scan_from_heading_digits(s, 0, 0);
}

/// The segments that a stage makes of `s`.
pub fn scan_text(st: Stage, s: &Vec<char>) -> (r: Vec<Segment>)
    ensures
        segs_view(r@) == scan(st, s@),
{
    let mut out: Vec<Segment> = Vec::new();
    let mut p: usize = 0;
    let mut i: usize = 0;
    while i < s.len()
        invariant
            p <= i <= s@.len(),
            segs_view(out@) + scan_from(st, s@, p as int, i as int) == scan(st, s@),
        decreases s@.len() - i,
    {
        match region_at(st, s, i) {
            Some(e) => {
                let ghost before = segs_view(out@);
                if p < i {
                    let t = crate::text::substring(s, p, i);
                    out.push(Segment { kind: Kind::Prose, text: t });
                }
                assert(segs_view(out@) == before + prose(s@.subrange(p as int, i as int))) by {
                    assert(segs_view(out@) =~= before + prose(s@.subrange(p as int, i as int)));
                }
                let ghost mid = segs_view(out@);
                let t = crate::text::substring(s, i, e);
                let k = match st {
                    Stage::Fence => Kind::Code,
                    Stage::InlineCode => Kind::Code,
                    Stage::DisplayMath => Kind::DisplayMath,
                    Stage::InlineMath => Kind::InlineMath,
                    Stage::Heading => Kind::Heading,
                };
                out.push(Segment { kind: k, text: t });
                assert(segs_view(out@) =~= mid + seq![(kind_of(st), s@.subrange(i as int, e as int))]);
                p = e;
                i = e;
            },
            None => {
                i = i + 1;
            },
        }
    }
    let ghost before = segs_view(out@);
    if p < s.len() {
        let t = crate::text::substring(s, p, s.len());
        out.push(Segment { kind: Kind::Prose, text: t });
    }
    assert(segs_view(out@) =~= before + prose(s@.subrange(p as int, s@.len() as int)));
    out
}

/// The segments after a further stage: each prose segment is split by the
/// stage, the others are kept.
pub fn refine_segments(st: Stage, segs: Vec<Segment>) -> (r: Vec<Segment>)
    ensures
        segs_view(r@) == refine(st, segs_view(segs@)),
{
    let mut out: Vec<Segment> = Vec::new();
    let ghost all = segs_view(segs@);
    for g in it: segs
        invariant
            all == segs_view(it.seq()),
            segs_view(out@) == refine(st, all.subrange(0, it.index() as int)),
    {
        let ghost idx = it.index();
        proof {
            assert(all.subrange(0, idx + 1).drop_last() =~= all.subrange(0, idx as int));
            assert(all.subrange(0, idx + 1).last() == seg_view(g));
        }
        let ghost before = segs_view(out@);
        if g.kind == Kind::Prose {
            let cs = chars_of(g.text.as_str());
            let mut parts = scan_text(st, &cs);
            let ghost pv = segs_view(parts@);
            out.append(&mut parts);
            assert(segs_view(out@) =~= before + pv);
        } else {
            out.push(g);
            assert(segs_view(out@) =~= before + seq![seg_view(g)]);
        }
    }
    assert(all.subrange(0, all.len() as int) == all);
    out
}

/// The segments of an article body (see `body_segments`).
pub fn tokenize(text: &str) -> (r: Vec<Segment>)
    ensures
        segs_view(r@) == body_segments(text@),
{
    let cs = chars_of(text);
    let a = scan_text(Stage::Fence, &cs);
    let b = refine_segments(Stage::InlineCode, a);
    let c = refine_segments(Stage::DisplayMath, b);
    refine_segments(Stage::InlineMath, c)
}

} // verus!
