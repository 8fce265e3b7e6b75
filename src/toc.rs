//! The table of contents: a nested list of links to the headings of
//! levels one to three, nested as deep as the heading levels go.
use vstd::prelude::*;
use crate::headings::{encode_fragment, fragment, rec_view, recs_view, HeadingRecord, Rec};
use crate::text::{push_all, push_str, string_of};

verus! {

/// The parts of the list: an opening `<ul>`, a closing `</ul>`, and an
/// item linking to a slug with a heading's text.
pub enum TocPart {
    Open,
    Close,
    Item(Seq<char>, Seq<char>),
}

/// `n` openings (none for `n <= 0`).
pub open spec fn opens(n: int) -> Seq<TocPart>
    decreases n,
{
    if n <= 0 {
        Seq::empty()
    } else {
        opens(n - 1).push(TocPart::Open)
    }
}

/// `n` closings (none for `n <= 0`).
pub open spec fn closes(n: int) -> Seq<TocPart>
    decreases n,
{
    if n <= 0 {
        Seq::empty()
    } else {
        closes(n - 1).push(TocPart::Close)
    }
}

/// The parts for the headings after the outer opening, and the level the
/// list then stands at. Headings deeper than three are skipped; any other
/// opens or closes lists to reach its level, then adds its item.
pub open spec fn toc_state(recs: Seq<Rec>) -> (Seq<TocPart>, int)
    decreases recs.len(),
{
    if recs.len() == 0 {
        (Seq::empty(), 1)
    } else {
        let (b, cur) = toc_state(recs.drop_last());
        let r = recs.last();
        if r.0 > 3 {
            (b, cur)
        } else {
            (b + opens(r.0 - cur) + closes(cur - r.0) + seq![TocPart::Item(r.1, r.2)], r.0)
        }
    }
}

/// All parts of the list: the outer opening, the headings, the closings
/// back to the first level, and the outer closing.
pub open spec fn toc_parts(recs: Seq<Rec>) -> Seq<TocPart> {
    let (b, cur) = toc_state(recs);
    seq![TocPart::Open] + b + closes(cur - 1) + seq![TocPart::Close]
}

pub open spec fn part_html(p: TocPart) -> Seq<char> {
    match p {
        TocPart::Open => "<ul>"@,
        TocPart::Close => "</ul>"@,
        TocPart::Item(slug, text) => "<li><a href=\"#"@ + fragment(slug) + "\">"@ + text
            + "</a></li>"@,
    }
}

pub open spec fn parts_html(ps: Seq<TocPart>) -> Seq<char>
    decreases ps.len(),
{
    if ps.len() == 0 {
        Seq::empty()
    } else {
        parts_html(ps.drop_last()) + part_html(ps.last())
    }
}

/// The table of contents for the headings, or nothing for no headings.
pub open spec fn toc_html(recs: Seq<Rec>) -> Seq<char> {
    if recs.len() == 0 {
        Seq::empty()
    } else {
        "<div class=\"table-of-contents\">"@ + parts_html(toc_parts(recs)) + "</div>"@
    }
}

/// Lists opened minus lists closed.
pub open spec fn depth(ps: Seq<TocPart>) -> int
    decreases ps.len(),
{
    if ps.len() == 0 {
        0
    } else {
        depth(ps.drop_last()) + match ps.last() {
            TocPart::Open => 1int,
            TocPart::Close => -1int,
            TocPart::Item(_, _) => 0int,
        }
    }
}

/// No prefix closes more lists than it opened.
pub open spec fn never_negative(ps: Seq<TocPart>, base: int) -> bool {
    forall|k: int| 0 <= k <= ps.len() ==> base + #[trigger] depth(ps.subrange(0, k)) >= 0
}

proof fn lemma_parts_html_append(a: Seq<TocPart>, b: Seq<TocPart>)
    ensures
        parts_html(a + b) == parts_html(a) + parts_html(b),
    decreases b.len(),
{
    if b.len() == 0 {
        assert(a + b == a);
    } else {
        lemma_parts_html_append(a, b.drop_last());
        assert((a + b).drop_last() == a + b.drop_last());
        assert((a + b).last() == b.last());
    }
}

proof fn lemma_depth_append(a: Seq<TocPart>, b: Seq<TocPart>)
    ensures
        depth(a + b) == depth(a) + depth(b),
    decreases b.len(),
{
    if b.len() == 0 {
        assert(a + b == a);
    } else {
        lemma_depth_append(a, b.drop_last());
        assert((a + b).drop_last() == a + b.drop_last());
        assert((a + b).last() == b.last());
    }
}

proof fn lemma_opens(n: int)
    ensures
        n >= 0 ==> opens(n).len() == n,
        forall|k: int| 0 <= k <= opens(n).len() ==> #[trigger] depth(opens(n).subrange(0, k)) == k,
    decreases n,
{
    if n > 0 {
        lemma_opens(n - 1);
        let o = opens(n);
        assert forall|k: int| 0 <= k <= o.len() implies #[trigger] depth(o.subrange(0, k)) == k by {
            if k < o.len() {
                assert(o.subrange(0, k) =~= opens(n - 1).subrange(0, k));
                assert(depth(opens(n - 1).subrange(0, k)) == k);
            } else {
                assert(o.subrange(0, k) =~= o);
                assert(o.drop_last() =~= opens(n - 1));
                assert(o.last() == TocPart::Open);
                assert(opens(n - 1).subrange(0, n - 1) =~= opens(n - 1));
                assert(depth(opens(n - 1).subrange(0, n - 1)) == (n - 1));
            }
        }
    } else {
        assert forall|k: int| 0 <= k <= opens(n).len() implies #[trigger] depth(
            opens(n).subrange(0, k),
        ) == k by {
            assert(opens(n).subrange(0, k) =~= Seq::<TocPart>::empty());
        }
    }
}

proof fn lemma_closes(n: int)
    ensures
        n >= 0 ==> closes(n).len() == n,
        forall|k: int|
            0 <= k <= closes(n).len() ==> #[trigger] depth(closes(n).subrange(0, k)) == -k,
    decreases n,
{
    if n > 0 {
        lemma_closes(n - 1);
        let o = closes(n);
        assert forall|k: int| 0 <= k <= o.len() implies #[trigger] depth(o.subrange(0, k))
            == -k by {
            if k < o.len() {
                assert(o.subrange(0, k) =~= closes(n - 1).subrange(0, k));
                assert(depth(closes(n - 1).subrange(0, k)) == -k);
            } else {
                assert(o.subrange(0, k) =~= o);
                assert(o.drop_last() =~= closes(n - 1));
                assert(o.last() == TocPart::Close);
                assert(closes(n - 1).subrange(0, n - 1) =~= closes(n - 1));
                assert(depth(closes(n - 1).subrange(0, n - 1)) == -(n - 1));
            }
        }
    } else {
        assert forall|k: int| 0 <= k <= closes(n).len() implies #[trigger] depth(
            closes(n).subrange(0, k),
        ) == -k by {
            assert(closes(n).subrange(0, k) =~= Seq::<TocPart>::empty());
        }
    }
}

proof fn lemma_never_negative_append(a: Seq<TocPart>, b: Seq<TocPart>, base: int)
    requires
        never_negative(a, base),
        never_negative(b, base + depth(a)),
    ensures
        never_negative(a + b, base),
{
    assert forall|k: int| 0 <= k <= (a + b).len() implies base + #[trigger] depth(
        (a + b).subrange(0, k),
    ) >= 0 by {
        if k <= a.len() {
            assert((a + b).subrange(0, k) == a.subrange(0, k));
        } else {
            assert((a + b).subrange(0, k) == a + b.subrange(0, k - a.len()));
            lemma_depth_append(a, b.subrange(0, k - a.len()));
            assert(base + depth(a) + depth(b.subrange(0, k - a.len())) >= 0);
        }
    }
}

proof fn lemma_single_part(p: TocPart, base: int)
    requires
        base >= 0,
        p !is Close,
    ensures
        never_negative(seq![p], base),
        depth(seq![p]) == if p is Open {
            1int
        } else {
            0int
        },
{
    assert(seq![p].drop_last() =~= Seq::<TocPart>::empty());
    assert(seq![p].last() == p);
    assert(depth(Seq::<TocPart>::empty()) == 0);
    assert forall|k: int| 0 <= k <= 1 implies base + #[trigger] depth(seq![p].subrange(0, k))
        >= 0 by {
        if k == 0 {
            assert(seq![p].subrange(0, k) =~= Seq::<TocPart>::empty());
        } else {
            assert(seq![p].subrange(0, k) =~= seq![p]);
        }
    }
}

proof fn lemma_toc_state(recs: Seq<Rec>)
    requires
        forall|k: int| 0 <= k < recs.len() ==> recs[k].0 >= 1,
    ensures
        toc_state(recs).1 >= 1,
        depth(toc_state(recs).0) == toc_state(recs).1 - 1,
        never_negative(toc_state(recs).0, 0),
    decreases recs.len(),
{
    if recs.len() == 0 {
        assert forall|k: int| 0 <= k <= 0 implies 0 + #[trigger] depth(
            Seq::<TocPart>::empty().subrange(0, k),
        ) >= 0 by {
            assert(Seq::<TocPart>::empty().subrange(0, k) =~= Seq::<TocPart>::empty());
        }
    } else {
        lemma_toc_state(recs.drop_last());
        let (b, cur) = toc_state(recs.drop_last());
        let r = recs.last();
        if r.0 <= 3 {
            let o = opens(r.0 - cur);
            let c = closes(cur - r.0);
            let it = seq![TocPart::Item(r.1, r.2)];
            lemma_opens(r.0 - cur);
            lemma_closes(cur - r.0);
            assert(o.subrange(0, o.len() as int) == o);
            assert(c.subrange(0, c.len() as int) == c);
            assert(never_negative(o, depth(b)));
            assert(never_negative(c, depth(b) + depth(o)));
            lemma_depth_append(b, o);
            lemma_never_negative_append(b, o, 0);
            lemma_depth_append(b + o, c);
            lemma_never_negative_append(b + o, c, 0);
            lemma_single_part(TocPart::Item(r.1, r.2), depth(b + o + c));
            lemma_depth_append(b + o + c, it);
            lemma_never_negative_append(b + o + c, it, 0);
        }
    }
}

/// The table of contents opens and closes its lists symmetrically: for
/// headings of any levels from one up, no prefix of it closes a list that
/// it did not open, and at its end no list is left open.
pub proof fn lemma_toc_balanced(recs: Seq<Rec>)
    requires
        forall|k: int| 0 <= k < recs.len() ==> recs[k].0 >= 1,
    ensures
        depth(toc_parts(recs)) == 0,
        never_negative(toc_parts(recs), 0),
{
    lemma_toc_state(recs);
    let (b, cur) = toc_state(recs);
    let o = seq![TocPart::Open];
    let c = closes(cur - 1);
    let e = seq![TocPart::Close];
    lemma_single_part(TocPart::Open, 0);
    lemma_depth_append(o, b);
    lemma_never_negative_append(o, b, 0);
    lemma_closes(cur - 1);
    assert(c.subrange(0, c.len() as int) == c);
    lemma_depth_append(o + b, c);
    lemma_never_negative_append(o + b, c, 0);
    assert(e.drop_last() =~= Seq::<TocPart>::empty());
    assert(e.last() == TocPart::Close);
    assert(depth(Seq::<TocPart>::empty()) == 0);
    assert(depth(e) == -1);
    assert(never_negative(e, 1)) by {
        assert forall|k: int| 0 <= k <= 1 implies 1 + #[trigger] depth(e.subrange(0, k)) >= 0 by {
            if k == 0 {
                assert(e.subrange(0, k) =~= Seq::<TocPart>::empty());
            } else {
                assert(e.subrange(0, k) =~= e);
            }
        }
    }
    lemma_depth_append(o + b + c, e);
    lemma_never_negative_append(o + b + c, e, 0);
}

/// The table of contents of any page is balanced: built from the headings
/// found in its HTML, it never closes a list it did not open and leaves no
/// list open.
pub proof fn lemma_page_toc_balanced(html: Seq<char>)
    ensures
        depth(toc_parts(crate::headings::html_headings(html))) == 0,
        never_negative(toc_parts(crate::headings::html_headings(html)), 0),
{
    crate::headings::lemma_html_heading_levels(html);
    lemma_toc_balanced(crate::headings::html_headings(html));
}

fn push_part(out: &mut Vec<char>, parts: Ghost<Seq<TocPart>>, open: bool) -> (r: Ghost<
    Seq<TocPart>,
>)
    requires
        old(out)@ == "<div class=\"table-of-contents\">"@ + parts_html(parts@),
    ensures
        r@ == parts@.push(
            if open {
                TocPart::Open
            } else {
                TocPart::Close
            },
        ),
        final(out)@ == "<div class=\"table-of-contents\">"@ + parts_html(r@),
{
    let ghost p = if open {
        TocPart::Open
    } else {
        TocPart::Close
    };
    if open {
        push_str(out, "<ul>");
    } else {
        push_str(out, "</ul>");
    }
    assert(parts@.push(p).drop_last() =~= parts@);
    Ghost(parts@.push(p))
}

/// Builds the table of contents for the headings (see `toc_html`).
pub fn generate_toc(entries: &Vec<HeadingRecord>) -> (r: String)
    ensures
        r@ == toc_html(recs_view(entries@)),
{
    if entries.len() == 0 {
        return String::new();
    }
    let ghost rv = recs_view(entries@);
    let mut out: Vec<char> = Vec::new();
    push_str(&mut out, "<div class=\"table-of-contents\">");
    assert(out@ =~= "<div class=\"table-of-contents\">"@ + parts_html(Seq::<TocPart>::empty()));
    let mut parts = push_part(&mut out, Ghost(Seq::<TocPart>::empty()), true);
    assert(parts@ =~= seq![TocPart::Open]);
    let mut cur: u32 = 1;
    let mut i: usize = 0;
    while i < entries.len()
        invariant
            i <= entries@.len(),
            rv == recs_view(entries@),
            parts@ == seq![TocPart::Open] + toc_state(rv.subrange(0, i as int)).0,
            cur as int == toc_state(rv.subrange(0, i as int)).1,
            out@ == "<div class=\"table-of-contents\">"@ + parts_html(parts@),
        decreases entries@.len() - i,
    {
        let level = entries[i].level;
        proof {
            assert(rv.subrange(0, i + 1).drop_last() =~= rv.subrange(0, i as int));
            assert(rv.subrange(0, i + 1).last() == rec_view(entries@[i as int]));
        }
        if level <= 3 {
            let ghost base = parts@;
            let ghost cur0 = cur as int;
            if cur < level {
                while cur < level
                    invariant
                        cur0 <= cur <= level,
                        parts@ == base + opens(cur - cur0),
                        out@ == "<div class=\"table-of-contents\">"@ + parts_html(parts@),
                    decreases level - cur,
                {
                    parts = push_part(&mut out, parts, true);
                    cur = cur + 1;
                    assert(base + opens(cur - cur0) == (base + opens(cur - 1 - cur0)).push(
                        TocPart::Open,
                    ));
                }
                assert(closes(cur0 - level) =~= Seq::<TocPart>::empty());
                assert(parts@ == base + opens(level - cur0) + closes(cur0 - level));
            } else {
                while cur > level
                    invariant
                        level <= cur <= cur0,
                        parts@ == base + closes(cur0 - cur),
                        out@ == "<div class=\"table-of-contents\">"@ + parts_html(parts@),
                    decreases cur - level,
                {
                    parts = push_part(&mut out, parts, false);
                    cur = cur - 1;
                    assert(base + closes(cur0 - cur) == (base + closes(cur0 - cur - 1)).push(
                        TocPart::Close,
                    ));
                }
                assert(opens(level - cur0) =~= Seq::<TocPart>::empty());
                assert(parts@ =~= base + opens(level - cur0) + closes(cur0 - level));
            }
            let enc = encode_fragment(entries[i].slug.as_str());
            push_str(&mut out, "<li><a href=\"#");
            push_all(&mut out, enc.as_slice());
            push_str(&mut out, "\">");
            push_str(&mut out, entries[i].text.as_str());
            push_str(&mut out, "</a></li>");
            let ghost item = TocPart::Item(entries@[i as int].slug@, entries@[i as int].text@);
            proof {
                assert(parts@.push(item).drop_last() =~= parts@);
                assert(out@ =~= "<div class=\"table-of-contents\">"@ + parts_html(
                    parts@.push(item),
                ));
            }
            parts = Ghost(parts@.push(item));
            assert(parts@ =~= seq![TocPart::Open] + toc_state(rv.subrange(0, i + 1)).0);
        }
        i = i + 1;
    }
    assert(rv.subrange(0, rv.len() as int) == rv);
    let ghost base = parts@;
    let ghost cur0 = cur as int;
    while cur > 1
        invariant
            1 <= cur <= cur0 || cur0 < 1,
            cur <= cur0,
            parts@ == base + closes(cur0 - cur),
            out@ == "<div class=\"table-of-contents\">"@ + parts_html(parts@),
        decreases cur,
    {
        parts = push_part(&mut out, parts, false);
        cur = cur - 1;
        assert(base + closes(cur0 - cur) == (base + closes(cur0 - cur - 1)).push(TocPart::Close));
    }
    proof {
        if cur0 < 1 {
            assert(closes(cur0 - 1) =~= Seq::<TocPart>::empty());
            assert(closes(cur0 - cur) =~= Seq::<TocPart>::empty());
        }
    }
    parts = push_part(&mut out, parts, false);
    push_str(&mut out, "</div>");
    proof {
        assert(parts@ =~= toc_parts(rv));
    }
    string_of(out.as_slice())
}

} // verus!
