//! Heading anchors and the table of contents: slugs for heading text,
//! fragment encoding of slugs, anchor links inside heading elements, and
//! a nested list of links to the headings of levels one to three.
use vstd::prelude::*;
use vstd::utf8::encode_utf8;
use crate::scan::{scan, scan_text, seg_view, segs_view, Kind, Seg, Segment, Stage};
use crate::text::{
    alphanumeric, chars_of, is_alphanumeric, is_whitespace, joined, join_with,
    lowercase_of, push_all, push_str, split_words, string_of, to_lowercase, trim_range,
    trimmed, white_space, words, words_state,
};

verus! {

/// Characters that a slug keeps: alphanumerics, whitespace and `-`.
pub open spec fn slug_char(c: char) -> bool {
    alphanumeric(c) || white_space(c) || c == '-'
}

/// The characters of `s` that a slug keeps, in order.
pub open spec fn slug_chars(s: Seq<char>) -> Seq<char>
    decreases s.len(),
{
    if s.len() == 0 {
        Seq::empty()
    } else if slug_char(s.last()) {
        slug_chars(s.drop_last()).push(s.last())
    } else {
        slug_chars(s.drop_last())
    }
}

/// The slug of a heading text: trimmed, lowercased, reduced to
/// alphanumerics, whitespace and hyphens, with each whitespace run made
/// one hyphen and none at either end.
pub open spec fn slugified(s: Seq<char>) -> Seq<char> {
    joined(words(slug_chars(lowercase_of(trimmed(s)))), '-')
}

/// Computes the slug of a heading text.
pub fn slugify(s: &str) -> (r: String)
    ensures
        r@ == slugified(s@),
{
    let cs = chars_of(s);
    let t = trim_range(&cs, 0, cs.len());
    assert(cs@.subrange(0, cs@.len() as int) == cs@);
    let ts = string_of(t.as_slice());
    let lower = to_lowercase(ts.as_str());
    let lc = chars_of(lower.as_str());
    let mut kept: Vec<char> = Vec::new();
    let mut i: usize = 0;
    while i < lc.len()
        invariant
            i <= lc@.len(),
            kept@ == slug_chars(lc@.subrange(0, i as int)),
        decreases lc@.len() - i,
    {
        let c = lc[i];
        proof {
            assert(lc@.subrange(0, i + 1).drop_last() == lc@.subrange(0, i as int));
            assert(lc@.subrange(0, i + 1).last() == c);
        }
        if is_alphanumeric(c) || is_whitespace(c) || c == '-' {
            kept.push(c);
        }
        i = i + 1;
    }
    assert(lc@.subrange(0, lc@.len() as int) == lc@);
    let ws = split_words(&kept, 0, kept.len());
    assert(kept@.subrange(0, kept@.len() as int) == kept@);
    let j = join_with(&ws, '-');
    string_of(j.as_slice())
}

proof fn lemma_slug_chars_all(s: Seq<char>)
    requires
        forall|k: int| 0 <= k < s.len() ==> slug_char(s[k]),
    ensures
        slug_chars(s) == s,
    decreases s.len(),
{
    if s.len() > 0 {
        lemma_slug_chars_all(s.drop_last());
        assert(s.drop_last().push(s.last()) == s);
    }
}

proof fn lemma_words_state_plain(s: Seq<char>)
    requires
        forall|k: int| 0 <= k < s.len() ==> !white_space(s[k]),
    ensures
        words_state(s) == (Seq::<Seq<char>>::empty(), s),
    decreases s.len(),
{
    if s.len() > 0 {
        lemma_words_state_plain(s.drop_last());
        assert(s.drop_last().push(s.last()) == s);
    }
}

/// A slug is its own slug: text that is already lowercase and made only
/// of alphanumerics and hyphens, with no whitespace, slugifies to itself.
pub proof fn lemma_slug_idempotent(s: Seq<char>)
    requires
        lowercase_of(s) == s,
        forall|k: int|
            0 <= k < s.len() ==> !white_space(s[k]) && (alphanumeric(s[k]) || s[k] == '-'),
    ensures
        slugified(s) == s,
{
    if s.len() > 0 {
        assert(!white_space(s[0]));
        assert(!white_space(s.last()));
        assert(crate::text::lead_ws(s) == 0);
        assert(crate::text::trail_ws(s) == 0);
    }
    assert(trimmed(s) =~= s) by {
        if s.len() == 0 {
            assert(crate::text::lead_ws(s) == 0);
            assert(crate::text::trail_ws(s) == 0);
        }
    }
    lemma_slug_chars_all(s);
    lemma_words_state_plain(s);
    if s.len() > 0 {
        assert(words(s) == seq![s]);
        assert(joined(seq![s], '-') == s);
    } else {
        assert(words(s) =~= Seq::<Seq<char>>::empty());
        assert(s =~= Seq::<char>::empty());
    }
}

/// An upper-case hexadecimal digit.
pub open spec fn hex_digit(n: u8) -> char {
    if n < 10 {
        (('0' as u8) + n) as char
    } else {
        (('A' as u8) + n - 10) as char
    }
}

/// The percent-encoding of one byte: `%` and two upper-case hex digits.
pub open spec fn percent_byte(b: u8) -> Seq<char> {
    seq!['%', hex_digit(b / 16), hex_digit(b % 16)]
}

pub assume_specification[ percent_encoding::percent_encode_byte ](byte: u8) -> (r: &'static str)
    ensures
        r@ == percent_byte(byte),
;

/// Bytes that stand for themselves in a fragment: ASCII letters, digits
/// and `-`.
pub open spec fn fragment_byte(b: u8) -> bool {
    (48 <= b && b <= 57) || (65 <= b && b <= 90) || (97 <= b && b <= 122) || b == 45
}

/// Bytes encoded for a URL fragment: each byte that stands for itself is
/// kept, every other one is percent-encoded.
pub open spec fn fragment_of_bytes(bs: Seq<u8>) -> Seq<char>
    decreases bs.len(),
{
    if bs.len() == 0 {
        Seq::empty()
    } else {
        let b = bs.last();
        fragment_of_bytes(bs.drop_last()) + if fragment_byte(b) {
            seq![b as char]
        } else {
            percent_byte(b)
        }
    }
}

/// A slug encoded for a URL fragment, byte by byte of its UTF-8 form.
pub open spec fn fragment(s: Seq<char>) -> Seq<char> {
    fragment_of_bytes(encode_utf8(s))
}

/// Encodes a slug for a URL fragment.
pub fn encode_fragment(s: &str) -> (r: Vec<char>)
    ensures
        r@ == fragment(s@),
{
    let bs = s.as_bytes();
    let mut out: Vec<char> = Vec::new();
    let mut i: usize = 0;
    while i < bs.len()
        invariant
            i <= bs@.len(),
            bs@ == encode_utf8(s@),
            out@ == fragment_of_bytes(bs@.subrange(0, i as int)),
        decreases bs@.len() - i,
    {
        let b = bs[i];
        proof {
            assert(bs@.subrange(0, i + 1).drop_last() == bs@.subrange(0, i as int));
            assert(bs@.subrange(0, i + 1).last() == b);
        }
        if (48 <= b && b <= 57) || (65 <= b && b <= 90) || (97 <= b && b <= 122) || b == 45 {
            out.push(b as char);
        } else {
            let p = percent_encoding::percent_encode_byte(b);
            push_str(&mut out, p);
        }
        i = i + 1;
    }
    assert(bs@.subrange(0, bs@.len() as int) == bs@);
    out
}

/// A heading found in the rendered HTML: its level, slug and text.
#[derive(Debug)]
pub struct HeadingRecord {
    pub level: u32,
    pub slug: String,
    pub text: String,
}

pub type Rec = (int, Seq<char>, Seq<char>);

pub open spec fn rec_view(r: HeadingRecord) -> Rec {
    (r.level as int, r.slug@, r.text@)
}

pub open spec fn recs_view(v: Seq<HeadingRecord>) -> Seq<Rec> {
    v.map_values(|r: HeadingRecord| rec_view(r))
}

/// The level digit of a heading element `<hN>...`.
pub open spec fn heading_digit(g: Seg) -> char {
    g.1[2]
}

/// The text between the opening and the closing tag.
pub open spec fn heading_text(g: Seg) -> Seq<char> {
    g.1.subrange(4, g.1.len() - 5)
}

/// A heading element rewritten with its text inside a link to its own
/// anchor: `<hN><a href="#slug">text</a></hN>`.
pub open spec fn anchored_heading(g: Seg) -> Seq<char> {
    let d = heading_digit(g);
    let t = heading_text(g);
    "<h"@ + seq![d] + "><a href=\"#"@ + fragment(slugified(t)) + "\">"@ + t + "</a></h"@ + seq![
        d,
    ] + ">"@
}

pub open spec fn is_heading(g: Seg) -> bool {
    g.0 == Kind::Heading && g.1.len() >= 9
}

/// The output for one segment of the anchor pass.
pub open spec fn anchor_output(g: Seg) -> Seq<char> {
    if is_heading(g) {
        anchored_heading(g)
    } else {
        g.1
    }
}

/// The outputs of the anchor pass, concatenated.
pub open spec fn anchored(segs: Seq<Seg>) -> Seq<char>
    decreases segs.len(),
{
    if segs.len() == 0 {
        Seq::empty()
    } else {
        anchored(segs.drop_last()) + anchor_output(segs.last())
    }
}

/// The records of the headings among the segments, in document order.
pub open spec fn heading_records(segs: Seq<Seg>) -> Seq<Rec>
    decreases segs.len(),
{
    if segs.len() == 0 {
        Seq::empty()
    } else if is_heading(segs.last()) {
        let g = segs.last();
        heading_records(segs.drop_last()).push(
            (
                heading_digit(g) as int - '0' as int,
                slugified(heading_text(g)),
                heading_text(g),
            ),
        )
    } else {
        heading_records(segs.drop_last())
    }
}

/// HTML with every plain-text heading element given an anchor link.
pub open spec fn html_with_anchors(html: Seq<char>) -> Seq<char> {
    anchored(scan(Stage::Heading, html))
}

/// The headings of the HTML, in document order.
pub open spec fn html_headings(html: Seq<char>) -> Seq<Rec> {
    heading_records(scan(Stage::Heading, html))
}

proof fn lemma_records_levels(segs: Seq<Seg>)
    requires
        forall|k: int|
            0 <= k < segs.len() && (#[trigger] segs[k]).0 == Kind::Heading
                ==> crate::scan::level_digit(segs[k].1[2]),
    ensures
        forall|k: int|
            0 <= k < heading_records(segs).len() ==> 1 <= (#[trigger] heading_records(segs)[k]).0
                <= 6,
    decreases segs.len(),
{
    if segs.len() > 0 {
        let p = segs.drop_last();
        assert forall|k: int| 0 <= k < p.len() && (#[trigger] p[k]).0 == Kind::Heading
            implies crate::scan::level_digit(p[k].1[2]) by {
            assert(p[k] == segs[k]);
        }
        lemma_records_levels(p);
        let g = segs.last();
        assert(g == segs[segs.len() - 1]);
        let r = heading_records(segs);
        let rp = heading_records(p);
        if is_heading(g) {
            assert(crate::scan::level_digit(g.1[2]));
            assert forall|k: int| 0 <= k < r.len() implies 1 <= (#[trigger] r[k]).0 <= 6 by {
                if k < rp.len() {
                    assert(r[k] == rp[k]);
                }
            }
        }
    }
}

/// The headings found in any HTML have levels from one to six.
pub proof fn lemma_html_heading_levels(html: Seq<char>)
    ensures
        forall|k: int|
            0 <= k < html_headings(html).len() ==> 1 <= (#[trigger] html_headings(html)[k]).0
                <= 6,
{
    crate::scan::lemma_scan_heading_digits(html);
    lemma_records_levels(scan(Stage::Heading, html));
}

fn anchor_one(seg: &Segment) -> (r: (Vec<char>, Option<HeadingRecord>))
    requires
        seg.kind == Kind::Heading ==> crate::scan::level_digit(seg.text@[2]) || seg.text@.len()
            < 9,
    ensures
        r.0@ == anchor_output(seg_view(*seg)),
        is_heading(seg_view(*seg)) ==> r.1 is Some && 1 <= r.1->0.level <= 6 && rec_view(r.1->0) == (
            heading_digit(seg_view(*seg)) as int - '0' as int,
            slugified(heading_text(seg_view(*seg))),
            heading_text(seg_view(*seg)),
        ),
        !is_heading(seg_view(*seg)) ==> r.1 is None,
{
    let cs = chars_of(seg.text.as_str());
    let n = cs.len();
    let mut out: Vec<char> = Vec::new();
    if seg.kind == Kind::Heading && n >= 9 {
        let d = cs[2];
        let text = crate::text::substring(&cs, 4, n - 5);
        let slug = slugify(text.as_str());
        let enc = encode_fragment(slug.as_str());
        push_str(&mut out, "<h");
        out.push(d);
        push_str(&mut out, "><a href=\"#");
        push_all(&mut out, enc.as_slice());
        push_str(&mut out, "\">");
        push_str(&mut out, text.as_str());
        push_str(&mut out, "</a></h");
        out.push(d);
        push_str(&mut out, ">");
        assert(out@ =~= anchored_heading(seg_view(*seg)));
        let level = (d as u32) - ('0' as u32);
        (out, Some(HeadingRecord { level, slug, text }))
    } else {
        push_str(&mut out, seg.text.as_str());
        assert(out@ =~= seg.text@);
        (out, None)
    }
}

/// Gives every plain-text heading element of `html` an anchor link to its
/// slug, and returns the headings found, in document order.
pub fn add_heading_anchors(html: &str) -> (r: (String, Vec<HeadingRecord>))
    ensures
        r.0@ == html_with_anchors(html@),
        recs_view(r.1@) == html_headings(html@),
        forall|k: int| 0 <= k < r.1@.len() ==> 1 <= #[trigger] r.1@[k].level <= 6,
{
    let cs = chars_of(html);
    let segs = scan_text(Stage::Heading, &cs);
    let ghost sv = segs_view(segs@);
    proof {
        crate::scan::lemma_scan_heading_digits(cs@);
    }
    let mut out: Vec<char> = Vec::new();
    let mut recs: Vec<HeadingRecord> = Vec::new();
    let mut i: usize = 0;
    while i < segs.len()
        invariant
            i <= segs@.len(),
            sv == segs_view(segs@),
            sv == scan(Stage::Heading, cs@),
            cs@ == html@,
            forall|k: int|
                0 <= k < sv.len() && sv[k].0 == Kind::Heading ==> crate::scan::level_digit(
                    sv[k].1[2],
                ) || sv[k].1.len() < 9,
            out@ == anchored(sv.subrange(0, i as int)),
            recs_view(recs@) == heading_records(sv.subrange(0, i as int)),
            forall|k: int| 0 <= k < recs@.len() ==> 1 <= #[trigger] recs@[k].level <= 6,
        decreases segs@.len() - i,
    {
        assert(sv[i as int] == seg_view(segs@[i as int]));
        let (piece, rec) = anchor_one(&segs[i]);
        push_all(&mut out, piece.as_slice());
        proof {
            assert(sv.subrange(0, i + 1).drop_last() =~= sv.subrange(0, i as int));
            assert(sv.subrange(0, i + 1).last() == sv[i as int]);
        }
        let ghost before = recs_view(recs@);
        match rec {
            Some(h) => {
                recs.push(h);
                assert(recs_view(recs@) =~= before.push(rec_view(h)));
            },
            None => {},
        }
        i = i + 1;
    }
    assert(sv.subrange(0, sv.len() as int) == sv);
    (string_of(out.as_slice()), recs)
}

} // verus!
