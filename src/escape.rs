//! Escaping of text for HTML and XML output.
use vstd::prelude::*;
use crate::text::{chars_of, push_all, string_of};

verus! {

/// The HTML form of one character: `&`, `<`, `>`, `"` and `'` become
/// entities, every other character stands for itself.
pub open spec fn html_entity(c: char) -> Seq<char> {
    if c == '&' {
        seq!['&', 'a', 'm', 'p', ';']
    } else if c == '<' {
        seq!['&', 'l', 't', ';']
    } else if c == '>' {
        seq!['&', 'g', 't', ';']
    } else if c == '"' {
        seq!['&', 'q', 'u', 'o', 't', ';']
    } else if c == '\'' {
        seq!['&', '#', '3', '9', ';']
    } else {
        seq![c]
    }
}

/// The XML form of one character: as for HTML, but the apostrophe becomes
/// `&apos;`.
pub open spec fn xml_entity(c: char) -> Seq<char> {
    if c == '\'' {
        seq!['&', 'a', 'p', 'o', 's', ';']
    } else {
        html_entity(c)
    }
}

/// `s` with each character replaced by its HTML form.
pub open spec fn html_escaped(s: Seq<char>) -> Seq<char>
    decreases s.len(),
{
    if s.len() == 0 {
        Seq::empty()
    } else {
        html_escaped(s.drop_last()) + html_entity(s.last())
    }
}

/// `s` with each character replaced by its XML form.
pub open spec fn xml_escaped(s: Seq<char>) -> Seq<char>
    decreases s.len(),
{
    if s.len() == 0 {
        Seq::empty()
    } else {
        xml_escaped(s.drop_last()) + xml_entity(s.last())
    }
}

fn entity(c: char, xml: bool) -> (r: Vec<char>)
    ensures
        r@ == (if xml {
            xml_entity(c)
        } else {
            html_entity(c)
        }),
{
    let mut r: Vec<char> = Vec::new();
    if c == '&' {
        r.push('&');
        r.push('a');
        r.push('m');
        r.push('p');
        r.push(';');
    } else if c == '<' {
        r.push('&');
        r.push('l');
        r.push('t');
        r.push(';');
    } else if c == '>' {
        r.push('&');
        r.push('g');
        r.push('t');
        r.push(';');
    } else if c == '"' {
        r.push('&');
        r.push('q');
        r.push('u');
        r.push('o');
        r.push('t');
        r.push(';');
    } else if c == '\'' && xml {
        r.push('&');
        r.push('a');
        r.push('p');
        r.push('o');
        r.push('s');
        r.push(';');
    } else if c == '\'' {
        r.push('&');
        r.push('#');
        r.push('3');
        r.push('9');
        r.push(';');
    } else {
        r.push(c);
    }
    assert(r@ =~= (if xml {
        xml_entity(c)
    } else {
        html_entity(c)
    }));
    r
}

/// Escapes the characters of `s` onto the end of `out`.
pub fn escape_into(out: &mut Vec<char>, s: &[char], xml: bool)
    ensures
        final(out)@ == old(out)@ + (if xml {
            xml_escaped(s@)
        } else {
            html_escaped(s@)
        }),
{
    let ghost start = out@;
    let mut i: usize = 0;
    while i < s.len()
        invariant
            i <= s@.len(),
            out@ == start + (if xml {
                xml_escaped(s@.subrange(0, i as int))
            } else {
                html_escaped(s@.subrange(0, i as int))
            }),
        decreases s@.len() - i,
    {
        let e = entity(s[i], xml);
        push_all(out, e.as_slice());
        proof {
            let p = s@.subrange(0, i + 1);
            assert(p.drop_last() == s@.subrange(0, i as int));
            assert(p.last() == s@[i as int]);
        }
        i = i + 1;
        assert(out@ == start + (if xml {
            xml_escaped(s@.subrange(0, i as int))
        } else {
            html_escaped(s@.subrange(0, i as int))
        }));
    }
    assert(s@.subrange(0, s@.len() as int) == s@);
}

/// Escapes the five HTML special characters of `s`.
pub fn escape_html(s: &str) -> (r: String)
    ensures
        r@ == html_escaped(s@),
{
    let v = chars_of(s);
    let mut out: Vec<char> = Vec::new();
    escape_into(&mut out, v.as_slice(), false);
    string_of(out.as_slice())
}

/// Escapes the five HTML special characters of `s`; the same as
/// `escape_html`.
pub fn html_escape(s: &str) -> (r: String)
    ensures
        r@ == html_escaped(s@),
{
    escape_html(s)
}

/// Escapes the five XML special characters of `s`.
pub fn escape_xml(s: &str) -> (r: String)
    ensures
        r@ == xml_escaped(s@),
{
    let v = chars_of(s);
    let mut out: Vec<char> = Vec::new();
    escape_into(&mut out, v.as_slice(), true);
    string_of(out.as_slice())
}

} // verus!
