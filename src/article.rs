//! Article metadata: the bracketed header of a file name
//! (`[date tags author]slug`) and the title taken from a leading
//! level-one heading.
use vstd::prelude::*;
use crate::text::{
    chars_of, find, find_from, pieces, push_range, split_on, split_words, string_of,
    strings_view, substring, words,
};

verus! {

/// One article of the site. `html` and `url_path` are filled in after
/// rendering, by the caller.
#[derive(Debug, Clone)]
pub struct Article {
    pub title: String,
    pub markdown: String,
    pub date: String,
    pub author: String,
    pub tags: Vec<String>,
    pub filename: String,
    pub html: Option<String>,
    pub url_path: Option<String>,
}

/// Index of the `]` that closes a leading `[...]` header with at least one
/// character inside, or -1 where the name has no such header.
pub open spec fn header_close(f: Seq<char>) -> int {
    if f.len() > 0 && f[0] == '[' {
        let j = find_from(f, seq![']'], 1);
        if j > 1 {
            j
        } else {
            -1
        }
    } else {
        -1
    }
}

/// The whitespace-separated fields inside the header.
pub open spec fn header_fields(f: Seq<char>) -> Seq<Seq<char>> {
    if header_close(f) > 0 {
        words(f.subrange(1, header_close(f)))
    } else {
        Seq::empty()
    }
}

/// The file name without its header.
pub open spec fn name_slug(f: Seq<char>) -> Seq<char> {
    if header_close(f) > 0 {
        f.subrange(header_close(f) + 1, f.len() as int)
    } else {
        f
    }
}

/// The first header field, or empty.
pub open spec fn name_date(f: Seq<char>) -> Seq<char> {
    if header_fields(f).len() > 0 {
        header_fields(f)[0]
    } else {
        Seq::empty()
    }
}

/// The comma-separated pieces of the second header field, or none.
pub open spec fn name_tags(f: Seq<char>) -> Seq<Seq<char>> {
    if header_fields(f).len() > 1 {
        pieces(header_fields(f)[1], ',')
    } else {
        Seq::empty()
    }
}

/// The third header field, or the default author.
pub open spec fn name_author(f: Seq<char>, default_author: Seq<char>) -> Seq<char> {
    if header_fields(f).len() > 2 {
        header_fields(f)[2]
    } else {
        default_author
    }
}

/// Whether the text starts with a level-one heading marker `# `.
pub open spec fn has_title_line(m: Seq<char>) -> bool {
    m.len() >= 2 && m[0] == '#' && m[1] == ' '
}

/// The first line of the text, without its line ending (`\n` or `\r\n`).
pub open spec fn first_line(m: Seq<char>) -> Seq<char> {
    let k = find_from(m, seq!['\n'], 0);
    if k >= 0 {
        let l = m.subrange(0, k);
        if l.len() > 0 && l.last() == '\r' {
            l.drop_last()
        } else {
            l
        }
    } else {
        m
    }
}

/// The text after the `# ` marker of the first line.
pub open spec fn title_text(m: Seq<char>) -> Seq<char> {
    first_line(m).subrange(2, first_line(m).len() as int)
}

/// The text without the empty lines it starts with.
pub open spec fn skip_blank_lines(r: Seq<char>) -> Seq<char>
    decreases r.len(),
{
    if r.len() > 0 && r[0] == '\n' {
        skip_blank_lines(r.subrange(1, r.len() as int))
    } else if r.len() > 1 && r[0] == '\r' && r[1] == '\n' {
        skip_blank_lines(r.subrange(2, r.len() as int))
    } else {
        r
    }
}

/// What follows the first line and the empty lines after it, line
/// separators kept as they were.
pub open spec fn body_after_title(m: Seq<char>) -> Seq<char> {
    let k = find_from(m, seq!['\n'], 0);
    if k >= 0 {
        skip_blank_lines(m.subrange(k + 1, m.len() as int))
    } else {
        Seq::empty()
    }
}

/// The article's title: the heading of the first line, or the slug.
pub open spec fn article_title(m: Seq<char>, f: Seq<char>) -> Seq<char> {
    if has_title_line(m) {
        title_text(m)
    } else {
        name_slug(f)
    }
}

/// The article's body: the text without its title line, or all of it.
pub open spec fn article_body(m: Seq<char>) -> Seq<char> {
    if has_title_line(m) {
        body_after_title(m)
    } else {
        m
    }
}

/// Reads the date, tags, author and slug from the file name's header and
/// the title from the text's first line.
///
/// A name `[d t a]slug` gives date `d`, the comma-separated tags of `t` and
/// author `a`; missing fields give an empty date, no tags and the default
/// author. A text starting with `# ` gives its first line as title and the
/// rest, without leading empty lines, as body; any other text is the body
/// and the slug is the title.
pub fn analyze_article(markdown: &str, article_filename: &str, default_author: &str) -> (r:
    Article)
    ensures
        r.title@ == article_title(markdown@, article_filename@),
        r.markdown@ == article_body(markdown@),
        r.date@ == name_date(article_filename@),
        r.author@ == name_author(article_filename@, default_author@),
        strings_view(r.tags@) == name_tags(article_filename@),
        r.filename@ == name_slug(article_filename@),
        r.html is None,
        r.url_path is None,
{
    let f = chars_of(article_filename);
    let close_pat: Vec<char> = vec![']'];
    assert(close_pat@ =~= seq![']']);
    let mut close: usize = 0;
    if f.len() > 0 && f[0] == '[' {
        match find(&f, close_pat.as_slice(), 1) {
            Some(j) => {
                proof {
                    crate::text::lemma_find_from(f@, close_pat@, 1);
                }
                if j > 1 {
                    close = j;
                }
            },
            None => {},
        }
    }
    assert(close > 0 ==> close as int == header_close(f@));
    assert(close == 0 ==> header_close(f@) == -1);
    let mut date = String::new();
    let mut tags: Vec<String> = Vec::new();
    let mut author = String::from_str(default_author);
    let filename;
    if close > 0 {
        let parts = split_words(&f, 1, close);
        if parts.len() > 0 {
            date = parts[0].clone();
        }
        if parts.len() > 1 {
            let tv = chars_of(parts[1].as_str());
            tags = split_on(&tv, 0, tv.len(), ',');
            assert(tv@.subrange(0, tv@.len() as int) == tv@);
        }
        if parts.len() > 2 {
            author = parts[2].clone();
        }
        filename = substring(&f, close + 1, f.len());
    } else {
        filename = String::from_str(article_filename);
    }
    let m = chars_of(markdown);
    let title;
    let body;
    if m.len() >= 2 && m[0] == '#' && m[1] == ' ' {
        let nl: Vec<char> = vec!['\n'];
        assert(nl@ =~= seq!['\n']);
        match find(&m, nl.as_slice(), 0) {
            Some(k) => {
                proof {
                    crate::text::lemma_find_from(m@, nl@, 0);
                }
                let mut end = k;
                if k > 0 && m[k - 1] == '\r' {
                    end = k - 1;
                }
                assert(m@.subrange(0, k as int).drop_last() == m@.subrange(0, k - 1));
                if end < 2 {
                    assert(m@[1] == ' ');
                    assert(false);
                }
                title = substring(&m, 2, end);
                assert(title@ == title_text(m@)) by {
                    assert(first_line(m@) == m@.subrange(0, end as int));
                }
                let mut i = k + 1;
                while i < m.len() && (m[i] == '\n' || (i + 1 < m.len() && m[i] == '\r' && m[i
                    + 1] == '\n'))
                    invariant
                        k + 1 <= i <= m@.len(),
                        skip_blank_lines(m@.subrange(i as int, m@.len() as int))
                            == skip_blank_lines(m@.subrange(k + 1, m@.len() as int)),
                    decreases m@.len() - i,
                {
                    let ghost r = m@.subrange(i as int, m@.len() as int);
                    if m[i] == '\n' {
                        assert(r.subrange(1, r.len() as int) == m@.subrange(i + 1, m@.len() as int));
                        i = i + 1;
                    } else {
                        assert(r.subrange(2, r.len() as int) == m@.subrange(i + 2, m@.len() as int));
                        i = i + 2;
                    }
                }
                let mut bv: Vec<char> = Vec::new();
                push_range(&mut bv, &m, i, m.len());
                body = string_of(bv.as_slice());
                proof {
                    let r = m@.subrange(i as int, m@.len() as int);
                    if i < m@.len() {
                        assert(r[0] == m@[i as int]);
                        if r.len() > 1 {
                            assert(r[1] == m@[i + 1]);
                        }
                    }
                    assert(skip_blank_lines(r) == r);
                }
            },
            None => {
                title = substring(&m, 2, m.len());
                body = String::new();
            },
        }
    } else {
        title = filename.clone();
        body = String::from_str(markdown);
    }
    Article {
        title,
        markdown: body,
        date,
        author,
        tags,
        filename,
        html: None,
        url_path: None,
    }
}

} // verus!
