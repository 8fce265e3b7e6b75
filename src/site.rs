//! Site-level rules around the rendered articles: which articles are
//! hidden, the names and paths of their pages, the comment widget, which
//! files are articles, and the order of the article list.
use vstd::prelude::*;
use crate::article::Article;
use crate::text::{chars_of, equals_str, push_str, string_of};

verus! {

/// Whether the article carries the tag `Hidden`.
pub open spec fn hidden(a: Article) -> bool {
    exists|k: int| 0 <= k < a.tags@.len() && (#[trigger] a.tags@[k])@ == "Hidden"@
}

/// Whether the article is hidden from listings: it has the tag `Hidden`.
pub fn is_hidden(article: &Article) -> (r: bool)
    ensures
        r == hidden(*article),
{
    let mut i: usize = 0;
    while i < article.tags.len()
        invariant
            i <= article.tags@.len(),
            forall|k: int| 0 <= k < i ==> (#[trigger] article.tags@[k])@ != "Hidden"@,
        decreases article.tags@.len() - i,
    {
        let cs = chars_of(article.tags[i].as_str());
        if equals_str(&cs, "Hidden") {
            return true;
        }
        i = i + 1;
    }
    false
}

/// The page file of an article: its slug with `.htm` when hidden, `.html`
/// otherwise.
pub fn page_file_name(filename: &str, hidden: bool) -> (r: String)
    ensures
        r@ == filename@ + if hidden {
            ".htm"@
        } else {
            ".html"@
        },
{
    let mut out: Vec<char> = Vec::new();
    push_str(&mut out, filename);
    if hidden {
        push_str(&mut out, ".htm");
    } else {
        push_str(&mut out, ".html");
    }
    string_of(out.as_slice())
}

/// The URL path of a page: `/<dir>/<file>`.
pub fn page_url_path(dir: &str, file: &str) -> (r: String)
    ensures
        r@ == "/"@ + dir@ + "/"@ + file@,
{
    let mut out: Vec<char> = Vec::new();
    push_str(&mut out, "/");
    push_str(&mut out, dir);
    push_str(&mut out, "/");
    push_str(&mut out, file);
    string_of(out.as_slice())
}

/// The title of an article page: `<title> | <site name>`.
pub fn page_title(title: &str, site_name: &str) -> (r: String)
    ensures
        r@ == title@ + " | "@ + site_name@,
{
    let mut out: Vec<char> = Vec::new();
    push_str(&mut out, title);
    push_str(&mut out, " | ");
    push_str(&mut out, site_name);
    string_of(out.as_slice())
}

/// The comment widget for a repository and its id.
pub open spec fn comment_widget(repo: Seq<char>, repo_id: Seq<char>) -> Seq<char> {
    "<script src=\"https://giscus.app/client.js\"\n      data-repo=\""@ + repo
        + "\"\n      data-repo-id=\""@ + repo_id
        + "\"\n      data-category=\"Announcements\"\n      data-category-id=\"DIC_kwDOBNDkVs4CA6GQ\"\n      data-mapping=\"title\"\n      data-reactions-enabled=\"0\"\n      data-emit-metadata=\"0\"\n      data-input-position=\"bottom\"\n      data-theme=\"preferred_color_scheme\"\n      data-lang=\"en\"\n      crossorigin=\"anonymous\"\n      async>\n    </script>"@
}

/// The comment section of a page: nothing for a hidden article or where the
/// repository or its id is not configured, the widget otherwise.
pub fn comment_script(hidden: bool, repo: &Option<String>, repo_id: &Option<String>) -> (r:
    String)
    ensures
        r@ == match (hidden, repo, repo_id) {
            (false, Some(a), Some(b)) => comment_widget(a@, b@),
            _ => Seq::empty(),
        },
{
    if hidden {
        return String::new();
    }
    match (repo, repo_id) {
        (Some(a), Some(b)) => {
            let mut out: Vec<char> = Vec::new();
            push_str(&mut out, "<script src=\"https://giscus.app/client.js\"\n      data-repo=\"");
            push_str(&mut out, a.as_str());
            push_str(&mut out, "\"\n      data-repo-id=\"");
            push_str(&mut out, b.as_str());
            push_str(
                &mut out,
                "\"\n      data-category=\"Announcements\"\n      data-category-id=\"DIC_kwDOBNDkVs4CA6GQ\"\n      data-mapping=\"title\"\n      data-reactions-enabled=\"0\"\n      data-emit-metadata=\"0\"\n      data-input-position=\"bottom\"\n      data-theme=\"preferred_color_scheme\"\n      data-lang=\"en\"\n      crossorigin=\"anonymous\"\n      async>\n    </script>",
            );
            assert(out@ =~= comment_widget(a@, b@));
            string_of(out.as_slice())
        },
        _ => String::new(),
    }
}

/// Whether a path names an article file: it ends with `.` and the format.
pub open spec fn article_path(path: Seq<char>, format: Seq<char>) -> bool {
    let ext = seq!['.'] + format;
    ext.len() <= path.len() && path.subrange(path.len() - ext.len(), path.len() as int) == ext
}

/// Whether a relative path names an article of the given format.
pub fn is_article_path(path: &str, format: &str) -> (r: bool)
    ensures
        r == article_path(path@, format@),
{
    let p = chars_of(path);
    let mut ext: Vec<char> = Vec::new();
    ext.push('.');
    push_str(&mut ext, format);
    assert(ext@ =~= seq!['.'] + format@);
    if ext.len() > p.len() {
        return false;
    }
    crate::text::matches_at(&p, ext.as_slice(), p.len() - ext.len())
}

/// `a` comes strictly before `b` in the order of characters, from index
/// `i` on, the two agreeing before `i`.
pub open spec fn less_from(a: Seq<char>, b: Seq<char>, i: int) -> bool
    decreases a.len() - i,
{
    if i < 0 || i > a.len() || i > b.len() {
        false
    } else if i == a.len() {
        i < b.len()
    } else if i == b.len() {
        false
    } else if a[i] < b[i] {
        true
    } else if a[i] > b[i] {
        false
    } else {
        less_from(a, b, i + 1)
    }
}

/// Lexicographic order of character sequences (the order of `str`).
pub open spec fn lex_less(a: Seq<char>, b: Seq<char>) -> bool {
    less_from(a, b, 0)
}

proof fn lemma_less_from_asym(a: Seq<char>, b: Seq<char>, i: int)
    ensures
        !(less_from(a, b, i) && less_from(b, a, i)),
    decreases a.len() - i,
{
    if 0 <= i && i < a.len() && i < b.len() && a[i] == b[i] {
        lemma_less_from_asym(a, b, i + 1);
    }
}

proof fn lemma_less_irreflexive(a: Seq<char>, i: int)
    ensures
        !less_from(a, a, i),
    decreases a.len() - i,
{
    if 0 <= i && i < a.len() {
        lemma_less_irreflexive(a, i + 1);
    }
}

/// Whether the text of `a` comes strictly before that of `b`.
pub fn str_less(a: &str, b: &str) -> (r: bool)
    ensures
        r == lex_less(a@, b@),
{
    let x = chars_of(a);
    let y = chars_of(b);
    let mut i: usize = 0;
    while i < x.len() && i < y.len() && x[i] == y[i]
        invariant
            i <= x@.len(),
            i <= y@.len(),
            less_from(x@, y@, 0) == less_from(x@, y@, i as int),
        decreases x@.len() - i,
    {
        i = i + 1;
    }
    if i == x.len() {
        i < y.len()
    } else if i == y.len() {
        false
    } else {
        x[i] < y[i]
    }
}

/// Whether `a` is listed after `b`: newer dates first, and for equal dates
/// titles in order.
pub open spec fn listed_after(a: Article, b: Article) -> bool {
    lex_less(a.date@, b.date@) || (a.date@ == b.date@ && lex_less(b.title@, a.title@))
}

proof fn lemma_listed_after_asym(a: Article, b: Article)
    ensures
        !(listed_after(a, b) && listed_after(b, a)),
{
    lemma_less_from_asym(a.date@, b.date@, 0);
    lemma_less_from_asym(a.title@, b.title@, 0);
    if a.date@ == b.date@ {
        lemma_less_irreflexive(a.date@, 0);
    }
}

fn is_listed_after(a: &Article, b: &Article) -> (r: bool)
    ensures
        r == listed_after(*a, *b),
{
    if str_less(a.date.as_str(), b.date.as_str()) {
        return true;
    }
    if str_less(b.date.as_str(), a.date.as_str()) {
        proof {
            lemma_less_from_asym(a.date@, b.date@, 0);
            if a.date@ == b.date@ {
                lemma_less_irreflexive(a.date@, 0);
            }
        }
        return false;
    }
    let same = equals_str(&chars_of(a.date.as_str()), b.date.as_str());
    same && str_less(b.title.as_str(), a.title.as_str())
}

/// The list is in order: no article is listed after the one following it.
pub open spec fn in_list_order(s: Seq<Article>) -> bool {
    forall|i: int| 0 <= i < s.len() - 1 ==> !listed_after(#[trigger] s[i], s[i + 1])
}

/// Where `a` goes in an ordered list: before the first article, from `i`
/// on, that is listed after it, or at the end.
pub open spec fn insert_pos(l: Seq<Article>, a: Article, i: int) -> int
    decreases l.len() - i,
{
    if i < 0 || i >= l.len() {
        l.len() as int
    } else if listed_after(l[i], a) {
        i
    } else {
        insert_pos(l, a, i + 1)
    }
}

/// The articles in list order, each placed after those already placed
/// that it is not listed before, so that articles of equal date and title
/// keep their order.
pub open spec fn list_sorted(s: Seq<Article>) -> Seq<Article>
    decreases s.len(),
{
    if s.len() == 0 {
        Seq::empty()
    } else {
        let l = list_sorted(s.drop_last());
        l.insert(insert_pos(l, s.last(), 0), s.last())
    }
}

/// Sorts the articles for the index: newest date first, titles in order
/// for equal dates, articles of equal date and title in their given order.
/// The result holds the same articles.
pub fn sort_articles(articles: Vec<Article>) -> (r: Vec<Article>)
    ensures
        r@ == list_sorted(articles@),
        r@.to_multiset() == articles@.to_multiset(),
        in_list_order(r@),
{
    let ghost all = articles@;
    let mut out: Vec<Article> = Vec::new();
    assert(out@ =~= all.subrange(0, 0));
    for a in it: articles
        invariant
            all == it.seq(),
            out@ == list_sorted(all.subrange(0, it.index() as int)),
            out@.to_multiset() == all.subrange(0, it.index() as int).to_multiset(),
            in_list_order(out@),
    {
        let ghost idx = it.index();
        let mut pos: usize = 0;
        while pos < out.len() && !is_listed_after(&out[pos], &a)
            invariant
                pos <= out@.len(),
                pos > 0 ==> !listed_after(out@[pos - 1], a),
                insert_pos(out@, a, 0) == insert_pos(out@, a, pos as int),
            decreases out@.len() - pos,
        {
            pos = pos + 1;
        }
        proof {
            if pos < out@.len() {
                lemma_listed_after_asym(out@[pos as int], a);
            }
        }
        let ghost before = out@;
        out.insert(pos, a);
        proof {
            assert(all.subrange(0, idx + 1) =~= all.subrange(0, idx as int).push(a));
            assert(all.subrange(0, idx + 1).drop_last() == all.subrange(0, idx as int));
            assert(all.subrange(0, idx + 1).last() == a);
            assert(insert_pos(before, a, pos as int) == pos);
            assert(out@ == before.insert(pos as int, a));
            vstd::seq_lib::to_multiset_insert(before, pos as int, a);
            vstd::seq_lib::to_multiset_build(all.subrange(0, idx as int), a);
            assert(before.insert(pos as int, a).to_multiset() =~= before.to_multiset().insert(a));
            assert(all.subrange(0, idx as int).push(a).to_multiset() =~= all.subrange(
                0,
                idx as int,
            ).to_multiset().insert(a));
            assert forall|i: int| 0 <= i < out@.len() - 1 implies !listed_after(
                #[trigger] out@[i],
                out@[i + 1],
            ) by {
                if i + 1 < pos {
                    assert(out@[i] == before[i] && out@[i + 1] == before[i + 1]);
                } else if i + 1 == pos {
                    assert(out@[i] == before[i] && out@[i + 1] == a);
                } else if i == pos {
                    assert(out@[i] == a && out@[i + 1] == before[i]);
                } else {
                    assert(out@[i] == before[i - 1] && out@[i + 1] == before[i]);
                }
            }
        }
    }
    assert(all.subrange(0, all.len() as int) == all);
    out
}

} // verus!
