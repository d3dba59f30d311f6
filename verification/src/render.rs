//! The file text written for a post or a page: a TOML front matter block
//! between `+++` lines, a blank line, then the body.

use vstd::prelude::*;
use crate::content::{law_valid_names_stay_in_directory, post_file_name_spec, post_read_name, ContentError, Page, PageView, Post, PostMetaView, PostView, texts_of};
use crate::names::file_stem;
use crate::names::{is_valid_name, is_valid_name_text};
use crate::text::{chars_of, lemma_strip_end, lemma_strip_start, strip_start, trim_leading_newlines};
use crate::front_matter::{is_first_marker, is_marker_at, lemma_first_marker_unique, split_front_matter};

verus! {

broadcast use vstd::string::group_string_axioms;

/// `s` with every `"` written as `\"`.
pub open spec fn escape_quotes(s: Seq<char>) -> Seq<char>
    decreases s.len(),
{
    if s.len() == 0 {
        Seq::empty()
    } else {
        escape_quotes(s.drop_last()) + if s.last() == '"' {
            seq!['\\', '"']
        } else {
            seq![s.last()]
        }
    }
}

/// `s` between double quotes.
pub open spec fn quoted(s: Seq<char>) -> Seq<char> {
    seq!['"'] + s + seq!['"']
}

/// The items, each quoted with its `"` escaped, joined by `, `.
pub open spec fn joined_quoted(items: Seq<Seq<char>>) -> Seq<char>
    decreases items.len(),
{
    if items.len() == 0 {
        Seq::empty()
    } else if items.len() == 1 {
        quoted(escape_quotes(items[0]))
    } else {
        joined_quoted(items.drop_last()) + ", "@ + quoted(escape_quotes(items.last()))
    }
}

/// The items written as a TOML array of strings, `["a", "b"]`.
pub open spec fn string_list(items: Seq<Seq<char>>) -> Seq<char> {
    seq!['['] + joined_quoted(items) + seq![']']
}

/// `true` or `false`.
pub open spec fn bool_text(b: bool) -> Seq<char> {
    if b {
        "true"@
    } else {
        "false"@
    }
}

/// The front matter written for a post. The date is written bare, the title
/// and description quoted with their `"` escaped.
pub open spec fn post_front_matter(m: PostMetaView) -> Seq<char> {
    "title = \""@ + escape_quotes(m.title) + "\"\ndate = "@ + m.date + "\ndescription = \""@
        + escape_quotes(m.description) + "\"\ncategories = "@ + string_list(m.categories)
        + "\ntags = "@ + string_list(m.tags) + "\ndraft = "@ + bool_text(m.draft)
}

/// The front matter written for a page.
pub open spec fn page_front_matter(p: PageView) -> Seq<char> {
    "title = \""@ + escape_quotes(p.title) + "\"\ndraft = "@ + bool_text(p.draft)
}

/// A file with front matter `fm` and body `body`.
pub open spec fn file_text(fm: Seq<char>, body: Seq<char>) -> Seq<char> {
    "+++\n"@ + fm + "\n+++\n\n"@ + body
}

/// The escaping of a concatenation is the concatenation of the escapings.
pub proof fn lemma_escape_append(a: Seq<char>, b: Seq<char>)
    ensures
        escape_quotes(a + b) == escape_quotes(a) + escape_quotes(b),
    decreases b.len(),
{
    if b.len() == 0 {
        assert(a + b =~= a);
        assert(escape_quotes(a) + escape_quotes(b) =~= escape_quotes(a));
    } else {
        lemma_escape_append(a, b.drop_last());
        assert((a + b).drop_last() =~= a + b.drop_last());
        assert((a + b).last() == b.last());
        assert(escape_quotes(a + b) =~= escape_quotes(a) + escape_quotes(b));
    }
}

/// Text without `"` is written as it is.
pub proof fn lemma_escape_plain(s: Seq<char>)
    requires
        forall|i: int| 0 <= i < s.len() ==> s[i] != '"',
    ensures
        escape_quotes(s) == s,
    decreases s.len(),
{
    if s.len() > 0 {
        lemma_escape_plain(s.drop_last());
        assert(s.drop_last() + seq![s.last()] =~= s);
    }
}

/// Appends `s` to `out` with every `"` escaped.
fn push_escaped(out: &mut String, s: &str)
    ensures
        final(out)@ == old(out)@ + escape_quotes(s@),
{
    let cs = chars_of(s);
    let n = cs.len();
    let mut start: usize = 0;
    let mut i: usize = 0;
    assert(s@.take(0) =~= Seq::<char>::empty());
    while i < n
        invariant
            n == cs.len(),
            cs@ == s@,
            start <= i <= n,
            out@ == old(out)@ + escape_quotes(s@.take(start as int)),
            forall|j: int| start <= j < i ==> cs@[j] != '"',
        decreases n - i,
    {
        if cs[i] == '"' {
            let ghost before = out@;
            out.append(s.substring_char(start, i));
            out.append("\\\"");
            proof {
                let run = s@.subrange(start as int, i as int);
                lemma_escape_plain(run);
                lemma_escape_append(s@.take(start as int), run);
                assert(s@.take(start as int) + run =~= s@.take(i as int));
                assert(s@.take(i + 1).drop_last() =~= s@.take(i as int));
                reveal_strlit("\\\"");
                assert("\\\""@ =~= seq!['\\', '"']);
                assert(out@ =~= old(out)@ + escape_quotes(s@.take(i + 1)));
            }
            start = i + 1;
        }
        i = i + 1;
    }
    out.append(s.substring_char(start, n));
    proof {
        let run = s@.subrange(start as int, n as int);
        lemma_escape_plain(run);
        lemma_escape_append(s@.take(start as int), run);
        assert(s@.take(start as int) + run =~= s@);
    }
}

/// Appends the TOML array of the quoted `items` to `out`.
fn push_string_list(out: &mut String, items: &Vec<String>)
    ensures
        final(out)@ == old(out)@ + string_list(texts_of(items@)),
{
    out.append("[");
    let ghost texts = texts_of(items@);
    let mut i: usize = 0;
    proof {
        reveal_strlit("[");
        assert(texts.take(0) =~= Seq::<Seq<char>>::empty());
    }
    while i < items.len()
        invariant
            i <= items.len(),
            texts == texts_of(items@),
            out@ == old(out)@ + seq!['['] + joined_quoted(texts.take(i as int)),
        decreases items.len() - i,
    {
        if i > 0 {
            out.append(", ");
        }
        out.append("\"");
        push_escaped(out, items[i].as_str());
        out.append("\"");
        proof {
            reveal_strlit("\"");
            assert(texts.take(i + 1).drop_last() =~= texts.take(i as int));
            assert(texts.take(i + 1).last() == items@[i as int]@);
            if i == 0 {
                assert(out@ =~= old(out)@ + seq!['['] + joined_quoted(texts.take(i + 1)));
            } else {
                assert(out@ =~= old(out)@ + seq!['['] + joined_quoted(texts.take(i + 1)));
            }
        }
        i = i + 1;
    }
    out.append("]");
    proof {
        reveal_strlit("]");
        assert(texts.take(items.len() as int) =~= texts);
    }
}

/// Appends `true` or `false` to `out`.
fn push_bool(out: &mut String, b: bool)
    ensures
        final(out)@ == old(out)@ + bool_text(b),
{
    if b {
        out.append("true");
    } else {
        out.append("false");
    }
}

/// The text of the file for the post `post`.
pub fn post_file_text(post: &Post) -> (r: String)
    ensures
        r@ == file_text(post_front_matter(post.meta@), post.content@),
{
    let m = &post.meta;
    let mut out = String::new();
    out.append("+++\n");
    let ghost start = out@;
    out.append("title = \"");
    push_escaped(&mut out, m.title.as_str());
    out.append("\"\ndate = ");
    out.append(m.date.as_str());
    out.append("\ndescription = \"");
    push_escaped(&mut out, m.description.as_str());
    out.append("\"\ncategories = ");
    push_string_list(&mut out, &m.categories);
    out.append("\ntags = ");
    push_string_list(&mut out, &m.tags);
    out.append("\ndraft = ");
    push_bool(&mut out, m.draft);
    assert(out@ =~= start + post_front_matter(m@));
    out.append("\n+++\n\n");
    out.append(post.content.as_str());
    assert(out@ =~= file_text(post_front_matter(post.meta@), post.content@));
    out
}

/// The text of the file for the page `page`.
pub fn page_file_text(page: &Page) -> (r: String)
    ensures
        r@ == file_text(page_front_matter(page@), page.content@),
{
    let mut out = String::new();
    out.append("+++\n");
    let ghost start = out@;
    out.append("title = \"");
    push_escaped(&mut out, page.title.as_str());
    out.append("\"\ndraft = ");
    push_bool(&mut out, page.draft);
    assert(out@ =~= start + page_front_matter(page@));
    out.append("\n+++\n\n");
    out.append(page.content.as_str());
    assert(out@ =~= file_text(page_front_matter(page@), page.content@));
    out
}

/// A file to write: its name, then its text.
pub open spec fn write_result_is(
    r: Result<(String, String), ContentError>,
    spec: Result<(Seq<char>, Seq<char>), ContentError>,
) -> bool {
    match r {
        Ok((name, text)) => spec == Ok::<(Seq<char>, Seq<char>), ContentError>((name@, text@)),
        Err(e) => spec == Err::<(Seq<char>, Seq<char>), ContentError>(e),
    }
}

/// What saving `post` writes: the file `{slug}.md` with the post's front
/// matter and body, once the slug is checked.
pub open spec fn save_post_spec(post: PostView) -> Result<(Seq<char>, Seq<char>), ContentError> {
    if is_valid_name(post.meta.slug) {
        Ok((post.meta.slug + ".md"@, file_text(post_front_matter(post.meta), post.content)))
    } else {
        Err(ContentError::InvalidSlug)
    }
}

/// What saving `page` writes: the file `{name}.md` with the page's front
/// matter and body, once the name is checked.
pub open spec fn save_page_spec(page: PageView) -> Result<(Seq<char>, Seq<char>), ContentError> {
    if is_valid_name(page.name) {
        Ok((page.name + ".md"@, file_text(page_front_matter(page), page.content)))
    } else {
        Err(ContentError::InvalidPageName)
    }
}

/// Checks the slug of `post` and gives the name and the text of its file.
pub fn save_post(post: &Post) -> (r: Result<(String, String), ContentError>)
    ensures
        write_result_is(r, save_post_spec(post@)),
{
    if !is_valid_name_text(post.meta.slug.as_str()) {
        return Err(ContentError::InvalidSlug);
    }
    let mut name = post.meta.slug.clone();
    name.append(".md");
    Ok((name, post_file_text(post)))
}

/// Checks the name of `page` and gives the name and the text of its file.
pub fn save_page(page: &Page) -> (r: Result<(String, String), ContentError>)
    ensures
        write_result_is(r, save_page_spec(page@)),
{
    if !is_valid_name_text(page.name.as_str()) {
        return Err(ContentError::InvalidPageName);
    }
    let mut name = page.name.clone();
    name.append(".md");
    Ok((name, page_file_text(page)))
}

/// Every newline of `x` is followed, inside `x`, by something other than `+`.
pub open spec fn newlines_not_before_plus(x: Seq<char>) -> bool {
    forall|j: int| 0 <= j < x.len() && #[trigger] x[j] == '\n' ==> j + 1 < x.len() && x[j + 1] != '+'
}

/// `x` holds no newline.
pub open spec fn single_line(x: Seq<char>) -> bool {
    forall|j: int| 0 <= j < x.len() ==> #[trigger] x[j] != '\n'
}

proof fn lemma_good_concat(a: Seq<char>, b: Seq<char>)
    requires
        newlines_not_before_plus(a),
        newlines_not_before_plus(b),
    ensures
        newlines_not_before_plus(a + b),
{
    let x = a + b;
    assert forall|j: int| 0 <= j < x.len() && #[trigger] x[j] == '\n' implies j + 1 < x.len() && x[j + 1] != '+' by {
        if j < a.len() {
            assert(x[j] == a[j]);
            assert(x[j + 1] == a[j + 1]);
        } else {
            assert(x[j] == b[j - a.len()]);
            assert(x[j + 1] == b[j + 1 - a.len()]);
        }
    }
}

proof fn lemma_single_line_concat(a: Seq<char>, b: Seq<char>)
    requires
        single_line(a),
        single_line(b),
    ensures
        single_line(a + b),
{
    let x = a + b;
    assert forall|j: int| 0 <= j < x.len() implies #[trigger] x[j] != '\n' by {
        if j < a.len() {
            assert(x[j] == a[j]);
        } else {
            assert(x[j] == b[j - a.len()]);
        }
    }
}

proof fn lemma_escape_single_line(s: Seq<char>)
    requires
        single_line(s),
    ensures
        single_line(escape_quotes(s)),
    decreases s.len(),
{
    if s.len() > 0 {
        let t = s.drop_last();
        assert forall|j: int| 0 <= j < t.len() implies #[trigger] t[j] != '\n' by {
            assert(t[j] == s[j]);
        }
        lemma_escape_single_line(t);
        assert(s[s.len() - 1] != '\n');
        let tail = if s.last() == '"' {
            seq!['\\', '"']
        } else {
            seq![s.last()]
        };
        assert(single_line(tail));
        lemma_single_line_concat(escape_quotes(t), tail);
    }
}

proof fn lemma_list_single_line(items: Seq<Seq<char>>)
    requires
        forall|i: int| 0 <= i < items.len() ==> single_line(#[trigger] items[i]),
    ensures
        single_line(joined_quoted(items)),
        single_line(string_list(items)),
    decreases items.len(),
{
    reveal_strlit(", ");
    let q = seq!['"'];
    assert(single_line(q));
    assert(single_line(seq!['[']));
    assert(single_line(seq![']']));
    assert(single_line(", "@));
    if items.len() > 0 {
        let t = items.drop_last();
        assert forall|i: int| 0 <= i < t.len() implies single_line(#[trigger] t[i]) by {
            assert(t[i] == items[i]);
        }
        lemma_list_single_line(t);
        let last = items.last();
        assert(single_line(last));
        lemma_escape_single_line(last);
        let el = escape_quotes(last);
        lemma_single_line_concat(q, el);
        lemma_single_line_concat(q + el, q);
        if items.len() > 1 {
            lemma_single_line_concat(joined_quoted(t), ", "@);
            lemma_single_line_concat(joined_quoted(t) + ", "@, quoted(el));
        } else {
            assert(items[0] == last);
        }
    } else {
        assert(single_line(joined_quoted(items)));
    }
    lemma_single_line_concat(seq!['['], joined_quoted(items));
    lemma_single_line_concat(seq!['['] + joined_quoted(items), seq![']']);
}

/// A file whose front matter has no newline followed by `+`, starts with
/// neither `+` nor white space and does not end with white space splits
/// back into that front matter and the body without its leading newlines.
pub proof fn lemma_file_text_splits(fm: Seq<char>, body: Seq<char>)
    requires
        fm.len() > 0,
        fm[0] != '+',
        !crate::text::is_white(fm[0]),
        !crate::text::is_white(fm.last()),
        newlines_not_before_plus(fm),
    ensures
        split_front_matter(file_text(fm, body)) == Some((fm, trim_leading_newlines(body))),
{
    reveal_strlit("+++\n");
    reveal_strlit("\n+++\n\n");
    let s = file_text(fm, body);
    assert("+++\n"@ =~= seq!['+', '+', '+', '\n']);
    assert("\n+++\n\n"@ =~= seq!['\n', '+', '+', '+', '\n', '\n']);
    let rest = s.skip(3);
    let head = seq!['\n'] + fm;
    assert(rest =~= head + seq!['\n', '+', '+', '+', '\n', '\n'] + body);
    let i = head.len() as int;
    assert(is_marker_at(rest, i));
    assert forall|j: int| 0 <= j < i implies !is_marker_at(rest, j) by {
        if rest[j] == '\n' && j + 1 < rest.len() {
            if j == 0 {
                assert(rest[1] == fm[0]);
            } else {
                assert(rest[j] == fm[j - 1]);
                assert(fm[j - 1] == '\n');
                if j < i - 1 {
                    assert(rest[j + 1] == fm[j]);
                }
            }
        }
    }
    assert(is_first_marker(rest, i));
    let c = choose|k: int| is_first_marker(rest, k);
    lemma_first_marker_unique(rest, i, c);
    assert(rest.take(i) =~= head);
    let ws = |ch: char| crate::text::is_white(ch);
    assert(head.drop_first() =~= fm);
    assert(strip_start(head, ws) == strip_start(fm, ws));
    lemma_strip_start(fm, ws, 0);
    assert(fm.skip(0) =~= fm);
    lemma_strip_end(fm, ws, fm.len() as int);
    assert(fm.take(fm.len() as int) =~= fm);
    let tail = rest.skip(i + 4);
    assert(tail =~= seq!['\n', '\n'] + body);
    let nl = |ch: char| ch == '\n';
    assert(tail.drop_first().drop_first() =~= body);
    assert(strip_start(tail, nl) == strip_start(tail.drop_first(), nl));
    assert(strip_start(tail.drop_first(), nl) == strip_start(body, nl));
}

/// What `save_post` writes splits back into the front matter it wrote and
/// the body (without the newlines it started with), for every post whose
/// title, date, description, categories and tags are single lines.
pub proof fn law_post_file_splits_back(post: PostView)
    requires
        single_line(post.meta.title),
        single_line(post.meta.date),
        single_line(post.meta.description),
        forall|i: int| 0 <= i < post.meta.categories.len() ==> single_line(#[trigger] post.meta.categories[i]),
        forall|i: int| 0 <= i < post.meta.tags.len() ==> single_line(#[trigger] post.meta.tags[i]),
    ensures
        split_front_matter(file_text(post_front_matter(post.meta), post.content)) == Some(
            (post_front_matter(post.meta), trim_leading_newlines(post.content)),
        ),
{
    let m = post.meta;
    reveal_strlit("title = \"");
    reveal_strlit("\"\ndate = ");
    reveal_strlit("\ndescription = \"");
    reveal_strlit("\"\ncategories = ");
    reveal_strlit("\ntags = ");
    reveal_strlit("\ndraft = ");
    reveal_strlit("true");
    reveal_strlit("false");
    let p1 = "title = \""@;
    let p2 = "\"\ndate = "@;
    let p3 = "\ndescription = \""@;
    let p4 = "\"\ncategories = "@;
    let p5 = "\ntags = "@;
    let p6 = "\ndraft = "@;
    assert(p1 =~= seq!['t', 'i', 't', 'l', 'e', ' ', '=', ' ', '"']);
    assert(p2 =~= seq!['"', '\n', 'd', 'a', 't', 'e', ' ', '=', ' ']);
    assert(p3 =~= seq!['\n', 'd', 'e', 's', 'c', 'r', 'i', 'p', 't', 'i', 'o', 'n', ' ', '=', ' ', '"']);
    assert(p4 =~= seq!['"', '\n', 'c', 'a', 't', 'e', 'g', 'o', 'r', 'i', 'e', 's', ' ', '=', ' ']);
    assert(p5 =~= seq!['\n', 't', 'a', 'g', 's', ' ', '=', ' ']);
    assert(p6 =~= seq!['\n', 'd', 'r', 'a', 'f', 't', ' ', '=', ' ']);
    assert(newlines_not_before_plus(p1));
    assert(newlines_not_before_plus(p2));
    assert(newlines_not_before_plus(p3));
    assert(newlines_not_before_plus(p4));
    assert(newlines_not_before_plus(p5));
    assert(newlines_not_before_plus(p6));
    lemma_escape_single_line(m.title);
    lemma_escape_single_line(m.description);
    lemma_list_single_line(m.categories);
    lemma_list_single_line(m.tags);
    let et = escape_quotes(m.title);
    let ed = escape_quotes(m.description);
    let lc = string_list(m.categories);
    let lt = string_list(m.tags);
    let b = bool_text(m.draft);
    assert(b =~= seq!['t', 'r', 'u', 'e'] || b =~= seq!['f', 'a', 'l', 's', 'e']);
    assert(single_line(b));
    lemma_good_concat(p1, et);
    lemma_good_concat(p1 + et, p2);
    lemma_good_concat(p1 + et + p2, m.date);
    lemma_good_concat(p1 + et + p2 + m.date, p3);
    lemma_good_concat(p1 + et + p2 + m.date + p3, ed);
    lemma_good_concat(p1 + et + p2 + m.date + p3 + ed, p4);
    lemma_good_concat(p1 + et + p2 + m.date + p3 + ed + p4, lc);
    lemma_good_concat(p1 + et + p2 + m.date + p3 + ed + p4 + lc, p5);
    lemma_good_concat(p1 + et + p2 + m.date + p3 + ed + p4 + lc + p5, lt);
    lemma_good_concat(p1 + et + p2 + m.date + p3 + ed + p4 + lc + p5 + lt, p6);
    lemma_good_concat(p1 + et + p2 + m.date + p3 + ed + p4 + lc + p5 + lt + p6, b);
    let fm = post_front_matter(m);
    assert(fm == p1 + et + p2 + m.date + p3 + ed + p4 + lc + p5 + lt + p6 + b);
    assert(fm[0] == 't');
    assert(fm.last() == b.last());
    lemma_file_text_splits(fm, post.content);
}

/// What `save_page` writes splits back into the front matter it wrote and
/// the body (without the newlines it started with), for every page whose
/// title is a single line.
pub proof fn law_page_file_splits_back(page: PageView)
    requires
        single_line(page.title),
    ensures
        split_front_matter(file_text(page_front_matter(page), page.content)) == Some(
            (page_front_matter(page), trim_leading_newlines(page.content)),
        ),
{
    reveal_strlit("title = \"");
    reveal_strlit("\"\ndraft = ");
    reveal_strlit("true");
    reveal_strlit("false");
    let p1 = "title = \""@;
    let p2 = "\"\ndraft = "@;
    assert(p1 =~= seq!['t', 'i', 't', 'l', 'e', ' ', '=', ' ', '"']);
    assert(p2 =~= seq!['"', '\n', 'd', 'r', 'a', 'f', 't', ' ', '=', ' ']);
    assert(newlines_not_before_plus(p1));
    assert(newlines_not_before_plus(p2));
    lemma_escape_single_line(page.title);
    let et = escape_quotes(page.title);
    let b = bool_text(page.draft);
    assert(b =~= seq!['t', 'r', 'u', 'e'] || b =~= seq!['f', 'a', 'l', 's', 'e']);
    assert(single_line(b));
    lemma_good_concat(p1, et);
    lemma_good_concat(p1 + et, p2);
    lemma_good_concat(p1 + et + p2, b);
    let fm = page_front_matter(page);
    assert(fm == p1 + et + p2 + b);
    assert(fm[0] == 't');
    assert(fm.last() == b.last());
    lemma_file_text_splits(fm, page.content);
}

/// Saving, reading and deleting a post agree on its file: where `save_post`
/// writes `{slug}.md`, `delete_post` names the same file, and `get_post`
/// reads that file and gives the slug back.
pub proof fn law_post_file_is_shared(post: PostView)
    requires
        is_valid_name(post.meta.slug),
    ensures
        save_post_spec(post) matches Ok((name, _)) && post_file_name_spec(post.meta.slug) == Ok::<
            Seq<char>,
            ContentError,
        >(name) && post_read_name(post.meta.slug) == name && file_stem(name) == post.meta.slug,
{
    law_valid_names_stay_in_directory(post.meta.slug);
}

} // verus!
