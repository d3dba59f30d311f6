//! What a saved post or page file says, read back without TOML: the quoted
//! strings of its front matter, in order, and the draft flag on its last
//! line.

use vstd::prelude::*;
use crate::content::{PageView, PostView};
use crate::front_matter::split_front_matter;
use crate::names::{is_valid_name, last_index_of, lemma_last_index_of, lemma_last_index_of_unique};
use crate::render::{
    bool_text, escape_quotes, joined_quoted, law_page_file_splits_back, law_post_file_splits_back,
    lemma_escape_plain, quoted, save_page_spec, save_post_spec, single_line,
};
use crate::text::trim_leading_newlines;

verus! {

/// `s` holds no `"`.
pub open spec fn quote_free(s: Seq<char>) -> bool {
    forall|i: int| 0 <= i < s.len() ==> #[trigger] s[i] != '"'
}

/// The strings between successive pairs of `"` in `s`, in order: the text
/// between the last `"` and the `"` before it is the last string, and so on
/// towards the front.
pub open spec fn quoted_strings(s: Seq<char>) -> Seq<Seq<char>>
    decreases s.len(),
{
    let j = last_index_of(s, '"');
    proof {
        lemma_last_index_of(s, '"');
    }
    if j < 0 {
        Seq::empty()
    } else {
        let i = last_index_of(s.take(j), '"');
        proof {
            lemma_last_index_of(s.take(j), '"');
        }
        if i < 0 {
            Seq::empty()
        } else {
            quoted_strings(s.take(i)).push(s.subrange(i + 1, j))
        }
    }
}

/// Text without `"` after `a` adds no quoted string.
proof fn lemma_quoted_tail(a: Seq<char>, b: Seq<char>)
    requires
        quote_free(b),
    ensures
        quoted_strings(a + b) == quoted_strings(a),
{
    let s = a + b;
    lemma_last_index_of(a, '"');
    let ja = last_index_of(a, '"');
    assert forall|j: int| ja < j < s.len() implies s[j] != '"' by {
        if j >= a.len() {
            assert(s[j] == b[j - a.len()]);
        } else {
            assert(s[j] == a[j]);
        }
    }
    if ja >= 0 {
        assert(s[ja] == a[ja]);
    }
    lemma_last_index_of_unique(s, '"', ja);
    if ja >= 0 {
        assert(s.take(ja) =~= a.take(ja));
        let i = last_index_of(a.take(ja), '"');
        lemma_last_index_of(a.take(ja), '"');
        if i >= 0 {
            assert(s.take(i) =~= a.take(i));
            assert(s.subrange(i + 1, ja) =~= a.subrange(i + 1, ja));
        }
    }
}

/// A quoted string `x` without `"`, followed by text without `"`, is the last
/// quoted string.
proof fn lemma_quoted_pair(a: Seq<char>, x: Seq<char>, b: Seq<char>)
    requires
        quote_free(x),
        quote_free(b),
    ensures
        quoted_strings(a + quoted(x) + b) == quoted_strings(a).push(x),
{
    let s = a + quoted(x) + b;
    let j: int = (a.len() + x.len() + 1) as int;
    assert(s[j] == '"');
    assert forall|k: int| j < k < s.len() implies s[k] != '"' by {
        assert(s[k] == b[k - j - 1]);
    }
    lemma_last_index_of_unique(s, '"', j);
    let t = s.take(j);
    let i = a.len() as int;
    assert(t[i] == '"');
    assert forall|k: int| i < k < t.len() implies t[k] != '"' by {
        assert(t[k] == x[k - i - 1]);
    }
    lemma_last_index_of_unique(t, '"', i);
    assert(s.take(i) =~= a);
    assert(s.subrange(i + 1, j) =~= x);
}

/// The items of a list written without `"` in them are its quoted strings.
proof fn lemma_quoted_list(a: Seq<char>, items: Seq<Seq<char>>, b: Seq<char>)
    requires
        forall|k: int| 0 <= k < items.len() ==> quote_free(#[trigger] items[k]),
        quote_free(b),
    ensures
        quoted_strings(a + joined_quoted(items) + b) == quoted_strings(a) + items,
    decreases items.len(),
{
    reveal_strlit(", ");
    if items.len() == 0 {
        assert(a + joined_quoted(items) + b =~= a + b);
        lemma_quoted_tail(a, b);
        assert(quoted_strings(a) + items =~= quoted_strings(a));
    } else if items.len() == 1 {
        lemma_escape_plain(items[0]);
        lemma_quoted_pair(a, items[0], b);
        assert(quoted_strings(a) + items =~= quoted_strings(a).push(items[0]));
    } else {
        let init = items.drop_last();
        let l = items.last();
        assert forall|k: int| 0 <= k < init.len() implies quote_free(#[trigger] init[k]) by {
            assert(init[k] == items[k]);
        }
        assert(quote_free(", "@)) by {
            assert(", "@ =~= seq![',', ' ']);
        }
        lemma_quoted_list(a, init, ", "@);
        lemma_escape_plain(l);
        let head = a + joined_quoted(init) + ", "@;
        lemma_quoted_pair(head, l, b);
        assert(a + joined_quoted(items) + b =~= head + quoted(l) + b);
        assert(quoted_strings(a) + items =~= (quoted_strings(a) + init).push(l));
    }
}

/// The literal pieces of the front matter hold no `"` but where written.
proof fn lemma_pieces()
    ensures
        quote_free("title = "@),
        quote_free("\ndescription = "@),
        quote_free("\ncategories = ["@),
        quote_free("]\ntags = ["@),
        quote_free("]\ndraft = "@),
        quote_free("\ndraft = "@),
        quote_free("\ndate = "@),
        quote_free(bool_text(true)),
        quote_free(bool_text(false)),
{
    reveal_strlit("title = ");
    reveal_strlit("\ndescription = ");
    reveal_strlit("\ncategories = [");
    reveal_strlit("]\ntags = [");
    reveal_strlit("]\ndraft = ");
    reveal_strlit("\ndraft = ");
    reveal_strlit("\ndate = ");
    reveal_strlit("true");
    reveal_strlit("false");
    assert("title = "@ =~= seq!['t', 'i', 't', 'l', 'e', ' ', '=', ' ']);
    assert("\ndescription = "@ =~= seq!['\n', 'd', 'e', 's', 'c', 'r', 'i', 'p', 't', 'i', 'o', 'n', ' ', '=', ' ']);
    assert("\ncategories = ["@ =~= seq!['\n', 'c', 'a', 't', 'e', 'g', 'o', 'r', 'i', 'e', 's', ' ', '=', ' ', '[']);
    assert("]\ntags = ["@ =~= seq![']', '\n', 't', 'a', 'g', 's', ' ', '=', ' ', '[']);
    assert("]\ndraft = "@ =~= seq![']', '\n', 'd', 'r', 'a', 'f', 't', ' ', '=', ' ']);
    assert("\ndraft = "@ =~= seq!['\n', 'd', 'r', 'a', 'f', 't', ' ', '=', ' ']);
    assert("\ndate = "@ =~= seq!['\n', 'd', 'a', 't', 'e', ' ', '=', ' ']);
    assert("true"@ =~= seq!['t', 'r', 'u', 'e']);
    assert("false"@ =~= seq!['f', 'a', 'l', 's', 'e']);
}

proof fn lemma_concat_quote_free(a: Seq<char>, b: Seq<char>)
    requires
        quote_free(a),
        quote_free(b),
    ensures
        quote_free(a + b),
{
    assert forall|i: int| 0 <= i < (a + b).len() implies #[trigger] (a + b)[i] != '"' by {
        if i < a.len() {
            assert((a + b)[i] == a[i]);
        } else {
            assert((a + b)[i] == b[i - a.len()]);
        }
    }
}

/// Saving a post writes `{slug}.md` once the slug is valid; reading the file
/// back without TOML gives the post: its front matter's quoted strings are
/// the title, the description, the categories and the tags, in order and
/// every one of them; its last line is `draft = true` exactly for a draft;
/// its body is the post's body without leading newlines. This holds for
/// every post whose texts are single lines and, but for the body, hold no
/// `"`.
pub proof fn law_saved_post_reads_back(post: PostView)
    requires
        single_line(post.meta.title),
        single_line(post.meta.date),
        single_line(post.meta.description),
        forall|i: int| 0 <= i < post.meta.categories.len() ==> single_line(#[trigger] post.meta.categories[i]),
        forall|i: int| 0 <= i < post.meta.tags.len() ==> single_line(#[trigger] post.meta.tags[i]),
        quote_free(post.meta.title),
        quote_free(post.meta.date),
        quote_free(post.meta.description),
        forall|i: int| 0 <= i < post.meta.categories.len() ==> quote_free(#[trigger] post.meta.categories[i]),
        forall|i: int| 0 <= i < post.meta.tags.len() ==> quote_free(#[trigger] post.meta.tags[i]),
    ensures
        save_post_spec(post) is Ok <==> is_valid_name(post.meta.slug),
        save_post_spec(post) matches Ok((name, text)) ==> {
            &&& name == post.meta.slug + ".md"@
            &&& split_front_matter(text) matches Some((fm, body)) && {
                &&& quoted_strings(fm) == seq![post.meta.title, post.meta.description] + post.meta.categories
                    + post.meta.tags
                &&& fm.len() >= 13
                &&& (post.meta.draft <==> fm.skip(fm.len() - 12) == "draft = true"@)
                &&& body == trim_leading_newlines(post.content)
            }
        },
{
    let m = post.meta;
    if is_valid_name(m.slug) {
        law_post_file_splits_back(post);
        lemma_pieces();
        lemma_escape_plain(m.title);
        lemma_escape_plain(m.description);
        reveal_strlit("title = \"");
        reveal_strlit("\"\ndate = ");
        reveal_strlit("\ndescription = \"");
        reveal_strlit("\"\ncategories = ");
        reveal_strlit("\ntags = ");
        reveal_strlit("\ndraft = ");
        reveal_strlit("title = ");
        reveal_strlit("\ndescription = ");
        reveal_strlit("\ncategories = [");
        reveal_strlit("]\ntags = [");
        reveal_strlit("]\ndraft = ");
        reveal_strlit("\ndate = ");
        reveal_strlit("draft = true");
        reveal_strlit("true");
        reveal_strlit("false");
        let fm = crate::render::post_front_matter(m);
        let b = bool_text(m.draft);
        // the pieces, from the front
        let x0 = "title = "@;
        let p2 = "\ndate = "@ + m.date + "\ndescription = "@;
        lemma_concat_quote_free("\ndate = "@, m.date);
        lemma_concat_quote_free("\ndate = "@ + m.date, "\ndescription = "@);
        let x1 = x0 + quoted(m.title) + p2;
        let x2 = x1 + quoted(m.description) + "\ncategories = ["@;
        let x3 = x2 + joined_quoted(m.categories) + "]\ntags = ["@;
        let tail = "]\ndraft = "@ + b;
        lemma_concat_quote_free("]\ndraft = "@, b);
        let x4 = x3 + joined_quoted(m.tags) + tail;
        assert(fm =~= x4);
        lemma_quoted_tail(Seq::empty(), x0);
        assert(Seq::<char>::empty() + x0 =~= x0);
        assert(quoted_strings(Seq::<char>::empty()) =~= Seq::<Seq<char>>::empty());
        lemma_quoted_pair(x0, m.title, p2);
        lemma_quoted_pair(x1, m.description, "\ncategories = ["@);
        lemma_quoted_list(x2, m.categories, "]\ntags = ["@);
        lemma_quoted_list(x3, m.tags, tail);
        assert(quoted_strings(fm) =~= seq![m.title, m.description] + m.categories + m.tags);
        let d = "draft = true"@;
        assert(d =~= seq!['d', 'r', 'a', 'f', 't', ' ', '=', ' ', 't', 'r', 'u', 'e']);
        if m.draft {
            assert(fm.skip(fm.len() - 12) =~= d);
        } else {
            assert(fm.skip(fm.len() - 12)[11] == 'e');
            assert(fm.skip(fm.len() - 12)[10] == 's');
            assert(fm.skip(fm.len() - 12) != d);
        }
    }
}

/// Saving a page writes `{name}.md` once the name is valid; reading the
/// file back without TOML gives the page: its front matter's one quoted
/// string is the title, its last line is `draft = true` exactly for a
/// draft, and its body is the page's body without leading newlines. This
/// holds for every page whose title is a single line without `"`.
pub proof fn law_saved_page_reads_back(page: PageView)
    requires
        single_line(page.title),
        quote_free(page.title),
    ensures
        save_page_spec(page) is Ok <==> is_valid_name(page.name),
        save_page_spec(page) matches Ok((name, text)) ==> {
            &&& name == page.name + ".md"@
            &&& split_front_matter(text) matches Some((fm, body)) && {
                &&& quoted_strings(fm) == seq![page.title]
                &&& fm.len() >= 13
                &&& (page.draft <==> fm.skip(fm.len() - 12) == "draft = true"@)
                &&& body == trim_leading_newlines(page.content)
            }
        },
{
    if is_valid_name(page.name) {
        law_page_file_splits_back(page);
        lemma_pieces();
        lemma_escape_plain(page.title);
        reveal_strlit("title = \"");
        reveal_strlit("\"\ndraft = ");
        reveal_strlit("title = ");
        reveal_strlit("\ndraft = ");
        reveal_strlit("draft = true");
        reveal_strlit("true");
        reveal_strlit("false");
        let fm = crate::render::page_front_matter(page);
        let b = bool_text(page.draft);
        let x0 = "title = "@;
        let tail = "\ndraft = "@ + b;
        lemma_concat_quote_free("\ndraft = "@, b);
        assert(fm =~= x0 + quoted(page.title) + tail);
        lemma_quoted_tail(Seq::empty(), x0);
        assert(Seq::<char>::empty() + x0 =~= x0);
        assert(quoted_strings(Seq::<char>::empty()) =~= Seq::<Seq<char>>::empty());
        lemma_quoted_pair(x0, page.title, tail);
        assert(quoted_strings(fm) =~= seq![page.title]);
        let d = "draft = true"@;
        assert(d =~= seq!['d', 'r', 'a', 'f', 't', ' ', '=', ' ', 't', 'r', 'u', 'e']);
        if page.draft {
            assert(fm.skip(fm.len() - 12) =~= d);
        } else {
            assert(fm.skip(fm.len() - 12)[11] == 'e');
            assert(fm.skip(fm.len() - 12)[10] == 's');
            assert(fm.skip(fm.len() - 12) != d);
        }
    }
}

} // verus!
