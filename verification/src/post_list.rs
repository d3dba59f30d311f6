//! The list of posts: every post file that reads as a post, newest date
//! first, posts with equal dates kept in the order they were found.

use vstd::prelude::*;
use crate::content::{post_from_file, post_from_file_spec, PostMeta, PostMetaView};
use crate::names::{file_extension, is_post_file};
use crate::text::{chars_of, lemma_text_less_total, lemma_text_less_trans, text_less, text_less_exec};

verus! {

broadcast use vstd::string::group_string_axioms;

/// The views of a list of post records.
pub open spec fn metas_view(v: Seq<PostMeta>) -> Seq<PostMetaView> {
    v.map_values(|m: PostMeta| m@)
}

/// `out` is `input` sorted by date, newest (greatest) first, the sort being
/// stable: `out[i]` is `input[p[i]]`, `p` is one-to-one, dates do not rise
/// along `out`, and posts with equal dates keep their order.
pub open spec fn is_stable_date_order(input: Seq<PostMetaView>, out: Seq<PostMetaView>, p: Seq<int>) -> bool {
    &&& out.len() == input.len()
    &&& p.len() == out.len()
    &&& forall|i: int| 0 <= i < p.len() ==> 0 <= #[trigger] p[i] < input.len() && out[i] == input[p[i]]
    &&& forall|i: int, j: int| 0 <= i < j < p.len() ==> p[i] != p[j]
    &&& forall|i: int, j: int|
        0 <= i < j < out.len() ==> !text_less(#[trigger] out[i].date, #[trigger] out[j].date)
    &&& forall|i: int, j: int|
        0 <= i < j < out.len() && #[trigger] out[i].date == #[trigger] out[j].date ==> p[i] < p[j]
}

/// `out` is the stable sort of `input` by date, newest first.
pub open spec fn is_stable_date_sort(input: Seq<PostMetaView>, out: Seq<PostMetaView>) -> bool {
    exists|p: Seq<int>| is_stable_date_order(input, out, p)
}

/// The index of the first greatest text among `keys`.
fn first_greatest(keys: &Vec<Vec<char>>) -> (b: usize)
    requires
        keys.len() > 0,
    ensures
        b < keys.len(),
        forall|e: int| 0 <= e < b ==> text_less(keys@[e]@, keys@[b as int]@),
        forall|e: int| 0 <= e < keys.len() ==> !text_less(keys@[b as int]@, #[trigger] keys@[e]@),
{
    let mut b: usize = 0;
    let mut j: usize = 1;
    proof {
        lemma_text_less_total(keys@[0]@, keys@[0]@);
    }
    while j < keys.len()
        invariant
            b < j <= keys.len(),
            forall|e: int| 0 <= e < b ==> text_less(keys@[e]@, keys@[b as int]@),
            forall|e: int| 0 <= e < j ==> !text_less(keys@[b as int]@, #[trigger] keys@[e]@),
        decreases keys.len() - j,
    {
        if text_less_exec(&keys[b], &keys[j]) {
            proof {
                let old_best = keys@[b as int]@;
                let new_best = keys@[j as int]@;
                assert forall|e: int| 0 <= e < j implies text_less(keys@[e]@, new_best) by {
                    let k = keys@[e]@;
                    if e < b {
                        lemma_text_less_trans(k, old_best, new_best);
                    } else {
                        lemma_text_less_total(old_best, k);
                        if k != old_best {
                            lemma_text_less_trans(k, old_best, new_best);
                        }
                    }
                }
                assert forall|e: int| 0 <= e < j + 1 implies !text_less(new_best, #[trigger] keys@[e]@) by {
                    let k = keys@[e]@;
                    lemma_text_less_total(k, new_best);
                }
            }
            b = j;
        } else {
            proof {
                assert(!text_less(keys@[b as int]@, keys@[j as int]@));
            }
        }
        j = j + 1;
    }
    b
}

/// Sorts post records by date, newest first, keeping the order of posts
/// with equal dates (as `sort_by(|a, b| b.date.cmp(&a.date))` does).
pub fn sort_by_date_desc(metas: Vec<PostMeta>) -> (r: Vec<PostMeta>)
    ensures
        is_stable_date_sort(metas_view(metas@), metas_view(r@)),
{
    let ghost input = metas_view(metas@);
    let ghost n = metas@.len();
    let mut rest = metas;
    let mut keys: Vec<Vec<char>> = Vec::new();
    let mut i: usize = 0;
    while i < rest.len()
        invariant
            i <= rest.len(),
            keys.len() == i,
            forall|k: int| 0 <= k < i ==> (#[trigger] keys@[k])@ == rest@[k].date@,
        decreases rest.len() - i,
    {
        keys.push(chars_of(rest[i].date.as_str()));
        i = i + 1;
    }
    let mut out: Vec<PostMeta> = Vec::new();
    let ghost mut orig: Seq<int> = Seq::new(n, |k: int| k);
    let ghost mut placed: Seq<int> = Seq::empty();
    while rest.len() > 0
        invariant
            input == metas_view(metas@),
            n == input.len(),
            rest.len() == keys.len(),
            forall|k: int| 0 <= k < keys.len() ==> (#[trigger] keys@[k])@ == rest@[k].date@,
            orig.len() == rest.len(),
            placed.len() == out.len(),
            out.len() + rest.len() == n,
            forall|k: int| 0 <= k < orig.len() ==> 0 <= #[trigger] orig[k] < n && rest@[k]@ == input[orig[k]],
            forall|a: int, b: int| 0 <= a < b < orig.len() ==> orig[a] < orig[b],
            forall|k: int| 0 <= k < placed.len() ==> 0 <= #[trigger] placed[k] < n && out@[k]@ == input[placed[k]],
            forall|a: int, b: int| 0 <= a < b < placed.len() ==> placed[a] != placed[b],
            forall|a: int, b: int| 0 <= a < placed.len() && 0 <= b < orig.len() ==> placed[a] != orig[b],
            forall|a: int, b: int|
                0 <= a < b < out.len() ==> !text_less(#[trigger] out@[a].date@, #[trigger] out@[b].date@),
            forall|a: int, b: int|
                0 <= a < b < out.len() && #[trigger] out@[a].date@ == #[trigger] out@[b].date@ ==> placed[a] < placed[b],
            forall|a: int, e: int|
                0 <= a < out.len() && 0 <= e < rest.len() ==> !text_less(#[trigger] out@[a].date@, #[trigger] rest@[e].date@),
            forall|a: int, e: int|
                0 <= a < out.len() && 0 <= e < rest.len() && #[trigger] out@[a].date@ == #[trigger] rest@[e].date@
                    ==> placed[a] < orig[e],
        decreases rest.len(),
    {
        let b = first_greatest(&keys);
        let ghost old_rest = rest@;
        let ghost old_out = out@;
        let ghost old_orig = orig;
        let ghost old_placed = placed;
        let ghost old_keys = keys@;
        let x = rest.remove(b);
        let _ = keys.remove(b);
        out.push(x);
        proof {
            orig = old_orig.remove(b as int);
            placed = old_placed.push(old_orig[b as int]);
            let xd = old_rest[b as int].date@;
            assert forall|e: int| 0 <= e < old_rest.len() implies !text_less(xd, #[trigger] old_rest[e].date@) by {
                assert(old_keys[e]@ == old_rest[e].date@);
                assert(!text_less(old_keys[b as int]@, old_keys[e]@));
            }
            assert forall|e: int| 0 <= e < b implies text_less(#[trigger] old_rest[e].date@, xd) by {
                assert(old_keys[e]@ == old_rest[e].date@);
            }
            assert forall|a: int, e: int|
                0 <= a < out.len() && 0 <= e < rest.len() implies !text_less(#[trigger] out@[a].date@, #[trigger] rest@[e].date@) by {
                let oe = if e < b { e } else { e + 1 };
                assert(rest@[e] == old_rest[oe]);
                if a == out.len() - 1 {
                } else {
                    assert(out@[a] == old_out[a]);
                }
            }
            assert forall|a: int, e: int|
                0 <= a < out.len() && 0 <= e < rest.len() && #[trigger] out@[a].date@ == #[trigger] rest@[e].date@
                    implies placed[a] < orig[e] by {
                let oe = if e < b { e } else { e + 1 };
                assert(rest@[e] == old_rest[oe]);
                assert(orig[e] == old_orig[oe]);
                if a == out.len() - 1 {
                    if e < b {
                        lemma_text_less_total(old_rest[oe].date@, xd);
                    }
                } else {
                    assert(out@[a] == old_out[a]);
                }
            }
            assert forall|a: int, c: int|
                0 <= a < c < out.len() implies !text_less(#[trigger] out@[a].date@, #[trigger] out@[c].date@) by {
                if c == out.len() - 1 {
                    assert(out@[a] == old_out[a]);
                    assert(out@[c] == old_rest[b as int]);
                } else {
                    assert(out@[a] == old_out[a]);
                    assert(out@[c] == old_out[c]);
                }
            }
            assert forall|a: int, c: int|
                0 <= a < c < out.len() && #[trigger] out@[a].date@ == #[trigger] out@[c].date@ implies placed[a] < placed[c] by {
                assert(out@[a] == old_out[a]);
                if c == out.len() - 1 {
                    assert(out@[c] == old_rest[b as int]);
                } else {
                    assert(out@[c] == old_out[c]);
                }
            }
            assert forall|k: int| 0 <= k < orig.len() implies 0 <= #[trigger] orig[k] < n && rest@[k]@ == input[orig[k]] by {
                let ok = if k < b { k } else { k + 1 };
                assert(orig[k] == old_orig[ok]);
                assert(rest@[k] == old_rest[ok]);
            }
            assert forall|a: int, c: int| 0 <= a < c < orig.len() implies orig[a] < orig[c] by {
                let oa = if a < b { a } else { a + 1 };
                let oc = if c < b { c } else { c + 1 };
                assert(orig[a] == old_orig[oa]);
                assert(orig[c] == old_orig[oc]);
            }
            assert forall|k: int| 0 <= k < placed.len() implies 0 <= #[trigger] placed[k] < n && out@[k]@ == input[placed[k]] by {
                if k < old_placed.len() {
                    assert(out@[k] == old_out[k]);
                }
            }
            assert forall|a: int, e: int| 0 <= a < placed.len() && 0 <= e < orig.len() implies placed[a] != orig[e] by {
                let oe = if e < b { e } else { e + 1 };
                assert(orig[e] == old_orig[oe]);
            }
            assert forall|k: int| 0 <= k < keys.len() implies (#[trigger] keys@[k])@ == rest@[k].date@ by {
                let ok = if k < b { k } else { k + 1 };
                assert(rest@[k] == old_rest[ok]);
            }
        }
    }
    proof {
        let outv = metas_view(out@);
        assert(is_stable_date_order(input, outv, placed));
    }
    out
}

/// Post `a` of `input` comes before post `b` in the sorted list: it has the
/// later date, or the same date and an earlier place.
pub open spec fn comes_first(input: Seq<PostMetaView>, a: int, b: int) -> bool {
    text_less(input[b].date, input[a].date) || (input[a].date == input[b].date && a < b)
}

proof fn lemma_comes_first_order(input: Seq<PostMetaView>, a: int, b: int)
    ensures
        comes_first(input, a, b) ==> !comes_first(input, b, a),
        a != b ==> comes_first(input, a, b) || comes_first(input, b, a),
{
    lemma_text_less_total(input[a].date, input[b].date);
    lemma_text_less_total(input[a].date, input[a].date);
}

proof fn lemma_order_follows_comes_first(input: Seq<PostMetaView>, out: Seq<PostMetaView>, p: Seq<int>)
    requires
        is_stable_date_order(input, out, p),
    ensures
        forall|i: int, j: int| 0 <= i < j < p.len() ==> comes_first(input, #[trigger] p[i], #[trigger] p[j]),
{
    assert forall|i: int, j: int| 0 <= i < j < p.len() implies comes_first(input, #[trigger] p[i], #[trigger] p[j]) by {
        assert(!text_less(out[i].date, out[j].date));
        lemma_text_less_total(out[i].date, out[j].date);
        if out[i].date == out[j].date {
            assert(p[i] < p[j]);
        }
    }
}

/// `k` is one of the entries of `p`.
pub open spec fn appears_in(p: Seq<int>, k: int) -> bool {
    exists|i: int| 0 <= i < p.len() && p[i] == k
}

proof fn lemma_order_covers_all(input: Seq<PostMetaView>, out: Seq<PostMetaView>, p: Seq<int>)
    requires
        is_stable_date_order(input, out, p),
    ensures
        forall|k: int| 0 <= k < input.len() ==> #[trigger] appears_in(p, k),
{
    broadcast use vstd::set::group_set_axioms, vstd::seq_lib::seq_to_set_is_finite;
    assert(p.no_duplicates()) by {
        assert forall|i: int, j: int| 0 <= i < p.len() && 0 <= j < p.len() && i != j implies p[i] != p[j] by {
            if i < j {
                assert(p[i] != p[j]);
            } else {
                assert(p[j] != p[i]);
            }
        }
    }
    p.unique_seq_to_set();
    let range = vstd::set_lib::set_int_range(0, input.len() as int);
    vstd::set_lib::lemma_int_range(0, input.len() as int);
    assert(p.to_set().subset_of(range));
    vstd::set_lib::lemma_subset_equality(p.to_set(), range);
    assert forall|k: int| 0 <= k < input.len() implies #[trigger] appears_in(p, k) by {
        assert(range.contains(k));
        assert(p.to_set().contains(k));
    }
}

proof fn lemma_orders_agree_below(
    input: Seq<PostMetaView>,
    o1: Seq<PostMetaView>,
    p1: Seq<int>,
    o2: Seq<PostMetaView>,
    p2: Seq<int>,
    k: int,
)
    requires
        is_stable_date_order(input, o1, p1),
        is_stable_date_order(input, o2, p2),
        0 <= k <= p1.len(),
    ensures
        forall|i: int| 0 <= i < k ==> p1[i] == p2[i],
    decreases k,
{
    if k > 0 {
        lemma_orders_agree_below(input, o1, p1, o2, p2, k - 1);
        let i = k - 1;
        let a = p1[i];
        let b = p2[i];
        if a != b {
            lemma_order_follows_comes_first(input, o1, p1);
            lemma_order_follows_comes_first(input, o2, p2);
            lemma_order_covers_all(input, o1, p1);
            lemma_order_covers_all(input, o2, p2);
            lemma_comes_first_order(input, a, b);
            assert(appears_in(p2, a));
            assert(appears_in(p1, b));
            if comes_first(input, a, b) {
                let j = choose|j: int| 0 <= j < p2.len() && #[trigger] p2[j] == a;
                if j < i {
                    assert(p1[j] == p2[j]);
                    assert(p1[j] != p1[i]);
                } else {
                    assert(j > i);
                    assert(comes_first(input, p2[i], p2[j]));
                }
            } else {
                let j = choose|j: int| 0 <= j < p1.len() && #[trigger] p1[j] == b;
                if j < i {
                    assert(p1[j] == p2[j]);
                    assert(p2[j] != p2[i]);
                } else {
                    assert(j > i);
                    assert(comes_first(input, p1[i], p1[j]));
                }
            }
        }
    }
}

/// The contract of `list_posts` and `sort_by_date_desc` leaves no choice:
/// two stable sorts of the same posts by date are the same list.
pub proof fn law_stable_date_sort_is_unique(input: Seq<PostMetaView>, out1: Seq<PostMetaView>, out2: Seq<PostMetaView>)
    requires
        is_stable_date_sort(input, out1),
        is_stable_date_sort(input, out2),
    ensures
        out1 == out2,
{
    let p1 = choose|p: Seq<int>| is_stable_date_order(input, out1, p);
    let p2 = choose|p: Seq<int>| is_stable_date_order(input, out2, p);
    lemma_orders_agree_below(input, out1, p1, out2, p2, p1.len() as int);
    assert forall|i: int| 0 <= i < out1.len() implies out1[i] == out2[i] by {
        assert(out1[i] == input[p1[i]]);
        assert(out2[i] == input[p2[i]]);
    }
    assert(out1 =~= out2);
}

/// The post records of the files among `files` (name, text) whose extension
/// is `md` and that read as posts, in the order of `files`.
pub open spec fn readable_posts(files: Seq<(String, String)>) -> Seq<PostMetaView>
    decreases files.len(),
{
    if files.len() == 0 {
        Seq::empty()
    } else {
        let init = readable_posts(files.drop_last());
        let (name, text) = files.last();
        if file_extension(name@) == Some(seq!['m', 'd']) {
            match post_from_file_spec(name@, text@) {
                Ok(p) => init.push(p.meta),
                Err(_) => init,
            }
        } else {
            init
        }
    }
}

/// The file `f` (name, text) is listed as a post: its extension is `md` and
/// its text reads as a post, draft or not.
pub open spec fn lists_as_post(f: (String, String)) -> bool {
    &&& file_extension(f.0@) == Some(seq!['m', 'd'])
    &&& post_from_file_spec(f.0@, f.1@) is Ok
}

/// The files that are listed as posts.
pub open spec fn post_files() -> spec_fn((String, String)) -> bool {
    |f: (String, String)| lists_as_post(f)
}

/// The front matter that the file `f` reads as.
pub open spec fn listed_meta(f: (String, String)) -> PostMetaView {
    post_from_file_spec(f.0@, f.1@)->Ok_0.meta
}

proof fn lemma_readable_posts(files: Seq<(String, String)>)
    ensures
        readable_posts(files).len() == files.filter(post_files()).len(),
        forall|i: int| 0 <= i < files.len() && lists_as_post(#[trigger] files[i])
            ==> readable_posts(files).contains(listed_meta(files[i])),
        forall|k: int| #![trigger readable_posts(files)[k]] 0 <= k < readable_posts(files).len() ==> exists|i: int|
            0 <= i < files.len() && lists_as_post(#[trigger] files[i]) && readable_posts(files)[k] == listed_meta(files[i]),
    decreases files.len(),
{
    if files.len() > 0 {
        let init = files.drop_last();
        lemma_readable_posts(init);
        let r0 = readable_posts(init);
        let r = readable_posts(files);
        let last = files.last();
        reveal(Seq::filter);
        assert(files.filter(post_files()) == if lists_as_post(last) {
            init.filter(post_files()).push(last)
        } else {
            init.filter(post_files())
        });
        assert forall|i: int| 0 <= i < files.len() && lists_as_post(#[trigger] files[i]) implies r.contains(listed_meta(files[i])) by {
            if i < files.len() - 1 {
                assert(init[i] == files[i]);
                let k = choose|k: int| 0 <= k < r0.len() && r0[k] == listed_meta(init[i]);
                assert(r[k] == r0[k]);
            } else {
                assert(r[r.len() - 1] == listed_meta(last));
            }
        }
        assert forall|k: int| #![trigger r[k]] 0 <= k < r.len() implies exists|i: int|
            0 <= i < files.len() && lists_as_post(#[trigger] files[i]) && r[k] == listed_meta(files[i]) by {
            if k < r0.len() {
                assert(r[k] == r0[k]);
                let i = choose|i: int| 0 <= i < init.len() && lists_as_post(#[trigger] init[i]) && r0[k] == listed_meta(init[i]);
                assert(files[i] == init[i]);
            } else {
                assert(files[files.len() - 1] == last);
            }
        }
    }
}

/// Every file with extension `md` that reads as a post, draft or not, is in
/// the list once: the list holds as many posts as there are such files, the
/// front matter of each such file is in it, and nothing else is.
pub proof fn law_every_readable_post_is_listed(files: Seq<(String, String)>, out: Seq<PostMetaView>)
    requires
        is_stable_date_sort(readable_posts(files), out),
    ensures
        out.len() == files.filter(post_files()).len(),
        forall|i: int| 0 <= i < files.len() && lists_as_post(#[trigger] files[i]) ==> out.contains(listed_meta(files[i])),
        forall|k: int| #![trigger out[k]] 0 <= k < out.len() ==> exists|i: int|
            0 <= i < files.len() && lists_as_post(#[trigger] files[i]) && out[k] == listed_meta(files[i]),
{
    let input = readable_posts(files);
    lemma_readable_posts(files);
    let p = choose|p: Seq<int>| is_stable_date_order(input, out, p);
    lemma_order_covers_all(input, out, p);
    assert forall|i: int| 0 <= i < files.len() && lists_as_post(#[trigger] files[i]) implies out.contains(listed_meta(files[i])) by {
        let k = choose|k: int| 0 <= k < input.len() && input[k] == listed_meta(files[i]);
        assert(appears_in(p, k));
        let j = choose|j: int| 0 <= j < p.len() && p[j] == k;
        assert(out[j] == input[p[j]]);
    }
    assert forall|k: int| #![trigger out[k]] 0 <= k < out.len() implies exists|i: int|
        0 <= i < files.len() && lists_as_post(#[trigger] files[i]) && out[k] == listed_meta(files[i]) by {
        assert(out[k] == input[p[k]]);
        let m = p[k];
        assert(0 <= m < input.len());
        let i = choose|i: int| 0 <= i < files.len() && lists_as_post(#[trigger] files[i]) && input[m] == listed_meta(files[i]);
        assert(lists_as_post(files[i]) && out[k] == listed_meta(files[i]));
    }
}

/// The posts of a directory listing, `files` holding the name and the text
/// of each file: the files with extension `md` that read as posts (the
/// others are skipped), sorted by date, newest first.
pub fn list_posts(files: Vec<(String, String)>) -> (r: Vec<PostMeta>)
    ensures
        is_stable_date_sort(readable_posts(files@), metas_view(r@)),
{
    let mut found: Vec<PostMeta> = Vec::new();
    let mut i: usize = 0;
    while i < files.len()
        invariant
            i <= files.len(),
            metas_view(found@) == readable_posts(files@.take(i as int)),
        decreases files.len() - i,
    {
        let (name, text) = &files[i];
        assert(files@.take(i + 1).drop_last() =~= files@.take(i as int));
        assert(files@.take(i + 1).last() == files@[i as int]);
        if is_post_file(name.as_str()) {
            match post_from_file(name.as_str(), text.as_str()) {
                Ok(post) => {
                    found.push(post.meta);
                },
                Err(_) => {},
            }
        }
        assert(metas_view(found@) =~= readable_posts(files@.take(i + 1)));
        i = i + 1;
    }
    assert(files@.take(files.len() as int) =~= files@);
    sort_by_date_desc(found)
}

} // verus!
