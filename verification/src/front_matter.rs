//! Files with TOML front matter: a `+++` line, the TOML text, a closing
//! `+++` line, then the body.

use vstd::prelude::*;
use crate::text::{chars_of, lemma_strip_start, substring, trim, trim_bounds, trim_leading_newlines};

verus! {

broadcast use vstd::string::group_string_axioms;

/// A file split into its front matter and its body.
pub struct ParsedFile {
    pub frontmatter: String,
    pub content: String,
}

/// A newline followed by `+++` starts at index `i` of `s`.
pub open spec fn is_marker_at(s: Seq<char>, i: int) -> bool {
    &&& 0 <= i
    &&& i + 4 <= s.len()
    &&& s[i] == '\n'
    &&& s[i + 1] == '+'
    &&& s[i + 2] == '+'
    &&& s[i + 3] == '+'
}

/// `i` is where the first newline followed by `+++` starts in `s`.
pub open spec fn is_first_marker(s: Seq<char>, i: int) -> bool {
    &&& is_marker_at(s, i)
    &&& forall|j: int| 0 <= j < i ==> !is_marker_at(s, j)
}

/// `s` starts with `+++`.
pub open spec fn opens_front_matter(s: Seq<char>) -> bool {
    s.len() >= 3 && s[0] == '+' && s[1] == '+' && s[2] == '+'
}

/// The front matter and the body of a file `s`: after the opening `+++`,
/// the front matter runs up to the first newline followed by `+++` and is
/// trimmed; the body is what follows that marker, without its leading newlines.
/// `None` when `s` does not open with `+++` or the marker never comes.
pub open spec fn split_front_matter(s: Seq<char>) -> Option<(Seq<char>, Seq<char>)> {
    let rest = s.skip(3);
    if opens_front_matter(s) && exists|i: int| is_first_marker(rest, i) {
        let i = choose|i: int| is_first_marker(rest, i);
        Some((trim(rest.take(i)), trim_leading_newlines(rest.skip(i + 4))))
    } else {
        None
    }
}

/// Two first markers are the same marker.
pub proof fn lemma_first_marker_unique(s: Seq<char>, i: int, k: int)
    requires
        is_first_marker(s, i),
        is_first_marker(s, k),
    ensures
        i == k,
{
    if i < k {
        assert(!is_marker_at(s, i));
    } else if k < i {
        assert(!is_marker_at(s, k));
    }
}

/// Any marker means there is a first one.
pub proof fn lemma_first_marker_exists(s: Seq<char>, i: int)
    requires
        is_marker_at(s, i),
    ensures
        exists|k: int| is_first_marker(s, k),
    decreases i,
{
    if !is_first_marker(s, i) {
        let j = choose|j: int| 0 <= j < i && is_marker_at(s, j);
        lemma_first_marker_exists(s, j);
    }
}

/// The index, counted from `from`, of the first marker in `cs[from..]`.
fn find_marker(cs: &Vec<char>, from: usize) -> (r: Option<usize>)
    requires
        from <= cs.len(),
    ensures
        match r {
            Some(k) => from <= k && is_first_marker(cs@.skip(from as int), k - from),
            None => forall|j: int| !is_marker_at(cs@.skip(from as int), j),
        },
{
    let ghost rest = cs@.skip(from as int);
    let mut i = from;
    while i < cs.len() && cs.len() - i >= 4
        invariant
            from <= i <= cs.len(),
            from <= cs.len(),
            rest == cs@.skip(from as int),
            forall|j: int| 0 <= j < i - from ==> !is_marker_at(rest, j),
        decreases cs.len() - i,
    {
        if cs[i] == '\n' && cs[i + 1] == '+' && cs[i + 2] == '+' && cs[i + 3] == '+' {
            assert(is_marker_at(rest, i - from));
            return Some(i);
        }
        assert(!is_marker_at(rest, i - from));
        i = i + 1;
    }
    None
}

/// Splits a file into front matter and body (see `split_front_matter`).
pub fn parse_md_file(text: &str) -> (r: Option<ParsedFile>)
    ensures
        match (r, split_front_matter(text@)) {
            (Some(p), Some((fm, body))) => p.frontmatter@ == fm && p.content@ == body,
            (None, None) => true,
            _ => false,
        },
{
    let cs = chars_of(text);
    let n = cs.len();
    let ghost s = text@;
    let ghost rest = s.skip(3);
    if n < 3 || cs[0] != '+' || cs[1] != '+' || cs[2] != '+' {
        return None;
    }
    match find_marker(&cs, 3) {
        None => {
            assert(!exists|i: int| is_first_marker(rest, i));
            None
        },
        Some(k) => {
            let (a, b) = trim_bounds(&cs, 3, k);
            let mut c = k + 4;
            while c < n && cs[c] == '\n'
                invariant
                    k + 4 <= c <= n,
                    n == cs.len(),
                    forall|j: int| k + 4 <= j < c ==> #[trigger] cs@[j] == '\n',
                decreases n - c,
            {
                c = c + 1;
            }
            proof {
                let i = k - 3;
                assert(is_first_marker(rest, i));
                let ch = choose|i: int| is_first_marker(rest, i);
                lemma_first_marker_unique(rest, i, ch);
                assert(rest.take(i) =~= cs@.subrange(3, k as int));
                let tail = rest.skip(i + 4);
                assert(tail =~= cs@.subrange(k + 4, n as int));
                let nl = |x: char| x == '\n';
                assert forall|j: int| 0 <= j < c - (k + 4) implies nl(#[trigger] tail[j]) by {
                    assert(tail[j] == cs@[k + 4 + j]);
                }
                if c < n {
                    assert(tail[c - (k + 4)] == cs@[c as int]);
                }
                lemma_strip_start(tail, nl, c - (k + 4));
                assert(tail.skip(c - (k + 4)) =~= cs@.subrange(c as int, n as int));
            }
            let frontmatter = substring(text, a, b);
            let content = substring(text, c, n);
            Some(ParsedFile { frontmatter, content })
        },
    }
}

} // verus!
