//! Names of posts and pages, and the file names they live under.
//!
//! A post or page name must match the regular expression `^[a-zA-Z0-9_\-]+$`:
//! at least one character, each an ASCII letter, digit, `_` or `-`. Such a
//! name cannot leave the directory it is joined to.

use vstd::prelude::*;
use crate::text::chars_of;

verus! {

broadcast use vstd::string::group_string_axioms;

/// `regex::Error`.
#[verifier::external_type_specification]
#[verifier::external_body]
pub struct ExRegexError(regex::Error);

/// What compiling `pattern` with `regex::Regex::new` and then asking
/// `is_match(haystack)` answers; `None` where the pattern does not compile.
pub uninterp spec fn regex_match(pattern: Seq<char>, haystack: Seq<char>) -> Option<bool>;

/// The pattern that names of posts and pages must match.
pub open spec fn name_pattern() -> Seq<char> {
    "^[a-zA-Z0-9_\\-]+$"@
}

/// `c` is an ASCII letter, an ASCII digit, `_` or `-`.
pub open spec fn is_name_char(c: char) -> bool {
    ||| ('a' <= c && c <= 'z')
    ||| ('A' <= c && c <= 'Z')
    ||| ('0' <= c && c <= '9')
    ||| c == '_'
    ||| c == '-'
}

/// `s` is a valid name: not empty, and made of name characters only.
pub open spec fn is_valid_name(s: Seq<char>) -> bool {
    s.len() > 0 && forall|i: int| 0 <= i < s.len() ==> is_name_char(#[trigger] s[i])
}

/// Compiles `pattern` with `regex::Regex::new` and tests `haystack` with
/// `Regex::is_match`. Claimed: the result is `regex_match(pattern, haystack)`,
/// and for the name pattern the regex syntax of the crate's documentation
/// gives it: `^` and `$` anchor at the ends of the haystack, the class holds
/// the ASCII letters, digits, `_` and `-`, and `+` asks for at least one.
#[verifier::external_body]
fn regex_is_match(pattern: &str, haystack: &str) -> (r: Result<bool, regex::Error>)
    ensures
        r is Err <==> regex_match(pattern@, haystack@) is None,
        r matches Ok(b) ==> regex_match(pattern@, haystack@) == Some(b),
        pattern@ == name_pattern() ==> r is Ok && r->Ok_0 == is_valid_name(haystack@),
{
    regex::Regex::new(pattern).map(|re| re.is_match(haystack))
}

/// Whether `name` is a valid post or page name, tested with the regular
/// expression `^[a-zA-Z0-9_\-]+$`.
pub fn is_valid_name_text(name: &str) -> (r: bool)
    ensures
        r == is_valid_name(name@),
{
    match regex_is_match("^[a-zA-Z0-9_\\-]+$", name) {
        Ok(b) => b,
        Err(_) => false,
    }
}

/// The index of the last `c` in `s`, or -1.
pub open spec fn last_index_of(s: Seq<char>, c: char) -> int
    decreases s.len(),
{
    if s.len() == 0 {
        -1
    } else if s.last() == c {
        s.len() - 1
    } else {
        last_index_of(s.drop_last(), c)
    }
}

/// The last component of a `/`-separated path `p`: what follows its last `/`.
pub open spec fn last_component(p: Seq<char>) -> Seq<char> {
    p.skip(last_index_of(p, '/') + 1)
}

/// `name` is `..`.
pub open spec fn is_parent_dir(name: Seq<char>) -> bool {
    name == seq!['.', '.']
}

/// What `Path::file_stem` gives for the file name `name`, with the empty
/// text where it gives nothing (for `..` and for the empty name): the whole
/// name if it holds no `.` or starts with its only `.`; else what comes
/// before its last `.`.
pub open spec fn file_stem(name: Seq<char>) -> Seq<char> {
    let k = last_index_of(name, '.');
    if is_parent_dir(name) {
        Seq::empty()
    } else if k <= 0 {
        name
    } else {
        name.take(k)
    }
}

/// What `Path::extension` gives for the file name `name`: nothing if it is
/// `..`, holds no `.`, or starts with its only `.`; else what follows its
/// last `.`.
pub open spec fn file_extension(name: Seq<char>) -> Option<Seq<char>> {
    let k = last_index_of(name, '.');
    if is_parent_dir(name) || k <= 0 {
        None
    } else {
        Some(name.skip(k + 1))
    }
}

/// `last_index_of` tells where the last `c` is, and that none follows it.
pub proof fn lemma_last_index_of(s: Seq<char>, c: char)
    ensures
        -1 <= last_index_of(s, c) < s.len(),
        last_index_of(s, c) >= 0 ==> s[last_index_of(s, c)] == c,
        forall|j: int| last_index_of(s, c) < j < s.len() ==> s[j] != c,
    decreases s.len(),
{
    if s.len() > 0 && s.last() != c {
        lemma_last_index_of(s.drop_last(), c);
        assert forall|j: int| last_index_of(s, c) < j < s.len() implies s[j] != c by {
            if j < s.len() - 1 {
                assert(s[j] == s.drop_last()[j]);
            }
        }
    }
}

/// The characters after the last `c` are the ones the definition names.
pub proof fn lemma_last_index_of_unique(s: Seq<char>, c: char, k: int)
    requires
        -1 <= k < s.len(),
        k >= 0 ==> s[k] == c,
        forall|j: int| k < j < s.len() ==> s[j] != c,
    ensures
        last_index_of(s, c) == k,
{
    lemma_last_index_of(s, c);
    let l = last_index_of(s, c);
    if l < k {
        assert(s[k] == c);
    } else if k < l {
        assert(s[l] == c);
    }
}

/// Where the last `c` in `cs` is, if there is one.
fn find_last(cs: &Vec<char>, c: char) -> (r: Option<usize>)
    ensures
        match r {
            Some(k) => k == last_index_of(cs@, c),
            None => last_index_of(cs@, c) == -1,
        },
{
    let mut i = cs.len();
    while i > 0
        invariant
            i <= cs.len(),
            forall|j: int| i <= j < cs.len() ==> cs@[j] != c,
        decreases i,
    {
        if cs[i - 1] == c {
            proof {
                lemma_last_index_of_unique(cs@, c, i - 1);
            }
            return Some(i - 1);
        }
        i = i - 1;
    }
    proof {
        lemma_last_index_of_unique(cs@, c, -1);
    }
    None
}

/// Whether the file name `name` has the extension `md`, as
/// `Path::extension` reads it.
pub fn is_post_file(name: &str) -> (r: bool)
    ensures
        r == (file_extension(name@) == Some(seq!['m', 'd'])),
{
    let cs = chars_of(name);
    let n = cs.len();
    let parent = n == 2 && cs[0] == '.' && cs[1] == '.';
    proof {
        if parent {
            assert(cs@ =~= seq!['.', '.']);
        }
    }
    match find_last(&cs, '.') {
        None => false,
        Some(k) => {
            if parent || k == 0 {
                return false;
            }
            proof {
                lemma_last_index_of(cs@, '.');
            }
            let r = n - k == 3 && cs[k + 1] == 'm' && cs[k + 2] == 'd';
            proof {
                let ext = cs@.skip(k + 1);
                if r {
                    assert(ext =~= seq!['m', 'd']);
                } else if ext.len() == 2 {
                    assert(ext[0] == cs@[k + 1]);
                    assert(ext[1] == cs@[k + 2]);
                }
            }
            r
        },
    }
}

/// The stem of the file name `name` (see `file_stem`).
pub fn stem_of(name: &str) -> (r: String)
    ensures
        r@ == file_stem(name@),
{
    let cs = chars_of(name);
    let n = cs.len();
    let parent = n == 2 && cs[0] == '.' && cs[1] == '.';
    proof {
        if parent {
            assert(cs@ =~= seq!['.', '.']);
        }
    }
    match find_last(&cs, '.') {
        None => String::from_str(name),
        Some(k) => {
            if parent {
                String::new()
            } else if k == 0 {
                String::from_str(name)
            } else {
                proof {
                    lemma_last_index_of(cs@, '.');
                }
                crate::text::substring(name, 0, k)
            }
        },
    }
}

/// The last component of the `/`-separated path `path` (see `last_component`).
pub fn last_component_of(path: &str) -> (r: String)
    ensures
        r@ == last_component(path@),
{
    let cs = chars_of(path);
    proof {
        lemma_last_index_of(cs@, '/');
    }
    match find_last(&cs, '/') {
        None => {
            assert(path@.skip(0) =~= path@);
            String::from_str(path)
        },
        Some(k) => {
            assert(k < cs.len());
            crate::text::substring(path, k + 1, cs.len())
        },
    }
}

} // verus!
