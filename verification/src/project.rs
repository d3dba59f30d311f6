//! Where the project lives: the directories that may hold `site/hugo.toml`,
//! in the order they are tried.
//!
//! First the directory named by `PROJECT_ROOT`, then the working directory
//! and up to five of its ancestors, then the directory of the executable and
//! up to five of its ancestors. When the working directory cannot be read the
//! search stops after `PROJECT_ROOT`; when the executable's path cannot be
//! read it stops after the working directory's ancestors.

use vstd::prelude::*;
use crate::names::{last_index_of, lemma_last_index_of};

verus! {

broadcast use vstd::string::group_string_axioms;

/// What `std::path::Path::parent` gives for the path `p`, as text; `None`
/// where `parent` gives `None`.
pub uninterp spec fn path_parent(p: Seq<char>) -> Option<Seq<char>>;

/// The path `/`.
pub open spec fn root_path() -> Seq<char> {
    seq!['/']
}

/// `p` is an absolute path written plainly: `/`, or `/name` repeated, where
/// no name is empty or `.`, and no name holds `/` or `\`.
pub open spec fn plain_absolute(p: Seq<char>) -> bool
    decreases p.len(),
{
    if p == seq!['/'] {
        true
    } else {
        let k = last_index_of(p, '/');
        let name = p.skip(k + 1);
        proof {
            lemma_last_index_of(p, '/');
        }
        &&& k >= 0
        &&& name.len() > 0
        &&& name != seq!['.']
        &&& forall|i: int| 0 <= i < name.len() ==> #[trigger] name[i] != '\\'
        &&& (k == 0 || plain_absolute(p.take(k)))
    }
}

/// A plain absolute path without its final name: what precedes its last
/// `/`, or `/` where that is the first character.
pub open spec fn plain_parent(p: Seq<char>) -> Seq<char> {
    let k = last_index_of(p, '/');
    if k <= 0 {
        seq!['/']
    } else {
        p.take(k)
    }
}

/// `std::path::Path::parent` of `p`, as text (the parent is a part of `p`,
/// so the text is exact). Claimed: the result is `path_parent(p)`; as the
/// documentation of `parent` gives it, there is none for the empty path and
/// for `/`, and a plain absolute path other than `/` loses its final name
/// (`/foo/bar` gives `/foo`, `/foo` gives `/`).
#[verifier::external_body]
fn parent_text(p: &str) -> (r: Option<String>)
    ensures
        r is None <==> path_parent(p@) is None,
        r matches Some(q) ==> path_parent(p@) == Some(q@),
        r is None <== p@.len() == 0 || p@ == root_path(),
        r is Some && r->0@ == plain_parent(p@) <== plain_absolute(p@) && p@ != root_path(),
{
    std::path::Path::new(p).parent().map(|q| q.to_string_lossy().into_owned())
}

/// The directories tried from `dir`: `dir`, its parent, its parent's parent,
/// and so on, `n` at most, ending early at a directory without a parent
/// (where `PathBuf::pop` gives up).
pub open spec fn ancestors(dir: Seq<char>, n: nat) -> Seq<Seq<char>>
    decreases n,
{
    if n == 0 {
        Seq::empty()
    } else {
        seq![dir] + match path_parent(dir) {
            Some(up) => ancestors(up, (n - 1) as nat),
            None => Seq::empty(),
        }
    }
}

/// The text of an optional string.
pub open spec fn opt_text(s: Option<&str>) -> Option<Seq<char>> {
    match s {
        Some(t) => Some(t@),
        None => None,
    }
}

/// How many directories are tried from the working directory, and from the
/// executable's directory.
pub const SEARCH_DEPTH: usize = 6;

/// The candidates for the project root, in the order they are tried, given
/// `PROJECT_ROOT`, the working directory and the executable's path (each
/// `None` where it cannot be read). The executable's directory is its
/// parent, or the path itself where it has none.
pub open spec fn root_candidates_spec(
    project_root: Option<Seq<char>>,
    cwd: Option<Seq<char>>,
    exe: Option<Seq<char>>,
) -> Seq<Seq<char>> {
    let first = match project_root {
        Some(r) => seq![r],
        None => Seq::empty(),
    };
    match cwd {
        None => first,
        Some(c) => {
            let with_cwd = first + ancestors(c, SEARCH_DEPTH as nat);
            match exe {
                None => with_cwd,
                Some(e) => {
                    let exe_dir = match path_parent(e) {
                        Some(d) => d,
                        None => e,
                    };
                    with_cwd + ancestors(exe_dir, SEARCH_DEPTH as nat)
                },
            }
        },
    }
}

/// The directories tried from `dir`, as `ancestors` lists them.
fn ancestors_of(dir: &str, n: usize) -> (r: Vec<String>)
    ensures
        r@.map_values(|s: String| s@) == ancestors(dir@, n as nat),
    decreases n,
{
    if n == 0 {
        let r: Vec<String> = Vec::new();
        assert(r@.map_values(|s: String| s@) =~= Seq::<Seq<char>>::empty());
        return r;
    }
    let mut r = match parent_text(dir) {
        Some(up) => ancestors_of(up.as_str(), n - 1),
        None => {
            let e: Vec<String> = Vec::new();
            assert(e@.map_values(|s: String| s@) =~= Seq::<Seq<char>>::empty());
            e
        },
    };
    let ghost rest = r@.map_values(|s: String| s@);
    r.insert(0, String::from_str(dir));
    assert(r@.map_values(|s: String| s@) =~= seq![dir@] + rest);
    r
}

/// The candidates for the project root, in the order they are tried (see
/// `root_candidates_spec`); the caller takes the first that holds
/// `site/hugo.toml`.
pub fn root_candidates(project_root: Option<&str>, cwd: Option<&str>, exe: Option<&str>) -> (r: Vec<String>)
    ensures
        r@.map_values(|s: String| s@) == root_candidates_spec(opt_text(project_root), opt_text(cwd), opt_text(exe)),
{
    let mut out: Vec<String> = Vec::new();
    match project_root {
        Some(p) => out.push(String::from_str(p)),
        None => {},
    }
    let ghost first = out@.map_values(|s: String| s@);
    assert(first =~= match opt_text(project_root) {
        Some(r) => seq![r],
        None => Seq::<Seq<char>>::empty(),
    });
    let c = match cwd {
        None => return out,
        Some(c) => c,
    };
    let mut up = ancestors_of(c, SEARCH_DEPTH);
    let ghost up_v = up@.map_values(|s: String| s@);
    out.append(&mut up);
    let ghost with_cwd = out@.map_values(|s: String| s@);
    assert(with_cwd =~= first + up_v);
    let e = match exe {
        None => return out,
        Some(e) => e,
    };
    let mut more = match parent_text(e) {
        Some(d) => ancestors_of(d.as_str(), SEARCH_DEPTH),
        None => ancestors_of(e, SEARCH_DEPTH),
    };
    let ghost more_v = more@.map_values(|s: String| s@);
    out.append(&mut more);
    assert(out@.map_values(|s: String| s@) =~= with_cwd + more_v);
    out
}

} // verus!
