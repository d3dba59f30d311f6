//! The shared state of the server and its admin sessions.
//!
//! A session lives for 24 hours from its creation. Times are nanoseconds
//! on the server's monotonic clock, as the caller reads it.

use vstd::prelude::*;
use crate::text::same_text;
use std::path::PathBuf;

verus! {

broadcast use vstd::string::group_string_axioms;

/// `std::path::PathBuf`, carried through unread.
#[verifier::external_type_specification]
#[verifier::external_body]
pub struct ExPathBuf(PathBuf);

/// How long a session lives: 24 hours, in nanoseconds.
pub const SESSION_LIFETIME_NANOS: u64 = 86_400_000_000_000u64;

/// A session: when it was created.
#[derive(Debug, Clone, Copy)]
pub struct SessionData {
    pub created_at: u64,
}

/// `c` is a lower-case hexadecimal digit.
pub open spec fn is_lower_hex(c: char) -> bool {
    ('0' <= c && c <= '9') || ('a' <= c && c <= 'f')
}

/// `s` is a UUID written as `uuid` writes one: 36 characters, `-` at
/// positions 8, 13, 18 and 23, lower-case hexadecimal digits elsewhere.
pub open spec fn is_uuid_text(s: Seq<char>) -> bool {
    &&& s.len() == 36
    &&& forall|i: int|
        0 <= i < 36 ==> if i == 8 || i == 13 || i == 18 || i == 23 {
            #[trigger] s[i] == '-'
        } else {
            is_lower_hex(s[i])
        }
}

/// A fresh session id: `uuid::Uuid::new_v4().to_string()`.
/// Claimed: the text is a hyphenated lower-case UUID, which is how the
/// crate's `Display` writes one (`format_hyphenated`). Which UUID comes out is
/// random and left unsaid.
#[verifier::external_body]
fn new_session_id() -> (r: String)
    ensures
        is_uuid_text(r@),
{
    uuid::Uuid::new_v4().to_string()
}

/// A session created at `created` is still valid at `now`: less than 24
/// hours have passed (whole seconds, as `Instant::elapsed().as_secs()`
/// counts them; a clock read earlier than the creation counts as no time).
pub open spec fn session_live(created: u64, now: u64) -> bool {
    now < created || now - created < SESSION_LIFETIME_NANOS
}

/// The sessions listed in `entries`, by id.
pub open spec fn session_map(entries: Seq<(String, SessionData)>) -> Map<Seq<char>, u64>
    decreases entries.len(),
{
    if entries.len() == 0 {
        Map::empty()
    } else {
        session_map(entries.drop_last()).insert(entries.last().0@, entries.last().1.created_at)
    }
}

/// No two entries have the same id.
pub open spec fn ids_unique(entries: Seq<(String, SessionData)>) -> bool {
    forall|i: int, j: int| 0 <= i < j < entries.len() ==> entries[i].0@ != entries[j].0@
}

/// With unique ids, the session map holds exactly the listed entries.
pub proof fn lemma_session_map(entries: Seq<(String, SessionData)>)
    requires
        ids_unique(entries),
    ensures
        forall|k: Seq<char>| #[trigger] session_map(entries).contains_key(k) <==> exists|i: int| 0 <= i < entries.len() && entries[i].0@ == k,
        forall|i: int| 0 <= i < entries.len() ==> #[trigger] session_map(entries)[entries[i].0@] == entries[i].1.created_at,
    decreases entries.len(),
{
    if entries.len() > 0 {
        let init = entries.drop_last();
        lemma_session_map(init);
        let m = session_map(entries);
        assert forall|k: Seq<char>| #[trigger] m.contains_key(k) implies exists|i: int| 0 <= i < entries.len() && entries[i].0@ == k by {
            if k != entries.last().0@ {
                assert(session_map(init).contains_key(k));
                let i = choose|i: int| 0 <= i < init.len() && init[i].0@ == k;
                assert(entries[i] == init[i]);
            } else {
                assert(entries[entries.len() - 1].0@ == k);
            }
        }
        assert forall|i: int| 0 <= i < entries.len() implies #[trigger] m[entries[i].0@] == entries[i].1.created_at by {
            if i < entries.len() - 1 {
                assert(entries[i] == init[i]);
            }
        }
        assert forall|k: Seq<char>| (exists|i: int| 0 <= i < entries.len() && entries[i].0@ == k) implies #[trigger] m.contains_key(k) by {
            let i = choose|i: int| 0 <= i < entries.len() && entries[i].0@ == k;
            if i < entries.len() - 1 {
                assert(entries[i] == init[i]);
            }
        }
    }
}

/// The state the server shares between requests.
pub struct AppState {
    admin_password: String,
    sessions: Vec<(String, SessionData)>,
    site_dir: PathBuf,
    admin_dist_dir: PathBuf,
    hugo_bin: String,
}

impl AppState {
    #[verifier::type_invariant]
    spec fn ids_are_unique(self) -> bool {
        ids_unique(self.sessions@)
    }

    /// The live and expired sessions, by id, with their creation times.
    pub closed spec fn sessions(&self) -> Map<Seq<char>, u64> {
        session_map(self.sessions@)
    }

    /// The admin password.
    pub closed spec fn password(&self) -> Seq<char> {
        self.admin_password@
    }

    /// The site directory, the directory of the admin pages, and the Hugo
    /// program to run.
    pub closed spec fn places(&self) -> (PathBuf, PathBuf, Seq<char>) {
        (self.site_dir, self.admin_dist_dir, self.hugo_bin@)
    }

    /// A state with the given settings and no session.
    pub fn new(admin_password: String, site_dir: PathBuf, admin_dist_dir: PathBuf, hugo_bin: String) -> (r: Self)
        ensures
            r.sessions() == Map::<Seq<char>, u64>::empty(),
            r.password() == admin_password@,
            r.places() == (site_dir, admin_dist_dir, hugo_bin@),
    {
        let r = AppState { admin_password, sessions: Vec::new(), site_dir, admin_dist_dir, hugo_bin };
        assert(r.sessions() =~= Map::<Seq<char>, u64>::empty());
        r
    }

    /// The admin password.
    pub fn admin_password(&self) -> (r: &str)
        ensures
            r@ == self.password(),
    {
        self.admin_password.as_str()
    }

    /// The site directory.
    pub fn site_dir(&self) -> (r: &PathBuf)
        ensures
            *r == self.places().0,
    {
        &self.site_dir
    }

    /// The directory of the admin pages.
    pub fn admin_dist_dir(&self) -> (r: &PathBuf)
        ensures
            *r == self.places().1,
    {
        &self.admin_dist_dir
    }

    /// The Hugo program to run.
    pub fn hugo_bin(&self) -> (r: &str)
        ensures
            r@ == self.places().2,
    {
        self.hugo_bin.as_str()
    }

    /// Where the session `id` is listed.
    fn find_session(&self, id: &str) -> (r: Option<usize>)
        ensures
            match r {
                Some(i) => i < self.sessions@.len() && self.sessions@[i as int].0@ == id@,
                None => forall|i: int| 0 <= i < self.sessions@.len() ==> #[trigger] self.sessions@[i].0@ != id@,
            },
    {
        let mut i: usize = 0;
        while i < self.sessions.len()
            invariant
                i <= self.sessions.len(),
                forall|j: int| 0 <= j < i ==> #[trigger] self.sessions@[j].0@ != id@,
            decreases self.sessions.len() - i,
        {
            if same_text(self.sessions[i].0.as_str(), id) {
                return Some(i);
            }
            i = i + 1;
        }
        None
    }

    /// Whether `id` names a session still valid at `now`.
    pub fn is_valid_session(&self, id: &str, now: u64) -> (r: bool)
        ensures
            r == (self.sessions().contains_key(id@) && session_live(self.sessions()[id@], now)),
    {
        proof {
            use_type_invariant(self);
            lemma_session_map(self.sessions@);
        }
        match self.find_session(id) {
            Some(i) => {
                let created = self.sessions[i].1.created_at;
                now < created || now - created < SESSION_LIFETIME_NANOS
            },
            None => false,
        }
    }

    /// Opens a session created at `now` under a fresh id, and gives the id.
    pub fn create_session(&mut self, now: u64) -> (r: String)
        ensures
            is_uuid_text(r@),
            final(self).sessions() == old(self).sessions().insert(r@, now),
            final(self).password() == old(self).password(),
            final(self).places() == old(self).places(),
    {
        let id = new_session_id();
        proof {
            use_type_invariant(&*self);
            lemma_session_map(self.sessions@);
        }
        let found = self.find_session(id.as_str());
        let mut entries: Vec<(String, SessionData)> = Vec::new();
        std::mem::swap(&mut entries, &mut self.sessions);
        let ghost before = entries@;
        let item = (id.clone(), SessionData { created_at: now });
        match found {
            Some(i) => {
                entries.set(i, item);
                proof {
                    assert(entries@ == before.update(i as int, item));
                    assert forall|a: int, b: int| 0 <= a < b < entries@.len() implies entries@[a].0@ != entries@[b].0@ by {
                        if a != i && b != i {
                            assert(entries@[a] == before[a]);
                            assert(entries@[b] == before[b]);
                        } else if a == i {
                            assert(entries@[b] == before[b]);
                        } else {
                            assert(entries@[a] == before[a]);
                        }
                    }
                    lemma_session_map(entries@);
                    let m = session_map(entries@);
                    let want = session_map(before).insert(id@, now);
                    assert forall|k: Seq<char>| m.contains_key(k) <==> want.contains_key(k) by {
                        if m.contains_key(k) {
                            let j = choose|j: int| 0 <= j < entries@.len() && entries@[j].0@ == k;
                            if j != i {
                                assert(entries@[j] == before[j]);
                                assert(session_map(before).contains_key(k));
                            }
                        }
                        if want.contains_key(k) {
                            if k != id@ {
                                assert(session_map(before).contains_key(k));
                                let j = choose|j: int| 0 <= j < before.len() && before[j].0@ == k;
                                assert(entries@[j] == before[j]);
                                assert(m.contains_key(k));
                            } else {
                                assert(entries@[i as int].0@ == k);
                                assert(m.contains_key(k));
                            }
                        }
                    }
                    assert forall|k: Seq<char>| #[trigger] m.contains_key(k) implies m[k] == want[k] by {
                        let j = choose|j: int| 0 <= j < entries@.len() && entries@[j].0@ == k;
                        if j != i {
                            assert(entries@[j] == before[j]);
                        }
                    }
                    assert(m =~= want);
                }
            },
            None => {
                entries.push(item);
                proof {
                    assert(entries@.drop_last() =~= before);
                }
            },
        }
        self.sessions = entries;
        id
    }

    /// Closes the session `id`, if there is one.
    pub fn remove_session(&mut self, id: &str)
        ensures
            final(self).sessions() == old(self).sessions().remove(id@),
            final(self).password() == old(self).password(),
            final(self).places() == old(self).places(),
    {
        proof {
            use_type_invariant(&*self);
            lemma_session_map(self.sessions@);
        }
        let found = self.find_session(id);
        let mut entries: Vec<(String, SessionData)> = Vec::new();
        std::mem::swap(&mut entries, &mut self.sessions);
        let ghost before = entries@;
        match found {
            Some(i) => {
                let _ = entries.remove(i);
                proof {
                    assert(entries@ == before.remove(i as int));
                    assert forall|a: int, b: int| 0 <= a < b < entries@.len() implies entries@[a].0@ != entries@[b].0@ by {
                        let oa = if a < i { a } else { a + 1 };
                        let ob = if b < i { b } else { b + 1 };
                        assert(entries@[a] == before[oa]);
                        assert(entries@[b] == before[ob]);
                    }
                    lemma_session_map(entries@);
                    let m = session_map(entries@);
                    let want = session_map(before).remove(id@);
                    assert forall|k: Seq<char>| m.contains_key(k) <==> want.contains_key(k) by {
                        if m.contains_key(k) {
                            let j = choose|j: int| 0 <= j < entries@.len() && entries@[j].0@ == k;
                            let oj = if j < i { j } else { j + 1 };
                            assert(entries@[j] == before[oj]);
                        }
                        if want.contains_key(k) {
                            let j = choose|j: int| 0 <= j < before.len() && before[j].0@ == k;
                            assert(j != i);
                            let nj = if j < i { j } else { j - 1 };
                            assert(entries@[nj] == before[j]);
                        }
                    }
                    assert forall|k: Seq<char>| #[trigger] m.contains_key(k) implies m[k] == want[k] by {
                        let j = choose|j: int| 0 <= j < entries@.len() && entries@[j].0@ == k;
                        let oj = if j < i { j } else { j + 1 };
                        assert(entries@[j] == before[oj]);
                    }
                    assert(m =~= want);
                }
            },
            None => {
                proof {
                    assert(session_map(before).remove(id@) =~= session_map(before));
                }
            },
        }
        self.sessions = entries;
    }
}

} // verus!
