//! Admin login: the password check, the session cookie, and how a request
//! is recognised as coming from a logged-in admin.

use vstd::prelude::*;
use crate::session::{is_uuid_text, is_lower_hex, session_live, AppState, SESSION_LIFETIME_NANOS};
use crate::text::{chars_of, is_white, lemma_strip_end, lemma_strip_start, same_text, substring, trim, trim_bounds};

verus! {

broadcast use vstd::string::group_string_axioms;

/// The body of a login request.
#[derive(Debug, Clone)]
pub struct LoginRequest {
    pub password: String,
}

/// The body of the answer to a login request.
#[derive(Debug, Clone)]
pub struct LoginResponse {
    pub success: bool,
    pub message: String,
}

/// The answer to a login request: its HTTP status, the `Set-Cookie` header
/// if any, and its body.
#[derive(Debug, Clone)]
pub struct LoginOutcome {
    pub status: u16,
    pub set_cookie: Option<String>,
    pub response: LoginResponse,
}

/// The index of the first `c` in `s`, or -1.
pub open spec fn first_index_of(s: Seq<char>, c: char) -> int
    decreases s.len(),
{
    if s.len() == 0 {
        -1
    } else if s[0] == c {
        0
    } else {
        let k = first_index_of(s.drop_first(), c);
        if k < 0 {
            -1
        } else {
            k + 1
        }
    }
}

/// The name a session cookie starts with.
pub open spec fn cookie_prefix() -> Seq<char> {
    "session_id="@
}

/// `t` starts with `session_id=`.
pub open spec fn is_session_part(t: Seq<char>) -> bool {
    t.len() >= 11 && t.take(11) == cookie_prefix()
}

/// The session id that a `Cookie` header `s` carries: the parts of `s`
/// between `;` are trimmed in turn, and the first one that starts with
/// `session_id=` gives what follows that prefix.
pub open spec fn session_id_in(s: Seq<char>) -> Option<Seq<char>>
    decreases s.len(),
{
    let k = first_index_of(s, ';');
    proof {
        lemma_first_index_bound(s, ';');
    }
    let part = if k < 0 {
        s
    } else {
        s.take(k)
    };
    if is_session_part(trim(part)) {
        Some(trim(part).skip(11))
    } else if k < 0 {
        None
    } else {
        session_id_in(s.skip(k + 1))
    }
}

/// The session id of a request whose `Cookie` header is `header` (`None`
/// when it has none, or one that is not visible ASCII).
pub open spec fn request_session_id(header: Option<Seq<char>>) -> Option<Seq<char>> {
    match header {
        Some(h) => session_id_in(h),
        None => None,
    }
}

/// A request with `Cookie` header `header` at time `now` comes from an
/// admin: it names a session of `sessions` that is still valid.
pub open spec fn authenticated(sessions: Map<Seq<char>, u64>, header: Option<Seq<char>>, now: u64) -> bool {
    match request_session_id(header) {
        Some(id) => sessions.contains_key(id) && session_live(sessions[id], now),
        None => false,
    }
}

/// `first_index_of` stays inside `s`.
pub proof fn lemma_first_index_bound(s: Seq<char>, c: char)
    ensures
        -1 <= first_index_of(s, c) < s.len(),
    decreases s.len(),
{
    if s.len() > 0 && s[0] != c {
        lemma_first_index_bound(s.drop_first(), c);
    }
}

/// `first_index_of` finds the first `c`.
pub proof fn lemma_first_index_of(s: Seq<char>, c: char, k: int)
    requires
        -1 <= k < s.len(),
        k >= 0 ==> s[k] == c,
        forall|j: int| 0 <= j < s.len() && (k < 0 || j < k) ==> #[trigger] s[j] != c,
    ensures
        first_index_of(s, c) == k,
    decreases s.len(),
{
    if s.len() > 0 && s[0] != c {
        let t = s.drop_first();
        assert forall|j: int| 0 <= j < t.len() && (k - 1 < 0 || j < k - 1) implies #[trigger] t[j] != c by {
            assert(t[j] == s[j + 1]);
        }
        if k >= 0 {
            assert(t[k - 1] == s[k]);
            lemma_first_index_of(t, c, k - 1);
        } else {
            lemma_first_index_of(t, c, -1);
        }
    }
}

/// The session id that the `Cookie` header `header` carries, if any.
pub fn get_session_id(header: Option<&str>) -> (r: Option<String>)
    ensures
        match r {
            Some(id) => request_session_id(match header { Some(h) => Some(h@), None => None }) == Some(id@),
            None => request_session_id(match header { Some(h) => Some(h@), None => None }) is None,
        },
{
    let h = match header {
        Some(h) => h,
        None => return None,
    };
    let cs = chars_of(h);
    let prefix = chars_of("session_id=");
    proof {
        reveal_strlit("session_id=");
    }
    let n = cs.len();
    let mut pos: usize = 0;
    assert(h@.skip(0) =~= h@);
    loop
        invariant
            pos <= n,
            n == cs.len(),
            cs@ == h@,
            header == Some(h),
            prefix@ == cookie_prefix(),
            prefix@.len() == 11,
            session_id_in(h@) == session_id_in(h@.skip(pos as int)),
        decreases n - pos,
    {
        let ghost rest = h@.skip(pos as int);
        let mut k = pos;
        while k < n && cs[k] != ';'
            invariant
                pos <= k <= n,
                n == cs.len(),
                forall|j: int| pos <= j < k ==> #[trigger] cs@[j] != ';',
            decreases n - k,
        {
            k = k + 1;
        }
        proof {
            if k < n {
                assert forall|j: int| 0 <= j < rest.len() && j < k - pos implies #[trigger] rest[j] != ';' by {
                    assert(rest[j] == cs@[pos + j]);
                }
                lemma_first_index_of(rest, ';', k - pos);
                assert(rest.take(k - pos) =~= cs@.subrange(pos as int, k as int));
            } else {
                assert forall|j: int| 0 <= j < rest.len() implies #[trigger] rest[j] != ';' by {
                    assert(rest[j] == cs@[pos + j]);
                }
                lemma_first_index_of(rest, ';', -1);
                assert(rest =~= cs@.subrange(pos as int, k as int));
            }
        }
        let (a, b) = trim_bounds(&cs, pos, k);
        proof {
            let kk = first_index_of(rest, ';');
            let part = if kk < 0 { rest } else { rest.take(kk) };
            assert(part =~= cs@.subrange(pos as int, k as int));
            assert(trim(part) == cs@.subrange(a as int, b as int));
        }
        let mut matches = b - a >= 11;
        let mut i: usize = 0;
        while matches && i < 11
            invariant
                a <= b <= n,
                n == cs.len(),
                prefix@.len() == 11,
                i <= 11,
                prefix@ == cookie_prefix(),
                matches ==> b - a >= 11,
                matches ==> forall|j: int| 0 <= j < i ==> cs@[a + j] == prefix@[j],
                !matches ==> !is_session_part(cs@.subrange(a as int, b as int)),
            decreases 11 - i,
        {
            if cs[a + i] != prefix[i] {
                proof {
                    let t = cs@.subrange(a as int, b as int);
                    assert(t.take(11)[i as int] == cs@[a + i]);
                    assert(t.take(11)[i as int] != cookie_prefix()[i as int]);
                }
                matches = false;
            }
            i = i + 1;
        }
        if matches {
            proof {
                let t = cs@.subrange(a as int, b as int);
                assert(t.take(11) =~= prefix@);
                assert(t.skip(11) =~= cs@.subrange(a + 11, b as int));
                assert(session_id_in(rest) == Some(t.skip(11)));
            }
            return Some(substring(h, a + 11, b));
        }
        if k == n {
            assert(session_id_in(rest) is None);
            return None;
        }
        proof {
            assert(rest.skip(k - pos + 1) =~= h@.skip(k + 1));
            assert(session_id_in(rest) == session_id_in(rest.skip(k - pos + 1)));
        }
        pos = k + 1;
    }
}

/// Whether a request with `Cookie` header `header`, at time `now`, comes
/// from a logged-in admin.
pub fn is_authenticated(state: &AppState, header: Option<&str>, now: u64) -> (r: bool)
    ensures
        r == authenticated(state.sessions(), match header { Some(h) => Some(h@), None => None }, now),
{
    match get_session_id(header) {
        Some(id) => state.is_valid_session(id.as_str(), now),
        None => false,
    }
}

/// The `Set-Cookie` value that opens a session: the id, for the whole site,
/// unreadable to scripts, sent only with same-site requests, for 24 hours.
pub open spec fn login_cookie(id: Seq<char>) -> Seq<char> {
    "session_id="@ + id + "; HttpOnly; Path=/; SameSite=Strict; Max-Age=86400"@
}

/// The `Set-Cookie` value that closes the session.
pub open spec fn logout_cookie() -> Seq<char> {
    "session_id=; HttpOnly; Path=/; Max-Age=0"@
}

/// Answers a login request with password `password` at time `now`: the
/// right password opens a session and sets its cookie (200); a wrong one is
/// refused (401) and changes nothing.
pub fn login(state: &mut AppState, password: &str, now: u64) -> (r: LoginOutcome)
    ensures
        final(state).password() == old(state).password(),
        final(state).places() == old(state).places(),
        password@ == old(state).password() ==> {
            &&& r.status == 200
            &&& r.response.success
            &&& r.response.message@ == "登录成功"@
            &&& r.set_cookie matches Some(c) && exists|id: Seq<char>| {
                &&& is_uuid_text(id)
                &&& #[trigger] login_cookie(id) == c@
                &&& final(state).sessions() == old(state).sessions().insert(id, now)
            }
        },
        password@ != old(state).password() ==> {
            &&& r.status == 401
            &&& !r.response.success
            &&& r.response.message@ == "密码错误"@
            &&& r.set_cookie is None
            &&& final(state).sessions() == old(state).sessions()
        },
{
    if same_text(password, state.admin_password()) {
        let id = state.create_session(now);
        let mut cookie = String::from_str("session_id=");
        cookie.append(id.as_str());
        cookie.append("; HttpOnly; Path=/; SameSite=Strict; Max-Age=86400");
        assert(login_cookie(id@) == cookie@);
        LoginOutcome {
            status: 200,
            set_cookie: Some(cookie),
            response: LoginResponse { success: true, message: String::from_str("登录成功") },
        }
    } else {
        LoginOutcome {
            status: 401,
            set_cookie: None,
            response: LoginResponse { success: false, message: String::from_str("密码错误") },
        }
    }
}

/// Answers a logout request with `Cookie` header `header`: the session it
/// names is closed, and the cookie to clear it is given back.
pub fn logout(state: &mut AppState, header: Option<&str>) -> (r: String)
    ensures
        r@ == logout_cookie(),
        final(state).password() == old(state).password(),
        final(state).places() == old(state).places(),
        final(state).sessions() == match request_session_id(match header { Some(h) => Some(h@), None => None }) {
            Some(id) => old(state).sessions().remove(id),
            None => old(state).sessions(),
        },
{
    match get_session_id(header) {
        Some(id) => state.remove_session(id.as_str()),
        None => {},
    }
    String::from_str("session_id=; HttpOnly; Path=/; Max-Age=0")
}

/// A request that sends back the cookie of a session, `session_id=<id>`,
/// is let in as long as the session is valid: 24 hours from its creation.
pub proof fn law_session_cookie_authenticates(sessions: Map<Seq<char>, u64>, id: Seq<char>, created: u64, now: u64)
    requires
        is_uuid_text(id),
        created <= now,
        now - created < SESSION_LIFETIME_NANOS,
    ensures
        session_id_in(cookie_prefix() + id) == Some(id),
        authenticated(sessions.insert(id, created), Some(cookie_prefix() + id), now),
{
    reveal_strlit("session_id=");
    let x = cookie_prefix() + id;
    assert forall|j: int| 0 <= j < x.len() implies #[trigger] x[j] != ';' by {
        if j >= 11 {
            assert(x[j] == id[j - 11]);
            assert(is_lower_hex(id[j - 11]) || id[j - 11] == '-');
        }
    }
    lemma_first_index_of(x, ';', -1);
    let ws = |c: char| is_white(c);
    assert(x[0] == 's');
    lemma_strip_start(x, ws, 0);
    assert(x.skip(0) =~= x);
    assert(x[x.len() - 1] == id[35]);
    assert(is_lower_hex(id[35]));
    lemma_strip_end(x, ws, x.len() as int);
    assert(x.take(x.len() as int) =~= x);
    assert(trim(x) == x);
    assert(x.take(11) =~= cookie_prefix());
    assert(x.skip(11) =~= id);
}

/// Once a logout with some `Cookie` header has closed the session that the
/// header names, requests with that header are no longer let in.
pub proof fn law_logout_closes_session(sessions: Map<Seq<char>, u64>, header: Seq<char>, now: u64)
    ensures
        !authenticated(
            match session_id_in(header) {
                Some(id) => sessions.remove(id),
                None => sessions,
            },
            Some(header),
            now,
        ),
{
}

/// A session stops letting requests in 24 hours after its creation.
pub proof fn law_session_expires(sessions: Map<Seq<char>, u64>, header: Seq<char>, now: u64)
    requires
        session_id_in(header) matches Some(id) && sessions.contains_key(id) && now >= sessions[id]
            && now - sessions[id] >= SESSION_LIFETIME_NANOS,
    ensures
        !authenticated(sessions, Some(header), now),
{
}

} // verus!
