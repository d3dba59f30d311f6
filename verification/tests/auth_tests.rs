use ncblog::auth::{get_session_id, is_authenticated, login, logout};
use ncblog::session::{AppState, SESSION_LIFETIME_NANOS};
use std::path::PathBuf;

fn state() -> AppState {
    AppState::new("admin123".to_string(), PathBuf::from("site"), PathBuf::from("dist"), "hugo".to_string())
}

fn session_of(cookie: &str) -> String {
    let value = cookie.split(';').next().unwrap();
    value.strip_prefix("session_id=").unwrap().to_string()
}

#[test]
fn new_state_holds_settings() {
    let s = state();
    assert_eq!(s.admin_password(), "admin123");
    assert_eq!(s.site_dir(), &PathBuf::from("site"));
    assert_eq!(s.admin_dist_dir(), &PathBuf::from("dist"));
    assert_eq!(s.hugo_bin(), "hugo");
    assert!(!s.is_valid_session("anything", 0));
}

#[test]
fn wrong_password_is_refused() {
    let mut s = state();
    let out = login(&mut s, "nope", 5);
    assert_eq!(out.status, 401);
    assert!(out.set_cookie.is_none());
    assert!(!out.response.success);
    assert_eq!(out.response.message, "密码错误");
}

#[test]
fn right_password_opens_a_session() {
    let mut s = state();
    let out = login(&mut s, "admin123", 1_000);
    assert_eq!(out.status, 200);
    assert!(out.response.success);
    assert_eq!(out.response.message, "登录成功");
    let cookie = out.set_cookie.unwrap();
    assert!(cookie.ends_with("; HttpOnly; Path=/; SameSite=Strict; Max-Age=86400"));
    let id = session_of(&cookie);
    assert_eq!(id.len(), 36);
    assert!(s.is_valid_session(&id, 1_000));
    let header = format!("session_id={}", id);
    assert!(is_authenticated(&s, Some(&header), 2_000));
    assert!(is_authenticated(&s, Some(&format!("theme=dark; {} ; x=1", header)), 2_000));
    assert!(!is_authenticated(&s, None, 2_000));
    assert!(!is_authenticated(&s, Some("session_id=other"), 2_000));
}

#[test]
fn sessions_expire_after_a_day() {
    let mut s = state();
    let id = s.create_session(500);
    assert!(s.is_valid_session(&id, 500 + SESSION_LIFETIME_NANOS - 1));
    assert!(!s.is_valid_session(&id, 500 + SESSION_LIFETIME_NANOS));
    assert!(s.is_valid_session(&id, 0));
}

#[test]
fn two_sessions_are_distinct() {
    let mut s = state();
    let a = s.create_session(1);
    let b = s.create_session(2);
    assert_ne!(a, b);
    s.remove_session(&a);
    assert!(!s.is_valid_session(&a, 3));
    assert!(s.is_valid_session(&b, 3));
    s.remove_session("not-there");
    assert!(s.is_valid_session(&b, 3));
}

#[test]
fn logout_closes_the_session() {
    let mut s = state();
    let cookie = login(&mut s, "admin123", 10).set_cookie.unwrap();
    let header = format!("session_id={}", session_of(&cookie));
    assert!(is_authenticated(&s, Some(&header), 11));
    let clear = logout(&mut s, Some(&header));
    assert_eq!(clear, "session_id=; HttpOnly; Path=/; Max-Age=0");
    assert!(!is_authenticated(&s, Some(&header), 12));
    assert_eq!(logout(&mut s, None), "session_id=; HttpOnly; Path=/; Max-Age=0");
}

#[test]
fn reads_session_cookie() {
    assert_eq!(get_session_id(Some("session_id=abc")), Some("abc".to_string()));
    assert_eq!(get_session_id(Some("a=1; session_id=abc ; b=2")), Some("abc".to_string()));
    assert_eq!(get_session_id(Some("a=1;session_id=x;session_id=y")), Some("x".to_string()));
    assert_eq!(get_session_id(Some("session_id=")), Some(String::new()));
    assert_eq!(get_session_id(Some("xsession_id=abc")), None);
    assert_eq!(get_session_id(Some("a=1; b=2")), None);
    assert_eq!(get_session_id(Some("")), None);
    assert_eq!(get_session_id(None), None);
    assert_eq!(get_session_id(Some("\tsession_id=t\t;")), Some("t".to_string()));
}
