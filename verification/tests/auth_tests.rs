use dsh_gate::auth::{
    client_ip, gate, gate_at, login_html, login_page, login_page_at, login_reply, login_submit, login_submit_at,
    logout, logout_at, session_cookie, AuthState, GateDecision, LoginForm, LoginVerdict, BAD_CREDENTIALS_MESSAGE,
    CLEAR_SESSION_COOKIE, FORM_EXPIRED_MESSAGE, LOCKED_MESSAGE,
};

fn form(user: &str, pass: &str, csrf: &str) -> LoginForm {
    LoginForm { username: user.to_string(), password: pass.to_string(), csrf: csrf.to_string() }
}

fn csrf_of(page: &str) -> String {
    let marker = "name=\"csrf\" value=\"";
    let start = page.find(marker).unwrap() + marker.len();
    let end = start + page[start..].find('"').unwrap();
    page[start..end].to_string()
}

fn cookie_pair(set_cookie: &str) -> String {
    set_cookie.split(';').next().unwrap().to_string()
}

#[test]
fn argon2_round_trip() {
    let a = AuthState::new("hezz".to_string(), "s3cret".to_string()).expect("argon2 hashing");
    assert!(a.password_hash.starts_with("$argon2id$"));
    assert!(a.password_matches("s3cret"));
    assert!(!a.password_matches("S3cret"));
    assert!(!a.password_matches(""));
}

#[test]
fn unparsable_hash_verifies_nothing() {
    let a = AuthState::from_hash("u".to_string(), "not a phc string".to_string());
    assert!(!a.password_matches("anything"));
}

#[test]
fn login_html_layout() {
    let page = login_html("tok", None, "bob");
    assert!(page.starts_with("<!doctype html>\n<html lang=\"zh-CN\">"));
    assert!(page.contains("<input type=\"hidden\" name=\"csrf\" value=\"tok\">"));
    assert!(page.contains("name=\"username\" value=\"bob\" autocomplete"));
    assert!(page.contains("<form method=\"post\" action=\"/login\">"));
    assert!(page.contains("* { box-sizing: border-box; }"));
    assert!(!page.contains("class=\"error\">"));
    assert!(page.ends_with("</main></body></html>"));
    let with_error = login_html("", Some("oops"), "");
    assert!(with_error.contains("<p class=\"sub\">此界面受密码保护，请输入用户名和密码。</p>\n  <p class=\"error\">oops</p>\n  <form"));
}

#[test]
fn session_cookie_text() {
    assert_eq!(session_cookie("abc"), "dsh_rs_session=abc; Path=/; HttpOnly; SameSite=Strict; Max-Age=43200");
}

#[test]
fn client_ip_from_header() {
    assert_eq!(client_ip(Some("203.0.113.9"), "10.0.0.2"), "203.0.113.9");
    assert_eq!(client_ip(None, "10.0.0.2"), "10.0.0.2");
}

#[test]
fn login_reply_shapes() {
    let r = login_reply(&LoginVerdict::Accepted, "u", "abc");
    assert_eq!(r.status, 302);
    assert_eq!(r.location.as_deref(), Some("/"));
    assert_eq!(r.set_cookie.as_deref(), Some("dsh_rs_session=abc; Path=/; HttpOnly; SameSite=Strict; Max-Age=43200"));
    assert!(r.html.is_none());
    let r = login_reply(&LoginVerdict::Locked, "u", "");
    assert_eq!(r.status, 200);
    assert_eq!(r.html, Some(login_html("", Some(LOCKED_MESSAGE), "u")));
    let r = login_reply(&LoginVerdict::FormExpired, "u", "");
    assert_eq!(r.html, Some(login_html("", Some(FORM_EXPIRED_MESSAGE), "u")));
    let r = login_reply(&LoginVerdict::Rejected { lockout_secs: None }, "u", "");
    assert_eq!(r.html, Some(login_html("", Some(BAD_CREDENTIALS_MESSAGE), "u")));
}

#[test]
fn full_login_gate_logout() {
    let mut a = AuthState::new("hezz".to_string(), "pw".to_string()).unwrap();
    let page = login_page(&mut a);
    let token = csrf_of(&page);
    assert_eq!(token.len(), 32);
    // No session yet: guarded paths redirect, auth paths pass.
    assert_eq!(gate(&mut a, "/", None), GateDecision::RedirectToLogin);
    assert_eq!(gate(&mut a, "/login", None), GateDecision::Forward);
    assert_eq!(gate(&mut a, "/logout", Some("junk")), GateDecision::Forward);
    let r = login_submit(&mut a, "1.1.1.1", &form("hezz", "pw", &token)).reply;
    assert_eq!(r.status, 302);
    assert_eq!(r.location.as_deref(), Some("/"));
    let set_cookie = r.set_cookie.unwrap();
    let pair = cookie_pair(&set_cookie);
    assert!(pair.starts_with("dsh_rs_session="));
    assert_eq!(pair.len(), "dsh_rs_session=".len() + 48);
    let cookie = format!("theme=dark; {}", pair);
    assert_eq!(gate(&mut a, "/api/x", Some(&cookie)), GateDecision::Forward);
    let sid = &pair["dsh_rs_session=".len()..];
    assert_eq!(a.session_id_from_cookie(Some(&cookie)).as_deref(), Some(sid));
    let out = logout(&mut a, Some(&cookie));
    assert_eq!(out.status, 302);
    assert_eq!(out.location.as_deref(), Some("/login"));
    assert_eq!(out.set_cookie.as_deref(), Some(CLEAR_SESSION_COOKIE));
    assert_eq!(gate(&mut a, "/api/x", Some(&cookie)), GateDecision::RedirectToLogin);
}

#[test]
fn token_is_single_use() {
    let mut a = AuthState::new("u".to_string(), "p".to_string()).unwrap();
    let token = csrf_of(&login_page(&mut a));
    let r = login_submit(&mut a, "ip", &form("u", "wrong", &token)).reply;
    assert_eq!(r.html, Some(login_html("", Some(BAD_CREDENTIALS_MESSAGE), "u")));
    assert!(r.set_cookie.is_none());
    let r = login_submit(&mut a, "ip", &form("u", "p", &token)).reply;
    assert_eq!(r.status, 200);
    assert_eq!(r.html, Some(login_html("", Some(FORM_EXPIRED_MESSAGE), "u")));
}

#[test]
fn lockout_after_five_failures() {
    let mut a = AuthState::new("u".to_string(), "p".to_string()).unwrap();
    for i in 0..5 {
        let token = csrf_of(&login_page(&mut a));
        let out = login_submit(&mut a, "9.9.9.9", &form("u", "nope", &token));
        let expected = if i == 4 { Some(300) } else { None };
        assert_eq!(out.verdict, LoginVerdict::Rejected { lockout_secs: expected });
        assert_eq!(out.reply.html, Some(login_html("", Some(BAD_CREDENTIALS_MESSAGE), "u")));
        assert!(out.reply.set_cookie.is_none());
    }
    let token = csrf_of(&login_page(&mut a));
    let r = login_submit(&mut a, "9.9.9.9", &form("u", "p", &token)).reply;
    assert_eq!(r.html, Some(login_html("", Some(LOCKED_MESSAGE), "u")));
    // The token was not spent by the refused attempt; another IP can use it.
    let r = login_submit(&mut a, "8.8.8.8", &form("u", "p", &token)).reply;
    assert_eq!(r.status, 302);
}

#[test]
fn wrong_username_rejected() {
    let mut a = AuthState::new("u".to_string(), "p".to_string()).unwrap();
    let token = csrf_of(&login_page(&mut a));
    let r = login_submit(&mut a, "ip", &form("other", "p", &token)).reply;
    assert_eq!(r.html, Some(login_html("", Some(BAD_CREDENTIALS_MESSAGE), "other")));
}

#[test]
fn authenticate_verdicts() {
    let mut a = AuthState::from_hash("u".to_string(), "h".to_string());
    a.csrf.register_at("t1".to_string(), 600, 0);
    assert_eq!(a.authenticate_at("ip", &form("u", "x", "t1"), 10, true), LoginVerdict::Accepted);
    assert_eq!(a.authenticate_at("ip", &form("u", "x", "t1"), 10, true), LoginVerdict::FormExpired);
    a.csrf.register_at("t2".to_string(), 600, 0);
    assert_eq!(a.authenticate_at("ip", &form("u", "x", "t2"), 10, false), LoginVerdict::Rejected { lockout_secs: None });
    a.csrf.register_at("t3".to_string(), 600, 0);
    assert_eq!(a.authenticate_at("ip", &form("v", "x", "t3"), 10, true), LoginVerdict::Rejected { lockout_secs: None });
    for i in 0..2 {
        let t = format!("k{}", i);
        a.csrf.register_at(t.clone(), 600, 0);
        assert_eq!(a.authenticate_at("ip", &form("u", "x", &t), 10, false), LoginVerdict::Rejected { lockout_secs: None });
    }
    a.csrf.register_at("k9".to_string(), 600, 0);
    assert_eq!(a.authenticate_at("ip", &form("u", "x", "k9"), 10, false), LoginVerdict::Rejected { lockout_secs: Some(300) });
    a.csrf.register_at("t4".to_string(), 600, 0);
    assert_eq!(a.authenticate_at("ip", &form("u", "x", "t4"), 309, true), LoginVerdict::Locked);
    assert_eq!(a.authenticate_at("ip", &form("u", "x", "t4"), 310, true), LoginVerdict::Accepted);
}

#[test]
fn login_submit_at_opens_given_session() {
    let mut a = AuthState::new("u".to_string(), "p".to_string()).unwrap();
    let page = login_page_at(&mut a, "tok".to_string(), 1000);
    assert_eq!(page, login_html("tok", None, ""));
    let r = login_submit_at(&mut a, "ip", &form("u", "p", "tok"), 1500, "sid".to_string()).reply;
    assert_eq!(r.set_cookie.as_deref(), Some("dsh_rs_session=sid; Path=/; HttpOnly; SameSite=Strict; Max-Age=43200"));
    assert_eq!(gate_at(&mut a, "/x", Some("dsh_rs_session=sid"), 1500 + 43199), GateDecision::Forward);
    assert_eq!(gate_at(&mut a, "/x", Some("dsh_rs_session=sid"), 1500 + 43200), GateDecision::RedirectToLogin);
}

#[test]
fn csrf_expires_after_ten_minutes() {
    let mut a = AuthState::new("u".to_string(), "p".to_string()).unwrap();
    login_page_at(&mut a, "tok".to_string(), 1000);
    let r = login_submit_at(&mut a, "ip", &form("u", "p", "tok"), 1600, "sid".to_string()).reply;
    assert_eq!(r.html, Some(login_html("", Some(FORM_EXPIRED_MESSAGE), "u")));
}

#[test]
fn logout_without_session() {
    let mut a = AuthState::from_hash("u".to_string(), "h".to_string());
    let r = logout_at(&mut a, None, 0);
    assert_eq!(r.status, 302);
    assert_eq!(r.location.as_deref(), Some("/login"));
    assert_eq!(r.set_cookie.as_deref(), Some("dsh_rs_session=; Path=/; HttpOnly; SameSite=Strict; Max-Age=0"));
}

#[test]
fn gate_picks_first_valid_session() {
    let mut a = AuthState::from_hash("u".to_string(), "h".to_string());
    a.sessions.insert_at("old".to_string(), "u".to_string(), 10, 0);
    a.sessions.insert_at("new".to_string(), "u".to_string(), 1000, 0);
    let got = a.session_id_from_cookie_at(Some("dsh_rs_session=old; dsh_rs_session=new"), 50);
    assert_eq!(got.as_deref(), Some("new"));
    // The expired one met on the way was dropped.
    assert!(!a.sessions.valid_at("old", 0));
    assert_eq!(a.session_id_from_cookie_at(None, 50), None);
}

#[test]
fn peers_without_header_have_own_lockouts() {
    let mut a = AuthState::new("u".to_string(), "p".to_string()).unwrap();
    let ip_a = client_ip(None, "192.0.2.1");
    let ip_b = client_ip(None, "192.0.2.2");
    for _ in 0..5 {
        let token = csrf_of(&login_page(&mut a));
        login_submit(&mut a, &ip_a, &form("u", "bad", &token));
    }
    let token = csrf_of(&login_page(&mut a));
    assert_eq!(login_submit(&mut a, &ip_a, &form("u", "p", &token)).verdict, LoginVerdict::Locked);
    let out = login_submit(&mut a, &ip_b, &form("u", "p", &token));
    assert_eq!(out.verdict, LoginVerdict::Accepted);
    assert_eq!(out.reply.status, 302);
}
