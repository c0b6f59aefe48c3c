//! The login flow: the login page, credential checks with CSRF and per-IP
//! rate limiting, session cookies, logout, and the session guard.
use vstd::prelude::*;

use crate::clock::{expiry_after, is_clock_reading, now};
use crate::password::{argon2_phc, argon2_verifies, generate_salt, hash_password, verify_password, MAX_PASSWORD_CHARS};
use crate::state::{
    csrf_take, failure_step, is_locked, reset_step, session_check, CsrfStore, RateLimiter, SessionMap,
    SessionStore,
};
use crate::text::{cookie_values, cookie_values_of, same_text};
use crate::token::{is_hex_token, random_hex};

verus! {

/// Name of the session cookie.
pub const SESSION_COOKIE: &'static str = "dsh_rs_session";

/// Lifetime of a session, in seconds (12 hours).
pub const SESSION_TTL_SECS: u64 = 43200;

/// Lifetime of a login-form CSRF token, in seconds.
pub const CSRF_TTL_SECS: u64 = 600;

/// Path of the login page.
pub const LOGIN_PATH: &'static str = "/login";

/// Path of the logout endpoint.
pub const LOGOUT_PATH: &'static str = "/logout";

/// Failures from one IP that trigger a lockout.
pub const MAX_FAILURES: u32 = 5;

/// Length of a lockout, in seconds.
pub const LOCK_SECS: u64 = 300;

/// Attributes of the session cookie as it is set after a login.
pub const SESSION_COOKIE_ATTRS: &'static str = "; Path=/; HttpOnly; SameSite=Strict; Max-Age=43200";

/// The cookie that clears the session at logout.
pub const CLEAR_SESSION_COOKIE: &'static str = "dsh_rs_session=; Path=/; HttpOnly; SameSite=Strict; Max-Age=0";

/// Shown when the client's IP is locked out.
pub const LOCKED_MESSAGE: &'static str = "尝试次数过多，请稍后再试";

/// Shown when the form's CSRF token is missing, used or expired.
pub const FORM_EXPIRED_MESSAGE: &'static str = "表单已过期，请重试";

/// Shown when the username or password is wrong.
pub const BAD_CREDENTIALS_MESSAGE: &'static str = "用户名或密码错误";

/// The login page up to the error message.
pub const PAGE_HEAD: &'static str = r#"<!doctype html>
<html lang="zh-CN">
<head><meta charset="utf-8"><meta name="viewport" content="width=device-width, initial-scale=1">
<title>DeepSeek Harness · 访问验证</title>
<style>
  * { box-sizing: border-box; }
  body { margin: 0; min-height: 100vh; display: flex; align-items: center; justify-content: center;
    font: 14px/1.6 -apple-system, BlinkMacSystemFont, "Segoe UI", "PingFang SC", "Microsoft YaHei", sans-serif;
    background: #f5f6f8; color: #1f2329; }
  .card { width: min(360px, 92vw); padding: 32px 28px; background: #fff; border-radius: 12px;
    box-shadow: 0 8px 32px rgb(0 0 0 / 0.08); }
  h1 { margin: 0 0 4px; font-size: 20px; }
  .sub { margin: 0 0 20px; color: #646a73; }
  label { display: block; margin-bottom: 6px; font-weight: 600; }
  input { width: 100%; padding: 9px 12px; margin-bottom: 14px; border: 1px solid #d0d3d9;
    border-radius: 8px; font-size: 14px; }
  button { width: 100%; padding: 10px; border: 0; border-radius: 8px; background: #2563eb;
    color: #fff; font-size: 14px; font-weight: 600; cursor: pointer; }
  button:hover { background: #1d4ed8; }
  .error { margin: 0 0 14px; padding: 8px 10px; border-radius: 8px; background: #fdecea; color: #c0392b; }
</style></head>
<body><main class="card">
  <h1>DeepSeek Harness</h1>
  <p class="sub">此界面受密码保护，请输入用户名和密码。</p>
  "#;

/// The login page from the error message to the CSRF token.
pub const PAGE_FORM: &'static str = r#"
  <form method="post" action="/login">
    <input type="hidden" name="csrf" value=""#;

/// The login page from the CSRF token to the username.
pub const PAGE_USER: &'static str = r#"">
    <label for="username">用户名</label>
    <input id="username" name="username" value=""#;

/// The login page after the username.
pub const PAGE_TAIL: &'static str = r#"" autocomplete="username" required autofocus>
    <label for="password">密码</label>
    <input id="password" name="password" type="password" autocomplete="current-password" required>
    <button type="submit">进入</button>
  </form>
</main></body></html>"#;

/// Markup opening an error message.
pub const ERROR_OPEN: &'static str = r#"<p class="error">"#;

/// Markup closing an error message.
pub const ERROR_CLOSE: &'static str = "</p>";

/// The text of an optional string.
pub open spec fn opt_text(o: Option<&str>) -> Option<Seq<char>> {
    match o {
        Some(s) => Some(s@),
        None => None,
    }
}

/// The text of an optional owned string.
pub open spec fn opt_string(o: Option<String>) -> Option<Seq<char>> {
    match o {
        Some(s) => Some(s@),
        None => None,
    }
}

/// The markup of an optional error message (empty when there is none).
pub open spec fn error_markup(error: Option<Seq<char>>) -> Seq<char> {
    match error {
        Some(e) => ERROR_OPEN@ + e + ERROR_CLOSE@,
        None => Seq::empty(),
    }
}

/// The login page carrying CSRF token `csrf`, an optional error message, and
/// `username` prefilled.
pub open spec fn login_page_text(csrf: Seq<char>, error: Option<Seq<char>>, username: Seq<char>) -> Seq<char> {
    PAGE_HEAD@ + error_markup(error) + PAGE_FORM@ + csrf + PAGE_USER@ + username + PAGE_TAIL@
}

/// Render the login page.
pub fn login_html(csrf: &str, error: Option<&str>, username: &str) -> (page: String)
    ensures
        page@ == login_page_text(csrf@, opt_text(error), username@),
{
    let mut page = String::from_str(PAGE_HEAD);
    match error {
        Some(e) => {
            page.append(ERROR_OPEN);
            page.append(e);
            page.append(ERROR_CLOSE);
        },
        None => {},
    }
    page.append(PAGE_FORM);
    page.append(csrf);
    page.append(PAGE_USER);
    page.append(username);
    page.append(PAGE_TAIL);
    page
}

/// The `Set-Cookie` value that opens session `sid`.
pub open spec fn session_cookie_text(sid: Seq<char>) -> Seq<char> {
    SESSION_COOKIE@ + seq!['='] + sid + SESSION_COOKIE_ATTRS@
}

/// Render the `Set-Cookie` value that opens session `sid`.
pub fn session_cookie(sid: &str) -> (c: String)
    ensures
        c@ == session_cookie_text(sid@),
{
    let mut c = String::from_str(SESSION_COOKIE);
    c.append("=");
    proof {
        reveal_strlit("=");
    }
    c.append(sid);
    c.append(SESSION_COOKIE_ATTRS);
    assert(c@ =~= session_cookie_text(sid@));
    c
}

/// The address a request came from, which keys the per-IP failure count:
/// the `cf-connecting-ip` header when present (Cloudflare's edge terminates
/// TLS and passes the client on), else the connection's peer address.
pub fn client_ip(cf_connecting_ip: Option<&str>, peer: &str) -> (ip: String)
    ensures
        ip@ == match cf_connecting_ip {
            Some(s) => s@,
            None => peer@,
        },
{
    match cf_connecting_ip {
        Some(s) => s.to_owned(),
        None => peer.to_owned(),
    }
}

/// The fields of the login form.
pub struct LoginForm {
    pub username: String,
    pub password: String,
    pub csrf: String,
}

/// How a login attempt was judged.
#[derive(Debug, Clone, Copy, PartialEq, Eq, Structural)]
pub enum LoginVerdict {
    /// The client's IP is locked out; nothing was checked.
    Locked,
    /// The CSRF token was unknown, used or expired.
    FormExpired,
    /// Wrong username or password; `lockout_secs` is set when this failure
    /// locked the IP out.
    Rejected { lockout_secs: Option<u64> },
    /// The credentials are right.
    Accepted,
}

/// An HTTP reply, as plain values.
pub struct Reply {
    pub status: u16,
    pub location: Option<String>,
    pub set_cookie: Option<String>,
    pub html: Option<String>,
}

/// An HTTP reply, as text.
pub struct ReplyView {
    pub status: u16,
    pub location: Option<Seq<char>>,
    pub set_cookie: Option<Seq<char>>,
    pub html: Option<Seq<char>>,
}

impl View for Reply {
    type V = ReplyView;

    open spec fn view(&self) -> ReplyView {
        ReplyView {
            status: self.status,
            location: opt_string(self.location),
            set_cookie: opt_string(self.set_cookie),
            html: opt_string(self.html),
        }
    }
}

/// The reply to a login attempt judged `verdict`, for a form naming
/// `username`; `sid` is the new session's id when the attempt was accepted.
pub open spec fn verdict_reply(verdict: LoginVerdict, username: Seq<char>, sid: Seq<char>) -> ReplyView {
    match verdict {
        LoginVerdict::Locked => ReplyView {
            status: 200,
            location: None,
            set_cookie: None,
            html: Some(login_page_text(Seq::empty(), Some(LOCKED_MESSAGE@), username)),
        },
        LoginVerdict::FormExpired => ReplyView {
            status: 200,
            location: None,
            set_cookie: None,
            html: Some(login_page_text(Seq::empty(), Some(FORM_EXPIRED_MESSAGE@), username)),
        },
        LoginVerdict::Rejected { .. } => ReplyView {
            status: 200,
            location: None,
            set_cookie: None,
            html: Some(login_page_text(Seq::empty(), Some(BAD_CREDENTIALS_MESSAGE@), username)),
        },
        LoginVerdict::Accepted => ReplyView {
            status: 302,
            location: Some(seq!['/']),
            set_cookie: Some(session_cookie_text(sid)),
            html: None,
        },
    }
}

/// Build the reply to a login attempt judged `verdict`.
pub fn login_reply(verdict: &LoginVerdict, username: &str, sid: &str) -> (r: Reply)
    ensures
        r@ == verdict_reply(*verdict, username@, sid@),
{
    proof {
        reveal_strlit("");
        assert(""@ =~= Seq::<char>::empty());
    }
    match verdict {
        LoginVerdict::Locked => Reply {
            status: 200,
            location: None,
            set_cookie: None,
            html: Some(login_html("", Some(LOCKED_MESSAGE), username)),
        },
        LoginVerdict::FormExpired => Reply {
            status: 200,
            location: None,
            set_cookie: None,
            html: Some(login_html("", Some(FORM_EXPIRED_MESSAGE), username)),
        },
        LoginVerdict::Rejected { .. } => Reply {
            status: 200,
            location: None,
            set_cookie: None,
            html: Some(login_html("", Some(BAD_CREDENTIALS_MESSAGE), username)),
        },
        LoginVerdict::Accepted => {
            let location = String::from_str("/");
            proof {
                reveal_strlit("/");
                assert(location@ =~= seq!['/']);
            }
            Reply { status: 302, location: Some(location), set_cookie: Some(session_cookie(sid)), html: None }
        },
    }
}

/// Authentication state: the one account, and the session, CSRF and
/// rate-limit stores.
pub struct AuthState {
    pub username: String,
    pub password_hash: String,
    pub sessions: SessionStore,
    pub csrf: CsrfStore,
    pub limiter: RateLimiter,
}

/// Judging a login attempt by `form` from `ip` at `now`, where `password_ok`
/// tells whether the password verifies against the stored hash: the verdict,
/// and the CSRF and rate-limit stores afterwards.
///
/// A locked-out IP is refused before anything else is looked at. Otherwise
/// the form's CSRF token is consumed; an unknown or expired one refuses the
/// form. Then a wrong username or password counts as a failure for `ip`,
/// while right ones reset `ip`'s failures.
pub open spec fn login_step(a: AuthState, ip: Seq<char>, form: LoginForm, now: u64, password_ok: bool) -> (
    LoginVerdict,
    Map<Seq<char>, u64>,
    Map<Seq<char>, (u32, u64)>,
) {
    if is_locked(a.limiter@, ip, now) {
        (LoginVerdict::Locked, a.csrf@, a.limiter@)
    } else {
        let (fresh, csrf) = csrf_take(a.csrf@, form.csrf@, now);
        if !fresh {
            (LoginVerdict::FormExpired, csrf, a.limiter@)
        } else if !(form.username@ == a.username@ && password_ok) {
            let (lockout, limiter) = failure_step(
                a.limiter@,
                ip,
                now,
                a.limiter.max_failures(),
                a.limiter.lock_secs(),
            );
            (LoginVerdict::Rejected { lockout_secs: lockout }, csrf, limiter)
        } else {
            (LoginVerdict::Accepted, csrf, reset_step(a.limiter@, ip, now))
        }
    }
}

/// Looking up the session named by a `Cookie` header at `now`: the first
/// `dsh_rs_session` value naming a valid session, and the sessions afterwards
/// (expired sessions met on the way are dropped).
pub open spec fn cookie_session(m: SessionMap, cookie: Option<Seq<char>>, now: u64) -> (Option<Seq<char>>, SessionMap) {
    match cookie {
        Some(c) => first_valid(m, cookie_values_of(c, SESSION_COOKIE@), now),
        None => (None, m),
    }
}

/// Checking candidate session ids in order at `now` until one is valid.
pub open spec fn first_valid(m: SessionMap, ids: Seq<Seq<char>>, now: u64) -> (Option<Seq<char>>, SessionMap)
    decreases ids.len(),
{
    if ids.len() == 0 {
        (None, m)
    } else {
        let (ok, m2) = session_check(m, ids[0], now);
        if ok {
            (Some(ids[0]), m2)
        } else {
            first_valid(m2, ids.drop_first(), now)
        }
    }
}

/// The `Cookie` header `cookie` names session `id` among its
/// `dsh_rs_session` values.
pub open spec fn cookie_names(cookie: Option<Seq<char>>, id: Seq<char>) -> bool {
    match cookie {
        Some(c) => cookie_values_of(c, SESSION_COOKIE@).contains(id),
        None => false,
    }
}

/// `m` holds a session that the `Cookie` header `cookie` names and that is
/// still unexpired at `now`.
pub open spec fn has_live_named_session(m: SessionMap, cookie: Option<Seq<char>>, now: u64) -> bool {
    exists|k: Seq<char>| #[trigger] cookie_names(cookie, k) && m.contains_key(k) && m[k].1 > now
}

/// From `m0` to `m1` no session was added or changed, and every session
/// unexpired at `now` is still there: at most expired ones were dropped.
pub open spec fn only_expired_dropped(m0: SessionMap, m1: SessionMap, now: u64) -> bool {
    &&& forall|k: Seq<char>| #[trigger] m1.contains_key(k) ==> m0.contains_key(k) && m1[k] == m0[k]
    &&& forall|k: Seq<char>| #![trigger m1.contains_key(k)] m0.contains_key(k) && m0[k].1 > now ==> m1.contains_key(k)
}

/// From `m0` to `m1` a logout at `now` with `Cookie` header `cookie` ended at
/// most one unexpired session, one that the cookie names, and ended one if the
/// cookie names any; besides, no session was added or changed, and every
/// other session still there is either expired or named by the cookie.
pub open spec fn ends_only_named_session(m0: SessionMap, m1: SessionMap, cookie: Option<Seq<char>>, now: u64) -> bool {
    &&& forall|k: Seq<char>| #[trigger] m1.contains_key(k) ==> m0.contains_key(k) && m1[k] == m0[k]
    &&& forall|k: Seq<char>|
        #![trigger m1.contains_key(k)]
        m0.contains_key(k) && m0[k].1 > now && !cookie_names(cookie, k) ==> m1.contains_key(k)
    &&& forall|k1: Seq<char>, k2: Seq<char>|
        #![trigger m1.contains_key(k1), m1.contains_key(k2)]
        m0.contains_key(k1) && m0[k1].1 > now && !m1.contains_key(k1) && m0.contains_key(k2) && m0[k2].1 > now
            && !m1.contains_key(k2) ==> k1 == k2
    &&& has_live_named_session(m0, cookie, now) ==> exists|k: Seq<char>|
        #[trigger] cookie_names(cookie, k) && m0.contains_key(k) && m0[k].1 > now && !m1.contains_key(k)
}

/// Checking candidate ids in order drops only expired sessions it meets,
/// finds a named session only when it is unexpired, and finds none only when
/// every named session has expired.
pub proof fn lemma_first_valid(m: SessionMap, ids: Seq<Seq<char>>, now: u64)
    ensures
        ({
            let (found, m2) = first_valid(m, ids, now);
            &&& forall|k: Seq<char>| #[trigger] m2.contains_key(k) ==> m.contains_key(k) && m2[k] == m[k]
            &&& forall|k: Seq<char>|
                #![trigger m2.contains_key(k)]
                m.contains_key(k) && (m[k].1 > now || !ids.contains(k)) ==> m2.contains_key(k)
            &&& found matches Some(id) ==> ids.contains(id) && m.contains_key(id) && m[id].1 > now
            &&& found is None ==> forall|k: Seq<char>|
                #![trigger ids.contains(k)]
                ids.contains(k) && m.contains_key(k) ==> m[k].1 <= now
        }),
    decreases ids.len(),
{
    if ids.len() > 0 {
        let (ok, m1) = session_check(m, ids[0], now);
        assert(ids.contains(ids[0])) by {
            assert(ids[0] == ids[0]);
        }
        if !ok {
            let rest = ids.drop_first();
            lemma_first_valid(m1, rest, now);
            let (found, m2) = first_valid(m1, rest, now);
            assert forall|k: Seq<char>| rest.contains(k) implies ids.contains(k) by {
                let i = choose|i: int| 0 <= i < rest.len() && rest[i] == k;
                assert(ids[i + 1] == k);
            }
            assert forall|k: Seq<char>| ids.contains(k) && k != ids[0] implies rest.contains(k) by {
                let i = choose|i: int| 0 <= i < ids.len() && ids[i] == k;
                assert(i != 0);
                assert(rest[i - 1] == k);
            }
            assert forall|k: Seq<char>|
                m.contains_key(k) && (m[k].1 > now || !ids.contains(k)) implies #[trigger] m2.contains_key(k) by {
                assert(m1.contains_key(k));
                if !ids.contains(k) {
                    assert(!rest.contains(k));
                }
            }
            if found is None {
                assert forall|k: Seq<char>| ids.contains(k) && m.contains_key(k) implies m[k].1 <= now by {
                    if k != ids[0] {
                        assert(rest.contains(k));
                        assert(m1.contains_key(k));
                    }
                }
            }
        }
    }
}

/// Checking the session named by a `Cookie` header drops only expired
/// sessions, finds a session only when the cookie names it and it is
/// unexpired, and finds one whenever the cookie names an unexpired session.
pub proof fn lemma_cookie_session(m: SessionMap, cookie: Option<Seq<char>>, now: u64)
    ensures
        ({
            let (found, m2) = cookie_session(m, cookie, now);
            &&& only_expired_dropped(m, m2, now)
            &&& found matches Some(id) ==> cookie_names(cookie, id) && m.contains_key(id) && m[id].1 > now
            &&& found is None <==> !has_live_named_session(m, cookie, now)
        }),
{
    match cookie {
        Some(c) => {
            let ids = cookie_values_of(c, SESSION_COOKIE@);
            lemma_first_valid(m, ids, now);
            let (found, m2) = first_valid(m, ids, now);
            if found is None {
                assert forall|k: Seq<char>|
                    !(#[trigger] cookie_names(cookie, k) && m.contains_key(k) && m[k].1 > now) by {
                    if cookie_names(cookie, k) && m.contains_key(k) {
                        assert(ids.contains(k));
                    }
                }
            } else {
                let id = found->0;
                assert(cookie_names(cookie, id));
            }
        },
        None => {},
    }
}

/// A logout ends only the session the cookie names: see
/// `ends_only_named_session`.
pub proof fn lemma_logout_sessions(m: SessionMap, cookie: Option<Seq<char>>, now: u64)
    ensures
        ends_only_named_session(m, logout_sessions(m, cookie, now), cookie, now),
{
    lemma_cookie_session(m, cookie, now);
    let (found, m2) = cookie_session(m, cookie, now);
    let m3 = logout_sessions(m, cookie, now);
    match found {
        Some(id) => {
            assert(m3 == m2.remove(id));
            assert forall|k1: Seq<char>, k2: Seq<char>|
                m.contains_key(k1) && m[k1].1 > now && !#[trigger] m3.contains_key(k1) && m.contains_key(k2) && m[k2].1
                    > now && !#[trigger] m3.contains_key(k2) implies k1 == k2 by {
                assert(m2.contains_key(k1));
                assert(m2.contains_key(k2));
            }
            assert forall|k: Seq<char>|
                m.contains_key(k) && m[k].1 > now && !cookie_names(cookie, k) implies #[trigger] m3.contains_key(k) by {
                assert(m2.contains_key(k));
            }
            assert(cookie_names(cookie, id) && m.contains_key(id) && m[id].1 > now && !m3.contains_key(id));
        },
        None => {
            assert(m3 == m2);
            assert forall|k1: Seq<char>, k2: Seq<char>|
                m.contains_key(k1) && m[k1].1 > now && !#[trigger] m3.contains_key(k1) && m.contains_key(k2) && m[k2].1
                    > now && !#[trigger] m3.contains_key(k2) implies k1 == k2 by {
                assert(m2.contains_key(k1));
            }
        },
    }
}

impl AuthState {
    /// The stores are well formed.
    pub open spec fn wf(&self) -> bool {
        &&& self.sessions.wf()
        &&& self.csrf.wf()
        &&& self.limiter.wf()
    }

    /// `self` holds no sessions, tokens or failures, and locks an IP for
    /// `LOCK_SECS` after `MAX_FAILURES` failures.
    pub open spec fn is_fresh(&self) -> bool {
        &&& self.wf()
        &&& self.sessions@ == SessionMap::empty()
        &&& self.csrf@ == Map::<Seq<char>, u64>::empty()
        &&& self.limiter@ == Map::<Seq<char>, (u32, u64)>::empty()
        &&& self.limiter.max_failures() == MAX_FAILURES
        &&& self.limiter.lock_secs() == LOCK_SECS
    }

    /// The state for the account `username` whose password hashes to the PHC
    /// string `password_hash`.
    pub fn from_hash(username: String, password_hash: String) -> (a: Self)
        ensures
            a.is_fresh(),
            a.username == username,
            a.password_hash == password_hash,
    {
        AuthState {
            username,
            password_hash,
            sessions: SessionStore::new(),
            csrf: CsrfStore::new(),
            limiter: RateLimiter::new(MAX_FAILURES, LOCK_SECS),
        }
    }

    /// The state for the account `username` with `password`, hashed once with
    /// Argon2 and a fresh random salt (never persisted). `None` when hashing
    /// fails.
    pub fn new(username: String, password: String) -> (r: Option<Self>)
        ensures
            match r {
                Some(a) => {
                    &&& a.is_fresh()
                    &&& a.username == username
                    &&& argon2_verifies(a.password_hash@, password@)
                    &&& exists|salt: Seq<char>| argon2_phc(password@, salt) == Some(a.password_hash@)
                },
                None => exists|salt: Seq<char>| argon2_phc(password@, salt) is None,
            },
            password@.len() <= MAX_PASSWORD_CHARS ==> r is Some,
    {
        let salt = generate_salt();
        match hash_password(password.as_str(), salt.as_str()) {
            Some(hash) => Some(AuthState::from_hash(username, hash)),
            None => None,
        }
    }

    /// Whether `password` verifies against the stored hash.
    pub fn password_matches(&self, password: &str) -> (ok: bool)
        ensures
            ok == argon2_verifies(self.password_hash@, password@),
    {
        verify_password(self.password_hash.as_str(), password)
    }

    /// The id of the first session named by the `Cookie` header `cookie` that
    /// is valid at `now`.
    pub fn session_id_from_cookie_at(&mut self, cookie: Option<&str>, now: u64) -> (r: Option<String>)
        requires
            old(self).wf(),
        ensures
            final(self).wf(),
            (opt_string(r), final(self).sessions@) == cookie_session(old(self).sessions@, opt_text(cookie), now),
            final(self).username == old(self).username,
            final(self).password_hash == old(self).password_hash,
            final(self).csrf == old(self).csrf,
            final(self).limiter == old(self).limiter,
    {
        let c = match cookie {
            Some(c) => c,
            None => {
                return None;
            },
        };
        let ids = cookie_values(c, SESSION_COOKIE);
        let ghost all = ids@.map_values(|s: String| s@);
        let n = ids.len();
        let mut i: usize = 0;
        assert(all.skip(0) =~= all);
        while i < n
            invariant
                n == ids@.len(),
                all == ids@.map_values(|s: String| s@),
                all == cookie_values_of(c@, SESSION_COOKIE@),
                i <= n,
                self.wf(),
                cookie_session(old(self).sessions@, opt_text(cookie), now) == first_valid(
                    self.sessions@,
                    all.skip(i as int),
                    now,
                ),
                self.username == old(self).username,
                self.password_hash == old(self).password_hash,
                self.csrf == old(self).csrf,
                self.limiter == old(self).limiter,
            decreases n - i,
        {
            let ghost rest = all.skip(i as int);
            assert(rest[0] == ids@[i as int]@);
            assert(rest.drop_first() =~= all.skip(i + 1));
            if self.sessions.valid_at(ids[i].as_str(), now) {
                return Some(ids[i].clone());
            }
            i = i + 1;
        }
        assert(all.skip(n as int) =~= Seq::<Seq<char>>::empty());
        None
    }

    /// The id of the first session named by the `Cookie` header `cookie` that
    /// is valid now.
    pub fn session_id_from_cookie(&mut self, cookie: Option<&str>) -> (r: Option<String>)
        requires
            old(self).wf(),
        ensures
            final(self).wf(),
            exists|t: u64|
                #[trigger] is_clock_reading(t) && (opt_string(r), final(self).sessions@) == cookie_session(
                    old(self).sessions@,
                    opt_text(cookie),
                    t,
                ),
            final(self).username == old(self).username,
            final(self).password_hash == old(self).password_hash,
            final(self).csrf == old(self).csrf,
            final(self).limiter == old(self).limiter,
    {
        let t = now();
        self.session_id_from_cookie_at(cookie, t)
    }

    /// The checks made before any password is looked at, at `now`: a
    /// locked-out `ip` is refused, and otherwise the form's CSRF token is
    /// consumed, an unknown or expired one refusing the form. `None` when the
    /// attempt goes on to the credentials.
    fn screen_at(&mut self, ip: &str, form: &LoginForm, now: u64) -> (r: Option<LoginVerdict>)
        requires
            old(self).wf(),
        ensures
            final(self).wf(),
            is_locked(old(self).limiter@, ip@, now) ==> r == Some(LoginVerdict::Locked) && final(self).csrf@
                == old(self).csrf@,
            !is_locked(old(self).limiter@, ip@, now) ==> {
                let (fresh, csrf) = csrf_take(old(self).csrf@, form.csrf@, now);
                &&& final(self).csrf@ == csrf
                &&& r == (if fresh {
                    None
                } else {
                    Some(LoginVerdict::FormExpired)
                })
            },
            final(self).limiter == old(self).limiter,
            final(self).username == old(self).username,
            final(self).password_hash == old(self).password_hash,
            final(self).sessions == old(self).sessions,
    {
        if self.limiter.locked_at(ip, now) {
            return Some(LoginVerdict::Locked);
        }
        if !self.csrf.consume_at(form.csrf.as_str(), now) {
            return Some(LoginVerdict::FormExpired);
        }
        None
    }

    /// Judge the credentials of an attempt from `ip` at `now` that passed
    /// the screen, `credentials_ok` telling whether they are right: wrong ones
    /// count a failure, right ones reset `ip`.
    fn judge_at(&mut self, ip: &str, now: u64, credentials_ok: bool) -> (v: LoginVerdict)
        requires
            old(self).wf(),
        ensures
            final(self).wf(),
            !credentials_ok ==> {
                let (lockout, limiter) = failure_step(
                    old(self).limiter@,
                    ip@,
                    now,
                    old(self).limiter.max_failures(),
                    old(self).limiter.lock_secs(),
                );
                v == LoginVerdict::Rejected { lockout_secs: lockout } && final(self).limiter@ == limiter
            },
            credentials_ok ==> v == LoginVerdict::Accepted && final(self).limiter@ == reset_step(
                old(self).limiter@,
                ip@,
                now,
            ),
            final(self).limiter.max_failures() == old(self).limiter.max_failures(),
            final(self).limiter.lock_secs() == old(self).limiter.lock_secs(),
            final(self).csrf == old(self).csrf,
            final(self).username == old(self).username,
            final(self).password_hash == old(self).password_hash,
            final(self).sessions == old(self).sessions,
    {
        if !credentials_ok {
            let lockout = self.limiter.record_failure_at(ip, now);
            return LoginVerdict::Rejected { lockout_secs: lockout };
        }
        self.limiter.reset_at(ip, now);
        LoginVerdict::Accepted
    }

    /// Judge a login attempt by `form` from `ip` at `now`, given whether the
    /// password verifies (`password_ok`).
    pub fn authenticate_at(&mut self, ip: &str, form: &LoginForm, now: u64, password_ok: bool) -> (v: LoginVerdict)
        requires
            old(self).wf(),
        ensures
            final(self).wf(),
            (v, final(self).csrf@, final(self).limiter@) == login_step(*old(self), ip@, *form, now, password_ok),
            final(self).limiter.max_failures() == old(self).limiter.max_failures(),
            final(self).limiter.lock_secs() == old(self).limiter.lock_secs(),
            final(self).username == old(self).username,
            final(self).password_hash == old(self).password_hash,
            final(self).sessions == old(self).sessions,
    {
        match self.screen_at(ip, form, now) {
            Some(v) => v,
            None => {
                let ok = form.username == self.username && password_ok;
                self.judge_at(ip, now, ok)
            },
        }
    }

    /// Judge a login attempt by `form` from `ip` at `now`. The password is
    /// verified against the stored hash only for an attempt that passed the
    /// lockout and CSRF checks and names the right username.
    pub fn login_at(&mut self, ip: &str, form: &LoginForm, now: u64) -> (v: LoginVerdict)
        requires
            old(self).wf(),
        ensures
            final(self).wf(),
            (v, final(self).csrf@, final(self).limiter@) == login_step(
                *old(self),
                ip@,
                *form,
                now,
                argon2_verifies(old(self).password_hash@, form.password@),
            ),
            final(self).limiter.max_failures() == old(self).limiter.max_failures(),
            final(self).limiter.lock_secs() == old(self).limiter.lock_secs(),
            final(self).username == old(self).username,
            final(self).password_hash == old(self).password_hash,
            final(self).sessions == old(self).sessions,
    {
        match self.screen_at(ip, form, now) {
            Some(v) => v,
            None => {
                let ok = form.username == self.username && self.password_matches(form.password.as_str());
                self.judge_at(ip, now, ok)
            },
        }
    }

    /// Open session `sid` for `username` at `now`, lasting `SESSION_TTL_SECS`.
    pub fn open_session_at(&mut self, sid: String, username: String, now: u64)
        requires
            old(self).wf(),
        ensures
            final(self).wf(),
            final(self).sessions@ == old(self).sessions@.insert(sid@, (username@, expiry_after(now, SESSION_TTL_SECS))),
            final(self).username == old(self).username,
            final(self).password_hash == old(self).password_hash,
            final(self).csrf == old(self).csrf,
            final(self).limiter == old(self).limiter,
    {
        self.sessions.insert_at(sid, username, SESSION_TTL_SECS, now);
    }
}

/// Serve the login page at `now` with the fresh CSRF token `token`, which is
/// admitted for `CSRF_TTL_SECS`.
pub fn login_page_at(auth: &mut AuthState, token: String, now: u64) -> (page: String)
    requires
        old(auth).wf(),
    ensures
        final(auth).wf(),
        page@ == login_page_text(token@, None, Seq::empty()),
        final(auth).csrf@ == old(auth).csrf@.insert(token@, expiry_after(now, CSRF_TTL_SECS)),
        final(auth).username == old(auth).username,
        final(auth).password_hash == old(auth).password_hash,
        final(auth).sessions == old(auth).sessions,
        final(auth).limiter == old(auth).limiter,
{
    let page = login_html(token.as_str(), None, "");
    proof {
        reveal_strlit("");
        assert(""@ =~= Seq::<char>::empty());
    }
    auth.csrf.register_at(token, CSRF_TTL_SECS, now);
    page
}

/// Serve the login page with a fresh random CSRF token (32 hex digits),
/// admitted for `CSRF_TTL_SECS` from now.
pub fn login_page(auth: &mut AuthState) -> (page: String)
    requires
        old(auth).wf(),
    ensures
        final(auth).wf(),
        exists|token: Seq<char>, t: u64|
            {
                &&& is_clock_reading(t)
                &&& is_hex_token(token, 16)
                &&& page@ == login_page_text(token, None, Seq::empty())
                &&& final(auth).csrf@ == old(auth).csrf@.insert(token, expiry_after(t, CSRF_TTL_SECS))
            },
        final(auth).username == old(auth).username,
        final(auth).password_hash == old(auth).password_hash,
        final(auth).sessions == old(auth).sessions,
        final(auth).limiter == old(auth).limiter,
{
    let token = random_hex(16);
    let t = now();
    login_page_at(auth, token, t)
}

/// What a login attempt does to the sessions: an accepted one opens session
/// `sid` for the form's username at `now`.
pub open spec fn login_sessions(m: SessionMap, verdict: LoginVerdict, form: LoginForm, sid: Seq<char>, now: u64) -> SessionMap {
    match verdict {
        LoginVerdict::Accepted => m.insert(sid, (form.username@, expiry_after(now, SESSION_TTL_SECS))),
        _ => m,
    }
}

/// The outcome of handling a login form: how it was judged, and the reply.
pub struct LoginOutcome {
    pub verdict: LoginVerdict,
    pub reply: Reply,
}

/// The effect of handling a login form from `ip` at `now` that takes the
/// state from `a0` to `a1`, judges it `verdict` and replies `r`; `sid` is the
/// id given to a new session. The password is judged by Argon2 against the
/// stored hash.
pub open spec fn login_effect(
    a0: AuthState,
    a1: AuthState,
    ip: Seq<char>,
    form: LoginForm,
    now: u64,
    sid: Seq<char>,
    verdict: LoginVerdict,
    r: ReplyView,
) -> bool {
    let (v, csrf, limiter) = login_step(a0, ip, form, now, argon2_verifies(a0.password_hash@, form.password@));
    &&& verdict == v
    &&& a1.csrf@ == csrf
    &&& a1.limiter@ == limiter
    &&& a1.sessions@ == login_sessions(a0.sessions@, v, form, sid, now)
    &&& r == verdict_reply(v, form.username@, sid)
}

/// Handle a submitted login form from `ip` at `now`; `sid` becomes the new
/// session's id if the attempt is accepted.
pub fn login_submit_at(auth: &mut AuthState, ip: &str, form: &LoginForm, now: u64, sid: String) -> (r: LoginOutcome)
    requires
        old(auth).wf(),
    ensures
        final(auth).wf(),
        login_effect(*old(auth), *final(auth), ip@, *form, now, sid@, r.verdict, r.reply@),
        final(auth).limiter.max_failures() == old(auth).limiter.max_failures(),
        final(auth).limiter.lock_secs() == old(auth).limiter.lock_secs(),
        final(auth).username == old(auth).username,
        final(auth).password_hash == old(auth).password_hash,
{
    let v = auth.login_at(ip, form, now);
    let r = login_reply(&v, form.username.as_str(), sid.as_str());
    match v {
        LoginVerdict::Accepted => {
            auth.open_session_at(sid, form.username.clone(), now);
        },
        _ => {},
    }
    LoginOutcome { verdict: v, reply: r }
}

/// Handle a submitted login form from `ip`: judged now, with a fresh random
/// session id (48 hex digits) for an accepted attempt.
pub fn login_submit(auth: &mut AuthState, ip: &str, form: &LoginForm) -> (r: LoginOutcome)
    requires
        old(auth).wf(),
    ensures
        final(auth).wf(),
        exists|t: u64, sid: Seq<char>|
            is_clock_reading(t) && is_hex_token(sid, 24) && #[trigger] login_effect(
                *old(auth),
                *final(auth),
                ip@,
                *form,
                t,
                sid,
                r.verdict,
                r.reply@,
            ),
        final(auth).limiter.max_failures() == old(auth).limiter.max_failures(),
        final(auth).limiter.lock_secs() == old(auth).limiter.lock_secs(),
        final(auth).username == old(auth).username,
        final(auth).password_hash == old(auth).password_hash,
{
    let t = now();
    let sid = random_hex(24);
    login_submit_at(auth, ip, form, t, sid)
}

/// The reply to a logout: back to the login page, with the session cookie
/// cleared.
pub open spec fn logout_reply() -> ReplyView {
    ReplyView {
        status: 302,
        location: Some(LOGIN_PATH@),
        set_cookie: Some(CLEAR_SESSION_COOKIE@),
        html: None,
    }
}

/// The sessions after a logout at `now` by a request with `Cookie` header
/// `cookie`: the session it names (if valid) is dropped.
pub open spec fn logout_sessions(m: SessionMap, cookie: Option<Seq<char>>, now: u64) -> SessionMap {
    let (found, m2) = cookie_session(m, cookie, now);
    match found {
        Some(id) => m2.remove(id),
        None => m2,
    }
}

/// Log out at `now` the session named by the `Cookie` header `cookie`.
pub fn logout_at(auth: &mut AuthState, cookie: Option<&str>, now: u64) -> (r: Reply)
    requires
        old(auth).wf(),
    ensures
        final(auth).wf(),
        final(auth).sessions@ == logout_sessions(old(auth).sessions@, opt_text(cookie), now),
        ends_only_named_session(old(auth).sessions@, final(auth).sessions@, opt_text(cookie), now),
        r@ == logout_reply(),
        final(auth).username == old(auth).username,
        final(auth).password_hash == old(auth).password_hash,
        final(auth).csrf == old(auth).csrf,
        final(auth).limiter == old(auth).limiter,
{
    proof {
        lemma_logout_sessions(old(auth).sessions@, opt_text(cookie), now);
    }
    match auth.session_id_from_cookie_at(cookie, now) {
        Some(sid) => auth.sessions.remove(sid.as_str()),
        None => {},
    }
    Reply {
        status: 302,
        location: Some(String::from_str(LOGIN_PATH)),
        set_cookie: Some(String::from_str(CLEAR_SESSION_COOKIE)),
        html: None,
    }
}

/// Log out the session named by the `Cookie` header `cookie`.
pub fn logout(auth: &mut AuthState, cookie: Option<&str>) -> (r: Reply)
    requires
        old(auth).wf(),
    ensures
        final(auth).wf(),
        exists|t: u64|
            {
                &&& #[trigger] is_clock_reading(t)
                &&& final(auth).sessions@ == logout_sessions(old(auth).sessions@, opt_text(cookie), t)
                &&& ends_only_named_session(old(auth).sessions@, final(auth).sessions@, opt_text(cookie), t)
            },
        r@ == logout_reply(),
        final(auth).username == old(auth).username,
        final(auth).password_hash == old(auth).password_hash,
        final(auth).csrf == old(auth).csrf,
        final(auth).limiter == old(auth).limiter,
{
    let t = now();
    logout_at(auth, cookie, t)
}

/// What the session guard does with a request.
#[derive(Debug, Clone, Copy, PartialEq, Eq, Structural)]
pub enum GateDecision {
    /// Pass the request on.
    Forward,
    /// Send the client to the login page.
    RedirectToLogin,
}

/// `path` is served without a session: the login and logout endpoints.
pub open spec fn is_open_path(path: Seq<char>) -> bool {
    path == LOGIN_PATH@ || path == LOGOUT_PATH@
}

/// The session guard's decision at `now` for a request to `path` with `Cookie` header
/// `cookie`, and the sessions afterwards.
pub open spec fn gate_step(m: SessionMap, path: Seq<char>, cookie: Option<Seq<char>>, now: u64) -> (GateDecision, SessionMap) {
    if is_open_path(path) {
        (GateDecision::Forward, m)
    } else {
        let (found, m2) = cookie_session(m, cookie, now);
        match found {
            Some(_) => (GateDecision::Forward, m2),
            None => (GateDecision::RedirectToLogin, m2),
        }
    }
}

/// Gate a request to `path` at `now`: every path but the login and logout
/// endpoints needs a valid session cookie.
pub fn gate_at(auth: &mut AuthState, path: &str, cookie: Option<&str>, now: u64) -> (d: GateDecision)
    requires
        old(auth).wf(),
    ensures
        final(auth).wf(),
        (d, final(auth).sessions@) == gate_step(old(auth).sessions@, path@, opt_text(cookie), now),
        d == GateDecision::Forward <==> is_open_path(path@) || has_live_named_session(
            old(auth).sessions@,
            opt_text(cookie),
            now,
        ),
        only_expired_dropped(old(auth).sessions@, final(auth).sessions@, now),
        final(auth).username == old(auth).username,
        final(auth).password_hash == old(auth).password_hash,
        final(auth).csrf == old(auth).csrf,
        final(auth).limiter == old(auth).limiter,
{
    proof {
        lemma_cookie_session(old(auth).sessions@, opt_text(cookie), now);
    }
    if same_text(path, LOGIN_PATH) || same_text(path, LOGOUT_PATH) {
        return GateDecision::Forward;
    }
    match auth.session_id_from_cookie_at(cookie, now) {
        Some(_) => GateDecision::Forward,
        None => GateDecision::RedirectToLogin,
    }
}

/// Gate a request to `path`: every path but the login and logout endpoints
/// needs a valid session cookie.
pub fn gate(auth: &mut AuthState, path: &str, cookie: Option<&str>) -> (d: GateDecision)
    requires
        old(auth).wf(),
    ensures
        final(auth).wf(),
        exists|t: u64|
            {
                &&& #[trigger] is_clock_reading(t)
                &&& (d, final(auth).sessions@) == gate_step(old(auth).sessions@, path@, opt_text(cookie), t)
                &&& d == GateDecision::Forward <==> is_open_path(path@) || has_live_named_session(
                    old(auth).sessions@,
                    opt_text(cookie),
                    t,
                )
                &&& only_expired_dropped(old(auth).sessions@, final(auth).sessions@, t)
            },
        final(auth).username == old(auth).username,
        final(auth).password_hash == old(auth).password_hash,
        final(auth).csrf == old(auth).csrf,
        final(auth).limiter == old(auth).limiter,
{
    let t = now();
    gate_at(auth, path, cookie, t)
}

} // verus!
