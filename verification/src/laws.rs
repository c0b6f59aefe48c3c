//! Properties of the library as a whole, proved over the spec functions that
//! the operations' contracts use.
use vstd::prelude::*;

use crate::auth::{
    cookie_names, cookie_session, ends_only_named_session, first_valid, gate_step, has_live_named_session,
    is_open_path, lemma_cookie_session, lemma_logout_sessions, login_effect, login_sessions, login_step,
    logout_sessions, only_expired_dropped, session_cookie_text, AuthState, GateDecision, LoginForm, LoginVerdict,
    ReplyView, CSRF_TTL_SECS, SESSION_COOKIE, SESSION_TTL_SECS,
};
use crate::clock::expiry_after;
use crate::password::argon2_verifies;
use crate::proxy::{port_of, proxy_for, HTTP_SCHEME, LOOPBACK_HOST};
use crate::text::{cookie_values_of, is_decimal, is_space, pair_values, split_on, trim, trim_end, trim_start};
use crate::token::{is_hex_token, lemma_hex_shape, hex_of};
use crate::state::{
    csrf_take, failure_count, failure_step, is_locked, limiter_entries_ok, lockout_over, reset_step,
    session_check, RateLimiter, SessionMap,
};

verus! {

/// A session recorded at `now` for `ttl` seconds is valid exactly until its
/// expiry, and the check leaves it in place while it is valid.
pub proof fn session_valid_until_expiry(m: SessionMap, id: Seq<char>, user: Seq<char>, ttl: u64, now: u64, t: u64)
    ensures
        ({
            let m1 = m.insert(id, (user, expiry_after(now, ttl)));
            let (ok, m2) = session_check(m1, id, t);
            &&& ok == (t < expiry_after(now, ttl))
            &&& ok ==> m2 == m1
            &&& !ok ==> !m2.contains_key(id)
        }),
{
}

/// A removed session is never valid.
pub proof fn removed_session_invalid(m: SessionMap, id: Seq<char>, t: u64)
    ensures
        session_check(m.remove(id), id, t) == (false, m.remove(id)),
{
}

/// Checking a session never adds or changes sessions: the store afterwards is
/// the store before, less (at most) the checked id, which goes only when it
/// had expired.
pub proof fn session_check_only_reaps(m: SessionMap, id: Seq<char>, t: u64)
    ensures
        ({
            let (ok, m2) = session_check(m, id, t);
            &&& m2 == m || (m2 == m.remove(id) && m.contains_key(id) && m[id].1 <= t)
            &&& ok ==> m2 == m
        }),
{
}

/// A CSRF token works at most once: after it is consumed (whatever the
/// outcome), consuming it again fails.
pub proof fn csrf_one_time(m: Map<Seq<char>, u64>, token: Seq<char>, t1: u64, t2: u64)
    ensures
        csrf_take(csrf_take(m, token, t1).1, token, t2).0 == false,
{
}

/// A token admitted at `now` for `ttl` seconds is accepted exactly until its
/// expiry.
pub proof fn csrf_fresh_until_expiry(m: Map<Seq<char>, u64>, token: Seq<char>, ttl: u64, now: u64, t: u64)
    ensures
        csrf_take(m.insert(token, expiry_after(now, ttl)), token, t).0 == (t < expiry_after(now, ttl)),
{
}

/// `k` login failures for `ip`, all at time `now`.
pub open spec fn failures(
    m: Map<Seq<char>, (u32, u64)>,
    ip: Seq<char>,
    now: u64,
    max_failures: u32,
    lock_secs: u64,
    k: nat,
) -> Map<Seq<char>, (u32, u64)>
    decreases k,
{
    if k == 0 {
        m
    } else {
        failure_step(failures(m, ip, now, max_failures, lock_secs, (k - 1) as nat), ip, now, max_failures, lock_secs).1
    }
}

/// From no record, fewer than `max_failures` failures count up without a
/// lock and without reporting one.
pub proof fn failures_count_up(
    m: Map<Seq<char>, (u32, u64)>,
    ip: Seq<char>,
    now: u64,
    max_failures: u32,
    lock_secs: u64,
    k: nat,
)
    requires
        !m.contains_key(ip),
        k < max_failures,
    ensures
        failure_count(failures(m, ip, now, max_failures, lock_secs, k), ip) == k,
        !is_locked(failures(m, ip, now, max_failures, lock_secs, k), ip, now),
        k >= 1 ==> failure_step(failures(m, ip, now, max_failures, lock_secs, (k - 1) as nat), ip, now, max_failures, lock_secs).0 is None,
    decreases k,
{
    if k > 0 {
        failures_count_up(m, ip, now, max_failures, lock_secs, (k - 1) as nat);
    }
}

/// From no record, the `max_failures`-th failure reports a lock of
/// `lock_secs` and locks `ip` from `now` until `now + lock_secs` (5 failures
/// lock for 5 minutes in the gateway's setting).
pub proof fn lockout_after_max_failures(
    m: Map<Seq<char>, (u32, u64)>,
    ip: Seq<char>,
    now: u64,
    max_failures: u32,
    lock_secs: u64,
    t: u64,
)
    requires
        !m.contains_key(ip),
        max_failures >= 1,
        now <= t,
    ensures
        failure_step(failures(m, ip, now, max_failures, lock_secs, (max_failures - 1) as nat), ip, now, max_failures, lock_secs).0
            == Some(lock_secs),
        is_locked(failures(m, ip, now, max_failures, lock_secs, max_failures as nat), ip, t) == (t < expiry_after(now, lock_secs)),
{
    failures_count_up(m, ip, now, max_failures, lock_secs, (max_failures - 1) as nat);
}

/// After a reset, `ip` has no failures and is not locked.
pub proof fn reset_clears(m: Map<Seq<char>, (u32, u64)>, ip: Seq<char>, now: u64, t: u64)
    ensures
        failure_count(reset_step(m, ip, now), ip) == 0,
        !is_locked(reset_step(m, ip, now), ip, t),
{
}

/// Reaping at a reset changes nothing for the other IPs from then on: their
/// lock and their failure count read the same.
pub proof fn reaping_is_invisible(
    m: Map<Seq<char>, (u32, u64)>,
    ip: Seq<char>,
    other: Seq<char>,
    max_failures: u32,
    now: u64,
    t: u64,
)
    requires
        limiter_entries_ok(m, max_failures),
        other != ip,
        now <= t,
    ensures
        is_locked(reset_step(m, ip, now), other, t) == is_locked(m, other, t),
        failure_count(reset_step(m, ip, now), other) == failure_count(m, other),
{
    let r = reset_step(m, ip, now);
    if m.contains_key(other) {
        assert(m.remove(ip).contains_key(other));
        if lockout_over(m[other], now) {
            assert(!r.contains_key(other));
        }
    }
}

/// A lock lasts until its expiry.
pub proof fn lock_expires(m: Map<Seq<char>, (u32, u64)>, ip: Seq<char>, now: u64, lock_secs: u64, t: u64)
    ensures
        is_locked(m.insert(ip, (0u32, expiry_after(now, lock_secs))), ip, t) == (t < expiry_after(now, lock_secs)),
{
}

/// A text without `sep` is a single piece.
proof fn lemma_split_without_sep(s: Seq<char>, sep: char)
    requires
        forall|i: int| 0 <= i < s.len() ==> s[i] != sep,
    ensures
        split_on(s, sep) == seq![s],
    decreases s.len(),
{
    if s.len() > 0 {
        lemma_split_without_sep(s.drop_last(), sep);
        assert(s.last() != sep);
        assert(s.drop_last().push(s.last()) =~= s);
        assert(seq![s.drop_last()].update(0, s) =~= seq![s]);
    } else {
        assert(s =~= Seq::<char>::empty());
    }
}

/// A text that neither starts nor ends with whitespace is its own trim.
proof fn lemma_trim_noop(s: Seq<char>)
    requires
        s.len() > 0,
        !is_space(s[0]),
        !is_space(s.last()),
    ensures
        trim(s) == s,
{
    assert(trim_start(s) == s);
}

/// The `Cookie` header a browser sends back for the session cookie `sid`.
pub open spec fn session_cookie_pair(sid: Seq<char>) -> Seq<char> {
    SESSION_COOKIE@ + seq!['='] + sid
}

/// A session id of 48 hex digits comes back out of the cookie it was set in.
pub proof fn session_cookie_round_trip(sid: Seq<char>)
    requires
        is_hex_token(sid, 24),
    ensures
        cookie_values_of(session_cookie_pair(sid), SESSION_COOKIE@) == seq![sid],
{
    let bytes = choose|bytes: Seq<u8>| bytes.len() == 24 && #[trigger] hex_of(bytes) == sid;
    lemma_hex_shape(bytes);
    reveal_strlit("dsh_rs_session");
    let c = session_cookie_pair(sid);
    let name = SESSION_COOKIE@;
    assert forall|i: int| 0 <= i < c.len() implies c[i] != ';' by {
        if i >= name.len() + 1 {
            assert(c[i] == sid[i - name.len() - 1]);
        }
    }
    lemma_split_without_sep(c, ';');
    assert(c.last() == sid[sid.len() - 1]);
    lemma_trim_noop(c);
    let prefix = name.push('=');
    assert(prefix =~= c.subrange(0, prefix.len() as int));
    assert(c.skip(prefix.len() as int) =~= sid);
    assert(seq![c].drop_last() =~= Seq::<Seq<char>>::empty());
    assert(pair_values(Seq::<Seq<char>>::empty(), name) == Seq::<Seq<char>>::empty());
    assert(prefix.is_prefix_of(trim(seq![c].last())));
    assert(Seq::<Seq<char>>::empty().push(sid) =~= seq![sid]);
    assert(pair_values(seq![c], name) =~= seq![sid]);
}

/// After an accepted login, a request carrying the new session cookie passes
/// the session guard until the session expires, whatever its path; and the reply sets
/// that cookie.
pub proof fn login_opens_gate(
    a0: AuthState,
    a1: AuthState,
    ip: Seq<char>,
    form: LoginForm,
    t: u64,
    sid: Seq<char>,
    r: ReplyView,
    path: Seq<char>,
    t2: u64,
)
    requires
        login_effect(a0, a1, ip, form, t, sid, LoginVerdict::Accepted, r),
        is_hex_token(sid, 24),
        t2 < expiry_after(t, SESSION_TTL_SECS),
    ensures
        r.set_cookie == Some(session_cookie_text(sid)),
        gate_step(a1.sessions@, path, Some(session_cookie_pair(sid)), t2).0 == GateDecision::Forward,
{
    session_cookie_round_trip(sid);
    let m = a1.sessions@;
    assert(m.contains_key(sid) && m[sid].1 == expiry_after(t, SESSION_TTL_SECS));
    let ids = seq![sid];
    assert(ids[0] == sid);
    assert(cookie_session(m, Some(session_cookie_pair(sid)), t2) == first_valid(m, ids, t2));
}

/// Logging out with the session cookie ends the session: it is gone, and
/// the session guard then turns the same cookie away from every guarded path.
pub proof fn logout_revokes(m: SessionMap, sid: Seq<char>, t: u64, path: Seq<char>, t2: u64)
    requires
        is_hex_token(sid, 24),
        !is_open_path(path),
    ensures
        !logout_sessions(m, Some(session_cookie_pair(sid)), t).contains_key(sid),
        gate_step(logout_sessions(m, Some(session_cookie_pair(sid)), t), path, Some(session_cookie_pair(sid)), t2).0
            == GateDecision::RedirectToLogin,
{
    session_cookie_round_trip(sid);
    let c = session_cookie_pair(sid);
    let ids = seq![sid];
    assert(ids.drop_first() =~= Seq::<Seq<char>>::empty());
    assert(ids[0] == sid);
    let (ok, m1) = session_check(m, sid, t);
    assert(first_valid(m1, Seq::<Seq<char>>::empty(), t) == (None::<Seq<char>>, m1));
    assert(cookie_session(m, Some(c), t) == first_valid(m, ids, t));
    let m2 = logout_sessions(m, Some(c), t);
    assert(!m2.contains_key(sid));
    let (ok2, m3) = session_check(m2, sid, t2);
    assert(!ok2);
    assert(first_valid(m3, Seq::<Seq<char>>::empty(), t2) == (None::<Seq<char>>, m3));
    assert(cookie_session(m2, Some(c), t2) == first_valid(m2, ids, t2));
}

/// The login and logout endpoints pass the session guard without a session and leave
/// the sessions alone.
pub proof fn open_paths_pass(m: SessionMap, path: Seq<char>, cookie: Option<Seq<char>>, t: u64)
    requires
        is_open_path(path),
    ensures
        gate_step(m, path, cookie, t) == (GateDecision::Forward, m),
{
}

/// With an unexpired CSRF token from the login page, the right username and
/// a password that verifies against the stored hash, an IP that is not
/// locked out is let in.
pub proof fn right_credentials_accepted(a: AuthState, ip: Seq<char>, form: LoginForm, now: u64)
    requires
        !is_locked(a.limiter@, ip, now),
        a.csrf@.contains_key(form.csrf@),
        a.csrf@[form.csrf@] > now,
        form.username@ == a.username@,
        argon2_verifies(a.password_hash@, form.password@),
    ensures
        login_step(a, ip, form, now, argon2_verifies(a.password_hash@, form.password@)).0 is Accepted,
{
}

/// A locked-out IP is refused whatever it sends: its CSRF token stays
/// unused and no failure is counted.
pub proof fn lockout_refuses_everything(a: AuthState, ip: Seq<char>, form: LoginForm, now: u64, password_ok: bool)
    requires
        is_locked(a.limiter@, ip, now),
    ensures
        login_step(a, ip, form, now, password_ok) == (LoginVerdict::Locked, a.csrf@, a.limiter@),
{
}

/// Only an accepted login opens a session; a refused one leaves the sessions
/// as they were.
pub proof fn refused_login_opens_nothing(m: SessionMap, v: LoginVerdict, form: LoginForm, sid: Seq<char>, now: u64)
    requires
        !(v is Accepted),
    ensures
        login_sessions(m, v, form, sid, now) == m,
{
}

/// A wrong username or password, with a valid form from an IP that is not
/// locked, is counted as a failure for that IP.
pub proof fn wrong_credentials_count(a: AuthState, ip: Seq<char>, form: LoginForm, now: u64, password_ok: bool)
    requires
        !is_locked(a.limiter@, ip, now),
        a.csrf@.contains_key(form.csrf@),
        a.csrf@[form.csrf@] > now,
        !(form.username@ == a.username@ && password_ok),
    ensures
        ({
            let (v, csrf, limiter) = login_step(a, ip, form, now, password_ok);
            let (lockout, counted) = failure_step(
                a.limiter@,
                ip,
                now,
                a.limiter.max_failures(),
                a.limiter.lock_secs(),
            );
            &&& v == LoginVerdict::Rejected { lockout_secs: lockout }
            &&& limiter == counted
            &&& csrf == a.csrf@.remove(form.csrf@)
        }),
{
}

/// Whatever the backend, the `Host` and `Origin` sent upstream are the
/// loopback form `127.0.0.1:<port>`.
pub proof fn upstream_is_loopback(p: crate::proxy::ProxyState, backend: Seq<char>, authority: Seq<char>)
    requires
        proxy_for(p, backend, authority),
    ensures
        LOOPBACK_HOST@.is_prefix_of(p.rewrite_host@),
        p.rewrite_host@ == LOOPBACK_HOST@ + port_of(authority),
        is_decimal(port_of(authority)),
        p.rewrite_origin@ == HTTP_SCHEME@ + p.rewrite_host@,
{
    reveal_strlit("3080");
    assert(LOOPBACK_HOST@ =~= p.rewrite_host@.subrange(0, LOOPBACK_HOST@.len() as int));
}

/// Failures for `ip` at the times `ts`, in order.
pub open spec fn failures_at(
    m: Map<Seq<char>, (u32, u64)>,
    ip: Seq<char>,
    ts: Seq<u64>,
    max_failures: u32,
    lock_secs: u64,
) -> Map<Seq<char>, (u32, u64)>
    decreases ts.len(),
{
    if ts.len() == 0 {
        m
    } else {
        failure_step(failures_at(m, ip, ts.drop_last(), max_failures, lock_secs), ip, ts.last(), max_failures, lock_secs).1
    }
}

/// None of the failures at the times `ts` meets `ip` locked out.
pub open spec fn never_locked_at(
    m: Map<Seq<char>, (u32, u64)>,
    ip: Seq<char>,
    ts: Seq<u64>,
    max_failures: u32,
    lock_secs: u64,
) -> bool {
    forall|j: int|
        0 <= j < ts.len() ==> !is_locked(failures_at(m, ip, ts.take(j), max_failures, lock_secs), ip, #[trigger] ts[j])
}

/// From no record, and with no failure meeting a running lock, the `k`-th
/// failure locks `ip` exactly when `k` is a multiple of `max_failures`, and
/// the count then stands at `k % max_failures`.
pub proof fn lockouts_are_periodic(
    m: Map<Seq<char>, (u32, u64)>,
    ip: Seq<char>,
    ts: Seq<u64>,
    max_failures: u32,
    lock_secs: u64,
)
    requires
        !m.contains_key(ip),
        max_failures >= 1,
        never_locked_at(m, ip, ts, max_failures, lock_secs),
    ensures
        failure_count(failures_at(m, ip, ts, max_failures, lock_secs), ip) == (ts.len() as int) % (max_failures as int),
        ts.len() >= 1 ==> failure_step(
            failures_at(m, ip, ts.drop_last(), max_failures, lock_secs),
            ip,
            ts.last(),
            max_failures,
            lock_secs,
        ).0 == (if (ts.len() as int) % (max_failures as int) == 0 {
            Some(lock_secs)
        } else {
            None
        }),
    decreases ts.len(),
{
    let d = max_failures as int;
    let k = ts.len() as int;
    if k == 0 {
        assert(0int % d == 0) by {
            vstd::arithmetic::div_mod::lemma_fundamental_div_mod_converse(0, d, 0, 0);
        }
    } else {
        let prev_ts = ts.drop_last();
        assert forall|j: int| 0 <= j < prev_ts.len() implies !is_locked(
            failures_at(m, ip, prev_ts.take(j), max_failures, lock_secs),
            ip,
            #[trigger] prev_ts[j],
        ) by {
            assert(prev_ts.take(j) =~= ts.take(j));
            assert(prev_ts[j] == ts[j]);
        }
        lockouts_are_periodic(m, ip, prev_ts, max_failures, lock_secs);
        let prev = failures_at(m, ip, prev_ts, max_failures, lock_secs);
        assert(ts.take(k - 1) =~= prev_ts);
        assert(!is_locked(prev, ip, ts[k - 1]));
        let r = (k - 1) % d;
        let q = (k - 1) / d;
        vstd::arithmetic::div_mod::lemma_fundamental_div_mod(k - 1, d);
        assert(0 <= r < d) by {
            vstd::arithmetic::div_mod::lemma_mod_bound(k - 1, d);
        }
        assert(failure_count(prev, ip) == r);
        if r + 1 == d {
            assert(k == (q + 1) * d + 0) by (nonlinear_arith)
                requires
                    k - 1 == d * q + r,
                    r + 1 == d,
            ;
            vstd::arithmetic::div_mod::lemma_fundamental_div_mod_converse(k, d, q + 1, 0);
        } else {
            assert(k == q * d + (r + 1)) by (nonlinear_arith)
                requires
                    k - 1 == d * q + r,
            ;
            vstd::arithmetic::div_mod::lemma_fundamental_div_mod_converse(k, d, q, r + 1);
        }
    }
}

/// Every limiter that `RateLimiter::new` and the limiter's operations can
/// reach keeps its entries `limiter_entries_ok`: a count below the maximum
/// with no lock, or a lock with the count at 0; so counting never overflows.
pub proof fn limiter_entries_stay_ok(r: RateLimiter)
    requires
        r.wf(),
    ensures
        limiter_entries_ok(r@, r.max_failures()),
        r.max_failures() >= 1 ==> forall|k: Seq<char>| #[trigger] r@.contains_key(k) ==> r@[k].0 < r.max_failures(),
{
    r.lemma_entries_ok();
}

/// A failure during a lockout neither lifts nor shortens it.
pub proof fn failure_keeps_running_lock(
    m: Map<Seq<char>, (u32, u64)>,
    ip: Seq<char>,
    now: u64,
    max_failures: u32,
    lock_secs: u64,
)
    requires
        is_locked(m, ip, now),
    ensures
        failure_step(m, ip, now, max_failures, lock_secs) == (None::<u64>, m),
{
}

/// The session guard passes a request exactly when its path is open or its
/// cookie names a session still unexpired at the time of the request; and it
/// drops no session but expired ones.
pub proof fn gate_forwards_exactly_live_sessions(m: SessionMap, path: Seq<char>, cookie: Option<Seq<char>>, t: u64)
    ensures
        (gate_step(m, path, cookie, t).0 == GateDecision::Forward) == (is_open_path(path) || has_live_named_session(
            m,
            cookie,
            t,
        )),
        only_expired_dropped(m, gate_step(m, path, cookie, t).1, t),
{
    lemma_cookie_session(m, cookie, t);
}

/// A session cookie `sid` whose session has expired by the time of the
/// request (or is unknown) is sent to the login page from every guarded path.
pub proof fn expired_session_turned_away(m: SessionMap, path: Seq<char>, sid: Seq<char>, t: u64)
    requires
        is_hex_token(sid, 24),
        !is_open_path(path),
        m.contains_key(sid) ==> m[sid].1 <= t,
    ensures
        gate_step(m, path, Some(session_cookie_pair(sid)), t).0 == GateDecision::RedirectToLogin,
{
    session_cookie_round_trip(sid);
    let cookie = Some(session_cookie_pair(sid));
    lemma_cookie_session(m, cookie, t);
    assert forall|k: Seq<char>| !(#[trigger] cookie_names(cookie, k) && m.contains_key(k) && m[k].1 > t) by {
        if cookie_names(cookie, k) {
            let i = choose|i: int| 0 <= i < seq![sid].len() && seq![sid][i] == k;
            assert(k == sid);
        }
    }
}

/// A logout ends at most one unexpired session, one the cookie names, and
/// ends one whenever the cookie names any; it adds or changes none.
pub proof fn logout_ends_only_named_session(m: SessionMap, cookie: Option<Seq<char>>, t: u64)
    ensures
        ends_only_named_session(m, logout_sessions(m, cookie, t), cookie, t),
{
    lemma_logout_sessions(m, cookie, t);
}

/// Logging out session `a` in one browser leaves another unexpired session
/// `b` in place, unchanged, and the session guard still passes `b`'s cookie.
pub proof fn logout_keeps_other_live_sessions(m: SessionMap, a: Seq<char>, b: Seq<char>, t: u64, path: Seq<char>)
    requires
        is_hex_token(a, 24),
        is_hex_token(b, 24),
        a != b,
        m.contains_key(b),
        m[b].1 > t,
    ensures
        logout_sessions(m, Some(session_cookie_pair(a)), t).contains_key(b),
        logout_sessions(m, Some(session_cookie_pair(a)), t)[b] == m[b],
        gate_step(logout_sessions(m, Some(session_cookie_pair(a)), t), path, Some(session_cookie_pair(b)), t).0
            == GateDecision::Forward,
{
    session_cookie_round_trip(a);
    session_cookie_round_trip(b);
    let ca = Some(session_cookie_pair(a));
    let cb = Some(session_cookie_pair(b));
    lemma_logout_sessions(m, ca, t);
    let m2 = logout_sessions(m, ca, t);
    assert(!cookie_names(ca, b)) by {
        if cookie_names(ca, b) {
            let i = choose|i: int| 0 <= i < seq![a].len() && seq![a][i] == b;
        }
    }
    assert(m2.contains_key(b));
    lemma_cookie_session(m2, cb, t);
    assert(seq![b][0] == b);
    assert(cookie_names(cb, b));
}

/// An accepted login at time `t` opens its session for the form's username,
/// expiring `SESSION_TTL_SECS` (12 hours) after `t`; the attempt came from an
/// IP not locked out at `t`, with a CSRF token unexpired at `t`, which is now
/// used up.
pub proof fn accepted_login_session_lasts_ttl(
    a0: AuthState,
    a1: AuthState,
    ip: Seq<char>,
    form: LoginForm,
    t: u64,
    sid: Seq<char>,
    r: ReplyView,
)
    requires
        login_effect(a0, a1, ip, form, t, sid, LoginVerdict::Accepted, r),
    ensures
        a1.sessions@.contains_key(sid),
        a1.sessions@[sid] == (form.username@, expiry_after(t, SESSION_TTL_SECS)),
        t + SESSION_TTL_SECS <= u64::MAX ==> a1.sessions@[sid].1 == t + SESSION_TTL_SECS,
        !is_locked(a0.limiter@, ip, t),
        a0.csrf@.contains_key(form.csrf@) && a0.csrf@[form.csrf@] > t,
        a1.csrf@ == a0.csrf@.remove(form.csrf@),
{
}

/// A token that the login page admitted at time `t` no longer lets a form in
/// once `CSRF_TTL_SECS` (10 minutes) have passed: such a form is refused as
/// expired (or, from a locked-out IP, as locked), whatever its credentials.
pub proof fn page_token_refused_after_ttl(
    a0: AuthState,
    a1: AuthState,
    token: Seq<char>,
    t: u64,
    ip: Seq<char>,
    form: LoginForm,
    t2: u64,
    password_ok: bool,
)
    requires
        a1.csrf@ == a0.csrf@.insert(token, expiry_after(t, CSRF_TTL_SECS)),
        form.csrf@ == token,
        t2 >= expiry_after(t, CSRF_TTL_SECS),
    ensures
        login_step(a1, ip, form, t2, password_ok).0 is Locked || login_step(a1, ip, form, t2, password_ok).0 is FormExpired,
{
}

/// Resetting one IP leaves every other IP's running lockout in place, entry
/// unchanged, so that IP stays locked until its lock runs out.
pub proof fn reset_keeps_running_locks(m: Map<Seq<char>, (u32, u64)>, ip: Seq<char>, other: Seq<char>, t: u64, t2: u64)
    requires
        other != ip,
        is_locked(m, other, t),
    ensures
        reset_step(m, ip, t).contains_key(other),
        reset_step(m, ip, t)[other] == m[other],
        is_locked(reset_step(m, ip, t), other, t2) == is_locked(m, other, t2),
{
    assert(m.remove(ip).contains_key(other));
}

} // verus!
