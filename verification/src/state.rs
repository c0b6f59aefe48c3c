//! In-memory stores: login sessions, one-time CSRF tokens, and per-IP login
//! failure accounting.
//!
//! Each operation that reads the clock has a twin ending in `_at` that takes
//! the time as an argument and whose contract pins its result down exactly;
//! the operation itself gives the twin's result at a reading of the clock
//! (`is_clock_reading`), which only `now` hands out.
use std::time::Duration;
use vstd::prelude::*;

use crate::clock::{duration_secs, duration_whole_secs, expiry_after, expiry_at, is_clock_reading};
use crate::table::{keep_where, Table};
use crate::token::is_hex_token;

pub use crate::clock::now;
pub use crate::token::random_hex;

verus! {

/// Sessions as a map: session id -> (username, expiry in epoch seconds).
pub type SessionMap = Map<Seq<char>, (Seq<char>, u64)>;

/// Checking session `id` at time `now`: whether it is valid (present and
/// expiring after `now`), and the store afterwards, where a present but
/// expired session has been dropped.
pub open spec fn session_check(m: SessionMap, id: Seq<char>, now: u64) -> (bool, SessionMap) {
    if m.contains_key(id) {
        if m[id].1 > now {
            (true, m)
        } else {
            (false, m.remove(id))
        }
    } else {
        (false, m)
    }
}

/// Consuming CSRF `token` at time `now`: whether it was present and still
/// unexpired, and the store afterwards, where it is gone in every case.
pub open spec fn csrf_take(m: Map<Seq<char>, u64>, token: Seq<char>, now: u64) -> (bool, Map<Seq<char>, u64>) {
    (m.contains_key(token) && m[token] > now, m.remove(token))
}

/// The failure count recorded for `ip` (0 when there is no entry).
pub open spec fn failure_count(m: Map<Seq<char>, (u32, u64)>, ip: Seq<char>) -> u32 {
    if m.contains_key(ip) {
        m[ip].0
    } else {
        0
    }
}

/// `ip` is locked out at time `now`.
pub open spec fn is_locked(m: Map<Seq<char>, (u32, u64)>, ip: Seq<char>, now: u64) -> bool {
    m.contains_key(ip) && m[ip].1 > now
}

/// Recording a login failure for `ip` at time `now`. While `ip` is locked
/// out the failure changes nothing and nothing is reported, so a running lock
/// keeps its full length. Otherwise, when this failure brings the count to
/// `max_failures`, the count restarts at 0, `ip` is locked for `lock_secs` and
/// `Some(lock_secs)` is reported; else the count grows by one, with no lock,
/// and `None` is reported.
pub open spec fn failure_step(
    m: Map<Seq<char>, (u32, u64)>,
    ip: Seq<char>,
    now: u64,
    max_failures: u32,
    lock_secs: u64,
) -> (Option<u64>, Map<Seq<char>, (u32, u64)>) {
    if is_locked(m, ip, now) {
        (None, m)
    } else {
        let count = failure_count(m, ip) + 1;
        if count >= max_failures {
            (Some(lock_secs), m.insert(ip, (0u32, expiry_after(now, lock_secs))))
        } else {
            (None, m.insert(ip, (count as u32, 0u64)))
        }
    }
}

/// An entry whose lockout has run out by `now` (it carries nothing any more).
pub open spec fn lockout_over(e: (u32, u64), now: u64) -> bool {
    e.1 != 0 && e.1 <= now
}

/// Resetting `ip` at time `now`: its entry goes, and so does every entry whose
/// lockout has run out.
pub open spec fn reset_step(m: Map<Seq<char>, (u32, u64)>, ip: Seq<char>, now: u64) -> Map<Seq<char>, (u32, u64)> {
    keep_where(m.remove(ip), |e: (u32, u64)| !lockout_over(e, now))
}

/// Every entry is either a running failure count below `max_failures` with no
/// lock, or a lock with the count restarted at 0.
pub open spec fn limiter_entries_ok(m: Map<Seq<char>, (u32, u64)>, max_failures: u32) -> bool {
    forall|k: Seq<char>|
        #[trigger] m.contains_key(k) ==> (m[k].0 == 0 || (m[k].0 < max_failures && m[k].1 == 0))
}

/// In-memory login sessions: id -> (username, expiry epoch seconds).
pub struct SessionStore {
    table: Table<(String, u64)>,
}

impl View for SessionStore {
    type V = SessionMap;

    closed spec fn view(&self) -> SessionMap {
        self.table@.map_values(|v: (String, u64)| (v.0@, v.1))
    }
}

impl SessionStore {
    /// The store is well formed.
    pub closed spec fn wf(&self) -> bool {
        self.table.wf()
    }

    /// An empty store.
    pub fn new() -> (s: Self)
        ensures
            s.wf(),
            s@ == SessionMap::empty(),
    {
        let s = SessionStore { table: Table::new() };
        assert(s@ =~= SessionMap::empty());
        s
    }

    /// Record session `id` for `username`, expiring `ttl_secs` after `now`.
    pub fn insert_at(&mut self, id: String, username: String, ttl_secs: u64, now: u64)
        requires
            old(self).wf(),
        ensures
            final(self).wf(),
            final(self)@ == old(self)@.insert(id@, (username@, expiry_after(now, ttl_secs))),
    {
        let ghost k = id@;
        let ghost u = username@;
        let expiry = expiry_at(now, ttl_secs);
        self.table.insert(id, (username, expiry));
        assert(self@ =~= old(self)@.insert(k, (u, expiry)));
    }

    /// Record session `id` for `username`, expiring `ttl` after the current time.
    pub fn insert(&mut self, id: String, username: String, ttl: Duration)
        requires
            old(self).wf(),
        ensures
            final(self).wf(),
            exists|t: u64|
                #[trigger] is_clock_reading(t) && final(self)@ == old(self)@.insert(
                    id@,
                    (username@, expiry_after(t, duration_whole_secs(ttl))),
                ),
    {
        let t = now();
        let secs = duration_secs(ttl);
        self.insert_at(id, username, secs, t);
    }

    /// Whether session `id` is valid at `now`; an expired session is dropped.
    pub fn valid_at(&mut self, id: &str, now: u64) -> (ok: bool)
        requires
            old(self).wf(),
        ensures
            final(self).wf(),
            (ok, final(self)@) == session_check(old(self)@, id@, now),
    {
        let key = id.to_owned();
        let expired = match self.table.get(&key) {
            Some(v) => {
                if v.1 > now {
                    return true;
                }
                true
            },
            None => false,
        };
        if expired {
            self.table.remove(&key);
            assert(self@ =~= old(self)@.remove(id@));
        }
        false
    }

    /// Whether session `id` is valid now; an expired session is dropped.
    pub fn valid(&mut self, id: &str) -> (ok: bool)
        requires
            old(self).wf(),
        ensures
            final(self).wf(),
            exists|t: u64| #[trigger] is_clock_reading(t) && (ok, final(self)@) == session_check(old(self)@, id@, t),
    {
        let t = now();
        self.valid_at(id, t)
    }

    /// Drop session `id`.
    pub fn remove(&mut self, id: &str)
        requires
            old(self).wf(),
        ensures
            final(self).wf(),
            final(self)@ == old(self)@.remove(id@),
    {
        let key = id.to_owned();
        self.table.remove(&key);
        assert(self@ =~= old(self)@.remove(id@));
    }
}

/// One-time CSRF tokens for the login form: token -> expiry.
pub struct CsrfStore {
    table: Table<u64>,
}

impl View for CsrfStore {
    type V = Map<Seq<char>, u64>;

    closed spec fn view(&self) -> Map<Seq<char>, u64> {
        self.table@
    }
}

impl CsrfStore {
    /// The store is well formed.
    pub closed spec fn wf(&self) -> bool {
        self.table.wf()
    }

    /// An empty store.
    pub fn new() -> (s: Self)
        ensures
            s.wf(),
            s@ == Map::<Seq<char>, u64>::empty(),
    {
        CsrfStore { table: Table::new() }
    }

    /// Admit `token`, expiring `ttl_secs` after `now`.
    pub fn register_at(&mut self, token: String, ttl_secs: u64, now: u64)
        requires
            old(self).wf(),
        ensures
            final(self).wf(),
            final(self)@ == old(self)@.insert(token@, expiry_after(now, ttl_secs)),
    {
        let expiry = expiry_at(now, ttl_secs);
        self.table.insert(token, expiry);
    }

    /// Issue a fresh random token (32 hex digits) that expires `ttl` from now.
    pub fn issue(&mut self, ttl: Duration) -> (token: String)
        requires
            old(self).wf(),
        ensures
            final(self).wf(),
            is_hex_token(token@, 16),
            exists|t: u64|
                #[trigger] is_clock_reading(t) && final(self)@ == old(self)@.insert(
                    token@,
                    expiry_after(t, duration_whole_secs(ttl)),
                ),
    {
        let token = random_hex(16);
        let t = now();
        let secs = duration_secs(ttl);
        self.register_at(token.clone(), secs, t);
        token
    }

    /// Consume a token at `now`; one-time use.
    pub fn consume_at(&mut self, token: &str, now: u64) -> (ok: bool)
        requires
            old(self).wf(),
        ensures
            final(self).wf(),
            (ok, final(self)@) == csrf_take(old(self)@, token@, now),
    {
        let key = token.to_owned();
        match self.table.remove(&key) {
            Some(expiry) => expiry > now,
            None => false,
        }
    }

    /// Consume a token; one-time use.
    pub fn consume(&mut self, token: &str) -> (ok: bool)
        requires
            old(self).wf(),
        ensures
            final(self).wf(),
            exists|t: u64| #[trigger] is_clock_reading(t) && (ok, final(self)@) == csrf_take(old(self)@, token@, t),
    {
        let t = now();
        self.consume_at(token, t)
    }
}

/// Per-IP login failure accounting: failures and lock-until.
pub struct RateLimiter {
    table: Table<(u32, u64)>,
    max_failures: u32,
    lock_secs: u64,
}

impl View for RateLimiter {
    type V = Map<Seq<char>, (u32, u64)>;

    closed spec fn view(&self) -> Map<Seq<char>, (u32, u64)> {
        self.table@
    }
}

impl RateLimiter {
    /// The limiter is well formed: its entries are `limiter_entries_ok`.
    pub closed spec fn wf(&self) -> bool {
        &&& self.table.wf()
        &&& limiter_entries_ok(self.table@, self.max_failures)
    }

    /// A well-formed limiter's entries are `limiter_entries_ok`: a running
    /// count stays below `max_failures` and carries no lock, and a lock comes
    /// with the count restarted at 0.
    pub proof fn lemma_entries_ok(&self)
        requires
            self.wf(),
        ensures
            limiter_entries_ok(self@, self.max_failures()),
            self.max_failures() >= 1 ==> forall|k: Seq<char>|
                #[trigger] self@.contains_key(k) ==> self@[k].0 < self.max_failures(),
    {
    }

    /// The number of failures that triggers a lockout.
    pub closed spec fn max_failures(&self) -> u32 {
        self.max_failures
    }

    /// The length of a lockout in seconds.
    pub closed spec fn lock_secs(&self) -> u64 {
        self.lock_secs
    }

    /// A limiter with no entries.
    pub fn new(max_failures: u32, lock_secs: u64) -> (r: Self)
        ensures
            r.wf(),
            r@ == Map::<Seq<char>, (u32, u64)>::empty(),
            r.max_failures() == max_failures,
            r.lock_secs() == lock_secs,
    {
        assert(limiter_entries_ok(Map::<Seq<char>, (u32, u64)>::empty(), max_failures));
        RateLimiter { table: Table::new(), max_failures, lock_secs }
    }

    /// Reset `ip` (after a successful login) at time `now`. Also reaps the
    /// entries whose lockout has run out.
    pub fn reset_at(&mut self, ip: &str, now: u64)
        requires
            old(self).wf(),
        ensures
            final(self).wf(),
            final(self)@ == reset_step(old(self)@, ip@, now),
            final(self).max_failures() == old(self).max_failures(),
            final(self).lock_secs() == old(self).lock_secs(),
    {
        let key = ip.to_owned();
        self.table.remove(&key);
        let ghost p = |e: (u32, u64)| !lockout_over(e, now);
        let keep = |e: &(u32, u64)| -> (b: bool)
            ensures
                b == !lockout_over(*e, now),
            { !(e.1 != 0 && e.1 <= now) };
        self.table.retain(keep, Ghost(p));
        assert(self@ =~= reset_step(old(self)@, ip@, now));
    }

    /// Reset `ip` (after a successful login). Also reaps the entries whose
    /// lockout has run out.
    pub fn reset(&mut self, ip: &str)
        requires
            old(self).wf(),
        ensures
            final(self).wf(),
            exists|t: u64| #[trigger] is_clock_reading(t) && final(self)@ == reset_step(old(self)@, ip@, t),
            final(self).max_failures() == old(self).max_failures(),
            final(self).lock_secs() == old(self).lock_secs(),
    {
        let t = now();
        self.reset_at(ip, t);
    }

    /// True when `ip` is locked out at `now`.
    pub fn locked_at(&self, ip: &str, now: u64) -> (r: bool)
        requires
            self.wf(),
        ensures
            r == is_locked(self@, ip@, now),
    {
        let key = ip.to_owned();
        match self.table.get(&key) {
            Some(e) => e.1 > now,
            None => false,
        }
    }

    /// True when `ip` is locked out right now.
    pub fn locked(&self, ip: &str) -> (r: bool)
        requires
            self.wf(),
        ensures
            exists|t: u64| #[trigger] is_clock_reading(t) && r == is_locked(self@, ip@, t),
    {
        let t = now();
        self.locked_at(ip, t)
    }

    /// Record a failure at `now`; returns `Some(seconds of lockout)` when `ip`
    /// just crossed into a lockout, else `None`. A failure while `ip` is locked
    /// out changes nothing.
    pub fn record_failure_at(&mut self, ip: &str, now: u64) -> (r: Option<u64>)
        requires
            old(self).wf(),
        ensures
            final(self).wf(),
            (r, final(self)@) == failure_step(old(self)@, ip@, now, old(self).max_failures(), old(self).lock_secs()),
            final(self).max_failures() == old(self).max_failures(),
            final(self).lock_secs() == old(self).lock_secs(),
    {
        let key = ip.to_owned();
        let count: u32 = match self.table.get(&key) {
            Some(e) => {
                if e.1 > now {
                    return None;
                }
                e.0
            },
            None => 0,
        };
        let count = count + 1;
        if count >= self.max_failures {
            let until = expiry_at(now, self.lock_secs);
            self.table.insert(key, (0, until));
            Some(self.lock_secs)
        } else {
            self.table.insert(key, (count, 0));
            None
        }
    }

    /// Record a failure; returns `Some(seconds of lockout)` when `ip` just
    /// crossed into a lockout, else `None`. A failure while `ip` is locked out
    /// changes nothing.
    pub fn record_failure(&mut self, ip: &str) -> (r: Option<u64>)
        requires
            old(self).wf(),
        ensures
            final(self).wf(),
            exists|t: u64|
                #[trigger] is_clock_reading(t) && (r, final(self)@) == failure_step(
                    old(self)@,
                    ip@,
                    t,
                    old(self).max_failures(),
                    old(self).lock_secs(),
                ),
            final(self).max_failures() == old(self).max_failures(),
            final(self).lock_secs() == old(self).lock_secs(),
    {
        let t = now();
        self.record_failure_at(ip, t)
    }
}

} // verus!
