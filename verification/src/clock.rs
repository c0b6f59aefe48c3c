//! Wall-clock time in whole seconds since the Unix epoch, and expiry times.
use std::time::{Duration, SystemTime, UNIX_EPOCH};
use vstd::prelude::*;

verus! {

#[verifier::external_type_specification]
#[verifier::external_body]
pub struct ExSystemTime(SystemTime);

/// Whole seconds held by a `Duration`, as `Duration::as_secs` reports them.
pub uninterp spec fn duration_whole_secs(d: Duration) -> u64;

/// Calls `Duration::as_secs`: the number of whole seconds in `d`, named
/// `duration_whole_secs(d)`.
#[verifier::external_body]
pub(crate) fn duration_secs(d: Duration) -> (secs: u64)
    ensures
        secs == duration_whole_secs(d),
{
    d.as_secs()
}

/// Calls `SystemTime::now`. The reading depends on the machine's clock, so
/// nothing is promised about it.
#[verifier::external_body]
fn system_now() -> SystemTime {
    SystemTime::now()
}

/// Calls `SystemTime::duration_since` with `UNIX_EPOCH`: the time elapsed
/// since the epoch, or `None` when `t` lies before it. Nothing is promised
/// about the value, which depends on the clock reading `t`.
#[verifier::external_body]
fn since_unix_epoch(t: &SystemTime) -> Option<Duration> {
    t.duration_since(UNIX_EPOCH).ok()
}

/// Whole seconds since the Unix epoch for a clock reading `since` past the
/// epoch (`None` for a reading before it, which counts as 0).
pub open spec fn epoch_secs_of(since: Option<Duration>) -> u64 {
    match since {
        Some(d) => duration_whole_secs(d),
        None => 0,
    }
}

/// `t` is a value the wall clock can report: the whole seconds since the
/// epoch of some reading of it (0 for a reading before the epoch). Only the
/// clock itself hands such values out, so outside this module the definition
/// stays closed: a time that a contract calls a clock reading came from `now`.
pub closed spec fn is_clock_reading(t: u64) -> bool {
    exists|since: Option<Duration>| t == #[trigger] epoch_secs_of(since)
}

/// A clock reading is the whole seconds since the epoch of some reading.
pub proof fn lemma_clock_reading(t: u64)
    requires
        is_clock_reading(t),
    ensures
        exists|since: Option<Duration>| t == #[trigger] epoch_secs_of(since),
{
}

/// Computes `epoch_secs_of(since)`.
pub fn epoch_secs(since: Option<Duration>) -> (secs: u64)
    ensures
        secs == epoch_secs_of(since),
{
    match since {
        Some(d) => duration_secs(d),
        None => 0,
    }
}

/// The current time in whole seconds since the Unix epoch; 0 when the clock
/// reads earlier than the epoch. Which reading it is depends on the clock.
pub fn now() -> (secs: u64)
    ensures
        is_clock_reading(secs),
        exists|since: Option<Duration>| secs == epoch_secs_of(since),
{
    let t = system_now();
    let since = since_unix_epoch(&t);
    epoch_secs(since)
}

/// The expiry time `ttl` seconds after `now`; an expiry past the end of the
/// `u64` clock is held at `u64::MAX`.
pub open spec fn expiry_after(now: u64, ttl: u64) -> u64 {
    if now + ttl <= u64::MAX {
        (now + ttl) as u64
    } else {
        u64::MAX
    }
}

/// Computes `expiry_after(now, ttl)`.
pub fn expiry_at(now: u64, ttl: u64) -> (e: u64)
    ensures
        e == expiry_after(now, ttl),
{
    now.saturating_add(ttl)
}

} // verus!
