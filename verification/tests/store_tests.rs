use std::time::Duration;

use dsh_gate::clock::{epoch_secs, expiry_at, now};
use dsh_gate::state::{CsrfStore, RateLimiter, SessionStore};

#[test]
fn session_valid_until_expiry() {
    let mut s = SessionStore::new();
    s.insert_at("sid1".to_string(), "alice".to_string(), 100, 1000);
    assert!(s.valid_at("sid1", 1000));
    assert!(s.valid_at("sid1", 1099));
    assert!(!s.valid_at("sid1", 1100));
    // The expired session was dropped: even an earlier time no longer finds it.
    assert!(!s.valid_at("sid1", 1000));
}

#[test]
fn session_unknown_id_invalid() {
    let mut s = SessionStore::new();
    s.insert_at("a".to_string(), "alice".to_string(), 100, 1000);
    assert!(!s.valid_at("b", 1000));
    assert!(s.valid_at("a", 1000));
}

#[test]
fn session_removed_invalid() {
    let mut s = SessionStore::new();
    s.insert_at("a".to_string(), "alice".to_string(), 100, 1000);
    s.insert_at("b".to_string(), "bob".to_string(), 100, 1000);
    s.remove("a");
    assert!(!s.valid_at("a", 1000));
    assert!(s.valid_at("b", 1000));
    s.remove("missing");
    assert!(s.valid_at("b", 1000));
}

#[test]
fn session_reinsert_replaces_expiry() {
    let mut s = SessionStore::new();
    s.insert_at("a".to_string(), "alice".to_string(), 10, 1000);
    s.insert_at("a".to_string(), "alice".to_string(), 100, 1000);
    assert!(s.valid_at("a", 1050));
}

#[test]
fn session_expiry_saturates() {
    let mut s = SessionStore::new();
    s.insert_at("a".to_string(), "alice".to_string(), u64::MAX, 5);
    assert!(s.valid_at("a", u64::MAX - 1));
    assert!(!s.valid_at("a", u64::MAX));
    assert_eq!(expiry_at(5, u64::MAX), u64::MAX);
    assert_eq!(expiry_at(5, 10), 15);
}

#[test]
fn session_with_clock() {
    let mut s = SessionStore::new();
    s.insert("a".to_string(), "alice".to_string(), Duration::from_secs(3600));
    assert!(s.valid("a"));
    s.insert("z".to_string(), "zed".to_string(), Duration::from_secs(0));
    assert!(!s.valid("z"));
    assert!(!s.valid("none"));
}

#[test]
fn clock_reads_epoch_seconds() {
    let t = now();
    // Later than 2020-01-01.
    assert!(t > 1_577_836_800);
}

#[test]
fn csrf_token_is_one_time() {
    let mut c = CsrfStore::new();
    c.register_at("tok".to_string(), 600, 1000);
    assert!(c.consume_at("tok", 1000));
    assert!(!c.consume_at("tok", 1000));
}

#[test]
fn csrf_token_expires() {
    let mut c = CsrfStore::new();
    c.register_at("tok".to_string(), 600, 1000);
    assert!(!c.consume_at("tok", 1600));
    // Consumed (and gone) even though it had expired.
    c.register_at("tok2".to_string(), 600, 1000);
    assert!(c.consume_at("tok2", 1599));
}

#[test]
fn csrf_unknown_token_refused() {
    let mut c = CsrfStore::new();
    assert!(!c.consume_at("nope", 0));
    assert!(!c.consume("nope"));
}

#[test]
fn csrf_issue_then_consume() {
    let mut c = CsrfStore::new();
    let t = c.issue(Duration::from_secs(600));
    assert_eq!(t.len(), 32);
    assert!(t.chars().all(|ch| ch.is_ascii_digit() || ('a'..='f').contains(&ch)));
    assert!(c.consume(&t));
    assert!(!c.consume(&t));
}

#[test]
fn csrf_issue_tokens_differ() {
    let mut c = CsrfStore::new();
    let a = c.issue(Duration::from_secs(600));
    let b = c.issue(Duration::from_secs(600));
    assert_ne!(a, b);
}

#[test]
fn limiter_locks_after_max_failures() {
    let mut l = RateLimiter::new(5, 300);
    for _ in 0..4 {
        assert_eq!(l.record_failure_at("1.2.3.4", 1000), None);
        assert!(!l.locked_at("1.2.3.4", 1000));
    }
    assert_eq!(l.record_failure_at("1.2.3.4", 1000), Some(300));
    assert!(l.locked_at("1.2.3.4", 1000));
    assert!(l.locked_at("1.2.3.4", 1299));
    assert!(!l.locked_at("1.2.3.4", 1300));
    assert!(!l.locked_at("5.6.7.8", 1000));
}

#[test]
fn limiter_count_restarts_after_lock() {
    let mut l = RateLimiter::new(2, 300);
    assert_eq!(l.record_failure_at("ip", 0), None);
    assert_eq!(l.record_failure_at("ip", 0), Some(300));
    // After the lock the count starts again from zero.
    assert_eq!(l.record_failure_at("ip", 400), None);
    assert!(!l.locked_at("ip", 400));
    assert_eq!(l.record_failure_at("ip", 400), Some(300));
    assert!(l.locked_at("ip", 400));
}

#[test]
fn limiter_max_one_locks_at_once() {
    let mut l = RateLimiter::new(1, 60);
    assert_eq!(l.record_failure_at("ip", 10), Some(60));
    assert!(l.locked_at("ip", 69));
    assert!(!l.locked_at("ip", 70));
}

#[test]
fn limiter_reset_clears() {
    let mut l = RateLimiter::new(3, 300);
    l.record_failure_at("ip", 0);
    l.record_failure_at("ip", 0);
    l.reset_at("ip", 0);
    assert_eq!(l.record_failure_at("ip", 0), None);
    assert_eq!(l.record_failure_at("ip", 0), None);
    assert_eq!(l.record_failure_at("ip", 0), Some(300));
    l.reset_at("ip", 1);
    assert!(!l.locked_at("ip", 1));
}

#[test]
fn limiter_reset_keeps_other_ips() {
    let mut l = RateLimiter::new(2, 300);
    l.record_failure_at("a", 0);
    l.record_failure_at("b", 0);
    l.record_failure_at("b", 0);
    l.record_failure_at("c", 0);
    l.record_failure_at("c", 0);
    // At 500 the lock of "c" (until 300) has run out and is reaped; "b" too.
    l.reset_at("x", 500);
    assert!(!l.locked_at("b", 500));
    // "a" keeps its one failure: one more locks it.
    assert_eq!(l.record_failure_at("a", 500), Some(300));
    assert!(l.locked_at("a", 500));
}

#[test]
fn limiter_reset_before_lock_runs_out_keeps_lock() {
    let mut l = RateLimiter::new(1, 300);
    l.record_failure_at("b", 0);
    l.reset_at("x", 100);
    assert!(l.locked_at("b", 100));
}

#[test]
fn limiter_with_clock() {
    let mut l = RateLimiter::new(2, 300);
    assert_eq!(l.record_failure("ip"), None);
    assert!(!l.locked("ip"));
    assert_eq!(l.record_failure("ip"), Some(300));
    assert!(l.locked("ip"));
    l.reset("ip");
    assert!(!l.locked("ip"));
}

#[test]
fn epoch_seconds_of_reading() {
    assert_eq!(epoch_secs(None), 0);
    assert_eq!(epoch_secs(Some(Duration::from_millis(5_999))), 5);
}

#[test]
fn failure_during_lock_keeps_lock() {
    let mut l = RateLimiter::new(2, 300);
    l.record_failure_at("ip", 0);
    assert_eq!(l.record_failure_at("ip", 0), Some(300));
    assert_eq!(l.record_failure_at("ip", 100), None);
    assert_eq!(l.record_failure_at("ip", 100), None);
    assert!(l.locked_at("ip", 299));
    assert!(!l.locked_at("ip", 300));
}

#[test]
fn lockouts_repeat_every_max_failures() {
    let mut l = RateLimiter::new(3, 10);
    let mut t = 0;
    for k in 1..=9u64 {
        let r = l.record_failure_at("ip", t);
        assert_eq!(r, if k % 3 == 0 { Some(10) } else { None }, "failure {}", k);
        if r.is_some() {
            t += 10;
        }
    }
}
