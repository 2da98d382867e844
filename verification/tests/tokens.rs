//! Scenarios for the credential pool: selection by remaining quota and
//! recorded outcomes.

use gitfleet::token::{RecordOutcome, TokenPool};

fn observed(limit: u32, remaining: u32, reset_time: u64, used: u32) -> RecordOutcome {
    RecordOutcome::Observed {
        limit,
        remaining,
        reset_time,
        used,
    }
}

#[test]
fn empty_pool_selects_nothing() {
    let p = TokenPool::new();
    assert!(p.select(0).is_none());
}

#[test]
fn select_prefers_most_remaining() {
    let mut p = TokenPool::new();
    assert!(p.add("alpha".to_string(), "sa".to_string()));
    assert!(p.add("beta".to_string(), "sb".to_string()));
    assert!(p.record("alpha", observed(5000, 100, 900, 4900), 10));
    assert!(p.record("beta", observed(5000, 4000, 900, 1000), 11));
    let (i, exhausted) = p.select(50).expect("nonempty pool");
    assert_eq!(p.entry_at(i).identifier, "beta");
    assert!(!exhausted);
}

#[test]
fn select_breaks_ties_by_oldest_use() {
    let mut p = TokenPool::new();
    assert!(p.add("early".to_string(), "se".to_string()));
    assert!(p.add("late".to_string(), "sl".to_string()));
    assert!(p.record("early", observed(5000, 300, 900, 4700), 10));
    assert!(p.record("late", observed(5000, 300, 900, 4700), 99));
    let (i, _) = p.select(100).expect("nonempty pool");
    assert_eq!(p.entry_at(i).identifier, "early");
}

#[test]
fn exhausted_entry_is_flagged_but_returned() {
    let mut p = TokenPool::new();
    assert!(p.add("only".to_string(), "s".to_string()));
    assert!(p.record("only", RecordOutcome::RateLimited { reset_time: 2000 }, 10));
    let (i, exhausted) = p.select(1500).expect("nonempty pool");
    assert_eq!(p.entry_at(i).identifier, "only");
    assert!(exhausted);
    let (_, past_reset) = p.select(2500).expect("nonempty pool");
    assert!(!past_reset);
}

#[test]
fn used_ok_consumes_one_unit() {
    let mut p = TokenPool::new();
    assert!(p.add("a".to_string(), "s".to_string()));
    assert!(p.record("a", observed(100, 40, 900, 60), 10));
    assert!(p.record("a", RecordOutcome::UsedOk, 20));
    let e = p.entry_at(0);
    assert_eq!(e.remaining, 39);
    assert_eq!(e.used, 61);
    assert_eq!(e.last_used, 20);
    assert!(e.used + e.remaining <= e.limit);
}

#[test]
fn observation_overwrites_and_keeps_invariant() {
    let mut p = TokenPool::new();
    assert!(p.add("a".to_string(), "s".to_string()));
    assert!(p.record("a", observed(100, 90, 900, 95), 10));
    let e = p.entry_at(0);
    assert_eq!(e.limit, 100);
    assert_eq!(e.remaining, 90);
    assert!(e.used + e.remaining <= e.limit);
    assert!(p.record("a", observed(100, 100, 1800, 0), 20));
    let e = p.entry_at(0);
    assert_eq!(e.remaining, 100);
    assert_eq!(e.used, 0);
    assert_eq!(e.reset_time, 1800);
}

#[test]
fn duplicate_identifier_is_refused() {
    let mut p = TokenPool::new();
    assert!(p.add("a".to_string(), "s1".to_string()));
    assert!(!p.add("a".to_string(), "s2".to_string()));
    assert_eq!(p.len(), 1);
}

#[test]
fn recording_unknown_identifier_reports_false() {
    let mut p = TokenPool::new();
    assert!(p.add("a".to_string(), "s".to_string()));
    assert!(!p.record("b", RecordOutcome::UsedOk, 5));
}
