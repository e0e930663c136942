use std::time::{Duration, Instant};
use view_latency::pending::PendingInserts;

fn spin(d: Duration) {
    let t = Instant::now();
    while t.elapsed() < d {}
}

#[test]
fn ids_are_handed_out_in_order() {
    let mut p = PendingInserts::new();
    assert_eq!(p.start(), 0);
    assert_eq!(p.start(), 1);
    assert_eq!(p.start(), 2);
    assert_eq!(p.oldest_pending(), Some(0));
}

#[test]
fn started_insert_is_confirmed_once() {
    let mut p = PendingInserts::new();
    let id = p.start();
    assert!(p.complete(id).is_some());
    assert_eq!(p.complete(id), None);
    assert_eq!(p.stats().count, 1);
    assert_eq!(p.oldest_pending(), None);
}

#[test]
fn unknown_id_changes_nothing() {
    let mut p = PendingInserts::new();
    let a = p.start();
    assert_eq!(p.complete(a + 7), None);
    assert_eq!(p.stats().count, 0);
    assert_eq!(p.oldest_pending(), Some(a));
}

#[test]
fn latency_measures_time_since_start() {
    let mut p = PendingInserts::new();
    let id = p.start();
    spin(Duration::from_millis(2));
    let latency = p.complete(id).unwrap();
    assert!(latency >= 2_000_000);
    assert!(latency < 60_000_000_000);
    let s = p.stats();
    assert_eq!((s.min, s.max, s.avg, s.p50, s.p99, s.count), (latency, latency, latency, latency, latency, 1));
}

#[test]
fn empty_stats_are_zero() {
    let p = PendingInserts::new();
    let s = p.stats();
    assert_eq!((s.avg, s.min, s.max, s.p50, s.p99, s.count), (0, 0, 0, 0, 0, 0));
}

#[test]
fn clear_latencies_keeps_pending_inserts() {
    let mut p = PendingInserts::new();
    let a = p.start();
    let b = p.start();
    assert!(p.complete(a).is_some());
    p.clear_latencies();
    assert_eq!(p.stats().count, 0);
    assert_eq!(p.oldest_pending(), Some(b));
    assert!(p.complete(b).is_some());
    assert_eq!(p.stats().count, 1);
}

#[test]
fn confirmations_go_oldest_first() {
    let mut p = PendingInserts::new();
    let a = p.start();
    let b = p.start();
    let c = p.start();
    assert!(!p.confirm_oldest(2));
    assert_eq!(p.oldest_pending(), Some(b));
    assert!(p.confirm_oldest(2));
    assert_eq!(p.oldest_pending(), Some(c));
    assert_eq!(p.complete(a), None);
    assert_eq!(p.complete(b), None);
    assert!(p.confirm_oldest(2));
    assert_eq!(p.oldest_pending(), None);
    assert_eq!(p.stats().count, 3);
}

#[test]
fn confirming_with_nothing_pending_changes_nothing() {
    let mut p = PendingInserts::new();
    assert!(!p.confirm_oldest(1));
    assert!(p.confirm_oldest(0));
    assert_eq!(p.stats().count, 0);
}

#[test]
fn oldest_pending_after_out_of_order_confirmations() {
    let mut p = PendingInserts::new();
    let ids: Vec<u64> = (0..50).map(|_| p.start()).collect();
    for id in ids.iter().filter(|id| *id % 3 != 2) {
        assert!(p.complete(*id).is_some());
    }
    assert_eq!(p.oldest_pending(), Some(2));
    assert!(p.complete(2).is_some());
    assert_eq!(p.oldest_pending(), Some(5));
}

#[test]
fn stats_report_extremes_and_count() {
    let mut p = PendingInserts::new();
    for _ in 0..10 {
        let id = p.start();
        p.complete(id);
    }
    let s = p.stats();
    assert_eq!(s.count, 10);
    assert!(s.min <= s.p50 && s.p50 <= s.p99 && s.p99 <= s.max);
    assert!(s.min <= s.avg && s.avg <= s.max);
}

#[test]
fn ids_are_never_reused() {
    let mut p = PendingInserts::new();
    let a = p.start();
    assert!(p.complete(a).is_some());
    let b = p.start();
    assert_ne!(a, b);
    assert_eq!(b, a + 1);
    assert_eq!(p.oldest_pending(), Some(b));
}

#[test]
fn pending_checked_stats_agree_with_stats() {
    let mut p = PendingInserts::new();
    for _ in 0..5 {
        let id = p.start();
        p.complete(id);
    }
    let a = p.stats();
    let b = p.checked_stats().unwrap();
    assert_eq!(
        (a.avg, a.min, a.max, a.p50, a.p99, a.count),
        (b.avg, b.min, b.max, b.p50, b.p99, b.count)
    );
}

#[test]
fn ids_increase_across_any_calls() {
    let mut p = PendingInserts::new();
    let mut last = p.start();
    for round in 0..20u64 {
        if round % 3 == 0 {
            p.clear_latencies();
        }
        p.complete(last);
        p.complete(round * 7);
        p.confirm_oldest(5);
        let next = p.start();
        assert!(next > last);
        last = next;
    }
}

#[test]
fn confirmed_insert_never_confirmed_again() {
    let mut p = PendingInserts::new();
    let a = p.start();
    assert!(p.complete(a).is_some());
    for _ in 0..10 {
        let b = p.start();
        p.clear_latencies();
        assert_eq!(p.complete(a), None);
        assert!(p.complete(b).is_some());
        assert_eq!(p.stats().count, 1);
    }
    assert_eq!(p.complete(a), None);
}

#[test]
fn both_tools_report_alike() {
    let mut p = PendingInserts::new();
    let mut t = view_latency::roundtrip::RoundtripTimer::new();
    for _ in 0..7 {
        let id = p.start();
        let latency = p.complete(id).unwrap();
        t.record(latency);
    }
    let a = p.stats();
    let b = t.stats();
    assert_eq!((a.avg, a.p50, a.p99), (b.avg, b.p50, b.p99));
}

#[test]
fn latency_runs_from_start_to_given_reading() {
    let mut p = PendingInserts::new();
    let t0 = Instant::now();
    let id = p.start_at(t0);
    let end = t0 + Duration::from_millis(5);
    assert_eq!(p.complete_at(id, &end), Some(5_000_000));
    let id2 = p.start_at(end);
    assert_eq!(p.complete_at(id2, &t0), Some(0));
    assert_eq!(p.complete_at(id2, &end), None);
    assert_eq!(p.stats().count, 2);
}
