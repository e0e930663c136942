use view_latency::roundtrip::{RoundtripTimer, BATCH_DELAY_MS, BATCH_SIZE, NUM_BATCHES};

fn timer_with(samples: &[u128]) -> RoundtripTimer {
    let mut t = RoundtripTimer::new();
    for s in samples {
        t.record(*s);
    }
    t
}

#[test]
fn empty_timer_reports_zero() {
    let t = RoundtripTimer::new();
    assert_eq!(t.completed_count(), 0);
    let s = t.stats();
    assert_eq!((s.avg, s.p50, s.p99), (0, 0, 0));
}

#[test]
fn record_counts_each_latency() {
    let mut t = RoundtripTimer::new();
    t.record(7);
    assert_eq!(t.completed_count(), 1);
    t.record(7);
    assert_eq!(t.completed_count(), 2);
}

#[test]
fn clear_forgets_latencies() {
    let mut t = timer_with(&[4, 9, 2]);
    t.clear();
    assert_eq!(t.completed_count(), 0);
    let s = t.stats();
    assert_eq!((s.avg, s.p50, s.p99), (0, 0, 0));
    t.record(5);
    let s = t.stats();
    assert_eq!((s.avg, s.p50, s.p99), (5, 5, 5));
}

#[test]
fn stats_of_five_unsorted_samples() {
    let t = timer_with(&[5, 1, 3, 2, 4]);
    let s = t.stats();
    assert_eq!(s.avg, 3);
    assert_eq!(s.p50, 3);
    // 5 * 0.99 = 4.95, rank 4: the largest
    assert_eq!(s.p99, 5);
}

#[test]
fn mean_rounds_down() {
    let s = timer_with(&[1, 2]).stats();
    assert_eq!(s.avg, 1);
    // rank 2 / 2 = 1
    assert_eq!(s.p50, 2);
    // 2 * 0.99 = 1.98, rank 1
    assert_eq!(s.p99, 2);
}

#[test]
fn stats_of_one_hundred_samples() {
    let samples: Vec<u128> = (1..=100u128).rev().collect();
    let s = timer_with(&samples).stats();
    assert_eq!(s.avg, 50);
    assert_eq!(s.p50, 51);
    assert_eq!(s.p99, 100);
}

#[test]
fn p99_rank_of_one_thousand_samples() {
    let samples: Vec<u128> = (0..1000u128).map(|x| x * 1_000).collect();
    let s = timer_with(&samples).stats();
    // rank 990
    assert_eq!(s.p99, 990_000);
    assert_eq!(s.p50, 500_000);
    assert_eq!(s.avg, 499_500);
}

#[test]
fn p99_rank_matches_float_rank() {
    for n in 1..=2000usize {
        let samples: Vec<u128> = (0..n as u128).collect();
        let s = timer_with(&samples).stats();
        let rank = (n as f64 * 0.99) as usize;
        assert_eq!(s.p99, rank as u128, "n = {}", n);
        assert_eq!(s.p50, (n / 2) as u128);
    }
}

#[test]
fn duplicate_samples() {
    let s = timer_with(&[3, 3, 3, 1]).stats();
    assert_eq!(s.avg, 2);
    assert_eq!(s.p50, 3);
    assert_eq!(s.p99, 3);
}

#[test]
fn largest_durations_sum_exactly() {
    let max: u128 = u64::MAX as u128 * 1_000_000_000 + 999_999_999;
    let s = timer_with(&[max - 10, 10]).stats();
    assert_eq!(s.avg, max / 2);
    assert_eq!(s.p50, max - 10);
}

#[test]
fn stats_ignore_order_of_samples() {
    let a = timer_with(&[9, 2, 7, 7, 1, 30]).stats();
    let b = timer_with(&[30, 7, 1, 9, 7, 2]).stats();
    assert_eq!((a.avg, a.p50, a.p99), (b.avg, b.p50, b.p99));
}

#[test]
fn percentiles_are_ordered_and_within_extremes() {
    let samples = [13u128, 2, 99, 40, 40, 7, 1000, 5];
    let s = timer_with(&samples).stats();
    let min = *samples.iter().min().unwrap();
    let max = *samples.iter().max().unwrap();
    assert!(min <= s.p50 && s.p50 <= s.p99 && s.p99 <= max);
    assert!(min <= s.avg && s.avg <= max);
    assert!(samples.contains(&s.p50) && samples.contains(&s.p99));
}

#[test]
fn checked_stats_agree_with_stats() {
    let t = timer_with(&[8, 6, 7, 5, 3, 0, 9]);
    let a = t.stats();
    let b = t.checked_stats().unwrap();
    assert_eq!((a.avg, a.p50, a.p99), (b.avg, b.p50, b.p99));
    assert_eq!((a.avg, a.p50, a.p99), (5, 6, 9));
}

#[test]
fn checked_stats_of_empty_timer() {
    let s = RoundtripTimer::new().checked_stats().unwrap();
    assert_eq!((s.avg, s.p50, s.p99), (0, 0, 0));
}

#[test]
fn total_beyond_duration_max_is_refused() {
    let max: u128 = u64::MAX as u128 * 1_000_000_000 + 999_999_999;
    let t = timer_with(&[max, 1]);
    assert_eq!(t.checked_stats().err(), Some(view_latency::stats::StatsError::SumOverflow));
    let t = timer_with(&[max, 0]);
    assert_eq!(t.checked_stats().unwrap().avg, max / 2);
}

#[test]
fn count_is_records_since_last_clear() {
    let mut t = RoundtripTimer::new();
    t.record(1_000_000);
    t.record(2_000_000);
    t.clear();
    t.record(3_000_000);
    assert_eq!(t.completed_count(), 1);
    let s = t.stats();
    assert_eq!((s.avg, s.p50, s.p99), (3_000_000, 3_000_000, 3_000_000));
}

#[test]
fn batch_constants() {
    assert_eq!((BATCH_SIZE, NUM_BATCHES, BATCH_DELAY_MS), (1000, 10, 100));
}

#[test]
fn record_confirmed_signals_full_batch() {
    let mut t = RoundtripTimer::new();
    assert!(!t.record_confirmed(5, 3));
    assert!(!t.record_confirmed(6, 3));
    assert!(t.record_confirmed(7, 3));
    assert_eq!(t.completed_count(), 3);
}
