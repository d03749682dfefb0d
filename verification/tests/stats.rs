use bots_core::stats::{LatencyHistogram, StatsCollector};
use bots_core::time::Instant;

fn at_ms(ms: u128) -> Instant {
    Instant::from_nanos(ms * 1_000_000)
}

#[test]
fn test_histogram_percentiles_are_stable() {
    let mut h = LatencyHistogram::new(1_000);

    // 100 samples:
    // - 50 at 10ms
    // - 30 at 20ms
    // - 20 at 50ms
    for _ in 0..50 {
        h.observe_ms(10);
    }
    for _ in 0..30 {
        h.observe_ms(20);
    }
    for _ in 0..20 {
        h.observe_ms(50);
    }

    assert_eq!(h.total_count(), 100);
    assert_eq!(h.percentile_ms(50), 10);
    assert_eq!(h.percentile_ms(95), 50);
    assert_eq!(h.percentile_ms(99), 50);
    assert_eq!(h.percentiles(), (10, 50, 50));
}

#[test]
fn test_stats_collector_basic() {
    let mut s = StatsCollector::new(at_ms(0));
    s.record_attempted(100);
    s.record_sent(100);
    s.record_accepted(95, 10);
    s.record_rejected(5, 20);

    let summary = s.summary(at_ms(0));
    assert_eq!(summary.attempted, 100);
    assert_eq!(summary.sent, 100);
    assert_eq!(summary.accepted, 95);
    assert_eq!(summary.rejected, 5);
    assert!(summary.latency_p50_ms >= 10);
}

#[test]
fn a_summary_holds_all_counters() {
    let mut s = StatsCollector::new(at_ms(1_000));
    s.record_timeout(3, 500);
    s.record_error(2);
    s.record_accepted(1, 70_000);
    assert!(s.can_summarize());
    let summary = s.summary(Instant::from_nanos(1_234_999_999));
    assert_eq!(summary.attempted, 0);
    assert_eq!(summary.timeouts, 3);
    assert_eq!(summary.errors, 2);
    assert_eq!(summary.accepted, 1);
    assert_eq!(summary.latency_p50_ms, 500);
    assert_eq!(summary.latency_p95_ms, 60_000);
    assert_eq!(summary.latency_p99_ms, 60_000);
    assert_eq!(summary.duration_ms, 234);
    assert_eq!(s.elapsed_ms(at_ms(999)), 0);
}

#[test]
fn counters_wrap_around() {
    let mut s = StatsCollector::new(at_ms(0));
    s.record_sent(u64::MAX);
    s.record_sent(2);
    assert_eq!(s.summary(at_ms(0)).sent, 1);
}

#[test]
fn an_empty_wrapping_histogram_has_percentile_zero() {
    let h = LatencyHistogram::default();
    assert_eq!(h.total_count(), 0);
    assert_eq!(h.checked_count(), Some(0));
    assert_eq!(h.percentile_ms(50), 0);
    assert_eq!(h.percentiles(), (0, 0, 0));
}

#[test]
fn summary_percentiles_never_go_down() {
    let mut s = StatsCollector::new(at_ms(0));
    for i in 0..500u64 {
        s.record_accepted(1, (i * 97) % 613);
    }
    let summary = s.summary(at_ms(10));
    assert!(summary.latency_p50_ms <= summary.latency_p95_ms);
    assert!(summary.latency_p95_ms <= summary.latency_p99_ms);
}
