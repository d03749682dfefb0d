use bots_core::LatencyHistogram;

#[test]
fn percentile_math_is_deterministic() {
    let mut h = LatencyHistogram::new(1_000);

    // 100 samples:
    // - 50 at 10ms
    // - 30 at 20ms
    // - 20 at 50ms
    for _ in 0..50 {
        h.observe_ms(10);
    }
    for _ in 0..30 {
        h.observe_ms(20);
    }
    for _ in 0..20 {
        h.observe_ms(50);
    }

    assert_eq!(h.total_count(), 100);
    assert_eq!(h.percentile_ms(50), 10);
    assert_eq!(h.percentile_ms(95), 50);
    assert_eq!(h.percentile_ms(99), 50);
}

#[test]
fn an_empty_histogram_has_percentile_zero() {
    let h = LatencyHistogram::default();
    assert_eq!(h.total_count(), 0);
    assert_eq!(h.percentile_ms(0), 0);
    assert_eq!(h.percentile_ms(99), 0);
}

#[test]
fn large_latencies_fall_into_the_last_bucket() {
    let mut a = LatencyHistogram::new(100);
    a.observe_ms(u64::MAX);
    a.observe_ms(101);
    let mut b = LatencyHistogram::new(100);
    b.add_count_ms(100, 2);
    assert_eq!(a.percentile_ms(0), 100);
    assert_eq!(a.percentile_ms(0), b.percentile_ms(0));
    assert_eq!(a.total_count(), b.total_count());
    let d = LatencyHistogram::default();
    let mut d2 = d.clone();
    d2.observe_ms(70_000);
    assert_eq!(d2.percentile_ms(50), 60_000);
}

#[test]
fn the_extreme_percentiles_are_the_extreme_latencies() {
    let mut h = LatencyHistogram::new(1_000);
    h.observe_ms(3);
    h.observe_ms(7);
    h.observe_ms(900);
    assert_eq!(h.percentile_ms(0), 3);
    assert_eq!(h.percentile_ms(1), 3);
    assert_eq!(h.percentile_ms(100), 900);
    assert_eq!(h.percentile_ms(101), 900);
    assert_eq!(h.percentile_ms(u64::MAX), 900);
    // ceil(0.34 * 3) = 2
    assert_eq!(h.percentile_ms(34), 7);
    assert_eq!(h.percentile_ms(33), 3);
}

#[test]
fn percentiles_never_go_down() {
    let mut h = LatencyHistogram::new(200);
    for i in 0..137u64 {
        h.observe_ms((i * 53) % 211);
    }
    let mut last = 0;
    for p in 0..=100 {
        let ms = h.percentile_ms(p);
        assert!(last <= ms);
        last = ms;
    }
}

#[test]
fn counts_add_up_in_any_order() {
    let mut a = LatencyHistogram::new(10);
    a.add_count_ms(3, 2);
    a.add_count_ms(5, 1);
    a.add_count_ms(3, 4);
    let mut b = LatencyHistogram::new(10);
    b.add_count_ms(5, 1);
    b.add_count_ms(3, 6);
    b.add_count_ms(9, 0);
    assert_eq!(a.total_count(), 7);
    for p in 0..=100 {
        assert_eq!(a.percentile_ms(p), b.percentile_ms(p));
    }
    assert_eq!(a.total_count(), b.total_count());
}

#[test]
fn counts_saturate() {
    let mut h = LatencyHistogram::new(10);
    h.add_count_ms(1, u64::MAX);
    h.add_count_ms(2, 5);
    assert_eq!(h.total_count(), u64::MAX);
    assert_eq!(h.percentile_ms(0), 1);
    assert_eq!(h.percentile_ms(100), 1);
}

#[test]
fn percentiles_of_very_large_totals_are_exact() {
    let mut h = LatencyHistogram::new(100);
    h.add_count_ms(10, 1);
    h.add_count_ms(20, 1u64 << 63);
    assert_eq!(h.percentile_ms(0), 10);
    assert_eq!(h.percentile_ms(1), 20);
    assert_eq!(h.percentile_ms(50), 20);
    assert_eq!(h.percentile_ms(99), 20);
    h.add_count_ms(5, (1u64 << 63) - 2);
    assert_eq!(h.percentile_ms(49), 5);
    assert_eq!(h.percentile_ms(51), 20);
}

#[test]
fn an_overlong_latency_counts_as_the_longest() {
    let mut a = LatencyHistogram::new(100);
    a.add_count_ms(3, u64::MAX - 1);
    let mut b = a.clone();
    a.observe_ms(5_000);
    b.observe_ms(100);
    assert_eq!(a.total_count(), u64::MAX);
    assert_eq!(a.total_count(), b.total_count());
    for p in 0..=100 {
        assert_eq!(a.percentile_ms(p), b.percentile_ms(p));
    }
    assert_eq!(a.percentile_ms(99), 3);
    assert_eq!(a.percentile_ms(100), 100);
}
