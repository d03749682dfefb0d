use bots_core::rate_limiter::{Acquire, RateLimiter, MICROS_PER_SECOND};
use bots_core::time::Instant;

fn at_micros(us: u128) -> Instant {
    Instant::from_nanos(us * 1_000)
}

#[test]
fn test_rate_limiter_basic() {
    let now = at_micros(0);
    let mut limiter = RateLimiter::new(100, now); // 100 TPS

    // Should be able to acquire immediately
    assert!(limiter.try_acquire(now));
}

#[test]
fn test_rate_limiter_refill() {
    let start = at_micros(0);
    let mut limiter = RateLimiter::new(1000, start); // 1000 TPS

    // Drain tokens
    for _ in 0..1000 {
        assert!(limiter.try_acquire(start));
    }

    // Should not be able to acquire more
    assert!(!limiter.try_acquire(start));

    // Wait for refill
    let later = at_micros(100_000);

    // Should be able to acquire 100 more tokens (1000 TPS * 0.1s)
    let mut acquired = 0;
    for _ in 0..150 {
        if limiter.try_acquire(later) {
            acquired += 1;
        }
    }

    assert!((95..=105).contains(&acquired), "acquired: {}", acquired);
    assert_eq!(acquired, 100);
}

#[test]
fn test_rate_limiter_batch() {
    let now = at_micros(0);
    let mut limiter = RateLimiter::new(1000, now);

    // Should be able to acquire batch of 10
    assert!(limiter.try_acquire_batch(10, now));

    // Drain remaining
    for _ in 0..99 {
        limiter.try_acquire_batch(10, now);
    }

    // Should not be able to acquire more
    assert!(!limiter.try_acquire_batch(10, now));
}

#[test]
fn test_rate_limiter_set_rate() {
    let now = at_micros(0);
    let mut limiter = RateLimiter::new(100, now);

    // Change rate
    limiter.set_rate(1000, now);

    // Should work at new rate
    assert!(limiter.try_acquire(now));
}

#[test]
fn a_change_of_rate_keeps_what_was_earned() {
    let start = at_micros(0);
    let mut limiter = RateLimiter::with_capacity(10, 5, start);
    assert!(limiter.try_acquire_batch(5, start));
    // 10 TPS for 200ms earn 2 tokens; 1000 TPS would have earned 5.
    limiter.set_rate(1000, at_micros(200_000));
    assert!(limiter.try_acquire_batch(2, at_micros(200_000)));
    assert!(!limiter.try_acquire(at_micros(200_000)));
    // From now on a millisecond earns one.
    assert!(limiter.try_acquire(at_micros(201_000)));
    assert!(!limiter.try_acquire(at_micros(201_000)));
}

#[test]
fn no_more_than_the_capacity_is_saved_up() {
    let start = at_micros(0);
    let mut limiter = RateLimiter::with_capacity(1000, 3, start);
    let late = at_micros(60_000_000);
    assert!(!limiter.try_acquire_batch(4, late));
    assert!(limiter.try_acquire_batch(3, late));
    assert!(!limiter.try_acquire(late));
}

#[test]
fn the_rate_is_kept_over_time() {
    let mut limiter = RateLimiter::new(250, at_micros(0));
    let mut granted = 0u64;
    // Try every 100us for two seconds.
    for i in 0..=20_000u128 {
        if limiter.try_acquire(at_micros(i * 100)) {
            granted += 1;
        }
    }
    assert_eq!(granted, 250 + 2 * 250);
}

#[test]
fn the_wait_is_as_long_as_it_must_be() {
    let start = at_micros(0);
    let mut limiter = RateLimiter::with_capacity(300, 2, start);
    assert_eq!(limiter.poll_acquire_batch(2, start), Acquire::Acquired);
    // A token takes 3333.3 microseconds.
    assert_eq!(limiter.poll_acquire(start), Acquire::Wait { micros: 3_333 });
    assert!(!limiter.try_acquire(at_micros(3_332)));
    let mut again = RateLimiter::with_capacity(300, 2, start);
    assert!(again.try_acquire_batch(2, start));
    assert!(again.try_acquire(at_micros(3_334)));
    assert_eq!(MICROS_PER_SECOND, 1_000_000);
}

#[test]
fn a_rate_of_zero_never_refills() {
    let mut limiter = RateLimiter::with_capacity(0, 1, at_micros(0));
    assert_eq!(limiter.poll_acquire(at_micros(0)), Acquire::Acquired);
    assert_eq!(limiter.poll_acquire(at_micros(9_000_000)), Acquire::Idle);
}

#[test]
fn less_than_a_microsecond_is_not_lost() {
    let mut limiter = RateLimiter::with_capacity(1_000_000, 1, Instant::from_nanos(0));
    assert!(limiter.try_acquire(Instant::from_nanos(0)));
    assert!(!limiter.try_acquire(Instant::from_nanos(600)));
    assert!(limiter.try_acquire(Instant::from_nanos(1_000)));
}

#[test]
fn refilling_twice_earns_no_more() {
    let mut once = RateLimiter::with_capacity(1_000_000, 100, Instant::from_nanos(0));
    let mut twice = RateLimiter::with_capacity(1_000_000, 100, Instant::from_nanos(0));
    assert!(once.try_acquire_batch(100, Instant::from_nanos(0)));
    assert!(twice.try_acquire_batch(100, Instant::from_nanos(0)));
    twice.refill(Instant::from_nanos(1_500));
    // 3000ns earn 3 tokens at once, and 1 + 1 in two refills.
    assert!(once.try_acquire_batch(3, Instant::from_nanos(3_000)));
    assert!(!twice.try_acquire_batch(3, Instant::from_nanos(3_000)));
    assert!(twice.try_acquire_batch(2, Instant::from_nanos(3_000)));
}

#[test]
fn a_clock_that_goes_back_earns_nothing() {
    let mut limiter = RateLimiter::with_capacity(1000, 1, at_micros(5_000));
    assert!(limiter.try_acquire(at_micros(5_000)));
    assert!(!limiter.try_acquire(at_micros(0)));
}

#[test]
fn a_refill_after_ages_fits() {
    let mut limiter = RateLimiter::new(u64::MAX, at_micros(0));
    assert!(limiter.try_acquire_batch(u64::MAX, at_micros(0)));
    assert!(limiter.refill_fits(at_micros(u64::MAX as u128)));
    assert!(!limiter.refill_fits(at_micros(1 << 65)));
    assert!(limiter.try_acquire_batch(u64::MAX, at_micros(u64::MAX as u128)));
    assert!(!limiter.try_acquire(at_micros(u64::MAX as u128)));
}
