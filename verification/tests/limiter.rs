use navhub::limiter::LoginRateLimiter;

const KEY: &str = "10.0.0.1:admin";

/// Milliseconds as the limiter's nanoseconds.
fn ms(t: u64) -> u64 {
    t * 1_000_000
}

#[test]
fn test_login_rate_limit() {
    // Five failures inside the window lock the key; the next checks answer locked.
    let mut l = LoginRateLimiter::new(5, 15);
    let t0: u64 = 1_000_000;
    for i in 0..5u64 {
        assert_eq!(l.check_locked_at(KEY, ms(t0 + i * 1000)), 0);
        l.record_failure_at(KEY, ms(t0 + i * 1000));
    }
    let locked = l.check_locked_at(KEY, ms(t0 + 5000));
    assert_eq!(locked, 15 * 60 - 5);
    assert!(l.check_locked_at(KEY, ms(t0 + 6000)) > 0);
}

#[test]
fn limiter_other_keys_unaffected() {
    let mut l = LoginRateLimiter::new(2, 1);
    l.record_failure_at(KEY, ms(0));
    l.record_failure_at(KEY, ms(10));
    assert_eq!(l.check_locked_at(KEY, ms(20)), 60);
    assert_eq!(l.check_locked_at("10.0.0.2:admin", ms(20)), 0);
}

#[test]
fn limiter_window_expires() {
    // An attempt stops counting once the whole window (60 s) has passed.
    let mut l = LoginRateLimiter::new(2, 1);
    l.record_failure_at(KEY, ms(0));
    l.record_failure_at(KEY, ms(30_000));
    assert_eq!(l.check_locked_at(KEY, ms(59_999)), 1);
    assert_eq!(l.check_locked_at(KEY, ms(60_000)), 0);
    // the expired attempt was pruned: one more failure is needed again
    l.record_failure_at(KEY, ms(61_000));
    assert_eq!(l.check_locked_at(KEY, ms(61_000)), 60 - 31);
}

#[test]
fn limiter_remaining_at_least_one() {
    // lock_seconds minus elapsed is clamped to at least one second
    let mut l = LoginRateLimiter::new(1, 0);
    l.record_failure_at(KEY, ms(0));
    // with a zero-minute window nothing counts
    assert_eq!(l.check_locked_at(KEY, ms(0)), 0);
    let mut l = LoginRateLimiter::new(1, 1);
    l.record_failure_at(KEY, ms(0));
    assert_eq!(l.check_locked_at(KEY, ms(59_500)), 1);
}

#[test]
fn limiter_negative_minutes_count_as_zero() {
    let mut l = LoginRateLimiter::new(1, -5);
    l.record_failure_at(KEY, ms(100));
    assert_eq!(l.check_locked_at(KEY, ms(100)), 0);
}

#[test]
fn limiter_reset_unlocks() {
    let mut l = LoginRateLimiter::new(1, 15);
    l.record_failure_at(KEY, ms(0));
    assert!(l.check_locked_at(KEY, ms(1000)) > 0);
    l.reset(KEY);
    assert_eq!(l.check_locked_at(KEY, ms(1000)), 0);
}

#[test]
fn limiter_below_max_unlocked() {
    let mut l = LoginRateLimiter::new(3, 15);
    l.record_failure_at(KEY, ms(0));
    l.record_failure_at(KEY, ms(1));
    assert_eq!(l.check_locked_at(KEY, ms(2)), 0);
}

#[test]
fn limiter_clock_methods() {
    let mut l = LoginRateLimiter::new(2, 15);
    assert_eq!(l.check_locked(KEY), 0);
    l.record_failure(KEY);
    assert_eq!(l.check_locked(KEY), 0);
    l.record_failure(KEY);
    let left = l.check_locked(KEY);
    assert!(left >= 1 && left <= 900);
}

#[test]
fn limiter_second_boundary_in_nanoseconds() {
    // one nanosecond short of a whole window still counts
    let mut l = LoginRateLimiter::new(1, 1);
    l.record_failure_at(KEY, 5);
    assert_eq!(l.check_locked_at(KEY, 5 + 60_000_000_000 - 1), 1);
    assert_eq!(l.check_locked_at(KEY, 5 + 60_000_000_000), 0);
}
