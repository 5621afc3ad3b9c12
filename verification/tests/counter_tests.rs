use hivemind::counter::{RateLimitCounter, TimeWindow};

#[test]
fn test_time_window_duration() {
    assert_eq!(TimeWindow::Second.duration_secs(), 1);
    assert_eq!(TimeWindow::Minute.duration_secs(), 60);
    assert_eq!(TimeWindow::Hour.duration_secs(), 3600);
    assert_eq!(TimeWindow::Day.duration_secs(), 86400);
}

#[test]
fn test_time_window_duration_nanos() {
    assert_eq!(TimeWindow::Second.duration_nanos(), 1_000_000_000);
    assert_eq!(TimeWindow::Minute.duration_nanos(), 60_000_000_000);
    assert_eq!(TimeWindow::Hour.duration_nanos(), 3_600_000_000_000);
    assert_eq!(TimeWindow::Day.duration_nanos(), 86_400_000_000_000);
}

#[test]
fn test_time_window_proto_codes() {
    assert_eq!(TimeWindow::from_proto(1), Some(TimeWindow::Second));
    assert_eq!(TimeWindow::from_proto(2), Some(TimeWindow::Minute));
    assert_eq!(TimeWindow::from_proto(3), Some(TimeWindow::Hour));
    assert_eq!(TimeWindow::from_proto(4), Some(TimeWindow::Day));
    assert_eq!(TimeWindow::from_proto(0), None);
    assert_eq!(TimeWindow::from_proto(5), None);
    assert_eq!(TimeWindow::from_proto(-1), None);
    assert_eq!(TimeWindow::Second.to_proto(), 1);
    assert_eq!(TimeWindow::Minute.to_proto(), 2);
    assert_eq!(TimeWindow::Hour.to_proto(), 3);
    assert_eq!(TimeWindow::Day.to_proto(), 4);
}

#[test]
fn test_counter_increment_within_limit() {
    let mut counter = RateLimitCounter::new(10, TimeWindow::Second);

    assert!(counter.increment(1));
    assert_eq!(counter.current_count(), 1);
    assert_eq!(counter.remaining(), 9);
}

#[test]
fn test_counter_increment_exceeds_limit() {
    let mut counter = RateLimitCounter::new(5, TimeWindow::Second);

    for _ in 0..5 {
        assert!(counter.increment(1));
    }

    // The 6th request should be rejected
    assert!(!counter.increment(1));
}

#[test]
fn test_counter_would_exceed() {
    let mut counter = RateLimitCounter::new(10, TimeWindow::Second);

    counter.increment(8);

    assert!(!counter.would_exceed(2)); // 8 + 2 = 10, within limit
    assert!(counter.would_exceed(3)); // 8 + 3 = 11, exceeds limit
}

#[test]
fn test_counter_multi_hit_increment() {
    let mut counter = RateLimitCounter::new(10, TimeWindow::Second);

    assert!(counter.increment(5));
    assert_eq!(counter.current_count(), 5);
    assert_eq!(counter.remaining(), 5);
}

#[test]
fn test_counter_zero_limit_rejects_all() {
    let mut counter = RateLimitCounter::new(0, TimeWindow::Second);
    assert!(!counter.increment(1));
    assert!(!counter.increment(1));
    assert!(counter.would_exceed(1));
}

#[test]
fn test_counter_accepts_at_most_limit_within_window() {
    // A long window so the whole loop stays inside one window.
    let mut counter = RateLimitCounter::new(5, TimeWindow::Minute);
    let mut accepted = 0;
    for _ in 0..10 {
        if counter.increment(1) {
            accepted += 1;
        }
    }
    assert_eq!(accepted, 5);
}

#[test]
fn test_counter_count_saturates() {
    let mut counter = RateLimitCounter::new(10, TimeWindow::Minute);
    counter.increment(u32::MAX);
    counter.increment(5);
    assert_eq!(counter.current_count(), u32::MAX as u64);
    assert!(!counter.increment(1));
}

#[test]
fn test_counter_window_rollover_explicit_clock() {
    // Window rollover: three accepted hits, then one more than a second
    // later is accepted again and the count restarts at one.
    let mut counter = RateLimitCounter::new(3, TimeWindow::Second);
    assert!(counter.increment_at_nanos(0, 1));
    assert!(counter.increment_at_nanos(100, 1));
    assert!(counter.increment_at_nanos(200, 1));
    assert!(!counter.increment_at_nanos(300, 1));
    assert_eq!(counter.current_count_at_nanos(300), 4);

    let later = 1_100_000_000;
    assert_eq!(counter.current_count_at_nanos(later), 0);
    assert!(counter.increment_at_nanos(later, 1));
    assert_eq!(counter.current_count_at_nanos(later), 1);
}

#[test]
fn test_counter_window_rollover_real_clock() {
    let mut counter = RateLimitCounter::new(3, TimeWindow::Second);
    assert!(counter.increment(1));
    assert!(counter.increment(1));
    assert!(counter.increment(1));

    let start = std::time::Instant::now();
    while start.elapsed() < std::time::Duration::from_millis(1100) {
        std::hint::spin_loop();
    }

    assert!(counter.increment(1));
    assert_eq!(counter.current_count(), 1);
}

#[test]
fn test_counter_duration_until_reset_bounds() {
    let counter = RateLimitCounter::new(3, TimeWindow::Second);
    let d = counter.duration_until_reset();
    assert!(d >= 1);
    assert!(d <= 1_000_000_000);
}

#[test]
fn test_counter_limit_and_window_getters() {
    let counter = RateLimitCounter::new(42, TimeWindow::Hour);
    assert_eq!(counter.limit(), 42);
    assert_eq!(counter.window(), TimeWindow::Hour);
}

#[test]
fn test_counter_pack_unpack() {
    let packed = RateLimitCounter::pack(7, 1234);
    let (epoch, count) = RateLimitCounter::unpack(packed);
    assert_eq!(epoch, 7);
    assert_eq!(count, 1234);
    assert_eq!(packed, (7u64 << 32) | 1234u64);
}
