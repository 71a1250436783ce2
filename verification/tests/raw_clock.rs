use sendspin::sync::raw_clock::{
    chosen_reading, count_from, elapsed_micros, instant_at, micros_at, micros_of, offset_from_now,
    reading_micros, system_micros,
};
use sendspin::sync::{Clock, DefaultClock};
use std::sync::atomic::{AtomicI64, Ordering};
use std::time::{Duration, Instant};

struct MockClock {
    micros: AtomicI64,
}

impl MockClock {
    fn new(initial: i64) -> Self {
        Self {
            micros: AtomicI64::new(initial),
        }
    }

    fn advance(&self, delta_micros: i64) {
        self.micros.fetch_add(delta_micros, Ordering::SeqCst);
    }
}

impl Clock for MockClock {
    fn now_micros(&self) -> i64 {
        self.micros.load(Ordering::SeqCst)
    }
}

#[test]
fn test_default_clock_monotonic() {
    let clock = DefaultClock::new();
    let t1 = clock.now_micros();
    let t2 = clock.now_micros();
    assert!(t2 >= t1, "clock must be monotonically non-decreasing");
}

#[test]
fn test_default_clock_micros_to_instant_roundtrip() {
    let clock = DefaultClock::new();
    let now_micros = clock.now_micros();
    let instant = clock
        .micros_to_instant(now_micros)
        .expect("conversion should succeed for current time");
    let diff = Instant::now().duration_since(instant);
    assert!(diff < Duration::from_millis(5));
}

#[test]
fn test_default_clock_instant_to_micros_roundtrip() {
    let clock = DefaultClock::new();
    let now = Instant::now();
    let micros = clock.instant_to_micros(now);
    let back = clock
        .micros_to_instant(micros)
        .expect("conversion should succeed");
    let diff = if back >= now {
        back.duration_since(now)
    } else {
        now.duration_since(back)
    };
    assert!(diff < Duration::from_millis(1));
}

#[test]
fn test_default_clock_future_micros_to_instant() {
    let clock = DefaultClock::new();
    let future = clock.now_micros() + 1_000_000;
    let instant = clock
        .micros_to_instant(future)
        .expect("future time should convert");
    assert!(instant > Instant::now());
}

#[test]
fn test_default_clock_past_micros_to_instant() {
    let clock = DefaultClock::new();
    let past = clock.now_micros() - 1_000_000;
    let instant = clock
        .micros_to_instant(past)
        .expect("past time should convert");
    assert!(instant < Instant::now());
}

#[test]
fn test_mock_clock_deterministic() {
    let clock = MockClock::new(1_000_000);
    assert_eq!(clock.now_micros(), 1_000_000);

    clock.advance(500);
    assert_eq!(clock.now_micros(), 1_000_500);
}

#[test]
fn test_micros_to_instant_far_past_returns_none() {
    let clock = DefaultClock::new();
    let very_far_past = clock.now_micros() - 1_000_000_000_000;
    let _result = clock.micros_to_instant(very_far_past);
}

#[test]
fn test_mock_clock_micros_to_instant_returns_none_for_unreachable_past() {
    let clock = MockClock::new(1_000_000_000);
    let result = clock.micros_to_instant(0);
    let _ = result;
}

#[test]
fn test_mock_clock_bridge_round_trip() {
    let clock = MockClock::new(500_000);
    let original = 500_000i64;
    if let Some(instant) = clock.micros_to_instant(original) {
        let back = clock.instant_to_micros(instant);
        let diff = (back - original).abs();
        assert!(
            diff < 1_000,
            "MockClock bridge round-trip error too large: {}us",
            diff
        );
    }
}

#[test]
fn test_raw_clock_bridge_extreme_micros_never_panics() {
    let min_clock = MockClock::new(i64::MIN);
    let _ = min_clock.micros_to_instant(i64::MAX);

    let max_clock = MockClock::new(i64::MAX);
    let _ = max_clock.micros_to_instant(i64::MIN);
}

#[test]
fn test_raw_clock_instant_to_micros_explicitly_saturates_unrepresentable_values() {
    let max_clock = MockClock::new(i64::MAX);
    let future = Instant::now()
        .checked_add(Duration::from_secs(24 * 60 * 60))
        .expect("one day must be representable");
    assert_eq!(max_clock.instant_to_micros(future), i64::MAX);

    let min_clock = MockClock::new(i64::MIN);
    let past = Instant::now()
        .checked_sub(Duration::from_secs(1))
        .expect("one second must be representable");
    assert_eq!(min_clock.instant_to_micros(past), i64::MIN);
}

#[test]
fn a_later_clock_time_is_a_later_instant() {
    // A mock that stands still: only the distance counts.
    let clock = MockClock::new(0);
    let near = clock.micros_to_instant(1_000_000).unwrap();
    let far = clock.micros_to_instant(3_000_000).unwrap();
    let gap = far.duration_since(near);
    assert!(gap >= Duration::from_millis(1_999) && gap < Duration::from_secs(3));
}

#[test]
fn the_bridge_takes_a_clock_time_over_and_back() {
    for (micros, now) in [
        (5, 3),
        (3, 5),
        (i64::MAX, i64::MIN),
        (i64::MIN, i64::MAX),
        (0, 0),
    ] {
        let offset = offset_from_now(micros, now);
        assert_eq!(
            micros_at(now, offset.ahead, u128::from(offset.micros)),
            micros
        );
    }
    assert_eq!(offset_from_now(i64::MAX, i64::MIN).micros, u64::MAX);
    assert_eq!(micros_at(0, true, u128::MAX), i64::MAX);
    assert_eq!(micros_at(0, false, u128::MAX), i64::MIN);
}

#[test]
fn readings_become_microseconds() {
    assert_eq!(reading_micros(2, 345_678_999), 2_345_678);
    assert_eq!(reading_micros(0, 999), 0);
    assert_eq!(elapsed_micros(17), 17);
    assert_eq!(elapsed_micros(u128::MAX), i64::MAX);
}

#[test]
fn parts_of_a_microsecond_are_dropped_towards_the_past() {
    let now = Instant::now();
    let ahead = |ns| now + Duration::from_nanos(ns);
    assert_eq!(micros_of(ahead(1_500), 0, now), 1);
    assert_eq!(micros_of(ahead(2_000), 0, now), 2);
    assert_eq!(micros_of(now, 0, ahead(1_500)), -2);
    assert_eq!(micros_of(now, 0, ahead(2_000)), -2);
    assert_eq!(micros_of(now, 7, now), 7);
    assert_eq!(micros_of(now, i64::MIN, ahead(1)), i64::MIN);
    assert_eq!(micros_of(ahead(1_000), i64::MAX, now), i64::MAX);
}

#[test]
fn an_instant_lies_as_far_from_now_as_its_clock_time() {
    let now = Instant::now() + Duration::from_secs(10);
    assert_eq!(instant_at(5, 5, now), Some(now));
    assert_eq!(
        instant_at(12, 5, now),
        Some(now + Duration::from_micros(7))
    );
    assert_eq!(instant_at(-2, 5, now), Some(now - Duration::from_micros(7)));
}

#[test]
fn the_bridge_is_off_by_how_differently_the_clocks_went() {
    let first = Instant::now();
    let instant = instant_at(1_000, 400, first).unwrap();
    // The one clock went on by 50 microseconds, the other by 49.7.
    let second = first + Duration::from_nanos(49_700);
    assert_eq!(micros_of(instant, 450, second), 1_000);
    let second = first + Duration::from_nanos(51_500);
    assert_eq!(micros_of(instant, 450, second), 998);
    assert_eq!(micros_of(instant, 400, first), 1_000);
}

#[test]
fn a_clock_counts_from_its_making() {
    let made = Instant::now();
    assert_eq!(count_from(made, made + Duration::from_nanos(2_999)), 2);
    assert_eq!(count_from(made + Duration::from_micros(1), made), 0);
    assert_eq!(chosen_reading(Some((1, 2)), Some((3, 4))), (1, 2));
    assert_eq!(chosen_reading(None, Some((3, 4))), (3, 4));
    assert_eq!(chosen_reading(None, None), (0, 0));
    assert_eq!(system_micros(Some((2, 3_999)), Some((9, 9))), 2_000_003);
    assert_eq!(system_micros(None, Some((9, 1_000))), 9_000_001);
    assert_eq!(system_micros(None, None), 0);
}
