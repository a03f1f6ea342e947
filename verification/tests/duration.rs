use retry::duration::{MAX_NANOS, NANOS_PER_MILLI, NANOS_PER_SEC};
use retry::Duration;

#[test]
fn duration_from_millis_splits_into_seconds_and_nanoseconds() {
    let d = Duration::from_millis(1_234);
    assert_eq!(d.as_secs(), 1);
    assert_eq!(d.subsec_nanos(), 234_000_000);
    assert_eq!(d.as_millis(), 1_234);
    assert_eq!(d, Duration::new(1, 234_000_000));
}

#[test]
fn duration_from_the_largest_millisecond_count() {
    let d = Duration::from_millis(u64::MAX);
    assert_eq!(d.as_secs(), 18_446_744_073_709_551);
    assert_eq!(d.subsec_nanos(), 615_000_000);
    assert_eq!(d.as_millis(), u64::MAX as u128);
}

#[test]
fn duration_new_carries_whole_seconds() {
    let d = Duration::new(2, 1_500_000_000);
    assert_eq!(d.as_secs(), 3);
    assert_eq!(d.subsec_nanos(), 500_000_000);
    assert_eq!(d.as_millis(), 3_500);
}

#[test]
fn duration_as_millis_rounds_down() {
    assert_eq!(Duration::new(0, 999_999).as_millis(), 0);
    assert_eq!(Duration::new(0, 1_000_000).as_millis(), 1);
    assert_eq!(Duration::new(5, 1_999_999).as_millis(), 5_001);
}

#[test]
fn duration_default_is_empty() {
    let d = Duration::default();
    assert_eq!(d.as_secs(), 0);
    assert_eq!(d.subsec_nanos(), 0);
    assert_eq!(d, Duration::new(0, 0));
}

#[test]
fn duration_checked_add_adds() {
    let a = Duration::new(1, 600_000_000);
    let b = Duration::new(2, 700_000_000);
    assert_eq!(a.checked_add(b), Some(Duration::new(4, 300_000_000)));
    assert_eq!(a.checked_add(Duration::default()), Some(a));
}

#[test]
fn duration_checked_add_stops_at_the_maximum() {
    let max = Duration::new(u64::MAX, 999_999_999);
    assert_eq!(max.as_secs(), u64::MAX);
    assert_eq!(max.subsec_nanos(), 999_999_999);
    assert_eq!(max.checked_add(Duration::new(0, 1)), None);
    assert_eq!(max.checked_add(Duration::default()), Some(max));
    let almost = Duration::new(u64::MAX, 999_999_998);
    assert_eq!(almost.checked_add(Duration::new(0, 1)), Some(max));
    assert_eq!(almost.checked_add(Duration::new(0, 2)), None);
}

#[test]
fn duration_constants() {
    assert_eq!(NANOS_PER_SEC, 1_000_000_000);
    assert_eq!(NANOS_PER_MILLI, 1_000_000);
    assert_eq!(MAX_NANOS, u64::MAX as u128 * 1_000_000_000 + 999_999_999);
}
