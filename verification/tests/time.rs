use selene::num::{NonZeroU16, NonZeroU32, NonZeroU8, NonZeroUsize};
use selene::time::{Duration, Instant, NANOS_MAX};

#[test]
fn spans_are_counted_in_nanoseconds() {
    assert_eq!(Duration::from_secs(2).as_nanos(), 2_000_000_000);
    assert_eq!(Duration::from_millis(3).as_nanos(), 3_000_000);
    assert_eq!(Duration::from_micros(4).as_nanos(), 4_000);
    assert_eq!(Duration::new(1, 5).as_nanos(), 1_000_000_005);
    assert!(Duration::zero().is_zero());
    assert!(!Duration::new(0, 1).is_zero());
}

#[test]
fn spans_come_apart_into_seconds_and_nanoseconds() {
    let span = Duration::new(7, 999_999_999);
    assert_eq!(span.as_secs(), 7);
    assert_eq!(span.subsec_nanos(), 999_999_999);
    let longest = Duration::new(u64::MAX, 999_999_999);
    assert_eq!(longest.as_nanos(), NANOS_MAX);
    assert_eq!(longest.as_secs(), u64::MAX);
    let standard = std::time::Duration::new(u64::MAX, 999_999_999);
    assert_eq!(longest.as_nanos(), standard.as_nanos());
}

#[test]
fn spans_are_compared_and_joined() {
    let short = Duration::from_micros(10);
    let long = Duration::from_millis(10);
    assert_eq!(short.min(long), short);
    assert_eq!(long.min(short), short);
    assert_eq!(short.plus(long), Duration::from_micros(10_010));
    assert!(short < long);
}

#[test]
fn time_since_a_later_reading_is_zero() {
    let early = Instant::after_origin(Duration::from_secs(1));
    let late = early.plus(Duration::from_secs(2));
    assert_eq!(late.duration_since(early), Duration::from_secs(2));
    assert_eq!(early.duration_since(late), Duration::zero());
    assert!(late.reached(early));
    assert!(late.reached(late));
    assert!(!early.reached(late));
}

#[test]
fn zero_is_no_nonzero_number() {
    assert!(NonZeroU8::new(0).is_none());
    assert!(NonZeroU16::new(0).is_none());
    assert!(NonZeroU32::new(0).is_none());
    assert!(NonZeroUsize::new(0).is_none());
    assert_eq!(NonZeroU8::new(255).expect("literal").get(), 255);
    assert_eq!(NonZeroU16::new(512).expect("literal").get(), 512);
    assert_eq!(NonZeroU32::new(1).expect("literal").get(), 1);
    assert_eq!(NonZeroUsize::new(4096).expect("literal").get(), 4096);
}
