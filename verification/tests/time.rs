//! Spans of time.

use draug::time::Duration;

#[test]
fn parts_make_a_span() {
    let d = Duration::from_parts(3, 5).unwrap();
    assert_eq!(d.as_secs(), 3);
    assert_eq!(d.subsec_nanos(), 5);
    assert!(Duration::from_parts(0, 1_000_000_000).is_none());
    assert_eq!(
        Duration::from_parts(u64::MAX, 999_999_999).unwrap(),
        Duration::max()
    );
}

#[test]
fn spans_compare_and_scale() {
    let d = Duration::from_millis(1500);
    assert!(d.at_least(d));
    assert!(!d.exceeds(d));
    assert!(d.exceeds(Duration::from_secs(1)));
    assert_eq!(d.saturating_mul(4), Duration::from_secs(6));
    assert_eq!(Duration::max().saturating_mul(2), Duration::max());
    assert!(d.saturating_mul(0).is_zero());
}

#[test]
fn spans_are_shown_with_a_unit() {
    for (secs, nanos) in [(2, 0), (0, 1_000_000), (7, 250_000_000), (0, 0), (0, 15)] {
        let d = Duration::from_parts(secs, nanos).unwrap();
        assert_eq!(
            d.show(),
            format!("{:?}", std::time::Duration::new(secs, nanos))
        );
    }
}
