//! The age of the heartbeat.

use draug::heartbeat::{heartbeat_age, HeartbeatAge, Modified, WallTime};
use draug::time::Duration;

fn at(secs: i64, nanos: u32) -> WallTime {
    WallTime::new(secs, nanos).unwrap()
}

#[test]
fn missing_file_is_missing() {
    assert!(matches!(
        heartbeat_age(Modified::NotFound, at(1_700_000_000, 0)),
        HeartbeatAge::Missing
    ));
}

#[test]
fn present_but_unreadable_is_not_missing() {
    assert_eq!(
        heartbeat_age(Modified::Failed, at(1_700_000_000, 0)),
        HeartbeatAge::Unreadable
    );
}

#[test]
fn fresh_file_has_small_age() {
    let now = at(1_700_000_000, 5_000_000);
    match heartbeat_age(Modified::At(at(1_699_999_999, 999_000_000)), now) {
        HeartbeatAge::Age(a) => assert_eq!(a, Duration::from_millis(6)),
        other => panic!("should exist: {other:?}"),
    }
}

#[test]
fn future_mtime_clamps_to_zero() {
    let mtime = at(1_700_000_000, 0);
    let past = at(1_700_000_000 - 3600, 0);
    assert!(matches!(heartbeat_age(Modified::At(mtime), past), HeartbeatAge::Age(a) if a.is_zero()));
}

#[test]
fn known_offset_yields_exact_age() {
    let mtime = at(1_700_000_000, 123);
    let now = at(1_700_000_100, 123);
    match heartbeat_age(Modified::At(mtime), now) {
        HeartbeatAge::Age(a) => assert_eq!(a, Duration::from_secs(100)),
        other => panic!("file should exist: {other:?}"),
    }
}

#[test]
fn ages_span_the_whole_range() {
    let oldest = at(i64::MIN, 0);
    let newest = at(i64::MAX, 999_999_999);
    assert_eq!(newest.since(oldest), Duration::max());
    assert!(oldest.since(newest).is_zero());
    assert!(WallTime::new(0, 1_000_000_000).is_none());
}

#[test]
fn times_count_from_the_epoch() {
    let d = Duration::from_parts(5, 250_000_000).unwrap();
    assert_eq!(WallTime::from_epoch(d, false), WallTime::new(5, 250_000_000));
    assert_eq!(WallTime::from_epoch(d, true), WallTime::new(-6, 750_000_000));
    assert_eq!(
        WallTime::from_epoch(Duration::from_secs(7), true),
        WallTime::new(-7, 0)
    );
    assert_eq!(
        WallTime::from_epoch(Duration::from_secs(1 << 63), true),
        WallTime::new(i64::MIN, 0)
    );
    assert_eq!(WallTime::from_epoch(Duration::from_secs(1 << 63), false), None);
    assert_eq!(WallTime::from_epoch(Duration::max(), true), None);
    assert_eq!(at(5, 999_999_999).unix_secs(), 5);
    assert_eq!(at(-1, 999_999_999).unix_secs(), 0);
}
