//! Memory pressure.

use draug::binary64::Binary64;
use draug::config::PsiTrigger;
use draug::path::UnixPath;
use draug::psi::{
    open, parse_avg, parse_pressure, poll_triggered, threshold_pct, trigger_command, PsiHandle,
};

fn f(x: f64) -> Binary64 {
    Binary64::from_bits(x.to_bits())
}

fn number(s: &str) -> Option<Binary64> {
    s.parse::<f64>().ok().map(f)
}

fn text(p: &UnixPath) -> String {
    String::from_utf8(p.bytes.clone()).unwrap()
}

fn trig_15pct() -> PsiTrigger {
    PsiTrigger {
        stall_us: 150000,
        window_us: 1000000,
    }
}

fn poll(content: Option<&str>) -> bool {
    let read = |p: &UnixPath| {
        assert_eq!(text(p), "/cg/memory.pressure");
        content.map(|s| s.to_string()).ok_or(())
    };
    poll_triggered(
        &UnixPath::new("/cg/memory.pressure"),
        &trig_15pct(),
        &read,
        &number,
    )
}

fn poll_avg10(some_avg10: &str) -> bool {
    poll(Some(&format!(
        "some avg10={some_avg10} avg60=0.00 avg300=0.00 total=0\n\
         full avg10=0.00 avg60=0.00 avg300=0.00 total=0\n"
    )))
}

#[test]
fn parse_full_pressure_block() {
    let text = "some avg10=0.50 avg60=0.10 avg300=0.00 total=12345\n\
                full avg10=0.20 avg60=0.05 avg300=0.00 total=678\n";
    let p = parse_pressure(text, &number).unwrap();
    assert_eq!(p.some_avg10, f(0.50));
    assert_eq!(p.some_avg60, f(0.10));
    assert_eq!(p.full_avg10, f(0.20));
}

#[test]
fn parse_rejects_empty_or_garbage() {
    assert!(parse_pressure("", &number).is_none());
    assert!(parse_pressure("garbage line\n", &number).is_none());
}

#[test]
fn trailing_blank_line_still_parses() {
    let text = "some avg10=0.50 avg60=0.10 avg300=0.00 total=12345\n\n";
    let p = parse_pressure(text, &number).unwrap();
    assert_eq!(p.some_avg10, f(0.50));
}

#[test]
fn parse_avg_rejects_non_finite() {
    assert_eq!(parse_avg("avg10=inf", "avg10=", &number), None);
    assert_eq!(parse_avg("avg10=-inf", "avg10=", &number), None);
    assert_eq!(parse_avg("avg10=infinity", "avg10=", &number), None);
    assert_eq!(parse_avg("avg10=nan", "avg10=", &number), None);
    assert_eq!(parse_avg("avg10=NaN", "avg10=", &number), None);
}

#[test]
fn parse_avg_accepts_finite() {
    assert_eq!(parse_avg("avg10=12.34", "avg10=", &number), Some(f(12.34)));
    assert_eq!(parse_avg("avg10=0.00", "avg10=", &number), Some(f(0.0)));
    assert_eq!(parse_avg("avg10=100.00", "avg10=", &number), Some(f(100.0)));
    assert_eq!(parse_avg("avg60=1", "avg10=", &number), None);
    assert_eq!(parse_avg("avg", "avg10=", &number), None);
}

#[test]
fn parse_pressure_non_finite_some_avg10_does_not_parse() {
    let text = "some avg10=inf avg60=0.00 avg300=0.00 total=0\n\
                full avg10=0.00 avg60=0.00 avg300=0.00 total=0\n";
    assert!(parse_pressure(text, &number).is_none());
}

#[test]
fn poll_non_finite_some_avg10_is_false() {
    assert!(!poll_avg10("inf"));
}

#[test]
fn parse_some_only_defaults_full_to_zero() {
    let text = "some avg10=1.50 avg60=0.30 avg300=0.10 total=999\n";
    let p = parse_pressure(text, &number).unwrap();
    assert_eq!(p.some_avg10, f(1.50));
    assert_eq!(p.full_avg10, f(0.0));
    assert_eq!(p.full_avg60, f(0.0));
    assert_eq!(p.full_avg300, f(0.0));
}

#[test]
fn last_line_of_a_kind_counts() {
    let text = "some avg10=1 avg60=2 avg300=3\n\
                other avg10=7 avg60=7 avg300=7\n\
                some avg10=4 avg60=5 avg300=6 total=1\n\
                some avg10=8 avg60=9\n";
    let p = parse_pressure(text, &number).unwrap();
    assert_eq!(p.some_avg10, f(4.0));
    assert_eq!(p.some_avg300, f(6.0));
}

#[test]
fn poll_above_threshold_is_true() {
    assert!(poll_avg10("42.00"));
}

#[test]
fn poll_below_threshold_is_false() {
    assert!(!poll_avg10("5.00"));
}

#[test]
fn poll_exactly_at_threshold_is_true() {
    assert!(poll_avg10("15.0"));
}

#[test]
fn poll_just_above_threshold_is_true() {
    assert!(poll_avg10("15.1"));
}

#[test]
fn poll_just_below_threshold_is_false() {
    assert!(!poll_avg10("14.9"));
}

#[test]
fn poll_malformed_file_is_false() {
    assert!(!poll(Some("garbage line\n")));
}

#[test]
fn poll_empty_file_is_false() {
    assert!(!poll(Some("")));
}

#[test]
fn poll_nonexistent_path_is_false() {
    assert!(!poll(None));
}

#[test]
fn threshold_is_the_share_in_percent() {
    for (stall_us, window_us) in [
        (150_000u64, 1_000_000u64),
        (1_000_000, 1_000_000),
        (1, 3),
        (7, u64::MAX),
        (u64::MAX, 3),
        (5, 0),
        (123_456_789_012_345_678, 987_654_321),
    ] {
        let t = threshold_pct(&PsiTrigger {
            stall_us,
            window_us,
        });
        assert_eq!(t, f(100.0 * (stall_us as f64) / (window_us as f64)));
    }
}

#[test]
fn trigger_is_armed_with_its_figures() {
    assert_eq!(trigger_command(&trig_15pct()), "some 150000 1000000");
}

fn opened(exists: bool, opens: bool, writes: bool, reads: bool) -> PsiHandle<u32> {
    let at = |p: &UnixPath| assert_eq!(text(p), "/cg/memory.pressure");
    open(
        &UnixPath::new("/cg"),
        &trig_15pct(),
        &|p: &UnixPath| {
            at(p);
            exists
        },
        &|p: &UnixPath| {
            at(p);
            opens.then_some(7u32)
        },
        &|h: u32, command: &str| {
            assert_eq!(command, "some 150000 1000000");
            writes.then_some(h)
        },
        &|p: &UnixPath| {
            at(p);
            reads
        },
    )
}

#[test]
fn open_missing_file_is_unavailable() {
    assert!(matches!(
        opened(false, true, true, true),
        PsiHandle::Unavailable
    ));
}

#[test]
fn open_takes_the_most_capable_way() {
    assert!(matches!(
        opened(true, true, true, true),
        PsiHandle::Event(7)
    ));
    assert!(matches!(
        opened(true, true, false, true),
        PsiHandle::Poll(p) if text(&p) == "/cg/memory.pressure"
    ));
    assert!(matches!(
        opened(true, false, true, true),
        PsiHandle::Poll(_)
    ));
    assert!(matches!(
        opened(true, false, true, false),
        PsiHandle::Unavailable
    ));
}
