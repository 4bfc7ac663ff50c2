//! Log levels, lines and timestamps.

use draug::calendar::civil_from_days;
use draug::log::{enabled, format_rfc3339_utc, LogLevel, Logger, LAST_SECOND_OF_9999};

#[test]
fn log_level_parses_case_insensitively_with_aliases() {
    assert_eq!("error".parse::<LogLevel>().unwrap(), LogLevel::Error);
    assert_eq!("WARN".parse::<LogLevel>().unwrap(), LogLevel::Warn);
    assert_eq!("warning".parse::<LogLevel>().unwrap(), LogLevel::Warn);
    assert_eq!("  Info ".parse::<LogLevel>().unwrap(), LogLevel::Info);
    assert_eq!("debug".parse::<LogLevel>().unwrap(), LogLevel::Debug);
}

#[test]
fn log_level_rejects_unknown() {
    assert!("trace".parse::<LogLevel>().is_err());
    assert!("".parse::<LogLevel>().is_err());
    assert!("3".parse::<LogLevel>().is_err());
}

#[test]
fn rejected_log_level_is_named() {
    assert_eq!(
        LogLevel::parse(" Trace "),
        Err("invalid log level: trace (want error|warn|info|debug)".to_string())
    );
}

#[test]
fn label_roundtrips_through_parse() {
    for lvl in [
        LogLevel::Error,
        LogLevel::Warn,
        LogLevel::Info,
        LogLevel::Debug,
    ] {
        assert_eq!(lvl.label().parse::<LogLevel>().unwrap(), lvl);
    }
}

#[test]
fn enabled_matrix_is_at_or_below_threshold() {
    let (error, warn, info, debug) = (
        LogLevel::Error,
        LogLevel::Warn,
        LogLevel::Info,
        LogLevel::Debug,
    );
    let order = [error, warn, info, debug];
    for (ti, &threshold) in order.iter().enumerate() {
        for (li, &line) in order.iter().enumerate() {
            assert_eq!(
                enabled(line, threshold),
                li <= ti,
                "line={line:?} threshold={threshold:?}"
            );
        }
    }
    assert!(enabled(error, info));
    assert!(enabled(warn, info));
    assert!(enabled(info, info));
    assert!(!enabled(debug, info));
    assert!(!enabled(info, warn));
}

#[test]
fn rfc3339_epoch_and_day_boundaries() {
    assert_eq!(format_rfc3339_utc(0), "1970-01-01T00:00:00Z");
    assert_eq!(format_rfc3339_utc(86_399), "1970-01-01T23:59:59Z");
    assert_eq!(format_rfc3339_utc(86_400), "1970-01-02T00:00:00Z");
}

#[test]
fn rfc3339_handles_leap_years_and_centuries() {
    assert_eq!(format_rfc3339_utc(1_577_836_800), "2020-01-01T00:00:00Z");
    assert_eq!(format_rfc3339_utc(1_582_934_400), "2020-02-29T00:00:00Z");
    assert_eq!(format_rfc3339_utc(1_583_020_800), "2020-03-01T00:00:00Z");
    assert_eq!(format_rfc3339_utc(1_609_459_200), "2021-01-01T00:00:00Z");
}

#[test]
fn rfc3339_formats_intraday_time() {
    assert_eq!(format_rfc3339_utc(1_781_977_547), "2026-06-20T17:45:47Z");
}

#[test]
fn rfc3339_keeps_one_form_to_the_end_of_9999() {
    assert_eq!(
        format_rfc3339_utc(LAST_SECOND_OF_9999),
        "9999-12-31T23:59:59Z"
    );
    assert_eq!(
        format_rfc3339_utc(LAST_SECOND_OF_9999 + 1),
        "10000-01-01T00:00:00Z"
    );
    for secs in [0, 59, 3_600, 951_782_400, 4_107_542_399, LAST_SECOND_OF_9999] {
        let stamp = format_rfc3339_utc(secs);
        assert_eq!(stamp.len(), 20);
        for (i, c) in stamp.chars().enumerate() {
            match i {
                4 | 7 => assert_eq!(c, '-'),
                10 => assert_eq!(c, 'T'),
                13 | 16 => assert_eq!(c, ':'),
                19 => assert_eq!(c, 'Z'),
                _ => assert!(c.is_ascii_digit()),
            }
        }
    }
}

#[test]
fn rfc3339_sorts_by_time() {
    let times = [
        0,
        9,
        10,
        59,
        60,
        3_599,
        3_600,
        86_399,
        86_400,
        2_678_399,
        2_678_400,
        31_535_999,
        31_536_000,
        253_370_764_799,
        253_370_764_800,
        LAST_SECOND_OF_9999,
    ];
    for pair in times.windows(2) {
        assert!(format_rfc3339_utc(pair[0]) < format_rfc3339_utc(pair[1]));
    }
}

#[test]
fn rfc3339_of_the_last_second() {
    assert_eq!(
        format_rfc3339_utc(u64::MAX),
        "584554051223-11-09T07:00:15Z"
    );
}

#[test]
fn dates_before_1970_and_across_centuries() {
    assert_eq!(civil_from_days(0), (1970, 1, 1));
    assert_eq!(civil_from_days(-1), (1969, 12, 31));
    assert_eq!(civil_from_days(-719_468), (0, 3, 1));
    assert_eq!(civil_from_days(-719_469), (0, 2, 29));
    assert_eq!(civil_from_days(-25_509), (1900, 2, 28));
    assert_eq!(civil_from_days(-25_508), (1900, 3, 1));
    assert_eq!(civil_from_days(11_016), (2000, 2, 29));
}

#[test]
fn lines_are_gated_and_stamped() {
    let plain = Logger::new(LogLevel::Info, false);
    assert_eq!(
        plain.line(LogLevel::Warn, "event=x", 0).unwrap(),
        "draug: level=warn event=x"
    );
    assert!(plain.line(LogLevel::Debug, "event=x", 0).is_none());
    let stamped = Logger::new(LogLevel::Debug, true);
    assert_eq!(
        stamped.line(LogLevel::Debug, "event=x", 86_400).unwrap(),
        "1970-01-02T00:00:00Z draug: level=debug event=x"
    );
}
