//! Log lines for lifecycle and operational events.
//!
//! One event per line in logfmt (`key=value`), gated by a minimum level and
//! optionally prefixed with an RFC 3339 UTC timestamp:
//!
//! ```text
//! draug: level=info event=spawned target="<command> [args...]" pid=1234
//! ```

use crate::calendar::{
    civil_from_days, day_number, days_are_numbered_in_order, days_before_month, earlier,
    valid_date,
};
use crate::text::{
    all_digits, chars_of, digits_value, lemma_padded, lemma_padded_in_order,
    lemma_sorts_before_prefix, lemma_sorts_before_suffix, lower_of, padded, push_padded,
    push_text, same, sorts_before, text_of, to_lower, told, trim, trim_of,
};
use std::str::FromStr;
use vstd::arithmetic::power::pow;
use vstd::prelude::*;

verus! {

/// Seconds in one day.
pub const SECS_PER_DAY: u64 = 86_400;

/// 9999-12-31T23:59:59Z, the last second with a year of four digits.
pub const LAST_SECOND_OF_9999: u64 = 253_402_300_799;

/// Severity of a log line, from the most severe to the most verbose.
#[derive(Clone, Copy, PartialEq, Eq, PartialOrd, Ord, Debug, Structural)]
pub enum LogLevel {
    Error,
    Warn,
    Info,
    Debug,
}

/// How verbose a level is.
pub open spec fn verbosity(level: LogLevel) -> int {
    match level {
        LogLevel::Error => 0,
        LogLevel::Warn => 1,
        LogLevel::Info => 2,
        LogLevel::Debug => 3,
    }
}

/// The token that stands for a level.
pub open spec fn label_of(level: LogLevel) -> Seq<char> {
    match level {
        LogLevel::Error => "error"@,
        LogLevel::Warn => "warn"@,
        LogLevel::Info => "info"@,
        LogLevel::Debug => "debug"@,
    }
}

/// The level that a text names, in any letter case and with white space around
/// it, or what to say about one that names none.
pub open spec fn level_of(s: Seq<char>) -> Result<LogLevel, Seq<char>> {
    let name = lower_of(trim_of(s));
    if name == "error"@ {
        Ok(LogLevel::Error)
    } else if name == "warn"@ || name == "warning"@ {
        Ok(LogLevel::Warn)
    } else if name == "info"@ {
        Ok(LogLevel::Info)
    } else if name == "debug"@ {
        Ok(LogLevel::Debug)
    } else {
        Err("invalid log level: "@ + name + " (want error|warn|info|debug)"@)
    }
}

impl LogLevel {
    /// The lower-case token used in the `level=` field and accepted as a setting.
    pub fn label(self) -> (s: &'static str)
        ensures
            s@ == label_of(self),
    {
        match self {
            LogLevel::Error => "error",
            LogLevel::Warn => "warn",
            LogLevel::Info => "info",
            LogLevel::Debug => "debug",
        }
    }

    /// The level that a text names.
    pub fn parse(s: &str) -> (r: Result<LogLevel, String>)
        ensures
            told(r) == level_of(s@),
    {
        let chars = chars_of(s);
        let name = to_lower(trim(chars.as_slice()));
        let name = name.as_slice();
        if same(name, "error") {
            Ok(LogLevel::Error)
        } else if same(name, "warn") || same(name, "warning") {
            Ok(LogLevel::Warn)
        } else if same(name, "info") {
            Ok(LogLevel::Info)
        } else if same(name, "debug") {
            Ok(LogLevel::Debug)
        } else {
            let mut e = "invalid log level: ".to_owned();
            push_text(&mut e, text_of(name).as_str());
            push_text(&mut e, " (want error|warn|info|debug)");
            Err(e)
        }
    }
}

impl FromStr for LogLevel {
    type Err = String;

    fn from_str(s: &str) -> (r: Result<LogLevel, String>)
        ensures
            told(r) == level_of(s@),
    {
        LogLevel::parse(s)
    }
}

/// Whether a line of level `line` is emitted under `threshold`: when it is no more
/// verbose.
pub fn enabled(line: LogLevel, threshold: LogLevel) -> (b: bool)
    ensures
        b == (verbosity(line) <= verbosity(threshold)),
        line == LogLevel::Error ==> b,
        threshold == LogLevel::Debug ==> b,
        line == threshold ==> b,
        line == LogLevel::Debug && threshold != LogLevel::Debug ==> !b,
        threshold == LogLevel::Error && line != LogLevel::Error ==> !b,
{
    match threshold {
        LogLevel::Error => matches!(line, LogLevel::Error),
        LogLevel::Warn => matches!(line, LogLevel::Error | LogLevel::Warn),
        LogLevel::Info => !matches!(line, LogLevel::Debug),
        LogLevel::Debug => true,
    }
}

/// Gates and formats event lines.
#[derive(Clone, Copy, PartialEq, Eq, Debug, Structural)]
pub struct Logger {
    pub min: LogLevel,
    pub timestamps: bool,
}

/// The text of a line without its timestamp.
pub open spec fn line_of(level: LogLevel, body: Seq<char>) -> Seq<char> {
    "draug: level="@ + label_of(level) + " "@ + body
}

impl Logger {
    pub fn new(min: LogLevel, timestamps: bool) -> (l: Logger)
        ensures
            l == (Logger { min, timestamps }),
    {
        Logger { min, timestamps }
    }

    /// The line to emit for an event at `unix_secs` seconds since 1970, or `None`
    /// if the threshold hides it. `body` is what follows the `level=` field.
    pub fn line(&self, level: LogLevel, body: &str, unix_secs: u64) -> (r: Option<String>)
        ensures
            r is Some <==> verbosity(level) <= verbosity(self.min),
            r matches Some(text) ==> {
                ||| !self.timestamps && text@ == line_of(level, body@)
                ||| self.timestamps && exists|stamp: Seq<char>|
                    is_rfc3339(stamp, unix_secs) && text@ == #[trigger] (stamp + " "@) + line_of(
                        level,
                        body@,
                    )
            },
    {
        if !enabled(level, self.min) {
            return None;
        }
        let mut text = String::new();
        if self.timestamps {
            let stamp = format_rfc3339_utc(unix_secs);
            push_text(&mut text, stamp.as_str());
            push_text(&mut text, " ");
            assert(text@ == stamp@ + " "@);
            push_line(&mut text, level, body);
            assert(text@ == (stamp@ + " "@) + line_of(level, body@));
        } else {
            push_line(&mut text, level, body);
        }
        Some(text)
    }
}

fn push_line(text: &mut String, level: LogLevel, body: &str)
    ensures
        final(text)@ == old(text)@ + line_of(level, body@),
{
    push_text(text, "draug: level=");
    push_text(text, level.label());
    push_text(text, " ");
    push_text(text, body);
}

/// The text of a date and a second of the day.
pub open spec fn stamp_of(year: nat, month: nat, day: nat, second: nat) -> Seq<char> {
    padded(year, 4) + seq!['-'] + padded(month, 2) + seq!['-'] + padded(day, 2) + seq!['T']
        + padded(second / 3600, 2) + seq![':'] + padded(second % 3600 / 60, 2) + seq![':']
        + padded(second % 60, 2) + seq!['Z']
}

/// Whether the text says which second `unix_secs` is, as an RFC 3339 UTC timestamp.
pub open spec fn is_rfc3339(text: Seq<char>, unix_secs: u64) -> bool {
    exists|year: nat, month: nat, day: nat|
        #![trigger stamp_of(year, month, day, unix_secs as nat % SECS_PER_DAY as nat)]
        {
            &&& valid_date(year as int, month as int, day as int)
            &&& day_number(year as int, month as int, day as int) == unix_secs as int
                / SECS_PER_DAY as int
            &&& text == stamp_of(year, month, day, unix_secs as nat % SECS_PER_DAY as nat)
        }
}

/// Format seconds since 1970-01-01 as an RFC 3339 UTC timestamp,
/// `YYYY-MM-DDThh:mm:ssZ`.
pub fn format_rfc3339_utc(unix_secs: u64) -> (text: String)
    ensures
        is_rfc3339(text@, unix_secs),
{
    let days: i64 = (unix_secs / SECS_PER_DAY) as i64;
    let sod: u64 = unix_secs % SECS_PER_DAY;
    let (y, mon, d): (i64, u32, u32) = civil_from_days(days);
    proof {
        if y < 1970 {
            days_are_numbered_in_order((y as int, mon as int, d as int), (1970, 1, 1));
        }
    }
    let mut text = String::new();
    push_padded(&mut text, y as u64, 4);
    text.push('-');
    push_padded(&mut text, mon as u64, 2);
    text.push('-');
    push_padded(&mut text, d as u64, 2);
    text.push('T');
    push_padded(&mut text, sod / 3600, 2);
    text.push(':');
    push_padded(&mut text, sod % 3600 / 60, 2);
    text.push(':');
    push_padded(&mut text, sod % 60, 2);
    text.push('Z');
    assert(text@ == stamp_of(y as nat, mon as nat, d as nat, sod as nat));
    text
}

/// The label of a level names that level.
pub proof fn label_names_its_level(level: LogLevel)
    ensures
        level_of(label_of(level)) == Ok::<LogLevel, Seq<char>>(level),
{
    reveal_strlit("error");
    reveal_strlit("warn");
    reveal_strlit("warning");
    reveal_strlit("info");
    reveal_strlit("debug");
    let s = label_of(level);
    assert(trim_of(s) == s);
    assert(lower_of(s) == s);
    assert("error"@[0] != "warn"@[0]);
}

/// There is one timestamp for each second.
pub proof fn one_stamp_per_second(a: Seq<char>, b: Seq<char>, unix_secs: u64)
    requires
        is_rfc3339(a, unix_secs),
        is_rfc3339(b, unix_secs),
    ensures
        a == b,
{
    let second = unix_secs as nat % SECS_PER_DAY as nat;
    let day = unix_secs as int / SECS_PER_DAY as int;
    let (ya, ma, da) = choose|y: nat, m: nat, d: nat|
        #![trigger stamp_of(y, m, d, second)]
        valid_date(y as int, m as int, d as int) && day_number(y as int, m as int, d as int) == day
            && a == stamp_of(y, m, d, second);
    let (yb, mb, db) = choose|y: nat, m: nat, d: nat|
        #![trigger stamp_of(y, m, d, second)]
        valid_date(y as int, m as int, d as int) && day_number(y as int, m as int, d as int) == day
            && b == stamp_of(y, m, d, second);
    let first = (ya as int, ma as int, da as int);
    let other = (yb as int, mb as int, db as int);
    if earlier(first, other) {
        days_are_numbered_in_order(first, other);
    }
    if earlier(other, first) {
        days_are_numbered_in_order(other, first);
    }
}

/// Whether the text is a timestamp `YYYY-MM-DDThh:mm:ssZ` with a date of the calendar and
/// a time of day.
pub open spec fn is_timestamp(s: Seq<char>) -> bool {
    &&& s.len() == 20
    &&& all_digits(s.subrange(0, 4)) && s[4] == '-'
    &&& all_digits(s.subrange(5, 7)) && s[7] == '-'
    &&& all_digits(s.subrange(8, 10)) && s[10] == 'T'
    &&& all_digits(s.subrange(11, 13)) && s[13] == ':'
    &&& all_digits(s.subrange(14, 16)) && s[16] == ':'
    &&& all_digits(s.subrange(17, 19)) && s[19] == 'Z'
    &&& valid_date(
        digits_value(s.subrange(0, 4)) as int,
        digits_value(s.subrange(5, 7)) as int,
        digits_value(s.subrange(8, 10)) as int,
    )
    &&& digits_value(s.subrange(11, 13)) < 24
    &&& digits_value(s.subrange(14, 16)) < 60
    &&& digits_value(s.subrange(17, 19)) < 60
}

proof fn lemma_powers_of_ten()
    ensures
        pow(10, 2) == 100,
        pow(10, 4) == 10_000,
{
    reveal_with_fuel(pow, 5);
}

/// Years have four digits up to the last second of the year 9999.
proof fn lemma_year_has_four_digits(year: nat, month: nat, day: nat, unix_secs: u64)
    requires
        unix_secs <= LAST_SECOND_OF_9999,
        valid_date(year as int, month as int, day as int),
        day_number(year as int, month as int, day as int) == unix_secs as int
            / SECS_PER_DAY as int,
    ensures
        year <= 9999,
{
    if year > 9999 {
        reveal_with_fuel(days_before_month, 13);
        days_are_numbered_in_order((9999, 12, 31), (year as int, month as int, day as int));
        assert(day_number(9999, 12, 31) == 2_932_896);
    }
}

/// Up to the last second of the year 9999, every timestamp is 20 characters in the form
/// `YYYY-MM-DDThh:mm:ssZ`, with a date of the calendar, an hour under 24, and a minute and
/// a second under 60.
pub proof fn stamps_have_one_form(text: Seq<char>, unix_secs: u64)
    requires
        unix_secs <= LAST_SECOND_OF_9999,
        is_rfc3339(text, unix_secs),
    ensures
        is_timestamp(text),
{
    let second = unix_secs as nat % SECS_PER_DAY as nat;
    let (y, m, d) = choose|y: nat, m: nat, d: nat|
        #![trigger stamp_of(y, m, d, second)]
        valid_date(y as int, m as int, d as int) && day_number(y as int, m as int, d as int)
            == unix_secs as int / SECS_PER_DAY as int && text == stamp_of(y, m, d, second);
    lemma_year_has_four_digits(y, m, d, unix_secs);
    lemma_powers_of_ten();
    lemma_padded(y, 4);
    lemma_padded(m, 2);
    lemma_padded(d, 2);
    lemma_padded(second / 3600, 2);
    lemma_padded(second % 3600 / 60, 2);
    lemma_padded(second % 60, 2);
    assert(text.subrange(0, 4) == padded(y, 4));
    assert(text.subrange(5, 7) == padded(m, 2));
    assert(text.subrange(8, 10) == padded(d, 2));
    assert(text.subrange(11, 13) == padded(second / 3600, 2));
    assert(text.subrange(14, 16) == padded(second % 3600 / 60, 2));
    assert(text.subrange(17, 19) == padded(second % 60, 2));
}

/// Two texts of one length, equal so far or already in order, stay so when a number and a
/// mark are appended to each, and stay equal only if the numbers are equal.
proof fn lemma_next_field(s: Seq<char>, t: Seq<char>, n: nat, other: nat, width: nat, mark: char)
    requires
        s.len() == t.len(),
        s == t || sorts_before(s, t),
        s == t ==> n <= other,
        width >= 1,
        n < pow(10, width),
        other < pow(10, width),
    ensures
        ({
            let after_s = s + padded(n, width) + seq![mark];
            let after_t = t + padded(other, width) + seq![mark];
            &&& after_s.len() == after_t.len()
            &&& if s == t && n == other {
                after_s == after_t
            } else {
                sorts_before(after_s, after_t)
            }
        }),
{
    let field = padded(n, width);
    let other_field = padded(other, width);
    lemma_padded(n, width);
    lemma_padded(other, width);
    if s == t && n == other {
    } else {
        if s == t {
            lemma_padded_in_order(n, other, width);
            lemma_sorts_before_suffix(s, field, other_field);
        } else {
            lemma_sorts_before_prefix(s, t, field, other_field);
        }
        lemma_sorts_before_prefix(s + field, t + other_field, seq![mark], seq![mark]);
    }
}

/// The texts of two moments sort in the order of the moments.
proof fn lemma_stamps_in_order(a: (nat, nat, nat, nat), b: (nat, nat, nat, nat))
    requires
        a.0 <= 9999 && a.1 < 100 && a.2 < 100 && a.3 < SECS_PER_DAY,
        b.0 <= 9999 && b.1 < 100 && b.2 < 100 && b.3 < SECS_PER_DAY,
        earlier((a.0 as int, a.1 as int, a.2 as int), (b.0 as int, b.1 as int, b.2 as int)) || (
        a.0 == b.0 && a.1 == b.1 && a.2 == b.2 && a.3 < b.3),
    ensures
        sorts_before(stamp_of(a.0, a.1, a.2, a.3), stamp_of(b.0, b.1, b.2, b.3)),
{
    lemma_powers_of_ten();
    let s0 = Seq::<char>::empty();
    lemma_next_field(s0, s0, a.0, b.0, 4, '-');
    let s1 = s0 + padded(a.0, 4) + seq!['-'];
    let t1 = s0 + padded(b.0, 4) + seq!['-'];
    lemma_next_field(s1, t1, a.1, b.1, 2, '-');
    let s2 = s1 + padded(a.1, 2) + seq!['-'];
    let t2 = t1 + padded(b.1, 2) + seq!['-'];
    lemma_next_field(s2, t2, a.2, b.2, 2, 'T');
    let s3 = s2 + padded(a.2, 2) + seq!['T'];
    let t3 = t2 + padded(b.2, 2) + seq!['T'];
    lemma_next_field(s3, t3, a.3 / 3600, b.3 / 3600, 2, ':');
    let s4 = s3 + padded(a.3 / 3600, 2) + seq![':'];
    let t4 = t3 + padded(b.3 / 3600, 2) + seq![':'];
    lemma_next_field(s4, t4, a.3 % 3600 / 60, b.3 % 3600 / 60, 2, ':');
    let s5 = s4 + padded(a.3 % 3600 / 60, 2) + seq![':'];
    let t5 = t4 + padded(b.3 % 3600 / 60, 2) + seq![':'];
    lemma_next_field(s5, t5, a.3 % 60, b.3 % 60, 2, 'Z');
    assert(s0 + padded(a.0, 4) == padded(a.0, 4));
    assert(s0 + padded(b.0, 4) == padded(b.0, 4));
}

/// Up to the last second of the year 9999, timestamps sort as strings in the order of the
/// seconds they stand for.
pub proof fn stamps_sort_by_time(a: Seq<char>, b: Seq<char>, a_secs: u64, b_secs: u64)
    requires
        a_secs < b_secs <= LAST_SECOND_OF_9999,
        is_rfc3339(a, a_secs),
        is_rfc3339(b, b_secs),
    ensures
        sorts_before(a, b),
{
    let a_second = a_secs as nat % SECS_PER_DAY as nat;
    let b_second = b_secs as nat % SECS_PER_DAY as nat;
    let (ya, ma, da) = choose|y: nat, m: nat, d: nat|
        #![trigger stamp_of(y, m, d, a_second)]
        valid_date(y as int, m as int, d as int) && day_number(y as int, m as int, d as int)
            == a_secs as int / SECS_PER_DAY as int && a == stamp_of(y, m, d, a_second);
    let (yb, mb, db) = choose|y: nat, m: nat, d: nat|
        #![trigger stamp_of(y, m, d, b_second)]
        valid_date(y as int, m as int, d as int) && day_number(y as int, m as int, d as int)
            == b_secs as int / SECS_PER_DAY as int && b == stamp_of(y, m, d, b_second);
    let first = (ya as int, ma as int, da as int);
    let other = (yb as int, mb as int, db as int);
    if earlier(other, first) {
        days_are_numbered_in_order(other, first);
    }
    lemma_year_has_four_digits(ya, ma, da, a_secs);
    lemma_year_has_four_digits(yb, mb, db, b_secs);
    lemma_stamps_in_order((ya, ma, da, a_second), (yb, mb, db, b_second));
}

/// The more severe a level, the less hides it: an error is shown under every threshold, a
/// debug line only under the most verbose one, and what one threshold shows every more
/// verbose one shows too.
pub proof fn severe_lines_are_shown(threshold: LogLevel)
    ensures
        verbosity(LogLevel::Error) < verbosity(LogLevel::Warn) < verbosity(LogLevel::Info)
            < verbosity(LogLevel::Debug),
        verbosity(LogLevel::Error) <= verbosity(threshold),
        verbosity(LogLevel::Debug) <= verbosity(threshold) <==> threshold == LogLevel::Debug,
        verbosity(LogLevel::Warn) <= verbosity(threshold) <==> threshold != LogLevel::Error,
{
}

/// Each level is named by its own word, in lower case; a warning also by the long form.
pub proof fn levels_are_named_by_their_words()
    ensures
        label_of(LogLevel::Error) == "error"@,
        label_of(LogLevel::Warn) == "warn"@,
        label_of(LogLevel::Info) == "info"@,
        label_of(LogLevel::Debug) == "debug"@,
        level_of("warning"@) == Ok::<LogLevel, Seq<char>>(LogLevel::Warn),
{
    reveal_strlit("error");
    reveal_strlit("warn");
    reveal_strlit("warning");
    reveal_strlit("info");
    reveal_strlit("debug");
    let s = "warning"@;
    assert(trim_of(s) == s);
    assert(lower_of(s) == s);
    assert("error"@[0] != s[0]);
}

/// A line names the program and its level before anything else, and ends with its body.
pub proof fn lines_name_their_level(level: LogLevel, body: Seq<char>)
    ensures
        line_of(level, body) == "draug: level="@ + label_of(level) + " "@ + body,
        line_of(level, body).len() >= body.len(),
        line_of(level, body).skip(line_of(level, body).len() - body.len()) == body,
{
    let head = "draug: level="@ + label_of(level) + " "@;
    assert((head + body).skip(head.len() as int) == body);
}

/// A level is named by its word in any letter case, with white space around it or without;
/// nothing else names one.
pub proof fn levels_are_named(s: Seq<char>)
    ensures
        ({
            let name = lower_of(trim_of(s));
            &&& level_of(s) == Ok::<LogLevel, Seq<char>>(LogLevel::Error) <==> name == "error"@
            &&& level_of(s) == Ok::<LogLevel, Seq<char>>(LogLevel::Warn) <==> (name == "warn"@ || name
                == "warning"@)
            &&& level_of(s) == Ok::<LogLevel, Seq<char>>(LogLevel::Info) <==> name == "info"@
            &&& level_of(s) == Ok::<LogLevel, Seq<char>>(LogLevel::Debug) <==> name == "debug"@
        }),
{
    reveal_strlit("error");
    reveal_strlit("warn");
    reveal_strlit("warning");
    reveal_strlit("info");
    reveal_strlit("debug");
    assert("error"@[0] == 'e' && "warn"@[0] == 'w' && "warning"@[0] == 'w');
    assert("info"@[0] == 'i' && "debug"@[0] == 'd');
}

/// A timestamp tells the very second that it stands for: its date is so many days after the
/// first of January 1970, and its time so many seconds after midnight.
pub proof fn stamps_tell_their_second(text: Seq<char>, unix_secs: u64)
    requires
        unix_secs <= LAST_SECOND_OF_9999,
        is_rfc3339(text, unix_secs),
    ensures
        text.len() == 20,
        86_400 * day_number(
            digits_value(text.subrange(0, 4)) as int,
            digits_value(text.subrange(5, 7)) as int,
            digits_value(text.subrange(8, 10)) as int,
        ) + 3600 * digits_value(text.subrange(11, 13)) + 60 * digits_value(text.subrange(14, 16))
            + digits_value(text.subrange(17, 19)) == unix_secs,
{
    let second = unix_secs as nat % SECS_PER_DAY as nat;
    let (y, m, d) = choose|y: nat, m: nat, d: nat|
        #![trigger stamp_of(y, m, d, second)]
        valid_date(y as int, m as int, d as int) && day_number(y as int, m as int, d as int)
            == unix_secs as int / SECS_PER_DAY as int && text == stamp_of(y, m, d, second);
    lemma_year_has_four_digits(y, m, d, unix_secs);
    lemma_powers_of_ten();
    lemma_padded(y, 4);
    lemma_padded(m, 2);
    lemma_padded(d, 2);
    lemma_padded(second / 3600, 2);
    lemma_padded(second % 3600 / 60, 2);
    lemma_padded(second % 60, 2);
    assert(text.subrange(0, 4) == padded(y, 4));
    assert(text.subrange(5, 7) == padded(m, 2));
    assert(text.subrange(8, 10) == padded(d, 2));
    assert(text.subrange(11, 13) == padded(second / 3600, 2));
    assert(text.subrange(14, 16) == padded(second % 3600 / 60, 2));
    assert(text.subrange(17, 19) == padded(second % 60, 2));
}

} // verus!
