//! Dates of the proleptic Gregorian calendar.

use vstd::prelude::*;

verus! {

/// Whether the year has a leap day.
pub open spec fn leap(year: int) -> bool {
    year % 4 == 0 && (year % 100 != 0 || year % 400 == 0)
}

/// The length of a month.
pub open spec fn days_in_month(year: int, month: int) -> int {
    if month == 2 {
        if leap(year) {
            29
        } else {
            28
        }
    } else if month == 4 || month == 6 || month == 9 || month == 11 {
        30
    } else {
        31
    }
}

/// Whether there is such a date.
pub open spec fn valid_date(year: int, month: int, day: int) -> bool {
    1 <= month <= 12 && 1 <= day <= days_in_month(year, month)
}

/// Days from the first day of the year 1 to the first day of `year`.
pub open spec fn days_before_year(year: int) -> int {
    let n = year - 1;
    365 * n + n / 4 - n / 100 + n / 400
}

/// Days from the first day of the year to the first day of `month`.
pub open spec fn days_before_month(year: int, month: int) -> int
    decreases month,
{
    if month <= 1 {
        0
    } else {
        days_before_month(year, month - 1) + days_in_month(year, month - 1)
    }
}

/// Days from 1970-01-01 to the date.
pub open spec fn day_number(year: int, month: int, day: int) -> int {
    days_before_year(year) - days_before_year(1970) + days_before_month(year, month) + day - 1
}

proof fn lemma_days_before_month(year: int)
    ensures
        days_before_month(year, 1) == 0,
        days_before_month(year, 2) == 31,
        days_before_month(year, 3) == 59 + if leap(year) {
            1int
        } else {
            0
        },
        forall|m: int|
            3 <= m <= 13 ==> #[trigger] days_before_month(year, m) == days_before_month(year, 3)
                + (153 * (m - 3) + 2) / 5,
{
    reveal_with_fuel(days_before_month, 14);
}

/// A year is as long as its months: consecutive years are 365 days apart, or 366
/// across a leap day.
pub proof fn years_are_as_long_as_their_months(year: int)
    ensures
        days_before_year(year + 1) - days_before_year(year) == days_before_month(year, 13),
        days_before_month(year, 13) == if leap(year) {
            366int
        } else {
            365
        },
{
    lemma_days_before_month(year);
    assert((153 * (13 - 3) + 2) / 5 == 306);
}

/// Whether one date comes before another.
pub open spec fn earlier(a: (int, int, int), b: (int, int, int)) -> bool {
    a.0 < b.0 || (a.0 == b.0 && (a.1 < b.1 || (a.1 == b.1 && a.2 < b.2)))
}

/// Days are numbered in the order of their dates, so no two dates share a number.
pub proof fn days_are_numbered_in_order(a: (int, int, int), b: (int, int, int))
    requires
        valid_date(a.0, a.1, a.2),
        valid_date(b.0, b.1, b.2),
        earlier(a, b),
    ensures
        day_number(a.0, a.1, a.2) < day_number(b.0, b.1, b.2),
{
    if a.0 < b.0 {
        years_are_as_long_as_their_months(a.0);
        lemma_within_year(a.0, a.1, 13);
        lemma_within_year(b.0, 1, b.1);
        lemma_years_in_order(a.0 + 1, b.0);
    } else if a.1 < b.1 {
        lemma_within_year(a.0, a.1, b.1);
    }
}

/// A month ends before any later one begins.
proof fn lemma_within_year(year: int, month: int, later: int)
    requires
        1 <= month <= later <= 13,
    ensures
        month < later ==> days_before_month(year, month) + days_in_month(year, month)
            <= days_before_month(year, later),
        days_before_month(year, month) <= days_before_month(year, later),
    decreases later - month,
{
    if month + 1 < later {
        lemma_within_year(year, month + 1, later);
    }
}

proof fn lemma_years_in_order(year: int, later: int)
    requires
        year <= later,
    ensures
        days_before_year(year) <= days_before_year(later),
    decreases later - year,
{
    if year < later {
        years_are_as_long_as_their_months(year);
        lemma_years_in_order(year + 1, later);
    }
}

/// Days from the first of March of the year 0 to the first of March of `year`.
spec fn days_before_march(year: int) -> int {
    365 * year + year / 4 - year / 100 + year / 400
}

proof fn lemma_days_before_march(year: int)
    ensures
        days_before_march(year) == days_before_year(year) + days_before_month(year, 3) + 306,
{
    lemma_days_before_month(year);
}

/// The year within its cycle of 400 years, counted from March.
#[verifier::rlimit(40)]
proof fn lemma_year_of_era(doe: int, yoe: int)
    requires
        0 <= doe <= 146_096,
        yoe == (doe - doe / 1460 + doe / 36_524 - doe / 146_096) / 365,
    ensures
        0 <= yoe <= 399,
        365 * yoe + yoe / 4 - yoe / 100 <= doe,
        doe - (365 * yoe + yoe / 4 - yoe / 100) <= 365,
        doe - (365 * yoe + yoe / 4 - yoe / 100) == 365 ==> leap(yoe + 1),
{
}

/// The month and day of a day of the year, both counted from March.
proof fn lemma_month_of_year(doy: int, mp: int, d: int)
    requires
        0 <= doy <= 365,
        mp == (5 * doy + 2) / 153,
        d == doy - (153 * mp + 2) / 5 + 1,
    ensures
        0 <= mp <= 11,
        1 <= d <= 31,
        mp == 1 || mp == 3 || mp == 6 || mp == 8 ==> d <= 30,
        mp == 11 ==> d <= 29 && (d == 29 ==> doy == 365),
{
}

/// The date `doy` days after the first of March of the year `yoe + 400 * era`.
#[verifier::rlimit(40)]
proof fn lemma_date_from_march(era: int, yoe: int, doy: int, mp: int, d: int)
    requires
        0 <= yoe <= 399,
        0 <= doy <= 365,
        doy == 365 ==> leap(yoe + 1),
        mp == (5 * doy + 2) / 153,
        d == doy - (153 * mp + 2) / 5 + 1,
    ensures
        ({
            let march_year = yoe + 400 * era;
            let m = if mp < 10 {
                mp + 3
            } else {
                mp - 9
            };
            let y = if m <= 2 {
                march_year + 1
            } else {
                march_year
            };
            &&& valid_date(y, m, d)
            &&& day_number(y, m, d) + 719_468 == days_before_march(march_year) + doy
        }),
{
    lemma_month_of_year(doy, mp, d);
    let march_year = yoe + 400 * era;
    lemma_days_before_march(march_year);
    assert(days_before_year(1970) == 719_162);
    if mp < 10 {
        let m = mp + 3;
        lemma_days_before_month(march_year);
        assert(days_before_month(march_year, m) == days_before_month(march_year, 3) + (153 * mp + 2)
            / 5);
    } else {
        let y = march_year + 1;
        years_are_as_long_as_their_months(march_year);
        lemma_days_before_month(march_year);
        assert(days_before_month(march_year, 13) == days_before_month(march_year, 3) + (153 * 10
            + 2) / 5);
        lemma_days_before_month(y);
        assert(leap(yoe + 1) ==> leap(y)) by {
            assert(y == yoe + 1 + 400 * era);
        }
    }
}

/// The cycle of 400 years that a day lies in, and the day within it.
fn era_of(shifted: i64) -> (r: (i64, u64))
    requires
        shifted > i64::MIN + 146_096,
    ensures
        r.1 <= 146_096,
        shifted == r.0 * 146_097 + r.1,
{
    let era: i64 = if shifted >= 0 {
        shifted / 146_097
    } else {
        -((146_096 - shifted) / 146_097)
    };
    (era, (shifted - era * 146_097) as u64)
}

/// The year within its cycle, counted from March, and the day of that year.
fn year_of_era(doe: u64) -> (r: (u64, u64))
    requires
        doe <= 146_096,
    ensures
        r.0 <= 399,
        r.1 <= 365,
        doe == 365 * r.0 + r.0 as int / 4 - r.0 as int / 100 + r.1,
        r.1 == 365 ==> leap(r.0 + 1),
{
    let yoe: u64 = (doe - doe / 1460 + doe / 36_524 - doe / 146_096) / 365;
    proof {
        lemma_year_of_era(doe as int, yoe as int);
    }
    (yoe, doe - (365 * yoe + yoe / 4 - yoe / 100))
}

proof fn lemma_days_before_march_in_era(era: int, yoe: int)
    requires
        0 <= yoe <= 399,
    ensures
        days_before_march(yoe + 400 * era) == 365 * yoe + yoe / 4 - yoe / 100 + 146_097 * era,
{
}

/// The date that lies `z` days after 1970-01-01.
#[verifier::rlimit(40)]
pub fn civil_from_days(z: i64) -> (date: (i64, u32, u32))
    requires
        z <= i64::MAX - 719_468,
    ensures
        valid_date(date.0 as int, date.1 as int, date.2 as int),
        day_number(date.0 as int, date.1 as int, date.2 as int) == z,
{
    let (era, doe): (i64, u64) = era_of(z + 719_468);
    let (yoe, doy): (u64, u64) = year_of_era(doe);
    let mp: u64 = (5 * doy + 2) / 153;
    proof {
        let day = doy - (153 * mp + 2) / 5 + 1;
        lemma_month_of_year(doy as int, mp as int, day);
        lemma_date_from_march(era as int, yoe as int, doy as int, mp as int, day);
        lemma_days_before_march_in_era(era as int, yoe as int);
    }
    let d: u32 = (doy + 1 - (153 * mp + 2) / 5) as u32;
    let m: u32 = (if mp < 10 {
        mp + 3
    } else {
        mp - 9
    }) as u32;
    let y: i64 = yoe as i64 + era * 400;
    if m <= 2 {
        (y + 1, m, d)
    } else {
        (y, m, d)
    }
}

/// Leap years come every fourth year, but for three centuries of four; a cycle of 400 years
/// has 146097 days.
pub proof fn leap_years_follow_their_cycle(year: int)
    ensures
        leap(year + 400) == leap(year),
        days_before_year(year + 400) - days_before_year(year) == 146_097,
        year % 4 != 0 ==> !leap(year),
        year % 4 == 0 && year % 100 != 0 ==> leap(year),
        year % 100 == 0 ==> (leap(year) <==> year % 400 == 0),
{
}

/// Months have the lengths they are known by.
pub proof fn months_have_their_lengths(year: int, month: int)
    requires
        1 <= month <= 12,
    ensures
        28 <= days_in_month(year, month) <= 31,
        days_in_month(year, month) == 30 <==> (month == 4 || month == 6 || month == 9 || month
            == 11),
        month != 2 ==> days_in_month(year, month) >= 30,
        month == 2 ==> days_in_month(year, month) == if leap(year) {
            29int
        } else {
            28
        },
{
}

/// Days are counted from the first of January 1970, one by one.
pub proof fn days_are_counted_from_1970(year: int, month: int, day: int)
    ensures
        day_number(1970, 1, 1) == 0,
        day_number(year, month, day + 1) == day_number(year, month, day) + 1,
{
}

} // verus!
