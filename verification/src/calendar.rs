//! Dates of the proleptic Gregorian calendar.
use vstd::prelude::*;
use vstd::string::*;
use crate::text::{decimal, decimal_of, pad_left, padded_left};

verus! {

/// A year has a 29th of February.
pub open spec fn is_leap(y: int) -> bool {
    y % 4 == 0 && (y % 100 != 0 || y % 400 == 0)
}

/// The days of a month.
pub open spec fn month_days(y: int, m: int) -> int {
    if m == 2 {
        if is_leap(y) {
            29
        } else {
            28
        }
    } else if m == 4 || m == 6 || m == 9 || m == 11 {
        30
    } else {
        31
    }
}

/// The days of a year before its month `m`.
pub open spec fn days_before_month(y: int, m: int) -> int
    decreases m,
{
    if m <= 1 {
        0
    } else {
        days_before_month(y, m - 1) + month_days(y, m - 1)
    }
}

/// The days from the first day of the year 0 to the first of the year `y`
/// (negative before): 365 a year, and one for each leap year between.
pub open spec fn days_before_year(y: int) -> int {
    365 * y + (y + 3) / 4 - (y + 99) / 100 + (y + 399) / 400
}

/// The days from 1970-01-01 to a date of the proleptic Gregorian calendar.
pub open spec fn days_to_date(y: int, m: int, d: int) -> int {
    days_before_year(y) + days_before_month(y, m) + d - 1 - days_before_year(1970)
}

/// A date of the calendar.
pub open spec fn is_date(y: int, m: int, d: int) -> bool {
    1 <= m <= 12 && 1 <= d <= month_days(y, m)
}

/// The days of a year that starts in March, before the year `y` of a cycle of
/// 400 such years.
spec fn march_days(y: int) -> int {
    365 * y + y / 4 - y / 100
}

/// Years that start in March, counted in a cycle of 400, end with February of
/// the next calendar year.
proof fn lemma_march_year(era: int, yoe: int)
    requires
        0 <= yoe <= 399,
    ensures
        days_before_year(era * 400 + yoe) + 59 + (if is_leap(era * 400 + yoe) {
            1int
        } else {
            0
        }) == 60 + era * 146097 + march_days(yoe),
        days_before_year(era * 400 + yoe + 1) == days_before_year(era * 400 + yoe) + 365 + (
        if is_leap(era * 400 + yoe) {
            1int
        } else {
            0
        }),
        is_leap(era * 400 + yoe) == is_leap(yoe),
        is_leap(era * 400 + yoe + 1) == is_leap(yoe + 1),
{
    lemma_in_cycle(era, yoe);
    lemma_in_cycle(era, yoe + 1);
    lemma_in_cycle(era, yoe + 3);
    lemma_in_cycle(era, yoe + 4);
    lemma_in_cycle(era, yoe + 99);
    lemma_in_cycle(era, yoe + 100);
    lemma_in_cycle(era, yoe + 399);
    lemma_in_cycle(era, yoe + 400);
    lemma_leap_days(yoe);
}

/// The leap days before a year of the first cycle.
proof fn lemma_leap_days(yoe: int)
    requires
        0 <= yoe <= 399,
    ensures
        (yoe + 3) / 4 + (if yoe % 4 == 0 {
            1int
        } else {
            0
        }) == yoe / 4 + 1,
        (yoe + 4) / 4 == yoe / 4 + 1,
        (yoe + 99) / 100 + (if yoe % 100 == 0 {
            1int
        } else {
            0
        }) == yoe / 100 + 1,
        (yoe + 100) / 100 == yoe / 100 + 1,
        (yoe + 399) / 400 + (if yoe % 400 == 0 {
            1int
        } else {
            0
        }) == 1,
        (yoe + 400) / 400 == 1,
{
}

/// A year of a cycle of 400 years divides as that of the first cycle does.
proof fn lemma_in_cycle(era: int, a: int)
    ensures
        (era * 400 + a) / 4 == era * 100 + a / 4,
        (era * 400 + a) % 4 == a % 4,
        (era * 400 + a) / 100 == era * 4 + a / 100,
        (era * 400 + a) % 100 == a % 100,
        (era * 400 + a) / 400 == era + a / 400,
        (era * 400 + a) % 400 == a % 400,
{
}

/// The year of a day of the cycle.
proof fn lemma_year_of_day(doe: int, yoe: int)
    requires
        0 <= doe <= 146096,
        yoe == (doe - doe / 1460 + doe / 36524 - doe / 146096) / 365,
    ensures
        0 <= yoe <= 399,
        march_days(yoe) <= doe,
        doe < march_days(yoe) + 365 + (if is_leap(yoe + 1) {
            1int
        } else {
            0
        }),
{
    let c = doe / 36524;
    let q = doe / 1460;
    let f = doe / 146096;
    assert(0 <= c <= 4);
    assert(0 <= f <= 1);
    let n = doe - q + c - f;
    assert(365 * yoe <= n < 365 * yoe + 365);
    assert(0 <= n <= 145999);
    let a = yoe / 4;
    let b = yoe / 100;
    assert(4 * a <= yoe < 4 * a + 4);
    assert(100 * b <= yoe < 100 * b + 100);
    assert(1460 * q <= doe < 1460 * q + 1460);
    assert(36524 * c <= doe < 36524 * c + 36524);
}

/// The date of a day of a year that starts in March.
proof fn lemma_month_of_day(y: int, doy: int, mp: int)
    requires
        0 <= doy <= 365,
        doy < 365 || is_leap(y + 1),
        mp == (5 * doy + 2) / 153,
    ensures
        0 <= mp <= 11,
        ({
            let d = doy - (153 * mp + 2) / 5 + 1;
            let m = if mp < 10 {
                mp + 3
            } else {
                mp - 9
            };
            if mp < 10 {
                is_date(y, m, d) && days_before_month(y, m) + d - 1 == 59 + (if is_leap(y) {
                    1int
                } else {
                    0
                }) + doy
            } else {
                is_date(y + 1, m, d) && days_before_month(y + 1, m) + d - 1 + 306 == doy
            }
        }),
{
    reveal_with_fuel(days_before_month, 13);
    assert(153 * mp <= 5 * doy + 2 < 153 * mp + 153);
    assert(0 <= mp <= 11);
    if mp == 0 {
    } else if mp == 1 {
    } else if mp == 2 {
    } else if mp == 3 {
    } else if mp == 4 {
    } else if mp == 5 {
    } else if mp == 6 {
    } else if mp == 7 {
    } else if mp == 8 {
    } else if mp == 9 {
    } else if mp == 10 {
    } else {
    }
}

/// Days since 1970-01-01 to a proleptic Gregorian date: year, month, day.
pub fn civil_from_days(z: i64) -> (r: (i64, u32, u32))
    requires
        z <= i64::MAX - 719_468,
    ensures
        is_date(r.0 as int, r.1 as int, r.2 as int),
        days_to_date(r.0 as int, r.1 as int, r.2 as int) == z,
{
    let z: i64 = z + 719_468;
    let era: i64 = if z >= 0 {
        z / 146_097
    } else {
        -((-(z + 1)) / 146_097) - 1
    };
    let doe: i64 = z - era * 146_097;
    assert(0 <= doe <= 146_096);
    let yoe: i64 = (doe - doe / 1460 + doe / 36_524 - doe / 146_096) / 365;
    proof {
        lemma_year_of_day(doe as int, yoe as int);
    }
    let y: i64 = yoe + era * 400;
    let doy: i64 = doe - (365 * yoe + yoe / 4 - yoe / 100);
    let mp: i64 = (5 * doy + 2) / 153;
    proof {
        lemma_march_year(era as int, yoe as int);
        lemma_month_of_day(y as int, doy as int, mp as int);
    }
    let d: u32 = (doy - (153 * mp + 2) / 5 + 1) as u32;
    let m: u32 = if mp < 10 {
        (mp + 3) as u32
    } else {
        (mp - 9) as u32
    };
    assert(days_before_year(1970) == 719_528);
    (if m <= 2 { y + 1 } else { y }, m, d)
}

/// A date as `YYYY-MM-DD`.
pub open spec fn date_text(y: nat, m: nat, d: nat) -> Seq<char> {
    pad_left(decimal(y), '0', 4) + "-"@ + pad_left(decimal(m), '0', 2) + "-"@ + pad_left(
        decimal(d),
        '0',
        2,
    )
}

/// The date (UTC) that many seconds after 1970-01-01 as `YYYY-MM-DD`, for the
/// source lines.
pub fn today(seconds: u64) -> (out: String)
    ensures
        exists|y: nat, m: nat, d: nat|
            {
                &&& is_date(y as int, m as int, d as int)
                &&& days_to_date(y as int, m as int, d as int) == seconds / 86_400
                &&& out@ == #[trigger] date_text(y, m, d)
            },
{
    let days: i64 = (seconds / 86_400) as i64;
    let (y, m, d) = civil_from_days(days);
    proof {
        lemma_not_before_1970(y as int, m as int, d as int);
    }
    let year: u64 = y as u64;
    let mut out = padded_left(decimal_of(year).as_str(), '0', 4);
    out.append("-");
    out.append(padded_left(decimal_of(m as u64).as_str(), '0', 2).as_str());
    out.append("-");
    out.append(padded_left(decimal_of(d as u64).as_str(), '0', 2).as_str());
    assert(out@ == date_text(year as nat, m as nat, d as nat));
    out
}

proof fn lemma_days_before_month(y: int, m: int)
    requires
        1 <= m <= 12,
    ensures
        0 <= days_before_month(y, m) <= 335,
{
    reveal_with_fuel(days_before_month, 13);
}

/// A date that is no day before 1970-01-01 is in no year before 1970.
proof fn lemma_not_before_1970(y: int, m: int, d: int)
    requires
        is_date(y, m, d),
        days_to_date(y, m, d) >= 0,
    ensures
        y >= 1969,
{
    lemma_days_before_month(y, m);
    assert(days_before_year(1970) == 719_528);
    if y < 1969 {
        assert(days_before_year(y) <= 365 * y + (y + 3) / 4 - (y + 99) / 100 + (y + 399) / 400);
    }
}

} // verus!
