//! The proleptic Gregorian calendar on days counted from 1970-01-01:
//! leap years, the first day of each year and month, and the conversion
//! from a day count to a calendar date.

use vstd::prelude::*;
use vstd::arithmetic::div_mod::{
    lemma_fundamental_div_mod,
    lemma_fundamental_div_mod_converse,
    lemma_mod_bound,
    lemma_mod_multiples_basic,
};

verus! {

/// Day count of the last representable second, `253_402_300_799`
/// (9999-12-31T23:59:59Z), in whole days: `253_402_300_799 / 86400`.
pub const LAST_EPOCH_DAY: u64 = 2932896;

/// A Gregorian leap year: divisible by 4, except century years not
/// divisible by 400.
pub open spec fn is_leap_year(y: int) -> bool {
    y % 4 == 0 && (y % 100 != 0 || y % 400 == 0)
}

/// The number of days in year `y`.
pub open spec fn days_in_year(y: int) -> int {
    if is_leap_year(y) {
        366
    } else {
        365
    }
}

/// The number of leap years in `[1, y)`.
pub open spec fn leap_years_before(y: int) -> int {
    (y - 1) / 4 - (y - 1) / 100 + (y - 1) / 400
}

/// The day count (from 1970-01-01) of January 1 of year `y`.
pub open spec fn year_start_day(y: int) -> int {
    365 * (y - 1970) + leap_years_before(y) - leap_years_before(1970)
}

/// Walks forward from year `y` consuming `rem` days; returns the year
/// that the last day falls in and its zero-based day of the year.
pub open spec fn year_and_day_of_year(y: int, rem: int) -> (int, int)
    decreases rem,
{
    if rem < 0 {
        (y, rem)
    } else if rem < days_in_year(y) {
        (y, rem)
    } else {
        year_and_day_of_year(y + 1, rem - days_in_year(y))
    }
}

/// The number of days in month `m` (1 = January .. 12 = December).
pub open spec fn days_in_month(leap: bool, m: int) -> int {
    if m == 1 {
        31
    } else if m == 2 {
        if leap {
            29
        } else {
            28
        }
    } else if m == 3 {
        31
    } else if m == 4 {
        30
    } else if m == 5 {
        31
    } else if m == 6 {
        30
    } else if m == 7 {
        31
    } else if m == 8 {
        31
    } else if m == 9 {
        30
    } else if m == 10 {
        31
    } else if m == 11 {
        30
    } else {
        31
    }
}

/// The zero-based day of the year on which month `m` starts
/// (`m == 13` gives the length of the year).
pub open spec fn days_before_month(leap: bool, m: int) -> int {
    let l: int = if leap {
        1
    } else {
        0
    };
    if m == 1 {
        0
    } else if m == 2 {
        31
    } else if m == 3 {
        59 + l
    } else if m == 4 {
        90 + l
    } else if m == 5 {
        120 + l
    } else if m == 6 {
        151 + l
    } else if m == 7 {
        181 + l
    } else if m == 8 {
        212 + l
    } else if m == 9 {
        243 + l
    } else if m == 10 {
        273 + l
    } else if m == 11 {
        304 + l
    } else if m == 12 {
        334 + l
    } else {
        365 + l
    }
}

/// Walks forward from month `m` consuming `rem` days of the year;
/// returns the month that the last day falls in and its zero-based day
/// of the month.
pub open spec fn month_and_day_of_month(leap: bool, m: int, rem: int) -> (int, int)
    decreases 13 - m,
{
    if m < 1 || m >= 13 || rem < 0 {
        (m, rem)
    } else if rem < days_in_month(leap, m) {
        (m, rem)
    } else {
        month_and_day_of_month(leap, m + 1, rem - days_in_month(leap, m))
    }
}

/// Stepping the dividend down by one lowers the quotient exactly on
/// multiples of the divisor.
proof fn lemma_div_step(a: int, d: int)
    requires
        a >= 1,
        d >= 1,
    ensures
        a / d == (a - 1) / d + (if a % d == 0 {
            1int
        } else {
            0int
        }),
{
    lemma_fundamental_div_mod(a, d);
    lemma_mod_bound(a, d);
    let q = a / d;
    let r = a % d;
    if r == 0 {
        assert((q - 1) * d + (d - 1) == d * q - 1) by (nonlinear_arith);
        lemma_fundamental_div_mod_converse(a - 1, d, q - 1, d - 1);
    } else {
        assert(q * d + (r - 1) == d * q + r - 1) by (nonlinear_arith);
        lemma_fundamental_div_mod_converse(a - 1, d, q, r - 1);
    }
}

/// A multiple of `m * k` is a multiple of `m`.
proof fn lemma_mod_factor(y: int, m: int, k: int)
    requires
        y % (m * k) == 0,
        m >= 1,
        k >= 1,
    ensures
        y % m == 0,
{
    assert(m * k >= 1) by (nonlinear_arith)
        requires
            m >= 1,
            k >= 1,
    ;
    lemma_fundamental_div_mod(y, m * k);
    let q = y / (m * k);
    assert((m * k) * q == (k * q) * m) by (nonlinear_arith);
    lemma_mod_multiples_basic(k * q, m);
}

/// The count of leap years grows by one exactly at leap years.
proof fn lemma_leap_years_before_step(y: int)
    requires
        y >= 1,
    ensures
        leap_years_before(y + 1) == leap_years_before(y) + (if is_leap_year(y) {
            1int
        } else {
            0int
        }),
{
    lemma_div_step(y, 4);
    lemma_div_step(y, 100);
    lemma_div_step(y, 400);
    assert(y % 400 == 0 ==> y % 100 == 0) by {
        if y % 400 == 0 {
            lemma_mod_factor(y, 100, 4);
        }
    }
    assert(y % 400 == 0 ==> y % 4 == 0) by {
        if y % 400 == 0 {
            lemma_mod_factor(y, 4, 100);
        }
    }
    assert(y % 100 == 0 ==> y % 4 == 0) by {
        if y % 100 == 0 {
            lemma_mod_factor(y, 4, 25);
        }
    }
}

/// Each year starts `days_in_year` after the year before it.
proof fn lemma_year_start_step(y: int)
    requires
        y >= 1970,
    ensures
        year_start_day(y + 1) == year_start_day(y) + days_in_year(y),
{
    lemma_leap_years_before_step(y);
}

/// Year starts never move backwards.
proof fn lemma_year_start_monotonic(y1: int, y2: int)
    requires
        1970 <= y1 <= y2,
    ensures
        year_start_day(y1) <= year_start_day(y2),
    decreases y2 - y1,
{
    if y1 < y2 {
        lemma_year_start_step(y2 - 1);
        lemma_year_start_monotonic(y1, y2 - 1);
    }
}

/// January 1 of year 10000 falls on day 2932897, one past the last
/// representable day.
proof fn lemma_year_start_at_10000()
    ensures
        year_start_day(10000) == 2932897,
{
    lemma_fundamental_div_mod_converse(9999, 4, 2499, 3);
    lemma_fundamental_div_mod_converse(9999, 100, 99, 99);
    lemma_fundamental_div_mod_converse(9999, 400, 24, 399);
    lemma_fundamental_div_mod_converse(1969, 4, 492, 1);
    lemma_fundamental_div_mod_converse(1969, 100, 19, 69);
    lemma_fundamental_div_mod_converse(1969, 400, 4, 369);
}

/// A year whose start lies on or before the last representable day is
/// at most 9999.
proof fn lemma_year_at_most_9999(y: int)
    requires
        y >= 1970,
        year_start_day(y) <= LAST_EPOCH_DAY,
    ensures
        y <= 9999,
{
    if y >= 10000 {
        lemma_year_start_at_10000();
        lemma_year_start_monotonic(10000, y);
    }
}

/// Whether year `y` is a Gregorian leap year.
pub fn leap_year(y: u64) -> (r: bool)
    ensures
        r == is_leap_year(y as int),
{
    y % 4 == 0 && (y % 100 != 0 || y % 400 == 0)
}

/// The number of days in year `y`.
pub fn days_in_year_count(y: u64) -> (r: u64)
    ensures
        r as int == days_in_year(y as int),
{
    if leap_year(y) {
        366
    } else {
        365
    }
}

/// The number of days in month `m` of a year with the given leapness.
pub fn days_in_month_count(leap: bool, m: u64) -> (r: u64)
    requires
        1 <= m <= 12,
    ensures
        r as int == days_in_month(leap, m as int),
{
    if m == 1 {
        31
    } else if m == 2 {
        if leap {
            29
        } else {
            28
        }
    } else if m == 3 {
        31
    } else if m == 4 {
        30
    } else if m == 5 {
        31
    } else if m == 6 {
        30
    } else if m == 7 {
        31
    } else if m == 8 {
        31
    } else if m == 9 {
        30
    } else if m == 10 {
        31
    } else if m == 11 {
        30
    } else {
        31
    }
}

/// The year a day count falls in, and its zero-based day of the year.
pub fn year_from_days(days: u64) -> (r: (u64, u64))
    requires
        days <= LAST_EPOCH_DAY,
    ensures
        ({
            let yd = year_and_day_of_year(1970, days as int);
            r.0 as int == yd.0 && r.1 as int == yd.1
        }),
        1970 <= r.0 <= 9999,
        (r.1 as int) < days_in_year(r.0 as int),
{
    let mut y: u64 = 1970;
    let mut rem: u64 = days;
    while rem >= days_in_year_count(y)
        invariant
            1970 <= y,
            days <= LAST_EPOCH_DAY,
            year_start_day(y as int) + rem as int == days as int,
            year_and_day_of_year(y as int, rem as int) == year_and_day_of_year(
                1970,
                days as int,
            ),
        decreases rem,
    {
        let d = days_in_year_count(y);
        proof {
            lemma_year_start_step(y as int);
            lemma_year_at_most_9999(y as int);
        }
        rem = rem - d;
        y = y + 1;
    }
    proof {
        lemma_year_at_most_9999(y as int);
    }
    (y, rem)
}

/// The month a zero-based day of the year falls in, and its one-based
/// day of the month.
pub fn month_from_day_of_year(leap: bool, doy: u64) -> (r: (u64, u64))
    requires
        (doy as int) < (if leap {
            366int
        } else {
            365int
        }),
    ensures
        ({
            let md = month_and_day_of_month(leap, 1, doy as int);
            r.0 as int == md.0 && r.1 as int == md.1 + 1
        }),
        1 <= r.0 <= 12,
        1 <= r.1 <= 31,
        (r.1 as int) <= days_in_month(leap, r.0 as int),
{
    let mut m: u64 = 1;
    let mut rem: u64 = doy;
    while rem >= days_in_month_count(leap, m)
        invariant
            1 <= m <= 12,
            days_before_month(leap, m as int) + rem as int == doy as int,
            (doy as int) < days_before_month(leap, 13),
            month_and_day_of_month(leap, m as int, rem as int) == month_and_day_of_month(
                leap,
                1,
                doy as int,
            ),
        decreases 12 - m as int,
    {
        let d = days_in_month_count(leap, m);
        rem = rem - d;
        m = m + 1;
    }
    (m, rem + 1)
}

} // verus!
