//! The leap-year oracle and the day-of-year mapper: month lengths under
//! the proleptic Gregorian rule, and the zero-based ordinal of a civil
//! (month, day-of-month) pair within its year.

use vstd::prelude::*;
use vstd::arithmetic::div_mod::lemma_fundamental_div_mod;
use vstd::arithmetic::div_mod::lemma_fundamental_div_mod_converse_mod;

verus! {

/// The proleptic Gregorian leap-year rule: divisible by 4 and, when
/// divisible by 100, also by 400.
pub open spec fn spec_is_leap_year(year: int) -> bool {
    year % 4 == 0 && (year % 100 != 0 || year % 400 == 0)
}

/// Number of days in the given year: 366 in a leap year, 365 otherwise.
pub open spec fn spec_days_in_year(year: int) -> int {
    if spec_is_leap_year(year) {
        366
    } else {
        365
    }
}

/// A negation does not change divisibility.
proof fn lemma_neg_divisibility(x: int, d: int)
    requires
        d > 0,
    ensures
        ((-x) % d == 0) <==> (x % d == 0),
{
    if x % d == 0 {
        lemma_fundamental_div_mod(x, d);
        let q = x / d;
        assert(-x == (-q) * d + 0) by (nonlinear_arith)
            requires
                x == d * q,
        ;
        lemma_fundamental_div_mod_converse_mod(-x, d, -q, 0);
    }
    if (-x) % d == 0 {
        lemma_fundamental_div_mod(-x, d);
        let q = (-x) / d;
        assert(x == (-q) * d + 0) by (nonlinear_arith)
            requires
                -x == d * q,
        ;
        lemma_fundamental_div_mod_converse_mod(x, d, -q, 0);
    }
}

/// Whether `year` is a leap year of the proleptic Gregorian calendar.
pub fn is_leap_year(year: i32) -> (r: bool)
    ensures
        r == spec_is_leap_year(year as int),
{
    proof {
        lemma_neg_divisibility(year as int, 4);
        lemma_neg_divisibility(year as int, 100);
        lemma_neg_divisibility(year as int, 400);
    }
    if year % 4 == 0 {
        if year % 100 == 0 {
            year % 400 == 0
        } else {
            true
        }
    } else {
        false
    }
}

/// Number of days in `year`: 366 when it is a leap year, else 365.
pub fn days_in_year(year: i32) -> (r: u16)
    ensures
        r == spec_days_in_year(year as int),
{
    if is_leap_year(year) {
        366
    } else {
        365
    }
}

/// Number of days in month `month` (1 through 12) of `year`; February
/// follows the leap-year rule.
pub open spec fn spec_days_in_month(month: int, year: int) -> int {
    if month == 2 {
        if spec_is_leap_year(year) {
            29
        } else {
            28
        }
    } else if month == 4 || month == 6 || month == 9 || month == 11 {
        30
    } else {
        31
    }
}

/// Days of `year` that pass before month `month` begins: the sum of the
/// lengths of the months strictly before it.
pub open spec fn spec_days_before_month(year: int, month: int) -> int
    decreases month,
{
    if month <= 1 {
        0
    } else {
        spec_days_before_month(year, month - 1) + spec_days_in_month(month - 1, year)
    }
}

/// Zero-based ordinal of the civil day (month, day-of-month) within its
/// year.
pub open spec fn spec_year_day(year: int, month: int, day: int) -> int {
    day - 1 + spec_days_before_month(year, month)
}

/// The twelve months together make up the whole year.
pub proof fn lemma_months_cover_year(year: int)
    ensures
        spec_days_before_month(year, 13) == spec_days_in_year(year),
{
    reveal_with_fuel(spec_days_before_month, 13);
}

/// The month prefix sums grow with the month.
proof fn lemma_days_before_month_increases(year: int, m1: int, m2: int)
    requires
        m1 <= m2,
    ensures
        spec_days_before_month(year, m1) <= spec_days_before_month(year, m2),
    decreases m2 - m1,
{
    if m1 < m2 {
        lemma_days_before_month_increases(year, m1, m2 - 1);
    }
}

/// A valid civil day lands strictly inside its year: its ordinal is
/// nonnegative and below the year's day count.
pub proof fn lemma_year_day_in_year(year: int, month: int, day: int)
    requires
        1 <= month <= 12,
        1 <= day <= spec_days_in_month(month, year),
    ensures
        0 <= spec_year_day(year, month, day) < spec_days_in_year(year),
{
    lemma_days_before_month_increases(year, 1, month);
    lemma_days_before_month_increases(year, month + 1, 13);
    lemma_months_cover_year(year);
}

/// Number of days in month `month` (1 through 12) of `year`.
pub fn days_in_month(month: u8, year: i32) -> (r: u8)
    requires
        1 <= month <= 12,
    ensures
        r == spec_days_in_month(month as int, year as int),
{
    if month == 2 {
        if is_leap_year(year) {
            29
        } else {
            28
        }
    } else if month == 4 || month == 6 || month == 9 || month == 11 {
        30
    } else {
        31
    }
}

/// Zero-based ordinal within its year of the civil day given by `month`
/// (1 through 12) and one-based `day`. Bounds of `day` against the
/// month's length are the caller's to check.
pub fn year_day(year: i32, month: u8, day: u8) -> (r: u16)
    requires
        1 <= month <= 12,
        1 <= day,
    ensures
        r == spec_year_day(year as int, month as int, day as int),
{
    let mut ordinal: u16 = day as u16 - 1;
    let mut m: u8 = 1;
    while m < month
        invariant
            1 <= m <= month <= 12,
            1 <= day,
            spec_days_before_month(year as int, m as int) <= 31 * (m - 1),
            ordinal == day - 1 + spec_days_before_month(year as int, m as int),
        decreases month - m,
    {
        ordinal = ordinal + days_in_month(m, year) as u16;
        m = m + 1;
    }
    ordinal
}

} // verus!
