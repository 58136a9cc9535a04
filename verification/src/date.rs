//! Calendar dates in the proleptic Gregorian calendar.

use vstd::arithmetic::div_mod::{lemma_fundamental_div_mod, lemma_fundamental_div_mod_converse_mod};
use vstd::prelude::*;

verus! {

/// Whether `y` is a leap year in the proleptic Gregorian calendar.
pub open spec fn is_leap_year(y: int) -> bool {
    y % 4 == 0 && (y % 100 != 0 || y % 400 == 0)
}

/// The number of days in month `m` of year `y` (meaningful for months 1
/// through 12).
pub open spec fn days_in_month(y: int, m: int) -> int {
    if m == 2 {
        if is_leap_year(y) {
            29
        } else {
            28
        }
    } else if m == 4 || m == 6 || m == 9 || m == 11 {
        30
    } else {
        31
    }
}

/// Whether year `y`, month `m`, day `d` name a real calendar day.
pub open spec fn valid_ymd(y: int, m: int, d: int) -> bool {
    1 <= m <= 12 && 1 <= d <= days_in_month(y, m)
}

/// A calendar date.  `Date::new` refuses impossible days, so a date built
/// through it always names a real calendar day.
#[derive(Clone, Copy, PartialEq, Eq, Structural, Debug)]
pub struct Date {
    pub year: i32,
    pub month: u32,
    pub day: u32,
}

proof fn lemma_negated_divisibility(a: int, d: int)
    requires
        d > 0,
        a % d == 0,
    ensures
        (-a) % d == 0,
{
    lemma_fundamental_div_mod(a, d);
    assert(-a == (-(a / d)) * d + 0) by (nonlinear_arith)
        requires
            a == d * (a / d) + a % d,
            a % d == 0,
    ;
    lemma_fundamental_div_mod_converse_mod(-a, d, -(a / d), 0);
}

proof fn lemma_divisibility_of_negation(a: int, d: int)
    requires
        d > 0,
    ensures
        (a % d == 0) <==> ((-a) % d == 0),
{
    if a % d == 0 {
        lemma_negated_divisibility(a, d);
    }
    if (-a) % d == 0 {
        lemma_negated_divisibility(-a, d);
    }
}

/// Whether `year` is a leap year.
fn leap_year(year: i32) -> (r: bool)
    ensures
        r == is_leap_year(year as int),
{
    let magnitude: u64 = if year >= 0 {
        year as u64
    } else {
        (-(year as i64)) as u64
    };
    proof {
        if year < 0 {
            lemma_divisibility_of_negation(year as int, 4);
            lemma_divisibility_of_negation(year as int, 100);
            lemma_divisibility_of_negation(year as int, 400);
        }
    }
    magnitude % 4 == 0 && (magnitude % 100 != 0 || magnitude % 400 == 0)
}

impl Date {
    /// Builds a date, refusing an impossible calendar day.
    pub fn new(year: i32, month: u32, day: u32) -> (r: Option<Date>)
        ensures
            r is Some <==> valid_ymd(year as int, month as int, day as int),
            r matches Some(d) ==> d.year == year && d.month == month && d.day == day,
    {
        if month < 1 || month > 12 {
            return None;
        }
        let month_days: u32 = if month == 2 {
            if leap_year(year) {
                29
            } else {
                28
            }
        } else if month == 4 || month == 6 || month == 9 || month == 11 {
            30
        } else {
            31
        };
        if day < 1 || day > month_days {
            return None;
        }
        Some(Date { year, month, day })
    }
}

} // verus!
