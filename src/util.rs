//! Calendar arithmetic on the proleptic Gregorian calendar.
use vstd::prelude::*;
use vstd::arithmetic::div_mod::{lemma_hoist_over_denominator, lemma_mod_multiples_vanish};
use crate::date::{Weekday, weekday_of, weekday_index};

verus! {

/// Whether `year` is a leap year: divisible by 4, and not by 100 unless by 400.
pub open spec fn leap(year: int) -> bool {
    year % 4 == 0 && (year % 100 != 0 || year % 400 == 0)
}

/// The number of days in `year`.
pub open spec fn year_days(year: int) -> int {
    if leap(year) { 366 } else { 365 }
}

/// The number of days in month `month` (1 to 12) of `year`.
pub open spec fn month_days(year: int, month: int) -> int {
    if month == 2 {
        if leap(year) { 29 } else { 28 }
    } else if month == 4 || month == 6 || month == 9 || month == 11 {
        30
    } else {
        31
    }
}

/// Whether the ISO year `year` has 53 weeks: its first of January is a
/// Thursday, or a Wednesday in a leap year.
pub open spec fn long_iso_year(year: int) -> bool {
    weekday_index(year, 1) == 3 || (weekday_index(year, 1) == 2 && leap(year))
}

/// Returns if the provided year is a leap year in the proleptic Gregorian
/// calendar.
pub fn is_leap_year(year: i32) -> (r: bool)
    ensures
        r == leap(year as int),
{
    (year % 4 == 0) && ((year % 100 != 0) || (year % 400 == 0))
}

/// Get the number of calendar days in a given year: 366 in a leap year, else
/// 365.
pub fn days_in_year(year: i32) -> (r: u16)
    ensures
        r as int == year_days(year as int),
        r == 365 || r == 366,
{
    if is_leap_year(year) { 366 } else { 365 }
}

/// Get the number of weeks in the ISO year: 52 or 53.
pub fn weeks_in_year(year: i32) -> (r: u8)
    ensures
        r == (if long_iso_year(year as int) { 53u8 } else { 52u8 }),
        r == 52 || r == 53,
{
    let weekday = weekday_of(year, 1);
    if (weekday == Weekday::Thursday) || (weekday == Weekday::Wednesday && is_leap_year(year)) {
        53
    } else {
        52
    }
}

/// Get the number of days in the month of a given year.
pub fn days_in_year_month(year: i32, month: u8) -> (r: u8)
    requires
        1 <= month <= 12,
    ensures
        r as int == month_days(year as int, month as int),
        28 <= r <= 31,
{
    if month == 2 {
        if is_leap_year(year) { 29 } else { 28 }
    } else if month == 4 || month == 6 || month == 9 || month == 11 {
        30
    } else {
        31
    }
}

/// The leap-year rule repeats every 400 years.
pub proof fn lemma_leap_cycle(year: int)
    ensures
        leap(year) == leap(year + 400),
{
    lemma_mod_multiples_vanish(100, year, 4);
    lemma_mod_multiples_vanish(4, year, 100);
    lemma_mod_multiples_vanish(1, year, 400);
    assert(4 * 100 + year == year + 400);
    assert(100 * 4 + year == year + 400);
    assert(400 * 1 + year == year + 400);
}

/// A year has 366 days if it is a leap year and 365 otherwise.
pub proof fn lemma_days_in_year(year: int)
    ensures
        year_days(year) == 365 || year_days(year) == 366,
        year_days(year) == (if leap(year) { 366int } else { 365int }),
{
}

/// February has 29 days in a leap year and 28 otherwise; April, June,
/// September and November have 30; the other months 31.
pub proof fn lemma_days_in_month(year: int, month: int)
    requires
        1 <= month <= 12,
    ensures
        month == 2 && leap(year) ==> month_days(year, month) == 29,
        month == 2 && !leap(year) ==> month_days(year, month) == 28,
        (month == 4 || month == 6 || month == 9 || month == 11) ==> month_days(year, month) == 30,
        (month == 1 || month == 3 || month == 5 || month == 7 || month == 8 || month == 10
            || month == 12) ==> month_days(year, month) == 31,
{
}

} // verus!
