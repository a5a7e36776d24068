//! Calendar dates and days of the week.
use vstd::prelude::*;
use vstd::arithmetic::div_mod::{
    lemma_fundamental_div_mod, lemma_fundamental_div_mod_converse_div,
    lemma_fundamental_div_mod_converse_mod, lemma_hoist_over_denominator, lemma_mod_multiples_vanish,
};
use crate::error::ComponentRange;
use crate::util::{days_in_year, days_in_year_month, leap, month_days, year_days};

verus! {

/// The smallest year a `Date` can hold.
pub const MIN_YEAR: i32 = -9999;

/// The largest year a `Date` can hold.
pub const MAX_YEAR: i32 = 9999;

/// Days from 0001-01-01 (a Monday) to the first day of `year`.
pub open spec fn days_before_year(year: int) -> int {
    365 * (year - 1) + (year - 1) / 4 - (year - 1) / 100 + (year - 1) / 400
}

/// The day of the week of day `ordinal` of `year`: 0 for Monday to 6 for
/// Sunday.
pub open spec fn weekday_index(year: int, ordinal: int) -> int {
    (days_before_year(year) + ordinal - 1) % 7
}

/// Days in the months of `year` before month `month`.
pub open spec fn days_before_month(year: int, month: int) -> int
    decreases month,
{
    if month <= 1 {
        0
    } else {
        days_before_month(year, month - 1) + month_days(year, month - 1)
    }
}

/// Whether year, month and day name a day that a `Date` can hold.
pub open spec fn valid_ymd(year: int, month: int, day: int) -> bool {
    MIN_YEAR <= year <= MAX_YEAR && 1 <= month <= 12 && 1 <= day <= month_days(year, month)
}

/// Whether `e` reports the first of year, month and day that is out of range:
/// the year, then the month, then the day, whose bound is given with the month
/// and the year.
pub open spec fn calendar_error(year: int, month: int, day: int, e: ComponentRange) -> bool {
    if !(MIN_YEAR <= year <= MAX_YEAR) {
        e.is("year"@, MIN_YEAR as int, MAX_YEAR as int, year)
    } else if !(1 <= month <= 12) {
        e.is("month"@, 1, 12, month)
    } else {
        e.component_name@ == "day"@ && e.minimum == 1 && e.maximum == month_days(year, month)
            && e.value == day && e.given@ == seq![("month", month as i64), ("year", year as i64)]
    }
}

/// A day of the week.
#[derive(Debug, Clone, Copy, PartialEq, Eq, Structural, Hash)]
pub enum Weekday {
    Monday,
    Tuesday,
    Wednesday,
    Thursday,
    Friday,
    Saturday,
    Sunday,
}

impl Weekday {
    /// 0 for Monday to 6 for Sunday.
    pub open spec fn index(self) -> int {
        match self {
            Weekday::Monday => 0,
            Weekday::Tuesday => 1,
            Weekday::Wednesday => 2,
            Weekday::Thursday => 3,
            Weekday::Friday => 4,
            Weekday::Saturday => 5,
            Weekday::Sunday => 6,
        }
    }

    /// The weekday with index `i` (0 for Monday).
    pub fn from_index(i: u8) -> (r: Weekday)
        requires
            i < 7,
        ensures
            r.index() == i,
    {
        match i {
            0 => Weekday::Monday,
            1 => Weekday::Tuesday,
            2 => Weekday::Wednesday,
            3 => Weekday::Thursday,
            4 => Weekday::Friday,
            5 => Weekday::Saturday,
            _ => Weekday::Sunday,
        }
    }

    /// The ISO number of the day: 1 for Monday to 7 for Sunday.
    pub fn number_from_monday(self) -> (r: u8)
        ensures
            r == self.index() + 1,
    {
        match self {
            Weekday::Monday => 1,
            Weekday::Tuesday => 2,
            Weekday::Wednesday => 3,
            Weekday::Thursday => 4,
            Weekday::Friday => 5,
            Weekday::Saturday => 6,
            Weekday::Sunday => 7,
        }
    }

    /// The day after this one; Monday follows Sunday.
    pub fn next(self) -> (r: Weekday)
        ensures
            r.index() == (self.index() + 1) % 7,
    {
        let i = self.number_from_monday();
        Weekday::from_index(i % 7)
    }

    /// The day before this one; Sunday precedes Monday.
    pub fn previous(self) -> (r: Weekday)
        ensures
            r.index() == (self.index() + 6) % 7,
    {
        let i = self.number_from_monday();
        Weekday::from_index((i + 5) % 7)
    }
}

/// The day of the week of day `ordinal` of `year`, for any year.
pub(crate) fn weekday_of(year: i32, ordinal: u16) -> (r: Weekday)
    requires
        1 <= ordinal <= 366,
    ensures
        r.index() == weekday_index(year as int, ordinal as int),
{
    // Shifting by a whole number of 400-year cycles keeps the weekday and
    // makes every quantity non-negative.
    let a: u64 = (year as i64 - 1 + 2_400_000_000i64) as u64;
    let n: u64 = 365 * a + a / 4 - a / 100 + a / 400 + ordinal as u64 - 1;
    proof {
        let x = year as int - 1;
        let k: int = 6_000_000;
        lemma_hoist_over_denominator(x, 100 * k, 4);
        lemma_hoist_over_denominator(x, 4 * k, 100);
        lemma_hoist_over_denominator(x, k, 400);
        assert(a as int == x + 100 * k * 4);
        assert(a as int == x + 4 * k * 100);
        assert(a as int == x + k * 400);
        let base = days_before_year(year as int) + ordinal - 1;
        assert(n as int == 7 * (20871 * k) + base);
        lemma_mod_multiples_vanish(20871 * k, base, 7);
    }
    Weekday::from_index((n % 7) as u8)
}

/// A day of the proleptic Gregorian calendar, between years `MIN_YEAR` and
/// `MAX_YEAR`.
#[derive(Debug, Clone, Copy, PartialEq, Eq, Structural, Hash)]
pub struct Date {
    year: i32,
    month: u8,
    day: u8,
}

impl Date {
    /// The year of the date.
    pub closed spec fn spec_year(self) -> int {
        self.year as int
    }

    /// The month of the date, 1 to 12.
    pub closed spec fn spec_month(self) -> int {
        self.month as int
    }

    /// The day of the month, from 1.
    pub closed spec fn spec_day(self) -> int {
        self.day as int
    }

    /// The day of the year, from 1.
    pub open spec fn spec_ordinal(self) -> int {
        days_before_month(self.spec_year(), self.spec_month()) + self.spec_day()
    }

    #[verifier::type_invariant]
    closed spec fn inv(self) -> bool {
        valid_ymd(self.year as int, self.month as int, self.day as int)
    }

    /// Two dates with the same year, month and day are equal.
    pub proof fn lemma_ext(self, other: Date)
        requires
            self.spec_year() == other.spec_year(),
            self.spec_month() == other.spec_month(),
            self.spec_day() == other.spec_day(),
        ensures
            self == other,
    {
    }

    /// Builds a date from components already known to be valid.
    pub(crate) fn from_ymd_unchecked(year: i32, month: u8, day: u8) -> (r: Date)
        requires
            valid_ymd(year as int, month as int, day as int),
        ensures
            r.spec_year() == year,
            r.spec_month() == month,
            r.spec_day() == day,
    {
        Date { year, month, day }
    }

    /// Builds a date from a year, a month (1 to 12) and a day of the month.
    /// Each component is checked in turn: the year, the month, then the day,
    /// whose bound is given with the month and the year.
    pub fn from_calendar_date(year: i32, month: u8, day: u8) -> (r: Result<Date, ComponentRange>)
        ensures
            r is Ok <==> valid_ymd(year as int, month as int, day as int),
            r matches Ok(d) ==> d.spec_year() == year && d.spec_month() == month && d.spec_day()
                == day,
            r matches Err(e) ==> calendar_error(year as int, month as int, day as int, e),
    {
        if year < MIN_YEAR || year > MAX_YEAR {
            return Err(ComponentRange {
                component_name: "year",
                minimum: MIN_YEAR as i64,
                maximum: MAX_YEAR as i64,
                value: year as i64,
                given: Vec::new(),
            });
        }
        if month < 1 || month > 12 {
            return Err(ComponentRange {
                component_name: "month",
                minimum: 1,
                maximum: 12,
                value: month as i64,
                given: Vec::new(),
            });
        }
        let dim = days_in_year_month(year, month);
        if day < 1 || day > dim {
            let mut given: Vec<(&'static str, i64)> = Vec::new();
            given.push(("month", month as i64));
            given.push(("year", year as i64));
            proof {
                assert(given@ =~= seq![("month", month as i64), ("year", year as i64)]);
            }
            return Err(ComponentRange {
                component_name: "day",
                minimum: 1,
                maximum: dim as i64,
                value: day as i64,
                given,
            });
        }
        Ok(Date { year, month, day })
    }

    /// The year of the date.
    pub fn year(&self) -> (r: i32)
        ensures
            r == self.spec_year(),
            MIN_YEAR <= r <= MAX_YEAR,
    {
        proof {
            use_type_invariant(self);
        }
        self.year
    }

    /// The month of the date, 1 to 12.
    pub fn month(&self) -> (r: u8)
        ensures
            r == self.spec_month(),
            1 <= r <= 12,
    {
        proof {
            use_type_invariant(self);
        }
        self.month
    }

    /// The day of the month.
    pub fn day(&self) -> (r: u8)
        ensures
            r == self.spec_day(),
            1 <= r <= month_days(self.spec_year(), self.spec_month()),
    {
        proof {
            use_type_invariant(self);
        }
        self.day
    }

    /// The day of the year, from 1.
    pub fn ordinal(&self) -> (r: u16)
        ensures
            r == self.spec_ordinal(),
            1 <= r <= year_days(self.spec_year()),
    {
        proof {
            use_type_invariant(self);
            lemma_days_before_year_end(self.year as int);
            lemma_days_before_month_mono(self.year as int, self.month as int, 12);
        }
        let mut total: u16 = 0;
        let mut m: u8 = 1;
        while m < self.month
            invariant
                1 <= m <= self.month <= 12,
                total == days_before_month(self.year as int, m as int),
                days_before_month(self.year as int, self.month as int) <= 335,
            decreases self.month - m,
        {
            proof {
                lemma_days_before_month_mono(self.year as int, m as int + 1, self.month as int);
            }
            total = total + days_in_year_month(self.year, m) as u16;
            m = m + 1;
        }
        total + self.day as u16
    }

    /// The day of the week of the date.
    pub fn weekday(&self) -> (r: Weekday)
        ensures
            r.index() == weekday_index(self.spec_year(), self.spec_ordinal()),
    {
        let o = self.ordinal();
        weekday_of(self.year, o)
    }

    /// Builds a date from a year and a day of the year (1 to 365, or 366 in a
    /// leap year). The year is checked first, then the day of the year, whose
    /// bound is given with the year.
    pub fn from_ordinal_date(year: i32, ordinal: u16) -> (r: Result<Date, ComponentRange>)
        ensures
            r is Ok <==> MIN_YEAR <= year <= MAX_YEAR && 1 <= ordinal <= year_days(year as int),
            r matches Ok(d) ==> d.spec_year() == year && d.spec_ordinal() == ordinal && valid_ymd(
                d.spec_year(),
                d.spec_month(),
                d.spec_day(),
            ),
            r matches Err(e) ==> ordinal_error(year as int, ordinal as int, e),
    {
        if year < MIN_YEAR || year > MAX_YEAR {
            return Err(ComponentRange {
                component_name: "year",
                minimum: MIN_YEAR as i64,
                maximum: MAX_YEAR as i64,
                value: year as i64,
                given: Vec::new(),
            });
        }
        let diy = days_in_year(year);
        if ordinal < 1 || ordinal > diy {
            let mut given: Vec<(&'static str, i64)> = Vec::new();
            given.push(("year", year as i64));
            proof {
                assert(given@ =~= seq![("year", year as i64)]);
            }
            return Err(ComponentRange {
                component_name: "ordinal",
                minimum: 1,
                maximum: diy as i64,
                value: ordinal as i64,
                given,
            });
        }
        proof {
            lemma_days_before_year_end(year as int);
        }
        let mut rest: u16 = ordinal;
        let mut m: u8 = 1;
        while rest > days_in_year_month(year, m) as u16
            invariant
                1 <= m <= 12,
                1 <= rest,
                ordinal == days_before_month(year as int, m as int) + rest,
                ordinal <= days_before_month(year as int, 13),
            decreases 12 - m,
        {
            proof {
                if m == 12 {
                    assert(days_before_month(year as int, 13) == days_before_month(year as int, 12)
                        + month_days(year as int, 12));
                }
            }
            rest = rest - days_in_year_month(year, m) as u16;
            m = m + 1;
        }
        Ok(Date { year, month: m, day: rest as u8 })
    }
}

/// A year's months together hold all its days.
pub proof fn lemma_days_before_year_end(year: int)
    ensures
        days_before_month(year, 13) == year_days(year),
        days_before_month(year, 12) == year_days(year) - 31,
{
    reveal_with_fuel(days_before_month, 13);
}

/// More months hold at least as many days.
pub proof fn lemma_days_before_month_mono(year: int, a: int, b: int)
    requires
        a <= b,
    ensures
        days_before_month(year, a) <= days_before_month(year, b),
    decreases b - a,
{
    if a < b {
        lemma_days_before_month_mono(year, a, b - 1);
    }
}

/// A year and a day of the year name one month and day at most.
pub proof fn lemma_ordinal_unique(year: int, m1: int, d1: int, m2: int, d2: int)
    requires
        valid_ymd(year, m1, d1),
        valid_ymd(year, m2, d2),
        days_before_month(year, m1) + d1 == days_before_month(year, m2) + d2,
    ensures
        m1 == m2 && d1 == d2,
{
    if m1 < m2 {
        lemma_days_before_month_mono(year, m1 + 1, m2);
        assert(days_before_month(year, m1 + 1) == days_before_month(year, m1) + month_days(year, m1));
    } else if m2 < m1 {
        lemma_days_before_month_mono(year, m2 + 1, m1);
        assert(days_before_month(year, m2 + 1) == days_before_month(year, m2) + month_days(year, m2));
    }
}

/// Whether `e` reports the first of year and day of the year that is out of
/// range: the year, then the day of the year, whose bound is given with the
/// year.
pub open spec fn ordinal_error(year: int, ordinal: int, e: ComponentRange) -> bool {
    if !(MIN_YEAR <= year <= MAX_YEAR) {
        e.is("year"@, MIN_YEAR as int, MAX_YEAR as int, year)
    } else {
        e.component_name@ == "ordinal"@ && e.minimum == 1 && e.maximum == year_days(year)
            && e.value == ordinal && e.given@ == seq![("year", year as i64)]
    }
}

/// The number of the day `ordinal` of `year`, counted from 0001-01-01.
pub open spec fn day_number(year: int, ordinal: int) -> int {
    days_before_year(year) + ordinal - 1
}

/// The number of `d`, counted from 0001-01-01.
pub open spec fn date_number(d: Date) -> int {
    day_number(d.spec_year(), d.spec_ordinal())
}

/// Whether the day numbered `n` lies between the first and the last date.
pub open spec fn number_in_range(n: int) -> bool {
    days_before_year(MIN_YEAR as int) <= n < days_before_year(MAX_YEAR as int + 1)
}

/// A step of one in `y` moves `y / k` by one exactly when `k` divides `y`.
proof fn lemma_floor_step(y: int, k: int)
    requires
        k > 0,
    ensures
        y / k - (y - 1) / k == (if y % k == 0 { 1int } else { 0int }),
{
    lemma_fundamental_div_mod(y - 1, k);
    let q = (y - 1) / k;
    let r = (y - 1) % k;
    assert(y - 1 == q * k + r) by (nonlinear_arith)
        requires y - 1 == k * q + r;
    if r == k - 1 {
        assert(y == (q + 1) * k + 0) by (nonlinear_arith)
            requires y - 1 == q * k + r, r == k - 1;
        lemma_fundamental_div_mod_converse_div(y, k, q + 1, 0);
        lemma_fundamental_div_mod_converse_mod(y, k, q + 1, 0);
    } else {
        lemma_fundamental_div_mod_converse_div(y, k, q, r + 1);
        lemma_fundamental_div_mod_converse_mod(y, k, q, r + 1);
    }
}

/// A year starts where the one before it ends.
pub proof fn lemma_year_step(year: int)
    ensures
        days_before_year(year + 1) == days_before_year(year) + year_days(year),
{
    lemma_floor_step(year, 4);
    lemma_floor_step(year, 100);
    lemma_floor_step(year, 400);
}

/// Later years start later.
pub proof fn lemma_year_mono(a: int, b: int)
    requires
        a <= b,
    ensures
        days_before_year(a) <= days_before_year(b),
    decreases b - a,
{
    if a < b {
        lemma_year_mono(a, b - 1);
        lemma_year_step(b - 1);
    }
}

impl Date {
    /// The date `days` days after this one (before it when negative), or
    /// `None` when that day lies outside the years a date can hold.
    pub fn checked_add_days(self, days: i64) -> (r: Option<Date>)
        ensures
            r is Some <==> number_in_range(date_number(self) + days),
            r matches Some(e) ==> date_number(e) == date_number(self) + days,
    {
        let mut y: i32 = self.year();
        let o = self.ordinal();
        let mut rem: i128 = o as i128 - 1 + days as i128;
        proof {
            lemma_year_step(y as int);
        }
        while rem >= days_in_year(y) as i128
            invariant
                MIN_YEAR <= y <= MAX_YEAR,
                date_number(self) + days == days_before_year(y as int) + rem,
                -10_000_000_000_000_000_000 <= rem <= 10_000_000_000_000_000_000,
            decreases MAX_YEAR - y,
        {
            if y == MAX_YEAR {
                proof {
                    lemma_year_step(y as int);
                }
                return None;
            }
            proof {
                lemma_year_step(y as int);
            }
            rem = rem - days_in_year(y) as i128;
            y = y + 1;
        }
        while rem < 0
            invariant
                MIN_YEAR <= y <= MAX_YEAR,
                date_number(self) + days == days_before_year(y as int) + rem,
                rem < year_days(y as int),
                -10_000_000_000_000_000_000 <= rem,
            decreases y - MIN_YEAR,
        {
            if y == MIN_YEAR {
                return None;
            }
            proof {
                lemma_year_step(y as int - 1);
            }
            y = y - 1;
            rem = rem + days_in_year(y) as i128;
        }
        proof {
            lemma_year_mono(MIN_YEAR as int, y as int);
            lemma_year_step(y as int);
            lemma_year_mono(y as int + 1, MAX_YEAR as int + 1);
        }
        match Date::from_ordinal_date(y, (rem + 1) as u16) {
            Ok(e) => Some(e),
            Err(_) => None,
        }
    }
}

} // verus!
