//! A date with a time of day, with or without an offset from UTC.
use vstd::prelude::*;
use crate::clock::Time;
use crate::date::{Date, date_number, number_in_range};
use crate::duration::{Duration, fits};
use vstd::arithmetic::div_mod::{lemma_hoist_over_denominator, lemma_mod_multiples_vanish};
use crate::offset::UtcOffset;

verus! {

/// Nanoseconds in a day.
pub const NANOS_PER_DAY: i128 = 86_400_000_000_000;

/// The nanoseconds from midnight to `t`.
pub open spec fn time_nanos(t: Time) -> int {
    ((t.spec_hour() * 60 + t.spec_minute()) * 60 + t.spec_second()) * 1_000_000_000 + t.spec_nanosecond()
}

/// The nanoseconds from 0001-01-01 at midnight to `dt`.
pub open spec fn instant_nanos(dt: PrimitiveDateTime) -> int {
    date_number(dt.date) * 86_400_000_000_000 + time_nanos(dt.time)
}

/// A date and a time of day with no offset: a local time.
#[derive(Debug, Clone, Copy, PartialEq, Eq, Structural, Hash)]
pub struct PrimitiveDateTime {
    pub date: Date,
    pub time: Time,
}

impl PrimitiveDateTime {
    /// Combines a date and a time of day.
    pub fn new(date: Date, time: Time) -> (r: PrimitiveDateTime)
        ensures
            r.date == date && r.time == time,
    {
        PrimitiveDateTime { date, time }
    }

    /// Attaches an offset from UTC, which makes the value an instant.
    pub fn assume_offset(self, offset: UtcOffset) -> (r: OffsetDateTime)
        ensures
            r.datetime == self && r.offset == offset,
    {
        OffsetDateTime { datetime: self, offset }
    }

    /// The date and time `duration` later (earlier when negative), carrying
    /// whole days into the date; `None` when the date leaves the years a date
    /// can hold.
    pub fn checked_add(self, duration: Duration) -> (r: Option<PrimitiveDateTime>)
        ensures
            r is Some <==> number_in_range(
                date_number(self.date) + (time_nanos(self.time) + duration.total()) / 86_400_000_000_000,
            ),
            r matches Some(e) ==> instant_nanos(e) == instant_nanos(self) + duration.total(),
    {
        let x: i128 = nanos_of(self.time) + duration_nanos(duration);
        let (days, rem) = split_days(x);
        let date = match self.date.checked_add_days(days as i64) {
            Some(d) => d,
            None => {
                return None;
            },
        };
        let r = PrimitiveDateTime { date, time: time_of_nanos(rem) };
        proof {
            assert((date_number(self.date) + days) * 86_400_000_000_000 + rem == date_number(self.date)
                * 86_400_000_000_000 + days * 86_400_000_000_000 + rem) by (nonlinear_arith);
        }
        Some(r)
    }

    /// The date and time `duration` earlier (later when negative); `None` when
    /// the date leaves the years a date can hold or the duration cannot be
    /// negated.
    pub fn checked_sub(self, duration: Duration) -> (r: Option<PrimitiveDateTime>)
        ensures
            r matches Some(e) ==> instant_nanos(e) == instant_nanos(self) - duration.total(),
            r is None ==> !fits(-duration.total()) || !number_in_range(
                date_number(self.date) + (time_nanos(self.time) - duration.total()) / 86_400_000_000_000,
            ),
    {
        match duration.checked_neg() {
            Some(n) => self.checked_add(n),
            None => None,
        }
    }
}

/// The nanoseconds from midnight to `t`.
fn nanos_of(t: Time) -> (r: i128)
    ensures
        r == time_nanos(t),
        0 <= r < 86_400_000_000_000,
{
    ((t.hour() as i128 * 60 + t.minute() as i128) * 60 + t.second() as i128) * 1_000_000_000
        + t.nanosecond() as i128
}

/// The length of `d` in nanoseconds.
fn duration_nanos(d: Duration) -> (r: i128)
    ensures
        r == d.total(),
        -10_000_000_000_000_000_000_000_000_000 <= r <= 10_000_000_000_000_000_000_000_000_000,
{
    d.whole_seconds() as i128 * 1_000_000_000 + d.subsec_nanoseconds() as i128
}

/// Whole days and the nanoseconds left in the last day, rounding down.
fn split_days(x: i128) -> (r: (i128, i128))
    requires
        -20_000_000_000_000_000_000_000_000_000 <= x <= 20_000_000_000_000_000_000_000_000_000,
    ensures
        r.0 == x / 86_400_000_000_000,
        r.1 == x % 86_400_000_000_000,
        -1_000_000_000_000_000 <= r.0 <= 1_000_000_000_000_000,
        r.0 * 86_400_000_000_000 + r.1 == x,
{
    // A whole number of days added first keeps the time of day and makes
    // the sum non-negative.
    let k: i128 = 1_000_000_000_000_000;
    let shifted: i128 = x + k * NANOS_PER_DAY;
    let days: i128 = shifted / NANOS_PER_DAY - k;
    let rem: i128 = shifted % NANOS_PER_DAY;
    proof {
        lemma_hoist_over_denominator(x as int, k as int, 86_400_000_000_000);
        lemma_mod_multiples_vanish(k as int, x as int, 86_400_000_000_000);
        assert(k * 86_400_000_000_000 + x == x + k * 86_400_000_000_000);
        assert(days * 86_400_000_000_000 + rem == x) by (nonlinear_arith)
            requires
                days == x / 86_400_000_000_000,
                rem == x % 86_400_000_000_000;
    }
    (days, rem)
}

/// The time `rem` nanoseconds after midnight.
fn time_of_nanos(rem: i128) -> (r: Time)
    requires
        0 <= rem < 86_400_000_000_000,
    ensures
        time_nanos(r) == rem,
{
    let hour: i128 = rem / 3_600_000_000_000;
    let r1: i128 = rem % 3_600_000_000_000;
    let minute: i128 = r1 / 60_000_000_000;
    let r2: i128 = r1 % 60_000_000_000;
    let second: i128 = r2 / 1_000_000_000;
    let nano: i128 = r2 % 1_000_000_000;
    proof {
        assert(hour < 24) by (nonlinear_arith)
            requires
                rem < 86_400_000_000_000,
                rem == hour * 3_600_000_000_000 + r1,
                0 <= r1;
        assert(minute < 60) by (nonlinear_arith)
            requires
                r1 < 3_600_000_000_000,
                r1 == minute * 60_000_000_000 + r2,
                0 <= r2;
        assert(second < 60) by (nonlinear_arith)
            requires
                r2 < 60_000_000_000,
                r2 == second * 1_000_000_000 + nano,
                0 <= nano;
    }
    match Time::from_hms_nano(hour as u8, minute as u8, second as u8, nano as u32) {
        Ok(t) => t,
        Err(_) => Time::midnight(),
    }
}

impl Time {
    /// The time of day `duration` later, wrapping around midnight.
    pub fn wrapping_add(self, duration: Duration) -> (r: Time)
        ensures
            time_nanos(r) == (time_nanos(self) + duration.total()) % 86_400_000_000_000,
    {
        let (_, rem) = split_days(nanos_of(self) + duration_nanos(duration));
        time_of_nanos(rem)
    }
}

impl OffsetDateTime {
    /// The same instant `duration` later at the same offset; `None` when the
    /// date leaves the years a date can hold.
    pub fn checked_add(self, duration: Duration) -> (r: Option<OffsetDateTime>)
        ensures
            r is Some <==> number_in_range(
                date_number(self.datetime.date) + (time_nanos(self.datetime.time) + duration.total())
                    / 86_400_000_000_000,
            ),
            r matches Some(e) ==> e.offset == self.offset && instant_nanos(e.datetime) == instant_nanos(
                self.datetime,
            ) + duration.total(),
    {
        match self.datetime.checked_add(duration) {
            Some(dt) => Some(OffsetDateTime { datetime: dt, offset: self.offset }),
            None => None,
        }
    }
}

/// A date and a time of day at a known offset from UTC.
#[derive(Debug, Clone, Copy, PartialEq, Eq, Structural, Hash)]
pub struct OffsetDateTime {
    pub datetime: PrimitiveDateTime,
    pub offset: UtcOffset,
}

} // verus!
