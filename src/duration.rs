//! Signed spans of time, to the nanosecond.
use vstd::prelude::*;
use crate::date::{Date, date_number, number_in_range};

verus! {

/// Nanoseconds in a second.
pub const NANOS_PER_SECOND: i128 = 1_000_000_000;

/// `a / b` rounded toward zero, for `b > 0`.
pub open spec fn div_trunc(a: int, b: int) -> int {
    if a < 0 { -((-a) / b) } else { a / b }
}

/// Whether `total` nanoseconds make a duration: its whole seconds fit an
/// `i64`.
pub open spec fn fits(total: int) -> bool {
    i64::MIN <= div_trunc(total, 1_000_000_000) <= i64::MAX
}

/// A signed span of time: whole seconds and a nanosecond part of the same
/// sign and under a second.
#[derive(Debug, Clone, Copy, PartialEq, Eq, Structural, Hash)]
pub struct Duration {
    seconds: i64,
    nanoseconds: i32,
}

impl Duration {
    /// The whole seconds.
    pub closed spec fn spec_seconds(self) -> int {
        self.seconds as int
    }

    /// The nanoseconds past the whole seconds, with their sign.
    pub closed spec fn spec_nanoseconds(self) -> int {
        self.nanoseconds as int
    }

    /// The length in nanoseconds.
    pub open spec fn total(self) -> int {
        self.spec_seconds() * 1_000_000_000 + self.spec_nanoseconds()
    }

    #[verifier::type_invariant]
    closed spec fn inv(self) -> bool {
        -999_999_999 <= self.nanoseconds <= 999_999_999 && (self.seconds > 0 ==> self.nanoseconds >= 0)
            && (self.seconds < 0 ==> self.nanoseconds <= 0)
    }

    /// The duration of `total` nanoseconds, when its whole seconds fit.
    pub(crate) fn from_total(total: i128) -> (r: Option<Duration>)
        requires
            -100_000_000_000_000_000_000_000_000_000_000_000_000 <= total
                <= 100_000_000_000_000_000_000_000_000_000_000_000_000,
        ensures
            r is Some <==> fits(total as int),
            r matches Some(d) ==> d.total() == total && d.spec_seconds() == div_trunc(total as int, 1_000_000_000),
    {
        let neg = total < 0;
        let mag: u128 = if neg { (0 - total) as u128 } else { total as u128 };
        let secs: u128 = mag / 1_000_000_000;
        let nanos: u128 = mag % 1_000_000_000;
        proof {
            assert(mag == secs * 1_000_000_000 + nanos);
        }
        if neg {
            if secs > 9_223_372_036_854_775_808 {
                return None;
            }
            let s: i64 = (0 - secs as i128) as i64;
            let n: i32 = (0 - nanos as i64) as i32;
            Some(Duration { seconds: s, nanoseconds: n })
        } else {
            if secs > 9_223_372_036_854_775_807 {
                return None;
            }
            Some(Duration { seconds: secs as i64, nanoseconds: nanos as i32 })
        }
    }

    /// The duration of `seconds` seconds and `nanoseconds` nanoseconds, the
    /// two summed; `None` when the whole seconds of the sum overflow.
    pub fn new(seconds: i64, nanoseconds: i32) -> (r: Option<Duration>)
        ensures
            r is Some <==> fits(seconds * 1_000_000_000 + nanoseconds),
            r matches Some(d) ==> d.total() == seconds * 1_000_000_000 + nanoseconds,
    {
        Duration::from_total(seconds as i128 * NANOS_PER_SECOND + nanoseconds as i128)
    }

    /// The duration of whole seconds.
    pub fn seconds(seconds: i64) -> (r: Duration)
        ensures
            r.total() == seconds * 1_000_000_000,
            r.spec_seconds() == seconds,
    {
        Duration { seconds, nanoseconds: 0 }
    }

    /// The duration of whole days; `None` when its seconds overflow.
    pub fn days(days: i64) -> (r: Option<Duration>)
        ensures
            r is Some <==> i64::MIN <= days * 86_400 <= i64::MAX,
            r matches Some(d) ==> d.total() == days * 86_400 * 1_000_000_000,
    {
        match days.checked_mul(86_400) {
            Some(s) => Some(Duration { seconds: s, nanoseconds: 0 }),
            None => None,
        }
    }

    /// The whole seconds, rounded toward zero.
    pub fn whole_seconds(&self) -> (r: i64)
        ensures
            r == self.spec_seconds(),
    {
        self.seconds
    }

    /// The nanoseconds past the whole seconds, with the sign of the whole.
    pub fn subsec_nanoseconds(&self) -> (r: i32)
        ensures
            r == self.spec_nanoseconds(),
            -999_999_999 <= r <= 999_999_999,
    {
        proof {
            use_type_invariant(self);
        }
        self.nanoseconds
    }

    /// The whole days, rounded toward zero.
    pub fn whole_days(&self) -> (r: i64)
        ensures
            r == div_trunc(self.spec_seconds(), 86_400),
    {
        if self.seconds < 0 {
            let m: u64 = (0 - self.seconds as i128) as u64;
            (0 - (m / 86_400) as i128) as i64
        } else {
            (self.seconds as u64 / 86_400) as i64
        }
    }

    /// The duration of the same length and opposite sign; `None` when its
    /// whole seconds overflow.
    pub fn checked_neg(self) -> (r: Option<Duration>)
        ensures
            r is Some <==> fits(-self.total()),
            r matches Some(d) ==> d.total() == -self.total(),
    {
        let a = self.seconds as i128 * NANOS_PER_SECOND + self.subsec_nanoseconds() as i128;
        Duration::from_total(-a)
    }

    /// The sum of two durations; `None` when its whole seconds overflow.
    pub fn checked_add(self, rhs: Duration) -> (r: Option<Duration>)
        ensures
            r is Some <==> fits(self.total() + rhs.total()),
            r matches Some(d) ==> d.total() == self.total() + rhs.total(),
    {
        let a = self.seconds as i128 * NANOS_PER_SECOND + self.subsec_nanoseconds() as i128;
        let b = rhs.seconds as i128 * NANOS_PER_SECOND + rhs.subsec_nanoseconds() as i128;
        Duration::from_total(a + b)
    }
}

impl Date {
    /// The date that lies the whole days of `duration` after this one (before
    /// it when negative); `None` outside the years a date can hold.
    pub fn checked_add(self, duration: Duration) -> (r: Option<Date>)
        ensures
            r is Some <==> number_in_range(date_number(self) + div_trunc(duration.spec_seconds(), 86_400)),
            r matches Some(e) ==> date_number(e) == date_number(self) + div_trunc(duration.spec_seconds(), 86_400),
    {
        self.checked_add_days(duration.whole_days())
    }

    /// The date that lies the whole days of `duration` before this one
    /// (after it when negative); `None` outside the years a date can hold.
    pub fn checked_sub(self, duration: Duration) -> (r: Option<Date>)
        ensures
            r is Some <==> number_in_range(date_number(self) - div_trunc(duration.spec_seconds(), 86_400)),
            r matches Some(e) ==> date_number(e) == date_number(self) - div_trunc(duration.spec_seconds(), 86_400),
    {
        let days = duration.whole_days();
        if days == i64::MIN {
            return None;
        }
        self.checked_add_days(-days)
    }
}

} // verus!
