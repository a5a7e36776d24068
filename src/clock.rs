//! Times of day.
use vstd::prelude::*;
use crate::error::ComponentRange;

verus! {

/// Whether the components name a time of day: no leap second, and fewer
/// than a billion nanoseconds.
pub open spec fn valid_hms_nano(hour: int, minute: int, second: int, nanosecond: int) -> bool {
    0 <= hour <= 23 && 0 <= minute <= 59 && 0 <= second <= 59 && 0 <= nanosecond <= 999_999_999
}

/// Whether `e` reports the first of hour, minute, second and nanosecond that
/// is out of range.
pub open spec fn clock_error(hour: int, minute: int, second: int, nanosecond: int, e: ComponentRange) -> bool {
    if !(0 <= hour <= 23) {
        e.is("hour"@, 0, 23, hour)
    } else if !(0 <= minute <= 59) {
        e.is("minute"@, 0, 59, minute)
    } else if !(0 <= second <= 59) {
        e.is("second"@, 0, 59, second)
    } else {
        e.is("nanosecond"@, 0, 999_999_999, nanosecond)
    }
}

/// A time of day, to the nanosecond.
#[derive(Debug, Clone, Copy, PartialEq, Eq, Structural, Hash)]
pub struct Time {
    hour: u8,
    minute: u8,
    second: u8,
    nanosecond: u32,
}

impl Time {
    /// The hour, 0 to 23.
    pub closed spec fn spec_hour(self) -> int {
        self.hour as int
    }

    /// The minute, 0 to 59.
    pub closed spec fn spec_minute(self) -> int {
        self.minute as int
    }

    /// The second, 0 to 59.
    pub closed spec fn spec_second(self) -> int {
        self.second as int
    }

    /// The nanoseconds past the second.
    pub closed spec fn spec_nanosecond(self) -> int {
        self.nanosecond as int
    }

    #[verifier::type_invariant]
    closed spec fn inv(self) -> bool {
        valid_hms_nano(self.hour as int, self.minute as int, self.second as int, self.nanosecond as int)
    }

    /// Two times with the same components are equal.
    pub proof fn lemma_ext(self, other: Time)
        requires
            self.spec_hour() == other.spec_hour(),
            self.spec_minute() == other.spec_minute(),
            self.spec_second() == other.spec_second(),
            self.spec_nanosecond() == other.spec_nanosecond(),
        ensures
            self == other,
    {
    }

    /// Midnight, the first moment of the day.
    pub fn midnight() -> (r: Time)
        ensures
            r.spec_hour() == 0 && r.spec_minute() == 0 && r.spec_second() == 0
                && r.spec_nanosecond() == 0,
    {
        Time { hour: 0, minute: 0, second: 0, nanosecond: 0 }
    }

    /// Builds a time from an hour, a minute, a second and nanoseconds, checking
    /// each in that order.
    pub fn from_hms_nano(hour: u8, minute: u8, second: u8, nanosecond: u32) -> (r: Result<
        Time,
        ComponentRange,
    >)
        ensures
            r is Ok <==> valid_hms_nano(hour as int, minute as int, second as int, nanosecond as int),
            r matches Ok(t) ==> t.spec_hour() == hour && t.spec_minute() == minute
                && t.spec_second() == second && t.spec_nanosecond() == nanosecond,
            r matches Err(e) ==> clock_error(hour as int, minute as int, second as int, nanosecond as int, e),
    {
        if hour > 23 {
            return Err(ComponentRange { component_name: "hour", minimum: 0, maximum: 23, value: hour as i64, given: Vec::new() });
        }
        if minute > 59 {
            return Err(ComponentRange { component_name: "minute", minimum: 0, maximum: 59, value: minute as i64, given: Vec::new() });
        }
        if second > 59 {
            return Err(ComponentRange { component_name: "second", minimum: 0, maximum: 59, value: second as i64, given: Vec::new() });
        }
        if nanosecond > 999_999_999 {
            return Err(ComponentRange { component_name: "nanosecond", minimum: 0, maximum: 999_999_999, value: nanosecond as i64, given: Vec::new() });
        }
        Ok(Time { hour, minute, second, nanosecond })
    }

    /// Builds a time on a whole second from an hour, a minute and a second.
    pub fn from_hms(hour: u8, minute: u8, second: u8) -> (r: Result<Time, ComponentRange>)
        ensures
            r is Ok <==> valid_hms_nano(hour as int, minute as int, second as int, 0),
            r matches Ok(t) ==> t.spec_hour() == hour && t.spec_minute() == minute
                && t.spec_second() == second && t.spec_nanosecond() == 0,
            r matches Err(e) ==> clock_error(hour as int, minute as int, second as int, 0, e),
    {
        Time::from_hms_nano(hour, minute, second, 0)
    }

    /// The hour, 0 to 23.
    pub fn hour(&self) -> (r: u8)
        ensures
            r == self.spec_hour(),
            r <= 23,
    {
        proof {
            use_type_invariant(self);
        }
        self.hour
    }

    /// The minute, 0 to 59.
    pub fn minute(&self) -> (r: u8)
        ensures
            r == self.spec_minute(),
            r <= 59,
    {
        proof {
            use_type_invariant(self);
        }
        self.minute
    }

    /// The second, 0 to 59.
    pub fn second(&self) -> (r: u8)
        ensures
            r == self.spec_second(),
            r <= 59,
    {
        proof {
            use_type_invariant(self);
        }
        self.second
    }

    /// The nanoseconds past the second.
    pub fn nanosecond(&self) -> (r: u32)
        ensures
            r == self.spec_nanosecond(),
            r <= 999_999_999,
    {
        proof {
            use_type_invariant(self);
        }
        self.nanosecond
    }
}

} // verus!
