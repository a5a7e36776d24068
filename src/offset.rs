//! Fixed offsets from UTC.
use vstd::prelude::*;
use crate::error::ComponentRange;

verus! {

/// The smallest and largest minutes or seconds beside a leading component
/// `lead`: of its sign, or of either sign when it is zero.
pub open spec fn range_beside(lead: int) -> (int, int) {
    if lead > 0 {
        (0, 59)
    } else if lead < 0 {
        (-59, 0)
    } else {
        (-59, 59)
    }
}

/// Whether hours, minutes and seconds are in range with no opposite signs.
pub open spec fn valid_offset_hms(hours: int, minutes: int, seconds: int) -> bool {
    -23 <= hours <= 23 && range_beside(hours).0 <= minutes <= range_beside(hours).1
        && range_beside(if hours != 0 { hours } else { minutes }).0 <= seconds
        <= range_beside(if hours != 0 { hours } else { minutes }).1
}

/// Whether `e` reports the first of hours, minutes and seconds that is out of
/// its range.
pub open spec fn offset_error(hours: int, minutes: int, seconds: int, e: ComponentRange) -> bool {
    if !(-23 <= hours <= 23) {
        e.is("hours"@, -23, 23, hours)
    } else if !(range_beside(hours).0 <= minutes <= range_beside(hours).1) {
        e.is("minutes"@, range_beside(hours).0, range_beside(hours).1, minutes)
    } else {
        let lead = if hours != 0 { hours } else { minutes };
        e.is("seconds"@, range_beside(lead).0, range_beside(lead).1, seconds)
    }
}

/// The range of minutes or seconds beside `lead`.
fn signed_range(lead: i8) -> (r: (i64, i64))
    ensures
        r.0 == range_beside(lead as int).0 && r.1 == range_beside(lead as int).1,
{
    if lead > 0 {
        (0, 59)
    } else if lead < 0 {
        (-59, 0)
    } else {
        (-59, 59)
    }
}

/// An offset from UTC in whole seconds, of magnitude under a day. Its hours,
/// minutes and seconds all carry the sign of the whole.
#[derive(Debug, Clone, Copy, PartialEq, Eq, Structural, Hash)]
pub struct UtcOffset {
    seconds: i32,
}

impl UtcOffset {
    /// The offset in seconds, east of UTC positive.
    pub closed spec fn spec_seconds(self) -> int {
        self.seconds as int
    }

    #[verifier::type_invariant]
    closed spec fn inv(self) -> bool {
        -86_399 <= self.seconds <= 86_399
    }

    /// UTC itself.
    pub fn utc() -> (r: UtcOffset)
        ensures
            r.spec_seconds() == 0,
    {
        UtcOffset { seconds: 0 }
    }

    /// Builds an offset from whole seconds east of UTC.
    pub fn from_whole_seconds(seconds: i32) -> (r: Result<UtcOffset, ComponentRange>)
        ensures
            r is Ok <==> -86_399 <= seconds <= 86_399,
            r matches Ok(o) ==> o.spec_seconds() == seconds,
            r matches Err(e) ==> e.is("seconds"@, -86_399, 86_399, seconds as int),
    {
        if seconds < -86_399 || seconds > 86_399 {
            return Err(ComponentRange { component_name: "seconds", minimum: -86_399, maximum: 86_399, value: seconds as i64, given: Vec::new() });
        }
        Ok(UtcOffset { seconds })
    }

    /// Builds an offset from hours, minutes and seconds, which must not have
    /// opposite signs. The hours are checked first, then the minutes, whose
    /// range takes the sign of the hours, then the seconds, whose range takes
    /// the sign of the first non-zero of the two.
    pub fn from_hms(hours: i8, minutes: i8, seconds: i8) -> (r: Result<UtcOffset, ComponentRange>)
        ensures
            r is Ok <==> valid_offset_hms(hours as int, minutes as int, seconds as int),
            r matches Ok(o) ==> o.spec_seconds() == hours * 3600 + minutes * 60 + seconds,
            r matches Err(e) ==> offset_error(hours as int, minutes as int, seconds as int, e),
    {
        if hours < -23 || hours > 23 {
            return Err(ComponentRange { component_name: "hours", minimum: -23, maximum: 23, value: hours as i64, given: Vec::new() });
        }
        let (lo, hi) = signed_range(hours);
        if (minutes as i64) < lo || (minutes as i64) > hi {
            return Err(ComponentRange { component_name: "minutes", minimum: lo, maximum: hi, value: minutes as i64, given: Vec::new() });
        }
        let (lo, hi) = signed_range(if hours != 0 { hours } else { minutes });
        if (seconds as i64) < lo || (seconds as i64) > hi {
            return Err(ComponentRange { component_name: "seconds", minimum: lo, maximum: hi, value: seconds as i64, given: Vec::new() });
        }
        Ok(UtcOffset { seconds: hours as i32 * 3600 + minutes as i32 * 60 + seconds as i32 })
    }

    /// The offset in whole seconds.
    pub fn whole_seconds(&self) -> (r: i32)
        ensures
            r == self.spec_seconds(),
            -86_399 <= r <= 86_399,
    {
        proof {
            use_type_invariant(self);
        }
        self.seconds
    }

    /// The offset split into hours, minutes and seconds, each with the sign
    /// of the whole.
    pub fn as_hms(&self) -> (r: (i8, i8, i8))
        ensures
            r.0 * 3600 + r.1 * 60 + r.2 == self.spec_seconds(),
            -23 <= r.0 <= 23 && -59 <= r.1 <= 59 && -59 <= r.2 <= 59,
            self.spec_seconds() >= 0 ==> r.0 >= 0 && r.1 >= 0 && r.2 >= 0,
            self.spec_seconds() <= 0 ==> r.0 <= 0 && r.1 <= 0 && r.2 <= 0,
    {
        proof {
            use_type_invariant(self);
        }
        let neg = self.seconds < 0;
        let mag: u32 = if neg { (-self.seconds) as u32 } else { self.seconds as u32 };
        let h = (mag / 3600) as i8;
        let m = ((mag % 3600) / 60) as i8;
        let s = (mag % 60) as i8;
        proof {
            assert(mag as int == (mag / 3600) * 3600 + ((mag % 3600) / 60) * 60 + mag % 60) by (nonlinear_arith)
                requires mag <= 86_399;
        }
        if neg { (-h, -m, -s) } else { (h, m, s) }
    }
}

} // verus!
