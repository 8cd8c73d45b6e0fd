//! Points on the subtitle clock and the arithmetic of shifting them.

use vstd::prelude::*;

verus! {

/// Nanoseconds in one millisecond.
pub const NANOS_PER_MILLI: i128 = 1_000_000;

/// Nanoseconds in one second.
pub const NANOS_PER_SECOND: i128 = 1_000_000_000;

/// Nanoseconds in one minute.
pub const NANOS_PER_MINUTE: i128 = 60_000_000_000;

/// Nanoseconds in one hour.
pub const NANOS_PER_HOUR: i128 = 3_600_000_000_000;

/// The nanosecond count of the clock reading `hour:minute:second,millisecond`.
///
/// Fields above their usual range simply carry into the next larger unit.
pub open spec fn nanos_of_fields(hour: int, minute: int, second: int, millisecond: int) -> int {
    hour * NANOS_PER_HOUR + minute * NANOS_PER_MINUTE + second * NANOS_PER_SECOND + millisecond
        * NANOS_PER_MILLI
}

/// The instant that is displayed for `nanos`: instants before zero are shown as zero.
pub open spec fn displayed(nanos: int) -> int {
    if nanos < 0 {
        0
    } else {
        nanos
    }
}

/// The hour field shown for `nanos`: whole hours, without any upper limit.
pub open spec fn hour_field(nanos: int) -> int {
    displayed(nanos) / NANOS_PER_HOUR as int
}

/// The minute field shown for `nanos`: whole minutes modulo 60.
pub open spec fn minute_field(nanos: int) -> int {
    (displayed(nanos) / NANOS_PER_MINUTE as int) % 60
}

/// The second field shown for `nanos`: whole seconds modulo 60.
pub open spec fn second_field(nanos: int) -> int {
    (displayed(nanos) / NANOS_PER_SECOND as int) % 60
}

/// The millisecond field shown for `nanos`: whole milliseconds modulo 1000.
pub open spec fn millisecond_field(nanos: int) -> int {
    (displayed(nanos) / NANOS_PER_MILLI as int) % 1000
}

/// The instant `nanos` moved by `offset` nanoseconds.
pub open spec fn shifted(nanos: int, offset: int) -> int {
    nanos + offset
}

/// Whether `nanos` can be held by a [`Timestamp`].
pub open spec fn representable(nanos: int) -> bool {
    i128::MIN <= nanos <= i128::MAX
}

/// A point on the subtitle clock, counted in nanoseconds from `00:00:00,000`.
///
/// The hour is not limited to a day. A shift may move an instant before zero;
/// the count then stays negative, so that further arithmetic is exact, and
/// only the displayed fields are held at zero.
#[derive(Clone, Copy, Debug, PartialEq, Eq, Structural)]
pub struct Timestamp {
    pub nanos: i128,
}

impl View for Timestamp {
    type V = int;

    open spec fn view(&self) -> int {
        self.nanos as int
    }
}

impl Timestamp {
    /// The instant `nanos` nanoseconds after `00:00:00,000`.
    pub fn from_nanos(nanos: i128) -> (t: Timestamp)
        ensures
            t@ == nanos,
    {
        Timestamp { nanos }
    }

    /// The instant that reads `hour:minute:second,millisecond` on the clock.
    pub fn from_hms_milli(hour: u32, minute: u8, second: u8, millisecond: u16) -> (t: Timestamp)
        ensures
            t@ == nanos_of_fields(hour as int, minute as int, second as int, millisecond as int),
    {
        let nanos: i128 = hour as i128 * NANOS_PER_HOUR + minute as i128 * NANOS_PER_MINUTE
            + second as i128 * NANOS_PER_SECOND + millisecond as i128 * NANOS_PER_MILLI;
        Timestamp { nanos }
    }

    /// The signed nanosecond count of this instant.
    pub fn nanos(&self) -> (n: i128)
        ensures
            n == self@,
    {
        self.nanos
    }

    /// The hour shown for this instant.
    pub fn hour(&self) -> (h: u128)
        ensures
            h == hour_field(self@),
    {
        if self.nanos < 0 {
            0
        } else {
            (self.nanos / NANOS_PER_HOUR) as u128
        }
    }

    /// The minute shown for this instant, below 60.
    pub fn minute(&self) -> (m: u8)
        ensures
            m == minute_field(self@),
            m < 60,
    {
        if self.nanos < 0 {
            0
        } else {
            ((self.nanos / NANOS_PER_MINUTE) % 60) as u8
        }
    }

    /// The second shown for this instant, below 60.
    pub fn second(&self) -> (s: u8)
        ensures
            s == second_field(self@),
            s < 60,
    {
        if self.nanos < 0 {
            0
        } else {
            ((self.nanos / NANOS_PER_SECOND) % 60) as u8
        }
    }

    /// The millisecond shown for this instant, below 1000.
    pub fn millisecond(&self) -> (ms: u16)
        ensures
            ms == millisecond_field(self@),
            ms < 1000,
    {
        if self.nanos < 0 {
            0
        } else {
            ((self.nanos / NANOS_PER_MILLI) % 1000) as u16
        }
    }

    /// This instant moved by `offset_ns` nanoseconds, or `None` where the sum
    /// leaves the range of the nanosecond count.
    pub fn checked_shifted(&self, offset_ns: i64) -> (r: Option<Timestamp>)
        ensures
            r is Some <==> representable(shifted(self@, offset_ns as int)),
            r matches Some(t) ==> t@ == shifted(self@, offset_ns as int),
    {
        match self.nanos.checked_add(offset_ns as i128) {
            Some(nanos) => Some(Timestamp { nanos }),
            None => None,
        }
    }
}

/// Shifting by zero leaves an instant where it is.
pub proof fn lemma_shift_zero(nanos: int)
    ensures
        shifted(nanos, 0) == nanos,
{
}

/// Shifting by `a` and then by `b` is shifting once by `a + b`.
pub proof fn lemma_shift_additive(nanos: int, a: int, b: int)
    ensures
        shifted(shifted(nanos, a), b) == shifted(nanos, a + b),
{
}

/// Two instants moved by the same offset stay exactly as far apart as they were.
pub proof fn lemma_shift_preserves_duration(start: int, end: int, offset: int)
    ensures
        shifted(end, offset) - shifted(start, offset) == end - start,
{
}

/// An instant built from clock fields that are within their usual ranges
/// shows exactly those fields again.
pub proof fn lemma_fields_read_back(hour: int, minute: int, second: int, millisecond: int)
    requires
        0 <= hour,
        0 <= minute < 60,
        0 <= second < 60,
        0 <= millisecond < 1000,
    ensures
        hour_field(nanos_of_fields(hour, minute, second, millisecond)) == hour,
        minute_field(nanos_of_fields(hour, minute, second, millisecond)) == minute,
        second_field(nanos_of_fields(hour, minute, second, millisecond)) == second,
        millisecond_field(nanos_of_fields(hour, minute, second, millisecond)) == millisecond,
{
    let n = nanos_of_fields(hour, minute, second, millisecond);
    let total_ms = ((hour * 60 + minute) * 60 + second) * 1000 + millisecond;
    let total_s = (hour * 60 + minute) * 60 + second;
    let total_m = hour * 60 + minute;
    assert(n == total_ms * 1_000_000);
    assert(n / 1_000_000 == total_ms);
    assert(n == total_s * 1_000_000_000 + millisecond * 1_000_000);
    assert(n / 1_000_000_000 == total_s);
    assert(n == total_m * 60_000_000_000 + second * 1_000_000_000 + millisecond * 1_000_000);
    assert(n / 60_000_000_000 == total_m);
    assert(n / 3_600_000_000_000 == hour);
}

/// Before zero every displayed field is zero.
pub proof fn lemma_negative_displays_zero(nanos: int)
    requires
        nanos < 0,
    ensures
        hour_field(nanos) == 0,
        minute_field(nanos) == 0,
        second_field(nanos) == 0,
        millisecond_field(nanos) == 0,
{
}

} // verus!
