//! The time scalar: a one-dimensional time vector with millisecond precision.

use vstd::prelude::*;

use crate::base::timebase::rounded_div;
use crate::base::timebase::Timebase;
use crate::base::timecode_parts::chars_of_bytes;
use crate::base::timecode_parts::timecode_bytes;
use crate::base::timecode_parts::timecode_find;
use crate::base::timecode_parts::timecode_parts_at;
use crate::base::timecode_parts::timestamp_bytes;
use crate::base::timecode_parts::timestamp_find;
use crate::base::timecode_parts::timestamp_parts_at;
use crate::base::timecode_parts::TimecodeFormatError;
use crate::base::timecode_parts::TimecodeParts;

verus! {

use vstd::string::StringSliceAdditionalSpecFns;

/// The milliseconds a set of timecode parts stands for under a timebase:
/// hours, minutes and seconds at their usual weights, and the frame field
/// rounded through the frame rate.
pub open spec fn timecode_millis(p: TimecodeParts, tb: Timebase) -> int
    recommends
        tb.fps >= 1,
{
    p.hh as int * 3600000 + p.mm as int * 60000 + p.ss as int * 1000 + rounded_div(
        p.ff as int * 1000,
        tb.fps as int,
    )
}

/// The milliseconds a set of timestamp parts stands for: hours, minutes and
/// seconds at their usual weights, and the frame field read as milliseconds.
pub open spec fn timestamp_millis(p: TimecodeParts) -> int {
    p.hh as int * 3600000 + p.mm as int * 60000 + p.ss as int * 1000 + p.ff as int
}

/// The timecode parts of a nonnegative millisecond count under a timebase:
/// hours wrap at twenty-four, and the leftover milliseconds round to the
/// nearest frame.
pub open spec fn timecode_parts_of(ms: int, tb: Timebase) -> TimecodeParts
    recommends
        0 <= ms,
        tb.fps >= 1,
{
    TimecodeParts {
        hh: (ms / 1000 / 60 / 60 % 24) as u8,
        mm: (ms / 1000 / 60 % 60) as u8,
        ss: (ms / 1000 % 60) as u8,
        ff: rounded_div((ms % 1000) * (tb.fps as int), 1000) as u32,
        drop_frame: tb.drop_frame,
    }
}

/// The timestamp parts of a nonnegative millisecond count: hours wrap at
/// twenty-four, and the leftover milliseconds stand in the frame field.
pub open spec fn timestamp_parts_of(ms: int) -> TimecodeParts
    recommends
        0 <= ms,
{
    TimecodeParts {
        hh: (ms / 1000 / 60 / 60 % 24) as u8,
        mm: (ms / 1000 / 60 % 60) as u8,
        ss: (ms / 1000 % 60) as u8,
        ff: (ms % 1000) as u32,
        drop_frame: false,
    }
}

/// A time vector, exact to the millisecond.
///
/// It can stand for a moment or for a duration; in essence it is a
/// one-dimensional vector, so it may be negative. It is immutable: every
/// operation builds a new value.
#[derive(Debug, Clone, Copy, PartialEq, Eq, Structural, Hash, Ord)]
pub struct Time {
    data: i128,
}

impl View for Time {
    type V = int;

    closed spec fn view(&self) -> int {
        self.data as int
    }
}

impl Time {
    /// Build a new time value from a millisecond count.
    pub fn new(m: i128) -> (t: Time)
        ensures
            t@ == m as int,
    {
        Time { data: m }
    }

    /// Build a new time value from a millisecond count.
    pub fn from_millisecond(m: i128) -> (t: Time)
        ensures
            t@ == m as int,
    {
        Time { data: m }
    }

    /// The millisecond count this time value stands for.
    pub fn to_millisecond(&self) -> (r: i128)
        ensures
            r as int == self@,
    {
        self.data
    }

    /// Build a time value from timecode text (`hh:mm:ss:ff`, or `hh:mm:ss;ff`
    /// for drop-frame), interpreting the frame field under the given
    /// timebase. Malformed text gives an error and no value.
    pub fn from_timecode(timecode: &str, timebase: &Timebase) -> (r: Result<
        Time,
        TimecodeFormatError,
    >)
        requires
            timebase.fps >= 1,
        ensures
            match r {
                Ok(t) => {
                    &&& timecode_find(timecode.spec_bytes(), 0) is Some
                    &&& t@ == timecode_millis(
                        timecode_parts_at(
                            timecode.spec_bytes(),
                            timecode_find(timecode.spec_bytes(), 0)->Some_0,
                        ),
                        *timebase,
                    )
                },
                Err(_) => timecode_find(timecode.spec_bytes(), 0) is None,
            },
    {
        let parts = match TimecodeParts::from_timecode(timecode) {
            Ok(p) => p,
            Err(e) => {
                return Err(e);
            },
        };
        proof {
            crate::base::timecode_parts::lemma_timecode_find_is_match(timecode.spec_bytes(), 0);
        }
        let mut ms: i128 = parts.hh as i128 * 3600000;
        ms += parts.mm as i128 * 60000;
        ms += parts.ss as i128 * 1000;
        ms += timebase.milliseconds_from_frames(parts.ff as u64);
        Ok(Time { data: ms })
    }

    /// Build a time value from timestamp text (`hh:mm:ss.mmm`; any one of
    /// `. , : ;` may stand before the milliseconds). Malformed text gives an
    /// error and no value.
    pub fn from_timestamp(timecode: &str) -> (r: Result<Time, TimecodeFormatError>)
        ensures
            match r {
                Ok(t) => {
                    &&& timestamp_find(timecode.spec_bytes(), 0) is Some
                    &&& t@ == timestamp_millis(
                        timestamp_parts_at(
                            timecode.spec_bytes(),
                            timestamp_find(timecode.spec_bytes(), 0)->Some_0,
                        ),
                    )
                },
                Err(_) => timestamp_find(timecode.spec_bytes(), 0) is None,
            },
    {
        let parts = match TimecodeParts::from_timestamp(timecode) {
            Ok(p) => p,
            Err(e) => {
                return Err(e);
            },
        };
        proof {
            crate::base::timecode_parts::lemma_timestamp_find_is_match(timecode.spec_bytes(), 0);
        }
        let mut ms: i128 = parts.hh as i128 * 3600000;
        ms += parts.mm as i128 * 60000;
        ms += parts.ss as i128 * 1000;
        ms += parts.ff as i128;
        Ok(Time { data: ms })
    }

    /// Write a nonnegative time value as timecode text under the given
    /// timebase; hours wrap at twenty-four.
    pub fn to_timecode(&self, timebase: &Timebase) -> (r: String)
        requires
            0 <= self@,
            timebase.fps >= 1,
        ensures
            r@ == chars_of_bytes(timecode_bytes(timecode_parts_of(self@, *timebase))),
    {
        let ms_part: i128 = self.data % 1000;
        proof {
            assert(ms_part * (timebase.fps as int) <= 999 * 255) by (nonlinear_arith)
                requires
                    0 <= ms_part <= 999,
                    0 <= timebase.fps <= 255,
            ;
            assert(0 <= ms_part * (timebase.fps as int)) by (nonlinear_arith)
                requires
                    0 <= ms_part,
                    0 <= timebase.fps,
            ;
        }
        let ff: u32 = timebase.frames_from_milliseconds(ms_part) as u32;
        let seconds: i128 = self.data / 1000;
        let ss: u8 = (seconds % 60) as u8;
        let minutes: i128 = seconds / 60;
        let mm: u8 = (minutes % 60) as u8;
        let hours: i128 = minutes / 60;
        let hh: u8 = (hours % 24) as u8;
        let parts = TimecodeParts { hh, mm, ss, ff, drop_frame: timebase.drop_frame };
        parts.to_timecode()
    }

    /// Write a nonnegative time value as timestamp text; hours wrap at
    /// twenty-four.
    pub fn to_timestamp(&self) -> (r: String)
        requires
            0 <= self@,
        ensures
            r@ == chars_of_bytes(timestamp_bytes(timestamp_parts_of(self@))),
    {
        let ff: u32 = (self.data % 1000) as u32;
        let seconds: i128 = self.data / 1000;
        let ss: u8 = (seconds % 60) as u8;
        let minutes: i128 = seconds / 60;
        let mm: u8 = (minutes % 60) as u8;
        let hours: i128 = minutes / 60;
        let hh: u8 = (hours % 24) as u8;
        let parts = TimecodeParts { hh, mm, ss, ff, drop_frame: false };
        parts.to_timestamp()
    }
}

impl Default for Time {
    /// The zero time value.
    fn default() -> (t: Time)
        ensures
            t@ == 0,
    {
        Time { data: 0 }
    }
}

impl From<i128> for Time {
    fn from(data: i128) -> (t: Time)
        ensures
            t@ == data as int,
    {
        Time { data }
    }
}

impl vstd::std_specs::convert::FromSpecImpl<i128> for Time {
    open spec fn obeys_from_spec() -> bool {
        true
    }

    closed spec fn from_spec(data: i128) -> Time {
        Time { data }
    }
}

/// Two time vectors add to the sum of the two vectors.
impl std::ops::Add for Time {
    type Output = Time;

    fn add(self, other: Time) -> (r: Time)
        ensures
            r@ == self@ + other@,
    {
        Time { data: self.data + other.data }
    }
}

impl vstd::std_specs::ops::AddSpecImpl for Time {
    open spec fn obeys_add_spec() -> bool {
        true
    }

    open spec fn add_req(self, rhs: Time) -> bool {
        i128::MIN <= self@ + rhs@ <= i128::MAX
    }

    closed spec fn add_spec(self, rhs: Time) -> Time {
        Time { data: (self@ + rhs@) as i128 }
    }
}

/// A time vector may subtract another.
impl std::ops::Sub for Time {
    type Output = Time;

    fn sub(self, other: Time) -> (r: Time)
        ensures
            r@ == self@ - other@,
    {
        Time { data: self.data - other.data }
    }
}

impl vstd::std_specs::ops::SubSpecImpl for Time {
    open spec fn obeys_sub_spec() -> bool {
        true
    }

    open spec fn sub_req(self, rhs: Time) -> bool {
        i128::MIN <= self@ - rhs@ <= i128::MAX
    }

    closed spec fn sub_spec(self, rhs: Time) -> Time {
        Time { data: (self@ - rhs@) as i128 }
    }
}

/// Time values order by the moment they stand for.
impl PartialOrd for Time {
    fn partial_cmp(&self, other: &Time) -> (r: Option<std::cmp::Ordering>) {
        if self.data < other.data {
            Some(std::cmp::Ordering::Less)
        } else if self.data == other.data {
            Some(std::cmp::Ordering::Equal)
        } else {
            Some(std::cmp::Ordering::Greater)
        }
    }
}

impl vstd::std_specs::cmp::PartialOrdSpecImpl for Time {
    open spec fn obeys_partial_cmp_spec() -> bool {
        true
    }

    open spec fn partial_cmp_spec(&self, other: &Time) -> Option<std::cmp::Ordering> {
        if self@ < other@ {
            Some(std::cmp::Ordering::Less)
        } else if self@ == other@ {
            Some(std::cmp::Ordering::Equal)
        } else {
            Some(std::cmp::Ordering::Greater)
        }
    }
}

} // verus!
