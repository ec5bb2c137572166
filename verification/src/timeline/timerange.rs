//! A plain time range: a start and a duration, with nothing else attached.

use vstd::prelude::*;

use crate::base::time::Time;
use crate::timeline::timerange_trait::TimeRangeEditableTrait;
use crate::timeline::timerange_trait::TimeRangeTrait;

verus! {

/// A pure time range, stored as a start and a duration.
#[derive(Debug, Clone, Copy)]
pub struct TimeRange {
    start: Time,
    duration: Time,
}

impl View for TimeRange {
    type V = (int, int);

    closed spec fn view(&self) -> (int, int) {
        (self.start@, self.duration@)
    }
}

impl TimeRange {
    /// Build a range from a start and a duration.
    pub fn new(start: Time, duration: Time) -> (r: TimeRange)
        ensures
            r.start_ms() == start@,
            r.duration_ms() == duration@,
    {
        TimeRange { start, duration }
    }

    /// Build a range from a start and a duration given in milliseconds.
    pub fn from_millisecond(start: i128, duration: i128) -> (r: TimeRange)
        ensures
            r.start_ms() == start as int,
            r.duration_ms() == duration as int,
    {
        TimeRange { start: Time::from_millisecond(start), duration: Time::from_millisecond(duration) }
    }

    /// Build a range that covers the same time as another range object.
    pub fn from_timerange<T: TimeRangeTrait>(range: &T) -> (r: TimeRange)
        ensures
            r.start_ms() == range.start_ms(),
            r.duration_ms() == range.duration_ms(),
    {
        TimeRange { start: range.start(), duration: range.duration() }
    }

    /// The shortest range that covers every range in the list: it starts at
    /// the least start and ends at the greatest end.
    pub fn whole_timerange<I: TimeRangeTrait>(ranges: &Vec<I>) -> (r: TimeRange)
        requires
            ranges@.len() > 0,
            forall|i: int| 0 <= i < ranges@.len() ==> (#[trigger] ranges@[i]).time_fits(),
            forall|i: int, j: int|
                0 <= i < ranges@.len() && 0 <= j < ranges@.len() ==> i128::MIN <= (
                #[trigger] ranges@[i]).end_ms() - (#[trigger] ranges@[j]).start_ms() <= i128::MAX,
        ensures
            forall|i: int| 0 <= i < ranges@.len() ==> r.start_ms() <= (#[trigger] ranges@[i]).start_ms(),
            exists|i: int| 0 <= i < ranges@.len() && r.start_ms() == (#[trigger] ranges@[i]).start_ms(),
            forall|i: int| 0 <= i < ranges@.len() ==> (#[trigger] ranges@[i]).end_ms() <= r.end_ms(),
            exists|i: int| 0 <= i < ranges@.len() && r.end_ms() == (#[trigger] ranges@[i]).end_ms(),
    {
        let n: usize = ranges.len();
        let mut start: Time = ranges[0].start();
        let mut end: Time = ranges[0].end();
        let mut k: usize = 1;
        while k < n
            invariant
                n == ranges@.len(),
                1 <= k <= n,
                forall|i: int| 0 <= i < ranges@.len() ==> (#[trigger] ranges@[i]).time_fits(),
                forall|i: int| 0 <= i < k ==> start@ <= (#[trigger] ranges@[i]).start_ms(),
                exists|i: int| 0 <= i < k && start@ == (#[trigger] ranges@[i]).start_ms(),
                forall|i: int| 0 <= i < k ==> (#[trigger] ranges@[i]).end_ms() <= end@,
                exists|i: int| 0 <= i < k && end@ == (#[trigger] ranges@[i]).end_ms(),
            decreases n - k,
        {
            let s = ranges[k].start();
            if s < start {
                start = s;
                proof {
                    assert(0 <= k < ranges@.len() && start@ == ranges@[k as int].start_ms());
                }
            }
            let e = ranges[k].end();
            if e > end {
                end = e;
                proof {
                    assert(0 <= k < ranges@.len() && end@ == ranges@[k as int].end_ms());
                }
            }
            k = k + 1;
        }
        proof {
            let i = choose|i: int| 0 <= i < n && end@ == (#[trigger] ranges@[i]).end_ms();
            let j = choose|j: int| 0 <= j < n && start@ == (#[trigger] ranges@[j]).start_ms();
            assert(i128::MIN <= ranges@[i].end_ms() - ranges@[j].start_ms() <= i128::MAX);
        }
        let duration = end - start;
        TimeRange { start, duration }
    }
}

impl TimeRangeTrait for TimeRange {
    closed spec fn start_ms(&self) -> int {
        self.start@
    }

    closed spec fn duration_ms(&self) -> int {
        self.duration@
    }

    fn start(&self) -> (r: Time) {
        self.start
    }

    fn duration(&self) -> (r: Time) {
        self.duration
    }

    fn end(&self) -> (r: Time) {
        Time::new(self.start.to_millisecond() + self.duration.to_millisecond())
    }

    fn contains(&self, time: &Time) -> (r: bool) {
        let s: i128 = self.start.to_millisecond();
        let e: i128 = s + self.duration.to_millisecond();
        let t: i128 = time.to_millisecond();
        s <= t && t <= e
    }

    fn overlaps(&self, other: &TimeRange) -> (r: bool) {
        let s1: i128 = self.start.to_millisecond();
        let e1: i128 = s1 + self.duration.to_millisecond();
        let s2: i128 = other.start.to_millisecond();
        let e2: i128 = s2 + other.duration.to_millisecond();
        s1 <= e2 && e1 >= s2
    }
}

impl TimeRangeEditableTrait for TimeRange {
    fn set_start(&mut self, start: Time) {
        self.start = start;
    }

    fn set_duration(&mut self, duration: Time) {
        self.duration = duration;
    }

    fn set_end(&mut self, end: Time) {
        self.duration = Time::new(end.to_millisecond() - self.start.to_millisecond());
    }

    fn shift_time(&mut self, shift: Time) {
        self.start = Time::new(self.start.to_millisecond() + shift.to_millisecond());
    }
}

} // verus!
