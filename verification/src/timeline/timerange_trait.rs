//! The time-range interface: anything with a start and a duration, and the
//! derived end, containment and overlap tests.

use vstd::prelude::*;

use crate::base::time::Time;

verus! {

/// Whether a range from `start` to `end` holds the point `t`; both ends are
/// inclusive.
pub open spec fn range_contains_ms(start: int, end: int, t: int) -> bool {
    start <= t <= end
}

/// Whether two ranges overlap; the test is inclusive, so ranges that only
/// touch at a boundary point count as overlapping.
pub open spec fn ranges_overlap_ms(start1: int, end1: int, start2: int, end2: int) -> bool {
    start1 <= end2 && end1 >= start2
}

/// Objects that cover a range of time, stored as a start and a duration; the
/// end is derived from the two.
pub trait TimeRangeTrait: Sized {
    /// The start of the range, in milliseconds.
    spec fn start_ms(&self) -> int;

    /// The duration of the range, in milliseconds.
    spec fn duration_ms(&self) -> int;

    /// The end of the range, in milliseconds: start plus duration.
    open spec fn end_ms(&self) -> int {
        self.start_ms() + self.duration_ms()
    }

    /// Whether start plus duration stays within the millisecond domain.
    open spec fn time_fits(&self) -> bool {
        i128::MIN <= self.start_ms() + self.duration_ms() <= i128::MAX
    }

    /// The start of the range.
    fn start(&self) -> (r: Time)
        ensures
            r@ == self.start_ms(),
    ;

    /// The duration of the range.
    fn duration(&self) -> (r: Time)
        ensures
            r@ == self.duration_ms(),
    ;

    /// The end of the range: start plus duration.
    fn end(&self) -> (r: Time)
        requires
            self.time_fits(),
        ensures
            r@ == self.end_ms(),
    ;

    /// Whether the range holds the given point; both ends count as inside.
    fn contains(&self, time: &Time) -> (r: bool)
        requires
            self.time_fits(),
        ensures
            r == range_contains_ms(self.start_ms(), self.end_ms(), time@),
    ;

    /// Whether the range overlaps another; ranges that only touch at a
    /// boundary point count as overlapping.
    fn overlaps(&self, other: &Self) -> (r: bool)
        requires
            self.time_fits(),
            other.time_fits(),
        ensures
            r == ranges_overlap_ms(
                self.start_ms(),
                self.end_ms(),
                other.start_ms(),
                other.end_ms(),
            ),
    ;
}

/// Time-range objects whose start and duration can be edited.
pub trait TimeRangeEditableTrait: TimeRangeTrait {
    /// Move the start of the range; the duration stays as it is.
    fn set_start(&mut self, start: Time)
        ensures
            final(self).start_ms() == start@,
            final(self).duration_ms() == old(self).duration_ms(),
    ;

    /// Change the duration of the range; the start stays as it is.
    fn set_duration(&mut self, duration: Time)
        ensures
            final(self).duration_ms() == duration@,
            final(self).start_ms() == old(self).start_ms(),
    ;

    /// Move the end of the range by recomputing the duration; the start
    /// stays as it is.
    fn set_end(&mut self, end: Time)
        requires
            i128::MIN <= end@ - old(self).start_ms() <= i128::MAX,
        ensures
            final(self).start_ms() == old(self).start_ms(),
            final(self).duration_ms() == end@ - old(self).start_ms(),
    ;

    /// Shift the whole range: the start moves by `shift` and the duration
    /// stays as it is.
    fn shift_time(&mut self, shift: Time)
        requires
            i128::MIN <= old(self).start_ms() + shift@ <= i128::MAX,
        ensures
            final(self).start_ms() == old(self).start_ms() + shift@,
            final(self).duration_ms() == old(self).duration_ms(),
    ;
}

} // verus!
