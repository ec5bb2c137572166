//! The timebase: a frame rate plus a drop-frame flag, used to interpret the
//! frame field of timecode text.

use vstd::prelude::*;

verus! {

/// Division of nonnegative `n` by positive `d`, rounded to the nearest whole
/// number; halves round up.
pub open spec fn rounded_div(n: int, d: int) -> int
    recommends
        0 <= n,
        0 < d,
{
    (2 * n + d) / (2 * d)
}

/// A frame rate and a drop-frame flag.
///
/// The frame rate is a small whole number of frames per second; rates such as
/// 23.976 are handled as their whole-number approximation with the drop-frame
/// flag set. Rates below one frame per second are not supported.
#[derive(Debug, Clone, Copy, PartialEq, Eq, Structural, Hash)]
pub struct Timebase {
    pub fps: u8,
    pub drop_frame: bool,
}

impl Timebase {
    /// Build a timebase with the given frame rate, without drop-frame.
    pub fn new(fps: u8) -> (t: Timebase)
        ensures
            t == (Timebase { fps, drop_frame: false }),
    {
        Timebase { fps, drop_frame: false }
    }

    /// The milliseconds covered by a count of frames at this frame rate,
    /// rounded to the nearest millisecond.
    pub fn milliseconds_from_frames(&self, frames: u64) -> (ms: i128)
        requires
            self.fps >= 1,
        ensures
            ms as int == rounded_div(frames as int * 1000, self.fps as int),
    {
        let n: i128 = frames as i128 * 1000;
        let d: i128 = self.fps as i128;
        (2 * n + d) / (2 * d)
    }

    /// The frame count nearest to a count of milliseconds at this frame rate.
    pub fn frames_from_milliseconds(&self, ms: i128) -> (frames: u64)
        requires
            self.fps >= 1,
            0 <= ms,
            2 * (ms * (self.fps as int)) + 1000 <= i128::MAX,
            rounded_div(ms * (self.fps as int), 1000) <= u64::MAX,
        ensures
            frames as int == rounded_div(ms * (self.fps as int), 1000),
    {
        proof {
            assert(0 <= ms * (self.fps as int)) by (nonlinear_arith)
                requires
                    0 <= ms,
                    0 <= self.fps as int,
            ;
        }
        let n: i128 = ms * (self.fps as i128);
        let r: i128 = (2 * n + 1000) / 2000;
        r as u64
    }
}

impl Default for Timebase {
    /// The common default: 24 frames per second, no drop-frame.
    fn default() -> (t: Timebase)
        ensures
            t == (Timebase { fps: 24u8, drop_frame: false }),
    {
        Timebase { fps: 24, drop_frame: false }
    }
}

} // verus!
