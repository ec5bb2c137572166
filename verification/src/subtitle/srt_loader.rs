//! The SRT subtitle format, line by line: which lines open a subtitle block,
//! which carry its time range, and how a reader steps through a block. The
//! reading itself is left to the caller; the decisions live here.

use vstd::prelude::*;

use crate::base::timecode_parts::is_digit_byte;
use crate::base::timecode_parts::timestamp_match;
use crate::base::timecode_parts::timestamp_match_at;

verus! {

use vstd::string::StringSliceAdditionalSpecFns;

/// Whether a line is a subtitle sequence number: one or more decimal digits
/// and nothing else.
pub open spec fn sequence_number_line(s: Seq<u8>) -> bool {
    s.len() >= 1 && forall|i: int| 0 <= i < s.len() ==> is_digit_byte(#[trigger] s[i])
}

/// Whether a line opens with a subtitle time range: a timestamp, an arrow
/// written ` --> `, and a second timestamp.
pub open spec fn time_range_line(s: Seq<u8>) -> bool {
    &&& s.len() >= 29
    &&& timestamp_match_at(s, 0)
    &&& s[12] == 32u8
    &&& s[13] == 45u8
    &&& s[14] == 45u8
    &&& s[15] == 62u8
    &&& s[16] == 32u8
    &&& timestamp_match_at(s, 17)
}

/// Where a reader stands inside a subtitle block: waiting for its sequence
/// number, for its time range, collecting its text, or done with the block.
#[derive(Debug, Clone, Copy, PartialEq, Eq, Structural)]
pub enum SrtParseState {
    SequenceNumber,
    TimeRange,
    Content,
    Done,
}

/// What one line does to the parse: the state afterwards, and whether the
/// line belongs to the subtitle's text.
pub open spec fn srt_step(state: SrtParseState, line: Seq<u8>) -> (SrtParseState, bool) {
    match state {
        SrtParseState::SequenceNumber => (
            if sequence_number_line(line) {
                SrtParseState::TimeRange
            } else {
                SrtParseState::SequenceNumber
            },
            false,
        ),
        SrtParseState::TimeRange => (
            if time_range_line(line) {
                SrtParseState::Content
            } else {
                SrtParseState::TimeRange
            },
            false,
        ),
        SrtParseState::Content => (
            if line.len() == 0 {
                SrtParseState::Done
            } else {
                SrtParseState::Content
            },
            line.len() != 0,
        ),
        SrtParseState::Done => (SrtParseState::Done, false),
    }
}

/// Whether a line is a subtitle sequence number.
pub fn is_sequence_number_line(line: &str) -> (r: bool)
    ensures
        r == sequence_number_line(line.spec_bytes()),
{
    let s: &[u8] = line.as_bytes();
    let n: usize = s.len();
    if n == 0 {
        return false;
    }
    let mut i: usize = 0;
    while i < n
        invariant
            s@ == line.spec_bytes(),
            n == s@.len(),
            0 <= i <= n,
            forall|k: int| 0 <= k < i ==> is_digit_byte(#[trigger] s@[k]),
        decreases n - i,
    {
        let b: u8 = s[i];
        if b < 48 || b > 57 {
            return false;
        }
        i = i + 1;
    }
    true
}

/// Whether a line opens with a subtitle time range.
pub fn is_time_range_line(line: &str) -> (r: bool)
    ensures
        r == time_range_line(line.spec_bytes()),
{
    let s: &[u8] = line.as_bytes();
    if s.len() < 29 {
        return false;
    }
    timestamp_match(s, 0) && s[12] == 32 && s[13] == 45 && s[14] == 45 && s[15] == 62 && s[16]
        == 32 && timestamp_match(s, 17)
}

/// Step the parse over one line: the state afterwards, and whether the line
/// belongs to the subtitle's text.
pub fn srt_line_step(state: SrtParseState, line: &str) -> (r: (SrtParseState, bool))
    ensures
        r == srt_step(state, line.spec_bytes()),
{
    match state {
        SrtParseState::SequenceNumber => {
            if is_sequence_number_line(line) {
                (SrtParseState::TimeRange, false)
            } else {
                (SrtParseState::SequenceNumber, false)
            }
        },
        SrtParseState::TimeRange => {
            if is_time_range_line(line) {
                (SrtParseState::Content, false)
            } else {
                (SrtParseState::TimeRange, false)
            }
        },
        SrtParseState::Content => {
            let empty: bool = line.as_bytes().len() == 0;
            if empty {
                (SrtParseState::Done, false)
            } else {
                (SrtParseState::Content, true)
            }
        },
        SrtParseState::Done => (SrtParseState::Done, false),
    }
}

} // verus!
