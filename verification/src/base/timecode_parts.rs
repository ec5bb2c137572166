//! Timecode text: the parts of a `hh:mm:ss:ff` timecode (or `hh:mm:ss;ff`
//! when drop-frame) and of a `hh:mm:ss.mmm` timestamp, parsed from and
//! written back to text.

use vstd::prelude::*;

verus! {

use vstd::string::StringSliceAdditionalSpecFns;

/// The error returned when timecode or timestamp text is malformed.
#[derive(Debug, Clone, Copy, PartialEq, Eq, Structural)]
pub struct TimecodeFormatError;

impl TimecodeFormatError {
    /// A short description of the error.
    pub fn message(&self) -> (r: &'static str)
        ensures
            r@ == "Invalid Timecode Format"@,
    {
        "Invalid Timecode Format"
    }
}

/// The parts of a timecode: hours, minutes, seconds, a frame (or millisecond)
/// field, and whether the timecode is drop-frame.
#[derive(Debug, Clone, Copy, PartialEq, Eq, Structural)]
pub struct TimecodeParts {
    pub hh: u8,
    pub mm: u8,
    pub ss: u8,
    pub ff: u32,
    pub drop_frame: bool,
}

/// Whether a byte is an ASCII decimal digit.
pub open spec fn is_digit_byte(b: u8) -> bool {
    48 <= b <= 57
}

/// The value of the two-digit number written at position `i`.
pub open spec fn two_digit_value(s: Seq<u8>, i: int) -> int
    recommends
        0 <= i,
        i + 2 <= s.len(),
{
    (s[i] as int - 48) * 10 + (s[i + 1] as int - 48)
}

/// The value of the three-digit number written at position `i`.
pub open spec fn three_digit_value(s: Seq<u8>, i: int) -> int
    recommends
        0 <= i,
        i + 3 <= s.len(),
{
    two_digit_value(s, i) * 10 + (s[i + 2] as int - 48)
}

/// Whether the eleven bytes at position `i` spell a timecode:
/// two digits, `:`, two digits, `:`, two digits, `:` or `;`, two digits.
pub open spec fn timecode_match_at(s: Seq<u8>, i: int) -> bool {
    &&& 0 <= i
    &&& i + 11 <= s.len()
    &&& is_digit_byte(s[i])
    &&& is_digit_byte(s[i + 1])
    &&& s[i + 2] == 58u8
    &&& is_digit_byte(s[i + 3])
    &&& is_digit_byte(s[i + 4])
    &&& s[i + 5] == 58u8
    &&& is_digit_byte(s[i + 6])
    &&& is_digit_byte(s[i + 7])
    &&& (s[i + 8] == 58u8 || s[i + 8] == 59u8)
    &&& is_digit_byte(s[i + 9])
    &&& is_digit_byte(s[i + 10])
}

/// The parts spelled by a timecode match at position `i`.
pub open spec fn timecode_parts_at(s: Seq<u8>, i: int) -> TimecodeParts
    recommends
        timecode_match_at(s, i),
{
    TimecodeParts {
        hh: two_digit_value(s, i) as u8,
        mm: two_digit_value(s, i + 3) as u8,
        ss: two_digit_value(s, i + 6) as u8,
        ff: two_digit_value(s, i + 9) as u32,
        drop_frame: s[i + 8] == 59u8,
    }
}

/// The position of the first timecode match at or after `i`, if any.
pub open spec fn timecode_find(s: Seq<u8>, i: int) -> Option<int>
    recommends
        0 <= i,
    decreases s.len() - i,
{
    if i < 0 || i + 11 > s.len() {
        None
    } else if timecode_match_at(s, i) {
        Some(i)
    } else {
        timecode_find(s, i + 1)
    }
}

/// Whether the twelve bytes at position `i` spell a timestamp:
/// two digits, `:`, two digits, `:`, two digits, one of `. , : ;`,
/// three digits.
pub open spec fn timestamp_match_at(s: Seq<u8>, i: int) -> bool {
    &&& 0 <= i
    &&& i + 12 <= s.len()
    &&& is_digit_byte(s[i])
    &&& is_digit_byte(s[i + 1])
    &&& s[i + 2] == 58u8
    &&& is_digit_byte(s[i + 3])
    &&& is_digit_byte(s[i + 4])
    &&& s[i + 5] == 58u8
    &&& is_digit_byte(s[i + 6])
    &&& is_digit_byte(s[i + 7])
    &&& (s[i + 8] == 46u8 || s[i + 8] == 44u8 || s[i + 8] == 58u8 || s[i + 8] == 59u8)
    &&& is_digit_byte(s[i + 9])
    &&& is_digit_byte(s[i + 10])
    &&& is_digit_byte(s[i + 11])
}

/// The parts spelled by a timestamp match at position `i`; the frame field
/// holds the three-digit millisecond count, and drop-frame is never set.
pub open spec fn timestamp_parts_at(s: Seq<u8>, i: int) -> TimecodeParts
    recommends
        timestamp_match_at(s, i),
{
    TimecodeParts {
        hh: two_digit_value(s, i) as u8,
        mm: two_digit_value(s, i + 3) as u8,
        ss: two_digit_value(s, i + 6) as u8,
        ff: three_digit_value(s, i + 9) as u32,
        drop_frame: false,
    }
}

/// The position of the first timestamp match at or after `i`, if any.
pub open spec fn timestamp_find(s: Seq<u8>, i: int) -> Option<int>
    recommends
        0 <= i,
    decreases s.len() - i,
{
    if i < 0 || i + 12 > s.len() {
        None
    } else if timestamp_match_at(s, i) {
        Some(i)
    } else {
        timestamp_find(s, i + 1)
    }
}

/// Whether an exec byte is an ASCII decimal digit.
fn is_digit(b: u8) -> (r: bool)
    ensures
        r == is_digit_byte(b),
{
    48 <= b && b <= 57
}

/// The value of the two digits at position `i`.
fn two_digit(s: &[u8], i: usize) -> (v: u8)
    requires
        i + 2 <= s@.len(),
        is_digit_byte(s@[i as int]),
        is_digit_byte(s@[i as int + 1]),
    ensures
        v as int == two_digit_value(s@, i as int),
        v < 100,
{
    (s[i] - 48) * 10 + (s[i + 1] - 48)
}

/// Whether a timecode match starts at position `i`.
fn timecode_match(s: &[u8], i: usize) -> (r: bool)
    requires
        i + 11 <= s@.len(),
    ensures
        r == timecode_match_at(s@, i as int),
{
    is_digit(s[i]) && is_digit(s[i + 1]) && s[i + 2] == 58 && is_digit(s[i + 3]) && is_digit(
        s[i + 4],
    ) && s[i + 5] == 58 && is_digit(s[i + 6]) && is_digit(s[i + 7]) && (s[i + 8] == 58 || s[i + 8]
        == 59) && is_digit(s[i + 9]) && is_digit(s[i + 10])
}

/// Whether a timestamp match starts at position `i`.
pub(crate) fn timestamp_match(s: &[u8], i: usize) -> (r: bool)
    requires
        i + 12 <= s@.len(),
    ensures
        r == timestamp_match_at(s@, i as int),
{
    is_digit(s[i]) && is_digit(s[i + 1]) && s[i + 2] == 58 && is_digit(s[i + 3]) && is_digit(
        s[i + 4],
    ) && s[i + 5] == 58 && is_digit(s[i + 6]) && is_digit(s[i + 7]) && (s[i + 8] == 46 || s[i + 8]
        == 44 || s[i + 8] == 58 || s[i + 8] == 59) && is_digit(s[i + 9]) && is_digit(s[i + 10])
        && is_digit(s[i + 11])
}

impl TimecodeParts {
    /// Parse timecode parts from text: the first `hh:mm:ss:ff` (or
    /// `hh:mm:ss;ff`, which sets drop-frame) written anywhere in the text,
    /// or an error when no such run of bytes occurs.
    pub fn from_timecode(tc: &str) -> (r: Result<TimecodeParts, TimecodeFormatError>)
        ensures
            match r {
                Ok(p) => {
                    &&& timecode_find(tc.spec_bytes(), 0) is Some
                    &&& p == timecode_parts_at(
                        tc.spec_bytes(),
                        timecode_find(tc.spec_bytes(), 0)->Some_0,
                    )
                },
                Err(_) => timecode_find(tc.spec_bytes(), 0) is None,
            },
    {
        let s: &[u8] = tc.as_bytes();
        let n: usize = s.len();
        if n < 11 {
            return Err(TimecodeFormatError);
        }
        let mut i: usize = 0;
        while i <= n - 11
            invariant
                s@ == tc.spec_bytes(),
                n == s@.len(),
                11 <= n,
                0 <= i <= n,
                timecode_find(s@, 0) == timecode_find(s@, i as int),
            decreases n - i,
        {
            if timecode_match(s, i) {
                let hh: u8 = two_digit(s, i);
                let mm: u8 = two_digit(s, i + 3);
                let ss: u8 = two_digit(s, i + 6);
                let ff: u8 = two_digit(s, i + 9);
                let drop_frame: bool = s[i + 8] == 59;
                return Ok(
                    TimecodeParts { hh, mm, ss, ff: ff as u32, drop_frame },
                );
            }
            i = i + 1;
        }
        Err(TimecodeFormatError)
    }

    /// Parse timestamp parts from text: the first `hh:mm:ss.mmm` (any one of
    /// `. , : ;` may stand before the milliseconds) written anywhere in the
    /// text, or an error when no such run of bytes occurs. The millisecond
    /// count lands in the frame field, and drop-frame is never set.
    pub fn from_timestamp(tc: &str) -> (r: Result<TimecodeParts, TimecodeFormatError>)
        ensures
            match r {
                Ok(p) => {
                    &&& timestamp_find(tc.spec_bytes(), 0) is Some
                    &&& p == timestamp_parts_at(
                        tc.spec_bytes(),
                        timestamp_find(tc.spec_bytes(), 0)->Some_0,
                    )
                },
                Err(_) => timestamp_find(tc.spec_bytes(), 0) is None,
            },
    {
        let s: &[u8] = tc.as_bytes();
        let n: usize = s.len();
        if n < 12 {
            return Err(TimecodeFormatError);
        }
        let mut i: usize = 0;
        while i <= n - 12
            invariant
                s@ == tc.spec_bytes(),
                n == s@.len(),
                12 <= n,
                0 <= i <= n,
                timestamp_find(s@, 0) == timestamp_find(s@, i as int),
            decreases n - i,
        {
            if timestamp_match(s, i) {
                let hh: u8 = two_digit(s, i);
                let mm: u8 = two_digit(s, i + 3);
                let ss: u8 = two_digit(s, i + 6);
                let ff_high: u8 = two_digit(s, i + 9);
                let ff: u32 = (ff_high as u32) * 10 + ((s[i + 11] - 48) as u32);
                let parts = TimecodeParts { hh, mm, ss, ff, drop_frame: false };
                return Ok(parts);
            }
            i = i + 1;
        }
        Err(TimecodeFormatError)
    }
}

/// A found timecode position is a match, at or after where the search began.
pub proof fn lemma_timecode_find_is_match(s: Seq<u8>, i: int)
    requires
        0 <= i,
        timecode_find(s, i) is Some,
    ensures
        timecode_match_at(s, timecode_find(s, i)->Some_0),
        i <= timecode_find(s, i)->Some_0,
    decreases s.len() - i,
{
    if i + 11 <= s.len() && !timecode_match_at(s, i) {
        lemma_timecode_find_is_match(s, i + 1);
    }
}

/// A found timestamp position is a match, at or after where the search began.
pub proof fn lemma_timestamp_find_is_match(s: Seq<u8>, i: int)
    requires
        0 <= i,
        timestamp_find(s, i) is Some,
    ensures
        timestamp_match_at(s, timestamp_find(s, i)->Some_0),
        i <= timestamp_find(s, i)->Some_0,
    decreases s.len() - i,
{
    if i + 12 <= s.len() && !timestamp_match_at(s, i) {
        lemma_timestamp_find_is_match(s, i + 1);
    }
}

/// The byte of an ASCII decimal digit.
pub open spec fn digit_byte(d: int) -> u8
    recommends
        0 <= d <= 9,
{
    (48 + d) as u8
}

/// The decimal spelling of a nonnegative number, as ASCII bytes.
pub open spec fn decimal_bytes(n: int) -> Seq<u8>
    recommends
        0 <= n,
    decreases n,
{
    if n < 10 {
        seq![digit_byte(n)]
    } else {
        decimal_bytes(n / 10) + seq![digit_byte(n % 10)]
    }
}

/// The decimal spelling of a nonnegative number, zero-padded to at least two
/// places.
pub open spec fn padded2_bytes(n: int) -> Seq<u8>
    recommends
        0 <= n,
{
    if n < 10 {
        seq![48u8] + decimal_bytes(n)
    } else {
        decimal_bytes(n)
    }
}

/// The decimal spelling of a nonnegative number, zero-padded to at least
/// three places.
pub open spec fn padded3_bytes(n: int) -> Seq<u8>
    recommends
        0 <= n,
{
    if n < 100 {
        seq![48u8] + padded2_bytes(n)
    } else {
        decimal_bytes(n)
    }
}

/// The text of a timecode, as ASCII bytes: `hh:mm:ss:ff`, with `;` before
/// the frame field when drop-frame; every field zero-padded to at least two
/// places.
pub open spec fn timecode_bytes(p: TimecodeParts) -> Seq<u8> {
    padded2_bytes(p.hh as int) + seq![58u8] + padded2_bytes(p.mm as int) + seq![58u8]
        + padded2_bytes(p.ss as int) + seq![if p.drop_frame { 59u8 } else { 58u8 }]
        + padded2_bytes(p.ff as int)
}

/// The text of a timestamp, as ASCII bytes: `hh:mm:ss.mmm`, the first three
/// fields zero-padded to at least two places and the last to at least three.
pub open spec fn timestamp_bytes(p: TimecodeParts) -> Seq<u8> {
    padded2_bytes(p.hh as int) + seq![58u8] + padded2_bytes(p.mm as int) + seq![58u8]
        + padded2_bytes(p.ss as int) + seq![46u8] + padded3_bytes(p.ff as int)
}

/// The characters a sequence of ASCII bytes spells.
pub open spec fn chars_of_bytes(s: Seq<u8>) -> Seq<char> {
    s.map_values(|b: u8| b as char)
}

/// Every byte of the decimal spelling is an ASCII digit.
proof fn lemma_decimal_bytes_ascii(n: int)
    requires
        0 <= n,
    ensures
        forall|i: int|
            0 <= i < decimal_bytes(n).len() ==> is_digit_byte(#[trigger] decimal_bytes(n)[i]),
    decreases n,
{
    if n >= 10 {
        lemma_decimal_bytes_ascii(n / 10);
        let pre = decimal_bytes(n / 10);
        let whole = decimal_bytes(n);
        assert(whole == pre + seq![digit_byte(n % 10)]);
        assert forall|i: int| 0 <= i < whole.len() implies is_digit_byte(whole[i]) by {
            if i < pre.len() {
                assert(whole[i] == pre[i]);
            } else {
                assert(whole[i] == digit_byte(n % 10));
            }
        }
    }
}

/// Append the decimal spelling of `n` to a byte vector.
fn push_decimal(v: &mut Vec<u8>, n: u32)
    ensures
        final(v)@ == old(v)@ + decimal_bytes(n as int),
    decreases n,
{
    if n >= 10 {
        push_decimal(v, n / 10);
    }
    v.push(48 + (n % 10) as u8);
    proof {
        assert(final(v)@ =~= old(v)@ + decimal_bytes(n as int));
    }
}

/// Append the decimal spelling of `n`, zero-padded to at least two places.
fn push_padded2(v: &mut Vec<u8>, n: u32)
    ensures
        final(v)@ == old(v)@ + padded2_bytes(n as int),
{
    if n < 10 {
        v.push(48);
    }
    push_decimal(v, n);
    proof {
        assert(final(v)@ =~= old(v)@ + padded2_bytes(n as int));
    }
}

/// Append the decimal spelling of `n`, zero-padded to at least three places.
fn push_padded3(v: &mut Vec<u8>, n: u32)
    ensures
        final(v)@ == old(v)@ + padded3_bytes(n as int),
{
    if n < 100 {
        v.push(48);
    }
    push_padded2(v, n);
    proof {
        assert(final(v)@ =~= old(v)@ + padded3_bytes(n as int));
    }
}

/// Relies on `String::from_utf8`: bytes below 128 are valid UTF-8 and decode
/// to one character each, with the same code point, so the call cannot fail.
#[verifier::external_body]
fn ascii_to_string(bytes: Vec<u8>) -> (r: String)
    requires
        forall|i: int| 0 <= i < bytes@.len() ==> bytes@[i] < 128,
    ensures
        r@ == chars_of_bytes(bytes@),
{
    String::from_utf8(bytes).unwrap()
}

impl TimecodeParts {
    /// Write the parts as timecode text: `hh:mm:ss:ff`, with `;` before the
    /// frame field when drop-frame.
    pub fn to_timecode(&self) -> (r: String)
        ensures
            r@ == chars_of_bytes(timecode_bytes(*self)),
    {
        let mut v: Vec<u8> = Vec::new();
        push_padded2(&mut v, self.hh as u32);
        v.push(58);
        push_padded2(&mut v, self.mm as u32);
        v.push(58);
        push_padded2(&mut v, self.ss as u32);
        if self.drop_frame {
            v.push(59);
        } else {
            v.push(58);
        }
        push_padded2(&mut v, self.ff);
        proof {
            assert(v@ =~= timecode_bytes(*self));
            lemma_timecode_bytes_ascii(*self);
        }
        ascii_to_string(v)
    }

    /// Write the parts as timestamp text: `hh:mm:ss.mmm`, reading the frame
    /// field as milliseconds.
    pub fn to_timestamp(&self) -> (r: String)
        ensures
            r@ == chars_of_bytes(timestamp_bytes(*self)),
    {
        let mut v: Vec<u8> = Vec::new();
        push_padded2(&mut v, self.hh as u32);
        v.push(58);
        push_padded2(&mut v, self.mm as u32);
        v.push(58);
        push_padded2(&mut v, self.ss as u32);
        v.push(46);
        push_padded3(&mut v, self.ff);
        proof {
            assert(v@ =~= timestamp_bytes(*self));
            lemma_timestamp_bytes_ascii(*self);
        }
        ascii_to_string(v)
    }
}

/// Every byte of timecode text is ASCII.
proof fn lemma_timecode_bytes_ascii(p: TimecodeParts)
    ensures
        forall|i: int|
            0 <= i < timecode_bytes(p).len() ==> #[trigger] timecode_bytes(p)[i] < 128,
{
    lemma_decimal_bytes_ascii(p.hh as int);
    lemma_decimal_bytes_ascii(p.mm as int);
    lemma_decimal_bytes_ascii(p.ss as int);
    lemma_decimal_bytes_ascii(p.ff as int);
}

/// Every byte of timestamp text is ASCII.
proof fn lemma_timestamp_bytes_ascii(p: TimecodeParts)
    ensures
        forall|i: int|
            0 <= i < timestamp_bytes(p).len() ==> #[trigger] timestamp_bytes(p)[i] < 128,
{
    lemma_decimal_bytes_ascii(p.hh as int);
    lemma_decimal_bytes_ascii(p.mm as int);
    lemma_decimal_bytes_ascii(p.ss as int);
    lemma_decimal_bytes_ascii(p.ff as int);
}

} // verus!
