//! Skipping the exponent of a JSON number.

use vstd::prelude::*;
use crate::reader::Read;

verus! {

/// The byte of `'0'`.
pub const DIGIT_ZERO: u8 = 0x30;
/// The byte of `'9'`.
pub const DIGIT_NINE: u8 = 0x39;
/// The byte of `'e'`.
pub const EXP_LOWER: u8 = 0x65;
/// The byte of `'E'`.
pub const EXP_UPPER: u8 = 0x45;

/// An ASCII decimal digit.
pub open spec fn is_digit(ch: u8) -> bool {
    DIGIT_ZERO <= ch <= DIGIT_NINE
}

/// The exponent marker `e` or `E`.
pub open spec fn is_exp_marker(ch: u8) -> bool {
    ch == EXP_LOWER || ch == EXP_UPPER
}

/// Where an exponent that starts at `pos` has its first digit: past the marker when there is one.
pub open spec fn exponent_digits_start(data: Seq<u8>, pos: nat) -> nat {
    if pos < data.len() && is_exp_marker(data[pos as int]) {
        pos + 1
    } else {
        pos
    }
}

/// `end` closes the run of digits of `data` that starts at `from`:
/// every byte in `from..end` is a digit, and `end` is the end of input or a non-digit.
pub open spec fn ends_digit_run(data: Seq<u8>, from: int, end: int) -> bool {
    &&& from <= end <= data.len()
    &&& forall|k: int| from <= k < end ==> #[trigger] is_digit(data[k])
    &&& end < data.len() ==> !is_digit(data[end])
}

/// The digits are exactly the bytes `'0'` (0x30) through `'9'` (0x39).
pub proof fn lemma_digit_bytes(ch: u8)
    ensures
        is_digit(ch) <==> 0x30u8 <= ch && ch <= 0x39u8,
{
}

/// The exponent marker is exactly `'e'` (0x65) or `'E'` (0x45): an exponent's
/// digits start one byte later when the cursor is on one of them, and at the
/// cursor otherwise (a digit, any other byte, or the end of input).
pub proof fn lemma_exponent_marker_bytes(data: Seq<u8>, pos: nat)
    ensures
        exponent_digits_start(data, pos) == if pos < data.len() && (data[pos as int] == 0x65u8
            || data[pos as int] == 0x45u8) {
            pos + 1
        } else {
            pos
        },
{
}

/// A run of digits is a run of the bytes `'0'..='9'`.
proof fn lemma_digit_run_bytes(data: Seq<u8>, from: int, end: int)
    ensures
        ends_digit_run(data, from, end) <==> {
            &&& from <= end <= data.len()
            &&& forall|k: int| from <= k < end ==> 0x30u8 <= #[trigger] data[k] <= 0x39u8
            &&& end < data.len() ==> !(0x30u8 <= data[end] <= 0x39u8)
        },
{
    if ends_digit_run(data, from, end) {
        assert forall|k: int| from <= k < end implies 0x30u8 <= #[trigger] data[k] <= 0x39u8 by {
            assert(is_digit(data[k]));
        }
    }
    if from <= end <= data.len() && (forall|k: int| from <= k < end ==> 0x30u8 <= #[trigger] data[k] <= 0x39u8) {
        assert forall|k: int| from <= k < end implies #[trigger] is_digit(data[k]) by {
            assert(0x30u8 <= data[k] <= 0x39u8);
        }
    }
}

/// An exponent with no marker: when the byte at the cursor is a digit,
/// `skip_exponent`'s precondition holds, and the cursor positions its
/// postcondition allows are exactly the end of the run of digits `'0'..='9'`
/// that starts at the cursor.
pub proof fn lemma_exponent_starting_with_digit(data: Seq<u8>, pos: nat, end: int)
    requires
        pos < data.len(),
        0x30u8 <= data[pos as int] <= 0x39u8,
    ensures
        exponent_digits_start(data, pos) == pos,
        exponent_digits_start(data, pos) < data.len(),
        is_digit(data[exponent_digits_start(data, pos) as int]),
        ends_digit_run(data, pos as int, end) <==> {
            &&& pos <= end <= data.len()
            &&& forall|k: int| pos <= k < end ==> 0x30u8 <= #[trigger] data[k] <= 0x39u8
            &&& end < data.len() ==> !(0x30u8 <= data[end] <= 0x39u8)
        },
{
    lemma_digit_run_bytes(data, pos as int, end);
}

/// An exponent with a marker: when the byte at the cursor is `'e'` or `'E'` and
/// a digit follows, `skip_exponent`'s precondition holds, and the cursor
/// positions its postcondition allows are exactly the end of the run of digits
/// that starts just after the marker.
pub proof fn lemma_exponent_starting_with_marker(data: Seq<u8>, pos: nat, end: int)
    requires
        pos + 1 < data.len(),
        data[pos as int] == 0x65u8 || data[pos as int] == 0x45u8,
        0x30u8 <= data[pos + 1 as int] <= 0x39u8,
    ensures
        exponent_digits_start(data, pos) == pos + 1,
        is_digit(data[exponent_digits_start(data, pos) as int]),
        ends_digit_run(data, pos + 1 as int, end) <==> {
            &&& pos + 1 <= end <= data.len()
            &&& forall|k: int| pos + 1 <= k < end ==> 0x30u8 <= #[trigger] data[k] <= 0x39u8
            &&& end < data.len() ==> !(0x30u8 <= data[end] <= 0x39u8)
        },
{
    lemma_digit_run_bytes(data, pos + 1 as int, end);
}

/// The failures of number scanning.
#[derive(Debug, PartialEq, Eq)]
pub enum Error {
    /// The input ended where a digit was expected.
    EofWhileParsing,
    /// A byte other than a digit stood where a digit was expected.
    InvalidNumber,
}

/// Whether `ch` is an ASCII decimal digit.
pub fn is_ascii_digit(ch: u8) -> (b: bool)
    ensures
        b == is_digit(ch),
{
    DIGIT_ZERO <= ch && ch <= DIGIT_NINE
}

/// Reads the one digit that must come next.
pub fn skip_single_digit(reader: &mut Read) -> (r: Result<u8, Error>)
    requires
        old(reader).pos() < old(reader).data().len(),
        is_digit(old(reader).data()[old(reader).pos() as int]),
    ensures
        final(reader).data() == old(reader).data(),
        final(reader).pos() == old(reader).pos() + 1,
        r == Ok::<u8, Error>(old(reader).data()[old(reader).pos() as int]),
{
    match reader.next() {
        Some(ch) => {
            if !is_ascii_digit(ch) {
                Err(Error::InvalidNumber)
            } else {
                Ok(ch)
            }
        },
        None => Err(Error::EofWhileParsing),
    }
}

/// Skips an exponent: an optional `e` or `E`, one required digit, then every further digit.
pub fn skip_exponent(reader: &mut Read) -> (r: Result<(), Error>)
    requires
        exponent_digits_start(old(reader).data(), old(reader).pos()) < old(reader).data().len(),
        is_digit(old(reader).data()[exponent_digits_start(old(reader).data(), old(reader).pos()) as int]),
    ensures
        final(reader).data() == old(reader).data(),
        ends_digit_run(
            old(reader).data(),
            exponent_digits_start(old(reader).data(), old(reader).pos()) as int,
            final(reader).pos() as int,
        ),
        final(reader).pos() > exponent_digits_start(old(reader).data(), old(reader).pos()),
        r == Ok::<(), Error>(()),
{
    let ghost data = reader.data();
    let ghost first = exponent_digits_start(data, reader.pos());
    let is_marker = |ch: u8| -> (b: bool)
        ensures
            b == is_exp_marker(ch),
        { ch == EXP_LOWER || ch == EXP_UPPER };
    reader.eat_if(is_marker);
    assert(reader.pos() == first);
    skip_single_digit(reader)?;
    let is_digit_byte = |ch: u8| -> (b: bool)
        ensures
            b == is_digit(ch),
        { is_ascii_digit(ch) };
    while reader.eat_if(is_digit_byte)
        invariant
            reader.data() == data,
            first < reader.pos() <= data.len(),
            forall|k: int| first <= k < reader.pos() ==> #[trigger] is_digit(data[k]),
            forall|c: u8| is_digit_byte.requires((c,)),
            forall|c: u8, b: bool| is_digit_byte.ensures((c,), b) ==> b == is_digit(c),
        decreases data.len() - reader.pos(),
    {
    }
    Ok(())
}

} // verus!
