//! Variable-length quantities: MIDI's big-endian base-128 integers.
//!
//! Every byte contributes its low seven bits; a set high bit announces that
//! another byte follows. The decoder keeps the low 32 bits of the value.

use vstd::prelude::*;
use crate::error::MidiError;

verus! {

/// One past the index of the first byte at or after `pos` whose high bit is
/// clear, or `None` when every byte from `pos` to the end has it set.
pub open spec fn vlq_end(data: Seq<u8>, pos: int) -> Option<int>
    decreases data.len() - pos,
{
    if pos < 0 || pos >= data.len() {
        None
    } else if data[pos] < 0x80 {
        Some(pos + 1)
    } else {
        vlq_end(data, pos + 1)
    }
}

/// The number whose base-128 digits, most significant first, are the low
/// seven bits of `data[from..to]`.
pub open spec fn vlq_digits(data: Seq<u8>, from: int, to: int) -> nat
    decreases to - from,
{
    if to <= from {
        0
    } else {
        vlq_digits(data, from, to - 1) * 128 + (data[to - 1] % 128) as nat
    }
}

/// The quantity encoded at `pos` together with the position just after it,
/// or `None` when the buffer ends before the quantity does.
pub open spec fn vlq_at(data: Seq<u8>, pos: int) -> Option<(u32, int)> {
    match vlq_end(data, pos) {
        Some(end) => Some(((vlq_digits(data, pos, end) % 0x1_0000_0000) as u32, end)),
        None => None,
    }
}

/// Where the read position rests after a failed read: at the end of the
/// buffer, or where it was if it already lay beyond it.
pub open spec fn vlq_stop(data: Seq<u8>, pos: int) -> int {
    if pos < data.len() {
        data.len() as int
    } else {
        pos
    }
}

/// A quantity that can be read ends inside the buffer, after its first byte.
pub proof fn lemma_vlq_end_bounds(data: Seq<u8>, pos: int)
    ensures
        vlq_end(data, pos) matches Some(end) ==> 0 <= pos < end <= data.len(),
    decreases data.len() - pos,
{
    if 0 <= pos < data.len() && data[pos] >= 0x80 {
        lemma_vlq_end_bounds(data, pos + 1);
    }
}

/// A quantity ends with the first byte whose high bit is clear: every byte
/// before it has the bit set.
pub proof fn lemma_vlq_ends_at_first_terminator(data: Seq<u8>, pos: int)
    ensures
        vlq_end(data, pos) matches Some(end) ==> {
            &&& data[end - 1] < 0x80
            &&& forall|i: int| pos <= i < end - 1 ==> data[i] >= 0x80
        },
    decreases data.len() - pos,
{
    if 0 <= pos < data.len() && data[pos] >= 0x80 {
        lemma_vlq_ends_at_first_terminator(data, pos + 1);
        lemma_vlq_end_bounds(data, pos + 1);
    }
}

/// A read fails exactly when the buffer ends before a terminating byte: no
/// byte from `pos` on has its high bit clear.
pub proof fn lemma_vlq_fails_without_terminator(data: Seq<u8>, pos: int)
    requires
        0 <= pos,
    ensures
        vlq_at(data, pos) is None <==> forall|i: int| pos <= i < data.len() ==> data[i] >= 0x80,
    decreases data.len() - pos,
{
    if pos < data.len() {
        if data[pos] >= 0x80 {
            lemma_vlq_fails_without_terminator(data, pos + 1);
            if vlq_end(data, pos + 1) is None {
                assert forall|i: int| pos <= i < data.len() implies data[i] >= 0x80 by {
                    if i > pos {
                        assert(pos + 1 <= i);
                    }
                }
            }
        }
    }
}

proof fn lemma_shift_in_digit(value: u32, byte: u8)
    ensures
        (value << 7) | ((byte & 0x7F) as u32) == (value * 128 + byte % 128) % 0x1_0000_0000,
        (byte & 0x80) == 0 <==> byte < 0x80,
{
    assert(((value << 7) | ((byte & 0x7F) as u32)) as int == (value as int * 128 + (byte % 128) as int)
        % 0x1_0000_0000) by (bit_vector);
    assert((byte & 0x80) == 0 <==> byte < 0x80) by (bit_vector);
}

/// Reads one variable-length quantity at `*pos` and advances `*pos` past it.
///
/// Fails with `UnexpectedEof` when the buffer ends before a byte with a clear
/// high bit is found; every byte up to the end has then been consumed.
pub fn read_vlq(data: &[u8], pos: &mut usize) -> (r: Result<u32, MidiError>)
    ensures
        match vlq_at(data@, *old(pos) as int) {
            Some((value, end)) => r == Ok::<u32, MidiError>(value) && *final(pos) == end,
            None => r == Err::<u32, MidiError>(MidiError::UnexpectedEof) && *final(pos) == vlq_stop(
                data@,
                *old(pos) as int,
            ),
        },
{
    let ghost start = *pos as int;
    let mut value: u32 = 0;
    loop
        invariant
            start == *old(pos),
            start <= *pos,
            *pos <= data@.len() || *pos == start,
            vlq_end(data@, start) == vlq_end(data@, *pos as int),
            value == vlq_digits(data@, start, *pos as int) % 0x1_0000_0000,
        decreases data@.len() - *pos,
    {
        if *pos >= data.len() {
            return Err(MidiError::UnexpectedEof);
        }
        let byte: u8 = data[*pos];
        proof {
            lemma_shift_in_digit(value, byte);
            let before = vlq_digits(data@, start, *pos as int);
            assert((before % 0x1_0000_0000 * 128 + byte % 128) % 0x1_0000_0000 == (before * 128
                + byte % 128) % 0x1_0000_0000) by (nonlinear_arith);
        }
        *pos += 1;
        value = (value << 7) | (byte & 0x7F) as u32;
        if (byte & 0x80) == 0 {
            assert(vlq_end(data@, *pos - 1) == Some(*pos as int));
            return Ok(value);
        }
        assert(vlq_end(data@, *pos - 1) == vlq_end(data@, *pos as int));
    }
}

} // verus!
