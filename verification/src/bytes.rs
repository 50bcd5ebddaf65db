//! Fixed-width big-endian integers and four-byte chunk tags.

use vstd::prelude::*;

verus! {

/// The 16-bit big-endian integer stored in `data[pos..pos + 2]`.
pub open spec fn be_u16_at(data: Seq<u8>, pos: int) -> int {
    data[pos] * 0x100 + data[pos + 1]
}

/// The 32-bit big-endian integer stored in `data[pos..pos + 4]`.
pub open spec fn be_u32_at(data: Seq<u8>, pos: int) -> int {
    data[pos] * 0x100_0000 + data[pos + 1] * 0x1_0000 + data[pos + 2] * 0x100 + data[pos + 3]
}

/// Whether the four bytes at `pos` exist and spell `tag`.
pub open spec fn has_tag(data: Seq<u8>, pos: int, tag: [u8; 4]) -> bool {
    &&& 0 <= pos
    &&& pos + 4 <= data.len()
    &&& data[pos] == tag[0]
    &&& data[pos + 1] == tag[1]
    &&& data[pos + 2] == tag[2]
    &&& data[pos + 3] == tag[3]
}

/// Reads a big-endian `u16` at `*pos` and advances `*pos` by two.
pub fn read_be_u16(data: &[u8], pos: &mut usize) -> (value: u16)
    requires
        *old(pos) + 2 <= data@.len(),
    ensures
        value == be_u16_at(data@, *old(pos) as int),
        *final(pos) == *old(pos) + 2,
{
    let hi: u16 = data[*pos] as u16;
    let lo: u16 = data[*pos + 1] as u16;
    *pos += 2;
    hi * 0x100 + lo
}

/// Reads a big-endian `u32` at `*pos` and advances `*pos` by four.
pub fn read_be_u32(data: &[u8], pos: &mut usize) -> (value: u32)
    requires
        *old(pos) + 4 <= data@.len(),
    ensures
        value == be_u32_at(data@, *old(pos) as int),
        *final(pos) == *old(pos) + 4,
{
    let b0: u32 = data[*pos] as u32;
    let b1: u32 = data[*pos + 1] as u32;
    let b2: u32 = data[*pos + 2] as u32;
    let b3: u32 = data[*pos + 3] as u32;
    *pos += 4;
    b0 * 0x100_0000 + b1 * 0x1_0000 + b2 * 0x100 + b3
}

/// Tells whether the four bytes at `pos` exist and spell `tag`.
pub fn tag_matches(data: &[u8], pos: usize, tag: &[u8; 4]) -> (found: bool)
    ensures
        found == has_tag(data@, pos as int, *tag),
{
    if data.len() < 4 || pos > data.len() - 4 {
        return false;
    }
    data[pos] == tag[0] && data[pos + 1] == tag[1] && data[pos + 2] == tag[2] && data[pos + 3]
        == tag[3]
}

} // verus!
