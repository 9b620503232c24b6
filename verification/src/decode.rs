//! Big-endian integers at an offset of a byte sequence.

use byteorder::{BigEndian, ReadBytesExt};
use vstd::prelude::*;

verus! {

/// The unsigned number that the two bytes from `at` on spell, the first
/// byte being the most significant.
pub open spec fn be_u16(bytes: Seq<u8>, at: int) -> int {
    bytes[at] * 0x100 + bytes[at + 1]
}

/// The unsigned number that the four bytes from `at` on spell, the first
/// byte being the most significant.
pub open spec fn be_u32(bytes: Seq<u8>, at: int) -> int {
    bytes[at] * 0x100_0000 + bytes[at + 1] * 0x1_0000 + bytes[at + 2] * 0x100 + bytes[at + 3]
}

/// The 8-bit two's complement reading of `v`, for `0 <= v < 2^8`.
pub open spec fn as_signed_8(v: int) -> int {
    if v < 0x80 {
        v
    } else {
        v - 0x100
    }
}

/// The 16-bit two's complement reading of `v`, for `0 <= v < 2^16`.
pub open spec fn as_signed_16(v: int) -> int {
    if v < 0x8000 {
        v
    } else {
        v - 0x1_0000
    }
}

/// The 32-bit two's complement reading of `v`, for `0 <= v < 2^32`.
pub open spec fn as_signed_32(v: int) -> int {
    if v < 0x8000_0000 {
        v
    } else {
        v - 0x1_0000_0000
    }
}

/// `byteorder::ReadBytesExt::read_u16::<BigEndian>` on the bytes of `data`
/// from `at` on. With two bytes there the read cannot fail, and the crate
/// hands back `u16::from_be_bytes` of them: the first byte times 256 plus
/// the second.
#[verifier::external_body]
pub(crate) fn read_u16_be(data: &[u8], at: usize) -> (value: u16)
    requires
        at + 2 <= data@.len(),
    ensures
        value == be_u16(data@, at as int),
{
    (&data[at..]).read_u16::<BigEndian>().unwrap()
}

/// `byteorder::ReadBytesExt::read_i16::<BigEndian>` on the bytes of `data`
/// from `at` on. With two bytes there the read cannot fail, and the crate
/// hands back the unsigned big-endian number cast to `i16`, that is its
/// two's complement reading.
#[verifier::external_body]
pub(crate) fn read_i16_be(data: &[u8], at: usize) -> (value: i16)
    requires
        at + 2 <= data@.len(),
    ensures
        value == as_signed_16(be_u16(data@, at as int)),
{
    (&data[at..]).read_i16::<BigEndian>().unwrap()
}

/// `byteorder::ReadBytesExt::read_u32::<BigEndian>` on the bytes of `data`
/// from `at` on. With four bytes there the read cannot fail, and the crate
/// hands back `u32::from_be_bytes` of them.
#[verifier::external_body]
pub(crate) fn read_u32_be(data: &[u8], at: usize) -> (value: u32)
    requires
        at + 4 <= data@.len(),
    ensures
        value == be_u32(data@, at as int),
{
    (&data[at..]).read_u32::<BigEndian>().unwrap()
}

/// `byteorder::ReadBytesExt::read_i32::<BigEndian>` on the bytes of `data`
/// from `at` on. With four bytes there the read cannot fail, and the crate
/// hands back the unsigned big-endian number cast to `i32`, that is its
/// two's complement reading.
#[verifier::external_body]
pub(crate) fn read_i32_be(data: &[u8], at: usize) -> (value: i32)
    requires
        at + 4 <= data@.len(),
    ensures
        value == as_signed_32(be_u32(data@, at as int)),
{
    (&data[at..]).read_i32::<BigEndian>().unwrap()
}

/// A 16-bit big-endian number is made of the two bytes at its offset and
/// of nothing else: the first is its high byte, the second its low byte.
pub proof fn lemma_be_u16_bytes(bytes: Seq<u8>, at: int)
    requires
        0 <= at,
        at + 2 <= bytes.len(),
    ensures
        0 <= be_u16(bytes, at) <= u16::MAX,
        bytes[at] == be_u16(bytes, at) / 0x100,
        bytes[at + 1] == be_u16(bytes, at) % 0x100,
{
}

/// A 32-bit big-endian number is made of the four bytes at its offset and
/// of nothing else, the most significant byte first.
pub proof fn lemma_be_u32_bytes(bytes: Seq<u8>, at: int)
    requires
        0 <= at,
        at + 4 <= bytes.len(),
    ensures
        0 <= be_u32(bytes, at) <= u32::MAX,
        bytes[at] == be_u32(bytes, at) / 0x100_0000,
        bytes[at + 1] == be_u32(bytes, at) / 0x1_0000 % 0x100,
        bytes[at + 2] == be_u32(bytes, at) / 0x100 % 0x100,
        bytes[at + 3] == be_u32(bytes, at) % 0x100,
{
}

/// Reading a number inside a part of a sequence is reading it in the whole
/// sequence, at the offset moved by where the part starts.
pub proof fn lemma_read_in_part(bytes: Seq<u8>, from: int, to: int, offset: int)
    requires
        0 <= from <= to <= bytes.len(),
        0 <= offset,
    ensures
        offset + 1 <= to - from ==> bytes.subrange(from, to)[offset] == bytes[from + offset],
        offset + 2 <= to - from ==> be_u16(bytes.subrange(from, to), offset) == be_u16(
            bytes,
            from + offset,
        ),
        offset + 4 <= to - from ==> be_u32(bytes.subrange(from, to), offset) == be_u32(
            bytes,
            from + offset,
        ),
{
}

} // verus!
