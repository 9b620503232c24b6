//! The accessor that keeps nothing but its window: each derived view
//! borrows just the bytes it covers, and offsets always count from there.

use crate::bounds::{in_range, lower_offset, range_of, slice_range, upper_offset, Bound};
use crate::decode::{
    as_signed_16, as_signed_32, be_u16, be_u32, lemma_read_in_part, read_i16_be, read_i32_be, read_u16_be,
    read_u32_be,
};
use crate::text::{ascii_of, ascii_text, hex_of, hex_text, is_text, str_of, text_at};
use vstd::prelude::*;

verus! {

/// A borrowed run of bytes, read by offset.
#[derive(Clone, Copy)]
pub struct FancySlice<'a> {
    data: &'a [u8],
}

impl<'a> View for FancySlice<'a> {
    type V = Seq<u8>;

    /// The bytes of the window.
    closed spec fn view(&self) -> Seq<u8> {
        self.data@
    }
}

impl<'a> FancySlice<'a> {
    /// A view of all of `data`.
    pub fn new(data: &[u8]) -> (view: FancySlice<'_>)
        ensures
            view@ == data@,
    {
        FancySlice { data }
    }

    /// The view of the range from `start` to `end` of the window. An open
    /// end reaches to the end of the window.
    pub fn relative_fancy_slice(&self, start: Bound, end: Bound) -> (sub: FancySlice<'_>)
        requires
            in_range(start, end, self@.len() as int),
        ensures
            sub@ == range_of(self@, start, end),
    {
        FancySlice { data: slice_range(self.data, start, end) }
    }

    /// The bytes of the range from `start` to `end` of the window.
    pub fn relative_slice(&self, start: Bound, end: Bound) -> (part: &[u8])
        requires
            in_range(start, end, self@.len() as int),
        ensures
            part@ == range_of(self@, start, end),
    {
        slice_range(self.data, start, end)
    }

    /// The byte at `offset` of the window.
    pub fn u8(&self, offset: usize) -> (value: u8)
        requires
            offset < self@.len(),
        ensures
            value == self@[offset as int],
    {
        self.data[offset]
    }

    /// The signed 16-bit big-endian integer at `offset` of the window.
    pub fn i16_be(&self, offset: usize) -> (value: i16)
        requires
            offset + 2 <= self@.len(),
        ensures
            value == as_signed_16(be_u16(self@, offset as int)),
    {
        read_i16_be(self.data, offset)
    }

    /// The unsigned 16-bit big-endian integer at `offset` of the window.
    pub fn u16_be(&self, offset: usize) -> (value: u16)
        requires
            offset + 2 <= self@.len(),
        ensures
            value == be_u16(self@, offset as int),
    {
        read_u16_be(self.data, offset)
    }

    /// The signed 32-bit big-endian integer at `offset` of the window.
    pub fn i32_be(&self, offset: usize) -> (value: i32)
        requires
            offset + 4 <= self@.len(),
        ensures
            value == as_signed_32(be_u32(self@, offset as int)),
    {
        read_i32_be(self.data, offset)
    }

    /// The unsigned 32-bit big-endian integer at `offset` of the window.
    pub fn u32_be(&self, offset: usize) -> (value: u32)
        requires
            offset + 4 <= self@.len(),
        ensures
            value == be_u32(self@, offset as int),
    {
        read_u32_be(self.data, offset)
    }

    /// The zero-terminated UTF-8 text at `offset` of the window.
    pub fn str(&self, offset: usize) -> (res: Result<&str, String>)
        requires
            offset <= self@.len(),
        ensures
            is_text(res, text_at(self@, offset as int)),
    {
        str_of(self.data, offset)
    }

    /// The number of bytes in the window.
    pub fn len(&self) -> (n: usize)
        ensures
            n == self@.len(),
    {
        self.data.len()
    }

    /// The bytes of the range from `start` to `end` of the window in
    /// hexadecimal, in groups of two bytes.
    pub fn hex(&self, start: Bound, end: Bound) -> (text: String)
        requires
            in_range(start, end, self@.len() as int),
        ensures
            text@ == hex_text(range_of(self@, start, end)),
    {
        hex_of(slice_range(self.data, start, end))
    }

    /// The bytes of the range from `start` to `end` of the window as ASCII
    /// characters, with a dot for each byte that is none to print.
    pub fn ascii(&self, start: Bound, end: Bound) -> (text: String)
        requires
            in_range(start, end, self@.len() as int),
        ensures
            text@ == ascii_text(range_of(self@, start, end)),
    {
        ascii_of(slice_range(self.data, start, end))
    }
}

/// Reading at `offset` of a view derived from `parent` by the range from
/// `start` to `end` is reading `parent` at `offset` past the range's start.
pub proof fn lemma_sub_view_reads(
    parent: FancySlice<'_>,
    start: Bound,
    end: Bound,
    sub: FancySlice<'_>,
    offset: int,
)
    requires
        in_range(start, end, parent@.len() as int),
        sub@ == range_of(parent@, start, end),
        0 <= offset,
    ensures
        offset + 1 <= sub@.len() ==> sub@[offset] == parent@[lower_offset(start) + offset],
        offset + 2 <= sub@.len() ==> be_u16(sub@, offset) == be_u16(
            parent@,
            lower_offset(start) + offset,
        ),
        offset + 4 <= sub@.len() ==> be_u32(sub@, offset) == be_u32(
            parent@,
            lower_offset(start) + offset,
        ),
{
    lemma_read_in_part(
        parent@,
        lower_offset(start),
        upper_offset(end, parent@.len() as int),
        offset,
    );
}

} // verus!
