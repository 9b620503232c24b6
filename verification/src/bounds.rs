//! Turning the two ends of a range into concrete offsets.

use vstd::prelude::*;

verus! {

/// One end of a range of offsets.
#[derive(Clone, Copy, Debug, PartialEq, Eq, Structural)]
pub enum Bound {
    /// The range reaches up to and including this offset.
    Included(usize),
    /// The range reaches up to, but not including, this offset.
    Excluded(usize),
    /// The range is open at this end.
    Unbounded,
}

/// The offset one past the last one of a range that ends at `edge`,
/// where an open end stands for `or`.
pub open spec fn upper_offset(edge: Bound, or: int) -> int {
    match edge {
        Bound::Included(a) => a + 1,
        Bound::Excluded(a) => a as int,
        Bound::Unbounded => or,
    }
}

/// The first offset of a range that starts at `edge`; an open start is 0.
pub open spec fn lower_offset(edge: Bound) -> int {
    match edge {
        Bound::Included(a) => a as int,
        Bound::Excluded(a) => a + 1,
        Bound::Unbounded => 0,
    }
}

/// Resolves the end of a range to the offset one past its last element.
/// An inclusive end is one below that offset, an exclusive end is that
/// offset, and an open end resolves to `or`.
pub fn bound(edge: Bound, or: usize) -> (end: usize)
    requires
        upper_offset(edge, or as int) <= usize::MAX,
    ensures
        end == upper_offset(edge, or as int),
{
    match edge {
        Bound::Included(a) => a + 1,
        Bound::Excluded(a) => a,
        Bound::Unbounded => or,
    }
}

/// Resolves the start of a range to its first offset.
pub fn lower_bound(edge: Bound) -> (start: usize)
    requires
        lower_offset(edge) <= usize::MAX,
    ensures
        start == lower_offset(edge),
{
    match edge {
        Bound::Included(a) => a,
        Bound::Excluded(a) => a + 1,
        Bound::Unbounded => 0,
    }
}

/// Whether the range from `start` to `end` lies within `len` elements: it
/// starts no later than it ends, and ends no later than they do. An open
/// end reaches to the last of them.
pub open spec fn in_range(start: Bound, end: Bound, len: int) -> bool {
    lower_offset(start) <= upper_offset(end, len) <= len
}

/// The bytes of `bytes` that the range from `start` to `end` selects.
pub open spec fn range_of(bytes: Seq<u8>, start: Bound, end: Bound) -> Seq<u8> {
    bytes.subrange(lower_offset(start), upper_offset(end, bytes.len() as int))
}

/// The bytes of `data` in the range from `start` to `end`.
pub fn slice_range(data: &[u8], start: Bound, end: Bound) -> (part: &[u8])
    requires
        in_range(start, end, data@.len() as int),
    ensures
        part@ == range_of(data@, start, end),
{
    let len = data.len();
    let lo = lower_bound(start);
    let hi = bound(end, len);
    vstd::slice::slice_subrange(data, lo, hi)
}

} // verus!
