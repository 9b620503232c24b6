//! The accessor that remembers where it is: a borrowed buffer and a window
//! into it. Offsets given to its reads count from the window's start; the
//! buffer's own offsets stay available for deriving views and searching.

use crate::bounds::{
    bound, in_range, lower_bound, lower_offset, range_of, slice_range, upper_offset, Bound,
};
use crate::decode::{
    as_signed_8, as_signed_16, as_signed_32, be_u16, be_u32, read_i16_be, read_i32_be, read_u16_be,
    read_u32_be,
};
use crate::scan::{lemma_lists_hits_step, lists_hits};
use crate::text::{ascii_of, ascii_text, hex_of, hex_text, is_text, str_of, text_at};
use vstd::prelude::*;
use vstd::slice::slice_subrange;

verus! {

/// A window `[start, end)` into a borrowed byte buffer.
#[derive(Clone, Copy)]
pub struct FancySlice<'a> {
    data: &'a [u8],
    start: usize,
    end: usize,
}

impl<'a> View for FancySlice<'a> {
    type V = Seq<u8>;

    /// The bytes of the window.
    open spec fn view(&self) -> Seq<u8> {
        self.buffer().subrange(self.window_start(), self.window_end())
    }
}

impl<'a> FancySlice<'a> {
    /// The whole buffer that this view was derived from.
    pub closed spec fn buffer(&self) -> Seq<u8> {
        self.data@
    }

    /// The offset into the buffer at which the window starts.
    pub closed spec fn window_start(&self) -> int {
        self.start as int
    }

    /// The offset into the buffer at which the window ends.
    pub closed spec fn window_end(&self) -> int {
        self.end as int
    }

    /// A window lies inside its buffer. Every view that the library hands
    /// out is such a one.
    #[verifier::type_invariant]
    pub open spec fn wf(&self) -> bool {
        0 <= self.window_start() <= self.window_end() <= self.buffer().len()
    }

    /// A view of all of `data`.
    pub fn new(data: &[u8]) -> (view: FancySlice<'_>)
        ensures
            view.wf(),
            view.buffer() == data@,
            view.window_start() == 0,
            view.window_end() == data@.len(),
            view@ == data@,
    {
        let view = FancySlice { data, start: 0, end: data.len() };
        assert(view@ =~= data@);
        view
    }

    /// The number of bytes in the window.
    pub fn len(&self) -> (n: usize)
        ensures
            n == self@.len(),
    {
        proof {
            use_type_invariant(self);
        }
        self.end - self.start
    }

    /// The offset into the buffer at which the window starts.
    pub fn offset(&self) -> (at: usize)
        ensures
            at == self.window_start(),
    {
        self.start
    }

    /// The byte at `offset` of the window.
    pub fn u8(&self, offset: usize) -> (value: u8)
        requires
            offset < self@.len(),
        ensures
            value == self@[offset as int],
    {
        proof {
            use_type_invariant(self);
        }
        self.data[self.start + offset]
    }

    /// The offset into the buffer at which a range that starts at `start`
    /// of the window starts.
    pub open spec fn relative_start(&self, start: Bound) -> int {
        self.window_start() + lower_offset(start)
    }

    /// The offset into the buffer at which a range that ends at `end` of
    /// the window ends. An open end reaches to the end of the buffer.
    pub open spec fn relative_end(&self, end: Bound) -> int {
        self.window_start() + upper_offset(end, self.buffer().len() - self.window_start())
    }

    /// Whether `sub` is the view that the range from `start` to `end`,
    /// counted from the start of this window, selects of the buffer.
    pub open spec fn derives_relative(&self, start: Bound, end: Bound, sub: FancySlice<'_>) -> bool {
        &&& sub.buffer() == self.buffer()
        &&& sub.window_start() == self.relative_start(start)
        &&& sub.window_end() == self.relative_end(end)
    }

    /// Whether `sub` is the view that the range from `start` to `end`,
    /// counted from the start of the buffer, selects of it.
    pub open spec fn derives_absolute(&self, start: Bound, end: Bound, sub: FancySlice<'_>) -> bool {
        &&& sub.buffer() == self.buffer()
        &&& sub.window_start() == lower_offset(start)
        &&& sub.window_end() == upper_offset(end, self.buffer().len() as int)
    }

    /// The view of the range from `start` to `end`, both counted from the
    /// start of this window. An open end reaches to the end of the buffer.
    pub fn relative_fancy_slice(&self, start: Bound, end: Bound) -> (sub: FancySlice<'_>)
        requires
            self.relative_start(start) <= self.relative_end(end) <= self.buffer().len(),
        ensures
            sub.wf(),
            self.derives_relative(start, end, sub),
    {
        proof {
            use_type_invariant(self);
        }
        let rest = self.data.len() - self.start;
        let lo = lower_bound(start);
        let hi = bound(end, rest);
        FancySlice { data: self.data, start: self.start + lo, end: self.start + hi }
    }

    /// The view of the range from `start` to `end`, both counted from the
    /// start of the buffer, wherever this window lies.
    pub fn absolute_fancy_slice(&self, start: Bound, end: Bound) -> (sub: FancySlice<'_>)
        requires
            in_range(start, end, self.buffer().len() as int),
        ensures
            sub.wf(),
            self.derives_absolute(start, end, sub),
    {
        let len = self.data.len();
        let lo = lower_bound(start);
        let hi = bound(end, len);
        FancySlice { data: self.data, start: lo, end: hi }
    }

    /// The bytes of the range from `start` to `end` of the window.
    pub fn relative_slice(&self, start: Bound, end: Bound) -> (part: &[u8])
        requires
            in_range(start, end, self@.len() as int),
        ensures
            part@ == range_of(self@, start, end),
    {
        proof {
            use_type_invariant(self);
        }
        slice_range(slice_subrange(self.data, self.start, self.end), start, end)
    }

    /// The bytes of the range from `start` to `end` of the buffer.
    pub fn absolute_slice(&self, start: Bound, end: Bound) -> (part: &[u8])
        requires
            in_range(start, end, self.buffer().len() as int),
        ensures
            part@ == range_of(self.buffer(), start, end),
    {
        slice_range(self.data, start, end)
    }

    /// The signed 16-bit big-endian integer at `offset` of the window.
    pub fn i16_be(&self, offset: usize) -> (value: i16)
        requires
            offset + 2 <= self@.len(),
        ensures
            value == as_signed_16(be_u16(self@, offset as int)),
    {
        proof {
            use_type_invariant(self);
        }
        read_i16_be(self.data, self.start + offset)
    }

    /// The unsigned 16-bit big-endian integer at `offset` of the window.
    pub fn u16_be(&self, offset: usize) -> (value: u16)
        requires
            offset + 2 <= self@.len(),
        ensures
            value == be_u16(self@, offset as int),
    {
        proof {
            use_type_invariant(self);
        }
        read_u16_be(self.data, self.start + offset)
    }

    /// The signed 32-bit big-endian integer at `offset` of the window.
    pub fn i32_be(&self, offset: usize) -> (value: i32)
        requires
            offset + 4 <= self@.len(),
        ensures
            value == as_signed_32(be_u32(self@, offset as int)),
    {
        proof {
            use_type_invariant(self);
        }
        read_i32_be(self.data, self.start + offset)
    }

    /// The unsigned 32-bit big-endian integer at `offset` of the window.
    pub fn u32_be(&self, offset: usize) -> (value: u32)
        requires
            offset + 4 <= self@.len(),
        ensures
            value == be_u32(self@, offset as int),
    {
        proof {
            use_type_invariant(self);
        }
        read_u32_be(self.data, self.start + offset)
    }

    /// The zero-terminated UTF-8 text at `offset` of the window. The zero
    /// byte has to lie inside the window.
    pub fn str(&self, offset: usize) -> (res: Result<&str, String>)
        requires
            offset <= self@.len(),
        ensures
            is_text(res, text_at(self@, offset as int)),
    {
        proof {
            use_type_invariant(self);
        }
        str_of(slice_subrange(self.data, self.start, self.end), offset)
    }

    /// The bytes of the range from `start` to `end` of the window in
    /// hexadecimal, in groups of two bytes.
    pub fn hex(&self, start: Bound, end: Bound) -> (text: String)
        requires
            in_range(start, end, self@.len() as int),
        ensures
            text@ == hex_text(range_of(self@, start, end)),
    {
        hex_of(self.relative_slice(start, end))
    }

    /// The bytes of the range from `start` to `end` of the window as ASCII
    /// characters, with a dot for each byte that is none to print.
    pub fn ascii(&self, start: Bound, end: Bound) -> (text: String)
        requires
            in_range(start, end, self@.len() as int),
        ensures
            text@ == ascii_text(range_of(self@, start, end)),
    {
        ascii_of(self.relative_slice(start, end))
    }

    /// Every offset into the buffer, not only into the window, at which
    /// the byte is `search_for`.
    pub fn find_u8(&self, search_for: u8) -> (found: Vec<usize>)
        ensures
            lists_hits(
                found@,
                self.buffer().len() as int,
                |a: int| self.buffer()[a] == search_for,
            ),
    {
        let ghost hit = |a: int| self.buffer()[a] == search_for;
        let mut found: Vec<usize> = Vec::new();
        let mut address: usize = 0;
        while address < self.data.len()
            invariant
                address <= self.data@.len(),
                hit == |a: int| self.buffer()[a] == search_for,
                lists_hits(found@, address as int, hit),
            decreases self.data@.len() - address,
        {
            proof {
                lemma_lists_hits_step(found@, address as int, hit);
            }
            if self.data[address] == search_for {
                found.push(address);
            }
            address += 1;
        }
        found
    }

    /// Every offset into the buffer, not only into the window, at which
    /// the byte, read as a signed number, is `search_for`.
    pub fn find_i8(&self, search_for: i8) -> (found: Vec<usize>)
        ensures
            lists_hits(
                found@,
                self.buffer().len() as int,
                |a: int| as_signed_8(self.buffer()[a] as int) == search_for,
            ),
    {
        let ghost hit = |a: int| as_signed_8(self.buffer()[a] as int) == search_for;
        let mut found: Vec<usize> = Vec::new();
        let mut address: usize = 0;
        while address < self.data.len()
            invariant
                address <= self.data@.len(),
                hit == |a: int| as_signed_8(self.buffer()[a] as int) == search_for,
                lists_hits(found@, address as int, hit),
            decreases self.data@.len() - address,
        {
            proof {
                lemma_lists_hits_step(found@, address as int, hit);
            }
            if signed_byte(self.data[address]) == search_for {
                found.push(address);
            }
            address += 1;
        }
        found
    }

    /// Every offset into the buffer, not only into the window, at which
    /// the signed 16-bit big-endian integer is `search_for`.
    pub fn find_i16(&self, search_for: i16) -> (found: Vec<usize>)
        ensures
            lists_hits(
                found@,
                self.buffer().len() as int,
                |a: int| a + 2 <= self.buffer().len() && as_signed_16(be_u16(self.buffer(), a)) == search_for,
            ),
    {
        let ghost hit = |a: int| a + 2 <= self.buffer().len() && as_signed_16(be_u16(self.buffer(), a)) == search_for;
        let mut found: Vec<usize> = Vec::new();
        let mut address: usize = 0;
        while address < self.data.len()
            invariant
                address <= self.data@.len(),
                hit == |a: int| a + 2 <= self.buffer().len() && as_signed_16(be_u16(self.buffer(), a)) == search_for,
                lists_hits(found@, address as int, hit),
            decreases self.data@.len() - address,
        {
            proof {
                lemma_lists_hits_step(found@, address as int, hit);
            }
            if self.data.len() - address >= 2 && read_i16_be(self.data, address) == search_for {
                found.push(address);
            }
            address += 1;
        }
        found
    }

    /// Every offset into the buffer, not only into the window, at which
    /// the unsigned 16-bit big-endian integer is `search_for`.
    pub fn find_u16(&self, search_for: u16) -> (found: Vec<usize>)
        ensures
            lists_hits(
                found@,
                self.buffer().len() as int,
                |a: int| a + 2 <= self.buffer().len() && be_u16(self.buffer(), a) == search_for,
            ),
    {
        let ghost hit = |a: int| a + 2 <= self.buffer().len() && be_u16(self.buffer(), a) == search_for;
        let mut found: Vec<usize> = Vec::new();
        let mut address: usize = 0;
        while address < self.data.len()
            invariant
                address <= self.data@.len(),
                hit == |a: int| a + 2 <= self.buffer().len() && be_u16(self.buffer(), a) == search_for,
                lists_hits(found@, address as int, hit),
            decreases self.data@.len() - address,
        {
            proof {
                lemma_lists_hits_step(found@, address as int, hit);
            }
            if self.data.len() - address >= 2 && read_u16_be(self.data, address) == search_for {
                found.push(address);
            }
            address += 1;
        }
        found
    }

    /// Every offset into the buffer, not only into the window, at which
    /// the signed 32-bit big-endian integer is `search_for`.
    pub fn find_i32(&self, search_for: i32) -> (found: Vec<usize>)
        ensures
            lists_hits(
                found@,
                self.buffer().len() as int,
                |a: int| a + 4 <= self.buffer().len() && as_signed_32(be_u32(self.buffer(), a)) == search_for,
            ),
    {
        let ghost hit = |a: int| a + 4 <= self.buffer().len() && as_signed_32(be_u32(self.buffer(), a)) == search_for;
        let mut found: Vec<usize> = Vec::new();
        let mut address: usize = 0;
        while address < self.data.len()
            invariant
                address <= self.data@.len(),
                hit == |a: int| a + 4 <= self.buffer().len() && as_signed_32(be_u32(self.buffer(), a)) == search_for,
                lists_hits(found@, address as int, hit),
            decreases self.data@.len() - address,
        {
            proof {
                lemma_lists_hits_step(found@, address as int, hit);
            }
            if self.data.len() - address >= 4 && read_i32_be(self.data, address) == search_for {
                found.push(address);
            }
            address += 1;
        }
        found
    }

    /// Every offset into the buffer, not only into the window, at which
    /// the unsigned 32-bit big-endian integer is `search_for`.
    pub fn find_u32(&self, search_for: u32) -> (found: Vec<usize>)
        ensures
            lists_hits(
                found@,
                self.buffer().len() as int,
                |a: int| a + 4 <= self.buffer().len() && be_u32(self.buffer(), a) == search_for,
            ),
    {
        let ghost hit = |a: int| a + 4 <= self.buffer().len() && be_u32(self.buffer(), a) == search_for;
        let mut found: Vec<usize> = Vec::new();
        let mut address: usize = 0;
        while address < self.data.len()
            invariant
                address <= self.data@.len(),
                hit == |a: int| a + 4 <= self.buffer().len() && be_u32(self.buffer(), a) == search_for,
                lists_hits(found@, address as int, hit),
            decreases self.data@.len() - address,
        {
            proof {
                lemma_lists_hits_step(found@, address as int, hit);
            }
            if self.data.len() - address >= 4 && read_u32_be(self.data, address) == search_for {
                found.push(address);
            }
            address += 1;
        }
        found
    }

    /// Every offset into the buffer at which an unsigned 32-bit big-endian
    /// integer stands that, added to its own offset, gives
    /// `search_for_address`: the places that may hold a pointer to that
    /// address, relative to themselves.
    pub fn find_offset_pointers(&self, search_for_address: usize) -> (found: Vec<usize>)
        ensures
            lists_hits(
                found@,
                self.buffer().len() as int,
                |a: int|
                    a + 4 <= self.buffer().len() && a + be_u32(self.buffer(), a)
                        == search_for_address,
            ),
    {
        let ghost hit = |a: int|
            a + 4 <= self.buffer().len() && a + be_u32(self.buffer(), a) == search_for_address;
        let mut found: Vec<usize> = Vec::new();
        let mut address: usize = 0;
        while address < self.data.len()
            invariant
                address <= self.data@.len(),
                hit == |a: int|
                    a + 4 <= self.buffer().len() && a + be_u32(self.buffer(), a)
                        == search_for_address,
                lists_hits(found@, address as int, hit),
            decreases self.data@.len() - address,
        {
            proof {
                lemma_lists_hits_step(found@, address as int, hit);
            }
            if self.data.len() - address >= 4 && address <= search_for_address {
                let value = read_u32_be(self.data, address);
                if value as u64 == (search_for_address - address) as u64 {
                    found.push(address);
                }
            }
            address += 1;
        }
        found
    }
}

/// A byte read as a signed number.
fn signed_byte(byte: u8) -> (value: i8)
    ensures
        value == as_signed_8(byte as int),
{
    if byte < 0x80 {
        byte as i8
    } else {
        (byte as i16 - 0x100) as i8
    }
}

/// The offsets that a search for pointers to one address came up with.
#[derive(Debug)]
pub struct PointerSearchResults {
    /// Where the address itself stands.
    pub absolute: Vec<usize>,
    /// Where its distance from that place stands.
    pub relative: Vec<usize>,
}

/// Reading at `offset` of a view derived from `parent` by a range counted
/// from its window is reading `parent` at `offset` past the range's start,
/// wherever both reads lie inside their windows.
pub proof fn lemma_sub_view_reads(
    parent: FancySlice<'_>,
    start: Bound,
    end: Bound,
    sub: FancySlice<'_>,
    offset: int,
)
    requires
        parent.wf(),
        sub.wf(),
        parent.derives_relative(start, end, sub),
        0 <= offset,
    ensures
        offset + 1 <= sub@.len() && lower_offset(start) + offset + 1 <= parent@.len()
            ==> sub@[offset] == parent@[lower_offset(start) + offset],
        offset + 2 <= sub@.len() && lower_offset(start) + offset + 2 <= parent@.len() ==> be_u16(
            sub@,
            offset,
        ) == be_u16(parent@, lower_offset(start) + offset),
        offset + 4 <= sub@.len() && lower_offset(start) + offset + 4 <= parent@.len() ==> be_u32(
            sub@,
            offset,
        ) == be_u32(parent@, lower_offset(start) + offset),
{
}

/// A view derived by a range counted from a window is the view that the
/// same range, counted from the start of the buffer, selects: `at` and
/// `to` being the offsets into the buffer of the derived window, the range
/// from `at` up to `to` taken absolutely, by any view of the buffer, gives
/// the same window and the same bytes.
pub proof fn lemma_relative_is_absolute(
    parent: FancySlice<'_>,
    start: Bound,
    end: Bound,
    sub: FancySlice<'_>,
    other: FancySlice<'_>,
    at: usize,
    to: usize,
    direct: FancySlice<'_>,
)
    requires
        parent.derives_relative(start, end, sub),
        other.buffer() == parent.buffer(),
        at == parent.relative_start(start),
        to == parent.relative_end(end),
        other.derives_absolute(Bound::Included(at), Bound::Excluded(to), direct),
    ensures
        direct.window_start() == sub.window_start(),
        direct.window_end() == sub.window_end(),
        direct@ == sub@,
{
}

/// Whether each view of `chain` but the first is derived from the one
/// before it, by the range of `steps` at that place counted from its
/// window.
pub open spec fn is_relative_chain(chain: Seq<FancySlice<'_>>, steps: Seq<(Bound, Bound)>) -> bool {
    &&& chain.len() == steps.len() + 1
    &&& forall|i: int|
        0 <= i < steps.len() ==> (#[trigger] chain[i]).derives_relative(
            steps[i].0,
            steps[i].1,
            chain[i + 1],
        )
}

/// The sum of the offsets at which the ranges of `steps` start.
pub open spec fn start_sum(steps: Seq<(Bound, Bound)>) -> int
    decreases steps.len(),
{
    if steps.len() == 0 {
        0
    } else {
        start_sum(steps.drop_last()) + lower_offset(steps.last().0)
    }
}

/// However many views are derived one from the other by ranges counted
/// from their windows, the last one lies in the buffer of the first, and
/// starts where the starts of the ranges add up to. The range from there
/// to its end, counted from the start of the buffer, gives the same window
/// and the same bytes in one step.
pub proof fn lemma_chain_is_absolute(
    chain: Seq<FancySlice<'_>>,
    steps: Seq<(Bound, Bound)>,
    at: usize,
    to: usize,
    direct: FancySlice<'_>,
)
    requires
        is_relative_chain(chain, steps),
        at == chain.last().window_start(),
        to == chain.last().window_end(),
        chain[0].derives_absolute(Bound::Included(at), Bound::Excluded(to), direct),
    ensures
        chain.last().buffer() == chain[0].buffer(),
        chain.last().window_start() == chain[0].window_start() + start_sum(steps),
        direct.window_start() == chain.last().window_start(),
        direct.window_end() == chain.last().window_end(),
        direct@ == chain.last()@,
{
    lemma_chain_prefix(chain, steps);
}

/// The last view of a chain lies in the buffer of the first and starts
/// where the starts of the ranges add up to.
proof fn lemma_chain_prefix(chain: Seq<FancySlice<'_>>, steps: Seq<(Bound, Bound)>)
    requires
        is_relative_chain(chain, steps),
    ensures
        chain.last().buffer() == chain[0].buffer(),
        chain.last().window_start() == chain[0].window_start() + start_sum(steps),
    decreases steps.len(),
{
    if steps.len() > 0 {
        let before = chain.drop_last();
        assert(before.last() == chain[steps.len() - 1]);
        assert(before[0] == chain[0]);
        assert forall|i: int| 0 <= i < steps.drop_last().len() implies (#[trigger] before[i]).derives_relative(
            steps.drop_last()[i].0,
            steps.drop_last()[i].1,
            before[i + 1],
        ) by {
            assert(chain[i].derives_relative(steps[i].0, steps[i].1, chain[i + 1]));
        }
        lemma_chain_prefix(before, steps.drop_last());
        assert(chain[steps.len() - 1].derives_relative(
            steps.last().0,
            steps.last().1,
            chain.last(),
        ));
    }
}

} // verus!
