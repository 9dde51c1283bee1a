//! Little-endian numbers inside a page.

use crate::storage::page::PageData;
use crate::storage::PAGE_SIZE;
use vstd::prelude::*;

verus! {

/// The four-byte number at offset `at`.
pub open spec fn le_u32(bytes: Seq<u8>, at: int) -> int {
    bytes[at] + bytes[at + 1] * 0x100 + bytes[at + 2] * 0x1_0000 + bytes[at + 3] * 0x100_0000
}

/// The eight-byte number at offset `at`.
pub open spec fn le_u64(bytes: Seq<u8>, at: int) -> int {
    le_u32(bytes, at) + le_u32(bytes, at + 4) * 0x1_0000_0000
}

/// Two byte sequences that differ at most in `[from, to)`.
pub open spec fn same_outside(a: Seq<u8>, b: Seq<u8>, from: int, to: int) -> bool {
    &&& a.len() == b.len()
    &&& forall|i: int|
        #![trigger a[i]]
        #![trigger b[i]]
        0 <= i < a.len() && !(from <= i < to) ==> a[i] == b[i]
}

/// The digits of a four-byte number to the base 256 are the bytes, the lowest
/// first.
pub proof fn law_four_bytes_are_digits(bytes: Seq<u8>, at: int)
    ensures
        0 <= le_u32(bytes, at) < 0x1_0000_0000,
        le_u32(bytes, at) % 0x100 == bytes[at],
        le_u32(bytes, at) / 0x100 % 0x100 == bytes[at + 1],
        le_u32(bytes, at) / 0x1_0000 % 0x100 == bytes[at + 2],
        le_u32(bytes, at) / 0x100_0000 == bytes[at + 3],
{
    let number = le_u32(bytes, at);
    let a = bytes[at] as int;
    let b = bytes[at + 1] as int;
    let c = bytes[at + 2] as int;
    let d = bytes[at + 3] as int;
    vstd::arithmetic::div_mod::lemma_fundamental_div_mod_converse(
        number,
        0x100,
        b + c * 0x100 + d * 0x1_0000,
        a,
    );
    vstd::arithmetic::div_mod::lemma_fundamental_div_mod_converse(
        number,
        0x1_0000,
        c + d * 0x100,
        a + b * 0x100,
    );
    vstd::arithmetic::div_mod::lemma_fundamental_div_mod_converse(
        number,
        0x100_0000,
        d,
        a + b * 0x100 + c * 0x1_0000,
    );
    vstd::arithmetic::div_mod::lemma_fundamental_div_mod_converse(
        b + c * 0x100 + d * 0x1_0000,
        0x100,
        c + d * 0x100,
        b,
    );
    vstd::arithmetic::div_mod::lemma_fundamental_div_mod_converse(c + d * 0x100, 0x100, d, c);
}

/// The digits of an eight-byte number to the base 2^32 are two four-byte
/// numbers, the lower one first.
pub proof fn law_eight_bytes_are_two_halves(bytes: Seq<u8>, at: int)
    ensures
        0 <= le_u64(bytes, at) < 0x1_0000_0000_0000_0000,
        le_u64(bytes, at) % 0x1_0000_0000 == le_u32(bytes, at),
        le_u64(bytes, at) / 0x1_0000_0000 == le_u32(bytes, at + 4),
{
    vstd::arithmetic::div_mod::lemma_fundamental_div_mod_converse(
        le_u64(bytes, at),
        0x1_0000_0000,
        le_u32(bytes, at + 4),
        le_u32(bytes, at),
    );
}

/// A change inside a range leaves every byte outside it, and the length.
pub proof fn law_nothing_changes_outside(a: Seq<u8>, b: Seq<u8>, from: int, to: int)
    ensures
        same_outside(a, b, from, to) <==> a.len() == b.len() && forall|i: int|
            0 <= i < a.len() && (i < from || to <= i) ==> #[trigger] a[i] == b[i],
{
}

/// The bytes of a page are its data, in order.
pub proof fn law_bytes_are_the_data(page: PageData, i: int)
    requires
        0 <= i < 4096,
    ensures
        page.bytes().len() == 4096,
        page.bytes()[i] == page.data[i],
{
}

impl PageData {
    /// The bytes of the page.
    pub open spec fn bytes(self) -> Seq<u8> {
        self.data@
    }

    /// A page of zeros.
    pub fn zeroed() -> (page: PageData)
        ensures
            page.bytes() == Seq::new(PAGE_SIZE as nat, |i: int| 0u8),
    {
        let page = PageData { data: [0; PAGE_SIZE] };
        assert(page.bytes() =~= Seq::new(PAGE_SIZE as nat, |i: int| 0u8));
        page
    }

    /// Reads the four-byte number at offset `at`.
    pub fn read_u32(&self, at: usize) -> (value: u32)
        requires
            at + 4 <= PAGE_SIZE,
        ensures
            value == le_u32(self.bytes(), at as int),
    {
        self.data[at] as u32 + self.data[at + 1] as u32 * 0x100 + self.data[at + 2] as u32
            * 0x1_0000 + self.data[at + 3] as u32 * 0x100_0000
    }

    /// Reads the eight-byte number at offset `at`.
    pub fn read_u64(&self, at: usize) -> (value: u64)
        requires
            at + 8 <= PAGE_SIZE,
        ensures
            value == le_u64(self.bytes(), at as int),
    {
        self.read_u32(at) as u64 + self.read_u32(at + 4) as u64 * 0x1_0000_0000
    }

    /// Writes a four-byte number at offset `at`.
    pub fn write_u32(&mut self, at: usize, value: u32)
        requires
            at + 4 <= PAGE_SIZE,
        ensures
            le_u32(final(self).bytes(), at as int) == value,
            same_outside(old(self).bytes(), final(self).bytes(), at as int, at + 4),
    {
        self.data[at] = (value % 0x100) as u8;
        self.data[at + 1] = (value / 0x100 % 0x100) as u8;
        self.data[at + 2] = (value / 0x1_0000 % 0x100) as u8;
        self.data[at + 3] = (value / 0x100_0000) as u8;
    }

    /// Writes an eight-byte number at offset `at`.
    pub fn write_u64(&mut self, at: usize, value: u64)
        requires
            at + 8 <= PAGE_SIZE,
        ensures
            le_u64(final(self).bytes(), at as int) == value,
            same_outside(old(self).bytes(), final(self).bytes(), at as int, at + 8),
    {
        self.write_u32(at, (value % 0x1_0000_0000) as u32);
        self.write_u32(at + 4, (value / 0x1_0000_0000) as u32);
    }
}

} // verus!
