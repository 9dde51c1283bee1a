//! The internal nodes of the B+ tree.
//!
//! An internal node fills one page: sixteen bytes of header, then up to 255
//! entries of sixteen bytes, ordered by key. Each entry holds a separator key
//! and the page id of the child to its right; the child to the left of all
//! separators stands in the header.
//!
//! ```text
//!  offset  0  node type
//!  offset  4  number of entries, four bytes
//!  offset  8  page id of the first child, eight bytes
//!  offset 16  key and child of entry 0, eight bytes each
//!  offset 32  key and child of entry 1, and so on
//! ```

use crate::storage::page::PageData;
use vstd::prelude::*;

verus! {

/// The node type of an internal node.
pub const NODE_INTERNAL: u8 = 2;

/// How many entries fit into an internal node.
pub const INTERNAL_CAPACITY: usize = 255;

/// A separator key and the child that holds the keys from it upwards.
#[derive(Clone, Copy, Debug, PartialEq, Eq, Structural)]
pub struct InternalEntry {
    pub key: u64,
    pub child_page_id: u64,
}

/// The start of an internal page.
#[derive(Clone, Copy, Debug, PartialEq, Eq)]
pub struct InternalHeader {
    pub node_type: u8,
    pub _padding: [u8; 3],
    /// The number of separator keys.
    pub len: u32,
    /// The child that holds the keys below all separators.
    pub first_child_page_id: u64,
}

/// An internal node.
pub struct InternalPage {
    pub header: InternalHeader,
    pub entries: Vec<InternalEntry>,
}

/// No separator is smaller than the separator before it.
pub open spec fn internal_sorted(entries: Seq<InternalEntry>) -> bool {
    forall|i: int, j: int|
        0 <= i < j < entries.len() ==> (#[trigger] entries[i]).key <= (#[trigger] entries[j]).key
}

/// `index` is where the separators that are larger than `key` begin.
pub open spec fn is_upper_bound(entries: Seq<InternalEntry>, key: u64, index: int) -> bool {
    &&& 0 <= index <= entries.len()
    &&& forall|i: int| 0 <= i < index ==> (#[trigger] entries[i]).key <= key
    &&& forall|i: int| index <= i < entries.len() ==> (#[trigger] entries[i]).key > key
}

/// `index` is where the separators that are not smaller than `key` begin.
pub open spec fn is_separator_slot(entries: Seq<InternalEntry>, key: u64, index: int) -> bool {
    &&& 0 <= index <= entries.len()
    &&& forall|i: int| 0 <= i < index ==> (#[trigger] entries[i]).key < key
    &&& forall|i: int| index <= i < entries.len() ==> (#[trigger] entries[i]).key >= key
}

/// The child to the left of position `index`.
pub open spec fn child_before(first_child: u64, entries: Seq<InternalEntry>, index: int) -> u64 {
    if index == 0 {
        first_child
    } else {
        entries[index - 1].child_page_id
    }
}

/// The child that a search for `key` visits next.
pub open spec fn child_of(first_child: u64, entries: Seq<InternalEntry>, key: u64) -> u64 {
    child_before(first_child, entries, choose|i: int| is_upper_bound(entries, key, i))
}

/// The entry at position `i` of an internal page.
pub open spec fn internal_entry_at(bytes: Seq<u8>, i: int) -> InternalEntry {
    InternalEntry {
        key: crate::storage::codec::le_u64(bytes, 16 + 16 * i) as u64,
        child_page_id: crate::storage::codec::le_u64(bytes, 24 + 16 * i) as u64,
    }
}

/// The entries of an internal page.
pub open spec fn internal_entries(bytes: Seq<u8>) -> Seq<InternalEntry> {
    Seq::new(crate::index::leaf::node_len(bytes) as nat, |i: int| internal_entry_at(bytes, i))
}

/// There is only one upper bound.
pub proof fn lemma_child(first_child: u64, entries: Seq<InternalEntry>, key: u64, index: int)
    requires
        is_upper_bound(entries, key, index),
    ensures
        child_of(first_child, entries, key) == child_before(first_child, entries, index),
{
    let other = choose|i: int| is_upper_bound(entries, key, i);
    assert(is_upper_bound(entries, key, other));
    if other < index {
        assert(entries[other].key <= key);
    } else if index < other {
        assert(entries[index].key <= key);
    }
}

/// `new` is `entries` with a separator put before all separators that are not
/// smaller.
pub open spec fn is_separator_inserted(
    entries: Seq<InternalEntry>,
    entry: InternalEntry,
    new: Seq<InternalEntry>,
) -> bool {
    exists|i: int|
        0 <= i <= entries.len() && new == #[trigger] entries.insert(i, entry) && (internal_sorted(
            entries,
        ) ==> is_separator_slot(entries, entry.key, i))
}

/// Separators are in order if no key is smaller than the one before it.
pub proof fn law_separator_order_is_that_of_neighbours(entries: Seq<InternalEntry>)
    ensures
        internal_sorted(entries) <==> forall|i: int|
            #![trigger entries[i]]
            0 < i < entries.len() ==> entries[i - 1].key <= entries[i].key,
{
    if forall|i: int|
        #![trigger entries[i]]
        0 < i < entries.len() ==> entries[i - 1].key <= entries[i].key {
        assert forall|i: int, j: int| 0 <= i < j < entries.len() implies (
        #[trigger] entries[i]).key <= (#[trigger] entries[j]).key by {
            lemma_separator_neighbours(entries, i, j);
        }
    }
    if internal_sorted(entries) {
        assert forall|i: int|
            #![trigger entries[i]]
            0 < i < entries.len() implies entries[i - 1].key <= entries[i].key by {
            let a = entries[i - 1];
        }
    }
}

proof fn lemma_separator_neighbours(entries: Seq<InternalEntry>, i: int, j: int)
    requires
        0 <= i <= j < entries.len(),
        forall|k: int|
            #![trigger entries[k]]
            0 < k < entries.len() ==> entries[k - 1].key <= entries[k].key,
    ensures
        entries[i].key <= entries[j].key,
    decreases j - i,
{
    if i < j {
        lemma_separator_neighbours(entries, i, j - 1);
        assert(entries[j - 1].key <= entries[j].key);
    }
}

/// A search goes to the child right of the last separator that is not larger
/// than its key, or to the first child if there is none.
pub proof fn law_child(first_child: u64, entries: Seq<InternalEntry>, key: u64, last: int)
    requires
        internal_sorted(entries),
        -1 <= last < entries.len(),
        last >= 0 ==> entries[last].key <= key,
        last + 1 < entries.len() ==> entries[last + 1].key > key,
    ensures
        child_of(first_child, entries, key) == (if last < 0 {
            first_child
        } else {
            entries[last].child_page_id
        }),
{
    assert(is_upper_bound(entries, key, last + 1));
    lemma_child(first_child, entries, key, last + 1);
}

/// The child at a position is the first child, or the one of the separator just
/// before.
pub proof fn law_child_at_a_position(first_child: u64, entries: Seq<InternalEntry>, index: int)
    requires
        0 <= index <= entries.len(),
    ensures
        index == 0 ==> child_before(first_child, entries, index) == first_child,
        index > 0 ==> child_before(first_child, entries, index) == entries[index
            - 1].child_page_id,
{
}

/// An insertion adds one separator at one position, before every separator that
/// is not smaller, and keeps the others in their order.
pub proof fn law_insertion_adds_one_separator(
    entries: Seq<InternalEntry>,
    entry: InternalEntry,
    new: Seq<InternalEntry>,
) -> (at: int)
    requires
        is_separator_inserted(entries, entry, new),
    ensures
        new.len() == entries.len() + 1,
        0 <= at <= entries.len(),
        new[at] == entry,
        forall|i: int| 0 <= i < at ==> #[trigger] new[i] == entries[i],
        forall|i: int| at < i < new.len() ==> #[trigger] new[i] == entries[i - 1],
        internal_sorted(entries) ==> forall|i: int|
            0 <= i < entries.len() ==> ((#[trigger] entries[i]).key < entry.key <==> i < at),
{
    choose|i: int|
        0 <= i <= entries.len() && new == #[trigger] entries.insert(i, entry) && (internal_sorted(
            entries,
        ) ==> is_separator_slot(entries, entry.key, i))
}

/// Where an internal page keeps what: the number of separators at byte 4, and the
/// key and the child of separator `i` at bytes `16 + 16 i` and `24 + 16 i`.
pub proof fn law_internal_page_layout(bytes: Seq<u8>, i: int)
    ensures
        internal_entries(bytes).len() == crate::storage::codec::le_u32(bytes, 4),
        0 <= i < internal_entries(bytes).len() ==> internal_entries(bytes)[i].key
            == crate::storage::codec::le_u64(bytes, 16 + 16 * i) && internal_entries(
            bytes,
        )[i].child_page_id == crate::storage::codec::le_u64(bytes, 24 + 16 * i),
{
    crate::storage::codec::law_four_bytes_are_digits(bytes, 4);
    crate::storage::codec::law_four_bytes_are_digits(bytes, 16 + 16 * i);
    crate::storage::codec::law_four_bytes_are_digits(bytes, 20 + 16 * i);
    crate::storage::codec::law_four_bytes_are_digits(bytes, 24 + 16 * i);
    crate::storage::codec::law_four_bytes_are_digits(bytes, 28 + 16 * i);
}

/// A node is spelled by a page if each part of its header is at its place there,
/// and the page holds its separators.
pub proof fn law_internal_node_is_spelled_out(node: InternalPage, bytes: Seq<u8>)
    requires
        bytes.len() == 4096,
    ensures
        node.entries() == node.entries@,
        node.wf() <==> node.header.len == node.entries@.len() && node.entries@.len() <= 255,
        node.spelled_by(bytes) <==> {
            &&& node.header.node_type == bytes[0]
            &&& node.header._padding[0] == bytes[1]
            &&& node.header._padding[1] == bytes[2]
            &&& node.header._padding[2] == bytes[3]
            &&& node.header.len == crate::storage::codec::le_u32(bytes, 4)
            &&& node.header.first_child_page_id == crate::storage::codec::le_u64(bytes, 8)
            &&& node.entries@ == internal_entries(bytes)
        },
{
    let padding = node.header._padding@;
    if padding[0] == bytes[1] && padding[1] == bytes[2] && padding[2] == bytes[3] {
        assert(padding =~= bytes.subrange(1, 4));
    }
    if padding == bytes.subrange(1, 4) {
        assert(padding[0] == bytes.subrange(1, 4)[0]);
        assert(padding[1] == bytes.subrange(1, 4)[1]);
        assert(padding[2] == bytes.subrange(1, 4)[2]);
    }
}

/// A new separator takes over the keys from it up to the next separator, and
/// no others. Where its key is a separator already, it takes over none.
pub proof fn law_separator_takes_its_range(
    first_child: u64,
    entries: Seq<InternalEntry>,
    entry: InternalEntry,
    new: Seq<InternalEntry>,
    key: u64,
)
    requires
        internal_sorted(entries),
        is_separator_inserted(entries, entry, new),
    ensures
        child_of(first_child, new, key) == (if entry.key <= key && forall|i: int|
            0 <= i < entries.len() && (#[trigger] entries[i]).key <= key ==> entries[i].key
                < entry.key {
            entry.child_page_id
        } else {
            child_of(first_child, entries, key)
        }),
{
    let at = choose|i: int|
        0 <= i <= entries.len() && new == #[trigger] entries.insert(i, entry) && (internal_sorted(
            entries,
        ) ==> is_separator_slot(entries, entry.key, i));
    let index = lemma_upper_bound_exists(entries, key, entries.len() as int);
    lemma_child(first_child, entries, key, index);
    let new_index = if entry.key <= key {
        index + 1
    } else {
        index
    };
    assert(entry.key <= key ==> at <= index) by {
        if entry.key <= key && index < at {
            assert(entries[index].key > key);
            assert(entries[index].key < entry.key);
        }
    }
    assert(entry.key > key ==> index <= at) by {
        if entry.key > key && at < index {
            assert(entries[at].key <= key);
            assert(entries[at].key >= entry.key);
        }
    }
    assert(new[at] == entry);
    assert forall|i: int| 0 <= i < new_index implies (#[trigger] new[i]).key <= key by {
        if i < at {
            assert(new[i] == entries[i]);
        } else if i > at {
            assert(new[i] == entries[i - 1]);
        }
    }
    assert forall|i: int| new_index <= i < new.len() implies (#[trigger] new[i]).key > key by {
        if i < at {
            assert(new[i] == entries[i]);
        } else if i > at {
            assert(new[i] == entries[i - 1]);
        }
    }
    assert(is_upper_bound(new, key, new_index));
    lemma_child(first_child, new, key, new_index);
    if entry.key <= key {
        if at == index {
            assert forall|i: int|
                0 <= i < entries.len() && (#[trigger] entries[i]).key <= key implies entries[i].key
                < entry.key by {
                assert(i < index);
            }
        } else {
            assert(entries[at].key <= key && entries[at].key >= entry.key);
            assert(new[index] == entries[index - 1]);
        }
    } else if index > 0 {
        assert(new[index - 1] == entries[index - 1]);
    }
}

/// In order, the separators up to a key come before the others.
proof fn lemma_upper_bound_exists(entries: Seq<InternalEntry>, key: u64, upto: int) -> (index: int)
    requires
        internal_sorted(entries),
        0 <= upto <= entries.len(),
        forall|i: int| upto <= i < entries.len() ==> (#[trigger] entries[i]).key > key,
    ensures
        is_upper_bound(entries, key, index),
    decreases upto,
{
    if upto == 0 || entries[upto - 1].key <= key {
        upto
    } else {
        lemma_upper_bound_exists(entries, key, upto - 1)
    }
}

/// A page spells out one internal node only: what is read back from a page is
/// what was written to it.
pub proof fn law_internal_round_trip(written: InternalPage, read: InternalPage, bytes: Seq<u8>)
    requires
        written.spelled_by(bytes),
        read.spelled_by(bytes),
    ensures
        read.header == written.header,
        read.entries() == written.entries(),
{
    assert(read.header._padding =~= written.header._padding);
}

impl InternalPage {
    /// The entries of the node.
    pub open spec fn entries(self) -> Seq<InternalEntry> {
        self.entries@
    }

    /// The header counts the entries, and they fit into a page.
    pub open spec fn wf(self) -> bool {
        &&& self.header.len == self.entries().len()
        &&& self.entries().len() <= INTERNAL_CAPACITY
    }

    /// The node is what the page spells out.
    pub open spec fn spelled_by(self, bytes: Seq<u8>) -> bool {
        &&& self.header.node_type == bytes[0]
        &&& self.header._padding@ == bytes.subrange(1, 4)
        &&& self.header.len == crate::index::leaf::node_len(bytes)
        &&& self.header.first_child_page_id == crate::storage::codec::le_u64(bytes, 8)
        &&& self.entries() == internal_entries(bytes)
    }

    /// The number of separator keys.
    pub fn len(&self) -> (len: usize)
        ensures
            len == self.header.len,
    {
        self.header.len as usize
    }

    /// Whether the node has no room for another separator.
    pub fn is_full(&self) -> (full: bool)
        ensures
            full == (self.header.len == INTERNAL_CAPACITY),
    {
        self.len() == INTERNAL_CAPACITY
    }

    /// The child that a search for `key` visits next.
    pub fn child_for(&self, key: u64) -> (child: u64)
        requires
            self.wf(),
        ensures
            internal_sorted(self.entries()) ==> child == child_of(
                self.header.first_child_page_id,
                self.entries(),
                key,
            ),
            exists|i: int|
                0 <= i <= self.entries().len() && child == #[trigger] child_before(
                    self.header.first_child_page_id,
                    self.entries(),
                    i,
                ),
    {
        let mut low: usize = 0;
        let mut high: usize = self.entries.len();
        while low < high
            invariant
                low <= high <= self.entries@.len(),
                internal_sorted(self.entries@) ==> forall|i: int|
                    0 <= i < low ==> (#[trigger] self.entries@[i]).key <= key,
                internal_sorted(self.entries@) ==> forall|i: int|
                    high <= i < self.entries@.len() ==> (#[trigger] self.entries@[i]).key > key,
            decreases high - low,
        {
            let middle: usize = low + (high - low) / 2;
            if self.entries[middle].key <= key {
                low = middle + 1;
            } else {
                high = middle;
            }
        }
        let child: u64 = if low == 0 {
            self.header.first_child_page_id
        } else {
            self.entries[low - 1].child_page_id
        };
        proof {
            assert(child == child_before(
                self.header.first_child_page_id,
                self.entries(),
                low as int,
            ));
            if internal_sorted(self.entries()) {
                lemma_child(self.header.first_child_page_id, self.entries(), key, low as int);
            }
        }
        child
    }

    /// Inserts a separator and the child to its right before all separators
    /// that are not smaller. A full node refuses.
    pub fn insert(&mut self, key: u64, child_page_id: u64) -> (inserted: bool)
        requires
            old(self).wf(),
        ensures
            final(self).wf(),
            inserted == (old(self).entries().len() < INTERNAL_CAPACITY),
            !inserted ==> *final(self) == *old(self),
            inserted ==> is_separator_inserted(
                old(self).entries(),
                InternalEntry { key, child_page_id },
                final(self).entries(),
            ),
            final(self).header == (InternalHeader {
                len: final(self).entries().len() as u32,
                ..old(self).header
            }),
            internal_sorted(old(self).entries()) ==> internal_sorted(final(self).entries()),
    {
        if self.is_full() {
            return false;
        }
        let mut low: usize = 0;
        let mut high: usize = self.entries.len();
        while low < high
            invariant
                low <= high <= self.entries@.len(),
                *self == *old(self),
                internal_sorted(self.entries@) ==> forall|i: int|
                    0 <= i < low ==> (#[trigger] self.entries@[i]).key < key,
                internal_sorted(self.entries@) ==> forall|i: int|
                    high <= i < self.entries@.len() ==> (#[trigger] self.entries@[i]).key >= key,
            decreases high - low,
        {
            let middle: usize = low + (high - low) / 2;
            if self.entries[middle].key < key {
                low = middle + 1;
            } else {
                high = middle;
            }
        }
        self.entries.insert(low, InternalEntry { key, child_page_id });
        self.header.len = self.header.len + 1;
        assert(self.entries() == old(self).entries().insert(
            low as int,
            InternalEntry { key, child_page_id },
        ));
        true
    }

    /// Reads an internal node out of its page.
    pub fn from_page(page: &PageData) -> (node: InternalPage)
        requires
            crate::index::leaf::node_len(page.bytes()) <= INTERNAL_CAPACITY,
        ensures
            node.wf(),
            node.spelled_by(page.bytes()),
    {
        let len: u32 = page.read_u32(4);
        let header = InternalHeader {
            node_type: page.data[0],
            _padding: [page.data[1], page.data[2], page.data[3]],
            len,
            first_child_page_id: page.read_u64(8),
        };
        let mut entries: Vec<InternalEntry> = Vec::new();
        let mut i: usize = 0;
        while i < len as usize
            invariant
                i <= len <= INTERNAL_CAPACITY,
                len == crate::index::leaf::node_len(page.bytes()),
                entries@.len() == i,
                forall|j: int|
                    0 <= j < i ==> #[trigger] entries@[j] == internal_entry_at(page.bytes(), j),
            decreases len - i,
        {
            let key: u64 = page.read_u64(16 + 16 * i);
            let child_page_id: u64 = page.read_u64(24 + 16 * i);
            entries.push(InternalEntry { key, child_page_id });
            i = i + 1;
        }
        assert(entries@ =~= internal_entries(page.bytes()));
        assert(header._padding@ =~= page.bytes().subrange(1, 4));
        InternalPage { header, entries }
    }

    /// Writes the node into its page. The bytes behind the last entry stay as
    /// they are.
    pub fn write_to(&self, page: &mut PageData)
        requires
            self.wf(),
        ensures
            self.spelled_by(final(page).bytes()),
            crate::storage::codec::same_outside(
                old(page).bytes(),
                final(page).bytes(),
                0,
                16 + 16 * self.entries().len() as int,
            ),
    {
        page.data[0] = self.header.node_type;
        page.data[1] = self.header._padding[0];
        page.data[2] = self.header._padding[1];
        page.data[3] = self.header._padding[2];
        page.write_u32(4, self.header.len);
        page.write_u64(8, self.header.first_child_page_id);
        assert(self.header._padding@ =~= page.bytes().subrange(1, 4));
        let mut i: usize = 0;
        while i < self.entries.len()
            invariant
                self.wf(),
                i <= self.entries@.len(),
                page.bytes()[0] == self.header.node_type,
                page.bytes().subrange(1, 4) == self.header._padding@,
                crate::index::leaf::node_len(page.bytes()) == self.header.len,
                crate::storage::codec::le_u64(page.bytes(), 8) == self.header.first_child_page_id,
                forall|j: int|
                    0 <= j < i ==> #[trigger] internal_entry_at(page.bytes(), j)
                        == self.entries@[j],
                crate::storage::codec::same_outside(
                    old(page).bytes(),
                    page.bytes(),
                    0,
                    16 + 16 * i,
                ),
            decreases self.entries@.len() - i,
        {
            let ghost before = page.bytes();
            let entry: InternalEntry = self.entries[i];
            page.write_u64(16 + 16 * i, entry.key);
            page.write_u64(24 + 16 * i, entry.child_page_id);
            proof {
                let after = page.bytes();
                assert(crate::storage::codec::same_outside(before, after, 16 + 16 * i, 32 + 16 * i));
                assert(after.subrange(1, 4) =~= before.subrange(1, 4));
                assert forall|j: int| 0 <= j < i + 1 implies #[trigger] internal_entry_at(after, j)
                    == self.entries@[j] by {
                    if j < i {
                        assert(internal_entry_at(before, j) == self.entries@[j]);
                    }
                }
            }
            i = i + 1;
        }
        assert(internal_entries(page.bytes()) =~= self.entries());
    }

    /// Turns a page into an internal node with one child and no separator.
    pub fn init(page: &mut PageData, first_child_page_id: u64) -> (node: InternalPage)
        ensures
            node.wf(),
            node.header.node_type == NODE_INTERNAL,
            node.header._padding@ == seq![0u8, 0u8, 0u8],
            node.header.first_child_page_id == first_child_page_id,
            node.entries() == Seq::<InternalEntry>::empty(),
            node.spelled_by(final(page).bytes()),
            crate::storage::codec::same_outside(old(page).bytes(), final(page).bytes(), 0, 16),
    {
        let node = InternalPage {
            header: InternalHeader {
                node_type: NODE_INTERNAL,
                _padding: [0, 0, 0],
                len: 0,
                first_child_page_id,
            },
            entries: Vec::new(),
        };
        assert(node.header._padding@ =~= seq![0u8, 0u8, 0u8]);
        node.write_to(page);
        node
    }
}

} // verus!
