//! The leaves of the B+ tree.
//!
//! A leaf fills one page: sixteen bytes of header, then up to 255 entries of
//! sixteen bytes, ordered by key.
//!
//! ```text
//!  offset  0  node type
//!  offset  4  number of entries, four bytes
//!  offset  8  page id of the next leaf, eight bytes
//!  offset 16  key and value of entry 0, eight bytes each
//!  offset 32  key and value of entry 1, and so on
//! ```

use crate::storage::page::{PageData, INVALID_PAGE_ID};
use vstd::prelude::*;

verus! {

/// The node type of a leaf.
pub const NODE_LEAF: u8 = 1;

/// How many entries fit into a leaf.
pub const LEAF_CAPACITY: usize = 255;

/// How many entries stay in a leaf that is split.
pub const SPLIT_INDEX: usize = 128;

/// A key and its value.
#[derive(Clone, Copy, Debug, PartialEq, Eq, Structural)]
pub struct LeafEntry {
    pub key: u64,
    pub value: u64,
}

/// The start of a leaf page.
#[derive(Clone, Copy, Debug, PartialEq, Eq)]
pub struct LeafHeader {
    pub node_type: u8,
    pub _padding: [u8; 3],
    /// The number of entries.
    pub len: u32,
    pub next_page_id: u64,
}

/// A leaf.
pub struct LeafPage {
    pub header: LeafHeader,
    pub entries: Vec<LeafEntry>,
}

/// No key is smaller than the key before it.
pub open spec fn leaf_sorted(entries: Seq<LeafEntry>) -> bool {
    forall|i: int, j: int|
        0 <= i < j < entries.len() ==> (#[trigger] entries[i]).key <= (#[trigger] entries[j]).key
}

/// Every key is larger than the key before it.
pub open spec fn leaf_strict(entries: Seq<LeafEntry>) -> bool {
    forall|i: int, j: int|
        0 <= i < j < entries.len() ==> (#[trigger] entries[i]).key < (#[trigger] entries[j]).key
}

/// `index` is where the keys that are not smaller than `target` begin.
pub open spec fn is_lower_bound(entries: Seq<LeafEntry>, target: u64, index: int) -> bool {
    &&& 0 <= index <= entries.len()
    &&& forall|i: int| 0 <= i < index ==> (#[trigger] entries[i]).key < target
    &&& forall|i: int| index <= i < entries.len() ==> (#[trigger] entries[i]).key >= target
}

/// `index` is the first entry with the key.
pub open spec fn is_first_with(entries: Seq<LeafEntry>, key: u64, index: int) -> bool {
    &&& 0 <= index < entries.len()
    &&& entries[index].key == key
    &&& forall|i: int| 0 <= i < index ==> (#[trigger] entries[i]).key != key
}

/// Some entry has the key.
pub open spec fn leaf_has(entries: Seq<LeafEntry>, key: u64) -> bool {
    exists|i: int| 0 <= i < entries.len() && (#[trigger] entries[i]).key == key
}

/// The value of the first entry with the key.
pub open spec fn leaf_lookup(entries: Seq<LeafEntry>, key: u64) -> Option<u64> {
    if leaf_has(entries, key) {
        Some(entries[choose|i: int| is_first_with(entries, key, i)].value)
    } else {
        None
    }
}

/// `new` is `entries` with `entry` put before all entries whose key is not
/// smaller.
pub open spec fn is_inserted(
    entries: Seq<LeafEntry>,
    entry: LeafEntry,
    new: Seq<LeafEntry>,
) -> bool {
    exists|i: int|
        0 <= i <= entries.len() && new == #[trigger] entries.insert(i, entry) && (leaf_sorted(
            entries,
        ) ==> is_lower_bound(entries, entry.key, i))
}

/// The entries of a full leaf and one more entry, spread over two leaves.
pub open spec fn is_split(
    entries: Seq<LeafEntry>,
    entry: LeafEntry,
    left: Seq<LeafEntry>,
    right: Seq<LeafEntry>,
) -> bool {
    let low = entries.take(SPLIT_INDEX as int);
    let high = entries.skip(SPLIT_INDEX as int);
    if entry.key < high[0].key {
        is_inserted(low, entry, left) && right == high
    } else {
        left == low && is_inserted(high, entry, right)
    }
}

/// The entry at position `i` of a leaf page.
pub open spec fn leaf_entry_at(bytes: Seq<u8>, i: int) -> LeafEntry {
    LeafEntry {
        key: crate::storage::codec::le_u64(bytes, 16 + 16 * i) as u64,
        value: crate::storage::codec::le_u64(bytes, 24 + 16 * i) as u64,
    }
}

/// The number of entries in the header of a node page.
pub open spec fn node_len(bytes: Seq<u8>) -> int {
    crate::storage::codec::le_u32(bytes, 4)
}

/// The entries of a leaf page.
pub open spec fn leaf_entries(bytes: Seq<u8>) -> Seq<LeafEntry> {
    Seq::new(node_len(bytes) as nat, |i: int| leaf_entry_at(bytes, i))
}

/// The first entry with a key is the only one that `leaf_lookup` can pick.
pub proof fn lemma_lookup(entries: Seq<LeafEntry>, key: u64, index: int)
    requires
        is_first_with(entries, key, index),
    ensures
        leaf_lookup(entries, key) == Some(entries[index].value),
{
    let other = choose|i: int| is_first_with(entries, key, i);
    assert(is_first_with(entries, key, other));
    assert(entries[index].key == key);
    assert(entries[other].key == key);
    if other < index {
    } else if index < other {
    }
}

/// Where keys are unique, every entry can be looked up.
pub proof fn lemma_strict_lookup(entries: Seq<LeafEntry>, index: int)
    requires
        leaf_strict(entries),
        0 <= index < entries.len(),
    ensures
        leaf_lookup(entries, entries[index].key) == Some(entries[index].value),
{
    assert forall|i: int| 0 <= i < index implies (#[trigger] entries[i]).key
        != entries[index].key by {}
    lemma_lookup(entries, entries[index].key, index);
}

/// Order, told by neighbours: entries are in order if no key is smaller than the
/// one before it, and strictly so if every key is larger.
pub proof fn law_order_is_that_of_neighbours(entries: Seq<LeafEntry>)
    ensures
        leaf_sorted(entries) <==> forall|i: int|
            #![trigger entries[i]]
            0 < i < entries.len() ==> entries[i - 1].key <= entries[i].key,
        leaf_strict(entries) <==> forall|i: int|
            #![trigger entries[i]]
            0 < i < entries.len() ==> entries[i - 1].key < entries[i].key,
{
    if forall|i: int|
        #![trigger entries[i]]
        0 < i < entries.len() ==> entries[i - 1].key <= entries[i].key {
        assert forall|i: int, j: int| 0 <= i < j < entries.len() implies (
        #[trigger] entries[i]).key <= (#[trigger] entries[j]).key by {
            lemma_neighbours(entries, i, j);
        }
    }
    if forall|i: int|
        #![trigger entries[i]]
        0 < i < entries.len() ==> entries[i - 1].key < entries[i].key {
        assert forall|i: int, j: int| 0 <= i < j < entries.len() implies (
        #[trigger] entries[i]).key < (#[trigger] entries[j]).key by {
            lemma_neighbours(entries, i, j - 1);
            assert(entries[j - 1].key < entries[j].key);
        }
    }
    if leaf_sorted(entries) {
        assert forall|i: int|
            #![trigger entries[i]]
            0 < i < entries.len() implies entries[i - 1].key <= entries[i].key by {
            let a = entries[i - 1];
        }
    }
    if leaf_strict(entries) {
        assert forall|i: int|
            #![trigger entries[i]]
            0 < i < entries.len() implies entries[i - 1].key < entries[i].key by {
            let a = entries[i - 1];
        }
    }
}

proof fn lemma_neighbours(entries: Seq<LeafEntry>, i: int, j: int)
    requires
        0 <= i <= j < entries.len(),
        forall|k: int|
            #![trigger entries[k]]
            0 < k < entries.len() ==> entries[k - 1].key <= entries[k].key,
    ensures
        entries[i].key <= entries[j].key,
    decreases j - i,
{
    if i < j {
        lemma_neighbours(entries, i, j - 1);
        assert(entries[j - 1].key <= entries[j].key);
    }
}

/// A position divides the entries at a key if every key before it is smaller and
/// no key from it on is. Ordered entries have one such position for each key.
pub proof fn law_lower_bound(entries: Seq<LeafEntry>, target: u64, index: int, other: int)
    ensures
        is_lower_bound(entries, target, index) <==> 0 <= index <= entries.len() && forall|i: int|
            0 <= i < entries.len() ==> ((#[trigger] entries[i]).key < target <==> i < index),
        is_lower_bound(entries, target, index) && is_lower_bound(entries, target, other)
            ==> index == other,
{
    if is_lower_bound(entries, target, index) && is_lower_bound(entries, target, other) {
        if index < other {
            assert(entries[index].key < target);
        } else if other < index {
            assert(entries[other].key < target);
        }
    }
}

/// A lookup finds the value of some entry with the key, and no entry before that
/// one has the key; it finds nothing exactly if no entry has the key.
pub proof fn law_lookup(entries: Seq<LeafEntry>, key: u64, index: int)
    ensures
        leaf_lookup(entries, key) is None <==> forall|i: int|
            0 <= i < entries.len() ==> (#[trigger] entries[i]).key != key,
        leaf_has(entries, key) <==> leaf_lookup(entries, key) is Some,
        0 <= index < entries.len() && entries[index].key == key && (forall|i: int|
            0 <= i < index ==> (#[trigger] entries[i]).key != key) ==> leaf_lookup(entries, key)
            == Some(entries[index].value),
        is_first_with(entries, key, index) <==> 0 <= index < entries.len() && entries[index].key
            == key && forall|i: int| 0 <= i < index ==> (#[trigger] entries[i]).key != key,
{
    if is_first_with(entries, key, index) {
        lemma_lookup(entries, key, index);
        assert(leaf_has(entries, key));
    }
}

/// An insertion adds one entry at one position, before every entry whose key is
/// not smaller, and keeps the others in their order.
pub proof fn law_insertion_adds_one_entry(
    entries: Seq<LeafEntry>,
    entry: LeafEntry,
    new: Seq<LeafEntry>,
) -> (at: int)
    requires
        is_inserted(entries, entry, new),
    ensures
        new.len() == entries.len() + 1,
        0 <= at <= entries.len(),
        new[at] == entry,
        forall|i: int| 0 <= i < at ==> #[trigger] new[i] == entries[i],
        forall|i: int| at < i < new.len() ==> #[trigger] new[i] == entries[i - 1],
        leaf_sorted(entries) ==> forall|i: int|
            0 <= i < entries.len() ==> ((#[trigger] entries[i]).key < entry.key <==> i < at),
{
    choose|i: int|
        0 <= i <= entries.len() && new == #[trigger] entries.insert(i, entry) && (leaf_sorted(
            entries,
        ) ==> is_lower_bound(entries, entry.key, i))
}

/// A split of a full leaf puts the lower 128 entries to the left and the upper
/// 127 to the right, and the new entry to the side of the first right key to
/// which its own key belongs.
pub proof fn law_split_halves_the_leaf(
    entries: Seq<LeafEntry>,
    entry: LeafEntry,
    left: Seq<LeafEntry>,
    right: Seq<LeafEntry>,
)
    requires
        entries.len() == 255,
        is_split(entries, entry, left, right),
    ensures
        entry.key < entries[128].key ==> right == entries.subrange(128, 255) && is_inserted(
            entries.subrange(0, 128),
            entry,
            left,
        ),
        entry.key >= entries[128].key ==> left == entries.subrange(0, 128) && is_inserted(
            entries.subrange(128, 255),
            entry,
            right,
        ),
{
    assert(entries.take(128) =~= entries.subrange(0, 128));
    assert(entries.skip(128) =~= entries.subrange(128, 255));
}

/// Where a leaf page keeps what: the number of entries at byte 4, and the key and
/// the value of entry `i` at bytes `16 + 16 i` and `24 + 16 i`.
pub proof fn law_leaf_page_layout(bytes: Seq<u8>, i: int)
    ensures
        node_len(bytes) == crate::storage::codec::le_u32(bytes, 4),
        leaf_entries(bytes).len() == crate::storage::codec::le_u32(bytes, 4),
        0 <= i < leaf_entries(bytes).len() ==> leaf_entries(bytes)[i].key
            == crate::storage::codec::le_u64(bytes, 16 + 16 * i) && leaf_entries(bytes)[i].value
            == crate::storage::codec::le_u64(bytes, 24 + 16 * i),
{
    crate::storage::codec::law_four_bytes_are_digits(bytes, 4);
    crate::storage::codec::law_four_bytes_are_digits(bytes, 16 + 16 * i);
    crate::storage::codec::law_four_bytes_are_digits(bytes, 20 + 16 * i);
    crate::storage::codec::law_four_bytes_are_digits(bytes, 24 + 16 * i);
    crate::storage::codec::law_four_bytes_are_digits(bytes, 28 + 16 * i);
}

/// A leaf is spelled by a page if each part of its header is at its place there,
/// and the page holds its entries.
pub proof fn law_leaf_is_spelled_out(leaf: LeafPage, bytes: Seq<u8>)
    requires
        bytes.len() == 4096,
    ensures
        leaf.entries() == leaf.entries@,
        leaf.wf() <==> leaf.header.len == leaf.entries@.len() && leaf.entries@.len() <= 255,
        leaf.spelled_by(bytes) <==> {
            &&& leaf.header.node_type == bytes[0]
            &&& leaf.header._padding[0] == bytes[1]
            &&& leaf.header._padding[1] == bytes[2]
            &&& leaf.header._padding[2] == bytes[3]
            &&& leaf.header.len == crate::storage::codec::le_u32(bytes, 4)
            &&& leaf.header.next_page_id == crate::storage::codec::le_u64(bytes, 8)
            &&& leaf.entries@ == leaf_entries(bytes)
        },
{
    let padding = leaf.header._padding@;
    if padding[0] == bytes[1] && padding[1] == bytes[2] && padding[2] == bytes[3] {
        assert(padding =~= bytes.subrange(1, 4));
    }
    if padding == bytes.subrange(1, 4) {
        assert(padding[0] == bytes.subrange(1, 4)[0]);
        assert(padding[1] == bytes.subrange(1, 4)[1]);
        assert(padding[2] == bytes.subrange(1, 4)[2]);
    }
}

/// Inserting a fresh key into a leaf with unique keys makes the key known with
/// its value, leaves every other key as it was, and keeps the keys unique.
pub proof fn law_insert_lookup(
    entries: Seq<LeafEntry>,
    entry: LeafEntry,
    new: Seq<LeafEntry>,
    key: u64,
)
    requires
        leaf_strict(entries),
        !leaf_has(entries, entry.key),
        is_inserted(entries, entry, new),
    ensures
        leaf_strict(new),
        leaf_lookup(new, key) == (if key == entry.key {
            Some(entry.value)
        } else {
            leaf_lookup(entries, key)
        }),
{
    assert(leaf_sorted(entries));
    let at = choose|i: int|
        0 <= i <= entries.len() && new == #[trigger] entries.insert(i, entry) && (leaf_sorted(
            entries,
        ) ==> is_lower_bound(entries, entry.key, i));
    assert forall|i: int, j: int| 0 <= i < j < new.len() implies (#[trigger] new[i]).key < (
    #[trigger] new[j]).key by {
        let a = if i < at {
            i
        } else {
            i - 1
        };
        let b = if j < at {
            j
        } else {
            j - 1
        };
        if i != at {
            assert(new[i] == entries[a]);
        }
        if j != at {
            assert(new[j] == entries[b]);
            assert(entries[b].key != entry.key);
        }
    }
    assert(new[at] == entry);
    if key == entry.key {
        lemma_strict_lookup(new, at);
    } else if leaf_has(entries, key) {
        let i = choose|i: int| 0 <= i < entries.len() && (#[trigger] entries[i]).key == key;
        lemma_strict_lookup(entries, i);
        let j = if i < at {
            i
        } else {
            i + 1
        };
        assert(new[j] == entries[i]);
        lemma_strict_lookup(new, j);
    } else {
        assert(!leaf_has(new, key)) by {
            if leaf_has(new, key) {
                let j = choose|j: int| 0 <= j < new.len() && (#[trigger] new[j]).key == key;
                let i = if j < at {
                    j
                } else {
                    j - 1
                };
                assert(entries[i] == new[j]);
            }
        }
    }
}

/// Splitting a full leaf with unique keys loses no entry: the keys below the
/// first key of the right leaf are looked up in the left one, the others in
/// the right one, with the same results as before except for the new key.
pub proof fn law_split_lookup(
    entries: Seq<LeafEntry>,
    entry: LeafEntry,
    left: Seq<LeafEntry>,
    right: Seq<LeafEntry>,
    key: u64,
)
    requires
        entries.len() == LEAF_CAPACITY,
        leaf_strict(entries),
        !leaf_has(entries, entry.key),
        is_split(entries, entry, left, right),
    ensures
        leaf_strict(left),
        leaf_strict(right),
        right.len() > 0,
        left.len() + right.len() == LEAF_CAPACITY + 1,
        leaf_lookup(
            if key < right[0].key {
                left
            } else {
                right
            },
            key,
        ) == (if key == entry.key {
            Some(entry.value)
        } else {
            leaf_lookup(entries, key)
        }),
{
    let low = entries.take(SPLIT_INDEX as int);
    let high = entries.skip(SPLIT_INDEX as int);
    let first = entries[SPLIT_INDEX as int];
    assert(high[0] == first);
    assert(leaf_strict(low)) by {
        assert forall|i: int, j: int| 0 <= i < j < low.len() implies (#[trigger] low[i]).key < (
        #[trigger] low[j]).key by {
            assert(low[i] == entries[i] && low[j] == entries[j]);
        }
    }
    assert(leaf_strict(high)) by {
        assert forall|i: int, j: int| 0 <= i < j < high.len() implies (#[trigger] high[i]).key < (
        #[trigger] high[j]).key by {
            assert(high[i] == entries[i + SPLIT_INDEX] && high[j] == entries[j + SPLIT_INDEX]);
        }
    }
    assert forall|i: int| 0 <= i < low.len() implies (#[trigger] low[i]).key != entry.key by {
        assert(low[i] == entries[i]);
    }
    assert forall|i: int| 0 <= i < high.len() implies (#[trigger] high[i]).key != entry.key by {
        assert(high[i] == entries[i + SPLIT_INDEX]);
    }
    let part = if key < first.key {
        low
    } else {
        high
    };
    assert(leaf_lookup(part, key) == leaf_lookup(entries, key)) by {
        if leaf_has(entries, key) {
            let i = choose|i: int| 0 <= i < entries.len() && (#[trigger] entries[i]).key == key;
            lemma_strict_lookup(entries, i);
            if key < first.key {
                assert(i < SPLIT_INDEX);
                assert(low[i] == entries[i]);
                lemma_strict_lookup(low, i);
            } else {
                assert(i >= SPLIT_INDEX);
                assert(high[i - SPLIT_INDEX] == entries[i]);
                lemma_strict_lookup(high, i - SPLIT_INDEX);
            }
        } else {
            if leaf_has(part, key) {
                let i = choose|i: int| 0 <= i < part.len() && (#[trigger] part[i]).key == key;
                assert(part[i] == entries[if key < first.key {
                    i
                } else {
                    i + SPLIT_INDEX
                }]);
            }
        }
    }
    if entry.key < first.key {
        law_insert_lookup(low, entry, left, key);
    } else {
        law_insert_lookup(high, entry, right, key);
        assert(right[0].key == first.key) by {
            assert(leaf_sorted(high));
            let at = choose|i: int|
                0 <= i <= high.len() && right == #[trigger] high.insert(i, entry) && (leaf_sorted(
                    high,
                ) ==> is_lower_bound(high, entry.key, i));
            assert(high[0].key != entry.key);
            assert(at > 0);
        }
    }
}

/// A page spells out one leaf only: what is read back from a page is what was
/// written to it.
pub proof fn law_leaf_round_trip(written: LeafPage, read: LeafPage, bytes: Seq<u8>)
    requires
        written.spelled_by(bytes),
        read.spelled_by(bytes),
    ensures
        read.header == written.header,
        read.entries() == written.entries(),
{
    assert(read.header._padding =~= written.header._padding);
}

impl LeafPage {
    /// The entries of the leaf.
    pub open spec fn entries(self) -> Seq<LeafEntry> {
        self.entries@
    }

    /// The header counts the entries, and they fit into a page.
    pub open spec fn wf(self) -> bool {
        &&& self.header.len == self.entries().len()
        &&& self.entries().len() <= LEAF_CAPACITY
    }

    /// The leaf is what the page spells out.
    pub open spec fn spelled_by(self, bytes: Seq<u8>) -> bool {
        &&& self.header.node_type == bytes[0]
        &&& self.header._padding@ == bytes.subrange(1, 4)
        &&& self.header.len == node_len(bytes)
        &&& self.header.next_page_id == crate::storage::codec::le_u64(bytes, 8)
        &&& self.entries() == leaf_entries(bytes)
    }

    /// The number of entries.
    pub fn len(&self) -> (len: usize)
        ensures
            len == self.header.len,
    {
        self.header.len as usize
    }

    /// Whether the leaf has no entries.
    pub fn is_empty(&self) -> (empty: bool)
        ensures
            empty == (self.header.len == 0),
    {
        self.header.len == 0
    }

    /// Whether the leaf has no room for another entry.
    pub fn is_full(&self) -> (full: bool)
        ensures
            full == (self.header.len == LEAF_CAPACITY),
    {
        self.len() == LEAF_CAPACITY
    }

    /// The entry at a position.
    pub fn entry(&self, index: usize) -> (entry: LeafEntry)
        requires
            self.wf(),
            index < self.entries().len(),
        ensures
            entry == self.entries()[index as int],
    {
        self.entries[index]
    }

    /// Where the keys that are not smaller than `target` begin.
    pub fn lower_bound(&self, target: u64) -> (index: usize)
        requires
            self.wf(),
        ensures
            index <= self.entries().len(),
            leaf_sorted(self.entries()) ==> is_lower_bound(self.entries(), target, index as int),
    {
        let mut low: usize = 0;
        let mut high: usize = self.entries.len();
        while low < high
            invariant
                low <= high <= self.entries@.len(),
                leaf_sorted(self.entries@) ==> forall|i: int|
                    0 <= i < low ==> (#[trigger] self.entries@[i]).key < target,
                leaf_sorted(self.entries@) ==> forall|i: int|
                    high <= i < self.entries@.len() ==> (#[trigger] self.entries@[i]).key
                        >= target,
            decreases high - low,
        {
            let middle: usize = low + (high - low) / 2;
            if self.entries[middle].key < target {
                low = middle + 1;
            } else {
                high = middle;
            }
        }
        low
    }

    /// The value of a key.
    pub fn get(&self, key: u64) -> (value: Option<u64>)
        requires
            self.wf(),
        ensures
            leaf_sorted(self.entries()) ==> value == leaf_lookup(self.entries(), key),
            value matches Some(v) ==> exists|i: int|
                0 <= i < self.entries().len() && #[trigger] self.entries()[i] == (LeafEntry {
                    key,
                    value: v,
                }),
    {
        let index: usize = self.lower_bound(key);
        if index < self.entries.len() && self.entries[index].key == key {
            proof {
                if leaf_sorted(self.entries()) {
                    lemma_lookup(self.entries(), key, index as int);
                }
                let e = self.entries()[index as int];
                assert(e == LeafEntry { key, value: e.value });
            }
            Some(self.entries[index].value)
        } else {
            None
        }
    }

    /// Inserts an entry before all entries whose key is not smaller. A full
    /// leaf refuses.
    pub fn insert(&mut self, key: u64, value: u64) -> (inserted: bool)
        requires
            old(self).wf(),
        ensures
            final(self).wf(),
            inserted == (old(self).entries().len() < LEAF_CAPACITY),
            !inserted ==> *final(self) == *old(self),
            inserted ==> is_inserted(
                old(self).entries(),
                LeafEntry { key, value },
                final(self).entries(),
            ),
            final(self).header == (LeafHeader {
                len: final(self).entries().len() as u32,
                ..old(self).header
            }),
            leaf_sorted(old(self).entries()) ==> leaf_sorted(final(self).entries()),
    {
        if self.is_full() {
            return false;
        }
        let index: usize = self.lower_bound(key);
        self.entries.insert(index, LeafEntry { key, value });
        self.header.len = self.header.len + 1;
        assert(self.entries() == old(self).entries().insert(index as int, LeafEntry { key, value }));
        true
    }

    /// Reads a leaf out of its page.
    pub fn from_page(page: &PageData) -> (leaf: LeafPage)
        requires
            node_len(page.bytes()) <= LEAF_CAPACITY,
        ensures
            leaf.wf(),
            leaf.spelled_by(page.bytes()),
    {
        let len: u32 = page.read_u32(4);
        let header = LeafHeader {
            node_type: page.data[0],
            _padding: [page.data[1], page.data[2], page.data[3]],
            len,
            next_page_id: page.read_u64(8),
        };
        let mut entries: Vec<LeafEntry> = Vec::new();
        let mut i: usize = 0;
        while i < len as usize
            invariant
                i <= len <= LEAF_CAPACITY,
                len == node_len(page.bytes()),
                entries@.len() == i,
                forall|j: int|
                    0 <= j < i ==> #[trigger] entries@[j] == leaf_entry_at(page.bytes(), j),
            decreases len - i,
        {
            let key: u64 = page.read_u64(16 + 16 * i);
            let value: u64 = page.read_u64(24 + 16 * i);
            entries.push(LeafEntry { key, value });
            i = i + 1;
        }
        assert(entries@ =~= leaf_entries(page.bytes()));
        assert(header._padding@ =~= page.bytes().subrange(1, 4));
        LeafPage { header, entries }
    }

    /// Writes the leaf into its page. The bytes behind the last entry stay as
    /// they are.
    pub fn write_to(&self, page: &mut PageData)
        requires
            self.wf(),
        ensures
            self.spelled_by(final(page).bytes()),
            crate::storage::codec::same_outside(
                old(page).bytes(),
                final(page).bytes(),
                0,
                16 + 16 * self.entries().len() as int,
            ),
    {
        page.data[0] = self.header.node_type;
        page.data[1] = self.header._padding[0];
        page.data[2] = self.header._padding[1];
        page.data[3] = self.header._padding[2];
        page.write_u32(4, self.header.len);
        page.write_u64(8, self.header.next_page_id);
        assert(self.header._padding@ =~= page.bytes().subrange(1, 4));
        let mut i: usize = 0;
        while i < self.entries.len()
            invariant
                self.wf(),
                i <= self.entries@.len(),
                page.bytes()[0] == self.header.node_type,
                page.bytes().subrange(1, 4) == self.header._padding@,
                node_len(page.bytes()) == self.header.len,
                crate::storage::codec::le_u64(page.bytes(), 8) == self.header.next_page_id,
                forall|j: int|
                    0 <= j < i ==> #[trigger] leaf_entry_at(page.bytes(), j) == self.entries@[j],
                crate::storage::codec::same_outside(
                    old(page).bytes(),
                    page.bytes(),
                    0,
                    16 + 16 * i,
                ),
            decreases self.entries@.len() - i,
        {
            let ghost before = page.bytes();
            let entry: LeafEntry = self.entries[i];
            page.write_u64(16 + 16 * i, entry.key);
            page.write_u64(24 + 16 * i, entry.value);
            proof {
                let after = page.bytes();
                assert(crate::storage::codec::same_outside(before, after, 16 + 16 * i, 32 + 16 * i));
                assert(after.subrange(1, 4) =~= before.subrange(1, 4));
                assert forall|j: int| 0 <= j < i + 1 implies #[trigger] leaf_entry_at(after, j)
                    == self.entries@[j] by {
                    if j < i {
                        assert(leaf_entry_at(before, j) == self.entries@[j]);
                    }
                }
            }
            i = i + 1;
        }
        assert(leaf_entries(page.bytes()) =~= self.entries());
    }

    /// Turns a page into an empty leaf that is not linked to another.
    pub fn init(page: &mut PageData) -> (leaf: LeafPage)
        ensures
            leaf.wf(),
            leaf.header.node_type == NODE_LEAF,
            leaf.header._padding@ == seq![0u8, 0u8, 0u8],
            leaf.header.next_page_id == INVALID_PAGE_ID,
            leaf.entries() == Seq::<LeafEntry>::empty(),
            leaf.spelled_by(final(page).bytes()),
            crate::storage::codec::same_outside(old(page).bytes(), final(page).bytes(), 0, 16),
    {
        let leaf = LeafPage {
            header: LeafHeader {
                node_type: NODE_LEAF,
                _padding: [0, 0, 0],
                len: 0,
                next_page_id: INVALID_PAGE_ID,
            },
            entries: Vec::new(),
        };
        assert(leaf.header._padding@ =~= seq![0u8, 0u8, 0u8]);
        leaf.write_to(page);
        leaf
    }

    /// Splits a full leaf: the upper half of its entries moves to `right`,
    /// then the new entry goes into the half to which its key belongs. Returns
    /// the key that separates the halves, which is the first key of `right`.
    pub fn split_insert(
        &mut self,
        right: &mut LeafPage,
        right_page_id: u64,
        key: u64,
        value: u64,
    ) -> (separator: u64)
        requires
            old(self).wf(),
            old(right).wf(),
            old(self).entries().len() == LEAF_CAPACITY,
            old(right).entries().len() == 0,
        ensures
            final(self).wf(),
            final(right).wf(),
            final(self).header == (LeafHeader {
                len: final(self).entries().len() as u32,
                next_page_id: right_page_id,
                ..old(self).header
            }),
            final(right).header == (LeafHeader {
                len: final(right).entries().len() as u32,
                next_page_id: old(self).header.next_page_id,
                ..old(right).header
            }),
            is_split(
                old(self).entries(),
                LeafEntry { key, value },
                final(self).entries(),
                final(right).entries(),
            ),
            separator == final(right).entries()[0].key,
            leaf_sorted(old(self).entries()) ==> separator == old(self).entries()[SPLIT_INDEX as int].key
                && leaf_sorted(final(self).entries()) && leaf_sorted(final(right).entries()),
    {
        let ghost all = self.entries@;
        let mut i: usize = SPLIT_INDEX;
        while i < LEAF_CAPACITY
            invariant
                SPLIT_INDEX <= i <= LEAF_CAPACITY,
                self.entries@ == all,
                all.len() == LEAF_CAPACITY,
                right.entries@ == all.subrange(SPLIT_INDEX as int, i as int),
                right.header == old(right).header,
                self.header == old(self).header,
            decreases LEAF_CAPACITY - i,
        {
            right.entries.push(self.entries[i]);
            i = i + 1;
            assert(right.entries@ =~= all.subrange(SPLIT_INDEX as int, i as int));
        }
        self.entries.truncate(SPLIT_INDEX);
        self.header.len = SPLIT_INDEX as u32;
        right.header.len = (LEAF_CAPACITY - SPLIT_INDEX) as u32;
        right.header.next_page_id = self.header.next_page_id;
        self.header.next_page_id = right_page_id;
        assert(self.entries() =~= all.take(SPLIT_INDEX as int));
        assert(right.entries() =~= all.skip(SPLIT_INDEX as int));
        let separator: u64 = right.entries[0].key;
        if key < separator {
            self.insert(key, value);
        } else {
            right.insert(key, value);
        }
        right.entries[0].key
    }
}

} // verus!
