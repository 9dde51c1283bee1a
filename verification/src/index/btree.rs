//! The B+ tree.
//!
//! The tree itself only knows the page id of its root. Its pages belong to the
//! buffer pool, so a search and an insertion run in steps: the caller brings
//! the page that a step asks for, and the step says what to do next.

use crate::error::StorageError;
use crate::index::internal::{InternalEntry, InternalPage, NODE_INTERNAL};
use crate::index::leaf::{LeafEntry, LeafPage, LEAF_CAPACITY, NODE_LEAF};
use crate::storage::page::PageData;
use vstd::prelude::*;

verus! {

/// What a search does after it has seen a page.
#[derive(Clone, Copy, Debug, PartialEq, Eq, Structural)]
pub enum SearchStep {
    /// The search is over, with this result.
    Done(Option<u64>),
    /// The search goes on in the page with this id.
    Descend(u64),
}

/// How far an insertion has come after it has seen the root.
#[derive(Clone, Copy, Debug, PartialEq, Eq, Structural)]
pub enum InsertStep {
    /// The entry is in the root page, which has changed.
    Inserted,
    /// The root page is full and has not changed. Two fresh pages are needed.
    Split,
}

/// A page that a search or an insertion gives back, and whether it has changed
/// the page.
#[derive(Clone, Copy, Debug, PartialEq, Eq, Structural)]
pub struct Release {
    pub page_id: u64,
    pub is_dirty: bool,
}

/// A search on its way from the root to a leaf.
#[derive(Clone, Copy, Debug, PartialEq, Eq, Structural)]
pub struct TreeSearch {
    /// The page that the next step needs.
    pub page_id: u64,
    pub key: u64,
}

/// A B+ tree from keys to values.
pub struct BPlusTree {
    root_page_id: u64,
}

/// A page whose header does not claim more entries than fit.
pub open spec fn page_ok(bytes: Seq<u8>) -> bool {
    bytes[0] == NODE_LEAF || bytes[0] == NODE_INTERNAL ==> crate::index::leaf::node_len(bytes)
        <= LEAF_CAPACITY
}

/// A root that an insertion can look at: if it is a leaf, its header does not
/// claim more entries than fit.
pub open spec fn root_ok(bytes: Seq<u8>) -> bool {
    bytes[0] == NODE_LEAF ==> crate::index::leaf::node_len(bytes) <= LEAF_CAPACITY
}

/// A page whose entries are in order.
pub open spec fn page_sorted(bytes: Seq<u8>) -> bool {
    if bytes[0] == NODE_LEAF {
        crate::index::leaf::leaf_sorted(crate::index::leaf::leaf_entries(bytes))
    } else {
        crate::index::internal::internal_sorted(crate::index::internal::internal_entries(bytes))
    }
}

/// What a search for `key` finds in one page.
pub open spec fn search_page(bytes: Seq<u8>, key: u64) -> Result<SearchStep, StorageError> {
    if bytes[0] == NODE_LEAF {
        Ok(
            SearchStep::Done(
                crate::index::leaf::leaf_lookup(crate::index::leaf::leaf_entries(bytes), key),
            ),
        )
    } else if bytes[0] == NODE_INTERNAL {
        Ok(
            SearchStep::Descend(
                crate::index::internal::child_of(
                    crate::storage::codec::le_u64(bytes, 8) as u64,
                    crate::index::internal::internal_entries(bytes),
                    key,
                ),
            ),
        )
    } else {
        Err(StorageError::InvalidPageType)
    }
}

/// What a search for `key` that starts in page `page_id` ends with, if it ends
/// within `pages` pages.
pub open spec fn find(store: Map<u64, Seq<u8>>, page_id: u64, key: u64, pages: nat) -> Option<
    Result<Option<u64>, StorageError>,
>
    decreases pages,
{
    if pages == 0 {
        None
    } else {
        match search_page(store[page_id], key) {
            Err(error) => Some(Err(error)),
            Ok(SearchStep::Done(value)) => Some(Ok(value)),
            Ok(SearchStep::Descend(child)) => find(store, child, key, (pages - 1) as nat),
        }
    }
}

/// A leaf page that has taken in one more entry and is otherwise the same.
pub open spec fn leaf_page_inserted(old: Seq<u8>, new: Seq<u8>, entry: LeafEntry) -> bool {
    &&& new.len() == old.len()
    &&& new.subrange(0, 4) == old.subrange(0, 4)
    &&& new[0] == old[0]
    &&& crate::storage::codec::same_outside(
        old,
        new,
        0,
        16 + 16 * crate::index::leaf::node_len(new),
    )
    &&& crate::storage::codec::le_u64(new, 8) == crate::storage::codec::le_u64(old, 8)
    &&& crate::index::leaf::is_inserted(
        crate::index::leaf::leaf_entries(old),
        entry,
        crate::index::leaf::leaf_entries(new),
    )
}

/// A full root leaf that was split: its page and `right` are the two leaves,
/// `root` is the internal node above them.
pub open spec fn root_split(
    old: Seq<u8>,
    entry: LeafEntry,
    old_page_id: u64,
    left: Seq<u8>,
    right_page_id: u64,
    right: Seq<u8>,
    root: Seq<u8>,
) -> bool {
    let entries = crate::index::leaf::leaf_entries(old);
    &&& left.subrange(0, 4) == old.subrange(0, 4)
    &&& left[0] == old[0]
    &&& right.subrange(0, 4) == seq![NODE_LEAF, 0u8, 0u8, 0u8]
    &&& right[0] == NODE_LEAF
    &&& root.subrange(0, 4) == seq![NODE_INTERNAL, 0u8, 0u8, 0u8]
    &&& root[0] == NODE_INTERNAL
    &&& crate::index::leaf::is_split(
        entries,
        entry,
        crate::index::leaf::leaf_entries(left),
        crate::index::leaf::leaf_entries(right),
    )
    &&& crate::storage::codec::le_u64(left, 8) == right_page_id
    &&& crate::storage::codec::le_u64(right, 8) == crate::storage::codec::le_u64(old, 8)
    &&& crate::storage::codec::le_u64(root, 8) == old_page_id
    &&& crate::index::internal::internal_entries(root) == seq![
        InternalEntry {
            key: crate::index::leaf::leaf_entries(right)[0].key,
            child_page_id: right_page_id,
        },
    ]
}

/// Whether a page's header does not claim more entries than fit.
pub fn page_is_ok(page: &PageData) -> (ok: bool)
    ensures
        ok == page_ok(page.bytes()),
{
    let node_type: u8 = page.data[0];
    if node_type == NODE_LEAF || node_type == NODE_INTERNAL {
        page.read_u32(4) <= LEAF_CAPACITY as u32
    } else {
        true
    }
}

/// Whether an insertion can look at a root.
pub fn root_is_ok(page: &PageData) -> (ok: bool)
    ensures
        ok == root_ok(page.bytes()),
{
    page.data[0] != NODE_LEAF || page.read_u32(4) <= LEAF_CAPACITY as u32
}

impl TreeSearch {
    /// What the search does with the page that it asks for once a step has seen
    /// it: it gives the page back unchanged. Taken before that step.
    pub fn release(&self) -> (release: Release)
        ensures
            release == (Release { page_id: self.page_id, is_dirty: false }),
    {
        Release { page_id: self.page_id, is_dirty: false }
    }

    /// Goes on with the search in the page that it asked for.
    pub fn step(&mut self, page: &PageData) -> (step: Result<SearchStep, StorageError>)
        requires
            page_ok(page.bytes()),
        ensures
            page_sorted(page.bytes()) ==> step == search_page(page.bytes(), old(self).key),
            page.bytes()[0] == NODE_LEAF <==> step matches Ok(SearchStep::Done(_)),
            page.bytes()[0] == NODE_INTERNAL <==> step matches Ok(SearchStep::Descend(_)),
            step matches Err(error) ==> error == StorageError::InvalidPageType,
            final(self).key == old(self).key,
            final(self).page_id == (match step {
                Ok(SearchStep::Descend(child)) => child,
                _ => old(self).page_id,
            }),
    {
        let node_type: u8 = page.data[0];
        if node_type == NODE_LEAF {
            let leaf: LeafPage = LeafPage::from_page(page);
            Ok(SearchStep::Done(leaf.get(self.key)))
        } else if node_type == NODE_INTERNAL {
            let node: InternalPage = InternalPage::from_page(page);
            let child: u64 = node.child_for(self.key);
            self.page_id = child;
            Ok(SearchStep::Descend(child))
        } else {
            Err(StorageError::InvalidPageType)
        }
    }
}

impl BPlusTree {
    /// The page id of the root.
    pub closed spec fn root(self) -> u64 {
        self.root_page_id
    }

    /// A tree whose root is the given page.
    pub fn new(root_page_id: u64) -> (tree: BPlusTree)
        ensures
            tree.root() == root_page_id,
    {
        BPlusTree { root_page_id }
    }

    /// The page id of the root.
    pub fn root_page_id(&self) -> (id: u64)
        ensures
            id == self.root(),
    {
        self.root_page_id
    }

    /// Starts a search at the root.
    pub fn get(&self, key: u64) -> (search: TreeSearch)
        ensures
            search == (TreeSearch { page_id: self.root(), key }),
    {
        TreeSearch { page_id: self.root_page_id, key }
    }

    /// Inserts an entry into a root that is a leaf with room. Keys are unique.
    pub fn insert(&mut self, root: &mut PageData, key: u64, value: u64) -> (step: Result<
        InsertStep,
        StorageError,
    >)
        requires
            root_ok(old(root).bytes()),
        ensures
            final(self).root() == old(self).root(),
            old(root).bytes()[0] == NODE_LEAF ==> step is Ok || step == Err::<
                InsertStep,
                StorageError,
            >(StorageError::DuplicateKey),
            old(root).bytes()[0] != NODE_LEAF <==> step == Err::<InsertStep, StorageError>(
                StorageError::MultiLevelInsert,
            ),
            step != Ok::<InsertStep, StorageError>(InsertStep::Inserted) ==> *final(root) == *old(
                root,
            ),
            ({
                let entries = crate::index::leaf::leaf_entries(old(root).bytes());
                &&& old(root).bytes()[0] == NODE_LEAF && crate::index::leaf::leaf_sorted(entries)
                    ==> step == (if crate::index::leaf::leaf_has(entries, key) {
                    Err(StorageError::DuplicateKey)
                } else if entries.len() < LEAF_CAPACITY {
                    Ok(InsertStep::Inserted)
                } else {
                    Ok(InsertStep::Split)
                })
                &&& step == Err::<InsertStep, StorageError>(StorageError::DuplicateKey)
                    ==> crate::index::leaf::leaf_has(entries, key)
                &&& step == Ok::<InsertStep, StorageError>(InsertStep::Inserted) ==> entries.len()
                    < LEAF_CAPACITY && leaf_page_inserted(
                    old(root).bytes(),
                    final(root).bytes(),
                    LeafEntry { key, value },
                )
                &&& step == Ok::<InsertStep, StorageError>(InsertStep::Split) ==> entries.len()
                    == LEAF_CAPACITY
            }),
    {
        if root.data[0] != NODE_LEAF {
            return Err(StorageError::MultiLevelInsert);
        }
        let mut leaf: LeafPage = LeafPage::from_page(root);
        if leaf.get(key).is_some() {
            return Err(StorageError::DuplicateKey);
        }
        if leaf.is_full() {
            return Ok(InsertStep::Split);
        }
        leaf.insert(key, value);
        leaf.write_to(root);
        proof {
            lemma_header_start(old(root).bytes());
            lemma_header_start(root.bytes());
        }
        Ok(InsertStep::Inserted)
    }

    /// What an insertion that has come so far does with the root page: it gives
    /// the page back, dirty only if the entry is in it, or keeps it for a split.
    pub fn release_root(&self, step: &Result<InsertStep, StorageError>) -> (release: Option<
        Release,
    >)
        ensures
            release == (match *step {
                Ok(InsertStep::Split) => None,
                Ok(InsertStep::Inserted) => Some(
                    Release { page_id: self.root(), is_dirty: true },
                ),
                Err(_) => Some(Release { page_id: self.root(), is_dirty: false }),
            }),
    {
        match step {
            Ok(InsertStep::Split) => None,
            Ok(InsertStep::Inserted) => Some(
                Release { page_id: self.root_page_id, is_dirty: true },
            ),
            Err(_) => Some(Release { page_id: self.root_page_id, is_dirty: false }),
        }
    }

    /// Splits a full root leaf over itself and a fresh page, inserts an entry,
    /// and makes another fresh page the root above the two leaves. Returns the
    /// pages to give back, in order.
    pub fn insert_split(
        &mut self,
        old_root: &mut PageData,
        right_page_id: u64,
        right: &mut PageData,
        new_root_page_id: u64,
        new_root: &mut PageData,
        key: u64,
        value: u64,
    ) -> (releases: [Release; 3])
        requires
            old(old_root).bytes()[0] == NODE_LEAF,
            crate::index::leaf::node_len(old(old_root).bytes()) == LEAF_CAPACITY,
        ensures
            final(self).root() == new_root_page_id,
            releases@ == seq![
                Release { page_id: old(self).root(), is_dirty: true },
                Release { page_id: right_page_id, is_dirty: true },
                Release { page_id: new_root_page_id, is_dirty: true },
            ],
            root_split(
                old(old_root).bytes(),
                LeafEntry { key, value },
                old(self).root(),
                final(old_root).bytes(),
                right_page_id,
                final(right).bytes(),
                final(new_root).bytes(),
            ),
            crate::storage::codec::same_outside(
                old(old_root).bytes(),
                final(old_root).bytes(),
                0,
                16 + 16 * crate::index::leaf::node_len(final(old_root).bytes()),
            ),
            crate::storage::codec::same_outside(
                old(right).bytes(),
                final(right).bytes(),
                0,
                16 + 16 * crate::index::leaf::node_len(final(right).bytes()),
            ),
            crate::storage::codec::same_outside(
                old(new_root).bytes(),
                final(new_root).bytes(),
                0,
                32,
            ),
    {
        let mut left_leaf: LeafPage = LeafPage::from_page(old_root);
        let mut right_leaf: LeafPage = LeafPage::init(right);
        let separator: u64 = left_leaf.split_insert(&mut right_leaf, right_page_id, key, value);
        left_leaf.write_to(old_root);
        right_leaf.write_to(right);
        let mut node: InternalPage = InternalPage::init(new_root, self.root_page_id);
        node.insert(separator, right_page_id);
        node.write_to(new_root);
        let releases: [Release; 3] = [
            Release { page_id: self.root_page_id, is_dirty: true },
            Release { page_id: right_page_id, is_dirty: true },
            Release { page_id: new_root_page_id, is_dirty: true },
        ];
        self.root_page_id = new_root_page_id;
        proof {
            lemma_header_start(old(old_root).bytes());
            lemma_header_start(old_root.bytes());
            lemma_header_start(right.bytes());
            lemma_header_start(new_root.bytes());
            assert(seq![NODE_LEAF] + seq![0u8, 0u8, 0u8] =~= seq![NODE_LEAF, 0u8, 0u8, 0u8]);
            assert(seq![NODE_INTERNAL] + seq![0u8, 0u8, 0u8] =~= seq![
                NODE_INTERNAL,
                0u8,
                0u8,
                0u8,
            ]);
            assert(releases@ =~= seq![
                Release { page_id: old(self).root(), is_dirty: true },
                Release { page_id: right_page_id, is_dirty: true },
                Release { page_id: new_root_page_id, is_dirty: true },
            ]);
            assert(node.entries() =~= seq![
                InternalEntry { key: separator, child_page_id: right_page_id },
            ]);
        }
        releases
    }
}

/// The first four bytes of a page are its node type and the padding behind it.
proof fn lemma_header_start(bytes: Seq<u8>)
    requires
        bytes.len() >= 4,
    ensures
        bytes.subrange(0, 4) == seq![bytes[0]] + bytes.subrange(1, 4),
{
    assert(bytes.subrange(0, 4) =~= seq![bytes[0]] + bytes.subrange(1, 4));
}

/// A search that starts at a leaf ends there.
proof fn lemma_find_in_leaf(store: Map<u64, Seq<u8>>, page_id: u64, key: u64, pages: nat)
    requires
        pages > 0,
        store[page_id][0] == NODE_LEAF,
    ensures
        find(store, page_id, key, pages) == Some(
            Ok::<Option<u64>, StorageError>(
                crate::index::leaf::leaf_lookup(
                    crate::index::leaf::leaf_entries(store[page_id]),
                    key,
                ),
            ),
        ),
{
}

/// Which pages a search and an insertion can look at: the number of entries is
/// bounded in every node for a search, and in a leaf for an insertion.
pub proof fn law_pages_that_can_be_looked_at(bytes: Seq<u8>)
    ensures
        page_ok(bytes) <==> (bytes[0] != 1 && bytes[0] != 2) || crate::storage::codec::le_u32(
            bytes,
            4,
        ) <= 255,
        root_ok(bytes) <==> bytes[0] != 1 || crate::storage::codec::le_u32(bytes, 4) <= 255,
        bytes[0] == 1 ==> (page_sorted(bytes) <==> crate::index::leaf::leaf_sorted(
            crate::index::leaf::leaf_entries(bytes),
        )),
        bytes[0] != 1 ==> (page_sorted(bytes) <==> crate::index::internal::internal_sorted(
            crate::index::internal::internal_entries(bytes),
        )),
{
}

/// What a search does is decided by the first byte of the page: in a leaf it is
/// over, with the value of the key there if it has one; from an internal node it
/// goes to the child that the separators name; any other page is an error.
pub proof fn law_search_of_a_page(bytes: Seq<u8>, key: u64)
    ensures
        bytes[0] == 1 ==> search_page(bytes, key) == Ok::<SearchStep, StorageError>(
            SearchStep::Done(
                crate::index::leaf::leaf_lookup(crate::index::leaf::leaf_entries(bytes), key),
            ),
        ),
        bytes[0] == 2 ==> search_page(bytes, key) == Ok::<SearchStep, StorageError>(
            SearchStep::Descend(
                crate::index::internal::child_of(
                    crate::storage::codec::le_u64(bytes, 8) as u64,
                    crate::index::internal::internal_entries(bytes),
                    key,
                ),
            ),
        ),
        bytes[0] != 1 && bytes[0] != 2 ==> search_page(bytes, key) == Err::<
            SearchStep,
            StorageError,
        >(StorageError::InvalidPageType),
{
}

/// A search that may look at no page finds nothing out, and one that may look at
/// more pages than it needs answers the same.
pub proof fn law_more_pages_do_not_matter(
    store: Map<u64, Seq<u8>>,
    page_id: u64,
    key: u64,
    pages: nat,
)
    ensures
        find(store, page_id, key, 0) is None,
        find(store, page_id, key, pages) is Some ==> find(store, page_id, key, pages + 1) == find(
            store,
            page_id,
            key,
            pages,
        ),
    decreases pages,
{
    if pages > 0 {
        if let Ok(SearchStep::Descend(child)) = search_page(store[page_id], key) {
            law_more_pages_do_not_matter(store, child, key, (pages - 1) as nat);
        }
    }
}

/// An insertion into a leaf page leaves the first four bytes, the link to the
/// next leaf and everything behind the last entry as they were.
pub proof fn law_insertion_into_a_page(old: Seq<u8>, new: Seq<u8>, entry: LeafEntry, i: int)
    requires
        leaf_page_inserted(old, new, entry),
        old.len() == 4096,
    ensures
        new.len() == 4096,
        0 <= i < 4 ==> new[i] == old[i],
        crate::storage::codec::le_u64(new, 8) == crate::storage::codec::le_u64(old, 8),
        16 + 16 * crate::storage::codec::le_u32(new, 4) <= i < 4096 ==> new[i] == old[i],
        crate::storage::codec::le_u32(new, 4) == crate::storage::codec::le_u32(old, 4) + 1,
        crate::index::leaf::is_inserted(
            crate::index::leaf::leaf_entries(old),
            entry,
            crate::index::leaf::leaf_entries(new),
        ),
{
    crate::storage::codec::law_four_bytes_are_digits(old, 4);
    crate::storage::codec::law_four_bytes_are_digits(new, 4);
    let at = crate::index::leaf::law_insertion_adds_one_entry(
        crate::index::leaf::leaf_entries(old),
        entry,
        crate::index::leaf::leaf_entries(new),
    );
    if 0 <= i < 4 {
        assert(new.subrange(0, 4)[i] == old.subrange(0, 4)[i]);
    }
}

/// After a split of the root the old root page is the left leaf, linked to the
/// right one, which is linked to what the old root was linked to; and the new
/// root leads to both, divided by the first key of the right leaf.
pub proof fn law_shape_after_a_split(
    old: Seq<u8>,
    entry: LeafEntry,
    old_page_id: u64,
    left: Seq<u8>,
    right_page_id: u64,
    right: Seq<u8>,
    root: Seq<u8>,
)
    requires
        root_split(old, entry, old_page_id, left, right_page_id, right, root),
    ensures
        left[0] == old[0],
        right[0] == 1,
        root[0] == 2,
        crate::storage::codec::le_u64(left, 8) == right_page_id,
        crate::storage::codec::le_u64(right, 8) == crate::storage::codec::le_u64(old, 8),
        crate::storage::codec::le_u64(root, 8) == old_page_id,
        crate::index::internal::internal_entries(root).len() == 1,
        crate::index::internal::internal_entries(root)[0].key == crate::index::leaf::leaf_entries(
            right,
        )[0].key,
        crate::index::internal::internal_entries(root)[0].child_page_id == right_page_id,
        crate::index::leaf::is_split(
            crate::index::leaf::leaf_entries(old),
            entry,
            crate::index::leaf::leaf_entries(left),
            crate::index::leaf::leaf_entries(right),
        ),
{
}

/// Each step of a search keeps its answer: what is found from the page that the
/// search has come to is what is found from the page it came from.
pub proof fn law_step_keeps_the_answer(
    store: Map<u64, Seq<u8>>,
    search: TreeSearch,
    step: Result<SearchStep, StorageError>,
    pages: nat,
)
    requires
        pages > 0,
        step == search_page(store[search.page_id], search.key),
    ensures
        find(store, search.page_id, search.key, pages) == (match step {
            Err(error) => Some(Err(error)),
            Ok(SearchStep::Done(value)) => Some(Ok(value)),
            Ok(SearchStep::Descend(child)) => find(store, child, search.key, (pages - 1) as nat),
        }),
{
}

/// After an insertion into a root leaf the tree finds the new key with its
/// value, and every other key as before.
pub proof fn law_insert_then_find(
    store: Map<u64, Seq<u8>>,
    root: u64,
    new_page: Seq<u8>,
    entry: LeafEntry,
    key: u64,
    pages: nat,
)
    requires
        pages > 0,
        store[root][0] == NODE_LEAF,
        crate::index::leaf::leaf_strict(crate::index::leaf::leaf_entries(store[root])),
        !crate::index::leaf::leaf_has(crate::index::leaf::leaf_entries(store[root]), entry.key),
        leaf_page_inserted(store[root], new_page, entry),
    ensures
        crate::index::leaf::leaf_strict(crate::index::leaf::leaf_entries(new_page)),
        find(store.insert(root, new_page), root, key, pages) == (if key == entry.key {
            Some(Ok(Some(entry.value)))
        } else {
            find(store, root, key, pages)
        }),
{
    crate::index::leaf::law_insert_lookup(
        crate::index::leaf::leaf_entries(store[root]),
        entry,
        crate::index::leaf::leaf_entries(new_page),
        key,
    );
    lemma_find_in_leaf(store, root, key, pages);
    lemma_find_in_leaf(store.insert(root, new_page), root, key, pages);
}

/// After an insertion that splits the root leaf the tree, searched from its
/// new root, finds the new key with its value, and every other key as before.
pub proof fn law_split_then_find(
    store: Map<u64, Seq<u8>>,
    old_root: u64,
    left: Seq<u8>,
    right_page_id: u64,
    right: Seq<u8>,
    new_root_page_id: u64,
    new_root: Seq<u8>,
    entry: LeafEntry,
    key: u64,
    pages: nat,
)
    requires
        pages > 1,
        old_root != right_page_id,
        old_root != new_root_page_id,
        right_page_id != new_root_page_id,
        store[old_root][0] == NODE_LEAF,
        crate::index::leaf::node_len(store[old_root]) == LEAF_CAPACITY,
        crate::index::leaf::leaf_strict(crate::index::leaf::leaf_entries(store[old_root])),
        !crate::index::leaf::leaf_has(
            crate::index::leaf::leaf_entries(store[old_root]),
            entry.key,
        ),
        root_split(store[old_root], entry, old_root, left, right_page_id, right, new_root),
    ensures
        crate::index::leaf::leaf_strict(crate::index::leaf::leaf_entries(left)),
        crate::index::leaf::leaf_strict(crate::index::leaf::leaf_entries(right)),
        page_sorted(new_root),
        find(
            store.insert(old_root, left).insert(right_page_id, right).insert(
                new_root_page_id,
                new_root,
            ),
            new_root_page_id,
            key,
            pages,
        ) == (if key == entry.key {
            Some(Ok(Some(entry.value)))
        } else {
            find(store, old_root, key, pages)
        }),
{
    let after = store.insert(old_root, left).insert(right_page_id, right).insert(
        new_root_page_id,
        new_root,
    );
    let entries = crate::index::leaf::leaf_entries(store[old_root]);
    let left_entries = crate::index::leaf::leaf_entries(left);
    let right_entries = crate::index::leaf::leaf_entries(right);
    crate::index::leaf::law_split_lookup(entries, entry, left_entries, right_entries, key);
    lemma_find_in_leaf(store, old_root, key, pages);
    let separators = crate::index::internal::internal_entries(new_root);
    let separator = right_entries[0].key;
    assert(separators[0].key == separator);
    let index = if separator <= key {
        1int
    } else {
        0int
    };
    assert(crate::index::internal::is_upper_bound(separators, key, index));
    crate::index::internal::lemma_child(old_root, separators, key, index);
    let child = if separator <= key {
        right_page_id
    } else {
        old_root
    };
    assert(search_page(after[new_root_page_id], key) == Ok::<SearchStep, StorageError>(
        SearchStep::Descend(child),
    ));
    assert(find(after, new_root_page_id, key, pages) == find(
        after,
        child,
        key,
        (pages - 1) as nat,
    ));
    lemma_find_in_leaf(after, child, key, (pages - 1) as nat);
}

} // verus!
