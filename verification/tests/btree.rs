use page_store::error::StorageError;
use page_store::index::btree::{
    page_is_ok, root_is_ok, BPlusTree, InsertStep, Release, SearchStep,
};
use page_store::index::internal::{InternalPage, INTERNAL_CAPACITY, NODE_INTERNAL};
use page_store::index::leaf::{LeafEntry, LeafPage, LEAF_CAPACITY, NODE_LEAF, SPLIT_INDEX};
use page_store::storage::page::{PageData, INVALID_PAGE_ID};
use std::collections::HashMap;

fn leaf_of(keys: &[u64]) -> LeafPage {
    let mut page = PageData::zeroed();
    let mut leaf = LeafPage::init(&mut page);
    for &key in keys {
        assert!(leaf.insert(key, key * 10));
    }
    leaf
}

fn keys_of(leaf: &LeafPage) -> Vec<u64> {
    (0..leaf.len()).map(|i| leaf.entry(i).key).collect()
}

/// Pages in memory, and the tree over them.
struct Forest {
    tree: BPlusTree,
    pages: HashMap<u64, PageData>,
    next_page_id: u64,
}

impl Forest {
    fn new() -> Forest {
        let mut root = PageData::zeroed();
        LeafPage::init(&mut root);
        let mut pages = HashMap::new();
        pages.insert(1, root);
        Forest { tree: BPlusTree::new(1), pages, next_page_id: 2 }
    }

    fn get(&self, key: u64) -> Result<Option<u64>, StorageError> {
        let mut search = self.tree.get(key);
        loop {
            let page = &self.pages[&search.page_id];
            assert!(page_is_ok(page));
            assert_eq!(
                search.release(),
                Release { page_id: search.page_id, is_dirty: false }
            );
            match search.step(page)? {
                SearchStep::Done(value) => return Ok(value),
                SearchStep::Descend(_) => {}
            }
        }
    }

    fn insert(&mut self, key: u64, value: u64) -> Result<InsertStep, StorageError> {
        let root = self.tree.root_page_id();
        let mut page = self.pages.remove(&root).unwrap();
        assert!(root_is_ok(&page));
        let step = self.tree.insert(&mut page, key, value);
        let release = self.tree.release_root(&step);
        match step {
            Ok(InsertStep::Split) => assert_eq!(release, None),
            _ => assert_eq!(
                release,
                Some(Release { page_id: root, is_dirty: step.is_ok() })
            ),
        }
        if step == Ok(InsertStep::Split) {
            let right_page_id = self.next_page_id;
            let new_root_page_id = self.next_page_id + 1;
            self.next_page_id += 2;
            let mut right = PageData::zeroed();
            let mut new_root = PageData::zeroed();
            let releases = self.tree.insert_split(
                &mut page,
                right_page_id,
                &mut right,
                new_root_page_id,
                &mut new_root,
                key,
                value,
            );
            assert_eq!(
                releases,
                [
                    Release { page_id: root, is_dirty: true },
                    Release { page_id: right_page_id, is_dirty: true },
                    Release { page_id: new_root_page_id, is_dirty: true },
                ]
            );
            self.pages.insert(right_page_id, right);
            self.pages.insert(new_root_page_id, new_root);
        }
        self.pages.insert(root, page);
        step
    }
}

#[test]
fn capacities_fill_a_page() {
    assert_eq!(LEAF_CAPACITY, (4096 - 16) / 16);
    assert_eq!(INTERNAL_CAPACITY, 255);
    assert_eq!(SPLIT_INDEX, 128);
}

#[test]
fn fresh_leaf_is_empty() {
    let mut page = PageData::zeroed();
    page.data[20] = 99;
    let leaf = LeafPage::init(&mut page);
    assert_eq!(leaf.len(), 0);
    assert!(leaf.is_empty());
    assert!(!leaf.is_full());
    assert_eq!(leaf.header.next_page_id, INVALID_PAGE_ID);
    assert_eq!(
        page.data[0..16],
        [1, 0, 0, 0, 0, 0, 0, 0, 255, 255, 255, 255, 255, 255, 255, 255]
    );
    assert_eq!(page.data[20], 99);
    assert_eq!(leaf.get(0), None);
}

#[test]
fn leaf_keeps_its_entries_in_order() {
    let leaf = leaf_of(&[30, 10, 20, 40]);
    assert_eq!(keys_of(&leaf), vec![10, 20, 30, 40]);
    assert_eq!(leaf.len(), 4);
    assert_eq!(leaf.get(30), Some(300));
    assert_eq!(leaf.get(35), None);
    assert_eq!(leaf.lower_bound(5), 0);
    assert_eq!(leaf.lower_bound(20), 1);
    assert_eq!(leaf.lower_bound(21), 2);
    assert_eq!(leaf.lower_bound(41), 4);
}

#[test]
fn equal_keys_go_to_the_front() {
    let mut leaf = leaf_of(&[10, 20]);
    assert!(leaf.insert(20, 7));
    assert_eq!(leaf.entry(1), LeafEntry { key: 20, value: 7 });
    assert_eq!(leaf.entry(2), LeafEntry { key: 20, value: 200 });
    assert_eq!(leaf.get(20), Some(7));
}

#[test]
fn full_leaf_refuses() {
    let keys: Vec<u64> = (0..255).collect();
    let mut leaf = leaf_of(&keys);
    assert!(leaf.is_full());
    assert!(!leaf.insert(1000, 1));
    assert_eq!(leaf.len(), 255);
    assert_eq!(leaf.get(1000), None);
}

#[test]
fn leaf_round_trip() {
    let mut leaf = leaf_of(&[3, 1, 2]);
    leaf.header.next_page_id = 77;
    let mut page = PageData::zeroed();
    leaf.write_to(&mut page);
    assert_eq!(page.data[0], NODE_LEAF);
    assert_eq!(page.read_u32(4), 3);
    assert_eq!(page.read_u64(8), 77);
    assert_eq!(page.read_u64(16), 1);
    assert_eq!(page.read_u64(24), 10);
    assert_eq!(page.read_u64(48), 3);
    assert_eq!(page.read_u64(56), 30);
    let read = LeafPage::from_page(&page);
    assert_eq!(read.header, leaf.header);
    assert_eq!(read.entries, leaf.entries);
}

#[test]
fn split_moves_the_upper_half() {
    let keys: Vec<u64> = (0..255).map(|i| i * 2).collect();
    let mut left = leaf_of(&keys);
    left.header.next_page_id = 9;
    let mut right = leaf_of(&[]);
    // The key belongs to the left half.
    assert_eq!(left.split_insert(&mut right, 5, 3, 33), 256);
    assert_eq!(left.len(), 129);
    assert_eq!(right.len(), 127);
    assert_eq!(left.get(3), Some(33));
    assert_eq!(left.header.next_page_id, 5);
    assert_eq!(right.header.next_page_id, 9);
    assert_eq!(right.entry(0).key, 256);

    let mut left = leaf_of(&keys);
    let mut right = leaf_of(&[]);
    // The key belongs to the right half.
    assert_eq!(left.split_insert(&mut right, 5, 257, 33), 256);
    assert_eq!(left.len(), 128);
    assert_eq!(right.len(), 128);
    assert_eq!(right.get(257), Some(33));
    for &key in &keys {
        let half = if key < 256 { &left } else { &right };
        assert_eq!(half.get(key), Some(key * 10));
    }
}

#[test]
fn key_between_the_halves_goes_left() {
    let keys: Vec<u64> = (0..255).map(|i| i * 2).collect();
    let mut left = leaf_of(&keys);
    let mut right = leaf_of(&[]);
    assert_eq!(left.split_insert(&mut right, 5, 255, 1), 256);
    assert_eq!(left.get(255), Some(1));
    assert_eq!(left.entry(128).key, 255);
}

#[test]
fn internal_node_leads_to_the_right_child() {
    let mut page = PageData::zeroed();
    let mut node = InternalPage::init(&mut page, 100);
    assert_eq!(page.data[0], NODE_INTERNAL);
    assert_eq!(page.read_u64(8), 100);
    assert_eq!(node.child_for(0), 100);
    assert!(node.insert(20, 102));
    assert!(node.insert(10, 101));
    assert_eq!(node.len(), 2);
    assert!(!node.is_full());
    assert_eq!(node.child_for(9), 100);
    assert_eq!(node.child_for(10), 101);
    assert_eq!(node.child_for(19), 101);
    assert_eq!(node.child_for(20), 102);
    assert_eq!(node.child_for(u64::MAX), 102);
}

#[test]
fn internal_round_trip() {
    let mut page = PageData::zeroed();
    let mut node = InternalPage::init(&mut page, 100);
    assert!(node.insert(10, 101));
    assert!(node.insert(20, 102));
    node.write_to(&mut page);
    assert_eq!(page.read_u32(4), 2);
    assert_eq!(page.read_u64(16), 10);
    assert_eq!(page.read_u64(24), 101);
    let read = InternalPage::from_page(&page);
    assert_eq!(read.header, node.header);
    assert_eq!(read.entries, node.entries);
}

#[test]
fn full_internal_node_refuses() {
    let mut page = PageData::zeroed();
    let mut node = InternalPage::init(&mut page, 0);
    for key in 0..255u64 {
        assert!(node.insert(key, key + 1));
    }
    assert!(node.is_full());
    assert!(!node.insert(300, 1));
    assert_eq!(node.len(), 255);
}

#[test]
fn tree_finds_what_was_inserted() {
    let mut forest = Forest::new();
    assert_eq!(forest.get(5), Ok(None));
    assert_eq!(forest.insert(5, 50), Ok(InsertStep::Inserted));
    assert_eq!(forest.insert(3, 30), Ok(InsertStep::Inserted));
    assert_eq!(forest.get(5), Ok(Some(50)));
    assert_eq!(forest.get(3), Ok(Some(30)));
    assert_eq!(forest.get(4), Ok(None));
}

#[test]
fn tree_refuses_a_key_that_it_has() {
    let mut forest = Forest::new();
    assert_eq!(forest.insert(5, 50), Ok(InsertStep::Inserted));
    assert_eq!(forest.insert(5, 51), Err(StorageError::DuplicateKey));
    assert_eq!(forest.get(5), Ok(Some(50)));
}

#[test]
fn root_split_loses_no_key() {
    let mut forest = Forest::new();
    for i in 0..255u64 {
        let key = (i * 97) % 255 * 2;
        assert_eq!(forest.insert(key, key + 1), Ok(InsertStep::Inserted));
    }
    assert_eq!(forest.insert(301, 302), Ok(InsertStep::Split));
    assert_eq!(forest.tree.root_page_id(), 3);
    assert_eq!(forest.pages[&3].data[0], NODE_INTERNAL);
    for i in 0..255u64 {
        assert_eq!(forest.get(i * 2), Ok(Some(i * 2 + 1)));
    }
    assert_eq!(forest.get(301), Ok(Some(302)));
    assert_eq!(forest.get(303), Ok(None));
    assert_eq!(forest.pages[&1].data[0..4], [1, 0, 0, 0]);
    assert_eq!(forest.pages[&2].data[0..4], [1, 0, 0, 0]);
    assert_eq!(forest.pages[&3].data[0..4], [2, 0, 0, 0]);
    // The left leaf points to the right one.
    assert_eq!(forest.pages[&1].read_u64(8), 2);
    assert_eq!(forest.pages[&2].read_u64(8), INVALID_PAGE_ID);
}

#[test]
fn full_tree_refuses_a_key_that_it_has() {
    let mut forest = Forest::new();
    for key in 0..255u64 {
        assert_eq!(forest.insert(key, key), Ok(InsertStep::Inserted));
    }
    assert_eq!(forest.insert(100, 0), Err(StorageError::DuplicateKey));
    assert_eq!(forest.tree.root_page_id(), 1);
}

#[test]
fn tree_of_two_levels_takes_no_more_keys() {
    let mut forest = Forest::new();
    for key in 0..256u64 {
        assert!(forest.insert(key, key).is_ok());
    }
    assert_eq!(forest.insert(1000, 0), Err(StorageError::MultiLevelInsert));
    assert_eq!(forest.get(1000), Ok(None));
}

#[test]
fn page_of_another_type_is_refused() {
    let mut forest = Forest::new();
    forest.pages.insert(1, PageData::zeroed());
    assert_eq!(forest.get(1), Err(StorageError::InvalidPageType));
    assert_eq!(forest.insert(1, 1), Err(StorageError::MultiLevelInsert));
}

#[test]
fn page_that_claims_too_much_is_not_ok() {
    let mut page = PageData::zeroed();
    LeafPage::init(&mut page);
    page.write_u32(4, 255);
    assert!(page_is_ok(&page));
    page.write_u32(4, 256);
    assert!(!page_is_ok(&page));
    page.data[0] = 9;
    assert!(page_is_ok(&page));
}

#[test]
fn root_that_is_no_leaf_is_refused_whatever_it_claims() {
    let mut page = PageData::zeroed();
    InternalPage::init(&mut page, 7);
    page.write_u32(4, 1000);
    assert!(root_is_ok(&page));
    assert!(!page_is_ok(&page));
    let mut tree = BPlusTree::new(1);
    let step = tree.insert(&mut page, 5, 50);
    assert_eq!(step, Err(StorageError::MultiLevelInsert));
    assert_eq!(page.read_u32(4), 1000);
    page.data[0] = NODE_LEAF;
    assert!(!root_is_ok(&page));
}

#[test]
fn separator_takes_the_keys_up_to_the_next_one() {
    let mut page = PageData::zeroed();
    let mut node = InternalPage::init(&mut page, 100);
    assert!(node.insert(10, 101));
    assert!(node.insert(30, 103));
    assert!(node.insert(20, 102));
    let children: Vec<u64> = [9, 10, 19, 20, 29, 30].iter().map(|&k| node.child_for(k)).collect();
    assert_eq!(children, vec![100, 101, 101, 102, 102, 103]);
    // A key that is a separator already keeps its child.
    assert!(node.insert(20, 999));
    let children: Vec<u64> = [9, 10, 19, 20, 29, 30].iter().map(|&k| node.child_for(k)).collect();
    assert_eq!(children, vec![100, 101, 101, 102, 102, 103]);
}
