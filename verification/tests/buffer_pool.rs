use page_store::error::StorageError;
use page_store::storage::buffer_pool::BufferPool;
use page_store::storage::disk::DiskManager;
use page_store::storage::pool_state::{
    ClaimStep, FetchStep, LoadStep, ReserveStep, VictimStep, WaitStep,
};
use std::collections::HashMap;

fn pool(frame_count: usize) -> BufferPool {
    match BufferPool::new(DiskManager::open(0), frame_count) {
        Ok(pool) => pool,
        Err(_) => panic!("the pool has frames"),
    }
}

/// A pool with its frames and a disk, both in memory. Every page holds one
/// number.
struct Store {
    pool: BufferPool,
    frames: Vec<u64>,
    disk: HashMap<u64, u64>,
    writes: usize,
}

impl Store {
    fn new(frame_count: usize) -> Store {
        Store {
            pool: pool(frame_count),
            frames: vec![0; frame_count],
            disk: HashMap::new(),
            writes: 0,
        }
    }

    fn fetch(&mut self, page_id: u64) -> Result<usize, StorageError> {
        match self.pool.fetch_page(page_id)? {
            FetchStep::Pinned(frame) => return Ok(frame),
            FetchStep::Load => {}
            _ => panic!("there is only one thread"),
        }
        let mut step = self.pool.load_page(page_id)?;
        if let LoadStep::WriteBack(frame, victim) = step {
            self.disk.insert(victim, self.frames[frame]);
            self.writes += 1;
            step = self.pool.victim_written(page_id, frame, victim)?;
        }
        match step {
            LoadStep::Read(frame) => {
                self.frames[frame] = *self.disk.get(&page_id).unwrap_or(&0);
                self.pool.page_read(page_id, frame)?;
                Ok(frame)
            }
            _ => panic!("one write-back is enough"),
        }
    }

    fn put(&mut self, page_id: u64, number: u64) {
        let frame = self.fetch(page_id).unwrap();
        self.frames[frame] = number;
        self.pool.unpin_page(page_id, true).unwrap();
    }

    fn read(&mut self, page_id: u64) -> u64 {
        let frame = self.fetch(page_id).unwrap();
        let number = self.frames[frame];
        self.pool.unpin_page(page_id, false).unwrap();
        number
    }
}

#[test]
fn pool_needs_a_frame() {
    match BufferPool::new(DiskManager::open(0), 0) {
        Err(error) => assert_eq!(error, StorageError::NoFrames),
        Ok(_) => panic!("a pool without frames"),
    }
}

#[test]
fn shard_is_the_low_bits_of_the_hash() {
    assert_eq!(BufferPool::page_wait_shard(0), 0);
    assert_eq!(BufferPool::page_wait_shard(1), 0x15);
    assert_eq!(BufferPool::page_wait_shard(2), 0x2a);
}

#[test]
fn frames_are_used_in_ascending_order() {
    let mut store = Store::new(3);
    assert_eq!(store.fetch(100), Ok(0));
    assert_eq!(store.fetch(200), Ok(1));
    assert_eq!(store.fetch(300), Ok(2));
    assert_eq!(store.pool.frame_offset(2), 8192);
}

#[test]
fn second_fetch_hits() {
    let mut store = Store::new(2);
    assert_eq!(store.fetch(100), Ok(0));
    assert_eq!(store.pool.fetch_page(100), Ok(FetchStep::Pinned(0)));
    assert_eq!(store.pool.unpin_page(100, false), Ok(()));
    assert_eq!(store.pool.unpin_page(100, false), Ok(()));
    assert_eq!(store.pool.unpin_page(100, false), Err(StorageError::NotPinned));
}

#[test]
fn concurrent_misses_of_a_page_are_merged() {
    let mut pool = pool(2);
    assert_eq!(pool.fetch_page(100), Ok(FetchStep::Load));
    // A second thread does not load the page again, before and while it is read.
    assert_eq!(pool.fetch_page(100), Ok(FetchStep::Loading));
    assert_eq!(pool.claim_page_load(100), ClaimStep::Wait);
    assert_eq!(pool.load_page(100), Ok(LoadStep::Read(0)));
    assert_eq!(pool.fetch_page(100), Ok(FetchStep::Loading));
    // A third thread loads another page meanwhile.
    assert_eq!(pool.fetch_page(200), Ok(FetchStep::Load));
    assert_eq!(pool.load_page(200), Ok(LoadStep::Read(1)));
    let before = pool.changes(100);
    assert_eq!(pool.shard_changes(BufferPool::page_wait_shard(100)), before);
    assert_eq!(pool.page_read(100, 0), Ok(()));
    assert_eq!(pool.changes(100), before + 1);
    assert_eq!(pool.claim_page_load(100), ClaimStep::Present);
    assert_eq!(pool.fetch_page(100), Ok(FetchStep::Pinned(0)));
    assert_eq!(pool.page_read(200, 1), Ok(()));
}

#[test]
fn pinned_frames_are_not_evicted() {
    let mut store = Store::new(2);
    assert_eq!(store.fetch(100), Ok(0));
    assert_eq!(store.fetch(200), Ok(1));
    assert_eq!(store.fetch(300), Err(StorageError::NoVictim));
    // The failed load leaves no trace.
    assert_eq!(store.pool.fetch_page(300), Ok(FetchStep::Load));
    assert_eq!(store.pool.unpin_page(200, false), Ok(()));
    assert_eq!(store.pool.load_page(300), Ok(LoadStep::Read(1)));
    assert_eq!(store.pool.page_read(300, 1), Ok(()));
    assert_eq!(store.pool.unpin_page(200, false), Err(StorageError::PageNotCached));
}

#[test]
fn contents_survive_eviction() {
    let mut store = Store::new(3);
    for page in 0..20u64 {
        store.put(page, 1000 + page);
    }
    for page in 0..20u64 {
        assert_eq!(store.read(page), 1000 + page);
    }
    store.put(7, 7);
    for page in 0..20u64 {
        let expected = if page == 7 { 7 } else { 1000 + page };
        assert_eq!(store.read(page), expected);
    }
}

#[test]
fn clean_pages_are_not_written() {
    let mut store = Store::new(2);
    for page in 0..10u64 {
        assert_eq!(store.read(page), 0);
    }
    assert_eq!(store.writes, 0);
    store.put(50, 5);
    for page in 0..10u64 {
        assert_eq!(store.read(page), 0);
    }
    assert_eq!(store.writes, 1);
    assert_eq!(store.disk.get(&50), Some(&5));
}

#[test]
fn reader_of_a_page_under_write_back_waits() {
    let mut store = Store::new(1);
    store.put(100, 1);
    assert_eq!(store.pool.fetch_page(200), Ok(FetchStep::Load));
    assert_eq!(store.pool.load_page(200), Ok(LoadStep::WriteBack(0, 100)));
    assert_eq!(store.pool.fetch_page(100), Ok(FetchStep::Busy(0)));
    assert_eq!(store.pool.wait_for_frame_change(100, 0), Ok(WaitStep::Sleep));
    let before = store.pool.changes(100);
    assert_eq!(store.pool.victim_written(200, 0, 100), Ok(LoadStep::Read(0)));
    assert_ne!(store.pool.changes(100), before);
    assert_eq!(store.pool.wait_for_frame_change(100, 0), Ok(WaitStep::Changed));
    assert_eq!(store.pool.fetch_page(100), Ok(FetchStep::Load));
    assert_eq!(store.pool.page_read(200, 0), Ok(()));
}

#[test]
fn failed_write_back_loses_nothing() {
    let mut store = Store::new(1);
    store.put(100, 1);
    assert_eq!(store.pool.fetch_page(200), Ok(FetchStep::Load));
    assert_eq!(store.pool.load_page(200), Ok(LoadStep::WriteBack(0, 100)));
    let waiting = store.pool.changes(100);
    store.pool.victim_write_failed(200, 0, 100);
    assert_ne!(store.pool.changes(100), waiting);
    // The page is still here, and it is still dirty.
    assert_eq!(store.pool.wait_for_frame_change(100, 0), Ok(WaitStep::Changed));
    assert_eq!(store.read(100), 1);
    assert_eq!(store.pool.fetch_page(200), Ok(FetchStep::Load));
    assert_eq!(store.pool.load_page(200), Ok(LoadStep::WriteBack(0, 100)));
}

#[test]
fn failed_read_gives_the_frame_back() {
    let mut pool = pool(1);
    assert_eq!(pool.fetch_page(100), Ok(FetchStep::Load));
    assert_eq!(pool.load_page(100), Ok(LoadStep::Read(0)));
    let waiting = pool.changes(100);
    pool.page_read_failed(100, 0);
    assert_ne!(pool.changes(100), waiting);
    assert_eq!(pool.fetch_page(100), Ok(FetchStep::Load));
    assert_eq!(pool.load_page(100), Ok(LoadStep::Read(0)));
    assert_eq!(pool.page_read(100, 0), Ok(()));
}

#[test]
fn page_used_often_stays_longer() {
    let mut store = Store::new(2);
    for _ in 0..3 {
        assert_eq!(store.read(1), 0);
    }
    assert_eq!(store.read(2), 0);
    // Page 2 has the lower usage count and goes first.
    assert_eq!(store.read(3), 0);
    assert_eq!(store.pool.fetch_page(1), Ok(FetchStep::Pinned(0)));
    assert_eq!(store.pool.fetch_page(2), Ok(FetchStep::Load));
}

#[test]
fn frame_can_be_reserved_step_by_step() {
    let mut store = Store::new(1);
    assert_eq!(store.fetch(100), Ok(0));
    assert_eq!(store.pool.find_victim(), Err(StorageError::NoVictim));
    assert_eq!(store.pool.unpin_page(100, true), Ok(()));
    assert_eq!(store.pool.find_victim(), Ok(0));
    assert_eq!(store.pool.prepare_victim(0), Ok(VictimStep::WriteBack(100)));
    store.pool.restore_victim(0, 100);
    assert_eq!(store.pool.reserve_frame(), Ok(ReserveStep::WriteBack(0, 100)));
    assert_eq!(store.pool.detach_victim(0, 100), Ok(()));
    store.pool.release_loading_frame(0);
    assert_eq!(store.pool.reserve_frame(), Ok(ReserveStep::Ready(0)));
}

#[test]
fn absent_page_cannot_be_unpinned() {
    let mut pool = pool(1);
    assert_eq!(pool.unpin_page(100, true), Err(StorageError::PageNotCached));
}

#[test]
fn frame_listed_twice_is_noticed() {
    let mut pool = pool(1);
    pool.release_loading_frame(0);
    assert_eq!(pool.reserve_frame(), Ok(ReserveStep::Ready(0)));
    assert_eq!(pool.reserve_frame(), Err(StorageError::FreeListFrameInUse));
}

#[test]
fn victim_without_a_page_is_noticed() {
    let mut pool = pool(1);
    assert_eq!(pool.prepare_victim(0), Err(StorageError::VictimHasNoPage));
}

#[test]
fn table_mismatch_is_noticed() {
    let mut store = Store::new(2);
    assert_eq!(store.pool.detach_victim(0, 100), Err(StorageError::TableMismatch));
    let mut other = Store::new(2);
    assert_eq!(other.fetch(100), Ok(0));
    assert_eq!(other.pool.detach_victim(1, 100), Err(StorageError::TableMismatch));
    // The mapping is as it was.
    assert_eq!(other.pool.fetch_page(100), Ok(FetchStep::Pinned(0)));
}

#[test]
fn publication_needs_a_registered_load() {
    let mut pool = pool(1);
    assert_eq!(pool.publish_loaded_page(100, 0), Err(StorageError::LoadOwnerLost));
}

#[test]
fn second_publication_is_refused() {
    let mut pool = pool(1);
    assert_eq!(pool.claim_page_load(100), ClaimStep::Claimed);
    assert_eq!(pool.detach_victim(0, 100), Err(StorageError::TableMismatch));
    assert_eq!(pool.publish_loaded_page(100, 0), Err(StorageError::AlreadyPublished));
}

#[test]
fn full_page_table_refuses_a_page() {
    let mut pool = pool(1);
    for page in 0..16u64 {
        assert_eq!(pool.claim_page_load(page), ClaimStep::Claimed);
        assert_eq!(pool.publish_loaded_page(page, 0), Ok(()));
    }
    assert_eq!(pool.claim_page_load(16), ClaimStep::Claimed);
    assert_eq!(pool.publish_loaded_page(16, 0), Err(StorageError::TableFull));
}

#[test]
fn mapped_free_frame_is_noticed_by_a_waiter() {
    let mut store = Store::new(1);
    assert_eq!(store.fetch(100), Ok(0));
    store.pool.release_loading_frame(0);
    assert_eq!(
        store.pool.wait_for_frame_change(100, 0),
        Err(StorageError::MappedFrameIsFree)
    );
    assert_eq!(store.pool.fetch_page(100), Ok(FetchStep::Retry));
    assert_eq!(store.pool.unpin_page(100, false), Err(StorageError::PageLeftFrame));
}

#[test]
fn new_pages_come_from_the_end_of_the_file() {
    let mut pool = match BufferPool::new(DiskManager::open(5 * 4096), 1) {
        Ok(pool) => pool,
        Err(_) => panic!("the pool has a frame"),
    };
    assert_eq!(pool.next_page_id(), 5);
    assert_eq!(pool.allocate_page_id(), 5);
    assert_eq!(pool.allocate_page_id(), 6);
    assert_eq!(pool.file_len(), 7 * 4096);
    assert_eq!(pool.read_page(6).offset(), 6 * 4096);
    assert_eq!(pool.write_page(6).remaining(), 4096);
}

#[test]
fn random_traffic_keeps_every_page() {
    let mut store = Store::new(5);
    let mut model: HashMap<u64, u64> = HashMap::new();
    let mut seed = 0x9876_5432_1fed_cba9u64;
    for step in 0..5_000u64 {
        seed ^= seed << 13;
        seed ^= seed >> 7;
        seed ^= seed << 17;
        let page = (seed >> 24) % 23;
        if seed % 2 == 0 {
            store.put(page, step);
            model.insert(page, step);
        } else {
            assert_eq!(store.read(page), *model.get(&page).unwrap_or(&0));
        }
    }
}

#[test]
fn nobody_else_loads_until_the_load_ends() {
    let mut pool = pool(2);
    assert_eq!(pool.fetch_page(100), Ok(FetchStep::Load));
    // Other pages come and go meanwhile.
    for page in 200..210u64 {
        assert_eq!(pool.fetch_page(page), Ok(FetchStep::Load));
        let frame = match pool.load_page(page) {
            Ok(LoadStep::Read(frame)) => frame,
            _ => panic!("no page is dirty"),
        };
        assert_eq!(pool.page_read(page, frame), Ok(()));
        assert_eq!(pool.unpin_page(page, false), Ok(()));
        assert_eq!(pool.fetch_page(100), Ok(FetchStep::Loading));
        assert_eq!(pool.claim_page_load(100), ClaimStep::Wait);
    }
    let frame = match pool.load_page(100) {
        Ok(LoadStep::Read(frame)) => frame,
        _ => panic!("no page is dirty"),
    };
    assert_eq!(pool.fetch_page(100), Ok(FetchStep::Loading));
    assert_eq!(pool.page_read(100, frame), Ok(()));
    assert_eq!(pool.fetch_page(100), Ok(FetchStep::Pinned(frame)));
}
