//! The buffer pool: which frame holds which page, and who may use it.
//!
//! The pool decides; it does not wait and does no input or output. A fetch of
//! a page therefore runs in passes. Each operation here is one indivisible
//! step, and between two steps of one thread any number of steps of other
//! threads may happen. Where a step answers that a page has to be read or
//! written, the caller does so without holding up the other threads and
//! reports back.

use crate::error::StorageError;
use crate::hash_map::ConcurrentHashMap;
use crate::storage::arena::PageArena;
use crate::storage::clock::ClockReplacer;
use crate::storage::disk::{DiskManager, PageTransfer, MAX_FILE_PAGE};
use crate::storage::page::{
    clear_writeback, frame_state, is_dirty, pack_state, set_writeback, FrameMeta, PinResult,
    FRAME_FREE, FRAME_LOADING, FRAME_READY, INVALID_PAGE_ID,
};
use crate::storage::pool_state::{
    ClaimStep, FetchStep, LoadStep, PoolState, ReserveStep, VictimStep, WaitStep, PAGE_WAIT_SHARDS,
};
use crate::storage::PAGE_SIZE;
use std::collections::HashSet;
use vstd::prelude::*;

verus! {

broadcast use vstd::std_specs::hash::group_hash_axioms;

/// The pages of one shard that are being loaded, and a count of the changes
/// for which threads of this shard wait.
pub struct PageWaitShard {
    pub loading_pages: HashSet<u64>,
    pub changed: u64,
}

impl PageWaitShard {
    /// A shard without loads.
    pub fn new() -> (shard: PageWaitShard)
        ensures
            shard.loading_pages@ == Set::<u64>::empty(),
            shard.changed == 0,
    {
        PageWaitShard { loading_pages: HashSet::new(), changed: 0 }
    }
}

/// A pool of frames that hold pages.
pub struct BufferPool {
    disk: DiskManager,
    arena: PageArena,
    metadata: Vec<FrameMeta>,
    free_frames: Vec<usize>,
    page_table: ConcurrentHashMap,
    replacer: ClockReplacer,
    page_waiters: Vec<PageWaitShard>,
}

impl View for BufferPool {
    type V = PoolState;

    closed spec fn view(&self) -> PoolState {
        PoolState {
            frames: self.metadata@,
            free: self.free_frames@,
            table: self.page_table@,
            capacity: self.page_table.capacity(),
            hand: self.replacer.hand(),
            loading: self.page_waiters@.map_values(|s: PageWaitShard| s.loading_pages@),
            changes: self.page_waiters@.map_values(|s: PageWaitShard| s.changed),
            next_page: self.disk.next(),
        }
    }
}

impl BufferPool {
    /// The parts of the pool are sound, each for itself.
    pub closed spec fn parts_wf(self) -> bool {
        &&& self.page_table.wf()
        &&& self.arena.wf()
        &&& self.arena.frames() == self.metadata@.len()
        &&& self.metadata@.len() * PAGE_SIZE <= usize::MAX
    }

    /// The invariant of the pool's representation.
    pub open spec fn wf(self) -> bool {
        self.parts_wf() && self@.valid()
    }

    /// A pool of `frame_count` frames, all of them free.
    pub fn new(disk: DiskManager, frame_count: usize) -> (result: Result<Self, StorageError>)
        requires
            frame_count * PAGE_SIZE <= usize::MAX,
        ensures
            result is Err <==> frame_count == 0,
            result matches Err(error) ==> error == StorageError::NoFrames,
            result matches Ok(pool) ==> pool.wf() && pool@ == PoolState::initial(
                frame_count as nat,
                pool@.capacity,
                disk.next(),
            ) && pool@.capacity >= 2 * frame_count && exists|groups: nat|
                pool@.capacity == 16 * groups && #[trigger] crate::hash_map::is_group_count(
                    groups,
                    frame_count as int,
                ) && crate::storage::pool_laws::pool_inv(pool@),
    {
        if frame_count == 0 {
            return Err(StorageError::NoFrames);
        }
        let arena: PageArena = PageArena::new(frame_count);
        let mut metadata: Vec<FrameMeta> = Vec::new();
        while metadata.len() < frame_count
            invariant
                metadata@.len() <= frame_count,
                forall|i: int|
                    0 <= i < metadata@.len() ==> #[trigger] metadata@[i] == FrameMeta::spec_empty(),
            decreases frame_count - metadata@.len(),
        {
            metadata.push(FrameMeta::empty());
        }
        // Stored from the back, so that frames are used in ascending order.
        let mut free_frames: Vec<usize> = Vec::new();
        while free_frames.len() < frame_count
            invariant
                free_frames@.len() <= frame_count,
                forall|i: int|
                    0 <= i < free_frames@.len() ==> #[trigger] free_frames@[i] == frame_count - 1
                        - i,
            decreases frame_count - free_frames@.len(),
        {
            let next: usize = frame_count - 1 - free_frames.len();
            free_frames.push(next);
        }
        let mut page_waiters: Vec<PageWaitShard> = Vec::new();
        while page_waiters.len() < PAGE_WAIT_SHARDS
            invariant
                page_waiters@.len() <= PAGE_WAIT_SHARDS,
                forall|i: int|
                    0 <= i < page_waiters@.len() ==> (
                    #[trigger] page_waiters@[i]).loading_pages@ == Set::<u64>::empty()
                        && page_waiters@[i].changed == 0,
            decreases PAGE_WAIT_SHARDS - page_waiters@.len(),
        {
            page_waiters.push(PageWaitShard::new());
        }
        let pool = BufferPool {
            disk,
            arena,
            metadata,
            free_frames,
            page_table: ConcurrentHashMap::new(frame_count),
            replacer: ClockReplacer::new(),
            page_waiters,
        };
        assert(pool@ =~= PoolState::initial(frame_count as nat, pool@.capacity, disk.next()));
        assert(crate::hash_map::is_group_count(
            pool.page_table.group_count(),
            frame_count as int,
        ));
        proof {
            crate::storage::pool_laws::law_initial(
                frame_count as nat,
                pool@.capacity,
                disk.next(),
            );
        }
        Ok(pool)
    }

    /// The shard that takes care of a page.
    pub fn page_wait_shard(page_id: u64) -> (shard: usize)
        ensures
            shard == crate::storage::pool_state::shard_of(page_id),
            shard < PAGE_WAIT_SHARDS,
    {
        let hash: u64 = ConcurrentHashMap::hash(page_id);
        assert(hash & 63 == hash % 64) by (bit_vector);
        (hash & 63) as usize
    }

    /// How often the threads that wait in a shard were notified.
    pub fn shard_changes(&self, shard: usize) -> (count: u64)
        requires
            self.wf(),
            shard < PAGE_WAIT_SHARDS,
        ensures
            count == self@.changes[shard as int],
    {
        self.page_waiters[shard].changed
    }

    /// How often the threads that wait for a page's shard were notified.
    pub fn changes(&self, page_id: u64) -> (count: u64)
        requires
            self.wf(),
        ensures
            count == self@.changes[crate::storage::pool_state::shard_of(page_id)],
    {
        self.shard_changes(Self::page_wait_shard(page_id))
    }

    fn set_frame(&mut self, frame_id: usize, frame: FrameMeta)
        requires
            old(self).wf(),
            frame_id < old(self)@.frames.len(),
        ensures
            final(self).wf(),
            final(self)@ == old(self)@.with_frame(frame_id as int, frame),
    {
        self.metadata[frame_id] = frame;
        assert(self@ =~= old(self)@.with_frame(frame_id as int, frame));
    }

    fn notify(&mut self, page_id: u64)
        requires
            old(self).wf(),
        ensures
            final(self).wf(),
            final(self)@ == old(self)@.notified(page_id),
    {
        let shard: usize = Self::page_wait_shard(page_id);
        let count: u64 = self.page_waiters[shard].changed;
        self.page_waiters[shard].changed = count.wrapping_add(1);
        assert(self@ =~= old(self)@.notified(page_id));
    }

    fn begin_loading(&mut self, page_id: u64) -> (fresh: bool)
        requires
            old(self).wf(),
        ensures
            final(self).wf(),
            fresh == !old(self)@.is_loading(page_id),
            final(self)@ == (if fresh {
                old(self)@.load_begun(page_id)
            } else {
                old(self)@
            }),
    {
        let shard: usize = Self::page_wait_shard(page_id);
        let fresh: bool = self.page_waiters[shard].loading_pages.insert(page_id);
        proof {
            if fresh {
                assert(self@ =~= old(self)@.load_begun(page_id));
            } else {
                assert(old(self)@.loading[shard as int].insert(page_id) =~= old(
                    self
                )@.loading[shard as int]);
                assert(self@ =~= old(self)@);
            }
        }
        fresh
    }

    fn end_loading(&mut self, page_id: u64)
        requires
            old(self).wf(),
        ensures
            final(self).wf(),
            final(self)@ == old(self)@.load_ended(page_id),
    {
        let shard: usize = Self::page_wait_shard(page_id);
        self.page_waiters[shard].loading_pages.remove(&page_id);
        assert(self@ =~= old(self)@.load_ended(page_id));
    }

    fn push_free(&mut self, frame_id: usize)
        requires
            old(self).wf(),
            frame_id < old(self)@.frames.len(),
        ensures
            final(self).wf(),
            final(self)@ == (PoolState { free: old(self)@.free.push(frame_id), ..old(self)@ }),
    {
        self.free_frames.push(frame_id);
        assert(self@ =~= (PoolState { free: old(self)@.free.push(frame_id), ..old(self)@ }));
    }

    /// Tries to become the loader of a page. Only one thread at a time is, so
    /// that a page is never read into two frames.
    pub fn claim_page_load(&mut self, page_id: u64) -> (step: ClaimStep)
        requires
            old(self).wf(),
        ensures
            final(self).wf(),
            step == old(self)@.claim_step(page_id),
            final(self)@ == old(self)@.after_claim(page_id),
    {
        if self.page_table.get(page_id).is_some() {
            return ClaimStep::Present;
        }
        if self.begin_loading(page_id) {
            ClaimStep::Claimed
        } else {
            ClaimStep::Wait
        }
    }

    /// One pass of a fetch: pins the page if it is here, or else tries to
    /// become its loader.
    pub fn fetch_page(&mut self, page_id: u64) -> (step: Result<FetchStep, StorageError>)
        requires
            old(self).wf(),
        ensures
            final(self).wf(),
            step == old(self)@.fetch_step(page_id),
            final(self)@ == old(self)@.after_fetch(page_id),
    {
        if let Some(frame_id) = self.page_table.get(page_id) {
            if frame_id >= self.metadata.len() {
                return Err(StorageError::BadFrameId);
            }
            let mut frame: FrameMeta = self.metadata[frame_id];
            return match frame.try_pin(page_id) {
                Err(error) => Err(error),
                Ok(PinResult::Busy) => Ok(FetchStep::Busy(frame_id)),
                Ok(PinResult::Stale) => Ok(FetchStep::Retry),
                Ok(PinResult::Pinned) => {
                    self.set_frame(frame_id, frame);
                    Ok(FetchStep::Pinned(frame_id))
                },
            };
        }
        match self.claim_page_load(page_id) {
            ClaimStep::Claimed => Ok(FetchStep::Load),
            ClaimStep::Wait => Ok(FetchStep::Loading),
            ClaimStep::Present => Ok(FetchStep::Retry),
        }
    }

    /// Gives back one pin of a page.
    pub fn unpin_page(&mut self, page_id: u64, is_dirty: bool) -> (result: Result<
        (),
        StorageError,
    >)
        requires
            old(self).wf(),
        ensures
            final(self).wf(),
            result == old(self)@.unpin_result(page_id),
            final(self)@ == old(self)@.after_unpin(page_id, is_dirty),
    {
        match self.page_table.get(page_id) {
            None => Err(StorageError::PageNotCached),
            Some(frame_id) => {
                if frame_id >= self.metadata.len() {
                    return Err(StorageError::BadFrameId);
                }
                let mut frame: FrameMeta = self.metadata[frame_id];
                match frame.unpin(page_id, is_dirty) {
                    Err(error) => Err(error),
                    Ok(()) => {
                        self.set_frame(frame_id, frame);
                        Ok(())
                    },
                }
            },
        }
    }

    /// Looks for a frame that can be evicted and takes it.
    pub fn find_victim(&mut self) -> (result: Result<usize, StorageError>)
        requires
            old(self).wf(),
        ensures
            final(self).wf(),
            result == (match old(self)@.sweep().victim {
                Some(frame_id) => Ok(frame_id),
                None => Err(StorageError::NoVictim),
            }),
            final(self)@ == old(self)@.after_sweep(),
    {
        proof {
            crate::storage::clock::lemma_sweep_effect(
                self@.frames,
                self@.hand,
                crate::storage::clock::sweep_steps(self@.frames.len()),
            );
        }
        let victim: Option<usize> = self.replacer.find_victim(&mut self.metadata);
        assert(self@ =~= old(self)@.after_sweep());
        match victim {
            Some(frame_id) => Ok(frame_id),
            None => Err(StorageError::NoVictim),
        }
    }

    /// Separates a victim from its page, which is on disk by now, and gives
    /// the frame to the loader. Only now does the page leave the page table: as
    /// long as a write-back can fail, the page can still be found.
    pub fn detach_victim(&mut self, frame_id: usize, page_id: u64) -> (result: Result<
        (),
        StorageError,
    >)
        requires
            old(self).wf(),
            frame_id < old(self)@.frames.len(),
        ensures
            final(self).wf(),
            result == old(self)@.detach_result(frame_id, page_id),
            final(self)@ == old(self)@.after_detach(frame_id, page_id),
    {
        let removed: Option<usize> = self.page_table.remove(page_id);
        let mut frame: FrameMeta = self.metadata[frame_id];
        match removed {
            None => {
                proof {
                    self.page_table.lemma_len_bound();
                }
                let _ = self.page_table.insert(page_id, frame_id);
                frame.state_and_pin = pack_state(FRAME_READY, 0);
                assert(self@ =~= (PoolState { table: self@.table, ..old(self)@ }));
                self.set_frame(frame_id, frame);
                self.notify(page_id);
                Err(StorageError::TableMismatch)
            },
            Some(other_frame_id) => {
                if other_frame_id != frame_id {
                    proof {
                        self.page_table.lemma_len_bound();
                        old(self).page_table.lemma_len_bound();
                    }
                    let _ = self.page_table.insert(page_id, other_frame_id);
                    assert(self@ =~= old(self)@);
                    self.set_frame(frame_id, FrameMeta::empty());
                    self.push_free(frame_id);
                    self.notify(page_id);
                    return Err(StorageError::TableMismatch);
                }
                assert(self@ =~= (PoolState { table: self@.table, ..old(self)@ }));
                frame.page_id = INVALID_PAGE_ID;
                frame.usage_count = 0;
                frame.flags = 0;
                frame.state_and_pin = pack_state(FRAME_LOADING, 1);
                self.set_frame(frame_id, frame);
                self.notify(page_id);
                Ok(())
            },
        }
    }

    /// Makes a victim ready again after its page could not be written. The
    /// frame stays dirty: the disk does not have its content.
    pub fn restore_victim(&mut self, frame_id: usize, page_id: u64)
        requires
            old(self).wf(),
            frame_id < old(self)@.frames.len(),
        ensures
            final(self).wf(),
            final(self)@ == old(self)@.after_writeback_failure(frame_id as int, page_id),
    {
        let mut frame: FrameMeta = self.metadata[frame_id];
        frame.flags = clear_writeback(frame.flags);
        frame.state_and_pin = pack_state(FRAME_READY, 0);
        self.set_frame(frame_id, frame);
        self.notify(page_id);
    }

    /// Prepares a frame that the evictor has taken: a clean frame goes to the
    /// loader at once, a dirty one has to be written back first.
    pub fn prepare_victim(&mut self, frame_id: usize) -> (step: Result<VictimStep, StorageError>)
        requires
            old(self).wf(),
            frame_id < old(self)@.frames.len(),
        ensures
            final(self).wf(),
            step == old(self)@.prepare_step(frame_id),
            final(self)@ == old(self)@.after_prepare(frame_id),
    {
        let mut frame: FrameMeta = self.metadata[frame_id];
        let old_page_id: u64 = frame.page_id;
        if old_page_id == INVALID_PAGE_ID {
            return Err(StorageError::VictimHasNoPage);
        }
        if is_dirty(frame.flags) {
            frame.flags = set_writeback(frame.flags);
            self.set_frame(frame_id, frame);
            return Ok(VictimStep::WriteBack(old_page_id));
        }
        match self.detach_victim(frame_id, old_page_id) {
            Ok(()) => Ok(VictimStep::Ready),
            Err(error) => Err(error),
        }
    }

    /// Finds a frame for a new page: a free one if there is one, or else a
    /// victim of the clock.
    pub fn reserve_frame(&mut self) -> (step: Result<ReserveStep, StorageError>)
        requires
            old(self).wf(),
        ensures
            final(self).wf(),
            step == old(self)@.reserve_step(),
            final(self)@ == old(self)@.after_reserve(),
    {
        if let Some(frame_id) = self.free_frames.pop() {
            proof {
                assert(self.free_frames@ =~= old(self)@.free.drop_last());
                assert(frame_id == old(self)@.free[old(self)@.free.len() - 1]);
                assert forall|i: int| 0 <= i < self@.free.len() implies #[trigger] self@.free[i]
                    < self@.frames.len() by {
                    assert(self@.free[i] == old(self)@.free[i]);
                }
                assert(self@ =~= (PoolState { free: old(self)@.free.drop_last(), ..old(self)@ }));
            }
            let mut frame: FrameMeta = self.metadata[frame_id];
            if frame.state_and_pin != pack_state(FRAME_FREE, 0) {
                return Err(StorageError::FreeListFrameInUse);
            }
            frame.state_and_pin = pack_state(FRAME_LOADING, 1);
            self.set_frame(frame_id, frame);
            return Ok(ReserveStep::Ready(frame_id));
        }
        assert(self@ =~= old(self)@);
        proof {
            crate::storage::clock::lemma_sweep_effect(
                self@.frames,
                self@.hand,
                crate::storage::clock::sweep_steps(self@.frames.len()),
            );
        }
        let victim: usize = match self.find_victim() {
            Ok(frame_id) => frame_id,
            Err(error) => {
                return Err(error);
            },
        };
        match self.prepare_victim(victim) {
            Err(error) => Err(error),
            Ok(VictimStep::Ready) => Ok(ReserveStep::Ready(victim)),
            Ok(VictimStep::WriteBack(page_id)) => Ok(ReserveStep::WriteBack(victim, page_id)),
        }
    }

    /// Takes back the registration of a load, so that somebody else can try.
    pub fn finish_page_load_failure(&mut self, page_id: u64)
        requires
            old(self).wf(),
        ensures
            final(self).wf(),
            final(self)@ == old(self)@.after_load_failure(page_id),
    {
        self.end_loading(page_id);
        self.notify(page_id);
    }

    /// Puts a loader's frame back on the free list.
    pub fn release_loading_frame(&mut self, frame_id: usize)
        requires
            old(self).wf(),
            frame_id < old(self)@.frames.len(),
        ensures
            final(self).wf(),
            final(self)@ == old(self)@.after_release(frame_id),
    {
        self.set_frame(frame_id, FrameMeta::empty());
        self.push_free(frame_id);
        assert(self@ =~= old(self)@.after_release(frame_id));
    }

    /// Enters the page into the loader's frame, before it is read.
    fn begin_read(&mut self, page_id: u64, frame_id: usize)
        requires
            old(self).wf(),
            frame_id < old(self)@.frames.len(),
        ensures
            final(self).wf(),
            final(self)@ == old(self)@.after_read_begun(page_id, frame_id as int),
    {
        let mut frame: FrameMeta = self.metadata[frame_id];
        frame.page_id = page_id;
        frame.usage_count = 0;
        frame.flags = 0;
        self.set_frame(frame_id, frame);
    }

    /// Starts to load a page whose loader the caller is.
    pub fn load_page(&mut self, page_id: u64) -> (step: Result<LoadStep, StorageError>)
        requires
            old(self).wf(),
        ensures
            final(self).wf(),
            step == old(self)@.load_step(),
            final(self)@ == old(self)@.after_load(page_id),
    {
        proof {
            crate::storage::clock::lemma_sweep_effect(
                self@.frames,
                self@.hand,
                crate::storage::clock::sweep_steps(self@.frames.len()),
            );
        }
        match self.reserve_frame() {
            Err(error) => {
                self.finish_page_load_failure(page_id);
                Err(error)
            },
            Ok(ReserveStep::Ready(frame_id)) => {
                self.begin_read(page_id, frame_id);
                Ok(LoadStep::Read(frame_id))
            },
            Ok(ReserveStep::WriteBack(frame_id, victim_page_id)) => Ok(
                LoadStep::WriteBack(frame_id, victim_page_id),
            ),
        }
    }

    /// Goes on with a load after the victim's page was written back.
    pub fn victim_written(&mut self, page_id: u64, frame_id: usize, victim_page_id: u64) -> (step:
        Result<LoadStep, StorageError>)
        requires
            old(self).wf(),
            frame_id < old(self)@.frames.len(),
        ensures
            final(self).wf(),
            step == (match old(self)@.detach_result(frame_id, victim_page_id) {
                Ok(_) => Ok(LoadStep::Read(frame_id)),
                Err(error) => Err(error),
            }),
            final(self)@ == old(self)@.after_victim_written(page_id, frame_id, victim_page_id),
    {
        match self.detach_victim(frame_id, victim_page_id) {
            Err(error) => {
                self.finish_page_load_failure(page_id);
                Err(error)
            },
            Ok(()) => {
                self.begin_read(page_id, frame_id);
                Ok(LoadStep::Read(frame_id))
            },
        }
    }

    /// Gives up a load because the victim's page could not be written back.
    pub fn victim_write_failed(&mut self, page_id: u64, frame_id: usize, victim_page_id: u64)
        requires
            old(self).wf(),
            frame_id < old(self)@.frames.len(),
        ensures
            final(self).wf(),
            final(self)@ == old(self)@.after_victim_write_failed(page_id, frame_id, victim_page_id),
    {
        self.restore_victim(frame_id, victim_page_id);
        self.finish_page_load_failure(page_id);
    }

    /// Makes a page that has been read known to all threads. The page enters
    /// the page table first, then its frame becomes ready, with the loader's
    /// pin on it.
    pub fn publish_loaded_page(&mut self, page_id: u64, frame_id: usize) -> (result: Result<
        (),
        StorageError,
    >)
        requires
            old(self).wf(),
            frame_id < old(self)@.frames.len(),
        ensures
            final(self).wf(),
            result == old(self)@.publish_result(page_id),
            final(self)@ == old(self)@.after_publish(page_id, frame_id),
    {
        let shard: usize = Self::page_wait_shard(page_id);
        if !self.page_waiters[shard].loading_pages.contains(&page_id) {
            return Err(StorageError::LoadOwnerLost);
        }
        if self.page_table.get(page_id).is_some() {
            self.end_loading(page_id);
            self.notify(page_id);
            return Err(StorageError::AlreadyPublished);
        }
        match self.page_table.insert(page_id, frame_id) {
            Ok(None) => {},
            Ok(Some(old_frame_id)) => {
                let _ = self.page_table.insert(page_id, old_frame_id);
                self.end_loading(page_id);
                self.notify(page_id);
                return Err(StorageError::DuplicatePage);
            },
            Err(()) => {
                assert(self@ =~= old(self)@);
                self.end_loading(page_id);
                self.notify(page_id);
                return Err(StorageError::TableFull);
            },
        }
        assert(self@ =~= (PoolState {
            table: old(self)@.table.insert(page_id, frame_id),
            ..old(self)@
        }));
        let mut frame: FrameMeta = self.metadata[frame_id];
        frame.usage_count = 1;
        frame.state_and_pin = pack_state(FRAME_READY, 1);
        self.set_frame(frame_id, frame);
        self.end_loading(page_id);
        self.notify(page_id);
        Ok(())
    }

    /// Finishes a load after the page was read into the loader's frame.
    pub fn page_read(&mut self, page_id: u64, frame_id: usize) -> (result: Result<
        (),
        StorageError,
    >)
        requires
            old(self).wf(),
            frame_id < old(self)@.frames.len(),
        ensures
            final(self).wf(),
            result == old(self)@.publish_result(page_id),
            final(self)@ == old(self)@.after_page_read(page_id, frame_id),
    {
        match self.publish_loaded_page(page_id, frame_id) {
            Ok(()) => Ok(()),
            Err(error) => {
                self.release_loading_frame(frame_id);
                Err(error)
            },
        }
    }

    /// Gives up a load because the page could not be read.
    pub fn page_read_failed(&mut self, page_id: u64, frame_id: usize)
        requires
            old(self).wf(),
            frame_id < old(self)@.frames.len(),
        ensures
            final(self).wf(),
            final(self)@ == old(self)@.after_page_read_failed(page_id, frame_id),
    {
        self.release_loading_frame(frame_id);
        self.finish_page_load_failure(page_id);
    }

    /// Whether a thread that found a page in a busy frame has to sleep.
    pub fn wait_for_frame_change(&self, page_id: u64, frame_id: usize) -> (step: Result<
        WaitStep,
        StorageError,
    >)
        requires
            self.wf(),
            frame_id < self@.frames.len(),
        ensures
            step == self@.wait_step(page_id, frame_id),
    {
        match self.page_table.get(page_id) {
            None => {
                return Ok(WaitStep::Changed);
            },
            Some(current) => {
                if current != frame_id {
                    return Ok(WaitStep::Changed);
                }
            },
        }
        let state: u32 = frame_state(self.metadata[frame_id].state_and_pin);
        if state == FRAME_READY {
            Ok(WaitStep::Changed)
        } else if state == FRAME_FREE {
            Err(StorageError::MappedFrameIsFree)
        } else {
            Ok(WaitStep::Sleep)
        }
    }

    /// Starts to read a page of the file.
    pub fn read_page(&self, page_id: u64) -> (transfer: PageTransfer)
        requires
            page_id <= MAX_FILE_PAGE,
        ensures
            transfer.wf(),
            transfer.page() == page_id,
            transfer.moved() == 0,
    {
        self.disk.read_page(page_id)
    }

    /// Starts to write a page of the file.
    pub fn write_page(&self, page_id: u64) -> (transfer: PageTransfer)
        requires
            page_id <= MAX_FILE_PAGE,
        ensures
            transfer.wf(),
            transfer.page() == page_id,
            transfer.moved() == 0,
    {
        self.disk.write_page(page_id)
    }

    /// The page id that the file gives out next.
    pub fn next_page_id(&self) -> (page_id: u64)
        ensures
            page_id == self@.next_page,
    {
        self.disk.next_page_id()
    }

    /// Gives out the id of a new page at the end of the file.
    pub fn allocate_page_id(&mut self) -> (page_id: u64)
        requires
            old(self).wf(),
            old(self)@.next_page < MAX_FILE_PAGE,
        ensures
            final(self).wf(),
            page_id == old(self)@.next_page,
            final(self)@ == (PoolState { next_page: (page_id + 1) as u64, ..old(self)@ }),
    {
        let page_id: u64 = self.disk.allocate_page();
        assert(self@ =~= (PoolState { next_page: (page_id + 1) as u64, ..old(self)@ }));
        page_id
    }

    /// The size that the file needs for the pages given out so far.
    pub fn file_len(&self) -> (len: u64)
        requires
            self.wf(),
            self@.next_page <= MAX_FILE_PAGE,
        ensures
            len == crate::storage::disk::page_start(self@.next_page as int),
    {
        self.disk.file_len()
    }

    /// The offset of a frame in the pool's memory region.
    pub fn frame_offset(&self, frame_id: usize) -> (offset: usize)
        requires
            self.wf(),
            frame_id < self@.frames.len(),
        ensures
            offset == crate::storage::arena::frame_start(frame_id as int),
            offset + PAGE_SIZE <= self@.frames.len() * PAGE_SIZE,
    {
        self.arena.frame_ptr(frame_id)
    }
}

} // verus!
