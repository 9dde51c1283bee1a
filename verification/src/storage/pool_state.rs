//! The state of a buffer pool, and what each of its operations does to it.
//!
//! Nothing here is executed. The operations of the pool are stated over this
//! state, one function for each.

use crate::error::StorageError;
use crate::storage::clock::Sweep;
use crate::storage::page::{
    FrameMeta, PinResult, FRAME_FREE, FRAME_READY, INVALID_PAGE_ID,
};
use vstd::prelude::*;

verus! {

/// The number of shards over which waiting threads are spread.
pub const PAGE_WAIT_SHARDS: usize = 64;

/// How one pass of a fetch ends.
#[derive(Clone, Copy, Debug, PartialEq, Eq, Structural)]
pub enum FetchStep {
    /// The page is in this frame, and the caller holds a pin on it.
    Pinned(usize),
    /// The page is in this frame, which is being loaded or evicted. The caller
    /// waits for the frame and starts over.
    Busy(usize),
    /// The frame has changed hands. The caller starts over at once.
    Retry,
    /// The page is absent, and the caller has become the one who loads it.
    Load,
    /// The page is absent, and somebody else loads it. The caller waits and
    /// starts over.
    Loading,
}

/// How an attempt to become the loader of a page ends.
#[derive(Clone, Copy, Debug, PartialEq, Eq, Structural)]
pub enum ClaimStep {
    /// The page has appeared meanwhile.
    Present,
    /// The caller is the loader.
    Claimed,
    /// Somebody else is the loader.
    Wait,
}

/// How far the reservation of a frame has come.
#[derive(Clone, Copy, Debug, PartialEq, Eq, Structural)]
pub enum ReserveStep {
    /// The frame belongs to the loader.
    Ready(usize),
    /// The frame belongs to the loader as soon as its page is written back.
    WriteBack(usize, u64),
}

/// How far the preparation of a victim has come.
#[derive(Clone, Copy, Debug, PartialEq, Eq, Structural)]
pub enum VictimStep {
    /// The frame belongs to the loader.
    Ready,
    /// The page of the frame has to be written back first.
    WriteBack(u64),
}

/// What the loader of a page does next.
#[derive(Clone, Copy, Debug, PartialEq, Eq, Structural)]
pub enum LoadStep {
    /// Read the page into this frame.
    Read(usize),
    /// Write this frame's content to this page first.
    WriteBack(usize, u64),
}

/// Whether a thread that waits for a frame goes on.
#[derive(Clone, Copy, Debug, PartialEq, Eq, Structural)]
pub enum WaitStep {
    /// The frame has changed; the caller starts over.
    Changed,
    /// The frame is still busy; the caller sleeps until the shard is notified.
    Sleep,
}

/// The shard that takes care of a page.
pub open spec fn shard_of(page_id: u64) -> int {
    (crate::hash_map::hash_of(page_id) % 64) as int
}

/// The state of a buffer pool.
#[verifier::ext_equal]
pub struct PoolState {
    /// The bookkeeping of each frame.
    pub frames: Seq<FrameMeta>,
    /// The frames that nobody uses; the last one is used first.
    pub free: Seq<usize>,
    /// Which frame holds which page.
    pub table: Map<u64, usize>,
    /// How many pages the page table can hold.
    pub capacity: nat,
    /// Where the clock hand stands.
    pub hand: usize,
    /// The pages that are being loaded, by shard.
    pub loading: Seq<Set<u64>>,
    /// How often each shard was notified of a change.
    pub changes: Seq<u64>,
    /// The page id that the file gives out next.
    pub next_page: u64,
}

impl PoolState {
    /// The parts of the state fit together.
    pub open spec fn valid(self) -> bool {
        &&& self.frames.len() > 0
        &&& self.loading.len() == PAGE_WAIT_SHARDS
        &&& self.changes.len() == PAGE_WAIT_SHARDS
        &&& forall|i: int| 0 <= i < self.free.len() ==> #[trigger] self.free[i] < self.frames.len()
    }

    /// A pool of `frame_count` frames that holds no page.
    pub open spec fn initial(frame_count: nat, capacity: nat, next_page: u64) -> PoolState {
        PoolState {
            frames: Seq::new(frame_count, |i: int| FrameMeta::spec_empty()),
            free: Seq::new(frame_count, |i: int| (frame_count - 1 - i) as usize),
            table: Map::empty(),
            capacity,
            hand: 0,
            loading: Seq::new(PAGE_WAIT_SHARDS as nat, |i: int| Set::<u64>::empty()),
            changes: Seq::new(PAGE_WAIT_SHARDS as nat, |i: int| 0u64),
            next_page,
        }
    }

    /// Somebody is loading the page.
    pub open spec fn is_loading(self, page_id: u64) -> bool {
        self.loading[shard_of(page_id)].contains(page_id)
    }

    /// The state with one frame replaced.
    pub open spec fn with_frame(self, frame_id: int, frame: FrameMeta) -> PoolState {
        PoolState { frames: self.frames.update(frame_id, frame), ..self }
    }

    /// The state after the threads that wait for the page were notified.
    pub open spec fn notified(self, page_id: u64) -> PoolState {
        let shard = shard_of(page_id);
        PoolState {
            changes: self.changes.update(shard, self.changes[shard].wrapping_add(1)),
            ..self
        }
    }

    /// The state after the page was registered as being loaded.
    pub open spec fn load_begun(self, page_id: u64) -> PoolState {
        let shard = shard_of(page_id);
        PoolState {
            loading: self.loading.update(shard, self.loading[shard].insert(page_id)),
            ..self
        }
    }

    /// The state after the registration of the page was taken back.
    pub open spec fn load_ended(self, page_id: u64) -> PoolState {
        let shard = shard_of(page_id);
        PoolState {
            loading: self.loading.update(shard, self.loading[shard].remove(page_id)),
            ..self
        }
    }

    /// How an attempt to become the loader of a page ends.
    pub open spec fn claim_step(self, page_id: u64) -> ClaimStep {
        if self.table.contains_key(page_id) {
            ClaimStep::Present
        } else if self.is_loading(page_id) {
            ClaimStep::Wait
        } else {
            ClaimStep::Claimed
        }
    }

    pub open spec fn after_claim(self, page_id: u64) -> PoolState {
        if self.claim_step(page_id) is Claimed {
            self.load_begun(page_id)
        } else {
            self
        }
    }

    /// How one pass of a fetch ends.
    pub open spec fn fetch_step(self, page_id: u64) -> Result<FetchStep, StorageError> {
        if self.table.contains_key(page_id) {
            let f = self.table[page_id];
            if f >= self.frames.len() {
                Err(StorageError::BadFrameId)
            } else {
                match self.frames[f as int].pin_outcome(page_id) {
                    Err(error) => Err(error),
                    Ok(PinResult::Pinned) => Ok(FetchStep::Pinned(f)),
                    Ok(PinResult::Busy) => Ok(FetchStep::Busy(f)),
                    Ok(PinResult::Stale) => Ok(FetchStep::Retry),
                }
            }
        } else if self.is_loading(page_id) {
            Ok(FetchStep::Loading)
        } else {
            Ok(FetchStep::Load)
        }
    }

    pub open spec fn after_fetch(self, page_id: u64) -> PoolState {
        match self.fetch_step(page_id) {
            Ok(FetchStep::Pinned(f)) => self.with_frame(
                f as int,
                self.frames[f as int].after_pin(page_id),
            ),
            Ok(FetchStep::Load) => self.load_begun(page_id),
            _ => self,
        }
    }

    /// How an unpin ends.
    pub open spec fn unpin_result(self, page_id: u64) -> Result<(), StorageError> {
        if !self.table.contains_key(page_id) {
            Err(StorageError::PageNotCached)
        } else if self.table[page_id] >= self.frames.len() {
            Err(StorageError::BadFrameId)
        } else {
            self.frames[self.table[page_id] as int].unpin_outcome(page_id)
        }
    }

    pub open spec fn after_unpin(self, page_id: u64, is_dirty: bool) -> PoolState {
        if self.unpin_result(page_id) is Ok {
            let f = self.table[page_id] as int;
            self.with_frame(f, self.frames[f].after_unpin(page_id, is_dirty))
        } else {
            self
        }
    }

    /// What a sweep of the clock hand does.
    pub open spec fn sweep(self) -> Sweep {
        crate::storage::clock::sweep(
            self.frames,
            self.hand,
            crate::storage::clock::sweep_steps(self.frames.len()),
        )
    }

    pub open spec fn after_sweep(self) -> PoolState {
        PoolState { frames: self.sweep().frames, hand: self.sweep().hand, ..self }
    }

    /// The frame after it was given to a loader.
    pub open spec fn loader_frame() -> FrameMeta {
        FrameMeta { page_id: INVALID_PAGE_ID, state_and_pin: 0x10_0001, usage_count: 0, flags: 0 }
    }

    /// The state after a failed write-back: the frame is ready again, still
    /// dirty, and its page still belongs to it.
    pub open spec fn after_writeback_failure(self, frame_id: int, page_id: u64) -> PoolState {
        let frame = self.frames[frame_id];
        self.with_frame(
            frame_id,
            FrameMeta {
                state_and_pin: 0x20_0000,
                flags: crate::storage::page::settled_flags(frame.flags) as u8,
                ..frame
            },
        ).notified(page_id)
    }

    /// How the detachment of a victim from its page ends.
    pub open spec fn detach_result(self, frame_id: usize, page_id: u64) -> Result<
        (),
        StorageError,
    > {
        if self.table.contains_key(page_id) && self.table[page_id] == frame_id {
            Ok(())
        } else {
            Err(StorageError::TableMismatch)
        }
    }

    pub open spec fn after_detach(self, frame_id: usize, page_id: u64) -> PoolState {
        let f = frame_id as int;
        if !self.table.contains_key(page_id) {
            let table = if self.table.len() < self.capacity {
                self.table.insert(page_id, frame_id)
            } else {
                self.table
            };
            (PoolState { table, ..self }).with_frame(
                f,
                FrameMeta { state_and_pin: 0x20_0000, ..self.frames[f] },
            ).notified(page_id)
        } else if self.table[page_id] == frame_id {
            (PoolState { table: self.table.remove(page_id), ..self }).with_frame(
                f,
                Self::loader_frame(),
            ).notified(page_id)
        } else {
            (PoolState { free: self.free.push(frame_id), ..self }).with_frame(
                f,
                FrameMeta::spec_empty(),
            ).notified(page_id)
        }
    }

    /// How the preparation of a victim ends.
    pub open spec fn prepare_step(self, frame_id: usize) -> Result<VictimStep, StorageError> {
        let frame = self.frames[frame_id as int];
        if frame.page_id == INVALID_PAGE_ID {
            Err(StorageError::VictimHasNoPage)
        } else if frame.dirty() {
            Ok(VictimStep::WriteBack(frame.page_id))
        } else {
            match self.detach_result(frame_id, frame.page_id) {
                Ok(_) => Ok(VictimStep::Ready),
                Err(error) => Err(error),
            }
        }
    }

    pub open spec fn after_prepare(self, frame_id: usize) -> PoolState {
        let frame = self.frames[frame_id as int];
        if frame.page_id == INVALID_PAGE_ID {
            self
        } else if frame.dirty() {
            self.with_frame(
                frame_id as int,
                FrameMeta {
                    flags: crate::storage::page::writeback_flags(frame.flags) as u8,
                    ..frame
                },
            )
        } else {
            self.after_detach(frame_id, frame.page_id)
        }
    }

    /// How the reservation of a frame ends.
    pub open spec fn reserve_step(self) -> Result<ReserveStep, StorageError> {
        if self.free.len() > 0 {
            let f = self.free.last();
            if self.frames[f as int].state_and_pin == 0 {
                Ok(ReserveStep::Ready(f))
            } else {
                Err(StorageError::FreeListFrameInUse)
            }
        } else {
            match self.sweep().victim {
                None => Err(StorageError::NoVictim),
                Some(v) => match self.after_sweep().prepare_step(v) {
                    Err(error) => Err(error),
                    Ok(VictimStep::Ready) => Ok(ReserveStep::Ready(v)),
                    Ok(VictimStep::WriteBack(page_id)) => Ok(ReserveStep::WriteBack(v, page_id)),
                },
            }
        }
    }

    pub open spec fn after_reserve(self) -> PoolState {
        if self.free.len() > 0 {
            let f = self.free.last();
            let popped = PoolState { free: self.free.drop_last(), ..self };
            if self.frames[f as int].state_and_pin == 0 {
                popped.with_frame(
                    f as int,
                    FrameMeta { state_and_pin: 0x10_0001, ..self.frames[f as int] },
                )
            } else {
                popped
            }
        } else {
            match self.sweep().victim {
                None => self.after_sweep(),
                Some(v) => self.after_sweep().after_prepare(v),
            }
        }
    }

    /// The state after the loader of a page gave up.
    pub open spec fn after_load_failure(self, page_id: u64) -> PoolState {
        self.load_ended(page_id).notified(page_id)
    }

    /// The state after a frame was given back by its loader.
    pub open spec fn after_release(self, frame_id: usize) -> PoolState {
        (PoolState { free: self.free.push(frame_id), ..self }).with_frame(
            frame_id as int,
            FrameMeta::spec_empty(),
        )
    }

    /// The state after a loader has entered its page into its frame.
    pub open spec fn after_read_begun(self, page_id: u64, frame_id: int) -> PoolState {
        self.with_frame(
            frame_id,
            FrameMeta { page_id, usage_count: 0, flags: 0, ..self.frames[frame_id] },
        )
    }

    /// How the start of a load ends.
    pub open spec fn load_step(self) -> Result<LoadStep, StorageError> {
        match self.reserve_step() {
            Err(error) => Err(error),
            Ok(ReserveStep::Ready(f)) => Ok(LoadStep::Read(f)),
            Ok(ReserveStep::WriteBack(f, page_id)) => Ok(LoadStep::WriteBack(f, page_id)),
        }
    }

    pub open spec fn after_load(self, page_id: u64) -> PoolState {
        match self.reserve_step() {
            Err(_) => self.after_reserve().after_load_failure(page_id),
            Ok(ReserveStep::Ready(f)) => self.after_reserve().after_read_begun(page_id, f as int),
            Ok(ReserveStep::WriteBack(_, _)) => self.after_reserve(),
        }
    }

    /// The state after the victim's page could not be written back: the load is
    /// given up as well.
    pub open spec fn after_victim_write_failed(
        self,
        page_id: u64,
        frame_id: usize,
        victim_page_id: u64,
    ) -> PoolState {
        self.after_writeback_failure(frame_id as int, victim_page_id).after_load_failure(page_id)
    }

    /// How a load goes on after the victim's page was written back.
    pub open spec fn after_victim_written(
        self,
        page_id: u64,
        frame_id: usize,
        victim_page_id: u64,
    ) -> PoolState {
        let detached = self.after_detach(frame_id, victim_page_id);
        if self.detach_result(frame_id, victim_page_id) is Ok {
            detached.after_read_begun(page_id, frame_id as int)
        } else {
            detached.after_load_failure(page_id)
        }
    }

    /// How the publication of a loaded page ends.
    pub open spec fn publish_result(self, page_id: u64) -> Result<(), StorageError> {
        if !self.is_loading(page_id) {
            Err(StorageError::LoadOwnerLost)
        } else if self.table.contains_key(page_id) {
            Err(StorageError::AlreadyPublished)
        } else if self.table.len() == self.capacity {
            Err(StorageError::TableFull)
        } else {
            Ok(())
        }
    }

    pub open spec fn after_publish(self, page_id: u64, frame_id: usize) -> PoolState {
        match self.publish_result(page_id) {
            Err(StorageError::LoadOwnerLost) => self,
            Err(_) => self.load_ended(page_id).notified(page_id),
            Ok(_) => (PoolState { table: self.table.insert(page_id, frame_id), ..self }).with_frame(
                frame_id as int,
                FrameMeta {
                    usage_count: 1,
                    state_and_pin: 0x20_0001,
                    ..self.frames[frame_id as int]
                },
            ).load_ended(page_id).notified(page_id),
        }
    }

    /// The state after the page could not be read.
    pub open spec fn after_page_read_failed(self, page_id: u64, frame_id: usize) -> PoolState {
        self.after_release(frame_id).after_load_failure(page_id)
    }

    /// How a load goes on after the page was read.
    pub open spec fn after_page_read(self, page_id: u64, frame_id: usize) -> PoolState {
        let published = self.after_publish(page_id, frame_id);
        if self.publish_result(page_id) is Ok {
            published
        } else {
            published.after_release(frame_id)
        }
    }

    /// Whether a thread that waits for a frame goes on.
    pub open spec fn wait_step(self, page_id: u64, frame_id: usize) -> Result<
        WaitStep,
        StorageError,
    > {
        let state = self.frames[frame_id as int].state();
        if !self.table.contains_key(page_id) || self.table[page_id] != frame_id {
            Ok(WaitStep::Changed)
        } else if state == FRAME_READY {
            Ok(WaitStep::Changed)
        } else if state == FRAME_FREE {
            Err(StorageError::MappedFrameIsFree)
        } else {
            Ok(WaitStep::Sleep)
        }
    }
}

} // verus!
