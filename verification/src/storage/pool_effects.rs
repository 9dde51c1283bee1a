//! What each operation of a buffer pool answers and changes, told from the
//! state before it: field by field, and with nothing left out.

use crate::error::StorageError;
use crate::storage::page::FrameMeta;
use crate::storage::pool_state::{
    ClaimStep, FetchStep, LoadStep, PoolState, ReserveStep, VictimStep, WaitStep,
};
use vstd::prelude::*;

verus! {

/// The shard of a page: the low six bits of its hash.
pub open spec fn home_shard(page_id: u64) -> int {
    page_id as int * 0x9e37_79b9_7f4a_7c15 % 0x1_0000_0000_0000_0000 % 64
}

/// Somebody is registered as the loader of the page.
pub open spec fn registered(s: PoolState, page_id: u64) -> bool {
    s.loading[home_shard(page_id)].contains(page_id)
}

/// The counters after the threads of the page's shard were notified once.
pub open spec fn counted(changes: Seq<u64>, page_id: u64) -> Seq<u64> {
    let count = changes[home_shard(page_id)];
    changes.update(
        home_shard(page_id),
        if count == u64::MAX {
            0
        } else {
            (count + 1) as u64
        },
    )
}

/// The registrations with one page more.
pub open spec fn with_load(loading: Seq<Set<u64>>, page_id: u64) -> Seq<Set<u64>> {
    loading.update(home_shard(page_id), loading[home_shard(page_id)].insert(page_id))
}

/// The registrations with one page less.
pub open spec fn without_load(loading: Seq<Set<u64>>, page_id: u64) -> Seq<Set<u64>> {
    loading.update(home_shard(page_id), loading[home_shard(page_id)].remove(page_id))
}

/// The frame is ready, and the number of its pins.
pub open spec fn ready_pins(frame: FrameMeta) -> Option<int> {
    if frame.state_and_pin as int / 0x10_0000 % 4 == 2 {
        Some(frame.state_and_pin as int % 0x10_0000)
    } else {
        None
    }
}

/// A page belongs to the shard that the low six bits of its hash name, and it is
/// being loaded if it is registered there.
pub proof fn law_home_shard(s: PoolState, page_id: u64)
    ensures
        crate::storage::pool_state::shard_of(page_id) == home_shard(page_id),
        0 <= home_shard(page_id) < 64,
        s.is_loading(page_id) <==> registered(s, page_id),
{
    let product = page_id as int * 0x9e37_79b9_7f4a_7c15;
    let hash = crate::hash_map::hash_of(page_id);
    crate::hash_map::law_hash_is_the_low_half(page_id);
    assert(hash as int == product % 0x1_0000_0000_0000_0000);
}

/// A registration concerns one page.
pub proof fn law_registrations(s: PoolState, page_id: u64, other: u64)
    requires
        s.loading.len() == 64,
    ensures
        registered(s.load_begun(page_id), other) <==> registered(s, other) || other == page_id,
        registered(s.load_ended(page_id), other) <==> registered(s, other) && other != page_id,
        s.load_begun(page_id) == (PoolState { loading: with_load(s.loading, page_id), ..s }),
        s.load_ended(page_id) == (PoolState { loading: without_load(s.loading, page_id), ..s }),
{
    law_home_shard(s, page_id);
    law_home_shard(s, other);
}

/// A notification adds one to the counter of the page's shard.
pub proof fn law_notification_counts(s: PoolState, page_id: u64)
    ensures
        s.notified(page_id) == (PoolState { changes: counted(s.changes, page_id), ..s }),
{
    law_home_shard(s, page_id);
}

/// Replacing a frame replaces nothing else.
pub proof fn law_one_frame_is_replaced(s: PoolState, f: int, frame: FrameMeta)
    ensures
        s.with_frame(f, frame) == (PoolState { frames: s.frames.update(f, frame), ..s }),
{
}

/// A new pool: every frame is empty and free, the first one is used first, no
/// page is known, nothing is being loaded, and nobody was notified.
pub proof fn law_new_pool(frame_count: nat, capacity: nat, next_page: u64, i: int)
    requires
        frame_count <= usize::MAX,
    ensures
        ({
            let s = PoolState::initial(frame_count, capacity, next_page);
            &&& s.frames.len() == frame_count
            &&& s.free.len() == frame_count
            &&& s.loading.len() == 64
            &&& s.changes.len() == 64
            &&& s.table == Map::<u64, usize>::empty()
            &&& s.capacity == capacity
            &&& s.hand == 0
            &&& s.next_page == next_page
            &&& 0 <= i < frame_count ==> s.frames[i] == (FrameMeta {
                page_id: u64::MAX,
                state_and_pin: 0,
                usage_count: 0,
                flags: 0,
            }) && s.free[i] == frame_count - 1 - i
            &&& 0 <= i < 64 ==> s.loading[i] == Set::<u64>::empty() && s.changes[i] == 0
        }),
{
}

/// Whether a thread becomes the loader of a page: only if the page is in no frame
/// and nobody loads it, and then always. Nothing else changes.
pub proof fn law_claim(s: PoolState, page_id: u64)
    ensures
        s.claim_step(page_id) is Claimed <==> !s.table.contains_key(page_id) && !registered(
            s,
            page_id,
        ),
        s.claim_step(page_id) is Present <==> s.table.contains_key(page_id),
        s.claim_step(page_id) is Wait <==> !s.table.contains_key(page_id) && registered(s, page_id),
        s.claim_step(page_id) is Claimed ==> s.after_claim(page_id) == (PoolState {
            loading: with_load(s.loading, page_id),
            ..s
        }),
        !(s.claim_step(page_id) is Claimed) ==> s.after_claim(page_id) == s,
{
    law_home_shard(s, page_id);
}

/// A fetch of a page that is in no frame makes the caller its loader exactly if
/// nobody is; otherwise the caller waits. The pool's frames, free list and clock
/// have no say in it.
pub proof fn law_fetch_of_an_absent_page(s: PoolState, page_id: u64)
    requires
        !s.table.contains_key(page_id),
    ensures
        registered(s, page_id) ==> s.fetch_step(page_id) == Ok::<FetchStep, StorageError>(
            FetchStep::Loading,
        ) && s.after_fetch(page_id) == s,
        !registered(s, page_id) ==> s.fetch_step(page_id) == Ok::<FetchStep, StorageError>(
            FetchStep::Load,
        ) && s.after_fetch(page_id) == (PoolState {
            loading: with_load(s.loading, page_id),
            ..s
        }),
{
    law_home_shard(s, page_id);
}

/// A caller is told to wait for another loader only if there is one, and becomes
/// a loader only if there is none.
pub proof fn law_fetch_waits_only_for_a_loader(s: PoolState, page_id: u64)
    ensures
        s.fetch_step(page_id) == Ok::<FetchStep, StorageError>(FetchStep::Loading) ==> registered(
            s,
            page_id,
        ) && !s.table.contains_key(page_id),
        s.fetch_step(page_id) == Ok::<FetchStep, StorageError>(FetchStep::Load) ==> !registered(
            s,
            page_id,
        ) && !s.table.contains_key(page_id),
{
    law_home_shard(s, page_id);
}

/// A fetch of a page that the page table knows depends on the frame that it
/// names. A pin adds one to the frame's word and at most one to its usage count;
/// every other answer changes nothing.
pub proof fn law_fetch_of_a_known_page(s: PoolState, page_id: u64)
    requires
        s.table.contains_key(page_id),
        s.table[page_id] < s.frames.len(),
    ensures
        ({
            let f = s.table[page_id];
            let frame = s.frames[f as int];
            let state = frame.state_and_pin as int / 0x10_0000 % 4;
            let pins = frame.state_and_pin as int % 0x10_0000;
            let here = frame.page_id == page_id;
            &&& s.fetch_step(page_id) == Ok::<FetchStep, StorageError>(FetchStep::Retry) <==> !here
            &&& s.fetch_step(page_id) == Ok::<FetchStep, StorageError>(FetchStep::Busy(f)) <==> here
                && (state == 1 || state == 3)
            &&& s.fetch_step(page_id) == Err::<FetchStep, StorageError>(
                StorageError::MappedFrameIsFree,
            ) <==> here && state == 0
            &&& s.fetch_step(page_id) == Err::<FetchStep, StorageError>(StorageError::PinOverflow)
                <==> here && state == 2 && pins == 0xf_ffff
            &&& s.fetch_step(page_id) == Ok::<FetchStep, StorageError>(FetchStep::Pinned(f)) <==> here
                && state == 2 && pins < 0xf_ffff
            &&& s.after_fetch(page_id) == (if here && state == 2 && pins < 0xf_ffff {
                PoolState {
                    frames: s.frames.update(
                        f as int,
                        FrameMeta {
                            page_id: frame.page_id,
                            state_and_pin: (frame.state_and_pin + 1) as u32,
                            usage_count: if frame.usage_count < 3 {
                                (frame.usage_count + 1) as u8
                            } else {
                                frame.usage_count
                            },
                            flags: frame.flags,
                        },
                    ),
                    ..s
                }
            } else {
                s
            })
        }),
{
}

/// A page table that names a frame that does not exist is noticed.
pub proof fn law_bad_frame_is_noticed(s: PoolState, page_id: u64, is_dirty: bool)
    requires
        s.table.contains_key(page_id),
        s.table[page_id] >= s.frames.len(),
    ensures
        s.fetch_step(page_id) == Err::<FetchStep, StorageError>(StorageError::BadFrameId),
        s.after_fetch(page_id) == s,
        s.unpin_result(page_id) == Err::<(), StorageError>(StorageError::BadFrameId),
        s.after_unpin(page_id, is_dirty) == s,
{
}

/// An unpin of a page takes one from the word of its frame, dirty or clean, and
/// a dirty one sets the dirty bit. It fails exactly if the page is in no frame,
/// has left its frame, or has no pin to give back, and changes nothing then.
pub proof fn law_unpin_of_a_page(s: PoolState, page_id: u64, is_dirty: bool)
    ensures
        !s.table.contains_key(page_id) ==> s.unpin_result(page_id) == Err::<(), StorageError>(
            StorageError::PageNotCached,
        ) && s.after_unpin(page_id, is_dirty) == s,
        s.table.contains_key(page_id) && s.table[page_id] < s.frames.len() ==> {
            let f = s.table[page_id] as int;
            let frame = s.frames[f];
            let here = frame.page_id == page_id;
            &&& s.unpin_result(page_id) == (if !here {
                Err(StorageError::PageLeftFrame)
            } else if ready_pins(frame) is None {
                Err(StorageError::UnpinNotReady)
            } else if ready_pins(frame) == Some(0int) {
                Err(StorageError::NotPinned)
            } else {
                Ok(())
            })
            &&& s.after_unpin(page_id, is_dirty) == (if here && ready_pins(frame) is Some
                && ready_pins(frame)->0 > 0 {
                PoolState {
                    frames: s.frames.update(
                        f,
                        FrameMeta {
                            page_id: frame.page_id,
                            state_and_pin: (frame.state_and_pin - 1) as u32,
                            usage_count: frame.usage_count,
                            flags: if is_dirty && frame.flags % 2 == 0 {
                                (frame.flags + 1) as u8
                            } else {
                                frame.flags
                            },
                        },
                    ),
                    ..s
                }
            } else {
                s
            })
        },
{
}

/// A search for a victim is a sweep of five rounds over the pool's frames from
/// where the pool's hand stands. It moves the hand and changes frames.
pub proof fn law_find_victim(s: PoolState)
    requires
        s.frames.len() * 5 <= usize::MAX,
    ensures
        s.sweep() == crate::storage::clock::sweep(s.frames, s.hand, s.frames.len() * 5),
        s.after_sweep() == (PoolState {
            frames: crate::storage::clock::sweep(s.frames, s.hand, s.frames.len() * 5).frames,
            hand: crate::storage::clock::sweep(s.frames, s.hand, s.frames.len() * 5).hand,
            ..s
        }),
{
}

/// A victim leaves its page only if the page table names it for the page. Then
/// the page leaves the page table, and the frame belongs to a loader: one pin,
/// no page, no use, no flag. The threads that wait for the page are notified
/// whatever happens.
pub proof fn law_detach(s: PoolState, frame_id: usize, page_id: u64)
    ensures
        ({
            let f = frame_id as int;
            let named = s.table.contains_key(page_id) && s.table[page_id] == frame_id;
            let t = s.after_detach(frame_id, page_id);
            &&& s.detach_result(frame_id, page_id) == (if named {
                Ok(())
            } else {
                Err(StorageError::TableMismatch)
            })
            &&& named ==> t == (PoolState {
                table: s.table.remove(page_id),
                frames: s.frames.update(
                    f,
                    FrameMeta {
                        page_id: u64::MAX,
                        state_and_pin: 0x10_0001,
                        usage_count: 0,
                        flags: 0,
                    },
                ),
                changes: counted(s.changes, page_id),
                ..s
            })
            &&& s.table.contains_key(page_id) && !named ==> t == (PoolState {
                free: s.free.push(frame_id),
                frames: s.frames.update(
                    f,
                    FrameMeta { page_id: u64::MAX, state_and_pin: 0, usage_count: 0, flags: 0 },
                ),
                changes: counted(s.changes, page_id),
                ..s
            })
            &&& !s.table.contains_key(page_id) ==> t == (PoolState {
                table: if s.table.len() < s.capacity {
                    s.table.insert(page_id, frame_id)
                } else {
                    s.table
                },
                frames: s.frames.update(
                    f,
                    FrameMeta {
                        page_id: s.frames[f].page_id,
                        state_and_pin: 0x20_0000,
                        usage_count: s.frames[f].usage_count,
                        flags: s.frames[f].flags,
                    },
                ),
                changes: counted(s.changes, page_id),
                ..s
            })
        }),
{
    law_home_shard(s, page_id);
}

/// A dirty victim is marked as being written back, and its page has to be written
/// before anything else happens to it. A clean one is detached at once.
pub proof fn law_prepare(s: PoolState, frame_id: usize)
    ensures
        ({
            let f = frame_id as int;
            let frame = s.frames[f];
            let t = s.after_prepare(frame_id);
            &&& frame.page_id == u64::MAX ==> s.prepare_step(frame_id) == Err::<
                VictimStep,
                StorageError,
            >(StorageError::VictimHasNoPage) && t == s
            &&& frame.page_id != u64::MAX && frame.flags % 2 == 1 ==> {
                &&& s.prepare_step(frame_id) == Ok::<VictimStep, StorageError>(
                    VictimStep::WriteBack(frame.page_id),
                )
                &&& t == (PoolState {
                    frames: s.frames.update(
                        f,
                        FrameMeta {
                            page_id: frame.page_id,
                            state_and_pin: frame.state_and_pin,
                            usage_count: frame.usage_count,
                            flags: if frame.flags / 2 % 2 == 0 {
                                (frame.flags + 2) as u8
                            } else {
                                frame.flags
                            },
                        },
                    ),
                    ..s
                })
            }
            &&& frame.page_id != u64::MAX && frame.flags % 2 == 0 ==> {
                &&& s.prepare_step(frame_id) is Ok <==> s.table.contains_key(frame.page_id)
                    && s.table[frame.page_id] == frame_id
                &&& s.prepare_step(frame_id) is Ok ==> s.prepare_step(frame_id)->Ok_0
                    == VictimStep::Ready
                &&& s.prepare_step(frame_id) is Err ==> s.prepare_step(frame_id)->Err_0
                    == StorageError::TableMismatch
                &&& t == s.after_detach(frame_id, frame.page_id)
            }
        }),
{
}

/// A loader gets the last frame of the free list if there is one, with one pin
/// and without anything else changed. A frame there that is in use is noticed.
pub proof fn law_reserve_free_frame(s: PoolState)
    requires
        s.free.len() > 0,
    ensures
        ({
            let f = s.free[s.free.len() - 1];
            let frame = s.frames[f as int];
            let shorter = s.free.subrange(0, s.free.len() - 1);
            &&& frame.state_and_pin == 0 ==> s.reserve_step() == Ok::<ReserveStep, StorageError>(
                ReserveStep::Ready(f),
            ) && s.after_reserve() == (PoolState {
                free: shorter,
                frames: s.frames.update(
                    f as int,
                    FrameMeta {
                        page_id: frame.page_id,
                        state_and_pin: 0x10_0001,
                        usage_count: frame.usage_count,
                        flags: frame.flags,
                    },
                ),
                ..s
            })
            &&& frame.state_and_pin != 0 ==> s.reserve_step() == Err::<ReserveStep, StorageError>(
                StorageError::FreeListFrameInUse,
            ) && s.after_reserve() == (PoolState { free: shorter, ..s })
        }),
{
}

/// Without a free frame a loader gets the victim of a sweep, prepared. It goes
/// without exactly if the sweep finds none or the victim cannot be prepared.
pub proof fn law_reserve_victim(s: PoolState)
    requires
        s.free.len() == 0,
    ensures
        s.sweep().victim is None ==> s.reserve_step() == Err::<ReserveStep, StorageError>(
            StorageError::NoVictim,
        ) && s.after_reserve() == s.after_sweep(),
        s.sweep().victim matches Some(v) ==> {
            let swept = s.after_sweep();
            &&& s.after_reserve() == swept.after_prepare(v)
            &&& swept.prepare_step(v) == Ok::<VictimStep, StorageError>(VictimStep::Ready)
                <==> s.reserve_step() == Ok::<ReserveStep, StorageError>(ReserveStep::Ready(v))
            &&& forall|p: u64| #[trigger]
                swept.prepare_step(v) == Ok::<VictimStep, StorageError>(VictimStep::WriteBack(p))
                    <==> s.reserve_step() == Ok::<ReserveStep, StorageError>(
                    ReserveStep::WriteBack(v, p),
                )
            &&& forall|e: StorageError| #[trigger]
                swept.prepare_step(v) == Err::<VictimStep, StorageError>(e) <==> s.reserve_step()
                    == Err::<ReserveStep, StorageError>(e)
        },
{
}

/// A loader that gives up takes back its registration and notifies the page's
/// shard.
pub proof fn law_load_failure(s: PoolState, page_id: u64)
    ensures
        s.after_load_failure(page_id) == (PoolState {
            loading: without_load(s.loading, page_id),
            changes: counted(s.changes, page_id),
            ..s
        }),
{
    law_home_shard(s, page_id);
}

/// A frame that is given back is empty, and is the next one to be used.
pub proof fn law_release(s: PoolState, frame_id: usize)
    ensures
        s.after_release(frame_id) == (PoolState {
            free: s.free.push(frame_id),
            frames: s.frames.update(
                frame_id as int,
                FrameMeta { page_id: u64::MAX, state_and_pin: 0, usage_count: 0, flags: 0 },
            ),
            ..s
        }),
{
}

/// A loader enters its page into its frame, without uses and flags, before it
/// reads the page.
pub proof fn law_read_begun(s: PoolState, page_id: u64, f: int)
    ensures
        s.after_read_begun(page_id, f) == (PoolState {
            frames: s.frames.update(
                f,
                FrameMeta {
                    page_id,
                    state_and_pin: s.frames[f].state_and_pin,
                    usage_count: 0,
                    flags: 0,
                },
            ),
            ..s
        }),
{
}

/// A load reads into the frame that it has reserved, or writes the victim back
/// first. If it gets no frame, the page is no longer being loaded.
pub proof fn law_load(s: PoolState, page_id: u64)
    ensures
        forall|f: usize| #[trigger]
            s.reserve_step() == Ok::<ReserveStep, StorageError>(ReserveStep::Ready(f))
                ==> s.load_step() == Ok::<LoadStep, StorageError>(LoadStep::Read(f))
                && s.after_load(page_id) == (PoolState {
                frames: s.after_reserve().frames.update(
                    f as int,
                    FrameMeta {
                        page_id,
                        state_and_pin: s.after_reserve().frames[f as int].state_and_pin,
                        usage_count: 0,
                        flags: 0,
                    },
                ),
                ..s.after_reserve()
            }),
        forall|f: usize, p: u64| #[trigger]
            s.reserve_step() == Ok::<ReserveStep, StorageError>(ReserveStep::WriteBack(f, p))
                ==> s.load_step() == Ok::<LoadStep, StorageError>(LoadStep::WriteBack(f, p))
                && s.after_load(page_id) == s.after_reserve(),
        forall|e: StorageError| #[trigger]
            s.reserve_step() == Err::<ReserveStep, StorageError>(e) ==> s.load_step() == Err::<
                LoadStep,
                StorageError,
            >(e) && s.after_load(page_id) == (PoolState {
                loading: without_load(s.after_reserve().loading, page_id),
                changes: counted(s.after_reserve().changes, page_id),
                ..s.after_reserve()
            }),
{
    law_home_shard(s, page_id);
}

/// A victim whose page could not be written is ready again, unpinned, with its
/// page, its uses and its dirty bit; only the mark of the write-back goes.
pub proof fn law_write_back_failure(s: PoolState, f: int, victim: u64)
    ensures
        s.after_writeback_failure(f, victim) == (PoolState {
            frames: s.frames.update(
                f,
                FrameMeta {
                    page_id: s.frames[f].page_id,
                    state_and_pin: 0x20_0000,
                    usage_count: s.frames[f].usage_count,
                    flags: if s.frames[f].flags / 2 % 2 == 1 {
                        (s.frames[f].flags - 2) as u8
                    } else {
                        s.frames[f].flags
                    },
                },
            ),
            changes: counted(s.changes, victim),
            ..s
        }),
{
    law_home_shard(s, victim);
}

/// After a failed write-back the loader gives up as well: both shards are
/// notified, and the page is no longer being loaded.
pub proof fn law_victim_write_failed(s: PoolState, page_id: u64, frame_id: usize, victim: u64)
    ensures
        ({
            let t = s.after_victim_write_failed(page_id, frame_id, victim);
            &&& t == (PoolState {
                frames: s.after_writeback_failure(frame_id as int, victim).frames,
                loading: without_load(s.loading, page_id),
                changes: counted(counted(s.changes, victim), page_id),
                ..s
            })
        }),
{
    law_write_back_failure(s, frame_id as int, victim);
    law_load_failure(s.after_writeback_failure(frame_id as int, victim), page_id);
}

/// After a successful write-back the victim is detached; then its frame holds
/// the loader's page, to be read.
pub proof fn law_victim_written(s: PoolState, page_id: u64, frame_id: usize, victim: u64)
    requires
        frame_id < s.frames.len(),
    ensures
        ({
            let f = frame_id as int;
            let t = s.after_victim_written(page_id, frame_id, victim);
            let named = s.table.contains_key(victim) && s.table[victim] == frame_id;
            &&& named ==> t == (PoolState {
                table: s.table.remove(victim),
                frames: s.frames.update(
                    f,
                    FrameMeta { page_id, state_and_pin: 0x10_0001, usage_count: 0, flags: 0 },
                ),
                changes: counted(s.changes, victim),
                ..s
            })
            &&& !named ==> t == (PoolState {
                loading: without_load(s.loading, page_id),
                changes: counted(s.after_detach(frame_id, victim).changes, page_id),
                ..s.after_detach(frame_id, victim)
            })
        }),
{
    law_detach(s, frame_id, victim);
    law_load_failure(s.after_detach(frame_id, victim), page_id);
    let detached = s.after_detach(frame_id, victim);
    if s.table.contains_key(victim) && s.table[victim] == frame_id {
        assert(s.after_victim_written(page_id, frame_id, victim).frames =~= s.frames.update(
            frame_id as int,
            FrameMeta { page_id, state_and_pin: 0x10_0001, usage_count: 0, flags: 0 },
        ));
    }
}

/// A loaded page is published exactly if its load is registered, the page table
/// does not have it yet and has room. Then the page table names its frame, which
/// is ready with one pin and one use; the load ends and the shard is notified.
/// A refusal ends the load too, unless there is none.
pub proof fn law_publish(s: PoolState, page_id: u64, frame_id: usize)
    ensures
        ({
            let f = frame_id as int;
            let t = s.after_publish(page_id, frame_id);
            &&& s.publish_result(page_id) == (if !registered(s, page_id) {
                Err(StorageError::LoadOwnerLost)
            } else if s.table.contains_key(page_id) {
                Err(StorageError::AlreadyPublished)
            } else if s.table.len() == s.capacity {
                Err(StorageError::TableFull)
            } else {
                Ok(())
            })
            &&& !registered(s, page_id) ==> t == s
            &&& registered(s, page_id) && s.publish_result(page_id) is Err ==> t == (PoolState {
                loading: without_load(s.loading, page_id),
                changes: counted(s.changes, page_id),
                ..s
            })
            &&& s.publish_result(page_id) is Ok ==> t == (PoolState {
                table: s.table.insert(page_id, frame_id),
                frames: s.frames.update(
                    f,
                    FrameMeta {
                        page_id: s.frames[f].page_id,
                        state_and_pin: 0x20_0001,
                        usage_count: 1,
                        flags: s.frames[f].flags,
                    },
                ),
                loading: without_load(s.loading, page_id),
                changes: counted(s.changes, page_id),
                ..s
            })
        }),
{
    law_home_shard(s, page_id);
}

/// A page that was read is published; if that is refused, its frame is given
/// back.
pub proof fn law_page_read(s: PoolState, page_id: u64, frame_id: usize)
    ensures
        ({
            let published = s.after_publish(page_id, frame_id);
            let t = s.after_page_read(page_id, frame_id);
            &&& s.publish_result(page_id) is Ok ==> t == published
            &&& s.publish_result(page_id) is Err ==> t == (PoolState {
                free: s.free.push(frame_id),
                frames: s.frames.update(
                    frame_id as int,
                    FrameMeta { page_id: u64::MAX, state_and_pin: 0, usage_count: 0, flags: 0 },
                ),
                ..published
            })
        }),
{
    law_publish(s, page_id, frame_id);
}

/// A page that could not be read leaves its frame to the free list, and its load
/// ends.
pub proof fn law_page_read_failed(s: PoolState, page_id: u64, frame_id: usize)
    ensures
        s.after_page_read_failed(page_id, frame_id) == (PoolState {
            free: s.free.push(frame_id),
            frames: s.frames.update(
                frame_id as int,
                FrameMeta { page_id: u64::MAX, state_and_pin: 0, usage_count: 0, flags: 0 },
            ),
            loading: without_load(s.loading, page_id),
            changes: counted(s.changes, page_id),
            ..s
        }),
{
    law_home_shard(s, page_id);
}

/// A thread sleeps exactly while the page table names the frame for its page and
/// the frame is being loaded or evicted.
pub proof fn law_wait(s: PoolState, page_id: u64, frame_id: usize)
    ensures
        ({
            let named = s.table.contains_key(page_id) && s.table[page_id] == frame_id;
            let state = s.frames[frame_id as int].state_and_pin as int / 0x10_0000 % 4;
            &&& s.wait_step(page_id, frame_id) == Ok::<WaitStep, StorageError>(WaitStep::Sleep)
                <==> named && (state == 1 || state == 3)
            &&& s.wait_step(page_id, frame_id) == Ok::<WaitStep, StorageError>(WaitStep::Changed)
                <==> !named || state == 2
            &&& s.wait_step(page_id, frame_id) == Err::<WaitStep, StorageError>(
                StorageError::MappedFrameIsFree,
            ) <==> named && state == 0
        }),
{
}

} // verus!
