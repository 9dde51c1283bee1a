//! What holds of a buffer pool however the steps of its threads interleave.

use crate::error::StorageError;
use crate::storage::page::{
    FrameMeta, PinResult, FRAME_EVICTING, FRAME_FREE, FRAME_LOADING, FRAME_READY, INVALID_PAGE_ID,
    MAX_USAGE,
};
use crate::storage::pool_state::{ClaimStep, FetchStep, LoadStep, PoolState, ReserveStep, WaitStep};
use vstd::prelude::*;

verus! {

/// One step of some thread.
pub enum PoolStep {
    /// One pass of a fetch of a page.
    Fetch(u64),
    /// An attempt to become the loader of a page.
    Claim(u64),
    /// An unpin of a page, dirty or not.
    Unpin(u64, bool),
    /// The start of a load by the page's loader.
    Load(u64),
    /// The loader of the first page has written the second one out of a frame.
    VictimWritten(u64, usize, u64),
    /// The loader of the first page could not write the second one.
    VictimWriteFailed(u64, usize, u64),
    /// The loader of a page has read it into a frame.
    PageRead(u64, usize),
    /// The loader of a page could not read it into a frame.
    PageReadFailed(u64, usize),
}

/// What each state of a frame implies for its other fields.
pub open spec fn frame_ok(frame: FrameMeta) -> bool {
    &&& frame.usage_count <= MAX_USAGE
    &&& frame.state() == FRAME_FREE ==> frame == FrameMeta::spec_empty()
    &&& frame.state() == FRAME_LOADING ==> frame.state_and_pin == 0x10_0001 && frame.flags == 0
    &&& frame.state() == FRAME_READY ==> frame.state_and_pin < 0x30_0000 && frame.page_id
        != INVALID_PAGE_ID
    &&& frame.state() == FRAME_EVICTING ==> frame.state_and_pin == 0x30_0000 && frame.page_id
        != INVALID_PAGE_ID
}

/// The frame holds a page that everybody can find.
pub open spec fn published(frame: FrameMeta) -> bool {
    frame.state() == FRAME_READY || frame.state() == FRAME_EVICTING
}

/// Some loader has begun to read the page into a frame.
pub open spec fn has_load_frame(s: PoolState, page_id: u64) -> bool {
    exists|f: int|
        0 <= f < s.frames.len() && (#[trigger] s.frames[f]).state() == FRAME_LOADING
            && s.frames[f].page_id == page_id
}

/// Every frame is consistent in itself.
pub open spec fn frames_ok(s: PoolState) -> bool {
    forall|f: int| 0 <= f < s.frames.len() ==> frame_ok(#[trigger] s.frames[f])
}

/// Whatever the page table names holds the page.
pub open spec fn table_ok(s: PoolState) -> bool {
    forall|p: u64| #[trigger]
        s.table.contains_key(p) ==> s.table[p] < s.frames.len() && published(
            s.frames[s.table[p] as int],
        ) && s.frames[s.table[p] as int].page_id == p
}

/// The page table names every frame that holds a page.
pub open spec fn owners_ok(s: PoolState) -> bool {
    forall|f: int|
        0 <= f < s.frames.len() && published(#[trigger] s.frames[f]) ==> s.table.contains_key(
            s.frames[f].page_id,
        ) && s.table[s.frames[f].page_id] == f
}

/// The free list names the frame.
pub open spec fn listed(free: Seq<usize>, f: int) -> bool {
    exists|i: int| 0 <= i < free.len() && #[trigger] free[i] == f
}

/// The free list names every free frame, once, and no other.
pub open spec fn free_ok(s: PoolState) -> bool {
    &&& forall|i: int|
        0 <= i < s.free.len() ==> (#[trigger] s.free[i]) < s.frames.len()
            && s.frames[s.free[i] as int].state() == FRAME_FREE
    &&& forall|i: int, j: int|
        0 <= i < j < s.free.len() ==> #[trigger] s.free[i] != #[trigger] s.free[j]
    &&& forall|f: int|
        0 <= f < s.frames.len() && (#[trigger] s.frames[f]).state() == FRAME_FREE
            ==> listed(s.free, f)
}

/// A page that is being loaded is not in the page table, and a frame into which
/// a page is being read belongs to the only loader of that page.
pub open spec fn loads_ok(s: PoolState) -> bool {
    &&& forall|p: u64| #[trigger]
        s.is_loading(p) ==> !s.table.contains_key(p) && p != INVALID_PAGE_ID
    &&& forall|f: int|
        0 <= f < s.frames.len() && (#[trigger] s.frames[f]).state() == FRAME_LOADING ==> s.is_loading(
            s.frames[f].page_id,
        )
    &&& forall|f: int, g: int|
        0 <= f < s.frames.len() && 0 <= g < s.frames.len() && f != g && (
        #[trigger] s.frames[f]).state() == FRAME_LOADING && (#[trigger] s.frames[g]).state()
            == FRAME_LOADING ==> s.frames[f].page_id != s.frames[g].page_id
}

/// The invariant of a buffer pool between two steps.
pub open spec fn pool_inv(s: PoolState) -> bool {
    &&& s.valid()
    &&& s.frames.len() * 5 <= usize::MAX
    &&& s.capacity > s.frames.len()
    &&& s.table.dom().finite()
    &&& frames_ok(s)
    &&& table_ok(s)
    &&& owners_ok(s)
    &&& free_ok(s)
    &&& loads_ok(s)
}

/// Which steps the threads make: only the loader of a page, and only once at a
/// time, goes on with its load, and it reports on the frame that it was given.
pub open spec fn allowed(s: PoolState, step: PoolStep) -> bool {
    match step {
        PoolStep::Fetch(p) => p != INVALID_PAGE_ID,
        PoolStep::Claim(p) => p != INVALID_PAGE_ID,
        PoolStep::Unpin(_, _) => true,
        PoolStep::Load(p) => s.is_loading(p) && !has_load_frame(s, p),
        PoolStep::VictimWritten(p, f, v) => s.is_loading(p) && !has_load_frame(s, p) && f
            < s.frames.len() && s.frames[f as int].state() == FRAME_EVICTING
            && s.frames[f as int].page_id == v,
        PoolStep::VictimWriteFailed(p, f, v) => s.is_loading(p) && !has_load_frame(s, p) && f
            < s.frames.len() && s.frames[f as int].state() == FRAME_EVICTING
            && s.frames[f as int].page_id == v,
        PoolStep::PageRead(p, f) => f < s.frames.len() && s.frames[f as int].state()
            == FRAME_LOADING && s.frames[f as int].page_id == p,
        PoolStep::PageReadFailed(p, f) => f < s.frames.len() && s.frames[f as int].state()
            == FRAME_LOADING && s.frames[f as int].page_id == p,
    }
}

/// The pool after a step.
pub open spec fn after(s: PoolState, step: PoolStep) -> PoolState {
    match step {
        PoolStep::Fetch(p) => s.after_fetch(p),
        PoolStep::Claim(p) => s.after_claim(p),
        PoolStep::Unpin(p, is_dirty) => s.after_unpin(p, is_dirty),
        PoolStep::Load(p) => s.after_load(p),
        PoolStep::VictimWritten(p, f, v) => s.after_victim_written(p, f, v),
        PoolStep::VictimWriteFailed(p, f, v) => s.after_victim_write_failed(p, f, v),
        PoolStep::PageRead(p, f) => s.after_page_read(p, f),
        PoolStep::PageReadFailed(p, f) => s.after_page_read_failed(p, f),
    }
}

/// A page with no frame fits into the page table.
proof fn lemma_table_has_room(s: PoolState)
    requires
        pool_inv(s),
    ensures
        s.table.len() <= s.frames.len(),
        s.table.len() < s.capacity,
{
    let n = s.frames.len() as int;
    let dom = s.table.dom();
    let f = |p: u64| s.table[p] as int;
    let image = dom.map(f);
    assert forall|a: u64, b: u64|
        dom.contains(a) && dom.contains(b) && #[trigger] f(a) == #[trigger] f(b) implies a == b by {
        assert(s.table.contains_key(a));
        assert(s.table.contains_key(b));
    }
    vstd::set_lib::lemma_map_size(dom, image, f);
    vstd::set_lib::lemma_int_range(0, n);
    assert forall|i: int| image.contains(i) implies vstd::set_lib::set_int_range(0, n).contains(
        i,
    ) by {
        let p = choose|p: u64| dom.contains(p) && f(p) == i;
        assert(s.table.contains_key(p));
    }
    vstd::set_lib::lemma_len_subset(image, vstd::set_lib::set_int_range(0, n));
}

/// A published frame whose word stays published and whose page stays the same
/// can change otherwise.
proof fn lemma_inv_touch(s: PoolState, f: int, frame: FrameMeta)
    requires
        pool_inv(s),
        0 <= f < s.frames.len(),
        published(s.frames[f]),
        published(frame),
        frame_ok(frame),
        frame.page_id == s.frames[f].page_id,
    ensures
        pool_inv(s.with_frame(f, frame)),
{
    let t = s.with_frame(f, frame);
    assert forall|g: int| 0 <= g < t.frames.len() && g != f implies t.frames[g]
        == #[trigger] s.frames[g] by {}
    assert(table_ok(t)) by {
        assert forall|p: u64| #[trigger] t.table.contains_key(p) implies t.table[p]
            < t.frames.len() && published(t.frames[t.table[p] as int])
            && t.frames[t.table[p] as int].page_id == p by {
            assert(s.table.contains_key(p));
        }
    }
    assert(free_ok(t)) by {
        assert forall|i: int| 0 <= i < t.free.len() implies (#[trigger] t.free[i])
            < t.frames.len() && t.frames[t.free[i] as int].state() == FRAME_FREE by {
            assert(s.free[i] < s.frames.len());
        }
        assert forall|g: int|
            0 <= g < t.frames.len() && (#[trigger] t.frames[g]).state()
                == FRAME_FREE implies listed(t.free, g) by {
            assert(s.frames[g].state() == FRAME_FREE);
        }
    }
    assert(loads_ok(t)) by {
        assert forall|p: u64| #[trigger] t.is_loading(p) implies !t.table.contains_key(p) && p
            != INVALID_PAGE_ID by {
            assert(s.is_loading(p));
        }
        assert forall|g: int|
            0 <= g < t.frames.len() && (#[trigger] t.frames[g]).state()
                == FRAME_LOADING implies t.is_loading(t.frames[g].page_id) by {
            assert(s.frames[g].state() == FRAME_LOADING);
            assert(s.is_loading(s.frames[g].page_id));
        }
    }
}

/// The usage counts of published frames can change up to their ceiling.
proof fn lemma_inv_usage(s: PoolState, t: PoolState)
    requires
        pool_inv(s),
        t == (PoolState { frames: t.frames, hand: t.hand, ..s }),
        t.frames.len() == s.frames.len(),
        forall|f: int|
            0 <= f < s.frames.len() ==> (#[trigger] t.frames[f]) == (FrameMeta {
                usage_count: t.frames[f].usage_count,
                ..s.frames[f]
            }) && t.frames[f].usage_count <= s.frames[f].usage_count,
    ensures
        pool_inv(t),
{
    assert(table_ok(t)) by {
        assert forall|p: u64| #[trigger] t.table.contains_key(p) implies t.table[p]
            < t.frames.len() && published(t.frames[t.table[p] as int])
            && t.frames[t.table[p] as int].page_id == p by {
            assert(s.table.contains_key(p));
        }
    }
    assert(frames_ok(t)) by {
        assert forall|f: int| 0 <= f < t.frames.len() implies frame_ok(#[trigger] t.frames[f]) by {
            assert(frame_ok(s.frames[f]));
        }
    }
    assert(owners_ok(t)) by {
        assert forall|f: int|
            0 <= f < t.frames.len() && published(#[trigger] t.frames[f]) implies t.table.contains_key(
            t.frames[f].page_id,
        ) && t.table[t.frames[f].page_id] == f by {
            assert(published(s.frames[f]));
        }
    }
    assert(free_ok(t)) by {
        assert forall|i: int| 0 <= i < t.free.len() implies (#[trigger] t.free[i])
            < t.frames.len() && t.frames[t.free[i] as int].state() == FRAME_FREE by {
            assert(s.free[i] < s.frames.len());
        }
        assert forall|g: int|
            0 <= g < t.frames.len() && (#[trigger] t.frames[g]).state()
                == FRAME_FREE implies listed(t.free, g) by {
            assert(s.frames[g].state() == FRAME_FREE);
        }
    }
    assert(loads_ok(t)) by {
        assert forall|p: u64| #[trigger] t.is_loading(p) implies !t.table.contains_key(p) && p
            != INVALID_PAGE_ID by {
            assert(s.is_loading(p));
        }
        assert forall|g: int|
            0 <= g < t.frames.len() && (#[trigger] t.frames[g]).state()
                == FRAME_LOADING implies t.is_loading(t.frames[g].page_id) by {
            assert(s.frames[g].state() == FRAME_LOADING);
            assert(s.is_loading(s.frames[g].page_id));
        }
        assert forall|f: int, g: int|
            0 <= f < t.frames.len() && 0 <= g < t.frames.len() && f != g && (
            #[trigger] t.frames[f]).state() == FRAME_LOADING && (#[trigger] t.frames[g]).state()
                == FRAME_LOADING implies t.frames[f].page_id != t.frames[g].page_id by {
            assert(s.frames[f].state() == FRAME_LOADING);
            assert(s.frames[g].state() == FRAME_LOADING);
        }
    }
}

/// A sweep keeps the invariant. A victim is ready, unpinned and published
/// before it is taken, and evicting afterwards.
proof fn lemma_inv_sweep(s: PoolState)
    requires
        pool_inv(s),
    ensures
        pool_inv(s.after_sweep()),
        s.sweep().victim matches Some(v) ==> v < s.frames.len()
            && s.after_sweep().frames[v as int].state() == FRAME_EVICTING
            && crate::storage::clock::evictable(s.frames[v as int])
            && s.after_sweep().frames[v as int].page_id == s.frames[v as int].page_id
            && s.after_sweep().frames[v as int].flags == s.frames[v as int].flags,
{
    crate::storage::clock::lemma_sweep_effect(
        s.frames,
        s.hand,
        crate::storage::clock::sweep_steps(s.frames.len()),
    );
    let swept = s.sweep();
    match swept.victim {
        None => {
            lemma_inv_usage(s, s.after_sweep());
        },
        Some(v) => {
            let kept = PoolState {
                frames: swept.frames.update(
                    v as int,
                    FrameMeta { usage_count: 0, ..s.frames[v as int] },
                ),
                hand: swept.hand,
                ..s
            };
            assert forall|f: int| 0 <= f < s.frames.len() implies (#[trigger] kept.frames[f]) == (
            FrameMeta { usage_count: kept.frames[f].usage_count, ..s.frames[f] })
                && kept.frames[f].usage_count <= s.frames[f].usage_count by {
                if f != v {
                    assert(swept.victim != Some(f as usize));
                    assert(kept.frames[f] == swept.frames[f]);
                }
            }
            lemma_inv_usage(s, kept);
            lemma_inv_touch(kept, v as int, swept.frames[v as int]);
            assert(kept.with_frame(v as int, swept.frames[v as int]) =~= s.after_sweep()) by {
                assert(kept.frames.update(v as int, swept.frames[v as int]) =~= swept.frames);
            }
        },
    }
}

/// Notifying a shard changes nothing that the invariant speaks of.
proof fn lemma_inv_notified(s: PoolState, page_id: u64)
    requires
        pool_inv(s),
    ensures
        pool_inv(s.notified(page_id)),
{
    let t = s.notified(page_id);
    assert forall|p: u64| t.is_loading(p) == s.is_loading(p) by {}
}

/// A loader that has no frame gives up.
proof fn lemma_inv_load_failure(s: PoolState, page_id: u64)
    requires
        pool_inv(s),
        !has_load_frame(s, page_id),
    ensures
        pool_inv(s.after_load_failure(page_id)),
{
    let t = s.load_ended(page_id);
    assert forall|p: u64| #[trigger] t.is_loading(p) == (s.is_loading(p) && p != page_id) by {}
    assert(loads_ok(t)) by {
        assert forall|p: u64| #[trigger] t.is_loading(p) implies !t.table.contains_key(p) && p
            != INVALID_PAGE_ID by {
            assert(s.is_loading(p));
        }
        assert forall|g: int|
            0 <= g < t.frames.len() && (#[trigger] t.frames[g]).state()
                == FRAME_LOADING implies t.is_loading(t.frames[g].page_id) by {
            assert(s.frames[g].state() == FRAME_LOADING);
            assert(s.is_loading(s.frames[g].page_id));
        }
    }
    assert(pool_inv(t));
    lemma_inv_notified(t, page_id);
}

/// A page is registered as being loaded.
proof fn lemma_inv_load_begun(s: PoolState, page_id: u64)
    requires
        pool_inv(s),
        !s.table.contains_key(page_id),
        page_id != INVALID_PAGE_ID,
    ensures
        pool_inv(s.load_begun(page_id)),
{
    let t = s.load_begun(page_id);
    assert forall|p: u64| #[trigger] t.is_loading(p) == (s.is_loading(p) || p == page_id) by {}
    assert(loads_ok(t)) by {
        assert forall|p: u64| #[trigger] t.is_loading(p) implies !t.table.contains_key(p) && p
            != INVALID_PAGE_ID by {
            if p != page_id {
                assert(s.is_loading(p));
            }
        }
        assert forall|g: int|
            0 <= g < t.frames.len() && (#[trigger] t.frames[g]).state()
                == FRAME_LOADING implies t.is_loading(t.frames[g].page_id) by {
            assert(s.frames[g].state() == FRAME_LOADING);
            assert(s.is_loading(s.frames[g].page_id));
        }
    }
}

/// The loader's frame while its page is being read.
pub open spec fn reading_frame(page_id: u64) -> FrameMeta {
    FrameMeta { page_id, state_and_pin: 0x10_0001, usage_count: 0, flags: 0 }
}

/// The loader of a page takes a free frame.
proof fn lemma_inv_take_free(s: PoolState, page_id: u64)
    requires
        pool_inv(s),
        s.is_loading(page_id),
        !has_load_frame(s, page_id),
        s.free.len() > 0,
    ensures
        s.reserve_step() == Ok::<ReserveStep, StorageError>(ReserveStep::Ready(s.free.last())),
        s.frames[s.free.last() as int].state() == FRAME_FREE,
        s.after_load(page_id) == (PoolState { free: s.free.drop_last(), ..s }).with_frame(
            s.free.last() as int,
            reading_frame(page_id),
        ),
        pool_inv(s.after_load(page_id)),
{
    let f = s.free.last() as int;
    assert(s.free[s.free.len() - 1] == f);
    assert(frame_ok(s.frames[f]));
    let t = s.after_load(page_id);
    assert(t =~= (PoolState { free: s.free.drop_last(), ..s }).with_frame(
        f,
        reading_frame(page_id),
    ));
    assert(t.frames[f] == reading_frame(page_id));
    assert(t.frames[f].state() == FRAME_LOADING);
    assert forall|i: int| 0 <= i < t.free.len() implies t.free[i] == #[trigger] s.free[i]
        && s.free[i] != f by {
        assert(s.free[i] != s.free[s.free.len() - 1]);
    }
    assert(table_ok(t)) by {
        assert forall|p: u64| #[trigger] t.table.contains_key(p) implies t.table[p]
            < t.frames.len() && published(t.frames[t.table[p] as int])
            && t.frames[t.table[p] as int].page_id == p by {
            assert(s.table.contains_key(p));
        }
    }
    assert(owners_ok(t)) by {
        assert forall|g: int|
            0 <= g < t.frames.len() && published(#[trigger] t.frames[g]) implies t.table.contains_key(
            t.frames[g].page_id,
        ) && t.table[t.frames[g].page_id] == g by {
            assert(published(s.frames[g]));
        }
    }
    assert(free_ok(t)) by {
        assert forall|i: int| 0 <= i < t.free.len() implies (#[trigger] t.free[i])
            < t.frames.len() && t.frames[t.free[i] as int].state() == FRAME_FREE by {
            assert(s.free[i] < s.frames.len());
        }
        assert forall|g: int|
            0 <= g < t.frames.len() && (#[trigger] t.frames[g]).state()
                == FRAME_FREE implies listed(t.free, g) by {
            assert(s.frames[g].state() == FRAME_FREE);
            let i = choose|i: int| 0 <= i < s.free.len() && #[trigger] s.free[i] == g;
            assert(t.free[i] == g);
        }
    }
    lemma_loads_with_frame(s, t, page_id, f);
}

/// The loader of a page gets a frame that was no loader's frame before.
proof fn lemma_loads_with_frame(s: PoolState, t: PoolState, page_id: u64, f: int)
    requires
        loads_ok(s),
        s.is_loading(page_id),
        !has_load_frame(s, page_id),
        0 <= f < s.frames.len(),
        t.frames == s.frames.update(f, reading_frame(page_id)),
        t.loading == s.loading,
        forall|p: u64| #[trigger] t.table.contains_key(p) ==> s.table.contains_key(p),
    ensures
        loads_ok(t),
{
    assert forall|p: u64| #[trigger] t.is_loading(p) implies !t.table.contains_key(p) && p
        != INVALID_PAGE_ID by {
        assert(s.is_loading(p));
    }
    assert forall|g: int|
        0 <= g < t.frames.len() && (#[trigger] t.frames[g]).state()
            == FRAME_LOADING implies t.is_loading(t.frames[g].page_id) by {
        if g != f {
            assert(s.frames[g].state() == FRAME_LOADING);
            assert(s.is_loading(s.frames[g].page_id));
        } else {
            assert(t.is_loading(page_id) == s.is_loading(page_id));
        }
    }
    assert forall|a: int, b: int|
        0 <= a < t.frames.len() && 0 <= b < t.frames.len() && a != b && (
        #[trigger] t.frames[a]).state() == FRAME_LOADING && (#[trigger] t.frames[b]).state()
            == FRAME_LOADING implies t.frames[a].page_id != t.frames[b].page_id by {
        if a != f {
            assert(s.frames[a].state() == FRAME_LOADING);
        }
        if b != f {
            assert(s.frames[b].state() == FRAME_LOADING);
        }
    }
}

/// The loader of a page takes over a victim whose content is on disk.
proof fn lemma_inv_take_victim(s: PoolState, page_id: u64, frame_id: usize)
    requires
        pool_inv(s),
        s.is_loading(page_id),
        !has_load_frame(s, page_id),
        frame_id < s.frames.len(),
        s.frames[frame_id as int].state() == FRAME_EVICTING,
    ensures
        ({
            let v = s.frames[frame_id as int].page_id;
            let t = s.after_detach(frame_id, v).after_read_begun(page_id, frame_id as int);
            &&& s.detach_result(frame_id, v) is Ok
            &&& s.table.contains_key(v) && s.table[v] == frame_id
            &&& t == (PoolState { table: s.table.remove(v), ..s }).with_frame(
                frame_id as int,
                reading_frame(page_id),
            ).notified(v)
            &&& pool_inv(t)
        }),
{
    let f = frame_id as int;
    let v = s.frames[f].page_id;
    assert(published(s.frames[f]));
    let u = (PoolState { table: s.table.remove(v), ..s }).with_frame(f, reading_frame(page_id));
    let t = s.after_detach(frame_id, v).after_read_begun(page_id, f);
    assert(t =~= u.notified(v)) by {
        assert(s.frames.update(f, PoolState::loader_frame()).update(f, reading_frame(page_id))
            =~= s.frames.update(f, reading_frame(page_id)));
    }
    assert(u.frames[f].state() == FRAME_LOADING);
    assert(table_ok(u)) by {
        assert forall|p: u64| #[trigger] u.table.contains_key(p) implies u.table[p]
            < u.frames.len() && published(u.frames[u.table[p] as int])
            && u.frames[u.table[p] as int].page_id == p by {
            assert(s.table.contains_key(p));
        }
    }
    assert(owners_ok(u)) by {
        assert forall|g: int|
            0 <= g < u.frames.len() && published(#[trigger] u.frames[g]) implies u.table.contains_key(
            u.frames[g].page_id,
        ) && u.table[u.frames[g].page_id] == g by {
            assert(published(s.frames[g]));
        }
    }
    assert(free_ok(u)) by {
        assert forall|i: int| 0 <= i < u.free.len() implies (#[trigger] u.free[i])
            < u.frames.len() && u.frames[u.free[i] as int].state() == FRAME_FREE by {
            assert(s.free[i] < s.frames.len());
        }
        assert forall|g: int|
            0 <= g < u.frames.len() && (#[trigger] u.frames[g]).state()
                == FRAME_FREE implies listed(u.free, g) by {
            assert(s.frames[g].state() == FRAME_FREE);
        }
    }
    lemma_loads_with_frame(s, u, page_id, f);
    assert(pool_inv(u));
    lemma_inv_notified(u, v);
}

/// The loader of a page publishes it.
proof fn lemma_inv_publish(s: PoolState, page_id: u64, frame_id: usize)
    requires
        pool_inv(s),
        frame_id < s.frames.len(),
        s.frames[frame_id as int].state() == FRAME_LOADING,
        s.frames[frame_id as int].page_id == page_id,
    ensures
        s.publish_result(page_id) is Ok,
        pool_inv(s.after_publish(page_id, frame_id)),
{
    let f = frame_id as int;
    assert(s.is_loading(page_id));
    lemma_table_has_room(s);
    let frame = FrameMeta { usage_count: 1, state_and_pin: 0x20_0001, ..s.frames[f] };
    let u = (PoolState { table: s.table.insert(page_id, frame_id), ..s }).with_frame(
        f,
        frame,
    ).load_ended(page_id);
    assert(s.after_publish(page_id, frame_id) == u.notified(page_id));
    assert forall|p: u64| #[trigger] u.is_loading(p) == (s.is_loading(p) && p != page_id) by {}
    assert(u.frames[f] == frame);
    assert(frame_ok(frame));
    assert(table_ok(u)) by {
        assert forall|p: u64| #[trigger] u.table.contains_key(p) implies u.table[p]
            < u.frames.len() && published(u.frames[u.table[p] as int])
            && u.frames[u.table[p] as int].page_id == p by {
            if p != page_id {
                assert(s.table.contains_key(p));
            }
        }
    }
    assert(owners_ok(u)) by {
        assert forall|g: int|
            0 <= g < u.frames.len() && published(#[trigger] u.frames[g]) implies u.table.contains_key(
            u.frames[g].page_id,
        ) && u.table[u.frames[g].page_id] == g by {
            if g != f {
                assert(published(s.frames[g]));
            }
        }
    }
    assert(free_ok(u)) by {
        assert forall|i: int| 0 <= i < u.free.len() implies (#[trigger] u.free[i])
            < u.frames.len() && u.frames[u.free[i] as int].state() == FRAME_FREE by {
            assert(s.free[i] < s.frames.len());
        }
        assert forall|g: int|
            0 <= g < u.frames.len() && (#[trigger] u.frames[g]).state()
                == FRAME_FREE implies listed(u.free, g) by {
            assert(s.frames[g].state() == FRAME_FREE);
        }
    }
    lemma_loads_without_frame(s, u, page_id, f);
    assert(pool_inv(u));
    lemma_inv_notified(u, page_id);
}

/// The loader of a page has given up or published its frame.
proof fn lemma_loads_without_frame(s: PoolState, u: PoolState, page_id: u64, f: int)
    requires
        loads_ok(s),
        0 <= f < s.frames.len(),
        s.frames[f].state() == FRAME_LOADING,
        s.frames[f].page_id == page_id,
        u.frames.len() == s.frames.len(),
        forall|g: int|
            0 <= g < s.frames.len() && g != f ==> #[trigger] u.frames[g] == s.frames[g],
        u.frames[f].state() != FRAME_LOADING,
        forall|p: u64| #[trigger] u.is_loading(p) == (s.is_loading(p) && p != page_id),
        forall|p: u64| #[trigger]
            u.table.contains_key(p) ==> s.table.contains_key(p) || p == page_id,
    ensures
        loads_ok(u),
{
    assert forall|p: u64| #[trigger] u.is_loading(p) implies !u.table.contains_key(p) && p
        != INVALID_PAGE_ID by {
        assert(s.is_loading(p));
    }
    assert forall|g: int|
        0 <= g < u.frames.len() && (#[trigger] u.frames[g]).state()
            == FRAME_LOADING implies u.is_loading(u.frames[g].page_id) by {
        assert(s.frames[g].state() == FRAME_LOADING);
        assert(s.is_loading(s.frames[g].page_id));
        assert(s.frames[g].page_id != s.frames[f].page_id);
    }
    assert forall|a: int, b: int|
        0 <= a < u.frames.len() && 0 <= b < u.frames.len() && a != b && (
        #[trigger] u.frames[a]).state() == FRAME_LOADING && (#[trigger] u.frames[b]).state()
            == FRAME_LOADING implies u.frames[a].page_id != u.frames[b].page_id by {
        assert(s.frames[a].state() == FRAME_LOADING);
        assert(s.frames[b].state() == FRAME_LOADING);
    }
}

/// The loader of a page gives its frame back and gives up.
proof fn lemma_inv_give_back(s: PoolState, page_id: u64, frame_id: usize)
    requires
        pool_inv(s),
        frame_id < s.frames.len(),
        s.frames[frame_id as int].state() == FRAME_LOADING,
        s.frames[frame_id as int].page_id == page_id,
    ensures
        pool_inv(s.after_page_read_failed(page_id, frame_id)),
{
    let f = frame_id as int;
    let r = s.after_release(frame_id);
    let u = r.load_ended(page_id);
    assert(s.after_page_read_failed(page_id, frame_id) == u.notified(page_id));
    assert forall|p: u64| #[trigger] u.is_loading(p) == (s.is_loading(p) && p != page_id) by {}
    assert(u.frames[f] == FrameMeta::spec_empty());
    assert(table_ok(u)) by {
        assert forall|p: u64| #[trigger] u.table.contains_key(p) implies u.table[p]
            < u.frames.len() && published(u.frames[u.table[p] as int])
            && u.frames[u.table[p] as int].page_id == p by {
            assert(s.table.contains_key(p));
        }
    }
    assert(owners_ok(u)) by {
        assert forall|g: int|
            0 <= g < u.frames.len() && published(#[trigger] u.frames[g]) implies u.table.contains_key(
            u.frames[g].page_id,
        ) && u.table[u.frames[g].page_id] == g by {
            assert(published(s.frames[g]));
        }
    }
    assert forall|i: int| 0 <= i < s.free.len() implies u.free[i] == #[trigger] s.free[i]
        && s.free[i] != frame_id by {}
    assert(u.free[s.free.len() as int] == frame_id);
    assert(free_ok(u)) by {
        assert forall|i: int| 0 <= i < u.free.len() implies (#[trigger] u.free[i])
            < u.frames.len() && u.frames[u.free[i] as int].state() == FRAME_FREE by {
            if i < s.free.len() {
                assert(s.free[i] < s.frames.len());
            }
        }
        assert forall|i: int, j: int| 0 <= i < j < u.free.len() implies #[trigger] u.free[i]
            != #[trigger] u.free[j] by {
            assert(u.free[i] == s.free[i]);
            if j < s.free.len() {
                assert(u.free[j] == s.free[j]);
            }
        }
        assert forall|g: int|
            0 <= g < u.frames.len() && (#[trigger] u.frames[g]).state()
                == FRAME_FREE implies listed(u.free, g) by {
            if g != f {
                assert(s.frames[g].state() == FRAME_FREE);
                let i = choose|i: int| 0 <= i < s.free.len() && #[trigger] s.free[i] == g;
                assert(u.free[i] == g);
            }
        }
    }
    lemma_loads_without_frame(s, u, page_id, f);
    assert(pool_inv(u));
    lemma_inv_notified(u, page_id);
}

/// A pool that holds no page satisfies the invariant.
pub proof fn law_initial(frame_count: nat, capacity: nat, next_page: u64)
    requires
        0 < frame_count,
        frame_count * 5 <= usize::MAX,
        capacity > frame_count,
    ensures
        pool_inv(PoolState::initial(frame_count, capacity, next_page)),
{
    let s = PoolState::initial(frame_count, capacity, next_page);
    assert forall|p: u64| !#[trigger] s.is_loading(p) by {}
    assert forall|f: int| 0 <= f < s.frames.len() implies listed(s.free, f) by {
        assert(s.free[frame_count - 1 - f] == f);
    }
}

/// Every step that the threads make keeps the invariant of the pool.
pub proof fn law_invariant_is_kept(s: PoolState, step: PoolStep)
    requires
        pool_inv(s),
        allowed(s, step),
    ensures
        pool_inv(after(s, step)),
{
    match step {
        PoolStep::Fetch(p) => {
            if s.table.contains_key(p) {
                let f = s.table[p] as int;
                assert(frame_ok(s.frames[f]));
                if s.frames[f].pin_outcome(p) == Ok::<PinResult, StorageError>(PinResult::Pinned) {
                    lemma_inv_touch(s, f, s.frames[f].after_pin(p));
                }
            } else if !s.is_loading(p) {
                lemma_inv_load_begun(s, p);
            }
        },
        PoolStep::Claim(p) => {
            if !s.table.contains_key(p) && !s.is_loading(p) {
                lemma_inv_load_begun(s, p);
            }
        },
        PoolStep::Unpin(p, is_dirty) => {
            if s.unpin_result(p) is Ok {
                let f = s.table[p] as int;
                assert(frame_ok(s.frames[f]));
                lemma_inv_touch(s, f, s.frames[f].after_unpin(p, is_dirty));
            }
        },
        PoolStep::Load(p) => {
            law_load_outcome(s, p);
        },
        PoolStep::VictimWritten(p, f, v) => {
            lemma_inv_take_victim(s, p, f);
        },
        PoolStep::VictimWriteFailed(p, f, v) => {
            let frame = s.frames[f as int];
            let restored = FrameMeta {
                state_and_pin: 0x20_0000,
                flags: crate::storage::page::settled_flags(frame.flags) as u8,
                ..frame
            };
            assert(frame_ok(frame));
            lemma_inv_touch(s, f as int, restored);
            let t = s.with_frame(f as int, restored);
            lemma_inv_notified(t, v);
            let u = t.notified(v);
            assert(!has_load_frame(u, p)) by {
                if has_load_frame(u, p) {
                    let g = choose|g: int|
                        0 <= g < u.frames.len() && (#[trigger] u.frames[g]).state()
                            == FRAME_LOADING && u.frames[g].page_id == p;
                    assert(s.frames[g].state() == FRAME_LOADING);
                }
            }
            lemma_inv_load_failure(u, p);
        },
        PoolStep::PageRead(p, f) => {
            lemma_inv_publish(s, p, f);
        },
        PoolStep::PageReadFailed(p, f) => {
            lemma_inv_give_back(s, p, f);
        },
    }
}

/// The start of a load fails only because every frame is pinned or busy, and
/// keeps the invariant either way.
pub proof fn law_load_outcome(s: PoolState, page_id: u64)
    requires
        pool_inv(s),
        s.is_loading(page_id),
        !has_load_frame(s, page_id),
    ensures
        pool_inv(s.after_load(page_id)),
        s.load_step() is Err <==> s.free.len() == 0 && forall|f: int|
            0 <= f < s.frames.len() ==> !crate::storage::clock::evictable(#[trigger] s.frames[f]),
        s.load_step() matches Err(error) ==> error == StorageError::NoVictim,
{
    if s.free.len() > 0 {
        lemma_inv_take_free(s, page_id);
    } else {
        lemma_inv_sweep(s);
        crate::storage::clock::law_sweep_finds_a_victim(s.frames, s.hand);
        crate::storage::clock::lemma_sweep_effect(
            s.frames,
            s.hand,
            crate::storage::clock::sweep_steps(s.frames.len()),
        );
        let t = s.after_sweep();
        assert(t.is_loading(page_id) == s.is_loading(page_id));
        assert(!has_load_frame(t, page_id)) by {
            if has_load_frame(t, page_id) {
                let g = choose|g: int|
                    0 <= g < t.frames.len() && (#[trigger] t.frames[g]).state() == FRAME_LOADING
                        && t.frames[g].page_id == page_id;
                assert(s.sweep().victim != Some(g as usize));
                assert(s.sweep().frames[g] == t.frames[g]);
                assert(s.frames[g].state() == FRAME_LOADING);
            }
        }
        match s.sweep().victim {
            None => {
                lemma_inv_load_failure(t, page_id);
            },
            Some(v) => {
                let frame = t.frames[v as int];
                assert(frame_ok(frame));
                if frame.dirty() {
                    lemma_inv_touch(
                        t,
                        v as int,
                        FrameMeta {
                            flags: crate::storage::page::writeback_flags(frame.flags) as u8,
                            ..frame
                        },
                    );
                } else {
                    lemma_inv_take_victim(t, page_id, v);
                }
            },
        }
    }
}

/// The pool after a number of steps.
pub open spec fn after_steps(s: PoolState, steps: Seq<PoolStep>) -> PoolState
    decreases steps.len(),
{
    if steps.len() == 0 {
        s
    } else {
        after(after_steps(s, steps.drop_last()), steps.last())
    }
}

/// Every step was one that the threads make.
pub open spec fn steps_allowed(s: PoolState, steps: Seq<PoolStep>) -> bool
    decreases steps.len(),
{
    steps.len() == 0 || (steps_allowed(s, steps.drop_last()) && allowed(
        after_steps(s, steps.drop_last()),
        steps.last(),
    ))
}

/// The invariant holds at all times, however the steps of the threads
/// interleave.
pub proof fn law_invariant_always_holds(s: PoolState, steps: Seq<PoolStep>)
    requires
        pool_inv(s),
        steps_allowed(s, steps),
    ensures
        pool_inv(after_steps(s, steps)),
    decreases steps.len(),
{
    if steps.len() > 0 {
        law_invariant_always_holds(s, steps.drop_last());
        law_invariant_is_kept(after_steps(s, steps.drop_last()), steps.last());
    }
}

/// No page is in two frames, not even while it is being loaded.
pub proof fn law_page_has_one_frame(s: PoolState, f: int, g: int)
    requires
        pool_inv(s),
        0 <= f < s.frames.len(),
        0 <= g < s.frames.len(),
        s.frames[f].state() != FRAME_FREE,
        s.frames[g].state() != FRAME_FREE,
        s.frames[f].page_id == s.frames[g].page_id,
    ensures
        f == g,
{
    assert(published(s.frames[f]) || s.frames[f].state() == FRAME_LOADING);
    assert(published(s.frames[g]) || s.frames[g].state() == FRAME_LOADING);
    if published(s.frames[f]) && !published(s.frames[g]) {
        assert(s.is_loading(s.frames[g].page_id));
    }
    if published(s.frames[g]) && !published(s.frames[f]) {
        assert(s.is_loading(s.frames[f].page_id));
    }
}

/// The page is being loaded before and after each of the steps.
pub open spec fn loading_throughout(s: PoolState, steps: Seq<PoolStep>, page_id: u64) -> bool
    decreases steps.len(),
{
    &&& after_steps(s, steps).is_loading(page_id)
    &&& steps.len() == 0 || loading_throughout(s, steps.drop_last(), page_id)
}

/// From the moment when one thread has become the loader of a page until its
/// load ends, no other thread becomes its loader, whatever the threads do.
pub proof fn law_one_loader(s: PoolState, steps: Seq<PoolStep>, page_id: u64)
    requires
        pool_inv(s),
        page_id != INVALID_PAGE_ID,
        s.fetch_step(page_id) == Ok::<FetchStep, StorageError>(FetchStep::Load),
        steps_allowed(s.after_fetch(page_id), steps),
        loading_throughout(s.after_fetch(page_id), steps, page_id),
    ensures
        after_steps(s.after_fetch(page_id), steps).fetch_step(page_id) == Ok::<
            FetchStep,
            StorageError,
        >(FetchStep::Loading),
        after_steps(s.after_fetch(page_id), steps).claim_step(page_id) == ClaimStep::Wait,
{
    law_invariant_is_kept(s, PoolStep::Fetch(page_id));
    law_invariant_always_holds(s.after_fetch(page_id), steps);
}

/// The step is one that the loader of the page makes.
pub open spec fn loader_step(step: PoolStep, page_id: u64) -> bool {
    match step {
        PoolStep::Load(p) => p == page_id,
        PoolStep::VictimWritten(p, _, _) => p == page_id,
        PoolStep::VictimWriteFailed(p, _, _) => p == page_id,
        PoolStep::PageRead(p, _) => p == page_id,
        PoolStep::PageReadFailed(p, _) => p == page_id,
        _ => false,
    }
}

/// Only the loader of a page ends its load.
#[verifier::rlimit(40)]
pub proof fn law_only_the_loader_ends_a_load(s: PoolState, step: PoolStep, page_id: u64)
    requires
        pool_inv(s),
        allowed(s, step),
        s.is_loading(page_id),
        !loader_step(step, page_id),
    ensures
        after(s, step).is_loading(page_id),
{
    match step {
        PoolStep::Load(p) => {
            if s.free.len() > 0 {
                lemma_inv_take_free(s, p);
            } else {
                lemma_inv_sweep(s);
                law_load_outcome(s, p);
            }
        },
        PoolStep::PageRead(p, g) => {
            lemma_inv_publish(s, p, g);
        },
        PoolStep::VictimWritten(p, g, v) => {
            lemma_inv_take_victim(s, p, g);
        },
        _ => {},
    }
}

/// A fetch of a page that is in the pool pins it unless the frame is being
/// evicted or has no room for another pin; nothing else can happen.
pub proof fn law_fetch_outcome(s: PoolState, page_id: u64)
    requires
        pool_inv(s),
        s.table.contains_key(page_id),
    ensures
        ({
            let f = s.table[page_id];
            let frame = s.frames[f as int];
            s.fetch_step(page_id) == (if frame.state() == FRAME_EVICTING {
                Ok(FetchStep::Busy(f))
            } else if frame.pins() == crate::storage::page::PIN_MASK {
                Err(StorageError::PinOverflow)
            } else {
                Ok(FetchStep::Pinned(f))
            })
        }),
{
}

/// A page that was fetched can be unpinned: the pin is on the frame that the
/// page table names.
pub proof fn law_fetched_page_can_be_unpinned(s: PoolState, page_id: u64)
    requires
        pool_inv(s),
        s.fetch_step(page_id) matches Ok(FetchStep::Pinned(_)),
    ensures
        s.after_fetch(page_id).unpin_result(page_id) is Ok,
        s.after_fetch(page_id).after_unpin(page_id, false).frames[s.table[page_id] as int].pins()
            == s.frames[s.table[page_id] as int].pins(),
{
    let f = s.table[page_id] as int;
    assert(frame_ok(s.frames[f]));
    crate::storage::page::law_unpin_undoes_pin(s.frames[f], page_id);
}

/// A load that has come to its end succeeds: the page is in the page table, in
/// the loader's frame, clean and with the loader's pin on it.
pub proof fn law_load_ends_pinned(s: PoolState, page_id: u64, frame_id: usize)
    requires
        pool_inv(s),
        allowed(s, PoolStep::PageRead(page_id, frame_id)),
    ensures
        s.publish_result(page_id) is Ok,
        ({
            let t = after(s, PoolStep::PageRead(page_id, frame_id));
            &&& t.table.contains_key(page_id)
            &&& t.table[page_id] == frame_id
            &&& t.frames[frame_id as int].page_id == page_id
            &&& t.frames[frame_id as int].state() == FRAME_READY
            &&& t.frames[frame_id as int].pins() == 1
            &&& !t.frames[frame_id as int].dirty()
            &&& t.frames[frame_id as int].usage_count == 1
            &&& !t.is_loading(page_id)
        }),
{
    assert(s.is_loading(page_id));
    lemma_table_has_room(s);
}

/// A load that fails leaves no trace of the page: the next fetch tries again.
pub proof fn law_failed_load_can_be_tried_again(s: PoolState, page_id: u64, frame_id: usize)
    requires
        pool_inv(s),
        allowed(s, PoolStep::PageReadFailed(page_id, frame_id)),
    ensures
        after(s, PoolStep::PageReadFailed(page_id, frame_id)).fetch_step(page_id) == Ok::<
            FetchStep,
            StorageError,
        >(FetchStep::Load),
        after(s, PoolStep::PageReadFailed(page_id, frame_id)).frames[frame_id as int]
            == FrameMeta::spec_empty(),
{
    assert(s.is_loading(page_id));
}

/// A failed write-back loses nothing: the page can still be found in its frame,
/// and a dirty frame is still dirty, so that it is written again later.
pub proof fn law_failed_write_loses_nothing(s: PoolState, page_id: u64, f: usize, victim: u64)
    requires
        pool_inv(s),
        allowed(s, PoolStep::VictimWriteFailed(page_id, f, victim)),
    ensures
        ({
            let t = after(s, PoolStep::VictimWriteFailed(page_id, f, victim));
            &&& t.table.contains_key(victim)
            &&& t.table[victim] == f
            &&& t.frames[f as int].page_id == victim
            &&& t.frames[f as int].state() == FRAME_READY
            &&& t.frames[f as int].dirty() == s.frames[f as int].dirty()
            &&& !t.is_loading(page_id)
        }),
{
    assert(frame_ok(s.frames[f as int]));
}

/// The step gives back a pin of the page.
pub open spec fn unpins(step: PoolStep, page_id: u64) -> bool {
    step matches PoolStep::Unpin(p, _) && p == page_id
}

/// While a frame is pinned, no other thread's step takes it, gives it another
/// page, or makes it forget that it is dirty. Only an unpin of its page lowers
/// its pin count.
#[verifier::rlimit(40)]
pub proof fn law_pinned_frame_is_safe(s: PoolState, step: PoolStep, f: int)
    requires
        pool_inv(s),
        allowed(s, step),
        0 <= f < s.frames.len(),
        s.frames[f].state() == FRAME_READY,
        s.frames[f].pins() > 0,
    ensures
        after(s, step).frames[f].page_id == s.frames[f].page_id,
        after(s, step).frames[f].state() == FRAME_READY,
        !unpins(step, s.frames[f].page_id) ==> after(s, step).frames[f].pins()
            >= s.frames[f].pins(),
        after(s, step).frames[f].pins() >= s.frames[f].pins() - 1,
        s.frames[f].dirty() ==> after(s, step).frames[f].dirty(),
{
    assert(frame_ok(s.frames[f]));
    match step {
        PoolStep::Fetch(p) => {
            if s.table.contains_key(p) {
                assert(frame_ok(s.frames[s.table[p] as int]));
            }
        },
        PoolStep::Unpin(p, is_dirty) => {
            if s.unpin_result(p) is Ok {
                assert(frame_ok(s.frames[s.table[p] as int]));
            }
        },
        PoolStep::Load(p) => {
            if s.free.len() > 0 {
                assert(s.free[s.free.len() - 1] == s.free.last());
            } else {
                crate::storage::clock::lemma_sweep_effect(
                    s.frames,
                    s.hand,
                    crate::storage::clock::sweep_steps(s.frames.len()),
                );
                lemma_inv_sweep(s);
                assert(s.sweep().victim != Some(f as usize));
                assert(s.sweep().frames[f] == s.frames[f]);
            }
        },
        PoolStep::PageRead(p, g) => {
            lemma_inv_publish(s, p, g);
        },
        _ => {},
    }
}

/// The frame is pinned before and after each of the steps.
pub open spec fn pinned_throughout(s: PoolState, steps: Seq<PoolStep>, f: int) -> bool
    decreases steps.len(),
{
    &&& after_steps(s, steps).frames[f].pins() > 0
    &&& steps.len() == 0 || pinned_throughout(s, steps.drop_last(), f)
}

/// From the moment when a thread has pinned a ready frame until it gives the
/// pin back, the frame holds the same page. So a second look at the page id
/// tells which page the frame held when it was pinned.
pub proof fn law_page_stays_while_pinned(s: PoolState, steps: Seq<PoolStep>, f: int)
    requires
        pool_inv(s),
        steps_allowed(s, steps),
        0 <= f < s.frames.len(),
        s.frames[f].state() == FRAME_READY,
        pinned_throughout(s, steps, f),
    ensures
        after_steps(s, steps).frames.len() == s.frames.len(),
        after_steps(s, steps).frames[f].page_id == s.frames[f].page_id,
        after_steps(s, steps).frames[f].state() == FRAME_READY,
        s.frames[f].dirty() ==> after_steps(s, steps).frames[f].dirty(),
    decreases steps.len(),
{
    if steps.len() > 0 {
        let earlier = after_steps(s, steps.drop_last());
        law_page_stays_while_pinned(s, steps.drop_last(), f);
        law_invariant_always_holds(s, steps.drop_last());
        law_pinned_frame_is_safe(earlier, steps.last(), f);
        lemma_frame_count_stays(earlier, steps.last());
    }
}

proof fn lemma_frame_count_stays(s: PoolState, step: PoolStep)
    requires
        pool_inv(s),
        allowed(s, step),
    ensures
        after(s, step).frames.len() == s.frames.len(),
{
    match step {
        PoolStep::Load(p) => {
            crate::storage::clock::lemma_sweep_effect(
                s.frames,
                s.hand,
                crate::storage::clock::sweep_steps(s.frames.len()),
            );
            if s.free.len() > 0 {
                assert(s.free[s.free.len() - 1] == s.free.last());
            }
            assert(s.after_reserve().frames.len() == s.frames.len());
        },
        PoolStep::VictimWritten(p, f, v) => {
            assert(s.after_detach(f, v).frames.len() == s.frames.len());
        },
        PoolStep::PageRead(p, f) => {
            assert(s.after_publish(p, f).frames.len() == s.frames.len());
        },
        _ => {},
    }
}

/// What a reader of the page finds: the content of its frame, or what is on
/// disk if it has none.
pub open spec fn content(
    s: PoolState,
    data: Seq<Seq<u8>>,
    disk: Map<u64, Seq<u8>>,
    page_id: u64,
) -> Seq<u8> {
    if s.table.contains_key(page_id) {
        data[s.table[page_id] as int]
    } else {
        disk[page_id]
    }
}

/// The frame holds the page, clean, and nobody has pinned it.
pub open spec fn idle_clean(frame: FrameMeta, page_id: u64) -> bool {
    published(frame) && frame.page_id == page_id && frame.pins() == 0 && !frame.dirty()
}

/// A clean frame of the page that nobody has pinned holds what is on disk.
pub open spec fn coherent(
    s: PoolState,
    data: Seq<Seq<u8>>,
    disk: Map<u64, Seq<u8>>,
    page_id: u64,
) -> bool {
    &&& data.len() == s.frames.len()
    &&& forall|f: int|
        0 <= f < s.frames.len() && idle_clean(#[trigger] s.frames[f], page_id) ==> data[f]
            == disk[page_id]
}

/// The frames' contents after a step: a page that was read is in its frame.
pub open spec fn data_after(
    step: PoolStep,
    data: Seq<Seq<u8>>,
    disk: Map<u64, Seq<u8>>,
) -> Seq<Seq<u8>> {
    match step {
        PoolStep::PageRead(p, f) => data.update(f as int, disk[p]),
        _ => data,
    }
}

/// The disk after a step: a page that was written is on it.
pub open spec fn disk_after(
    step: PoolStep,
    data: Seq<Seq<u8>>,
    disk: Map<u64, Seq<u8>>,
) -> Map<u64, Seq<u8>> {
    match step {
        PoolStep::VictimWritten(_, f, v) => disk.insert(v, data[f as int]),
        _ => disk,
    }
}

/// A thread that gives back the last pin of the page's clean frame as clean has
/// not changed its content.
pub open spec fn honest(
    s: PoolState,
    step: PoolStep,
    data: Seq<Seq<u8>>,
    disk: Map<u64, Seq<u8>>,
    page_id: u64,
) -> bool {
    match step {
        PoolStep::Unpin(p, is_dirty) => {
            let f = s.table[p] as int;
            p == page_id && s.unpin_result(p) is Ok && s.frames[f].pins() == 1
                && !s.frames[f].dirty() && !is_dirty ==> data[f] == disk[p]
        },
        _ => true,
    }
}

/// No step of the pool changes what a reader finds in a page whose threads are
/// honest: a page that was written, unpinned as dirty, evicted and fetched again
/// has the content that it was given.
#[verifier::rlimit(40)]
pub proof fn law_contents_are_kept(
    s: PoolState,
    step: PoolStep,
    data: Seq<Seq<u8>>,
    disk: Map<u64, Seq<u8>>,
    page_id: u64,
)
    requires
        pool_inv(s),
        allowed(s, step),
        coherent(s, data, disk, page_id),
        honest(s, step, data, disk, page_id),
    ensures
        coherent(
            after(s, step),
            data_after(step, data, disk),
            disk_after(step, data, disk),
            page_id,
        ),
        content(
            after(s, step),
            data_after(step, data, disk),
            disk_after(step, data, disk),
            page_id,
        ) == content(s, data, disk, page_id),
{
    let t = after(s, step);
    let data2 = data_after(step, data, disk);
    let disk2 = disk_after(step, data, disk);
    match step {
        PoolStep::Fetch(p) => {
            if s.table.contains_key(p) {
                assert(frame_ok(s.frames[s.table[p] as int]));
            }
        },
        PoolStep::Claim(p) => {},
        PoolStep::Unpin(p, is_dirty) => {
            if s.unpin_result(p) is Ok {
                let f = s.table[p] as int;
                assert(frame_ok(s.frames[f]));
                assert forall|g: int|
                    0 <= g < t.frames.len() && idle_clean(#[trigger] t.frames[g], page_id) implies data2[g]
                    == disk2[page_id] by {
                    if g != f {
                        assert(t.frames[g] == s.frames[g]);
                    }
                }
            }
        },
        PoolStep::Load(p) => {
            lemma_contents_load(s, p, data, disk, page_id);
        },
        PoolStep::VictimWritten(p, f, v) => {
            lemma_inv_take_victim(s, p, f);
            assert forall|g: int|
                0 <= g < t.frames.len() && idle_clean(#[trigger] t.frames[g], page_id) implies data2[g]
                    == disk2[page_id] by {
                assert(g != f);
                assert(t.frames[g] == s.frames[g]);
                if s.frames[g].page_id == v {
                    law_page_has_one_frame(s, g, f as int);
                }
            }
        },
        PoolStep::VictimWriteFailed(p, f, v) => {
            assert forall|g: int|
                0 <= g < t.frames.len() && idle_clean(#[trigger] t.frames[g], page_id) implies data2[g]
                    == disk2[page_id] by {
                assert(frame_ok(s.frames[g]));
                assert(published(s.frames[g]));
            }
        },
        PoolStep::PageRead(p, f) => {
            lemma_inv_publish(s, p, f);
            assert(s.is_loading(p));
            assert forall|g: int|
                0 <= g < t.frames.len() && idle_clean(#[trigger] t.frames[g], page_id) implies data2[g]
                    == disk2[page_id] by {
                assert(g != f);
                assert(t.frames[g] == s.frames[g]);
            }
            if s.table.contains_key(page_id) {
                assert(s.table[page_id] != f);
            }
        },
        PoolStep::PageReadFailed(p, f) => {
            assert forall|g: int|
                0 <= g < t.frames.len() && idle_clean(#[trigger] t.frames[g], page_id) implies data2[g]
                    == disk2[page_id] by {
                assert(g != f);
                assert(t.frames[g] == s.frames[g]);
            }
        },
    }
}

proof fn lemma_contents_load(
    s: PoolState,
    p: u64,
    data: Seq<Seq<u8>>,
    disk: Map<u64, Seq<u8>>,
    page_id: u64,
)
    requires
        pool_inv(s),
        s.is_loading(p),
        !has_load_frame(s, p),
        coherent(s, data, disk, page_id),
    ensures
        coherent(s.after_load(p), data, disk, page_id),
        content(s.after_load(p), data, disk, page_id) == content(s, data, disk, page_id),
{
    let t = s.after_load(p);
    if s.free.len() > 0 {
        lemma_inv_take_free(s, p);
        assert forall|g: int|
            0 <= g < t.frames.len() && idle_clean(#[trigger] t.frames[g], page_id) implies data[g] == disk[page_id] by {
            assert(t.frames[g] == s.frames[g]);
        }
    } else {
        crate::storage::clock::lemma_sweep_effect(
            s.frames,
            s.hand,
            crate::storage::clock::sweep_steps(s.frames.len()),
        );
        lemma_inv_sweep(s);
        let u = s.after_sweep();
        assert(coherent(u, data, disk, page_id)) by {
            assert forall|g: int|
                0 <= g < u.frames.len() && idle_clean(#[trigger] u.frames[g], page_id) implies data[g] == disk[page_id] by {
                if s.sweep().victim != Some(g as usize) {
                    assert(s.sweep().frames[g] == u.frames[g]);
                    assert(published(s.frames[g]));
                }
            }
        }
        if let Some(v) = s.sweep().victim {
            let frame = u.frames[v as int];
            assert(frame_ok(frame));
            if frame.dirty() {
                assert forall|g: int|
                    0 <= g < t.frames.len() && idle_clean(#[trigger] t.frames[g], page_id) implies data[g]
                    == disk[page_id] by {
                    assert(u.frames[g].page_id == t.frames[g].page_id);
                    assert(published(u.frames[g]));
                }
            } else {
                assert(u.is_loading(p) == s.is_loading(p));
                assert(!has_load_frame(u, p)) by {
                    if has_load_frame(u, p) {
                        let g = choose|g: int|
                            0 <= g < u.frames.len() && (#[trigger] u.frames[g]).state()
                                == FRAME_LOADING && u.frames[g].page_id == p;
                        assert(s.sweep().victim != Some(g as usize));
                        assert(s.sweep().frames[g] == u.frames[g]);
                        assert(s.frames[g].state() == FRAME_LOADING);
                    }
                }
                lemma_inv_take_victim(u, p, v);
                assert forall|g: int|
                    0 <= g < t.frames.len() && idle_clean(#[trigger] t.frames[g], page_id) implies data[g]
                    == disk[page_id] by {
                    assert(g != v);
                    assert(t.frames[g] == u.frames[g]);
                }
            }
        }
    }
}

/// A thread that has pinned a page and writes to its frame changes that page
/// and no other.
pub proof fn law_write_changes_one_page(
    s: PoolState,
    data: Seq<Seq<u8>>,
    disk: Map<u64, Seq<u8>>,
    f: int,
    bytes: Seq<u8>,
    page_id: u64,
)
    requires
        pool_inv(s),
        coherent(s, data, disk, page_id),
        0 <= f < s.frames.len(),
        s.frames[f].state() == FRAME_READY,
        s.frames[f].pins() > 0,
    ensures
        coherent(s, data.update(f, bytes), disk, page_id),
        content(s, data.update(f, bytes), disk, page_id) == (if page_id == s.frames[f].page_id {
            bytes
        } else {
            content(s, data, disk, page_id)
        }),
{
    assert(published(s.frames[f]));
    if s.table.contains_key(page_id) && page_id != s.frames[f].page_id {
        assert(s.table[page_id] != f);
    }
}

/// A thread that sleeps because a frame is busy is notified by the very step
/// that makes the frame ready or takes the page out of it.
#[verifier::rlimit(40)]
pub proof fn law_no_lost_wakeup(s: PoolState, step: PoolStep, page_id: u64, frame_id: usize)
    requires
        pool_inv(s),
        allowed(s, step),
        frame_id < s.frames.len(),
        s.wait_step(page_id, frame_id) == Ok::<WaitStep, StorageError>(WaitStep::Sleep),
        after(s, step).wait_step(page_id, frame_id) != Ok::<WaitStep, StorageError>(
            WaitStep::Sleep,
        ),
    ensures
        after(s, step).changes[crate::storage::pool_state::shard_of(page_id)]
            != s.changes[crate::storage::pool_state::shard_of(page_id)],
{
    let f = frame_id as int;
    assert(frame_ok(s.frames[f]));
    assert(s.frames[f].state() == FRAME_EVICTING);
    match step {
        PoolStep::Fetch(p) => {
            if s.table.contains_key(p) {
                assert(frame_ok(s.frames[s.table[p] as int]));
            }
        },
        PoolStep::Unpin(p, _) => {
            if s.unpin_result(p) is Ok {
                assert(frame_ok(s.frames[s.table[p] as int]));
            }
        },
        PoolStep::Load(p) => {
            if s.free.len() > 0 {
                assert(s.free[s.free.len() - 1] == s.free.last());
                lemma_inv_take_free(s, p);
            } else {
                crate::storage::clock::lemma_sweep_effect(
                    s.frames,
                    s.hand,
                    crate::storage::clock::sweep_steps(s.frames.len()),
                );
                lemma_inv_sweep(s);
                assert(s.sweep().victim != Some(frame_id));
                assert(s.sweep().frames[f] == s.frames[f]);
                if let Some(v) = s.sweep().victim {
                    assert(frame_ok(s.after_sweep().frames[v as int]));
                }
            }
        },
        PoolStep::PageRead(p, g) => {
            lemma_inv_publish(s, p, g);
            assert(s.is_loading(p));
        },
        PoolStep::VictimWritten(p, g, v) => {
            lemma_inv_take_victim(s, p, g);
        },
        _ => {},
    }
}

/// A thread that sleeps because somebody else loads a page is notified by the
/// very step that ends the load.
#[verifier::rlimit(40)]
pub proof fn law_end_of_load_is_notified(s: PoolState, step: PoolStep, page_id: u64)
    requires
        pool_inv(s),
        allowed(s, step),
        s.is_loading(page_id),
        !after(s, step).is_loading(page_id),
    ensures
        after(s, step).changes[crate::storage::pool_state::shard_of(page_id)]
            != s.changes[crate::storage::pool_state::shard_of(page_id)],
{
    match step {
        PoolStep::Load(p) => {
            if s.free.len() > 0 {
                lemma_inv_take_free(s, p);
            } else {
                lemma_inv_sweep(s);
                law_load_outcome(s, p);
            }
        },
        PoolStep::PageRead(p, g) => {
            lemma_inv_publish(s, p, g);
        },
        PoolStep::VictimWritten(p, g, v) => {
            lemma_inv_take_victim(s, p, g);
        },
        _ => {},
    }
}

/// A pool with the contents of its frames and the disk below it.
pub struct World {
    pub pool: PoolState,
    pub data: Seq<Seq<u8>>,
    pub disk: Map<u64, Seq<u8>>,
}

/// What happens in a world.
pub enum PoolEvent {
    /// A thread makes a step of the pool.
    Step(PoolStep),
    /// A thread that has pinned a frame writes to it.
    Write(usize, Seq<u8>),
}

/// Threads make allowed steps and write only to ready frames that are pinned.
pub open spec fn event_allowed(w: World, event: PoolEvent) -> bool {
    match event {
        PoolEvent::Step(step) => allowed(w.pool, step),
        PoolEvent::Write(f, _) => f < w.pool.frames.len() && w.pool.frames[f as int].state()
            == FRAME_READY && w.pool.frames[f as int].pins() > 0,
    }
}

/// The world after an event.
pub open spec fn after_event(w: World, event: PoolEvent) -> World {
    match event {
        PoolEvent::Step(step) => World {
            pool: after(w.pool, step),
            data: data_after(step, w.data, w.disk),
            disk: disk_after(step, w.data, w.disk),
        },
        PoolEvent::Write(f, bytes) => World { data: w.data.update(f as int, bytes), ..w },
    }
}

/// The world after a number of events.
pub open spec fn after_events(w: World, events: Seq<PoolEvent>) -> World
    decreases events.len(),
{
    if events.len() == 0 {
        w
    } else {
        after_event(after_events(w, events.drop_last()), events.last())
    }
}

/// Every event was allowed when it happened.
pub open spec fn events_allowed(w: World, events: Seq<PoolEvent>) -> bool
    decreases events.len(),
{
    events.len() == 0 || (events_allowed(w, events.drop_last()) && event_allowed(
        after_events(w, events.drop_last()),
        events.last(),
    ))
}

/// The threads were honest about the page.
pub open spec fn events_honest(w: World, events: Seq<PoolEvent>, page_id: u64) -> bool
    decreases events.len(),
{
    events.len() == 0 || (events_honest(w, events.drop_last(), page_id) && match events.last() {
        PoolEvent::Step(step) => {
            let before = after_events(w, events.drop_last());
            honest(before.pool, step, before.data, before.disk, page_id)
        },
        PoolEvent::Write(_, _) => true,
    })
}

/// What was written to the page last, or else what it held at first.
pub open spec fn last_written(w: World, events: Seq<PoolEvent>, page_id: u64) -> Seq<u8>
    decreases events.len(),
{
    if events.len() == 0 {
        content(w.pool, w.data, w.disk, page_id)
    } else {
        let before = after_events(w, events.drop_last());
        match events.last() {
            PoolEvent::Write(f, bytes) => if before.pool.frames[f as int].page_id == page_id {
                bytes
            } else {
                last_written(w, events.drop_last(), page_id)
            },
            PoolEvent::Step(_) => last_written(w, events.drop_last(), page_id),
        }
    }
}

/// A reader of a page finds what was written to it last, however the steps and
/// writes of the threads interleave, and however often the page was evicted,
/// written back and loaded meanwhile. Only the threads that use this page have
/// to be honest about it.
pub proof fn law_last_write_is_found(w: World, events: Seq<PoolEvent>, page_id: u64)
    requires
        pool_inv(w.pool),
        coherent(w.pool, w.data, w.disk, page_id),
        events_allowed(w, events),
        events_honest(w, events, page_id),
    ensures
        ({
            let t = after_events(w, events);
            &&& pool_inv(t.pool)
            &&& coherent(t.pool, t.data, t.disk, page_id)
            &&& content(t.pool, t.data, t.disk, page_id) == last_written(w, events, page_id)
        }),
    decreases events.len(),
{
    if events.len() > 0 {
        let before = after_events(w, events.drop_last());
        law_last_write_is_found(w, events.drop_last(), page_id);
        match events.last() {
            PoolEvent::Step(step) => {
                law_invariant_is_kept(before.pool, step);
                law_contents_are_kept(before.pool, step, before.data, before.disk, page_id);
            },
            PoolEvent::Write(f, bytes) => {
                law_write_changes_one_page(
                    before.pool,
                    before.data,
                    before.disk,
                    f as int,
                    bytes,
                    page_id,
                );
            },
        }
    }
}

/// What a fetch of an absent page does if no other thread disturbs it.
pub open spec fn fetch_events(s: PoolState, page_id: u64) -> Seq<PoolEvent> {
    let claimed = after(s, PoolStep::Fetch(page_id));
    match claimed.load_step() {
        Ok(LoadStep::Read(f)) => seq![
            PoolEvent::Step(PoolStep::Fetch(page_id)),
            PoolEvent::Step(PoolStep::Load(page_id)),
            PoolEvent::Step(PoolStep::PageRead(page_id, f)),
        ],
        Ok(LoadStep::WriteBack(f, victim)) => seq![
            PoolEvent::Step(PoolStep::Fetch(page_id)),
            PoolEvent::Step(PoolStep::Load(page_id)),
            PoolEvent::Step(PoolStep::VictimWritten(page_id, f, victim)),
            PoolEvent::Step(PoolStep::PageRead(page_id, f)),
        ],
        Err(_) => seq![
            PoolEvent::Step(PoolStep::Fetch(page_id)),
            PoolEvent::Step(PoolStep::Load(page_id)),
        ],
    }
}

/// One more step, other than an unpin.
proof fn lemma_one_more_step(w: World, events: Seq<PoolEvent>, step: PoolStep, page_id: u64)
    requires
        events_allowed(w, events),
        events_honest(w, events, page_id),
        last_written(w, events, page_id) == content(w.pool, w.data, w.disk, page_id),
        allowed(after_events(w, events).pool, step),
        step !is Unpin,
    ensures
        ({
            let more = events.push(PoolEvent::Step(step));
            &&& after_events(w, more).pool == after(after_events(w, events).pool, step)
            &&& events_allowed(w, more)
            &&& events_honest(w, more, page_id)
            &&& last_written(w, more, page_id) == content(w.pool, w.data, w.disk, page_id)
        }),
{
    assert(events.push(PoolEvent::Step(step)).drop_last() =~= events);
}

/// The start of a load leaves the loader with a frame: one to read the page
/// into, or one whose page has to be written back first.
proof fn lemma_load_gives_a_frame(s: PoolState, page_id: u64)
    requires
        pool_inv(s),
        s.is_loading(page_id),
        !has_load_frame(s, page_id),
    ensures
        s.load_step() matches Ok(LoadStep::Read(f)) ==> allowed(
            s.after_load(page_id),
            PoolStep::PageRead(page_id, f),
        ),
        s.load_step() matches Ok(LoadStep::WriteBack(f, victim)) ==> allowed(
            s.after_load(page_id),
            PoolStep::VictimWritten(page_id, f, victim),
        ),
{
    law_load_outcome(s, page_id);
    if s.free.len() > 0 {
        assert(s.free[s.free.len() - 1] == s.free.last());
    } else {
        crate::storage::clock::lemma_sweep_effect(
            s.frames,
            s.hand,
            crate::storage::clock::sweep_steps(s.frames.len()),
        );
        lemma_inv_sweep(s);
        if let Some(v) = s.sweep().victim {
            let swept = s.after_sweep();
            assert(frame_ok(swept.frames[v as int]));
            if swept.frames[v as int].dirty() {
                let t = s.after_load(page_id);
                assert(!has_load_frame(t, page_id)) by {
                    if has_load_frame(t, page_id) {
                        let g = choose|g: int|
                            0 <= g < t.frames.len() && (#[trigger] t.frames[g]).state()
                                == FRAME_LOADING && t.frames[g].page_id == page_id;
                        assert(g != v);
                        assert(t.frames[g] == swept.frames[g]);
                        assert(s.sweep().victim != Some(g as usize));
                        assert(s.frames[g].state() == FRAME_LOADING);
                    }
                }
            }
        }
    }
}

/// A fetch of an absent page that nobody disturbs succeeds unless every frame
/// is pinned or busy. It ends with the page in a frame, pinned once, and the
/// frame holds what the disk held of the page.
pub proof fn law_fetch_brings_the_page(w: World, page_id: u64)
    requires
        pool_inv(w.pool),
        w.data.len() == w.pool.frames.len(),
        page_id != INVALID_PAGE_ID,
        !w.pool.table.contains_key(page_id),
        !w.pool.is_loading(page_id),
    ensures
        ({
            let events = fetch_events(w.pool, page_id);
            let t = after_events(w, events);
            let room = w.pool.free.len() > 0 || exists|f: int|
                0 <= f < w.pool.frames.len() && crate::storage::clock::evictable(
                    #[trigger] w.pool.frames[f],
                );
            &&& events_allowed(w, events)
            &&& t.pool.table.contains_key(page_id) == room
            &&& room ==> t.pool.frames[t.pool.table[page_id] as int].page_id == page_id
            &&& room ==> t.pool.frames[t.pool.table[page_id] as int].state() == FRAME_READY
            &&& room ==> t.pool.frames[t.pool.table[page_id] as int].pins() == 1
            &&& room ==> t.data[t.pool.table[page_id] as int] == w.disk[page_id]
            &&& !t.pool.is_loading(page_id)
        }),
{
    let s = w.pool;
    let start = Seq::<PoolEvent>::empty();
    let one = start.push(PoolEvent::Step(PoolStep::Fetch(page_id)));
    let two = one.push(PoolEvent::Step(PoolStep::Load(page_id)));
    let claimed = after(s, PoolStep::Fetch(page_id));
    let loading = after(claimed, PoolStep::Load(page_id));
    let events = fetch_events(s, page_id);
    assert(coherent(s, w.data, w.disk, page_id));
    law_invariant_is_kept(s, PoolStep::Fetch(page_id));
    assert(claimed.frames == s.frames && claimed.free == s.free);
    assert(!has_load_frame(claimed, page_id)) by {
        if has_load_frame(claimed, page_id) {
            let g = choose|g: int|
                0 <= g < claimed.frames.len() && (#[trigger] claimed.frames[g]).state()
                    == FRAME_LOADING && claimed.frames[g].page_id == page_id;
            assert(s.frames[g].state() == FRAME_LOADING);
        }
    }
    law_load_outcome(claimed, page_id);
    lemma_load_gives_a_frame(claimed, page_id);
    lemma_one_more_step(w, start, PoolStep::Fetch(page_id), page_id);
    lemma_one_more_step(w, one, PoolStep::Load(page_id), page_id);
    match claimed.load_step() {
        Ok(LoadStep::Read(f)) => {
            lemma_one_more_step(w, two, PoolStep::PageRead(page_id, f), page_id);
            assert(two.push(PoolEvent::Step(PoolStep::PageRead(page_id, f))) =~= events);
            law_load_ends_pinned(loading, page_id, f);
        },
        Ok(LoadStep::WriteBack(f, victim)) => {
            let written_step = PoolStep::VictimWritten(page_id, f, victim);
            let three = two.push(PoolEvent::Step(written_step));
            let written = after(loading, written_step);
            lemma_one_more_step(w, two, written_step, page_id);
            law_invariant_is_kept(loading, written_step);
            lemma_inv_take_victim(loading, page_id, f);
            assert(allowed(written, PoolStep::PageRead(page_id, f)));
            lemma_one_more_step(w, three, PoolStep::PageRead(page_id, f), page_id);
            assert(three.push(PoolEvent::Step(PoolStep::PageRead(page_id, f))) =~= events);
            law_load_ends_pinned(written, page_id, f);
        },
        Err(_) => {
            assert(events =~= two);
        },
    }
    law_last_write_is_found(w, events, page_id);
}

} // verus!
