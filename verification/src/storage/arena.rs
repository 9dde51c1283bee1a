//! The memory region that holds the frames of a buffer pool.

use crate::storage::PAGE_SIZE;
use vstd::prelude::*;

verus! {

/// The layout of one contiguous region of page-sized frames.
pub struct PageArena {
    frame_count: usize,
}

/// Where a frame begins in the region.
pub open spec fn frame_start(frame_id: int) -> int {
    frame_id * PAGE_SIZE
}

impl PageArena {
    /// The number of frames.
    pub closed spec fn frames(self) -> nat {
        self.frame_count as nat
    }

    /// The region can be addressed.
    pub closed spec fn wf(self) -> bool {
        self.frame_count * PAGE_SIZE <= usize::MAX
    }

    /// The layout of a region of `frame_count` frames.
    pub fn new(frame_count: usize) -> (arena: Self)
        requires
            frame_count * PAGE_SIZE <= usize::MAX,
        ensures
            arena.wf(),
            arena.frames() == frame_count,
    {
        PageArena { frame_count }
    }

    /// The number of frames.
    pub fn frame_count(&self) -> (count: usize)
        ensures
            count == self.frames(),
    {
        self.frame_count
    }

    /// The size of the region in bytes.
    pub fn len(&self) -> (len: usize)
        requires
            self.wf(),
        ensures
            len == self.frames() * PAGE_SIZE,
    {
        self.frame_count * PAGE_SIZE
    }

    /// The offset of a frame from the start of the region.
    pub fn frame_ptr(&self, frame_id: usize) -> (offset: usize)
        requires
            self.wf(),
            frame_id < self.frames(),
        ensures
            offset == frame_start(frame_id as int),
            offset + PAGE_SIZE <= self.frames() * PAGE_SIZE,
    {
        frame_id * PAGE_SIZE
    }
}

/// The first frame starts at the start of the region, and each frame starts one
/// page size after the one before it.
pub proof fn law_frames_lie_end_to_end(f: int)
    ensures
        frame_start(0) == 0,
        frame_start(f + 1) == frame_start(f) + 4096,
        frame_start(f) == 4096 * f,
{
}

/// Two different frames share no byte.
pub proof fn law_frames_are_disjoint(a: int, b: int)
    requires
        a != b,
    ensures
        frame_start(a) + PAGE_SIZE <= frame_start(b) || frame_start(b) + PAGE_SIZE <= frame_start(
            a,
        ),
{
}

} // verus!
