//! Pages, frames and the policies that decide which frame holds which page.

use vstd::prelude::*;

pub mod arena;
pub mod buffer_pool;
pub mod clock;
pub mod codec;
pub mod disk;
pub mod lru_k;
pub mod page;
pub mod pool_effects;
pub mod pool_laws;
pub mod pool_state;

verus! {

/// The size of one page in bytes, on disk and in memory.
pub const PAGE_SIZE: usize = 4096;

} // verus!
