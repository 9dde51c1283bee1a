//! A paged storage engine: frames, a buffer pool, replacement policies, the
//! page table and B+ tree pages.

pub mod error;
pub mod hash_map;
pub mod index;
pub mod storage;
pub mod sync;
