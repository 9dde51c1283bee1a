//! Locks.

pub mod spin_lock;
