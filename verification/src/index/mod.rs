//! The B+ tree and its pages.

pub mod btree;
pub mod internal;
pub mod leaf;
