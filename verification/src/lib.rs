//! Write-admission and in-memory staging core of a range-partitioned,
//! log-structured-merge key-value engine.
//!
//! Each partition owns a contiguous range of the key space and manages a
//! mutable write buffer, at most one frozen buffer awaiting persistence, and
//! the per-level lists of on-disk table files.  Key ordering is pluggable
//! through the [`order::Comparator`] trait, and every ordering decision in
//! the crate is proved against that trait's total-order laws.

pub mod keys;
pub mod level;
pub mod memtable;
pub mod order;
pub mod partition;
pub mod table;

use vstd::prelude::*;

verus! {

/// Per-entry bookkeeping overhead counted by the write buffer's size
/// estimate, in bytes.
pub const TABLE_CATALOG_ITEM_SIZE: usize = 24;

/// Fixed base overhead of a table, counted once by the write buffer's size
/// estimate, in bytes.
pub const TABLE_MIN_SIZE: usize = 64;

} // verus!
