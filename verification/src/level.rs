//! One LSM level: an ordered list of on-disk table file handles.
//!
//! Level 0 receives freshly flushed tables, whose key ranges may overlap;
//! deeper levels are kept range-disjoint by the compaction logic built on
//! top of this core.

use vstd::prelude::*;

use crate::memtable::EntryV;
use crate::table::ScTable;

verus! {

/// The table files of one LSM level, in insertion order.
pub struct Level {
    files: Vec<ScTable>,
}

impl View for Level {
    type V = Seq<Seq<EntryV>>;

    closed spec fn view(&self) -> Seq<Seq<EntryV>> {
        self.files@.map_values(|t: ScTable| t@)
    }
}

impl Level {
    /// A fresh level with no files.
    pub fn new() -> (r: Level)
        ensures
            r@ == Seq::<Seq<EntryV>>::empty(),
    {
        let r = Level { files: Vec::new() };
        proof {
            assert(r@ =~= Seq::<Seq<EntryV>>::empty());
        }
        r
    }

    /// Append one table file to this level.
    pub fn add_file(&mut self, table: ScTable)
        ensures
            final(self)@ == old(self)@.push(table@),
    {
        let ghost s0 = self@;
        let ghost tv = table@;
        self.files.push(table);
        proof {
            assert forall|k: int| 0 <= k < self@.len() implies self@[k] == s0.push(tv)[k] by {
                assert(self@[k] == self.files@[k]@);
            }
            assert(self@ =~= s0.push(tv));
        }
    }

    /// Number of files in this level.
    pub fn file_count(&self) -> (r: usize)
        ensures
            r == self@.len(),
    {
        self.files.len()
    }

    /// Borrow the file in slot `i`.
    pub fn file(&self, i: usize) -> (r: &ScTable)
        requires
            i < self@.len(),
        ensures
            r@ == self@[i as int],
    {
        &self.files[i]
    }
}

} // verus!
