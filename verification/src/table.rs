//! The boundary to the on-disk table subsystem, modelled at the level this
//! core observes it: a builder that accepts staged entries in their sort
//! order and produces an immutable table file handle whose catalog of
//! `(sequence, user key, value)` triples is exactly what was fed in.  The
//! on-disk byte layout, block structure and compression live below this
//! boundary and are not this crate's concern.

use vstd::prelude::*;

use crate::keys::dup_bytes;
use crate::memtable::EntryV;

verus! {

/// One `(sequence, user key, value)` triple of a built table's catalog.
pub struct TableEntry {
    pub seq: u64,
    pub key: Vec<u8>,
    pub value: Vec<u8>,
}

impl View for TableEntry {
    type V = EntryV;

    open spec fn view(&self) -> EntryV {
        EntryV { seq: self.seq, key: self.key@, val: self.value@ }
    }
}

/// An immutable table file handle: the result of building (or opening) one
/// on-disk table.
pub struct ScTable {
    entries: Vec<TableEntry>,
}

impl View for ScTable {
    type V = Seq<EntryV>;

    closed spec fn view(&self) -> Seq<EntryV> {
        self.entries@.map_values(|te: TableEntry| te@)
    }
}

impl ScTable {
    /// Number of catalog triples.
    pub fn entry_count(&self) -> (r: usize)
        ensures
            r == self@.len(),
    {
        self.entries.len()
    }

    /// Borrow the catalog triple in slot `i`.
    pub fn entry(&self, i: usize) -> (r: &TableEntry)
        requires
            i < self@.len(),
        ensures
            r@ == self@[i as int],
    {
        &self.entries[i]
    }
}

/// Accumulates `(sequence, user key, value)` triples in staging order and
/// builds one table file from them.
pub struct ScTableBuilder {
    entries: Vec<TableEntry>,
}

impl View for ScTableBuilder {
    type V = Seq<EntryV>;

    closed spec fn view(&self) -> Seq<EntryV> {
        self.entries@.map_values(|te: TableEntry| te@)
    }
}

impl ScTableBuilder {
    pub fn new() -> (r: ScTableBuilder)
        ensures
            r@ == Seq::<EntryV>::empty(),
    {
        let r = ScTableBuilder { entries: Vec::new() };
        proof {
            assert(r@ =~= Seq::<EntryV>::empty());
        }
        r
    }

    /// Append one triple, copying the borrowed key and value bytes.
    pub fn add_kv(&mut self, seq: u64, key: &[u8], value: &[u8])
        ensures
            final(self)@ == old(self)@.push(EntryV { seq, key: key@, val: value@ }),
    {
        let ghost s0 = self@;
        self.entries.push(TableEntry { seq, key: dup_bytes(key), value: dup_bytes(value) });
        proof {
            assert forall|k: int| 0 <= k < self@.len() implies self@[k] == s0.push(
                EntryV { seq, key: key@, val: value@ },
            )[k] by {
                assert(self@[k] == self.entries@[k]@);
            }
            assert(self@ =~= s0.push(EntryV { seq, key: key@, val: value@ }));
        }
    }

    /// Build the table file holding exactly the accumulated triples.
    pub fn build(self) -> (r: ScTable)
        ensures
            r@ == self@,
    {
        ScTable { entries: self.entries }
    }
}

/// A sub-range marker inside one table file, addressing the catalog slots
/// `first_kv_index ..= last_kv_index` and the key range they cover; produced
/// and consumed by the compaction and splitting logic built on top of this
/// core.
pub struct ScSplit {
    pub file: ScTable,
    pub first_kv_index: u32,
    pub last_kv_index: u32,
    pub lower_bound: Vec<u8>,
    pub upper_bound: Vec<u8>,
}

} // verus!
