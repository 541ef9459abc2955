//! Partition state and the write-admission protocol.
//!
//! A partition owns one contiguous range of the key space.  Its mutable
//! state — active write buffer, at most one frozen buffer awaiting flush,
//! the on-disk levels, the observed key-range bounds and a sticky
//! background-fault slot — lives in [`PartitionData`].  [`Partition`] adds
//! the range comparison that keeps a collection of partitions globally
//! sorted, and [`ArcPartition`] is the write entry point: one admission
//! step per call, with the blocking wait and the wake-up broadcast left to
//! the unverified synchronization shell that owns the lock and the
//! condition variable.

use vstd::prelude::*;

use crate::keys::InternalKey;
use crate::keys::UserKey;
use crate::level::Level;
use crate::memtable::EntryV;
use crate::memtable::MemTable;
use crate::memtable::mem_put;
use crate::memtable::size_estimate;
use crate::order::Comparator;
use crate::order::KeyOrder;
use crate::table::ScTable;
use crate::table::ScTableBuilder;
use crate::TABLE_CATALOG_ITEM_SIZE;
use crate::TABLE_MIN_SIZE;

verus! {

/// A clonable fault value, classifiable by its variant.
#[derive(Clone, Copy, PartialEq, Eq, Structural, Debug)]
pub enum Error {
    /// A read or write of the storage below failed.
    Io,
    /// Stored data failed validation.
    Corruption,
    /// An internal invariant was found broken.
    InvariantViolation,
    /// Two partitions' key ranges touch or overlap.
    OverlappingRange,
}

/// Configuration consumed by this core.
#[derive(Clone, Copy)]
pub struct Options {
    /// Size estimate, in bytes, past which the active buffer is frozen.
    pub table_size: usize,
}

/// Mathematical value of one partition's state.
pub ghost struct DataV {
    /// Entries of the active write buffer, in sort order.
    pub mem: Seq<EntryV>,
    /// Entries of the frozen buffer awaiting flush, if one is outstanding.
    pub imm: Option<Seq<EntryV>>,
    /// Per level, per file, the catalog of the file.
    pub levels: Seq<Seq<Seq<EntryV>>>,
    /// Smallest user key ever written, if any was.
    pub lower: Option<Seq<u8>>,
    /// Largest user key ever written, if any was.
    pub upper: Option<Seq<u8>>,
    /// The sticky background fault, if one was recorded.
    pub fault: Option<Error>,
    /// Every user key ever written to this partition.
    pub keys: Set<Seq<u8>>,
    /// The configured table-size threshold.
    pub threshold: int,
}

/// The bounds are the minimum and the maximum of the keys ever written,
/// and are present exactly when a key was written.
pub open spec fn bounds_ok<Comp: Comparator>(d: DataV) -> bool {
    match (d.lower, d.upper) {
        (Some(l), Some(u)) => d.keys.contains(l) && d.keys.contains(u) && forall|k: Seq<u8>|
            #[trigger] d.keys.contains(k) ==> Comp::le(l, k) && Comp::le(k, u),
        (None, None) => forall|k: Seq<u8>| !d.keys.contains(k),
        _ => false,
    }
}

/// The size estimate of `(key, value)` as one staged pair.
pub open spec fn kv_pair_size_spec(key: Seq<u8>, value: Seq<u8>) -> int {
    key.len() + value.len() + (TABLE_CATALOG_ITEM_SIZE as int)
}

/// The bounds after writing user key `k`: the first write sets both, a key
/// below the lower bound becomes the new lower bound.
pub open spec fn widened_lower<Comp: Comparator>(lower: Option<Seq<u8>>, k: Seq<u8>) -> Option<
    Seq<u8>,
> {
    match lower {
        None => Some(k),
        Some(l) => if Comp::le(k, l) && k != l {
            Some(k)
        } else {
            Some(l)
        },
    }
}

/// The bounds after writing user key `k`: a key above the upper bound
/// becomes the new upper bound.
pub open spec fn widened_upper<Comp: Comparator>(upper: Option<Seq<u8>>, k: Seq<u8>) -> Option<
    Seq<u8>,
> {
    match upper {
        None => Some(k),
        Some(u) => if Comp::le(u, k) && k != u {
            Some(k)
        } else {
            Some(u)
        },
    }
}

/// Freezing: the active buffer moves into the pending-flush slot and an
/// empty buffer takes its place.
pub open spec fn freeze_v(d: DataV) -> DataV {
    DataV { mem: Seq::empty(), imm: Some(d.mem), ..d }
}

/// Flush completion: the pending-flush slot is cleared and the built table
/// is appended to level 0.
pub open spec fn install_v(d: DataV, t: Seq<EntryV>) -> DataV {
    DataV { imm: None, levels: d.levels.update(0, d.levels[0].push(t)), ..d }
}

/// One partition's protected mutable state.
pub struct PartitionData<Comp: Comparator> {
    mem_table: MemTable<Comp>,
    imm_table: Option<MemTable<Comp>>,
    levels: Vec<Level>,
    lower_bound: Option<UserKey>,
    upper_bound: Option<UserKey>,
    background_error: Option<Error>,
    options: Options,
    keys_seen: Ghost<Set<Seq<u8>>>,
}

impl<Comp: Comparator> View for PartitionData<Comp> {
    type V = DataV;

    closed spec fn view(&self) -> DataV {
        DataV {
            mem: self.mem_table@,
            imm: match self.imm_table {
                Some(m) => Some(m@),
                None => None,
            },
            levels: self.levels@.map_values(|l: Level| l@),
            lower: match self.lower_bound {
                Some(l) => Some(l@),
                None => None,
            },
            upper: match self.upper_bound {
                Some(u) => Some(u@),
                None => None,
            },
            fault: self.background_error,
            keys: self.keys_seen@,
            threshold: self.options.table_size as int,
        }
    }
}

impl<Comp: Comparator> PartitionData<Comp> {
    /// Buffers sorted and accounted, a positive threshold, level 0 present,
    /// bounds tracking the written keys, and the active buffer within
    /// capacity unless it holds a single oversized pair.
    pub closed spec fn wf(&self) -> bool {
        &&& self.mem_table.wf()
        &&& match self.imm_table {
            Some(m) => m.wf(),
            None => true,
        }
        &&& self.options.table_size >= 1
        &&& self.levels@.len() >= 1
        &&& bounds_ok::<Comp>(self@)
        &&& (size_estimate(self@.mem) <= self@.threshold || self@.mem.len() <= 1)
    }

    /// Fresh state: empty active buffer, no pending flush, one empty level,
    /// no bounds, no fault.
    pub fn new(options: Options) -> (r: PartitionData<Comp>)
        requires
            options.table_size >= 1,
        ensures
            r.wf(),
            r@.mem == Seq::<EntryV>::empty(),
            r@.imm is None,
            r@.levels == seq![Seq::<Seq<EntryV>>::empty()],
            r@.lower is None,
            r@.upper is None,
            r@.fault is None,
            r@.keys == Set::<Seq<u8>>::empty(),
            r@.threshold == options.table_size as int,
    {
        let mut levels: Vec<Level> = Vec::new();
        levels.push(Level::new());
        let r = PartitionData {
            mem_table: MemTable::new(),
            imm_table: None,
            levels,
            lower_bound: None,
            upper_bound: None,
            background_error: None,
            options,
            keys_seen: Ghost(Set::empty()),
        };
        proof {
            assert(r@.levels =~= seq![Seq::<Seq<EntryV>>::empty()]);
            assert(forall|k: Seq<u8>| !r@.keys.contains(k));
        }
        r
    }

    /// The sticky background fault, surfaced as a result; the slot is not
    /// cleared by reading it.
    pub fn background_error(&self) -> (r: Result<(), Error>)
        ensures
            match self@.fault {
                Some(e) => r == Err::<(), Error>(e),
                None => r == Ok::<(), Error>(()),
            },
    {
        match &self.background_error {
            Some(e) => Err(*e),
            None => Ok(()),
        }
    }

    /// Record a background fault; an earlier one is overwritten and the new
    /// one persists until overwritten in turn.
    pub fn record_background_error(&mut self, error: Error)
        requires
            old(self).wf(),
        ensures
            final(self).wf(),
            final(self)@ == (DataV { fault: Some(error), ..old(self)@ }),
    {
        self.background_error = Some(error);
    }

    /// Whether a frozen buffer is awaiting flush.
    pub fn has_imm(&self) -> (r: bool)
        ensures
            r == (self@.imm is Some),
    {
        self.imm_table.is_some()
    }

    /// Serialize the frozen buffer through the table builder, in its sort
    /// order, into one table file.
    pub fn imm_data(&self) -> (r: ScTable)
        requires
            self@.imm is Some,
        ensures
            r@ == self@.imm->0,
    {
        let imm = self.imm_table.as_ref().unwrap();
        let mut builder = ScTableBuilder::new();
        let n = imm.len();
        let mut i: usize = 0;
        while i < n
            invariant
                n == imm@.len(),
                i <= n,
                builder@ == imm@.subrange(0, i as int),
                imm@ == self@.imm->0,
            decreases n - i,
        {
            let entry = imm.entry(i);
            builder.add_kv(entry.key.seq(), entry.key.user_key().key(), entry.value.as_slice());
            proof {
                assert(imm@.subrange(0, (i + 1) as int) =~= imm@.subrange(0, i as int).push(
                    imm@[i as int],
                ));
            }
            i += 1;
        }
        proof {
            assert(builder@ =~= imm@);
        }
        builder.build()
    }

    /// Flush completion: clear the pending-flush slot and append the built
    /// table to level 0.  The caller that owns the synchronization must
    /// wake every writer blocked on capacity afterwards.
    pub fn replace_imm_with_table(&mut self, table: ScTable)
        requires
            old(self).wf(),
            old(self)@.imm is Some,
        ensures
            final(self).wf(),
            final(self)@ == install_v(old(self)@, table@),
    {
        let ghost d0 = self@;
        let ghost tv = table@;
        let _ = self.imm_table.take();
        let mut level0 = self.levels.remove(0);
        level0.add_file(table);
        self.levels.insert(0, level0);
        proof {
            assert forall|k: int| 0 <= k < self@.levels.len() implies self@.levels[k]
                == install_v(d0, tv).levels[k] by {
                assert(self@.levels[k] == self.levels@[k]@);
            }
            assert(self@.levels =~= install_v(d0, tv).levels);
            assert(self@ == install_v(d0, tv));
        }
    }

    /// Freeze: move the active buffer into the pending-flush slot and
    /// install a fresh empty buffer.  At most one flush may be outstanding,
    /// so the slot must be free.
    pub fn convert_mem_to_imm(&mut self)
        requires
            old(self).wf(),
            old(self)@.imm is None,
        ensures
            final(self).wf(),
            final(self)@ == freeze_v(old(self)@),
    {
        let mut fresh: MemTable<Comp> = MemTable::new();
        core::mem::swap(&mut self.mem_table, &mut fresh);
        self.imm_table = Some(fresh);
    }

    /// The active buffer's size estimate, which governs flush triggering.
    pub fn memtable_size(&self) -> (r: usize)
        requires
            self.wf(),
        ensures
            r as int == size_estimate(self@.mem),
    {
        self.mem_table.size()
    }

    /// Number of entries staged in the active buffer.
    pub fn memtable_len(&self) -> (r: usize)
        ensures
            r == self@.mem.len(),
    {
        self.mem_table.len()
    }

    /// Borrow the active buffer.
    pub fn memtable(&self) -> (r: &MemTable<Comp>)
        ensures
            r@ == self@.mem,
    {
        &self.mem_table
    }

    /// Borrow the levels.
    pub fn levels(&self) -> (r: &Vec<Level>)
        ensures
            r@.map_values(|l: Level| l@) == self@.levels,
    {
        &self.levels
    }

    /// The observed key-range bounds: both present after the first write,
    /// both absent before it.
    pub fn bounds(&self) -> (r: (Option<&UserKey>, Option<&UserKey>))
        ensures
            match r.0 {
                Some(l) => self@.lower == Some(l@),
                None => self@.lower is None,
            },
            match r.1 {
                Some(u) => self@.upper == Some(u@),
                None => self@.upper is None,
            },
    {
        (self.lower_bound.as_ref(), self.upper_bound.as_ref())
    }

    /// Replace the lower bound.  Only an owned key can be stored, which the
    /// [`UserKey`] type guarantees structurally.
    pub fn set_lower_bound(&mut self, lower_bound: UserKey)
        ensures
            final(self)@ == (DataV { lower: Some(lower_bound@), ..old(self)@ }),
    {
        self.lower_bound = Some(lower_bound);
    }

    /// Replace the upper bound.  Only an owned key can be stored, which the
    /// [`UserKey`] type guarantees structurally.
    pub fn set_upper_bound(&mut self, upper_bound: UserKey)
        ensures
            final(self)@ == (DataV { upper: Some(upper_bound@), ..old(self)@ }),
    {
        self.upper_bound = Some(upper_bound);
    }

    /// Stage `(key, value)` in the active buffer and widen the observed
    /// bounds.  The caller must have admitted the pair: either it fits
    /// under the threshold, or the buffer is empty — the single oversized
    /// pair admitted right after a freeze.
    pub fn memtable_put(&mut self, key: InternalKey, value: Vec<u8>)
        requires
            old(self).wf(),
            kv_pair_size_spec(key@.key, value@) + (TABLE_MIN_SIZE as int) <= usize::MAX as int,
            size_estimate(old(self)@.mem) + kv_pair_size_spec(key@.key, value@) <= old(self)@.threshold || old(self)@.mem.len() == 0,
        ensures
            final(self).wf(),
            final(self)@ == (DataV {
                mem: mem_put::<Comp>(
                    old(self)@.mem,
                    (EntryV { seq: key@.seq, key: key@.key, val: value@ }),
                ),
                lower: widened_lower::<Comp>(old(self)@.lower, key@.key),
                upper: widened_upper::<Comp>(old(self)@.upper, key@.key),
                keys: old(self)@.keys.insert(key@.key),
                ..old(self)@
            }),
            size_estimate(final(self)@.mem) <= old(self)@.threshold || final(self)@.mem == seq![
                (EntryV { seq: key@.seq, key: key@.key, val: value@ }),
            ],
    {
        let ghost d0 = self@;
        let ghost e = EntryV { seq: key@.seq, key: key@.key, val: value@ };
        let ghost k = e.key;
        // Widen the bounds.
        if self.lower_bound.is_none() {
            self.lower_bound = Some(key.user_key().dup());
            self.upper_bound = Some(key.user_key().dup());
            proof {
                assert(widened_lower::<Comp>(d0.lower, k) == Some(k));
                assert(widened_upper::<Comp>(d0.upper, k) == Some(k));
            }
        } else {
            let c = key.user_key().cmp::<Comp>(self.lower_bound.as_ref().unwrap());
            match c {
                KeyOrder::Less => {
                    proof {
                        // k sits below the old lower bound, so it cannot sit
                        // above the old upper bound.
                        let l = d0.lower->0;
                        let u = d0.upper->0;
                        assert(d0.keys.contains(l));
                        assert(Comp::le(l, u));
                        Comp::transitive(k, l, u);
                        if Comp::le(u, k) && k != u {
                            Comp::antisymmetric(k, u);
                            assert(false);
                        }
                        assert(widened_upper::<Comp>(d0.upper, k) == d0.upper);
                    }
                    self.lower_bound = Some(key.user_key().dup());
                },
                _ => {
                    proof {
                        let l = d0.lower->0;
                        if Comp::le(k, l) && k != l {
                            Comp::antisymmetric(k, l);
                            assert(false);
                        }
                        assert(widened_lower::<Comp>(d0.lower, k) == d0.lower);
                    }
                    let c2 = key.user_key().cmp::<Comp>(self.upper_bound.as_ref().unwrap());
                    match c2 {
                        KeyOrder::Greater => {
                            self.upper_bound = Some(key.user_key().dup());
                        },
                        _ => {
                            proof {
                                let u = d0.upper->0;
                                if Comp::le(u, k) && k != u {
                                    Comp::antisymmetric(k, u);
                                    assert(false);
                                }
                                assert(widened_upper::<Comp>(d0.upper, k) == d0.upper);
                            }
                        },
                    }
                },
            }
        }
        self.keys_seen = Ghost(d0.keys.insert(k));
        // Stage the pair.
        proof {
            if d0.mem.len() == 0 {
                assert(crate::memtable::payload_size(d0.mem) == 0);
            }
        }
        self.mem_table.put(key, value);
        proof {
            let d1 = self@;
            // The new bounds are the minimum and maximum of the written keys.
            let l1 = d1.lower->0;
            let u1 = d1.upper->0;
            assert(l1 == widened_lower::<Comp>(d0.lower, k)->0);
            assert(u1 == widened_upper::<Comp>(d0.upper, k)->0);
            assert(d1.keys.contains(l1) && d1.keys.contains(u1)) by {
                if d0.lower is Some {
                    assert(d0.keys.contains(d0.lower->0) && d0.keys.contains(d0.upper->0));
                }
            }
            assert forall|k2: Seq<u8>| #[trigger] d1.keys.contains(k2) implies Comp::le(l1, k2)
                && Comp::le(k2, u1) by {
                if k2 == k {
                    Comp::reflexive(k);
                    if d0.lower is Some {
                        let l = d0.lower->0;
                        let u = d0.upper->0;
                        if l1 == l {
                            // k was not below the old lower bound
                            Comp::total(l, k);
                            if !Comp::le(l, k) {
                                assert(Comp::le(k, l) && k != l);
                            }
                        }
                        if u1 == u {
                            Comp::total(u, k);
                            if !Comp::le(k, u) {
                                assert(Comp::le(u, k) && k != u);
                            }
                        }
                    }
                } else {
                    assert(d0.keys.contains(k2));
                    let l = d0.lower->0;
                    let u = d0.upper->0;
                    assert(Comp::le(l, k2) && Comp::le(k2, u));
                    if l1 == k {
                        Comp::transitive(k, l, k2);
                    }
                    if u1 == k {
                        Comp::transitive(k2, u, k);
                    }
                }
            }
            assert(bounds_ok::<Comp>(d1));
            // Capacity: within threshold, or the single just-frozen pair.
            if d0.mem.len() == 0 {
                assert(mem_put::<Comp>(d0.mem, e) == seq![e]);
            }
        }
    }

    /// The bounds are both present or both absent.
    pub fn debug_bounds_sanity_check(&self) -> (r: bool)
        ensures
            r == ((self@.lower is Some) <==> (self@.upper is Some)),
    {
        self.lower_bound.is_some() == self.upper_bound.is_some()
    }

    /// Borrow the configuration.
    pub fn options(&self) -> (r: &Options)
        ensures
            r.table_size as int == self@.threshold,
    {
        &self.options
    }

    /// The smallest and largest user key staged in the frozen buffer, or
    /// `None` when no flush is pending or the frozen buffer is empty.
    pub fn imm_bounds(&self) -> (r: Option<(UserKey, UserKey)>)
        ensures
            match r {
                None => self@.imm is None || (self@.imm->0).len() == 0,
                Some((lo, hi)) => {
                    &&& self@.imm is Some
                    &&& exists|i: int|
                        0 <= i < (self@.imm->0).len() && (self@.imm->0)[i].key == lo@
                    &&& exists|i: int|
                        0 <= i < (self@.imm->0).len() && (self@.imm->0)[i].key == hi@
                    &&& forall|i: int|
                        0 <= i < (self@.imm->0).len() ==> Comp::le(lo@, (self@.imm->0)[i].key)
                            && Comp::le((self@.imm->0)[i].key, hi@)
                },
            },
    {
        match &self.imm_table {
            None => None,
            Some(m) => {
                let n = m.len();
                if n == 0 {
                    return None;
                }
                let mut lo: usize = 0;
                let mut hi: usize = 0;
                let mut i: usize = 1;
                proof {
                    Comp::reflexive(m@[0].key);
                }
                while i < n
                    invariant
                        m@ == self@.imm->0,
                        n == m@.len(),
                        1 <= i <= n,
                        lo < n,
                        hi < n,
                        forall|j: int| 0 <= j < i ==> Comp::le(m@[lo as int].key, m@[j].key),
                        forall|j: int| 0 <= j < i ==> Comp::le(m@[j].key, m@[hi as int].key),
                    decreases n - i,
                {
                    let c = m.entry(i).key.user_key().cmp::<Comp>(m.entry(lo).key.user_key());
                    match c {
                        KeyOrder::Less => {
                            proof {
                                assert forall|j: int| 0 <= j <= i implies Comp::le(
                                    m@[i as int].key,
                                    m@[j].key,
                                ) by {
                                    if j == i {
                                        Comp::reflexive(m@[i as int].key);
                                    } else {
                                        Comp::transitive(m@[i as int].key, m@[lo as int].key, m@[j].key);
                                    }
                                }
                            }
                            lo = i;
                        },
                        _ => {
                            proof {
                                if m@[i as int].key == m@[lo as int].key {
                                    Comp::reflexive(m@[lo as int].key);
                                }
                                assert(Comp::le(m@[lo as int].key, m@[i as int].key));
                            }
                        },
                    }
                    let c2 = m.entry(i).key.user_key().cmp::<Comp>(m.entry(hi).key.user_key());
                    match c2 {
                        KeyOrder::Greater => {
                            proof {
                                assert forall|j: int| 0 <= j <= i implies Comp::le(
                                    m@[j].key,
                                    m@[i as int].key,
                                ) by {
                                    if j == i {
                                        Comp::reflexive(m@[i as int].key);
                                    } else {
                                        Comp::transitive(m@[j].key, m@[hi as int].key, m@[i as int].key);
                                    }
                                }
                            }
                            hi = i;
                        },
                        _ => {
                            proof {
                                if m@[i as int].key == m@[hi as int].key {
                                    Comp::reflexive(m@[hi as int].key);
                                }
                                assert(Comp::le(m@[i as int].key, m@[hi as int].key));
                            }
                        },
                    }
                    i += 1;
                }
                Some((m.entry(lo).key.user_key().dup(), m.entry(hi).key.user_key().dup()))
            },
        }
    }
}

/// `u` sorts strictly before `l`: the range ending at `u` lies wholly
/// before the range starting at `l`.
pub open spec fn range_before<Comp: Comparator>(u: Seq<u8>, l: Seq<u8>) -> bool {
    Comp::le(u, l) && u != l
}

/// The range-ordering decision over two partitions' bounds: `Less` when the
/// first range ends before the second begins, `Greater` in the mirrored
/// case, and an `OverlappingRange` fault when the ranges touch or overlap —
/// which callers must treat as an invariant violation, never as a valid
/// ordering.
pub open spec fn range_decision<Comp: Comparator>(
    sl: Seq<u8>,
    su: Seq<u8>,
    ol: Seq<u8>,
    ou: Seq<u8>,
) -> Result<KeyOrder, Error> {
    if range_before::<Comp>(su, ol) {
        Ok(KeyOrder::Less)
    } else if range_before::<Comp>(ou, sl) {
        Ok(KeyOrder::Greater)
    } else {
        Err(Error::OverlappingRange)
    }
}

/// One partition: its protected state, plus the range comparison that keeps
/// a collection of partitions globally sorted.  The unverified shell wraps
/// a partition in its lock and condition variable; under that lock, `&mut`
/// access here is exactly the exclusivity the mutex provides.
pub struct Partition<Comp: Comparator> {
    /// The state protected by the shell's mutex.
    pub data: PartitionData<Comp>,
}

impl<Comp: Comparator> View for Partition<Comp> {
    type V = DataV;

    open spec fn view(&self) -> DataV {
        self.data@
    }
}

impl<Comp: Comparator> Partition<Comp> {
    pub open spec fn wf(&self) -> bool {
        self.data.wf()
    }

    /// A fresh partition with empty state and no bounds.
    pub fn new(options: Options) -> (r: Partition<Comp>)
        requires
            options.table_size >= 1,
        ensures
            r.wf(),
            r@.mem == Seq::<EntryV>::empty(),
            r@.imm is None,
            r@.levels == seq![Seq::<Seq<EntryV>>::empty()],
            r@.lower is None,
            r@.upper is None,
            r@.fault is None,
            r@.keys == Set::<Seq<u8>>::empty(),
            r@.threshold == options.table_size as int,
    {
        Partition { data: PartitionData::new(options) }
    }

    /// Decide the range order of two partitions from their bounds.  Both
    /// partitions must have observed at least one write, so that their
    /// bounds exist.  Touching or overlapping ranges are an invariant
    /// violation and come back as a fault.
    pub fn range_cmp(&self, other: &Partition<Comp>) -> (r: Result<KeyOrder, Error>)
        requires
            self@.lower is Some,
            self@.upper is Some,
            other@.lower is Some,
            other@.upper is Some,
        ensures
            r == range_decision::<Comp>(
                self@.lower->0,
                self@.upper->0,
                other@.lower->0,
                other@.upper->0,
            ),
    {
        let (sl, su) = self.data.bounds();
        let (ol, ou) = other.data.bounds();
        let c = su.unwrap().cmp::<Comp>(ol.unwrap());
        match c {
            KeyOrder::Less => Ok(KeyOrder::Less),
            _ => {
                proof {
                    if range_before::<Comp>(self@.upper->0, other@.lower->0) {
                        Comp::antisymmetric(self@.upper->0, other@.lower->0);
                        assert(false);
                    }
                }
                let c2 = sl.unwrap().cmp::<Comp>(ou.unwrap());
                match c2 {
                    KeyOrder::Greater => Ok(KeyOrder::Greater),
                    _ => {
                        proof {
                            if range_before::<Comp>(other@.upper->0, self@.lower->0) {
                                Comp::antisymmetric(other@.upper->0, self@.lower->0);
                                assert(false);
                            }
                        }
                        Err(Error::OverlappingRange)
                    },
                }
            },
        }
    }

    /// Two distinct live partitions never share a lower or an upper bound:
    /// sharing one would mean their ranges overlap.  Reports whether that
    /// expectation holds of this pair; partitions without bounds trivially
    /// satisfy it.
    pub fn debug_never_eq_sanity_check(&self, other: &Partition<Comp>) -> (r: bool)
        ensures
            r == !(self@.lower is Some && self@.upper is Some && other@.lower is Some
                && other@.upper is Some && (self@.lower == other@.lower || self@.upper
                == other@.upper)),
    {
        let (sl, su) = self.data.bounds();
        let (ol, ou) = other.data.bounds();
        if sl.is_some() && su.is_some() && ol.is_some() && ou.is_some() {
            let lower_eq = matches!(sl.unwrap().cmp::<Comp>(ol.unwrap()), KeyOrder::Equal);
            let upper_eq = matches!(su.unwrap().cmp::<Comp>(ou.unwrap()), KeyOrder::Equal);
            !(lower_eq || upper_eq)
        } else {
            true
        }
    }
}

/// The size estimate of one key/value pair as staged in a buffer.
pub fn kv_pair_size(key: &InternalKey, value: &[u8]) -> (r: usize)
    requires
        kv_pair_size_spec(key@.key, value@) <= usize::MAX as int,
    ensures
        r as int == kv_pair_size_spec(key@.key, value@),
{
    key.user_key().key().len() + value.len() + TABLE_CATALOG_ITEM_SIZE
}

/// What one admission step did with the pair.
#[derive(Clone, Copy, PartialEq, Eq, Structural, Debug)]
pub enum WriteStatus {
    /// The pair fit and was staged in the active buffer.
    Inserted,
    /// The buffer was full with no flush outstanding: it was frozen, and
    /// the pair staged in the fresh buffer.  The caller should schedule a
    /// flush of the frozen buffer.
    FrozeThenInserted,
    /// The buffer is full and a flush is already outstanding: nothing was
    /// staged.  The caller must wait until the pending flush completes and
    /// then retry the write.
    FlushPending,
}

/// The write entry point of one partition, held (wrapped in the shell's
/// reference-counted lock) by every writer.
pub struct ArcPartition<Comp: Comparator> {
    /// The partition this handle writes to.
    pub partition: Partition<Comp>,
}

impl<Comp: Comparator> View for ArcPartition<Comp> {
    type V = DataV;

    open spec fn view(&self) -> DataV {
        self.partition@
    }
}

impl<Comp: Comparator> ArcPartition<Comp> {
    pub open spec fn wf(&self) -> bool {
        self.partition.wf()
    }

    pub fn new(partition: Partition<Comp>) -> (r: ArcPartition<Comp>)
        ensures
            r.partition == partition,
    {
        ArcPartition { partition }
    }

    /// One admission step of the write path.  A recorded background fault
    /// is surfaced before anything is staged.  Otherwise: a pair that fits
    /// is staged; a full buffer with a flush outstanding blocks the write
    /// (the caller waits on the shell's condition variable and retries);
    /// a full buffer with no flush outstanding is frozen and the pair is
    /// staged in the fresh buffer — never rejected for being individually
    /// oversized.
    pub fn write(&mut self, key: InternalKey, value: Vec<u8>) -> (r: Result<WriteStatus, Error>)
        requires
            old(self).wf(),
            kv_pair_size_spec(key@.key, value@) + (TABLE_MIN_SIZE as int) <= usize::MAX as int,
        ensures
            final(self).wf(),
            match r {
                Err(e) => old(self)@.fault == Some(e) && *final(self) == *old(self),
                Ok(WriteStatus::Inserted) => {
                    &&& old(self)@.fault is None
                    &&& size_estimate(old(self)@.mem) + kv_pair_size_spec(key@.key, value@) <= old(self)@.threshold
                    &&& final(self)@ == (DataV {
                        mem: mem_put::<Comp>(
                            old(self)@.mem,
                            (EntryV { seq: key@.seq, key: key@.key, val: value@ }),
                        ),
                        lower: widened_lower::<Comp>(old(self)@.lower, key@.key),
                        upper: widened_upper::<Comp>(old(self)@.upper, key@.key),
                        keys: old(self)@.keys.insert(key@.key),
                        ..old(self)@
                    })
                },
                Ok(WriteStatus::FlushPending) => {
                    &&& old(self)@.fault is None
                    &&& size_estimate(old(self)@.mem) + kv_pair_size_spec(key@.key, value@) > old(self)@.threshold
                    &&& old(self)@.imm is Some
                    &&& *final(self) == *old(self)
                },
                Ok(WriteStatus::FrozeThenInserted) => {
                    &&& old(self)@.fault is None
                    &&& size_estimate(old(self)@.mem) + kv_pair_size_spec(key@.key, value@) > old(self)@.threshold
                    &&& old(self)@.imm is None
                    &&& final(self)@ == (DataV {
                        mem: seq![(EntryV { seq: key@.seq, key: key@.key, val: value@ })],
                        imm: Some(old(self)@.mem),
                        lower: widened_lower::<Comp>(old(self)@.lower, key@.key),
                        upper: widened_upper::<Comp>(old(self)@.upper, key@.key),
                        keys: old(self)@.keys.insert(key@.key),
                        ..old(self)@
                    })
                },
            },
            (r == Ok::<WriteStatus, Error>(WriteStatus::Inserted) || r == Ok::<
                WriteStatus,
                Error,
            >(WriteStatus::FrozeThenInserted)) ==> size_estimate(final(self)@.mem) <= final(self)@.threshold || final(self)@.mem == seq![
                (EntryV { seq: key@.seq, key: key@.key, val: value@ }),
            ],
    {
        match self.partition.data.background_error() {
            Err(e) => Err(e),
            Ok(()) => {
                let pair = kv_pair_size(&key, value.as_slice());
                let size = self.partition.data.memtable_size();
                let fits = match size.checked_add(pair) {
                    Some(total) => total <= self.partition.data.options().table_size,
                    None => false,
                };
                if fits {
                    self.partition.data.memtable_put(key, value);
                    Ok(WriteStatus::Inserted)
                } else if self.partition.data.has_imm() {
                    Ok(WriteStatus::FlushPending)
                } else {
                    self.partition.data.convert_mem_to_imm();
                    self.partition.data.memtable_put(key, value);
                    Ok(WriteStatus::FrozeThenInserted)
                }
            },
        }
    }

    /// Flush the frozen buffer, if one is pending: serialize it through the
    /// table builder and install the result into level 0.  Returns whether
    /// a flush completed, in which case the caller that owns the
    /// synchronization must wake every blocked writer.
    pub fn compact_memtable(&mut self) -> (woke: bool)
        requires
            old(self).wf(),
        ensures
            final(self).wf(),
            old(self)@.imm is Some ==> final(self)@ == install_v(old(self)@, old(self)@.imm->0)
                && woke,
            old(self)@.imm is None ==> *final(self) == *old(self) && !woke,
    {
        if self.partition.data.has_imm() {
            let table = self.partition.data.imm_data();
            self.partition.data.replace_imm_with_table(table);
            true
        } else {
            false
        }
    }
}

/// The lower bound is exactly the least key ever written: any key at or
/// below every written key is the lower bound itself.  Together with its
/// mirror for the upper bound, this pins `bounds()` to the minimum and the
/// maximum of the keys written so far.
pub proof fn lemma_lower_bound_is_min<Comp: Comparator>(d: DataV, m: Seq<u8>)
    requires
        bounds_ok::<Comp>(d),
        d.keys.contains(m),
        forall|k: Seq<u8>| #[trigger] d.keys.contains(k) ==> Comp::le(m, k),
    ensures
        d.lower == Some(m),
{
    let l = d.lower->0;
    assert(Comp::le(l, m));
    assert(Comp::le(m, l));
    Comp::antisymmetric(l, m);
}

/// The upper bound is exactly the greatest key ever written.
pub proof fn lemma_upper_bound_is_max<Comp: Comparator>(d: DataV, m: Seq<u8>)
    requires
        bounds_ok::<Comp>(d),
        d.keys.contains(m),
        forall|k: Seq<u8>| #[trigger] d.keys.contains(k) ==> Comp::le(k, m),
    ensures
        d.upper == Some(m),
{
    let u = d.upper->0;
    assert(Comp::le(m, u));
    assert(Comp::le(u, m));
    Comp::antisymmetric(u, m);
}

/// Range-order antisymmetry: when one partition's range ends strictly
/// before the other's begins, the two comparisons decide `Less` and
/// `Greater` respectively; and the ranges are incomparable in one order
/// exactly when they are incomparable in the other.
pub proof fn lemma_range_decision_antisymmetric<Comp: Comparator>(
    sl: Seq<u8>,
    su: Seq<u8>,
    ol: Seq<u8>,
    ou: Seq<u8>,
)
    requires
        Comp::le(sl, su),
        Comp::le(ol, ou),
    ensures
        range_decision::<Comp>(sl, su, ol, ou) == Ok::<KeyOrder, Error>(KeyOrder::Less)
            ==> range_decision::<Comp>(ol, ou, sl, su) == Ok::<KeyOrder, Error>(KeyOrder::Greater),
        range_decision::<Comp>(sl, su, ol, ou) == Err::<KeyOrder, Error>(Error::OverlappingRange)
            <==> range_decision::<Comp>(ol, ou, sl, su) == Err::<KeyOrder, Error>(
            Error::OverlappingRange,
        ),
{
    if range_before::<Comp>(su, ol) && range_before::<Comp>(ou, sl) {
        Comp::transitive(ol, ou, sl);
        Comp::transitive(ol, sl, su);
        Comp::antisymmetric(su, ol);
        assert(false);
    }
}

/// Flush round-trip: freezing a buffer and installing the table built from
/// the frozen entries leaves the pending-flush slot empty, appends exactly
/// one file — holding exactly the frozen entries — to level 0, and touches
/// neither the bounds, nor the written-key history, nor the fault slot.
pub proof fn lemma_flush_round_trip(d: DataV)
    requires
        d.imm is None,
        d.levels.len() >= 1,
    ensures
        freeze_v(d).imm == Some(d.mem),
        freeze_v(d).mem == Seq::<EntryV>::empty(),
        install_v(freeze_v(d), d.mem).imm is None,
        install_v(freeze_v(d), d.mem).levels == d.levels.update(0, d.levels[0].push(d.mem)),
        install_v(freeze_v(d), d.mem).mem == Seq::<EntryV>::empty(),
        install_v(freeze_v(d), d.mem).lower == d.lower,
        install_v(freeze_v(d), d.mem).upper == d.upper,
        install_v(freeze_v(d), d.mem).keys == d.keys,
        install_v(freeze_v(d), d.mem).fault == d.fault,
{
}

} // verus!

