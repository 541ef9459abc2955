//! The in-memory write buffer: an ordered mapping from internal key to
//! value bytes, with running size accounting.
//!
//! Entries are kept strictly sorted by internal-key order (sequence number
//! first, then user key under the partition's comparator); inserting an
//! entry whose internal key is already present replaces its value, as in an
//! ordered map.  The buffer's size estimate is the accumulated payload plus
//! a fixed per-entry overhead times the entry count plus a fixed base
//! overhead; that estimate, not the exact serialized size, governs flush
//! triggering.

use core::marker::PhantomData;

use vstd::prelude::*;

use crate::keys::IkeyV;
use crate::keys::InternalKey;
use crate::keys::ik_lt;
use crate::keys::lemma_ik_lt_asymmetric;
use crate::keys::lemma_ik_lt_transitive;
use crate::order::Comparator;
use crate::order::KeyOrder;
use crate::TABLE_CATALOG_ITEM_SIZE;
use crate::TABLE_MIN_SIZE;

verus! {

/// Mathematical value of one staged entry.
pub ghost struct EntryV {
    pub seq: u64,
    pub key: Seq<u8>,
    pub val: Seq<u8>,
}

impl EntryV {
    /// The internal key this entry is sorted by.
    pub open spec fn ikey(self) -> IkeyV {
        IkeyV { seq: self.seq, key: self.key }
    }

    /// Key bytes plus value bytes.
    pub open spec fn payload(self) -> int {
        self.key.len() + self.val.len() as int
    }
}

/// `a` is staged strictly before `b`.
pub open spec fn entry_lt<Comp: Comparator>(a: EntryV, b: EntryV) -> bool {
    ik_lt::<Comp>(a.ikey(), b.ikey())
}

/// The entries are strictly sorted by internal-key order.
pub open spec fn sorted<Comp: Comparator>(s: Seq<EntryV>) -> bool {
    forall|i: int, j: int| 0 <= i < j < s.len() ==> entry_lt::<Comp>(s[i], s[j])
}

/// Accumulated payload (key bytes plus value bytes) of the entries.
pub open spec fn payload_size(s: Seq<EntryV>) -> int
    decreases s.len(),
{
    if s.len() == 0 {
        0
    } else {
        s[0].payload() + payload_size(s.subrange(1, s.len() as int))
    }
}

/// The size estimate of a buffer staging the entries `s`.
pub open spec fn size_estimate(s: Seq<EntryV>) -> int {
    payload_size(s) + s.len() * (TABLE_CATALOG_ITEM_SIZE as int) + (TABLE_MIN_SIZE as int)
}

/// The ordered-map insertion of `e` into the sorted entry sequence `s`:
/// an entry with the same internal key is replaced, any other entry keeps
/// its place, and `e` lands at its sort position.
pub open spec fn mem_put<Comp: Comparator>(s: Seq<EntryV>, e: EntryV) -> Seq<EntryV>
    decreases s.len(),
{
    if s.len() == 0 {
        seq![e]
    } else if entry_lt::<Comp>(e, s[0]) {
        seq![e] + s
    } else if e.ikey() == s[0].ikey() {
        seq![e] + s.subrange(1, s.len() as int)
    } else {
        seq![s[0]] + mem_put::<Comp>(s.subrange(1, s.len() as int), e)
    }
}

pub proof fn lemma_payload_size_nonneg(s: Seq<EntryV>)
    ensures
        payload_size(s) >= 0,
    decreases s.len(),
{
    if s.len() > 0 {
        lemma_payload_size_nonneg(s.subrange(1, s.len() as int));
    }
}

pub proof fn lemma_payload_size_concat(x: Seq<EntryV>, y: Seq<EntryV>)
    ensures
        payload_size(x + y) == payload_size(x) + payload_size(y),
    decreases x.len(),
{
    if x.len() == 0 {
        assert(x + y =~= y);
    } else {
        let xt = x.subrange(1, x.len() as int);
        assert((x + y)[0] == x[0]);
        assert((x + y).subrange(1, (x + y).len() as int) =~= xt + y);
        lemma_payload_size_concat(xt, y);
    }
}

pub proof fn lemma_payload_size_singleton(e: EntryV)
    ensures
        payload_size(seq![e]) == e.payload(),
{
    assert(seq![e].subrange(1, 1) =~= Seq::<EntryV>::empty());
    assert(payload_size(Seq::<EntryV>::empty()) == 0);
    assert(payload_size(seq![e]) == seq![e][0].payload() + payload_size(seq![e].subrange(1, 1)));
}

/// Split the payload sum at index `i`.
pub proof fn lemma_payload_size_split(s: Seq<EntryV>, i: int)
    requires
        0 <= i <= s.len(),
    ensures
        payload_size(s) == payload_size(s.subrange(0, i)) + payload_size(
            s.subrange(i, s.len() as int),
        ),
{
    assert(s =~= s.subrange(0, i) + s.subrange(i, s.len() as int));
    lemma_payload_size_concat(s.subrange(0, i), s.subrange(i, s.len() as int));
}

/// Each entry's payload is bounded by the payload sum.
pub proof fn lemma_payload_size_at(s: Seq<EntryV>, i: int)
    requires
        0 <= i < s.len(),
    ensures
        payload_size(s) >= s[i].payload(),
        payload_size(s) == payload_size(s.subrange(0, i)) + s[i].payload() + payload_size(
            s.subrange(i + 1, s.len() as int),
        ),
{
    lemma_payload_size_split(s, i);
    let t = s.subrange(i, s.len() as int);
    assert(t[0] == s[i]);
    assert(t.subrange(1, t.len() as int) =~= s.subrange(i + 1, s.len() as int));
    lemma_payload_size_nonneg(s.subrange(0, i));
    lemma_payload_size_nonneg(s.subrange(i + 1, s.len() as int));
}

/// `mem_put` leaves a prefix of entries staged before `e` unchanged.
proof fn lemma_mem_put_skip<Comp: Comparator>(s: Seq<EntryV>, e: EntryV, i: int)
    requires
        0 <= i <= s.len(),
        forall|k: int| 0 <= k < i ==> entry_lt::<Comp>(s[k], e),
    ensures
        mem_put::<Comp>(s, e) == s.subrange(0, i) + mem_put::<Comp>(
            s.subrange(i, s.len() as int),
            e,
        ),
    decreases i,
{
    if i == 0 {
        assert(s.subrange(0, s.len() as int) =~= s);
        assert(s.subrange(0, 0) + mem_put::<Comp>(s, e) =~= mem_put::<Comp>(s, e));
    } else {
        lemma_ik_lt_asymmetric::<Comp>(s[0].ikey(), e.ikey());
        let t = s.subrange(1, s.len() as int);
        assert(forall|k: int| 0 <= k < i - 1 ==> entry_lt::<Comp>(t[k], e));
        lemma_mem_put_skip::<Comp>(t, e, i - 1);
        assert(t.subrange(0, i - 1) =~= s.subrange(1, i));
        assert(t.subrange(i - 1, t.len() as int) =~= s.subrange(i, s.len() as int));
        assert(mem_put::<Comp>(s, e) == seq![s[0]] + mem_put::<Comp>(t, e));
        assert(seq![s[0]] + (s.subrange(1, i) + mem_put::<Comp>(
            s.subrange(i, s.len() as int),
            e,
        )) =~= s.subrange(0, i) + mem_put::<Comp>(s.subrange(i, s.len() as int), e));
    }
}

/// One staged entry: an internal key and its value bytes.
pub struct MemEntry {
    pub key: InternalKey,
    pub value: Vec<u8>,
}

impl View for MemEntry {
    type V = EntryV;

    open spec fn view(&self) -> EntryV {
        EntryV { seq: self.key@.seq, key: self.key@.key, val: self.value@ }
    }
}

/// The mutable write buffer of one partition.
pub struct MemTable<Comp: Comparator> {
    entries: Vec<MemEntry>,
    data_size: usize,
    comparator: PhantomData<Comp>,
}

impl<Comp: Comparator> View for MemTable<Comp> {
    type V = Seq<EntryV>;

    closed spec fn view(&self) -> Seq<EntryV> {
        self.entries@.map_values(|me: MemEntry| me@)
    }
}

/// Find the first slot whose entry is not staged before `key`.
fn lower_index_from<Comp: Comparator>(entries: &Vec<MemEntry>, key: &InternalKey, i: usize) -> (r:
    usize)
    requires
        i <= entries@.len(),
        forall|k: int| 0 <= k < i ==> ik_lt::<Comp>(entries@[k]@.ikey(), key@),
    ensures
        i <= r <= entries@.len(),
        forall|k: int| 0 <= k < r ==> ik_lt::<Comp>(entries@[k]@.ikey(), key@),
        r < entries@.len() ==> !ik_lt::<Comp>(entries@[r as int]@.ikey(), key@),
    decreases entries@.len() - i,
{
    if i == entries.len() {
        i
    } else {
        let c = entries[i].key.cmp::<Comp>(key);
        match c {
            KeyOrder::Less => lower_index_from::<Comp>(entries, key, i + 1),
            KeyOrder::Equal => i,
            KeyOrder::Greater => {
                proof {
                    lemma_ik_lt_asymmetric::<Comp>(key@, entries@[i as int]@.ikey());
                }
                i
            },
        }
    }
}

impl<Comp: Comparator> MemTable<Comp> {
    /// Sorted, with faithful size accounting, and a size estimate that fits
    /// the machine word.
    pub closed spec fn wf(&self) -> bool {
        &&& sorted::<Comp>(self@)
        &&& self.data_size as int == payload_size(self@)
        &&& size_estimate(self@) <= usize::MAX as int
    }

    /// A fresh empty buffer.
    pub fn new() -> (r: MemTable<Comp>)
        ensures
            r.wf(),
            r@ == Seq::<EntryV>::empty(),
    {
        let r = MemTable { entries: Vec::new(), data_size: 0, comparator: PhantomData };
        proof {
            assert(r@ =~= Seq::<EntryV>::empty());
        }
        r
    }

    /// Number of staged entries.
    pub fn len(&self) -> (r: usize)
        ensures
            r == self@.len(),
    {
        self.entries.len()
    }

    /// Borrow the entry in slot `i` of the sort order.
    pub fn entry(&self, i: usize) -> (r: &MemEntry)
        requires
            i < self@.len(),
        ensures
            r@ == self@[i as int],
    {
        &self.entries[i]
    }

    /// The size estimate governing flush triggering.
    pub fn size(&self) -> (r: usize)
        requires
            self.wf(),
        ensures
            r as int == size_estimate(self@),
    {
        proof {
            lemma_payload_size_nonneg(self@);
        }
        self.data_size + self.entries.len() * TABLE_CATALOG_ITEM_SIZE + TABLE_MIN_SIZE
    }

    /// Stage `(key, value)`: replaces the value of an entry with the same
    /// internal key, otherwise inserts at the sort position.
    pub fn put(&mut self, key: InternalKey, value: Vec<u8>)
        requires
            old(self).wf(),
            size_estimate(old(self)@) + key@.key.len() + value@.len() + (
            TABLE_CATALOG_ITEM_SIZE as int) <= usize::MAX as int,
        ensures
            final(self).wf(),
            final(self)@ == mem_put::<Comp>(
                old(self)@,
                (EntryV { seq: key@.seq, key: key@.key, val: value@ }),
            ),
            size_estimate(final(self)@) <= size_estimate(old(self)@) + key@.key.len()
                + value@.len() + (TABLE_CATALOG_ITEM_SIZE as int),
    {
        let ghost e = EntryV { seq: key@.seq, key: key@.key, val: value@ };
        let ghost s0 = self@;
        let n = self.entries.len();
        let i = lower_index_from::<Comp>(&self.entries, &key, 0);
        proof {
            assert(forall|k: int| 0 <= k < i ==> entry_lt::<Comp>(s0[k], e));
            lemma_mem_put_skip::<Comp>(s0, e, i as int);
            lemma_payload_size_nonneg(s0);
        }
        if i < n {
            let c = self.entries[i].key.cmp::<Comp>(&key);
            match c {
                KeyOrder::Equal => {
                    // Same internal key: replace the stored value.
                    proof {
                        lemma_payload_size_at(s0, i as int);
                        let t = s0.subrange(i as int, s0.len() as int);
                        assert(t[0] == s0[i as int]);
                        assert(!entry_lt::<Comp>(e, t[0]));
                        assert(e.ikey() == t[0].ikey());
                        assert(t.subrange(1, t.len() as int) =~= s0.subrange(
                            i + 1,
                            s0.len() as int,
                        ));
                        assert(mem_put::<Comp>(s0, e) == s0.subrange(0, i as int) + (seq![e]
                            + s0.subrange(i + 1, s0.len() as int)));
                    }
                    let old_entry = self.entries.remove(i);
                    let ds = self.data_size - old_entry.value.len() + value.len();
                    self.data_size = ds;
                    self.entries.insert(i, MemEntry { key, value });
                    proof {
                        let sf = self@;
                        let target = s0.subrange(0, i as int) + (seq![e] + s0.subrange(
                            i + 1,
                            s0.len() as int,
                        ));
                        assert forall|k: int| 0 <= k < sf.len() implies sf[k] == target[k] by {
                            assert(sf[k] == self.entries@[k]@);
                        }
                        assert(sf =~= target);
                        // payload accounting: the replaced entry had the same key bytes
                        assert(s0[i as int].key == e.key);
                        lemma_payload_size_concat(
                            s0.subrange(0, i as int),
                            seq![e] + s0.subrange(i + 1, s0.len() as int),
                        );
                        lemma_payload_size_concat(seq![e], s0.subrange(i + 1, s0.len() as int));
                        lemma_payload_size_singleton(e);
                        assert(payload_size(sf) == payload_size(s0) - s0[i as int].payload()
                            + e.payload());
                        // sortedness: entry i keeps its sort position
                        assert forall|p: int, q: int| 0 <= p < q < sf.len() implies entry_lt::<
                            Comp,
                        >(sf[p], sf[q]) by {
                            assert(sorted::<Comp>(s0));
                            if p == i {
                                assert(sf[q] == s0[q]);
                                assert(entry_lt::<Comp>(s0[i as int], s0[q]));
                            } else if q == i {
                                assert(sf[p] == s0[p]);
                                assert(entry_lt::<Comp>(s0[p], s0[i as int]));
                            } else {
                                assert(sf[p] == s0[p] && sf[q] == s0[q]);
                            }
                        }
                    }
                },
                _ => {
                    // A strictly greater entry occupies slot i: insert before it.
                    proof {
                        let t = s0.subrange(i as int, s0.len() as int);
                        assert(t[0] == s0[i as int]);
                        assert(ik_lt::<Comp>(e.ikey(), s0[i as int].ikey()));
                        assert(entry_lt::<Comp>(e, t[0]));
                        assert(seq![e] + t =~= seq![e] + s0.subrange(i as int, s0.len() as int));
                        assert(mem_put::<Comp>(s0, e) == s0.subrange(0, i as int) + (seq![e]
                            + s0.subrange(i as int, s0.len() as int)));
                    }
                    self.insert_at(i, key, value, Ghost(s0), Ghost(e));
                },
            }
        } else {
            proof {
                let t = s0.subrange(i as int, s0.len() as int);
                assert(t =~= Seq::<EntryV>::empty());
                assert(mem_put::<Comp>(s0, e) == s0.subrange(0, i as int) + seq![e]);
                assert(seq![e] + s0.subrange(i as int, s0.len() as int) =~= seq![e]);
                assert(mem_put::<Comp>(s0, e) == s0.subrange(0, i as int) + (seq![e] + s0.subrange(
                    i as int,
                    s0.len() as int,
                )));
            }
            self.insert_at(i, key, value, Ghost(s0), Ghost(e));
        }
    }

    /// Insert a fresh entry in slot `i`, which is its sort position.
    fn insert_at(
        &mut self,
        i: usize,
        key: InternalKey,
        value: Vec<u8>,
        Ghost(s0): Ghost<Seq<EntryV>>,
        Ghost(e): Ghost<EntryV>,
    )
        requires
            old(self).wf(),
            s0 == old(self)@,
            e == (EntryV { seq: key@.seq, key: key@.key, val: value@ }),
            0 <= i <= s0.len(),
            forall|k: int| 0 <= k < i ==> entry_lt::<Comp>(s0[k], e),
            i < s0.len() ==> entry_lt::<Comp>(e, s0[i as int]),
            size_estimate(s0) + e.payload() + (TABLE_CATALOG_ITEM_SIZE as int) <= usize::MAX as int,
        ensures
            final(self).wf(),
            final(self)@ == s0.subrange(0, i as int) + (seq![e] + s0.subrange(
                i as int,
                s0.len() as int,
            )),
            size_estimate(final(self)@) == size_estimate(s0) + e.payload() + (
            TABLE_CATALOG_ITEM_SIZE as int),
    {
        proof {
            lemma_payload_size_nonneg(s0);
        }
        let kl = key.user_key().key().len();
        let vl = value.len();
        let ds = self.data_size + kl + vl;
        self.data_size = ds;
        self.entries.insert(i, MemEntry { key, value });
        proof {
            let sf = self@;
            let target = s0.subrange(0, i as int) + (seq![e] + s0.subrange(
                i as int,
                s0.len() as int,
            ));
            assert forall|k: int| 0 <= k < sf.len() implies sf[k] == target[k] by {
                assert(sf[k] == self.entries@[k]@);
            }
            assert(sf =~= target);
            lemma_payload_size_concat(
                s0.subrange(0, i as int),
                seq![e] + s0.subrange(i as int, s0.len() as int),
            );
            lemma_payload_size_concat(seq![e], s0.subrange(i as int, s0.len() as int));
            lemma_payload_size_singleton(e);
            lemma_payload_size_split(s0, i as int);
            assert(payload_size(sf) == payload_size(s0) + e.payload());
            // sortedness of the widened sequence
            assert forall|p: int, q: int| 0 <= p < q < sf.len() implies entry_lt::<Comp>(
                sf[p],
                sf[q],
            ) by {
                assert(sorted::<Comp>(s0));
                let pe = if p < i {
                    s0[p]
                } else if p == i {
                    e
                } else {
                    s0[p - 1]
                };
                let qe = if q < i {
                    s0[q]
                } else if q == i {
                    e
                } else {
                    s0[q - 1]
                };
                assert(sf[p] == pe && sf[q] == qe);
                if p < i && q == i {
                } else if p == i && q > i {
                    assert(q - 1 < s0.len());
                    assert(i < s0.len());
                    assert(entry_lt::<Comp>(e, s0[i as int]));
                    if q - 1 > i {
                        assert(entry_lt::<Comp>(s0[i as int], s0[q - 1]));
                        lemma_ik_lt_transitive::<Comp>(
                            e.ikey(),
                            s0[i as int].ikey(),
                            s0[q - 1].ikey(),
                        );
                    }
                } else if p < i && q > i {
                } else {
                }
            }
        }
    }
}

} // verus!
