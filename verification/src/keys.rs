//! The versioned key model: owned user keys and sequence-tagged internal
//! keys.
//!
//! A transient, non-owning view of key bytes is a plain `&[u8]` parameter,
//! which the borrow checker confines to the call that produced it.  Only the
//! owned [`UserKey`] can be stored in a buffer or as a partition bound, so
//! persisting a transient view is structurally impossible.

use vstd::prelude::*;

use crate::order::Comparator;
use crate::order::KeyOrder;

verus! {

/// Copy a borrowed byte-string view into a fresh owned buffer.
pub(crate) fn dup_bytes(v: &[u8]) -> (r: Vec<u8>)
    ensures
        r@ == v@,
{
    let mut r: Vec<u8> = Vec::new();
    let mut i: usize = 0;
    while i < v.len()
        invariant
            i <= v@.len(),
            r@ == v@.subrange(0, i as int),
        decreases v@.len() - i,
    {
        r.push(v[i]);
        proof {
            assert(v@.subrange(0, (i + 1) as int) =~= v@.subrange(0, i as int).push(v@[i as int]));
        }
        i += 1;
    }
    proof {
        assert(r@ =~= v@);
    }
    r
}

/// An application-visible key that owns its bytes.
pub struct UserKey {
    bytes: Vec<u8>,
}

impl View for UserKey {
    type V = Seq<u8>;

    closed spec fn view(&self) -> Seq<u8> {
        self.bytes@
    }
}

impl UserKey {
    /// Take ownership of `vec` as key bytes.
    pub fn new_owned(vec: Vec<u8>) -> (r: UserKey)
        ensures
            r@ == vec@,
    {
        UserKey { bytes: vec }
    }

    /// Copy a transient view of key bytes into an owned key.
    pub fn from_view(slice: &[u8]) -> (r: UserKey)
        ensures
            r@ == slice@,
    {
        UserKey { bytes: dup_bytes(slice) }
    }

    /// Borrow the key bytes for the duration of the call.
    pub fn key(&self) -> (r: &[u8])
        ensures
            r@ == self@,
    {
        self.bytes.as_slice()
    }

    /// Whether this key owns its bytes.  An owned key is the only form this
    /// type can hold, so this always holds.
    pub fn is_owned(&self) -> (r: bool)
        ensures
            r,
    {
        true
    }

    /// An owned copy of this key.
    pub fn dup(&self) -> (r: UserKey)
        ensures
            r@ == self@,
    {
        UserKey { bytes: dup_bytes(self.bytes.as_slice()) }
    }

    /// Compare two keys under the comparator `Comp`.
    pub fn cmp<Comp: Comparator>(&self, other: &UserKey) -> (c: KeyOrder)
        ensures
            match c {
                KeyOrder::Less => Comp::le(self@, other@) && self@ != other@,
                KeyOrder::Equal => self@ == other@,
                KeyOrder::Greater => Comp::le(other@, self@) && self@ != other@,
            },
    {
        Comp::compare(self.bytes.as_slice(), other.bytes.as_slice())
    }
}

/// Mathematical value of an internal key: a sequence number and user-key
/// bytes.
pub ghost struct IkeyV {
    pub seq: u64,
    pub key: Seq<u8>,
}

/// `a` sorts strictly before `b`: by sequence number first, then by user
/// key under `Comp`.
pub open spec fn ik_lt<Comp: Comparator>(a: IkeyV, b: IkeyV) -> bool {
    a.seq < b.seq || (a.seq == b.seq && Comp::le(a.key, b.key) && a.key != b.key)
}

pub proof fn lemma_ik_lt_transitive<Comp: Comparator>(a: IkeyV, b: IkeyV, c: IkeyV)
    requires
        ik_lt::<Comp>(a, b),
        ik_lt::<Comp>(b, c),
    ensures
        ik_lt::<Comp>(a, c),
{
    if a.seq == b.seq && b.seq == c.seq {
        Comp::transitive(a.key, b.key, c.key);
        if a.key == c.key {
            Comp::antisymmetric(a.key, b.key);
            assert(false);
        }
    }
}

pub proof fn lemma_ik_lt_asymmetric<Comp: Comparator>(a: IkeyV, b: IkeyV)
    requires
        ik_lt::<Comp>(a, b),
    ensures
        !ik_lt::<Comp>(b, a),
        a != b,
{
    if ik_lt::<Comp>(b, a) {
        Comp::antisymmetric(a.key, b.key);
        assert(false);
    }
}

/// A user key versioned by a monotonic sequence number; the sort key of the
/// write buffer.
pub struct InternalKey {
    seq: u64,
    user_key: UserKey,
}

impl View for InternalKey {
    type V = IkeyV;

    closed spec fn view(&self) -> IkeyV {
        IkeyV { seq: self.seq, key: self.user_key@ }
    }
}

impl InternalKey {
    pub fn new(seq: u64, user_key: UserKey) -> (r: InternalKey)
        ensures
            r@ == (IkeyV { seq, key: user_key@ }),
    {
        InternalKey { seq, user_key }
    }

    pub fn seq(&self) -> (r: u64)
        ensures
            r == self@.seq,
    {
        self.seq
    }

    pub fn user_key(&self) -> (r: &UserKey)
        ensures
            r@ == self@.key,
    {
        &self.user_key
    }

    /// Compare two internal keys: sequence number first, then user key
    /// under `Comp`.
    pub fn cmp<Comp: Comparator>(&self, other: &InternalKey) -> (c: KeyOrder)
        ensures
            match c {
                KeyOrder::Less => ik_lt::<Comp>(self@, other@),
                KeyOrder::Equal => self@ == other@,
                KeyOrder::Greater => ik_lt::<Comp>(other@, self@),
            },
    {
        if self.seq < other.seq {
            KeyOrder::Less
        } else if other.seq < self.seq {
            KeyOrder::Greater
        } else {
            self.user_key.cmp::<Comp>(&other.user_key)
        }
    }
}

} // verus!
