//! Pluggable total order over raw byte strings.
//!
//! Every ordering decision of the staging core — memtable sort order, bound
//! widening, partition range comparison — goes through a [`Comparator`].
//! The trait packages the executable three-way comparison together with the
//! total-order laws that the proofs rely on.  [`DefaultComparator`] is the
//! bytewise lexicographic order, verified against those laws.

use vstd::prelude::*;

verus! {

/// Three-way result of a key comparison.
#[derive(Clone, Copy, PartialEq, Eq, Structural, Debug)]
pub enum KeyOrder {
    Less,
    Equal,
    Greater,
}

/// A total order over byte strings, fixed per deployment.
///
/// `le(a, b)` is the specification-level "sorts at or before" relation; the
/// proof obligations require it to be a total order that respects equality
/// of the byte strings, and `compare` is the executable decision procedure
/// for it.
pub trait Comparator: Sized {
    /// `a` sorts at or before `b`.
    spec fn le(a: Seq<u8>, b: Seq<u8>) -> bool;

    proof fn reflexive(a: Seq<u8>)
        ensures
            Self::le(a, a),
    ;

    proof fn transitive(a: Seq<u8>, b: Seq<u8>, c: Seq<u8>)
        requires
            Self::le(a, b),
            Self::le(b, c),
        ensures
            Self::le(a, c),
    ;

    proof fn antisymmetric(a: Seq<u8>, b: Seq<u8>)
        requires
            Self::le(a, b),
            Self::le(b, a),
        ensures
            a == b,
    ;

    proof fn total(a: Seq<u8>, b: Seq<u8>)
        ensures
            Self::le(a, b) || Self::le(b, a),
    ;

    /// Executable three-way comparison agreeing with `le`.
    fn compare(a: &[u8], b: &[u8]) -> (c: KeyOrder)
        ensures
            match c {
                KeyOrder::Less => Self::le(a@, b@) && a@ != b@,
                KeyOrder::Equal => a@ == b@,
                KeyOrder::Greater => Self::le(b@, a@) && a@ != b@,
            },
    ;
}

/// Bytewise lexicographic "at or before" on byte strings.
pub open spec fn lex_le(a: Seq<u8>, b: Seq<u8>) -> bool
    decreases a.len(),
{
    if a.len() == 0 {
        true
    } else if b.len() == 0 {
        false
    } else if a[0] < b[0] {
        true
    } else if b[0] < a[0] {
        false
    } else {
        lex_le(a.subrange(1, a.len() as int), b.subrange(1, b.len() as int))
    }
}

pub proof fn lemma_lex_le_reflexive(a: Seq<u8>)
    ensures
        lex_le(a, a),
    decreases a.len(),
{
    if a.len() > 0 {
        lemma_lex_le_reflexive(a.subrange(1, a.len() as int));
    }
}

pub proof fn lemma_lex_le_total(a: Seq<u8>, b: Seq<u8>)
    ensures
        lex_le(a, b) || lex_le(b, a),
    decreases a.len(),
{
    if a.len() > 0 && b.len() > 0 && a[0] == b[0] {
        lemma_lex_le_total(a.subrange(1, a.len() as int), b.subrange(1, b.len() as int));
    }
}

pub proof fn lemma_lex_le_antisymmetric(a: Seq<u8>, b: Seq<u8>)
    requires
        lex_le(a, b),
        lex_le(b, a),
    ensures
        a == b,
    decreases a.len(),
{
    if a.len() == 0 {
        assert(b.len() == 0);
        assert(a =~= b);
    } else {
        assert(b.len() > 0);
        assert(a[0] == b[0]);
        let at = a.subrange(1, a.len() as int);
        let bt = b.subrange(1, b.len() as int);
        lemma_lex_le_antisymmetric(at, bt);
        assert forall|i: int| 0 <= i < a.len() implies a[i] == b[i] by {
            if i > 0 {
                assert(a[i] == at[i - 1]);
                assert(b[i] == bt[i - 1]);
            }
        }
        assert(a =~= b);
    }
}

pub proof fn lemma_lex_le_transitive(a: Seq<u8>, b: Seq<u8>, c: Seq<u8>)
    requires
        lex_le(a, b),
        lex_le(b, c),
    ensures
        lex_le(a, c),
    decreases a.len(),
{
    if a.len() == 0 {
    } else {
        assert(b.len() > 0);
        assert(c.len() > 0);
        if a[0] == c[0] {
            assert(a[0] == b[0] && b[0] == c[0]);
            lemma_lex_le_transitive(
                a.subrange(1, a.len() as int),
                b.subrange(1, b.len() as int),
                c.subrange(1, c.len() as int),
            );
        } else {
            assert(a[0] <= b[0] && b[0] <= c[0]);
        }
    }
}

/// A byte string that differs first at index `i`, where it is smaller,
/// sorts strictly before the other.
proof fn lemma_lex_le_from_diff(a: Seq<u8>, b: Seq<u8>, i: int)
    requires
        0 <= i < a.len(),
        i < b.len(),
        forall|j: int| 0 <= j < i ==> a[j] == b[j],
        a[i] < b[i],
    ensures
        lex_le(a, b),
        a != b,
    decreases i,
{
    assert(a[i] != b[i]);
    if i == 0 {
        assert(lex_le(a, b));
    } else {
        let at = a.subrange(1, a.len() as int);
        let bt = b.subrange(1, b.len() as int);
        assert(a[0] == b[0]);
        assert(forall|j: int| 0 <= j < i - 1 ==> at[j] == bt[j]);
        assert(at[i - 1] == a[i] && bt[i - 1] == b[i]);
        lemma_lex_le_from_diff(at, bt, i - 1);
        assert(lex_le(a, b));
    }
    if a == b {
        assert(a[i] == b[i]);
    }
}

/// A strict prefix sorts strictly before the longer string.
proof fn lemma_lex_le_prefix(a: Seq<u8>, b: Seq<u8>)
    requires
        a.len() < b.len(),
        forall|j: int| 0 <= j < a.len() ==> a[j] == b[j],
    ensures
        lex_le(a, b),
        a != b,
    decreases a.len(),
{
    if a.len() > 0 {
        let at = a.subrange(1, a.len() as int);
        let bt = b.subrange(1, b.len() as int);
        assert(forall|j: int| 0 <= j < at.len() ==> at[j] == bt[j]);
        lemma_lex_le_prefix(at, bt);
        assert(lex_le(a, b));
    }
}

/// The bytewise lexicographic comparator: the order used when no
/// deployment-specific comparator is plugged in.
pub struct DefaultComparator;

impl Comparator for DefaultComparator {
    open spec fn le(a: Seq<u8>, b: Seq<u8>) -> bool {
        lex_le(a, b)
    }

    proof fn reflexive(a: Seq<u8>) {
        lemma_lex_le_reflexive(a);
    }

    proof fn transitive(a: Seq<u8>, b: Seq<u8>, c: Seq<u8>) {
        lemma_lex_le_transitive(a, b, c);
    }

    proof fn antisymmetric(a: Seq<u8>, b: Seq<u8>) {
        lemma_lex_le_antisymmetric(a, b);
    }

    proof fn total(a: Seq<u8>, b: Seq<u8>) {
        lemma_lex_le_total(a, b);
    }

    fn compare(a: &[u8], b: &[u8]) -> (c: KeyOrder) {
        let mut i: usize = 0;
        while i < a.len() && i < b.len() && a[i] == b[i]
            invariant
                i <= a@.len(),
                i <= b@.len(),
                forall|j: int| 0 <= j < i ==> a@[j] == b@[j],
            decreases a@.len() - i,
        {
            i += 1;
        }
        if i < a.len() && i < b.len() {
            if a[i] < b[i] {
                proof {
                    lemma_lex_le_from_diff(a@, b@, i as int);
                }
                KeyOrder::Less
            } else {
                proof {
                    lemma_lex_le_from_diff(b@, a@, i as int);
                }
                KeyOrder::Greater
            }
        } else if a.len() == b.len() {
            proof {
                assert(a@ =~= b@);
            }
            KeyOrder::Equal
        } else if a.len() < b.len() {
            proof {
                lemma_lex_le_prefix(a@, b@);
            }
            KeyOrder::Less
        } else {
            proof {
                lemma_lex_le_prefix(b@, a@);
            }
            KeyOrder::Greater
        }
    }
}

} // verus!
