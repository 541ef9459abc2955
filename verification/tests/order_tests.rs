use lsm_core::keys::InternalKey;
use lsm_core::keys::UserKey;
use lsm_core::order::Comparator;
use lsm_core::order::DefaultComparator;
use lsm_core::order::KeyOrder;

#[test]
fn default_comparator_orders_bytewise() {
    assert!(matches!(DefaultComparator::compare(b"a", b"b"), KeyOrder::Less));
    assert!(matches!(DefaultComparator::compare(b"b", b"a"), KeyOrder::Greater));
    assert!(matches!(DefaultComparator::compare(b"abc", b"abc"), KeyOrder::Equal));
    assert!(matches!(DefaultComparator::compare(b"", b""), KeyOrder::Equal));
}

#[test]
fn default_comparator_prefix_sorts_first() {
    assert!(matches!(DefaultComparator::compare(b"ab", b"abc"), KeyOrder::Less));
    assert!(matches!(DefaultComparator::compare(b"abc", b"ab"), KeyOrder::Greater));
    assert!(matches!(DefaultComparator::compare(b"", b"a"), KeyOrder::Less));
}

#[test]
fn default_comparator_first_difference_decides() {
    assert!(matches!(DefaultComparator::compare(b"az", b"ba"), KeyOrder::Less));
    assert!(matches!(DefaultComparator::compare(b"ab\x01", b"ab\x02"), KeyOrder::Less));
}

#[test]
fn user_key_owns_its_bytes() {
    let k = UserKey::new_owned(b"hello".to_vec());
    assert!(k.is_owned());
    assert_eq!(k.key(), b"hello");
    let copy = k.dup();
    assert_eq!(copy.key(), b"hello");
    assert!(copy.is_owned());
}

#[test]
fn user_key_from_transient_view() {
    let bytes = b"transient".to_vec();
    let k = UserKey::from_view(&bytes);
    assert!(k.is_owned());
    assert_eq!(k.key(), b"transient");
}

#[test]
fn user_key_cmp_uses_comparator() {
    let a = UserKey::new_owned(b"aa".to_vec());
    let b = UserKey::new_owned(b"ab".to_vec());
    assert!(matches!(a.cmp::<DefaultComparator>(&b), KeyOrder::Less));
    assert!(matches!(b.cmp::<DefaultComparator>(&a), KeyOrder::Greater));
    assert!(matches!(a.cmp::<DefaultComparator>(&a.dup()), KeyOrder::Equal));
}

#[test]
fn internal_key_orders_by_sequence_first() {
    let older = InternalKey::new(1, UserKey::new_owned(b"z".to_vec()));
    let newer = InternalKey::new(2, UserKey::new_owned(b"a".to_vec()));
    assert!(matches!(older.cmp::<DefaultComparator>(&newer), KeyOrder::Less));
    assert!(matches!(newer.cmp::<DefaultComparator>(&older), KeyOrder::Greater));
}

#[test]
fn internal_key_breaks_sequence_ties_by_user_key() {
    let left = InternalKey::new(7, UserKey::new_owned(b"a".to_vec()));
    let right = InternalKey::new(7, UserKey::new_owned(b"b".to_vec()));
    assert!(matches!(left.cmp::<DefaultComparator>(&right), KeyOrder::Less));
    let same = InternalKey::new(7, UserKey::new_owned(b"a".to_vec()));
    assert!(matches!(left.cmp::<DefaultComparator>(&same), KeyOrder::Equal));
    assert_eq!(left.seq(), 7);
    assert_eq!(left.user_key().key(), b"a");
}
