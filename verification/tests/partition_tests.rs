use lsm_core::keys::InternalKey;
use lsm_core::keys::UserKey;
use lsm_core::order::DefaultComparator;
use lsm_core::order::KeyOrder;
use lsm_core::partition::ArcPartition;
use lsm_core::partition::Error;
use lsm_core::partition::Options;
use lsm_core::partition::Partition;
use lsm_core::partition::PartitionData;
use lsm_core::partition::WriteStatus;
use lsm_core::partition::kv_pair_size;
use lsm_core::TABLE_CATALOG_ITEM_SIZE;
use lsm_core::TABLE_MIN_SIZE;

fn ik(seq: u64, key: &[u8]) -> InternalKey {
    InternalKey::new(seq, UserKey::new_owned(key.to_vec()))
}

fn handle(table_size: usize) -> ArcPartition<DefaultComparator> {
    ArcPartition::new(Partition::new(Options { table_size }))
}

#[test]
fn kv_pair_size_adds_catalog_overhead() {
    let key = ik(1, b"k");
    assert_eq!(kv_pair_size(&key, b"abc"), 1 + 3 + TABLE_CATALOG_ITEM_SIZE);
}

#[test]
fn fresh_partition_has_empty_state() {
    let data: PartitionData<DefaultComparator> = PartitionData::new(Options { table_size: 1024 });
    assert!(!data.has_imm());
    assert_eq!(data.memtable_len(), 0);
    assert_eq!(data.memtable_size(), TABLE_MIN_SIZE);
    let (lower, upper) = data.bounds();
    assert!(lower.is_none() && upper.is_none());
    assert!(data.debug_bounds_sanity_check());
    assert!(data.background_error().is_ok());
    assert_eq!(data.levels().len(), 1);
    assert_eq!(data.levels()[0].file_count(), 0);
    assert!(data.imm_bounds().is_none());
}

// Threshold 1024, per-entry overhead 24, base overhead 64: seven pairs of a
// one-byte key and a 100-byte value fill the buffer to 939; the eighth
// would reach 1064, so it must freeze the buffer and land alone in the
// fresh one, with the seven staged pairs unchanged in the pending-flush
// buffer.
#[test]
fn eighth_insert_triggers_freeze_at_threshold() {
    let mut h = handle(1024);
    let keys: [&[u8]; 7] = [b"a", b"b", b"c", b"d", b"e", b"f", b"g"];
    for (i, k) in keys.iter().enumerate() {
        let st = h.write(ik(i as u64 + 1, k), vec![0u8; 100]).unwrap();
        assert_eq!(st, WriteStatus::Inserted);
    }
    assert_eq!(h.partition.data.memtable_size(), TABLE_MIN_SIZE + 7 * 125);
    assert!(!h.partition.data.has_imm());

    let st = h.write(ik(8, b"h"), vec![0u8; 100]).unwrap();
    assert_eq!(st, WriteStatus::FrozeThenInserted);

    // the fresh active buffer holds exactly the eighth pair
    assert_eq!(h.partition.data.memtable_len(), 1);
    assert_eq!(h.partition.data.memtable_size(), TABLE_MIN_SIZE + 125);
    let mem = h.partition.data.memtable();
    assert_eq!(mem.entry(0).key.user_key().key(), b"h");

    // the previously active buffer appears unchanged as the pending buffer
    assert!(h.partition.data.has_imm());
    let frozen = h.partition.data.imm_data();
    assert_eq!(frozen.entry_count(), 7);
    for (i, k) in keys.iter().enumerate() {
        assert_eq!(frozen.entry(i).seq, i as u64 + 1);
        assert_eq!(frozen.entry(i).key, k.to_vec());
        assert_eq!(frozen.entry(i).value, vec![0u8; 100]);
    }
    let (lo, hi) = h.partition.data.imm_bounds().unwrap();
    assert_eq!(lo.key(), b"a");
    assert_eq!(hi.key(), b"g");
}

// An individually oversized pair is never rejected: it is admitted into a
// just-frozen, empty buffer whose size may then exceed the threshold.
#[test]
fn oversized_pair_is_admitted_after_freeze() {
    let mut h = handle(128);
    let st = h.write(ik(1, b"big"), vec![7u8; 500]).unwrap();
    assert_eq!(st, WriteStatus::FrozeThenInserted);
    assert_eq!(h.partition.data.memtable_len(), 1);
    assert!(h.partition.data.memtable_size() > 128);
    // the frozen buffer was the initial empty one
    assert_eq!(h.partition.data.imm_data().entry_count(), 0);
    assert!(h.partition.data.imm_bounds().is_none());
}

// Two writers blocked on the same full partition while a flush is pending:
// the flush completes, reports that the waiters must be woken, and both
// writers' retries then proceed.
#[test]
fn blocked_writers_proceed_after_flush_completes() {
    let mut h = handle(300);
    // fill and freeze: the second write freezes the first pair's buffer
    assert_eq!(h.write(ik(1, b"a"), vec![0u8; 150]).unwrap(), WriteStatus::Inserted);
    assert_eq!(h.write(ik(2, b"b"), vec![0u8; 150]).unwrap(), WriteStatus::FrozeThenInserted);
    // both writers find the buffer full and a flush pending: neither stages
    let before = h.partition.data.memtable_len();
    assert_eq!(h.write(ik(3, b"c"), vec![0u8; 150]).unwrap(), WriteStatus::FlushPending);
    assert_eq!(h.write(ik(4, b"d"), vec![0u8; 150]).unwrap(), WriteStatus::FlushPending);
    assert_eq!(h.partition.data.memtable_len(), before);
    assert!(h.partition.data.has_imm());

    // the background flush completes and must wake the blocked writers
    assert!(h.compact_memtable());
    assert!(!h.partition.data.has_imm());
    assert_eq!(h.partition.data.levels()[0].file_count(), 1);

    // first retry freezes the (again full) buffer, second waits for that
    // flush in turn, completes it, and then proceeds: no writer starves
    assert_eq!(h.write(ik(3, b"c"), vec![0u8; 150]).unwrap(), WriteStatus::FrozeThenInserted);
    assert_eq!(h.write(ik(4, b"d"), vec![0u8; 150]).unwrap(), WriteStatus::FlushPending);
    assert!(h.compact_memtable());
    assert_eq!(h.write(ik(4, b"d"), vec![0u8; 150]).unwrap(), WriteStatus::FrozeThenInserted);
    assert_eq!(h.partition.data.levels()[0].file_count(), 2);
    assert!(h.compact_memtable());
    assert_eq!(h.partition.data.levels()[0].file_count(), 3);
}

// Freezing, serializing through the table builder and installing the result
// leaves level 0 with one new file holding the frozen entries, and the
// pending-flush slot cleared.
#[test]
fn flush_installs_one_file_into_level_zero() {
    let mut h = handle(150);
    assert_eq!(h.write(ik(1, b"k1"), vec![1u8; 40]).unwrap(), WriteStatus::Inserted);
    assert_eq!(h.write(ik(2, b"k2"), vec![2u8; 40]).unwrap(), WriteStatus::FrozeThenInserted);
    assert!(h.partition.data.has_imm());

    assert!(h.compact_memtable());

    assert!(!h.partition.data.has_imm());
    let levels = h.partition.data.levels();
    assert_eq!(levels[0].file_count(), 1);
    let file = levels[0].file(0);
    assert_eq!(file.entry_count(), 1);
    assert_eq!(file.entry(0).seq, 1);
    assert_eq!(file.entry(0).key, b"k1".to_vec());
    assert_eq!(file.entry(0).value, vec![1u8; 40]);
    // nothing pending: a second compaction is a no-op and wakes nobody
    assert!(!h.compact_memtable());
    assert_eq!(h.partition.data.levels()[0].file_count(), 1);
}

// After writing keys k1..kn the bounds are their minimum and maximum.
#[test]
fn bounds_track_min_and_max_of_written_keys() {
    let mut h = handle(4096);
    for (i, k) in [b"mm" as &[u8], b"aa", b"zz", b"bb", b"aa"].iter().enumerate() {
        h.write(ik(i as u64 + 1, k), b"v".to_vec()).unwrap();
    }
    let (lower, upper) = h.partition.data.bounds();
    assert_eq!(lower.unwrap().key(), b"aa");
    assert_eq!(upper.unwrap().key(), b"zz");
    assert!(h.partition.data.debug_bounds_sanity_check());
}

#[test]
fn set_bounds_replace_the_stored_keys() {
    let mut data: PartitionData<DefaultComparator> =
        PartitionData::new(Options { table_size: 64 });
    let lower = UserKey::new_owned(b"lo".to_vec());
    assert!(lower.is_owned());
    data.set_lower_bound(lower);
    data.set_upper_bound(UserKey::new_owned(b"up".to_vec()));
    let (lo, up) = data.bounds();
    assert_eq!(lo.unwrap().key(), b"lo");
    assert_eq!(up.unwrap().key(), b"up");
}

// Disjoint ranges compare antisymmetrically; touching or overlapping
// ranges are incomparable and come back as the overlap fault.
#[test]
fn range_comparison_is_antisymmetric_for_disjoint_ranges() {
    let mut h1 = handle(4096);
    h1.write(ik(1, b"a"), b"v".to_vec()).unwrap();
    h1.write(ik(2, b"b"), b"v".to_vec()).unwrap();
    let mut h2 = handle(4096);
    h2.write(ik(3, b"c"), b"v".to_vec()).unwrap();
    h2.write(ik(4, b"d"), b"v".to_vec()).unwrap();

    let p1 = &h1.partition;
    let p2 = &h2.partition;
    assert_eq!(p1.range_cmp(p2).unwrap(), KeyOrder::Less);
    assert_eq!(p2.range_cmp(p1).unwrap(), KeyOrder::Greater);
    assert!(p1.debug_never_eq_sanity_check(p2));
}

#[test]
fn overlapping_ranges_are_incomparable_both_ways() {
    let mut h1 = handle(4096);
    h1.write(ik(1, b"a"), b"v".to_vec()).unwrap();
    h1.write(ik(2, b"c"), b"v".to_vec()).unwrap();
    let mut h2 = handle(4096);
    h2.write(ik(3, b"b"), b"v".to_vec()).unwrap();
    h2.write(ik(4, b"d"), b"v".to_vec()).unwrap();

    assert_eq!(h1.partition.range_cmp(&h2.partition), Err(Error::OverlappingRange));
    assert_eq!(h2.partition.range_cmp(&h1.partition), Err(Error::OverlappingRange));
}

#[test]
fn touching_ranges_are_incomparable() {
    let mut h1 = handle(4096);
    h1.write(ik(1, b"a"), b"v".to_vec()).unwrap();
    h1.write(ik(2, b"b"), b"v".to_vec()).unwrap();
    let mut h2 = handle(4096);
    h2.write(ik(3, b"b"), b"v".to_vec()).unwrap();

    assert_eq!(h1.partition.range_cmp(&h2.partition), Err(Error::OverlappingRange));
    assert_eq!(h2.partition.range_cmp(&h1.partition), Err(Error::OverlappingRange));
    // a shared upper bound also fails the distinctness check
    assert!(!h1.partition.debug_never_eq_sanity_check(&h2.partition));
}

// The fault slot is sticky: a later fault overwrites an earlier one, and
// reading never clears it.
#[test]
fn sticky_fault_keeps_the_latest_fault() {
    let mut data: PartitionData<DefaultComparator> =
        PartitionData::new(Options { table_size: 64 });
    data.record_background_error(Error::Io);
    data.record_background_error(Error::Corruption);
    assert_eq!(data.background_error(), Err(Error::Corruption));
    assert_eq!(data.background_error(), Err(Error::Corruption));
    data.record_background_error(Error::InvariantViolation);
    assert_eq!(data.background_error(), Err(Error::InvariantViolation));
}

// A write surfaces the recorded fault instead of staging the pair.
#[test]
fn write_surfaces_the_sticky_fault() {
    let mut h = handle(1024);
    assert_eq!(h.write(ik(1, b"a"), b"v".to_vec()).unwrap(), WriteStatus::Inserted);
    h.partition.data.record_background_error(Error::Io);
    let before = h.partition.data.memtable_len();
    assert_eq!(h.write(ik(2, b"b"), b"v".to_vec()), Err(Error::Io));
    assert_eq!(h.partition.data.memtable_len(), before);
    // the fault stays until overwritten
    assert_eq!(h.write(ik(2, b"b"), b"v".to_vec()), Err(Error::Io));
}
