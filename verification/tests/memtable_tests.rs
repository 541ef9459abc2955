use lsm_core::keys::InternalKey;
use lsm_core::keys::UserKey;
use lsm_core::level::Level;
use lsm_core::memtable::MemTable;
use lsm_core::order::DefaultComparator;
use lsm_core::table::ScSplit;
use lsm_core::table::ScTableBuilder;
use lsm_core::TABLE_CATALOG_ITEM_SIZE;
use lsm_core::TABLE_MIN_SIZE;

fn ik(seq: u64, key: &[u8]) -> InternalKey {
    InternalKey::new(seq, UserKey::new_owned(key.to_vec()))
}

#[test]
fn empty_memtable_size_is_base_overhead() {
    let m: MemTable<DefaultComparator> = MemTable::new();
    assert_eq!(m.len(), 0);
    assert_eq!(m.size(), TABLE_MIN_SIZE);
}

#[test]
fn memtable_size_counts_payload_and_per_entry_overhead() {
    let mut m: MemTable<DefaultComparator> = MemTable::new();
    m.put(ik(1, b"k"), b"abc".to_vec());
    // 1 key byte + 3 value bytes + one catalog slot + the base overhead
    assert_eq!(m.size(), 1 + 3 + TABLE_CATALOG_ITEM_SIZE + TABLE_MIN_SIZE);
}

#[test]
fn memtable_keeps_entries_sorted() {
    let mut m: MemTable<DefaultComparator> = MemTable::new();
    m.put(ik(2, b"b"), b"v2".to_vec());
    m.put(ik(1, b"c"), b"v1".to_vec());
    m.put(ik(1, b"a"), b"v0".to_vec());
    assert_eq!(m.len(), 3);
    assert_eq!(m.entry(0).key.seq(), 1);
    assert_eq!(m.entry(0).key.user_key().key(), b"a");
    assert_eq!(m.entry(1).key.seq(), 1);
    assert_eq!(m.entry(1).key.user_key().key(), b"c");
    assert_eq!(m.entry(2).key.seq(), 2);
    assert_eq!(m.entry(2).key.user_key().key(), b"b");
    assert_eq!(m.entry(2).value, b"v2".to_vec());
}

#[test]
fn memtable_put_replaces_value_of_equal_internal_key() {
    let mut m: MemTable<DefaultComparator> = MemTable::new();
    m.put(ik(5, b"same"), b"old".to_vec());
    m.put(ik(5, b"same"), b"newer".to_vec());
    assert_eq!(m.len(), 1);
    assert_eq!(m.entry(0).value, b"newer".to_vec());
    // size reflects the replacement, not two entries
    assert_eq!(m.size(), 4 + 5 + TABLE_CATALOG_ITEM_SIZE + TABLE_MIN_SIZE);
}

#[test]
fn table_builder_round_trips_triples() {
    let mut b = ScTableBuilder::new();
    b.add_kv(3, b"alpha", b"one");
    b.add_kv(4, b"beta", b"two");
    let t = b.build();
    assert_eq!(t.entry_count(), 2);
    assert_eq!(t.entry(0).seq, 3);
    assert_eq!(t.entry(0).key, b"alpha".to_vec());
    assert_eq!(t.entry(0).value, b"one".to_vec());
    assert_eq!(t.entry(1).seq, 4);
    assert_eq!(t.entry(1).key, b"beta".to_vec());
    assert_eq!(t.entry(1).value, b"two".to_vec());
}

#[test]
fn level_appends_files_in_order() {
    let mut level = Level::new();
    assert_eq!(level.file_count(), 0);
    let mut b1 = ScTableBuilder::new();
    b1.add_kv(1, b"a", b"x");
    level.add_file(b1.build());
    let b2 = ScTableBuilder::new();
    level.add_file(b2.build());
    assert_eq!(level.file_count(), 2);
    assert_eq!(level.file(0).entry_count(), 1);
    assert_eq!(level.file(1).entry_count(), 0);
}

#[test]
fn split_marker_carries_its_range() {
    let mut b = ScTableBuilder::new();
    b.add_kv(1, b"m", b"v");
    let split = ScSplit {
        file: b.build(),
        first_kv_index: 0,
        last_kv_index: 0,
        lower_bound: b"m".to_vec(),
        upper_bound: b"m".to_vec(),
    };
    assert_eq!(split.file.entry_count(), 1);
    assert_eq!(split.lower_bound, split.upper_bound);
}
