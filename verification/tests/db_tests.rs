use docbuf::config::DocBufDbConfig;
use docbuf::db_error::DbError;
use docbuf::error::{Error, HexError};
use docbuf::field::VTableField;
use docbuf::field_type::VTableFieldType;
use docbuf::lock::DocBufDbLock;
use docbuf::migrate::{is_migration_source, migrate_action, migrated_doc, MigrateAction};
use docbuf::offset::{VTableFieldOffset, VTableFieldOffsets};
use docbuf::page::{DocBufDbDocId, DocBufDbVTableLockFile};
use docbuf::partition::Partition;
use docbuf::partition_key::{PartitionId, PartitionKey};
use docbuf::predicate::{Predicate, PredicateOrder, Predicates};
use docbuf::rules::VTableFieldRules;
use docbuf::structs::VTableStruct;
use docbuf::table::{VTable, VTableId};

fn doc_vtable() -> VTable {
    let mut s = VTableStruct::new("Doc", None);
    s.add_field(VTableFieldType::Uuid, "id", VTableFieldRules::new());
    s.add_field(VTableFieldType::U8, "n", VTableFieldRules::new());
    let mut vt = VTable::new("test".to_string(), "Doc".to_string());
    vt.add_struct(s);
    vt
}

fn offsets() -> VTableFieldOffsets {
    let mut offsets = VTableFieldOffsets::new();
    offsets.push(VTableFieldOffset((0, 0), 0..16));
    offsets.push(VTableFieldOffset((0, 1), 16..17));
    offsets
}

fn record(id_byte: u8, n: u8) -> (Vec<u8>, Vec<u8>) {
    let mut doc = vec![id_byte; 16];
    doc.push(n);
    (offsets().as_bytes(), doc)
}

fn partition_with(records: &[(u8, u8)]) -> (Partition, Vec<u8>) {
    let p = Partition::load(doc_vtable(), PartitionId::new(3));
    let mut file = Vec::new();
    for (id, n) in records {
        let (o, d) = record(*id, *n);
        p.write_docbuf(&mut file, o, d).unwrap();
    }
    (p, file)
}

#[test]
fn test_docbuf_db_config() {
    let config = DocBufDbConfig::default().set_directory("/tmp/.docbuf/db".into());
    assert_eq!(config.directory().unwrap(), "/tmp/.docbuf/db");
}

#[test]
fn config_paths() {
    let config = DocBufDbConfig::default().set_directory("/data".to_string());
    let id = VTableId::new([1, 2, 3, 4, 5, 6, 7, 8]);
    assert_eq!(config.vtables_directory().unwrap(), "/data/vtables");
    assert_eq!(config.vtable_directory(&id).unwrap(), "/data/vtables/0102030405060708");
    assert_eq!(config.vtable_file(&id).unwrap(), "/data/vtables/0102030405060708/0102030405060708.vtable");
    assert_eq!(config.vtable_lock_file(&id).unwrap(), "/data/vtables/0102030405060708/0102030405060708.lock");
    assert_eq!(
        config.partition_file_path(&id, PartitionId::new(0x1234)).unwrap(),
        "/data/vtables/0102030405060708/1234.dbp"
    );
}

#[test]
fn config_without_directory() {
    let config = DocBufDbConfig::default();
    assert!(matches!(config.directory(), Err(DbError::DirectoryNotSet)));
    assert!(matches!(config.vtable_dir(), Err(DbError::DirectoryNotSet)));
    assert!(!config.tombstone());
    assert!(config.set_tombstone(true).tombstone());
}

#[test]
fn config_setup_directory_defaults() {
    let mut config = DocBufDbConfig::default();
    let vtables = config.setup_directory();
    assert_eq!(config.directory().unwrap(), "/tmp/.docbuf/db/");
    assert_eq!(vtables, "/tmp/.docbuf/db/vtables");
}

#[test]
fn lock_file_path() {
    let lock = DocBufDbLock::new("/data");
    assert_eq!(lock.file, "/data/db.lock");
    assert!(lock.state.vtables.is_empty());
}

#[test]
fn partition_key_from_text_is_hash() {
    let a = PartitionKey::from_text("alpha");
    let b = PartitionKey::from_text("alpha");
    let c = PartitionKey::from_text("beta");
    assert_eq!(a.as_bytes(), b.as_bytes());
    assert_ne!(a.as_bytes(), c.as_bytes());
    let expected = xxhash_rust::xxh3::xxh3_128(b"alpha");
    assert_eq!(a.as_u128(), expected);
}

#[test]
fn partition_key_numbers_and_buckets() {
    let k = PartitionKey::from_u64(16385);
    assert_eq!(k.as_u128(), 16385);
    assert_eq!(k.bucket(None), 1);
    assert_eq!(k.bucket(Some(10)), 5);
    assert_eq!(PartitionId::from_key(&k).value(), 1);
    assert_eq!(PartitionKey::from_i64(-1).as_u128(), u128::MAX);
    assert_eq!(PartitionId::new(0xab01).as_hex(), "ab01");
}

#[test]
fn partition_key_hex() {
    assert!(matches!(PartitionKey::from_hex("0"), Err(DbError::Hex(HexError::OddLength))));
    assert!(matches!(PartitionKey::from_hex("00"), Err(DbError::InvalidPartitionKey(_))));
    let hex = "000102030405060708090a0b0c0d0e0f";
    let k = PartitionKey::from_hex(hex).unwrap();
    let bytes: Vec<u8> = (0u8..16).collect();
    assert_eq!(k.as_u128(), xxhash_rust::xxh3::xxh3_128(&bytes));
    assert_eq!(PartitionKey::from_u128(1).as_hex(), "01000000000000000000000000000000");
}

#[test]
fn doc_id_bytes_roundtrip() {
    let id = DocBufDbDocId::new(VTableId::new([9; 8]), 3, 10..20);
    let bytes = id.to_bytes();
    let back = DocBufDbDocId::from_bytes(&bytes);
    assert_eq!(back.vtable_id.bytes(), [9; 8]);
    assert_eq!(back.page_index, 3);
    assert_eq!(back.page_offset, 10..20);
}

#[test]
fn lock_file_pages() {
    let mut lock = DocBufDbVTableLockFile::new(doc_vtable());
    assert_eq!(lock.page_count(), 0);
    assert!(lock.current_page_metadata().is_none());
    lock.new_page_metadata().unwrap();
    lock.new_page_metadata().unwrap();
    assert_eq!(lock.page_count(), 2);
    assert_eq!(lock.current_page_metadata().unwrap().index, 1);
}

#[test]
fn partition_write_then_read() {
    let (p, file) = partition_with(&[(7, 1), (9, 2)]);
    assert_eq!(p.count(&file).unwrap(), 2);
    assert_eq!(p.read_docbuf(&file, &[7u8; 16]).unwrap(), Some(record(7, 1).1));
    assert_eq!(p.read_docbuf(&file, &[9u8; 16]).unwrap(), Some(record(9, 2).1));
    assert_eq!(p.read_docbuf(&file, &[1u8; 16]).unwrap(), None);
    assert_eq!(p.read_docbuf_ids(&file).unwrap(), vec![[7u8; 16], [9u8; 16]]);
    assert_eq!(p.id().value(), 3);
}

#[test]
fn partition_rejects_wrong_offsets() {
    let p = Partition::load(doc_vtable(), PartitionId::new(0));
    let mut file = Vec::new();
    let res = p.write_docbuf(&mut file, vec![0; 18], vec![1; 17]);
    assert!(matches!(res, Err(DbError::VTable(Error::InvalidOffsets(2, 1)))));
    assert!(file.is_empty());
}

#[test]
fn partition_delete_removes_record() {
    let (p, mut file) = partition_with(&[(7, 1), (8, 4), (9, 2)]);
    let removed = p.delete_docbuf(&mut file, &[8u8; 16]).unwrap();
    assert_eq!(removed, record(8, 4).1);
    assert_eq!(p.count(&file).unwrap(), 2);
    assert_eq!(p.read_docbuf(&file, &[8u8; 16]).unwrap(), None);
    assert_eq!(p.read_docbuf(&file, &[9u8; 16]).unwrap(), Some(record(9, 2).1));
    let none = p.delete_docbuf(&mut file, &[5u8; 16]).unwrap();
    assert!(none.is_empty());
}

#[test]
fn partition_update_replaces_record() {
    let (p, mut file) = partition_with(&[(7, 1), (9, 2)]);
    let (o, d) = record(7, 42);
    p.update_docbuf(&mut file, &[7u8; 16], &o, &d).unwrap();
    assert_eq!(p.read_docbuf(&file, &[7u8; 16]).unwrap(), Some(d));
    assert_eq!(p.read_docbuf(&file, &[9u8; 16]).unwrap(), Some(record(9, 2).1));
    assert_eq!(p.count(&file).unwrap(), 2);
}

#[test]
fn partition_truncated_file() {
    let (p, mut file) = partition_with(&[(7, 1)]);
    file.truncate(file.len() - 3);
    assert!(matches!(p.read_docbuf(&file, &[9u8; 16]), Err(DbError::UnexpectedEof)));
}

#[test]
fn predicates_filter_search() {
    let vt = doc_vtable();
    let (p, file) = partition_with(&[(7, 1), (8, 4), (9, 2)]);
    let field = vt.get_struct_field_by_index(0, 1).unwrap();
    // The compared value is above the field's value.
    let three_above = Predicate::new(field, vec![3], PredicateOrder::Greater);
    let found = p.search_docbufs(&file, &Predicates::from(three_above)).unwrap();
    assert_eq!(found, vec![record(7, 1).1, record(9, 2).1]);
    // A failed conjunct is overruled by a disjunct that holds.
    let mixed = Predicates::from(Predicate::new(field, vec![9], PredicateOrder::Equal))
        .or(Predicate::new(field, vec![2], PredicateOrder::Equal));
    let found = p.search_docbufs(&file, &mixed).unwrap();
    assert_eq!(found, vec![record(9, 2).1]);
    // With no conjunct at all every document passes.
    let either = Predicates::new().or(Predicate::new(field, vec![2], PredicateOrder::Less));
    let found = p.search_docbufs(&file, &either).unwrap();
    assert_eq!(found.len(), 3);
}

#[test]
fn predicate_eval_on_one_document() {
    let vt = doc_vtable();
    let field = vt.get_struct_field_by_index(0, 1).unwrap();
    let (_, doc) = record(7, 5);
    let offs = offsets();
    let pred = Predicate::new(field, vec![5], PredicateOrder::Equal);
    assert!(pred.eval(&vt, &offs, &doc).unwrap());
    let pred = Predicate::new(field, vec![6], PredicateOrder::Greater);
    assert!(pred.eval(&vt, &offs, &doc).unwrap());
    let pred = Predicate::new(field, vec![6], PredicateOrder::Less);
    assert!(!pred.eval(&vt, &offs, &doc).unwrap());
    let all = Predicates::from(Predicate::new(field, vec![6], PredicateOrder::Greater))
        .and(Predicate::new(field, vec![4], PredicateOrder::Less));
    assert!(all.eval(&vt, &offs, &doc).unwrap());
    let none = Predicates::from(Predicate::new(field, vec![4], PredicateOrder::Greater));
    assert!(!none.eval(&vt, &offs, &doc).unwrap());
}

#[test]
fn partition_file_checks() {
    let (p, mut file) = partition_with(&[(7, 1), (9, 2)]);
    assert!(p.walk_ok(&file));
    assert_eq!(p.vtable_ref().num_fields, 2);
    let vt = doc_vtable();
    let field = vt.get_struct_field_by_index(0, 1).unwrap();
    let preds = Predicates::from(Predicate::new(field, vec![3], PredicateOrder::Greater));
    assert!(p.search_ok(&file, &preds));
    // A value too short for the field's width cannot be compared.
    let offs = offsets();
    let (_, doc) = record(7, 5);
    assert!(Predicate::new(field, vec![1], PredicateOrder::Less).can_eval(&vt, &offs, &doc));
    assert!(!Predicate::new(field, vec![], PredicateOrder::Less).can_eval(&vt, &offs, &doc));
    assert!(Predicate::new(field, vec![], PredicateOrder::Equal).can_eval(&vt, &offs, &doc));
    // A record whose document is longer than the work buffer cannot be read.
    let mut big = VTableFieldOffsets::new();
    big.push(VTableFieldOffset((0, 0), 0..5000));
    big.push(VTableFieldOffset((0, 1), 0..1));
    file.extend_from_slice(&big.as_bytes());
    assert!(!p.walk_ok(&file));
}

#[test]
fn partition_id_from_file_stem() {
    assert_eq!(PartitionId::from_file_stem("00ff").unwrap().value(), 255);
    assert_eq!(PartitionId::from_file_stem("0x1A2b").unwrap().value(), 0x1a2b);
    assert_eq!(PartitionId::from_file_stem("+10").unwrap().value(), 16);
    assert!(PartitionId::from_file_stem("").is_none());
    assert!(PartitionId::from_file_stem("+").is_none());
    assert!(PartitionId::from_file_stem("10000").is_none());
    assert!(PartitionId::from_file_stem("12g").is_none());
    assert_eq!(PartitionId::from_file_stem(&PartitionId::new(0xbeef).as_hex()).unwrap().value(), 0xbeef);
}

#[test]
fn predicate_errors_name_the_missing_lookup() {
    let vt = doc_vtable();
    let (_, doc) = record(7, 5);
    let mut offs = offsets();
    offs.push(VTableFieldOffset((4, 0), 0..1));
    offs.push(VTableFieldOffset((0, 9), 0..1));
    let no_item = VTableField::new(4, VTableFieldType::U8, 0, "x".to_string(), VTableFieldRules::new());
    let no_field = VTableField::new(0, VTableFieldType::U8, 9, "y".to_string(), VTableFieldRules::new());
    let pred = Predicate::new(&no_item, vec![1], PredicateOrder::Greater);
    assert!(matches!(pred.eval(&vt, &offs, &doc), Err(DbError::VTable(Error::ItemNotFound))));
    let pred = Predicate::new(&no_field, vec![1], PredicateOrder::Less);
    assert!(matches!(pred.eval(&vt, &offs, &doc), Err(DbError::VTable(Error::FieldNotFound))));
    // The first failing conjunct decides, before any disjunct.
    let good = vt.get_struct_field_by_index(0, 1).unwrap();
    let ps = Predicates::from(Predicate::new(good, vec![5], PredicateOrder::Equal))
        .and(Predicate::new(&no_field, vec![1], PredicateOrder::Less))
        .and(Predicate::new(&no_item, vec![1], PredicateOrder::Less))
        .or(Predicate::new(&no_item, vec![1], PredicateOrder::Less));
    assert!(matches!(ps.eval(&vt, &offs, &doc), Err(DbError::VTable(Error::FieldNotFound))));
    let ps = Predicates::new()
        .or(Predicate::new(&no_item, vec![1], PredicateOrder::Less))
        .or(Predicate::new(&no_field, vec![1], PredicateOrder::Less));
    assert!(matches!(ps.eval(&vt, &offs, &doc), Err(DbError::VTable(Error::ItemNotFound))));
}

#[test]
fn vtable_id_hex_roundtrip() {
    let id = doc_vtable().id();
    assert_eq!(VTableId::from_hex(&id.as_hex()).unwrap().bytes(), id.bytes());
    let id = VTableId::new([0, 0xff, 0x10, 0xab, 1, 2, 3, 0x7f]);
    assert_eq!(VTableId::from_hex(&id.as_hex()).unwrap().bytes(), id.bytes());
}

#[test]
fn vtable_checked_entry_points() {
    let vt = VTable::new("ns".to_string(), "R".to_string());
    assert_eq!(vt.try_id().unwrap().bytes(), [62, 13, 159, 1, 3, 0, 0, 0]);
    assert_eq!(vt.id().bytes(), [62, 13, 159, 1, 3, 0, 0, 0]);
    assert!(VTable::tag_fits("namespace"));
    let long = "\u{7f}".repeat(70000);
    assert!(!VTable::tag_fits(&long));
    assert!(VTable::new(long, "R".to_string()).try_id().is_none());
    assert!(doc_vtable().offset_counts_fit());
}

#[test]
fn partition_count_growth_check() {
    assert!(Partition::count_can_grow(&[], &[1, 2], &[3]));
    let mut file = vec![0xff; 8];
    assert!(!Partition::count_can_grow(&file, &[], &[]));
    file[0] = 0xfe;
    assert!(Partition::count_can_grow(&file, &[], &[]));
    assert!(Partition::count_can_grow(&[1, 2, 3], &[4], &[5]));
    assert!(!Partition::count_can_grow(&[0xff; 3], &[0xff; 2], &[0xff; 3]));
}

#[test]
fn offsets_bytes_are_chunks_and_keys_stay_distinct() {
    let mut offs = offsets();
    let bytes = offs.as_bytes();
    assert_eq!(bytes.len(), 36);
    assert_eq!(&bytes[0..18], &VTableFieldOffset((0, 0), 0..16).as_bytes()[..]);
    assert_eq!(&bytes[18..36], &VTableFieldOffset((0, 1), 16..17).as_bytes()[..]);
    offs.push(VTableFieldOffset((0, 1), 16..30));
    assert_eq!(offs.len(), 2);
    offs.push(VTableFieldOffset((0, 2), 30..31));
    assert_eq!(offs.len(), 3);
}

#[test]
fn no_predicates_match_every_document() {
    let vt = doc_vtable();
    let (_, doc) = record(7, 5);
    let offs = offsets();
    assert!(Predicates::new().eval(&vt, &offs, &doc).unwrap());
}

#[test]
fn doc_id_from_to_bytes() {
    let id = DocBufDbDocId::new(VTableId::new([1, 2, 3, 4, 5, 6, 7, 8]), 0x0102_0304, 300..70000);
    let bytes = id.to_bytes();
    assert_eq!(&bytes[0..8], &[1, 2, 3, 4, 5, 6, 7, 8]);
    assert_eq!(&bytes[8..12], &0x0102_0304u32.to_le_bytes());
    let back = DocBufDbDocId::from(bytes);
    assert_eq!(back.vtable_id.bytes(), [1, 2, 3, 4, 5, 6, 7, 8]);
    assert_eq!(back.page_index, 0x0102_0304);
    assert_eq!(back.page_offset, 300..70000);
}

#[test]
fn lock_state_keeps_each_vtable_once() {
    let mut lock = DocBufDbLock::new("/data");
    assert!(lock.state.insert(VTableId::new([1; 8])));
    assert!(lock.state.insert(VTableId::new([2; 8])));
    assert!(!lock.state.insert(VTableId::new([1; 8])));
    assert_eq!(lock.state.vtables.len(), 2);
    assert!(lock.state.contains(&VTableId::new([2; 8])));
    assert!(!lock.state.contains(&VTableId::new([3; 8])));
}

#[test]
fn partition_key_of_uuid_bytes() {
    let u = uuid::Uuid::parse_str("a1a2a3a4-b1b2-c1c2-d1d2-d3d4d5d6d7d8").unwrap();
    let k = PartitionKey::from_uuid_bytes(*u.as_bytes());
    assert_eq!(*k.as_bytes(), u.to_bytes_le());
    assert_eq!(
        *k.as_bytes(),
        [0xa4, 0xa3, 0xa2, 0xa1, 0xb2, 0xb1, 0xc2, 0xc1, 0xd1, 0xd2, 0xd3, 0xd4, 0xd5, 0xd6, 0xd7, 0xd8]
    );
}

#[test]
fn migration_decisions() {
    let a = PartitionId::new(1);
    let b = PartitionId::new(2);
    assert!(is_migration_source(true, a, b));
    assert!(!is_migration_source(true, b, b));
    assert!(!is_migration_source(false, a, b));
    assert_eq!(migrate_action(Some(a), false), MigrateAction::MoveFrom(a));
    assert_eq!(migrate_action(None, true), MigrateAction::WriteGiven);
    assert_eq!(migrate_action(None, false), MigrateAction::Nothing);
    assert_eq!(migrated_doc(vec![1], Some(vec![2])), vec![2]);
    assert_eq!(migrated_doc(vec![1], None), vec![1]);
}
