use tokio_mwmr::entry::{fingerprint, Entry, EntryData};
use tokio_mwmr::error::{Error, StorageError};
use tokio_mwmr::write::{Item, TransactionDB, WriteTransaction};

fn k(s: &str) -> Vec<u8> {
    s.as_bytes().to_vec()
}

fn value_of(item: &Item) -> Vec<u8> {
    let e = match item {
        Item::Pending(e) => e,
        Item::Committed(e) => e,
    };
    match &e.data {
        EntryData::Insert { value, .. } => value.clone(),
        EntryData::Remove(_) => panic!("a removal is never returned"),
    }
}

fn key_of(e: &Entry) -> Vec<u8> {
    e.key().clone()
}

fn commit_value(db: &mut TransactionDB, key: &str, value: &str) -> u64 {
    let mut t = db.write(true);
    t.insert(db, k(key), k(value)).unwrap();
    t.commit(db).unwrap();
    db.orc.last_ts
}

#[test]
fn end_to_end_scenario() {
    let mut db = TransactionDB::new(100, 1 << 20, 10);

    let mut t1 = db.write(true);
    assert_eq!(t1.read_ts, 10);
    assert!(t1.get(&db, &k("a")).unwrap().is_none());
    assert_eq!(t1.commit(&mut db), Ok(()));
    assert_eq!(db.orc.last_ts, 10);

    let mut t3 = db.write(true);
    let mut t2 = db.write(true);
    t2.insert(&db, k("a"), k("1")).unwrap();
    assert_eq!(t2.commit(&mut db), Ok(()));
    assert_eq!(db.orc.last_ts, 11);

    // t3 read "a" from its snapshot and "a" was written at 11 > 10.
    assert!(t3.get(&db, &k("a")).unwrap().is_none());
    t3.insert(&db, k("b"), k("2")).unwrap();
    assert_eq!(t3.commit(&mut db), Err(Error::Conflict));
    t3.discard(&mut db);

    let mut t4 = db.write(true);
    assert_eq!(t4.read_ts, 11);
    let got = t4.get(&db, &k("a")).unwrap().unwrap();
    assert!(matches!(got, Item::Committed(_)));
    assert_eq!(value_of(&got), k("1"));
}

#[test]
fn writer_that_did_not_read_the_key_commits_after_another() {
    let mut db = TransactionDB::new(100, 1 << 20, 10);
    let mut t3 = db.write(true);
    assert_eq!(commit_value(&mut db, "a", "1"), 11);
    t3.insert(&db, k("b"), k("2")).unwrap();
    assert_eq!(t3.commit(&mut db), Ok(()));
    assert_eq!(db.orc.last_ts, 12);
    let mut t = db.write(true);
    assert_eq!(value_of(&t.get(&db, &k("b")).unwrap().unwrap()), k("2"));
}

#[test]
fn snapshot_hides_later_versions() {
    let mut db = TransactionDB::new(100, 1 << 20, 0);
    commit_value(&mut db, "x", "old");
    let mut reader = db.write(true);
    commit_value(&mut db, "x", "new");
    let got = reader.get(&db, &k("x")).unwrap().unwrap();
    assert_eq!(value_of(&got), k("old"));
    match got {
        Item::Committed(e) => assert!(e.version <= reader.read_ts),
        Item::Pending(_) => panic!("expected a committed version"),
    }
    let mut later = db.write(true);
    assert_eq!(value_of(&later.get(&db, &k("x")).unwrap().unwrap()), k("new"));
}

#[test]
fn own_write_is_visible_without_logging_a_read() {
    let mut db = TransactionDB::new(100, 1 << 20, 5);
    let mut t = db.write(true);
    t.insert(&db, k("k"), k("v")).unwrap();
    let got = t.get(&db, &k("k")).unwrap().unwrap();
    assert!(matches!(got, Item::Pending(_)));
    assert_eq!(value_of(&got), k("v"));
    assert!(t.reads.is_empty());
    assert!(db.store.log.is_empty());
}

#[test]
fn store_read_logs_the_fingerprint() {
    let mut db = TransactionDB::new(100, 1 << 20, 5);
    let mut t = db.write(true);
    assert!(t.get(&db, &k("q")).unwrap().is_none());
    assert_eq!(t.reads, vec![fingerprint(&k("q"))]);
}

#[test]
fn removed_key_reads_as_absent() {
    let mut db = TransactionDB::new(100, 1 << 20, 0);
    commit_value(&mut db, "gone", "x");
    let mut t = db.write(true);
    t.remove(&db, k("gone")).unwrap();
    assert!(t.get(&db, &k("gone")).unwrap().is_none());
    t.commit(&mut db).unwrap();
    let mut r = db.write(true);
    assert!(r.get(&db, &k("gone")).unwrap().is_none());
}

#[test]
fn conflict_when_read_key_is_written_later() {
    let mut db = TransactionDB::new(100, 1 << 20, 0);
    let mut t1 = db.write(true);
    assert!(t1.get(&db, &k("k")).unwrap().is_none());
    t1.insert(&db, k("other"), k("1")).unwrap();
    commit_value(&mut db, "k", "2");
    let before = db.store.log.len();
    assert_eq!(t1.commit(&mut db), Err(Error::Conflict));
    assert!(!t1.discarded);
    assert_eq!(db.store.log.len(), before);
    assert_eq!(db.orc.last_ts, 1);
}

#[test]
fn conflict_when_written_key_is_written_later() {
    let mut db = TransactionDB::new(100, 1 << 20, 0);
    let mut t1 = db.write(true);
    t1.insert(&db, k("k"), k("1")).unwrap();
    commit_value(&mut db, "k", "2");
    assert_eq!(t1.commit(&mut db), Err(Error::Conflict));
}

#[test]
fn untracked_writes_do_not_conflict() {
    let mut db = TransactionDB::new(100, 1 << 20, 0);
    let mut t1 = db.write(false);
    t1.insert(&db, k("k"), k("1")).unwrap();
    let mut t2 = db.write(false);
    t2.insert(&db, k("k"), k("2")).unwrap();
    assert_eq!(t2.commit(&mut db), Ok(()));
    assert_eq!(t1.commit(&mut db), Ok(()));
    assert!(db.orc.committed.is_empty());
}

#[test]
fn no_conflict_on_disjoint_keys() {
    let mut db = TransactionDB::new(100, 1 << 20, 0);
    let mut t1 = db.write(true);
    assert!(t1.get(&db, &k("r")).unwrap().is_none());
    t1.insert(&db, k("w"), k("1")).unwrap();
    commit_value(&mut db, "z", "2");
    assert_eq!(t1.commit(&mut db), Ok(()));
    assert_eq!(db.orc.last_ts, 2);
    assert!(db.orc.pending_commits.is_empty());
}

#[test]
fn duplicate_versions_are_kept_in_the_batch() {
    let mut db = TransactionDB::new(100, 1 << 20, 7);
    let mut t = db.write(true);
    t.insert(&db, k("k"), k("1")).unwrap();
    t.remove(&db, k("k")).unwrap();
    assert_eq!(t.duplicate_writes.len(), 1);
    let batch = t.commit_with_task(&mut db).unwrap().unwrap();
    assert_eq!(batch.commit_ts, 8);
    assert_eq!(batch.entries.len(), 2);
    assert!(batch.entries[0].is_remove());
    assert!(!batch.entries[1].is_remove());
    for e in &batch.entries {
        assert_eq!(e.version, 8);
        assert_eq!(key_of(e), k("k"));
    }
    assert!(t.discarded);
    db.apply_batch(batch);
    assert!(db.orc.pending_commits.is_empty());
    let mut r = db.write(true);
    assert!(r.get(&db, &k("k")).unwrap().is_none());
}

#[test]
fn same_version_overwrite_keeps_one_entry() {
    let mut db = TransactionDB::new(100, 1 << 20, 7);
    let mut t = db.write(true);
    t.insert(&db, k("k"), k("1")).unwrap();
    t.insert(&db, k("k"), k("2")).unwrap();
    assert!(t.duplicate_writes.is_empty());
    let batch = t.commit_with_task(&mut db).unwrap().unwrap();
    assert_eq!(batch.entries.len(), 1);
    match &batch.entries[0].data {
        EntryData::Insert { value, .. } => assert_eq!(value, &k("2")),
        EntryData::Remove(_) => panic!("expected an insert"),
    }
}

#[test]
fn entry_count_limit() {
    let mut db = TransactionDB::new(3, 1 << 20, 0);
    let mut t = db.write(true);
    t.insert(&db, k("a"), k("1")).unwrap();
    t.insert(&db, k("b"), k("1")).unwrap();
    assert_eq!(t.count, 2);
    assert_eq!(t.insert(&db, k("c"), k("1")), Err(Error::TooLarge));
    assert_eq!(t.count, 2);
    assert!(t.get(&db, &k("c")).is_err());
    assert_eq!(t.remove(&db, k("a")), Err(Error::TooLarge));
    assert_eq!(t.commit(&mut db), Err(Error::TooLarge));
    assert!(t.discarded);
    assert!(db.store.log.is_empty());
}

#[test]
fn byte_size_limit() {
    let mut db = TransactionDB::new(100, 20, 0);
    let mut t = db.write(true);
    // 1 + 1 + 8 bytes each
    t.insert(&db, k("a"), k("1")).unwrap();
    assert_eq!(t.size, 10);
    assert_eq!(t.insert(&db, k("b"), k("1")), Err(Error::TooLarge));
    assert_eq!(t.size, 10);
    assert_eq!(t.insert(&db, k("c"), vec![]), Err(Error::TooLarge));
}

#[test]
fn empty_key_is_rejected() {
    let mut db = TransactionDB::new(100, 1 << 20, 0);
    let mut t = db.write(true);
    assert_eq!(t.insert(&db, vec![], k("1")), Err(Error::Storage(StorageError::EmptyKey)));
    assert_eq!(t.count, 0);
    assert!(!t.too_large);
    t.insert(&db, k("a"), k("1")).unwrap();
}

#[test]
fn discard_is_idempotent() {
    let mut db = TransactionDB::new(100, 1 << 20, 3);
    let mut t = db.write(true);
    assert_eq!(db.orc.read_marks, vec![3]);
    t.discard(&mut db);
    assert!(db.orc.read_marks.is_empty());
    t.discard(&mut db);
    assert!(db.orc.read_marks.is_empty());
    assert!(t.discarded && t.done_read);
    assert_eq!(t.get(&db, &k("a")).err(), Some(Error::Discarded));
    assert_eq!(t.insert(&db, k("a"), k("1")), Err(Error::Discarded));
    assert_eq!(t.remove(&db, k("a")), Err(Error::Discarded));
    assert_eq!(t.commit(&mut db), Err(Error::Discarded));
    assert!(t.iter(&db).is_err());
    assert!(t.keys(&db).is_err());
    assert!(t.commit_with_task(&mut db).is_err());
}

#[test]
fn discard_releases_only_its_own_mark() {
    let mut db = TransactionDB::new(100, 1 << 20, 3);
    let mut a = db.write(true);
    let _b = db.write(true);
    a.discard(&mut db);
    a.discard(&mut db);
    assert_eq!(db.orc.read_marks, vec![3]);
}

#[test]
fn empty_commit_takes_no_timestamp() {
    let mut db = TransactionDB::new(100, 1 << 20, 42);
    let mut t = db.write(true);
    assert_eq!(t.commit(&mut db), Ok(()));
    assert_eq!(db.orc.last_ts, 42);
    assert!(db.orc.pending_commits.is_empty());
    assert!(db.orc.read_marks.is_empty());
    assert!(t.discarded);
    let mut u = db.write(true);
    assert!(u.commit_with_task(&mut db).unwrap().is_none());
    assert_eq!(db.orc.last_ts, 42);
}

#[test]
fn commit_stamps_and_applies() {
    let mut db = TransactionDB::new(100, 1 << 20, 0);
    let mut t = db.write(true);
    t.insert(&db, k("a"), k("1")).unwrap();
    t.insert(&db, k("b"), k("2")).unwrap();
    assert_eq!(t.commit(&mut db), Ok(()));
    assert_eq!(db.store.log.len(), 2);
    assert_eq!(key_of(&db.store.log[0]), k("a"));
    assert_eq!(key_of(&db.store.log[1]), k("b"));
    assert!(db.store.log.iter().all(|e| e.version == 1));
    assert_eq!(db.orc.committed.len(), 1);
    assert_eq!(db.orc.committed[0].ts, 1);
    assert!(db.orc.read_marks.is_empty());
    assert!(db.orc.pending_commits.is_empty());
}

#[test]
fn commit_with_task_defers_application() {
    let mut db = TransactionDB::new(100, 1 << 20, 0);
    let mut t = db.write(true);
    t.insert(&db, k("a"), k("1")).unwrap();
    let batch = t.commit_with_task(&mut db).unwrap().unwrap();
    assert!(db.store.log.is_empty());
    assert_eq!(db.orc.pending_commits, vec![1]);
    db.apply_batch(batch);
    assert_eq!(db.store.log.len(), 1);
    assert!(db.orc.pending_commits.is_empty());
}

#[test]
fn iter_merges_overlay_and_snapshot() {
    let mut db = TransactionDB::new(100, 1 << 20, 0);
    commit_value(&mut db, "a", "1");
    commit_value(&mut db, "b", "1");
    commit_value(&mut db, "c", "1");
    let mut t = db.write(true);
    t.insert(&db, k("b"), k("2")).unwrap();
    t.remove(&db, k("c")).unwrap();
    t.insert(&db, k("d"), k("3")).unwrap();
    let items = t.iter(&db).unwrap();
    let pairs: Vec<(Vec<u8>, Vec<u8>, bool)> = items
        .iter()
        .map(|i| {
            let e = match i {
                Item::Pending(e) | Item::Committed(e) => e,
            };
            (key_of(e), value_of(i), matches!(i, Item::Pending(_)))
        })
        .collect();
    assert_eq!(
        pairs,
        vec![
            (k("b"), k("2"), true),
            (k("d"), k("3"), true),
            (k("a"), k("1"), false),
        ]
    );
    assert_eq!(t.keys(&db).unwrap(), vec![k("b"), k("d"), k("a")]);
    assert!(t.reads.is_empty());
}

#[test]
fn fingerprint_values() {
    assert_eq!(fingerprint(&vec![]), 0xcbf29ce484222325);
    assert_eq!(fingerprint(&k("a")), 0xaf63dc4c8601ec8c);
    assert_eq!(fingerprint(&k("a")), fingerprint(&k("a")));
    assert_ne!(fingerprint(&k("a")), fingerprint(&k("b")));
}

#[test]
fn new_transaction_is_fresh() {
    let t = WriteTransaction::new(9, false);
    assert_eq!(t.read_ts, 9);
    assert!(t.conflict_keys.is_none());
    assert!(t.pending_writes.is_empty());
}
