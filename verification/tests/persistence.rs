use blog_core::{HitRecord, PersistenceStore, ViewCounter};

fn memory_store() -> PersistenceStore {
    let conn = rusqlite::Connection::open_in_memory().unwrap();
    PersistenceStore::new(conn).unwrap()
}

fn sorted_pairs(rows: Vec<HitRecord>) -> Vec<(String, i64)> {
    let mut v: Vec<(String, i64)> = rows.into_iter().map(|r| (r.slug, r.hits)).collect();
    v.sort();
    v
}

#[test]
fn schema_creation_is_idempotent() {
    let conn = rusqlite::Connection::open_in_memory().unwrap();
    let store = PersistenceStore::new(conn).unwrap();
    assert_eq!(store.scan_all().unwrap().len(), 0);
}

#[test]
fn upsert_twice_leaves_one_record() {
    let mut store = memory_store();
    store.upsert("a", 9).unwrap();
    store.upsert("a", 9).unwrap();
    let rows = store.scan_all().unwrap();
    assert_eq!(sorted_pairs(rows), vec![("a".to_string(), 9)]);
}

#[test]
fn upsert_is_last_writer_wins() {
    let mut store = memory_store();
    store.upsert("a", 1).unwrap();
    store.upsert("a", 7).unwrap();
    assert_eq!(sorted_pairs(store.scan_all().unwrap()), vec![("a".to_string(), 7)]);
}

#[test]
fn flush_writes_every_snapshot_row() {
    let mut store = memory_store();
    let rows = vec![
        HitRecord { slug: "x".to_string(), hits: 2 },
        HitRecord { slug: "y".to_string(), hits: 4 },
    ];
    let failed = store.flush(&rows);
    assert_eq!(failed, 0);
    assert_eq!(
        sorted_pairs(store.scan_all().unwrap()),
        vec![("x".to_string(), 2), ("y".to_string(), 4)]
    );
}

#[test]
fn restore_then_flush_round_trip() {
    let mut store = memory_store();
    store.upsert("a", 3).unwrap();
    store.upsert("b", 5).unwrap();

    // Restoring: scan the table and load every record into the counter.
    let mut counter = ViewCounter::new(vec!["a".to_string(), "b".to_string()]);
    let rows = store.scan_all().unwrap();
    counter.restore(&rows);
    let snap = counter.snapshot();
    assert_eq!(sorted_pairs(snap), vec![("a".to_string(), 3), ("b".to_string(), 5)]);

    // One more pageview, then a flush cycle.
    counter.increment("a");
    let snap2 = counter.snapshot();
    let failed = store.flush(&snap2);
    assert_eq!(failed, 0);
    assert_eq!(
        sorted_pairs(store.scan_all().unwrap()),
        vec![("a".to_string(), 4), ("b".to_string(), 5)]
    );
}

#[test]
fn reinitialization_preserves_existing_rows() {
    // Two connections to one shared in-memory database stand in for a
    // restart: the second initialization must keep every row.
    let uri = "file:reinit_test?mode=memory&cache=shared";
    let c1 = rusqlite::Connection::open(uri).unwrap();
    let mut first = PersistenceStore::new(c1).unwrap();
    first.upsert("a", 3).unwrap();
    first.upsert("b", 5).unwrap();

    let c2 = rusqlite::Connection::open(uri).unwrap();
    let second = PersistenceStore::new(c2).unwrap();
    assert_eq!(
        sorted_pairs(second.scan_all().unwrap()),
        vec![("a".to_string(), 3), ("b".to_string(), 5)]
    );
}
