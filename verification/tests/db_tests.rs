use clipvault::db::{ClipEntry, Database, StoreError};

fn setup_db() -> Database {
    Database::new()
}

fn make_entry(content: &str, time: &str) -> ClipEntry {
    ClipEntry {
        id: 0,
        content: content.to_string(),
        content_hash: format!("hash_{}", content),
        content_type: "text".to_string(),
        source_app: None,
        is_pinned: false,
        tags: None,
        created_at: time.to_string(),
    }
}

#[test]
fn test_insert_and_search() {
    let mut db = setup_db();
    let e1 = make_entry("hello world", "2026-01-01T00:00:00Z");
    let e2 = make_entry("rust tauri", "2026-01-02T00:00:00Z");

    db.insert(&e1).unwrap();
    db.insert(&e2).unwrap();

    let results = db.search("hello", 10, 0, false).unwrap();
    assert_eq!(results.len(), 1);
    assert_eq!(results[0].content, "hello world");
}

#[test]
fn test_deduplicate_by_hash() {
    let mut db = setup_db();
    let e1 = make_entry("same content", "2026-01-01T00:00:00Z");
    let e2 = ClipEntry {
        content: "same content".to_string(),
        content_hash: e1.content_hash.clone(),
        ..e1.clone()
    };

    let id1 = db.insert(&e1).unwrap();
    let id2 = db.insert(&e2).unwrap();

    // Same hash: same row, timestamp updated
    assert_eq!(id1, id2);
}

#[test]
fn test_toggle_pin() {
    let mut db = setup_db();
    let entry = make_entry("pin me", "2026-01-01T00:00:00Z");
    let id = db.insert(&entry).unwrap();

    assert!(!entry.is_pinned);

    let now_pinned = db.toggle_pin(id).unwrap();
    assert!(now_pinned);

    let now_unpinned = db.toggle_pin(id).unwrap();
    assert!(!now_unpinned);
}

#[test]
fn test_delete() {
    let mut db = setup_db();
    let entry = make_entry("delete me", "2026-01-01T00:00:00Z");
    let id = db.insert(&entry).unwrap();

    db.delete(id).unwrap();

    let results = db.search("delete", 10, 0, false).unwrap();
    assert!(results.is_empty());
}

#[test]
fn test_cleanup() {
    let mut db = setup_db();
    for i in 0..5 {
        let entry = make_entry(&format!("clip {}", i), &format!("2026-01-0{}T00:00:00Z", i + 1));
        db.insert(&entry).unwrap();
    }

    let deleted = db.cleanup(2).unwrap();
    assert_eq!(deleted, 3); // 5 total, keep 2: 3 deleted
}

#[test]
fn test_pinned_only() {
    let mut db = setup_db();
    let mut e1 = make_entry("important", "2026-01-01T00:00:00Z");
    e1.is_pinned = true;
    let e2 = make_entry("normal", "2026-01-02T00:00:00Z");

    db.insert(&e1).unwrap();
    db.insert(&e2).unwrap();

    let results = db.search("", 10, 0, true).unwrap();
    assert_eq!(results.len(), 1);
    assert_eq!(results[0].content, "important");
}

fn contents(v: &[ClipEntry]) -> Vec<String> {
    v.iter().map(|e| e.content.clone()).collect()
}

#[test]
fn ids_are_handed_out_in_order_and_never_reused() {
    let mut db = setup_db();
    assert_eq!(db.insert(&make_entry("a", "2026-01-01")).unwrap(), 1);
    assert_eq!(db.insert(&make_entry("b", "2026-01-02")).unwrap(), 2);
    db.delete(2).unwrap();
    assert_eq!(db.insert(&make_entry("c", "2026-01-03")).unwrap(), 3);
    assert_eq!(db.last_id(), 3);
}

#[test]
fn duplicate_answers_the_existing_row_even_after_other_inserts() {
    let mut db = setup_db();
    let a = make_entry("a", "2026-01-01");
    let id_a = db.insert(&a).unwrap();
    db.insert(&make_entry("b", "2026-01-02")).unwrap();
    let again = ClipEntry { created_at: "2026-01-05".to_string(), ..a.clone() };
    assert_eq!(db.insert(&again).unwrap(), id_a);
    assert_eq!(db.entries().len(), 2);
    // The refreshed clip is now the newest one, listed first.
    let all = db.search("", 10, 0, false).unwrap();
    assert_eq!(contents(&all), vec!["a", "b"]);
    assert_eq!(all[0].created_at, "2026-01-05");
}

#[test]
fn search_lists_pinned_first_then_newest() {
    let mut db = setup_db();
    db.insert(&make_entry("old", "2026-01-01")).unwrap();
    let mid = db.insert(&make_entry("mid", "2026-01-02")).unwrap();
    db.insert(&make_entry("new", "2026-01-03")).unwrap();
    db.toggle_pin(mid).unwrap();
    let all = db.search("", 10, 0, false).unwrap();
    assert_eq!(contents(&all), vec!["mid", "new", "old"]);
    // Unpinning puts it back between the others.
    db.toggle_pin(mid).unwrap();
    let all = db.search("", 10, 0, false).unwrap();
    assert_eq!(contents(&all), vec!["new", "mid", "old"]);
}

#[test]
fn equal_times_list_the_higher_id_first() {
    let mut db = setup_db();
    db.insert(&make_entry("first", "2026-01-01")).unwrap();
    db.insert(&make_entry("second", "2026-01-01")).unwrap();
    let all = db.search("", 10, 0, false).unwrap();
    assert_eq!(contents(&all), vec!["second", "first"]);
}

#[test]
fn search_is_like_with_ascii_case_folding() {
    let mut db = setup_db();
    db.insert(&make_entry("Hello World", "2026-01-01")).unwrap();
    db.insert(&make_entry("HÉLLO", "2026-01-02")).unwrap();
    db.insert(&make_entry("a_b", "2026-01-03")).unwrap();
    db.insert(&make_entry("axb", "2026-01-04")).unwrap();
    assert_eq!(contents(&db.search("hello", 10, 0, false).unwrap()), vec!["Hello World"]);
    assert_eq!(contents(&db.search("WORLD", 10, 0, false).unwrap()), vec!["Hello World"]);
    // Non-ASCII letters are compared exactly.
    assert_eq!(contents(&db.search("é", 10, 0, false).unwrap()), Vec::<String>::new());
    assert_eq!(contents(&db.search("É", 10, 0, false).unwrap()), vec!["HÉLLO"]);
    // `_` and `%` in the query are wildcards.
    assert_eq!(contents(&db.search("a_b", 10, 0, false).unwrap()), vec!["axb", "a_b"]);
    assert_eq!(contents(&db.search("H%D", 10, 0, false).unwrap()), vec!["Hello World"]);
    assert!(db.search("zzz", 10, 0, false).unwrap().is_empty());
}

#[test]
fn search_pages_with_limit_and_offset() {
    let mut db = setup_db();
    for i in 0..5 {
        db.insert(&make_entry(&format!("clip {}", i), &format!("2026-01-0{}", i + 1))).unwrap();
    }
    assert_eq!(contents(&db.search("", 2, 0, false).unwrap()), vec!["clip 4", "clip 3"]);
    assert_eq!(contents(&db.search("", 2, 2, false).unwrap()), vec!["clip 2", "clip 1"]);
    assert_eq!(contents(&db.search("", 2, 4, false).unwrap()), vec!["clip 0"]);
    assert!(db.search("", 2, 5, false).unwrap().is_empty());
    assert!(db.search("", 0, 0, false).unwrap().is_empty());
    assert!(db.search("", 10, 1000, false).unwrap().is_empty());
    // An offset past i64::MAX reaches the query as a negative OFFSET: none.
    assert_eq!(db.search("", 1, usize::MAX, false).unwrap().len(), 1);
    assert_eq!(db.search("", usize::MAX, 0, false).unwrap().len(), 5);
}

#[test]
fn toggle_pin_of_missing_clip_is_not_found() {
    let mut db = setup_db();
    assert_eq!(db.toggle_pin(7), Err(StoreError::NotFound));
    assert_eq!(StoreError::NotFound.message(), "Query returned no rows");
}

#[test]
fn delete_of_missing_clip_changes_nothing() {
    let mut db = setup_db();
    db.insert(&make_entry("keep", "2026-01-01")).unwrap();
    assert_eq!(db.delete(42), Ok(()));
    assert_eq!(db.entries().len(), 1);
}

#[test]
fn cleanup_keeps_pinned_and_newest() {
    let mut db = setup_db();
    for i in 0..5 {
        db.insert(&make_entry(&format!("clip {}", i), &format!("2026-01-0{}", i + 1))).unwrap();
    }
    db.toggle_pin(1).unwrap();
    let deleted = db.cleanup(2).unwrap();
    assert_eq!(deleted, 2);
    let all = db.search("", 10, 0, false).unwrap();
    assert_eq!(contents(&all), vec!["clip 0", "clip 4", "clip 3"]);
    assert_eq!(db.cleanup(0).unwrap(), 2);
    assert_eq!(contents(&db.search("", 10, 0, false).unwrap()), vec!["clip 0"]);
    assert_eq!(db.cleanup(usize::MAX).unwrap(), 0);
}

#[test]
fn from_rows_orders_and_checks_rows() {
    let mut a = make_entry("a", "2026-01-01");
    a.id = 3;
    let mut b = make_entry("b", "2026-01-02");
    b.id = 5;
    let db = Database::from_rows(&vec![a.clone(), b.clone()], 7).unwrap();
    assert_eq!(contents(db.entries()), vec!["b", "a"]);
    assert_eq!(db.last_id(), 7);
    // An id beyond the last id handed out.
    assert_eq!(Database::from_rows(&vec![a.clone(), b.clone()], 4).err(), Some(StoreError::InvalidRows));
    // The same hash twice.
    let mut c = b.clone();
    c.id = 6;
    assert_eq!(Database::from_rows(&vec![a.clone(), b.clone(), c], 7).err(), Some(StoreError::InvalidRows));
    // The same id twice.
    let mut d = make_entry("d", "2026-01-03");
    d.id = 3;
    assert_eq!(Database::from_rows(&vec![a.clone(), d], 7).err(), Some(StoreError::InvalidRows));
    assert_eq!(Database::from_rows(&vec![], -1).err(), Some(StoreError::InvalidRows));
}

#[test]
fn a_table_that_handed_out_every_id_is_full() {
    let mut db = Database::from_rows(&vec![], i64::MAX).unwrap();
    assert_eq!(db.insert(&make_entry("x", "2026-01-01")), Err(StoreError::Full));
    assert_eq!(StoreError::Full.message(), "database or disk is full");
}

#[test]
fn a_duplicate_insert_uses_up_an_id() {
    let mut db = setup_db();
    let a = make_entry("a", "2026-01-01");
    assert_eq!(db.insert(&a).unwrap(), 1);
    assert_eq!(db.insert(&a).unwrap(), 1);
    assert_eq!(db.last_id(), 2);
    assert_eq!(db.insert(&make_entry("b", "2026-01-02")).unwrap(), 3);
}

#[test]
fn a_duplicate_insert_fails_when_ids_are_used_up() {
    let mut a = make_entry("a", "2026-01-01");
    a.id = 5;
    let mut db = Database::from_rows(&vec![a.clone()], i64::MAX).unwrap();
    assert_eq!(db.insert(&a), Err(StoreError::Full));
    assert_eq!(db.entries().len(), 1);
}

#[test]
fn a_second_cleanup_deletes_nothing() {
    let mut db = setup_db();
    for i in 0..6 {
        db.insert(&make_entry(&format!("clip {}", i), &format!("2026-01-0{}", i + 1))).unwrap();
    }
    db.toggle_pin(2).unwrap();
    assert_eq!(db.cleanup(3).unwrap(), 2);
    let after: Vec<String> = contents(db.entries());
    assert_eq!(db.cleanup(3).unwrap(), 0);
    assert_eq!(contents(db.entries()), after);
    db.keeps_rules();
}
