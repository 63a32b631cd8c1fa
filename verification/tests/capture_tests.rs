use clipvault::clipboard::{hash_content, new_text_entry, try_read_clipboard, try_read_clipboard_at};
use clipvault::commands::{
    check_clipboard, check_clipboard_at, cleanup_clips, delete_clip, search_clips, toggle_pin,
    ClipboardState,
};
use clipvault::db::{ClipEntry, Database};

fn blake3_hex(s: &str) -> String {
    blake3::hash(s.as_bytes()).to_hex().to_string()
}

#[test]
fn hash_content_is_blake3_lower_hex() {
    let h = hash_content("hello");
    assert_eq!(h, blake3_hex("hello"));
    assert_eq!(h.len(), 64);
    assert_ne!(h, "hello");
    assert_eq!(hash_content(""), blake3_hex(""));
    assert_eq!(hash_content("剪贴板"), blake3_hex("剪贴板"));
    assert!(h.chars().all(|c| c.is_ascii_digit() || ('a'..='f').contains(&c)));
}

#[test]
fn new_text_entry_builds_a_text_clip() {
    let e = new_text_entry("x".to_string(), "h".to_string(), "t".to_string());
    assert_eq!(e.id, 0);
    assert_eq!(e.content, "x");
    assert_eq!(e.content_hash, "h");
    assert_eq!(e.content_type, "text");
    assert_eq!(e.source_app, None);
    assert!(!e.is_pinned);
    assert_eq!(e.tags, None);
    assert_eq!(e.created_at, "t");
}

#[test]
fn capture_records_new_text_once() {
    let mut last: Option<String> = None;
    let e = try_read_clipboard(Some("copied text".to_string()), &mut last).unwrap();
    assert_eq!(e.content, "copied text");
    assert_eq!(e.content_hash, blake3_hex("copied text"));
    assert_eq!(e.content_type, "text");
    assert_eq!(e.id, 0);
    assert!(!e.created_at.is_empty());
    assert_eq!(last, Some(blake3_hex("copied text")));
    // Polling the same clipboard again yields nothing.
    assert!(try_read_clipboard(Some("copied text".to_string()), &mut last).is_none());
    assert_eq!(last, Some(blake3_hex("copied text")));
    // Other text is recorded.
    let f = try_read_clipboard(Some("other".to_string()), &mut last).unwrap();
    assert_eq!(f.content, "other");
    assert_eq!(last, Some(blake3_hex("other")));
}

#[test]
fn capture_skips_blank_and_missing_text() {
    let mut last: Option<String> = Some("previous".to_string());
    assert!(try_read_clipboard(None, &mut last).is_none());
    assert!(try_read_clipboard(Some(String::new()), &mut last).is_none());
    assert!(try_read_clipboard(Some(" \t\r\n\u{3000}\u{a0}".to_string()), &mut last).is_none());
    assert_eq!(last, Some("previous".to_string()));
    // Text with surrounding white space is kept as it is.
    let e = try_read_clipboard(Some("  padded  ".to_string()), &mut last).unwrap();
    assert_eq!(e.content, "  padded  ");
}

fn entry(content: &str, time: &str) -> ClipEntry {
    new_text_entry(content.to_string(), hash_content(content), time.to_string())
}

#[test]
fn check_clipboard_stores_each_new_text_once() {
    let mut db = Database::new();
    let mut state = ClipboardState::new();
    let first = check_clipboard(&mut db, &mut state, Some("one".to_string())).unwrap().unwrap();
    assert_eq!(first.content, "one");
    assert_eq!(db.entries().len(), 1);
    assert_eq!(db.entries()[0].id, 1);
    assert_eq!(check_clipboard(&mut db, &mut state, Some("one".to_string())), Ok(None));
    assert_eq!(check_clipboard(&mut db, &mut state, None), Ok(None));
    assert_eq!(check_clipboard(&mut db, &mut state, Some("   ".to_string())), Ok(None));
    assert_eq!(db.entries().len(), 1);
    check_clipboard(&mut db, &mut state, Some("two".to_string())).unwrap().unwrap();
    assert_eq!(db.entries().len(), 2);
    // Copying the first text again refreshes its row instead of adding one.
    check_clipboard(&mut db, &mut state, Some("one".to_string())).unwrap().unwrap();
    assert_eq!(db.entries().len(), 2);
}

#[test]
fn check_clipboard_reports_a_full_table() {
    let mut db = Database::from_rows(&vec![], i64::MAX).unwrap();
    let mut state = ClipboardState::new();
    assert_eq!(
        check_clipboard(&mut db, &mut state, Some("x".to_string())),
        Err("database or disk is full".to_string())
    );
    assert_eq!(state.last_hash, Some(blake3_hex("x")));
}

#[test]
fn commands_answer_values_or_messages() {
    let mut db = Database::new();
    db.insert(&entry("alpha", "2026-01-01")).unwrap();
    db.insert(&entry("beta", "2026-01-02")).unwrap();
    let found = search_clips(&db, "ALP".to_string(), 10, 0, false).unwrap();
    assert_eq!(found.len(), 1);
    assert_eq!(found[0].content, "alpha");
    assert_eq!(toggle_pin(&mut db, 1), Ok(true));
    assert_eq!(toggle_pin(&mut db, 9), Err("Query returned no rows".to_string()));
    assert_eq!(search_clips(&db, String::new(), 10, 0, true).unwrap().len(), 1);
    assert_eq!(delete_clip(&mut db, 2), Ok(()));
    assert_eq!(cleanup_clips(&mut db, 0), Ok(0));
    assert_eq!(db.entries().len(), 1);
    assert_eq!(toggle_pin(&mut db, 1), Ok(false));
    assert_eq!(cleanup_clips(&mut db, 0), Ok(1));
    assert!(db.entries().is_empty());
}

#[test]
fn captured_clips_carry_an_rfc3339_utc_time() {
    let mut last: Option<String> = None;
    let e = try_read_clipboard(Some("stamp".to_string()), &mut last).unwrap();
    let t = e.created_at.as_bytes();
    assert!(e.created_at.ends_with("+00:00"));
    assert_eq!(t[4], b'-');
    assert_eq!(t[7], b'-');
    assert_eq!(t[10], b'T');
    assert_eq!(t[13], b':');
    assert_eq!(t[16], b':');
}

#[test]
fn capture_at_a_given_time() {
    let mut last: Option<String> = None;
    // Without a time nothing is captured and nothing changes.
    assert!(try_read_clipboard_at(Some("x".to_string()), &mut last, None).is_none());
    assert_eq!(last, None);
    let e = try_read_clipboard_at(Some("x".to_string()), &mut last, Some("2026-01-01T00:00:00+00:00".to_string())).unwrap();
    assert_eq!(e.created_at, "2026-01-01T00:00:00+00:00");
    assert_eq!(e.content_hash, blake3_hex("x"));
    assert_eq!(last, Some(blake3_hex("x")));
    // Any number of polls of the same copy, blank text or no text: nothing.
    for text in [Some("x".to_string()), None, Some(" ".to_string()), Some("x".to_string())] {
        assert!(try_read_clipboard_at(text, &mut last, Some("2026-01-02T00:00:00+00:00".to_string())).is_none());
        assert_eq!(last, Some(blake3_hex("x")));
    }
}

#[test]
fn a_poll_at_a_given_time_stores_and_answers_the_clip() {
    let mut db = Database::new();
    let mut state = ClipboardState::new();
    let t = Some("2026-01-01T00:00:00+00:00".to_string());
    assert_eq!(check_clipboard_at(&mut db, &mut state, Some("one".to_string()), None), Ok(None));
    assert_eq!(state.last_hash, None);
    assert!(db.entries().is_empty());
    let e = check_clipboard_at(&mut db, &mut state, Some("one".to_string()), t.clone()).unwrap().unwrap();
    assert_eq!(e.id, 0);
    assert_eq!(e.created_at, "2026-01-01T00:00:00+00:00");
    assert_eq!(db.entries().len(), 1);
    assert_eq!(db.entries()[0].id, 1);
    assert_eq!(state.last_hash, Some(blake3_hex("one")));
    assert_eq!(check_clipboard_at(&mut db, &mut state, Some("one".to_string()), t.clone()), Ok(None));
    let mut full = Database::from_rows(&vec![], i64::MAX).unwrap();
    let mut st = ClipboardState::new();
    assert_eq!(
        check_clipboard_at(&mut full, &mut st, Some("two".to_string()), t),
        Err("database or disk is full".to_string())
    );
    assert_eq!(st.last_hash, Some(blake3_hex("two")));
}
