use clipvault::instance::{decimal_chars, is_first_instance, lock_holder, parse_u32, tasklist_shows};

fn cs(s: &str) -> Vec<char> {
    s.chars().collect()
}

#[test]
fn lock_text_is_read_as_a_pid() {
    assert_eq!(lock_holder(Some("1234".to_string())), Some(1234));
    assert_eq!(lock_holder(Some(" 42\n".to_string())), Some(42));
    assert_eq!(lock_holder(Some("+7".to_string())), Some(7));
    assert_eq!(lock_holder(Some("007".to_string())), Some(7));
    assert_eq!(lock_holder(Some("4294967295".to_string())), Some(u32::MAX));
    assert_eq!(lock_holder(Some("4294967296".to_string())), None);
    assert_eq!(lock_holder(Some("-1".to_string())), None);
    assert_eq!(lock_holder(Some("+".to_string())), None);
    assert_eq!(lock_holder(Some("".to_string())), None);
    assert_eq!(lock_holder(Some("12a".to_string())), None);
    assert_eq!(lock_holder(None), None);
}

#[test]
fn parsing_agrees_with_std() {
    for s in ["0", "1", "+99", "99999999999", "1 2", "٣", "18446744073709551616", "00000000004294967295"] {
        assert_eq!(parse_u32(&cs(s)), s.parse::<u32>().ok(), "{}", s);
    }
}

#[test]
fn decimal_digits() {
    assert_eq!(decimal_chars(0), cs("0"));
    assert_eq!(decimal_chars(4321), cs("4321"));
    assert_eq!(decimal_chars(u32::MAX), cs("4294967295"));
}

#[test]
fn tasklist_output_shows_the_pid() {
    let out = "Image Name   PID\n============ ====\nClipVault.exe 5120 Console";
    assert!(tasklist_shows(out, 5120));
    assert!(tasklist_shows(out, 512));
    assert!(!tasklist_shows(out, 6120));
    assert!(!tasklist_shows("INFO: No tasks are running", 5120));
    assert!(!tasklist_shows("", 0));
}

#[test]
fn first_instance_decision() {
    assert!(is_first_instance(None, false));
    assert!(is_first_instance(Some(10), false));
    assert!(!is_first_instance(Some(10), true));
}
