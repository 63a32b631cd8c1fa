use clipvault::pattern::like_matches;
use clipvault::text::{chars_less, chars_of, split_chars, string_of, trim_chars};

fn cs(s: &str) -> Vec<char> {
    s.chars().collect()
}

#[test]
fn trimming_removes_unicode_white_space() {
    assert_eq!(trim_chars(&cs(" \t a b \n\u{2003}")), cs("a b"));
    assert_eq!(trim_chars(&cs("   ")), cs(""));
    assert_eq!(trim_chars(&cs("x")), cs("x"));
    assert_eq!(trim_chars(&cs("\u{200b}x")), cs("\u{200b}x"));
}

#[test]
fn splitting_on_plus() {
    let parts = split_chars(&cs("a++b+"), '+');
    assert_eq!(parts, vec![cs("a"), cs(""), cs("b"), cs("")]);
    assert_eq!(split_chars(&cs(""), '+'), vec![cs("")]);
}

#[test]
fn text_order_is_by_code_point() {
    assert!(chars_less(&cs("2026-01-01"), &cs("2026-01-02")));
    assert!(chars_less(&cs("abc"), &cs("abcd")));
    assert!(!chars_less(&cs("abc"), &cs("abc")));
    assert!(chars_less(&cs("Z"), &cs("a")));
    assert!(!chars_less(&cs("é"), &cs("z")));
}

#[test]
fn chars_round_trip() {
    assert_eq!(chars_of("héllo"), cs("héllo"));
    assert_eq!(string_of(&cs("héllo")), "héllo");
}

#[test]
fn like_patterns() {
    assert!(like_matches(&cs("%"), &cs("")));
    assert!(like_matches(&cs(""), &cs("")));
    assert!(!like_matches(&cs(""), &cs("a")));
    assert!(like_matches(&cs("a%c"), &cs("abbbc")));
    assert!(!like_matches(&cs("a%c"), &cs("abbbd")));
    assert!(like_matches(&cs("_b_"), &cs("abc")));
    assert!(!like_matches(&cs("_b_"), &cs("abcd")));
    assert!(like_matches(&cs("%LLO%"), &cs("hello")));
    assert!(!like_matches(&cs("%É%"), &cs("é")));
}

#[test]
fn like_finds_only_the_query() {
    assert!(like_matches(&cs("%abc%"), &cs("xxABCyy")));
    assert!(!like_matches(&cs("%abc%"), &cs("xxAByCyy")));
    assert!(!like_matches(&cs("%abc%"), &cs("ab")));
}
