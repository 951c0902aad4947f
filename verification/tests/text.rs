use agent_base::text::byte_bounded_prefix;
use agent_base::text::concat3;
use agent_base::text::decimal_string;
use agent_base::text::join_strings;
use agent_base::text::replace_all;
use agent_base::text::truncate_for_context;
use agent_base::tool_guard::is_blank;

#[test]
fn decimal_and_concat() {
    assert_eq!(decimal_string(0), "0");
    assert_eq!(decimal_string(1234567890), "1234567890");
    assert_eq!(concat3("a", "b", "c"), "abc");
}

#[test]
fn join_and_replace() {
    assert_eq!(join_strings(&vec!["a".to_string(), "b".to_string()], ", "), "a, b");
    assert_eq!(join_strings(&vec![], ", "), "");
    assert_eq!(replace_all("x {y} z {y}", "{y}", "Y"), "x Y z Y");
    assert_eq!(replace_all("aaa", "aa", "b"), "ba");
}

#[test]
fn prefixes_respect_character_boundaries() {
    let s = "あいう";
    assert_eq!(byte_bounded_prefix(s, 4), "あい");
    assert_eq!(byte_bounded_prefix(s, 3), "あ");
    assert_eq!(byte_bounded_prefix("abc", 10), "abc");
    assert_eq!(truncate_for_context("short"), "short");
    let long = "é".repeat(81);
    let cut = truncate_for_context(&long);
    assert_eq!(cut.chars().count(), 83);
    assert!(cut.ends_with("..."));
}

#[test]
fn blank_strings() {
    assert!(is_blank(""));
    assert!(is_blank(" \n\t"));
    assert!(!is_blank(" x "));
}
