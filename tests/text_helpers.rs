use task_manager::text::{blank, join_text, parse_u32, push_decimal, same_ignoring_case, split_text};

#[test]
fn blank_means_only_whitespace() {
    assert!(blank(""));
    assert!(blank(" \t\r\n\u{3000}\u{a0}"));
    assert!(!blank("  x "));
}

#[test]
fn case_is_ignored_for_ascii_letters_only() {
    assert!(same_ignoring_case("HeLLo_1", "hello_1"));
    assert!(!same_ignoring_case("hello", "hell"));
    assert!(!same_ignoring_case("\u{c9}", "\u{e9}"));
}

#[test]
fn parse_u32_like_std() {
    assert_eq!(parse_u32("0"), Some(0));
    assert_eq!(parse_u32("007"), Some(7));
    assert_eq!(parse_u32("+12"), Some(12));
    assert_eq!(parse_u32("4294967295"), Some(u32::MAX));
    assert_eq!(parse_u32("4294967296"), None);
    assert_eq!(parse_u32("99999999999999999999"), None);
    assert_eq!(parse_u32(""), None);
    assert_eq!(parse_u32("+"), None);
    assert_eq!(parse_u32("-1"), None);
    assert_eq!(parse_u32("1 "), None);
    assert_eq!(parse_u32("12a"), None);
}

#[test]
fn decimal_text() {
    let mut s = String::from("n=");
    push_decimal(&mut s, 0);
    assert_eq!(s, "n=0");
    let mut s = String::new();
    push_decimal(&mut s, 1234567890123);
    assert_eq!(s, "1234567890123");
}

#[test]
fn split_and_join() {
    assert_eq!(split_text("a|b||c", '|'), vec!["a", "b", "", "c"]);
    assert_eq!(split_text("", '|'), vec![""]);
    assert_eq!(split_text("|", '|'), vec!["", ""]);
    let parts = vec!["x".to_string(), "".to_string(), "yz".to_string()];
    assert_eq!(join_text(&parts, '|'), "x||yz");
    assert_eq!(join_text(&Vec::new(), '|'), "");
}
