use goose::text::{count_occurrences, replace_str, starts_with, str_eq, to_decimal, trim_start};

#[test]
fn counting_is_non_overlapping() {
    assert_eq!(count_occurrences("aaaa", "aa"), 2);
    assert_eq!(count_occurrences("abcabc", "bc"), 2);
    assert_eq!(count_occurrences("", "a"), 0);
}

#[test]
fn replacing_every_occurrence() {
    assert_eq!(replace_str("a-b-c", "-", "+"), "a+b+c");
    assert_eq!(replace_str("héllo", "é", "e"), "hello");
    assert_eq!(replace_str("aaa", "aa", "b"), "ba");
}

#[test]
fn small_helpers() {
    assert!(starts_with("cat x", "cat"));
    assert!(!starts_with("ca", "cat"));
    assert!(str_eq("x", "x"));
    assert!(!str_eq("x", "y"));
    assert_eq!(to_decimal(0), "0");
    assert_eq!(to_decimal(1048576), "1048576");
    assert_eq!(trim_start(" \t\u{3000}x y"), "x y");
}
