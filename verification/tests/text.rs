use benchrs::options::count;
use benchrs::text::{decimal_text, same_text, starts_with, Text};

#[test]
fn prefixes() {
    assert!(starts_with("abc", ""));
    assert!(starts_with("abc", "ab"));
    assert!(starts_with("abc", "abc"));
    assert!(!starts_with("abc", "abcd"));
    assert!(!starts_with("abc", "b"));
    assert!(!starts_with("abc", "A"));
    assert!(starts_with("\u{00E9}t\u{00E9}", "\u{00E9}t"));
    assert!(!starts_with("", "a"));
}

#[test]
fn equal_texts() {
    assert!(same_text("", ""));
    assert!(same_text("close", "close"));
    assert!(!same_text("close", "Close"));
    assert!(!same_text("close", "closed"));
    assert!(!same_text("closed", "close"));
}

#[test]
fn decimal_reads_back() {
    for (n, text) in [(0, "0"), (9, "9"), (10, "10"), (8080, "8080"), (100000, "100000")] {
        assert_eq!(decimal_text(n), text);
        assert_eq!(count(Some(&decimal_text(n))), Some(n));
    }
    assert_eq!(decimal_text(usize::MAX), "18446744073709551615");
    assert_eq!(count(Some(&decimal_text(usize::MAX))), Some(usize::MAX));
}

#[test]
fn texts_of_both_kinds() {
    assert_eq!("a".to_string().as_text(), "a");
    assert_eq!("b".as_text(), "b");
}
