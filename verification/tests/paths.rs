use azdls::address::parent_path;
use azdls::text::decimal_text;
use azdls::text::join_texts;
use azdls::text::non_empty;
use azdls::text::same_text;
use azdls::text::split_once_text;
use azdls::text::split_text;
use azdls::text::trim_end_text;

#[test]
fn parents() {
    assert_eq!(parent_path("a/b/c"), Some("a/b".to_string()));
    assert_eq!(parent_path("a/b/c/"), Some("a/b".to_string()));
    assert_eq!(parent_path("//a///b//"), Some("a".to_string()));
    assert_eq!(parent_path("a"), None);
    assert_eq!(parent_path("a/"), None);
    assert_eq!(parent_path("/"), None);
    assert_eq!(parent_path(""), None);
}

#[test]
fn decimals() {
    assert_eq!(decimal_text(0), "0");
    assert_eq!(decimal_text(9), "9");
    assert_eq!(decimal_text(10), "10");
    assert_eq!(decimal_text(1234567890), "1234567890");
    assert_eq!(decimal_text(u64::MAX), u64::MAX.to_string());
}

#[test]
fn splitting_and_joining() {
    assert_eq!(split_text("", ','), vec![""]);
    assert_eq!(split_text("a,,b", ','), vec!["a", "", "b"]);
    assert_eq!(split_text(",é,", ','), vec!["", "é", ""]);
    let parts = vec!["a".to_string(), "".to_string(), "b".to_string()];
    assert_eq!(join_texts(&parts, ", "), "a, , b");
    assert_eq!(join_texts(&vec![], "/"), "");
    assert_eq!(non_empty(parts), vec!["a", "b"]);
    assert_eq!(
        split_once_text("k=v=w", '='),
        Some(("k".to_string(), "v=w".to_string()))
    );
    assert_eq!(split_once_text("k", '='), None);
}

#[test]
fn trimming_and_comparing() {
    assert_eq!(trim_end_text("a/b//", '/'), "a/b");
    assert_eq!(trim_end_text("///", '/'), "");
    assert!(same_text("é", "é"));
    assert!(!same_text("a", "A"));
}
