use spenv::error::suggestion_message;
use spenv::text::{contains_text, join, split, starts_with_char};

#[test]
fn join_puts_separator_between() {
    let parts = vec!["a".to_string(), "b".to_string(), "c".to_string()];
    assert_eq!(join(&parts, ", "), "a, b, c");
    assert_eq!(join(&parts[..1], ", "), "a");
    assert_eq!(join(&[], ", "), "");
}

#[test]
fn split_keeps_empty_pieces() {
    assert_eq!(split("a:b", ':'), vec!["a", "b"]);
    assert_eq!(split("a::b:", ':'), vec!["a", "", "b", ""]);
    assert_eq!(split("", ':'), vec![""]);
    assert_eq!(split("/x/y.yaml", ':'), vec!["/x/y.yaml"]);
    assert_eq!(split("é:ü", ':'), vec!["é", "ü"]);
}

#[test]
fn starts_with_char_checks_first() {
    assert!(starts_with_char("~/x", '~'));
    assert!(!starts_with_char("x~", '~'));
    assert!(!starts_with_char("", '~'));
}

#[test]
fn contains_text_finds_equal_strings() {
    let list = vec!["a".to_string(), "bc".to_string()];
    assert!(contains_text(&list, "bc"));
    assert!(!contains_text(&list, "b"));
    assert!(!contains_text(&Vec::new(), "a"));
}

#[test]
fn suggestion_lists_similar_names() {
    assert_eq!(
        suggestion_message(&[]),
        "Check that the layer reference is correct"
    );
    assert_eq!(
        suggestion_message(&["base".to_string(), "tools".to_string()]),
        "Did you mean one of: base, tools?"
    );
    assert_eq!(suggestion_message(&["one".to_string()]), "Did you mean one of: one?");
}
