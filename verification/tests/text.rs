//! Text helpers: white space, trimming, replacing, numerals and escaping.

use paperback::html::{escape, escape_attr, escape_for, Place};
use paperback::text::{
    collapse_whitespace, decimal_text, is_whitespace, normalized_text, replace_all, same_text,
    signed_decimal_text, starts_with, trim_end_matches, trim_matches, trim_string, Trim,
};

#[test]
fn white_space_is_the_unicode_property() {
    for code in 0..=0x10FFFFu32 {
        if let Some(c) = char::from_u32(code) {
            assert_eq!(is_whitespace(c), c.is_whitespace(), "U+{code:04X}");
        }
    }
}

#[test]
fn white_space_is_collapsed_and_trimmed() {
    assert_eq!(collapse_whitespace(" a \n\t b\u{a0}c "), " a b c ");
    assert_eq!(trim_string(" \u{3000}a b\n"), "a b");
    assert_eq!(normalized_text("  alternative\n text ").as_deref(), Some("alternative text"));
    assert_eq!(normalized_text(" \n "), None);
    assert_eq!(normalized_text(""), None);
}

#[test]
fn normalizing_twice_changes_nothing() {
    let once = normalized_text("  x \t y\n").unwrap();
    assert_eq!(normalized_text(&once), Some(once.clone()));
}

#[test]
fn quotes_and_nuls_are_trimmed() {
    assert_eq!(trim_matches("\"'\0a\"b'\0", Trim::Wrapper), "a\"b");
    assert_eq!(trim_matches("\"\"", Trim::Wrapper), "");
    assert_eq!(trim_end_matches("Open as::", Trim::Colon), "Open as");
}

#[test]
fn every_occurrence_is_replaced() {
    assert_eq!(replace_all("Loading {}…", "{}", "a {} b"), "Loading a {} b…");
    assert_eq!(replace_all("aaa", "aa", "b"), "ba");
    assert_eq!(replace_all("abc", "x", "y"), "abc");
    assert_eq!(replace_all("\\a\\b", "\\", "/"), "/a/b");
}

#[test]
fn prefixes_and_equality() {
    assert!(starts_with("password: x", "password"));
    assert!(!starts_with("pass", "password"));
    assert!(starts_with("x", ""));
    assert!(same_text("é", "é"));
    assert!(!same_text("a", "b"));
}

#[test]
fn numerals() {
    for n in [0u64, 7, 10, 99, 100, 18_446_744_073_709_551_615] {
        assert_eq!(decimal_text(n), n.to_string());
    }
    for n in [0i32, -1, 30, i32::MIN, i32::MAX] {
        assert_eq!(signed_decimal_text(n), n.to_string());
    }
}

#[test]
fn markup_is_escaped() {
    assert_eq!(escape("a < b & c > d"), "a &lt; b &amp; c &gt; d");
    assert_eq!(escape_attr("\"a\" & b"), "&quot;a&quot; &amp; b");
    assert_eq!(escape_for("<\"&\">", Place::XmlAttribute).matches('<').count(), 0);
}
