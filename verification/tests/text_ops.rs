use llrt_core::text::{chars_le, chars_of, contains, ends_with, same_text, starts_with, strip_prefix, trim_start_matches};

#[test]
fn prefixes_and_suffixes() {
    assert!(starts_with("__cjs:x", "__cjs:"));
    assert!(!starts_with("_", "__"));
    assert!(ends_with("a.test.js", ".test.js"));
    assert!(!ends_with("js", ".js"));
    assert!(starts_with("x", ""));
}

#[test]
fn containment() {
    assert!(contains("crypto.test.js", "pto.t"));
    assert!(contains("abc", ""));
    assert!(!contains("abc", "abcd"));
    assert!(!contains("abc", "ac"));
}

#[test]
fn stripping() {
    assert_eq!(strip_prefix("__cjsm:a", "__cjsm:"), Some("a"));
    assert_eq!(strip_prefix("__cjs", "__cjsm:"), None);
    assert_eq!(trim_start_matches("ababc", "ab"), "c");
    assert_eq!(trim_start_matches("abc", ""), "abc");
}

#[test]
fn equality_and_order() {
    assert!(same_text("é", "é"));
    assert!(!same_text("e", "é"));
    assert!(chars_le(&chars_of("ab"), &chars_of("b")));
    assert!(chars_le(&chars_of("a"), &chars_of("ab")));
    assert!(!chars_le(&chars_of("b"), &chars_of("ab")));
    assert_eq!(chars_of("hé"), vec!['h', 'é']);
}
