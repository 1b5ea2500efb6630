use querty::text::{contains_str, decimal_string, is_whitespace, split_whitespace, trim};

#[test]
fn substring_search() {
    assert!(contains_str("hello world", "o w"));
    assert!(contains_str("abc", ""));
    assert!(!contains_str("abc", "abcd"));
    assert!(!contains_str("", "a"));
    assert!(contains_str("aab", "ab"));
}

#[test]
fn trimming_whitespace() {
    assert_eq!(trim("  a b \n\t"), "a b");
    assert_eq!(trim("   "), "");
    assert_eq!(trim("\u{3000}x\u{3000}"), "x");
}

#[test]
fn splitting_on_whitespace() {
    assert_eq!(split_whitespace("  example  rust\nlang "), vec!["example".to_string(), "rust".to_string(), "lang".to_string()]);
    assert!(split_whitespace(" \t ").is_empty());
}

#[test]
fn decimal_formatting() {
    assert_eq!(decimal_string(0), "0");
    assert_eq!(decimal_string(8983), "8983");
    assert_eq!(decimal_string(u64::MAX), u64::MAX.to_string());
}

#[test]
fn whitespace_property_matches_std() {
    let mut count = 0;
    for u in 0u32..=0x10FFFF {
        if let Some(c) = char::from_u32(u) {
            assert_eq!(is_whitespace(c), c.is_whitespace(), "U+{:04X}", u);
            if is_whitespace(c) {
                count += 1;
            }
        }
    }
    assert_eq!(count, 25);
}
