use easy_term::text::{byte_prefix_text, i64_text, parse_i32, split_lines, strip_affixes, trim_text, u64_text};

#[test]
fn lines_split_like_str_lines() {
    assert_eq!(split_lines("a\r\nb\n\nc\r"), vec!["a", "b", "", "c\r"]);
    assert!(split_lines("").is_empty());
    assert_eq!(split_lines("x\n"), vec!["x"]);
}

#[test]
fn trimming_drops_unicode_whitespace() {
    assert_eq!(trim_text("\u{3000} a b \t\n"), "a b");
}

#[test]
fn integers_parse_like_str_parse() {
    assert_eq!(parse_i32("42"), Some(42));
    assert_eq!(parse_i32("-2147483648"), Some(i32::MIN));
    assert_eq!(parse_i32("2147483648"), None);
    assert_eq!(parse_i32("+"), None);
    assert_eq!(parse_i32(""), None);
    assert_eq!(parse_i32("1 2"), None);
}

#[test]
fn integers_print_in_decimal() {
    assert_eq!(u64_text(0), "0");
    assert_eq!(u64_text(18_446_744_073_709_551_615), "18446744073709551615");
    assert_eq!(i64_text(-9_223_372_036_854_775_808), "-9223372036854775808");
    assert_eq!(i64_text(7), "7");
}

#[test]
fn affixes_and_byte_prefixes() {
    assert_eq!(strip_affixes("abc", "a", "c"), Some("b".to_string()));
    assert_eq!(strip_affixes("ac", "ac", "c"), None);
    assert_eq!(byte_prefix_text("héllo", 3), Some("hé".to_string()));
    assert_eq!(byte_prefix_text("héllo", 2), None);
    assert_eq!(byte_prefix_text("ab", 3), None);
}

#[test]
fn json_string_text_writes_what_serde_json_writes() {
    for s in ["plain", "quote \" and \\ backslash", "tab\tnew\nline\r", "\u{1}\u{8}\u{c}\u{1f}\u{7f}", "ñandú ✓", ""] {
        assert_eq!(easy_term::text::json_string_text(s), serde_json::to_string(s).unwrap());
    }
}

#[test]
fn byte_prefix_takes_any_length() {
    assert_eq!(byte_prefix_text("abc", 10_000), None);
    assert_eq!(byte_prefix_text("abc", usize::MAX), None);
    assert_eq!(byte_prefix_text("abc", 3), Some("abc".to_string()));
    assert_eq!(byte_prefix_text("é", 1), None);
}
