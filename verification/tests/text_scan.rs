use container_reconciler::text::{parse_u64, split_str, str_contains, str_eq, str_lex_lt};

#[test]
fn substring_search_finds_and_rejects() {
    assert!(str_contains("abcdef", "cde"));
    assert!(str_contains("abcdef", ""));
    assert!(str_contains("abcdef", "abcdef"));
    assert!(!str_contains("abcdef", "abcdefg"));
    assert!(!str_contains("abcdef", "acb"));
    assert!(!str_contains("", "a"));
}

#[test]
fn lexicographic_order_by_code_point() {
    assert!(str_lex_lt("abc", "abd"));
    assert!(str_lex_lt("ab", "abc"));
    assert!(!str_lex_lt("abc", "abc"));
    assert!(!str_lex_lt("b", "abc"));
    assert!(str_lex_lt("", "a"));
}

#[test]
fn string_equality_is_by_characters() {
    assert!(str_eq("same", "same"));
    assert!(!str_eq("same", "samé"));
    assert!(!str_eq("same", "sam"));
    assert!(str_eq("", ""));
}

#[test]
fn decimal_parsing_is_exact() {
    assert_eq!(parse_u64("0"), Some(0));
    assert_eq!(parse_u64("1024"), Some(1024));
    assert_eq!(parse_u64("18446744073709551615"), Some(u64::MAX));
    assert_eq!(parse_u64("18446744073709551616"), None);
    assert_eq!(parse_u64(""), None);
    assert_eq!(parse_u64("12a"), None);
    assert_eq!(parse_u64("-3"), None);
    assert_eq!(parse_u64(" 3"), None);
}

#[test]
fn splitting_keeps_every_segment() {
    assert_eq!(split_str("a|b|c", '|'), vec!["a", "b", "c"]);
    assert_eq!(split_str("|x|", '|'), vec!["", "x", ""]);
    assert_eq!(split_str("", '|'), vec![""]);
    assert_eq!(split_str("plain", '|'), vec!["plain"]);
}
