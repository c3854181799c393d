use mediaflow_proxy::text::{
    after, after_last, decimal_signed_text, decimal_text, join, lines, parse_i64, parse_u32,
    parse_u64, replace, split, to_ascii_lower, trim,
};

#[test]
fn lines_drop_carriage_returns_and_a_last_empty_line() {
    assert_eq!(lines("a\r\nb\n\nc\r"), vec!["a", "b", "", "c\r"]);
    assert_eq!(lines("a\n"), vec!["a"]);
    assert!(lines("").is_empty());
}

#[test]
fn texts_split_join_and_replace() {
    assert_eq!(split("a||b|", '|'), vec!["a", "", "b", ""]);
    assert_eq!(join(&split("a/b", '/'), "--"), "a--b");
    assert_eq!(replace("aaa", "aa", "b"), "ba");
    assert_eq!(trim("\u{a0}\t x \u{3000}"), "x");
    assert_eq!(to_ascii_lower("ÄbC"), "Äbc");
    assert_eq!(after("k=v=w", '='), Some("v=w".to_string()));
    assert_eq!(after_last("a/b/c", '/'), "c");
}

#[test]
fn numbers_are_read_and_written() {
    assert_eq!(parse_u64("18446744073709551615"), Some(u64::MAX));
    assert_eq!(parse_u64("18446744073709551616"), None);
    assert_eq!(parse_u64("+7"), Some(7));
    assert_eq!(parse_u64("-7"), None);
    assert_eq!(parse_u64(""), None);
    assert_eq!(parse_u64("+"), None);
    assert_eq!(parse_u32("4294967296"), None);
    assert_eq!(parse_i64("-9223372036854775808"), Some(i64::MIN));
    assert_eq!(parse_i64("9223372036854775808"), None);
    assert_eq!(decimal_text(u64::MAX), "18446744073709551615");
    assert_eq!(decimal_signed_text(i64::MIN), "-9223372036854775808");
    assert_eq!(decimal_text(0), "0");
}

#[test]
fn written_numbers_read_back() {
    for n in [0u64, 9, 10, 1234567890, u64::MAX] {
        assert_eq!(parse_u64(&decimal_text(n)), Some(n));
    }
}
