use asset_price_notifier::text::{
    chars_of, copy_strings, join_strings, parse_unsigned, split_char, string_of_range,
    strip_trailing_char, trim,
};

#[test]
fn trim_removes_unicode_whitespace_at_both_ends() {
    assert_eq!(trim("  a b \t\n"), "a b");
    assert_eq!(trim("\u{2003}x\u{3000}"), "x");
    assert_eq!(trim("   "), "");
    assert_eq!(trim(""), "");
}

#[test]
fn split_yields_every_piece() {
    assert_eq!(split_char(",a,,b,", ','), vec!["", "a", "", "b", ""]);
    assert_eq!(split_char("", ','), vec![""]);
    assert_eq!(split_char("abc", ','), vec!["abc"]);
}

#[test]
fn strip_trailing_removes_every_trailing_copy() {
    assert_eq!(strip_trailing_char("1.5%%", '%'), "1.5");
    assert_eq!(strip_trailing_char("%1%5", '%'), "%1%5");
    assert_eq!(strip_trailing_char("%%", '%'), "");
}

#[test]
fn join_puts_separator_between() {
    let v = vec!["a".to_string(), "b".to_string(), "c".to_string()];
    assert_eq!(join_strings(&v, ","), "a,b,c");
    assert_eq!(join_strings(&Vec::new(), ","), "");
    assert_eq!(join_strings(&vec!["x".to_string()], ","), "x");
}

#[test]
fn unsigned_parsing_follows_from_str() {
    assert_eq!(parse_unsigned("0", 10), Some(0));
    assert_eq!(parse_unsigned("+7", 10), Some(7));
    assert_eq!(parse_unsigned("10", 10), Some(10));
    assert_eq!(parse_unsigned("11", 10), None);
    assert_eq!(parse_unsigned("+", 10), None);
    assert_eq!(parse_unsigned("", 10), None);
    assert_eq!(parse_unsigned("1a", 10), None);
    assert_eq!(parse_unsigned("18446744073709551615", u64::MAX), Some(u64::MAX));
    assert_eq!(parse_unsigned("18446744073709551616", u64::MAX), None);
    assert_eq!(parse_unsigned("99999999999999999999999x", u64::MAX), None);
    for n in [0u64, 1, 9, 42, 65535, 1_000_000] {
        assert_eq!(parse_unsigned(&n.to_string(), u64::MAX), Some(n));
    }
}

#[test]
fn characters_and_ranges() {
    let v = chars_of("héllo");
    assert_eq!(v, vec!['h', 'é', 'l', 'l', 'o']);
    assert_eq!(string_of_range(&v, 1, 4), "éll");
    let names = vec!["a".to_string(), "b".to_string()];
    assert_eq!(copy_strings(&names), names);
}

