use ledit::order::{key_less, sort_keys, SortKey};
use ledit::text::{
    is_control_char, parse_i64, parse_number, parse_u64, push_decimal, push_int, str_lt,
};

fn key(group: &str, rank: i64, number: i64, text: &str) -> SortKey {
    SortKey { group: group.to_string(), rank, number, text: text.to_string() }
}

#[test]
fn str_lt_orders_by_code_point() {
    assert!(str_lt("a", "b"));
    assert!(!str_lt("b", "a"));
    assert!(str_lt("Z", "a"));
    assert!(str_lt("abc", "abd"));
    assert!(str_lt("é", "😀"));
}

#[test]
fn str_lt_puts_a_prefix_first() {
    assert!(str_lt("", "a"));
    assert!(str_lt("ab", "abc"));
    assert!(!str_lt("abc", "ab"));
}

#[test]
fn str_lt_is_strict() {
    assert!(!str_lt("", ""));
    assert!(!str_lt("same", "same"));
}

#[test]
fn str_lt_agrees_with_the_standard_order() {
    let words = ["", "a", "A", "ab", "b", "trash", "Trash", "zebra", "ünïcode", "🗓"];
    for a in words.iter() {
        for b in words.iter() {
            assert_eq!(str_lt(a, b), a < b);
        }
    }
}

#[test]
fn push_decimal_writes_digits() {
    let mut out = String::from("n=");
    push_decimal(&mut out, 0);
    assert_eq!(out, "n=0");
    let mut out = String::new();
    push_decimal(&mut out, 7);
    assert_eq!(out, "7");
    let mut out = String::new();
    push_decimal(&mut out, 1203);
    assert_eq!(out, "1203");
    let mut out = String::new();
    push_decimal(&mut out, u128::MAX);
    assert_eq!(out, "340282366920938463463374607431768211455");
}

#[test]
fn push_int_writes_the_sign() {
    let mut out = String::new();
    push_int(&mut out, -42);
    assert_eq!(out, "-42");
    let mut out = String::new();
    push_int(&mut out, 999);
    assert_eq!(out, "999");
    let mut out = String::new();
    push_int(&mut out, i64::MIN);
    assert_eq!(out, "-9223372036854775808");
    let mut out = String::new();
    push_int(&mut out, i64::MAX);
    assert_eq!(out, "9223372036854775807");
}

#[test]
fn parse_i64_reads_digits() {
    assert_eq!(parse_i64("0"), Some(0));
    assert_eq!(parse_i64("7"), Some(7));
    assert_eq!(parse_i64("007"), Some(7));
    assert_eq!(parse_i64("1000"), Some(1000));
    assert_eq!(parse_i64("9223372036854775807"), Some(i64::MAX));
}

#[test]
fn parse_i64_refuses_what_is_no_number() {
    assert_eq!(parse_i64(""), None);
    assert_eq!(parse_i64("12a"), None);
    assert_eq!(parse_i64("-5"), None);
    assert_eq!(parse_i64(" 5"), None);
    assert_eq!(parse_i64("٣"), None);
}

#[test]
fn parse_i64_refuses_what_is_too_large() {
    assert_eq!(parse_i64("9223372036854775808"), None);
    assert_eq!(parse_i64("99999999999999999999999"), None);
    assert_eq!(parse_i64("99999999999999999999999x"), None);
}

#[test]
fn key_less_goes_by_group_descending_first() {
    assert!(key_less(&key("bob", 1, 9, "z"), &key("alice", 0, 0, "a")));
    assert!(!key_less(&key("alice", 0, 0, "a"), &key("bob", 1, 9, "z")));
}

#[test]
fn key_less_goes_by_rank_number_text() {
    assert!(key_less(&key("", 0, 5, "z"), &key("", 1, 1, "a")));
    assert!(key_less(&key("", 1, 1, "z"), &key("", 1, 2, "a")));
    assert!(key_less(&key("", 1, 2, "a"), &key("", 1, 2, "b")));
    assert!(!key_less(&key("", 1, 2, "a"), &key("", 1, 2, "a")));
}

#[test]
fn sort_keys_yields_the_places_in_order() {
    let keys = vec![key("", 1, 7, "trash"), key("", 0, 0, "milk"), key("", 1, 1, "dishes")];
    assert_eq!(sort_keys(&keys), vec![1, 2, 0]);
}

#[test]
fn sort_keys_keeps_ties_in_place() {
    let keys = vec![
        key("", 0, 0, "b"),
        key("", 0, 0, "a"),
        key("", 0, 0, "b"),
        key("", 0, 0, "a"),
        key("", 0, 0, "b"),
    ];
    assert_eq!(sort_keys(&keys), vec![1, 3, 0, 2, 4]);
}

#[test]
fn sort_keys_of_nothing_is_empty() {
    let keys: Vec<SortKey> = Vec::new();
    assert_eq!(sort_keys(&keys), Vec::<usize>::new());
}

#[test]
fn parse_number_keeps_to_its_bound() {
    assert_eq!(parse_number("0", 0), Some(0));
    assert_eq!(parse_number("1", 0), None);
    assert_eq!(parse_number("999", 999), Some(999));
    assert_eq!(parse_number("1000", 999), None);
    assert_eq!(parse_number("18446744073709551615", u64::MAX), Some(u64::MAX));
    assert_eq!(parse_number("18446744073709551616", u64::MAX), None);
    assert_eq!(parse_number("", 9), None);
    assert_eq!(parse_number("1x", 9), None);
}

#[test]
fn parse_u64_takes_a_plus_sign() {
    assert_eq!(parse_u64("10000"), Some(10000));
    assert_eq!(parse_u64("+10000"), Some(10000));
    assert_eq!(parse_u64("18446744073709551615"), Some(u64::MAX));
    assert_eq!(parse_u64("18446744073709551616"), None);
    assert_eq!(parse_u64("+"), None);
    assert_eq!(parse_u64(""), None);
    assert_eq!(parse_u64("-1"), None);
    assert_eq!(parse_u64("++1"), None);
    assert_eq!(parse_u64("1 "), None);
}

#[test]
fn parse_u64_agrees_with_the_standard_reading() {
    for s in ["", "0", "+0", "007", "+", "-0", "1e3", " 1", "18446744073709551615", "99999999999999999999"] {
        assert_eq!(parse_u64(s), s.parse::<u64>().ok());
    }
}

#[test]
fn control_characters_are_told_apart() {
    for c in ['\u{0}', '\t', '\n', '\r', '\u{1f}', '\u{7f}', '\u{80}', '\u{9f}'] {
        assert!(is_control_char(c));
        assert!(c.is_control());
    }
    for c in [' ', 'a', '~', '\u{a0}', '\u{e9}', '\u{1f600}'] {
        assert!(!is_control_char(c));
        assert!(!c.is_control());
    }
}
