use laterite_ags4::order::{is_before, sorted};
use laterite_ags4::text::{
    decimal_text, has_key, join, parse_unsigned, quote, same, signed_text, space, trim,
};

#[test]
fn whitespace_is_unicode_whitespace() {
    for u in 0..=0x10ffffu32 {
        if let Some(c) = char::from_u32(u) {
            assert_eq!(space(c), c.is_whitespace(), "{u:x}");
        }
    }
}

#[test]
fn trimming_matches_std() {
    for s in ["", " ", "a", " a ", "\u{3000}x y\u{a0}\t\n", "a b", "\r\n", "é ", "\u{200b}a"] {
        assert_eq!(trim(s), s.trim());
    }
}

#[test]
fn numbers_are_written_in_decimal() {
    for n in [0u64, 1, 9, 10, 99, 100, 4_294_967_296, u64::MAX] {
        assert_eq!(decimal_text(n), n.to_string());
    }
    for n in [0i64, -1, 1, i64::MIN, i64::MAX, -10] {
        assert_eq!(signed_text(n), n.to_string());
    }
}

#[test]
fn numbers_are_read_as_std_reads_them() {
    for s in [
        "0", "7", "007", "+5", "+", "", "-1", "-0", "1 ", " 1", "1_000", "1e3", "18446744073709551615",
        "18446744073709551616", "99999999999999999999999999", "٣", "++1",
    ] {
        assert_eq!(parse_unsigned(s), s.parse::<u64>().ok(), "{s:?}");
    }
}

#[test]
fn joining_puts_the_separator_between() {
    let v = |l: &[&str]| l.iter().map(|s| s.to_string()).collect::<Vec<String>>();
    assert_eq!(join(&v(&[]), ", "), "");
    assert_eq!(join(&v(&["a"]), ", "), "a");
    assert_eq!(join(&v(&["a", "", "b"]), ", "), "a, , b");
}

#[test]
fn quotes_are_doubled() {
    assert_eq!(quote("it's"), "it''s");
    assert_eq!(quote("''"), "''''");
    assert_eq!(quote("plain"), "plain");
    assert_eq!(quote(""), "");
}

#[test]
fn key_is_found_in_any_case() {
    for (s, key) in [
        ("KEY", true),
        ("key+required", true),
        ("REQUIRED+Key", true),
        ("KE Y", false),
        ("", false),
        ("MONKEYS", true),
        ("REQUIRED", false),
    ] {
        assert_eq!(has_key(s), key, "{s}");
        assert_eq!(has_key(s), s.to_ascii_uppercase().contains("KEY"));
    }
}

#[test]
fn texts_are_compared_whole() {
    assert!(same("", ""));
    assert!(same("añb", "añb"));
    assert!(!same("ab", "abc"));
    assert!(!same("abc", "ab"));
    assert!(!same("a", "b"));
}

#[test]
fn order_is_the_order_of_std() {
    let words = ["", "A", "AB", "B", "LOCA", "LOCAL", "a", "é", "\u{ffff}", "\u{10000}"];
    for a in words {
        for b in words {
            assert_eq!(is_before(a, b), a < b, "{a:?} {b:?}");
        }
    }
}

#[test]
fn sorting_orders_distinct_texts() {
    let mut words: Vec<String> =
        ["SAMP", "LOCA", "PROJ", "ABBR", "LLPL"].iter().map(|s| s.to_string()).collect();
    let out = sorted(words.clone());
    words.sort_unstable();
    assert_eq!(out, words);
    assert_eq!(sorted(Vec::new()), Vec::<String>::new());
}
