use loki_ariaforge::text::{chars_of, contains_chars, decimal_string, parse_u64_from, push_decimal, str_contains};

fn parse(s: &str) -> Option<u64> {
    let v = chars_of(s);
    parse_u64_from(&v, 0)
}

#[test]
fn decimal_string_renders_without_leading_zeros() {
    assert_eq!(decimal_string(0), "0");
    assert_eq!(decimal_string(7), "7");
    assert_eq!(decimal_string(9051), "9051");
    assert_eq!(decimal_string(u64::MAX), "18446744073709551615");
}

#[test]
fn push_decimal_appends() {
    let mut s = String::from("port ");
    push_decimal(&mut s, 120);
    assert_eq!(s, "port 120");
}

#[test]
fn parse_accepts_what_std_accepts() {
    assert_eq!(parse("5000"), Some(5000));
    assert_eq!(parse("+42"), Some(42));
    assert_eq!(parse("007"), Some(7));
    assert_eq!(parse("18446744073709551615"), Some(u64::MAX));
    for s in ["5000", "+42", "007", "0", "18446744073709551615"] {
        assert_eq!(parse(s), s.parse::<u64>().ok());
    }
}

#[test]
fn parse_rejects_what_std_rejects() {
    for s in ["", "+", "-1", "*", "12a", " 12", "18446744073709551616", "99999999999999999999"] {
        assert_eq!(parse(s), None, "{s}");
        assert!(s.parse::<u64>().is_err());
    }
}

#[test]
fn parse_from_offset() {
    let v = chars_of("abc/123");
    assert_eq!(parse_u64_from(&v, 4), Some(123));
    assert_eq!(parse_u64_from(&v, 7), None);
}

#[test]
fn decimal_roundtrip_law_on_values() {
    for n in [0u64, 1, 9, 10, 99, 100, 65535, 52040670752, u64::MAX] {
        assert_eq!(parse(&decimal_string(n)), Some(n));
    }
}

#[test]
fn decimal_is_injective_on_values() {
    let renders: Vec<String> = (0u64..200).map(decimal_string).collect();
    for i in 0..renders.len() {
        for j in 0..renders.len() {
            assert_eq!(renders[i] == renders[j], i == j);
        }
    }
}

#[test]
fn contains_finds_substrings() {
    assert!(str_contains("http://abcdef.onion/file.7z", ".onion"));
    assert!(str_contains("http://abcdef.onion/file.7z", ".7z"));
    assert!(!str_contains("http://example.com/a.zip", ".onion"));
    assert!(str_contains("anything", ""));
    assert!(!str_contains("", "a"));
    assert!(!str_contains(".oni", ".onion"));
    assert!(str_contains(".onion", ".onion"));
}

#[test]
fn contains_chars_on_unicode() {
    let h = chars_of("ünïcode.onion");
    let n = chars_of(".onion");
    assert!(contains_chars(&h, &n));
    assert_eq!(chars_of("ünï"), vec!['ü', 'n', 'ï']);
}
