use pelagos::text::{
    blank, join_strings, lines_of, parse_u16_of, push_decimal, push_signed_decimal,
    replace_char_with, splitn3_at, split_once_at, starts_with,
};

#[test]
fn lines_like_str_lines() {
    for s in ["", "a", "a\n", "a\nb", "a\r\nb\r\n", "\n\n", "x\r", "a\rb\n"] {
        let expected: Vec<String> = s.lines().map(|l| l.to_string()).collect();
        assert_eq!(lines_of(s), expected, "input {s:?}");
    }
}

#[test]
fn blank_like_trim_is_empty() {
    for s in ["", " ", "\t\n\r", "\u{a0}\u{3000}", " x ", "x"] {
        assert_eq!(blank(s), s.trim().is_empty(), "input {s:?}");
    }
}

#[test]
fn parse_u16_like_std() {
    for s in ["0", "65535", "65536", "+7", "+", "", "-1", "12a", "007", "99999999999"] {
        assert_eq!(parse_u16_of(s), s.parse::<u16>().ok(), "input {s:?}");
    }
}

#[test]
fn decimals() {
    let mut s = String::new();
    push_decimal(&mut s, 0);
    push_decimal(&mut s, 1234567890);
    assert_eq!(s, "01234567890");
    let mut t = String::new();
    push_signed_decimal(&mut t, i64::MIN);
    assert_eq!(t, i64::MIN.to_string());
}

#[test]
fn splitting_and_joining() {
    assert_eq!(splitn3_at("a:b:c:d", ':'), vec!["a", "b", "c:d"]);
    assert_eq!(splitn3_at("a", ':'), vec!["a"]);
    assert_eq!(splitn3_at("a:", ':'), vec!["a", ""]);
    assert_eq!(split_once_at("k=v=w", '='), Some(("k".to_string(), "v=w".to_string())));
    assert_eq!(split_once_at("kv", '='), None);
    assert_eq!(join_strings(&vec!["a".into(), "b".into()], ", "), "a, b");
    assert_eq!(join_strings(&vec![], ", "), "");
    assert_eq!(replace_char_with("a'b'", '\'', "''"), "a''b''");
    assert!(starts_with("sha256:abc", "sha256:"));
    assert!(!starts_with("sha", "sha256:"));
}
