use whatsapp_lite::text::{
    ascii_alphanumeric, ascii_digit, chars_of, control, ends_with, eq_ignore_ascii_case, parse_u32,
    replace_all, starts_with, str_eq, strip_prefix, substring, to_ascii_lower,
    to_ascii_lowercase, to_decimal, trim, whitespace,
};

#[test]
fn character_classes_agree_with_unicode() {
    for c in (0..=0x10ffffu32).filter_map(char::from_u32) {
        assert_eq!(whitespace(c), c.is_whitespace());
        assert_eq!(control(c), c.is_control());
        assert_eq!(ascii_digit(c), c.is_ascii_digit());
        assert_eq!(ascii_alphanumeric(c), c.is_ascii_alphanumeric());
        assert_eq!(to_ascii_lower(c), c.to_ascii_lowercase());
    }
}

#[test]
fn trimming_takes_unicode_white_space() {
    for text in ["", "a", " a ", "\u{2003}a b\u{85}", "\n\t", "é "] {
        assert_eq!(trim(text), text.trim());
        assert_eq!(trim(&trim(text)), trim(text));
    }
}

#[test]
fn parts_of_texts() {
    assert!(starts_with("ábc", "á"));
    assert!(!starts_with("á", "áb"));
    assert!(starts_with("x", ""));
    assert!(ends_with("abc", "bc"));
    assert!(!ends_with("c", "bc"));
    assert!(str_eq("é", "é"));
    assert!(!str_eq("é", "e"));
    assert_eq!(strip_prefix("a=b", "a=").as_deref(), Some("b"));
    assert_eq!(strip_prefix("ab", "a="), None);
    let chars = chars_of("añb");
    assert_eq!(substring(&chars, 1, 3), "ñb");
}

#[test]
fn ascii_case_is_ignored_and_no_other() {
    assert!(eq_ignore_ascii_case("Ana Z", "aNA z"));
    assert!(!eq_ignore_ascii_case("É", "é"));
    assert!(!eq_ignore_ascii_case("a", "ab"));
    assert_eq!(to_ascii_lowercase("AÉz@["), "aÉz@[");
}

#[test]
fn replacement_goes_from_left_to_right() {
    for (s, p, w) in [
        ("aaa", "aa", "b"),
        ("abcabc", "bc", ""),
        ("x", "xyz", "q"),
        ("ééé", "é", "éé"),
        ("", "a", "b"),
    ] {
        assert_eq!(replace_all(s, p, w), s.replace(p, w));
    }
}

#[test]
fn decimals_read_back() {
    for n in [0u128, 7, 10, 99, 100, 1234567890, u128::MAX] {
        assert_eq!(to_decimal(n), n.to_string());
    }
    for text in ["0", "17", "+17", "007", "4294967295", "4294967296", "99999999999"] {
        assert_eq!(parse_u32(text), text.parse::<u32>().ok());
    }
    for text in ["", "+", "-0", "++1", "1a", " 1", "١"] {
        assert_eq!(parse_u32(text), None);
        assert!(text.parse::<u32>().is_err());
    }
}
