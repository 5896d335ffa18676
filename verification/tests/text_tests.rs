use logview::text::{
    char_is_white_space, chars_of, contains_str, lines_str, push_decimal, push_padded, string_of,
    trim_newlines, trim_white_space,
};

#[test]
fn white_space_class() {
    assert!(char_is_white_space(' '));
    assert!(char_is_white_space('\t'));
    assert!(char_is_white_space('\n'));
    assert!(char_is_white_space('\u{a0}'));
    assert!(char_is_white_space('\u{3000}'));
    assert!(!char_is_white_space('a'));
    assert!(!char_is_white_space('\u{200b}'));
    for c in ['x', ' ', '\r', '\u{85}', '\u{2028}', '_', '\u{1680}'] {
        assert_eq!(char_is_white_space(c), c.is_whitespace());
    }
}

#[test]
fn chars_and_strings() {
    assert_eq!(chars_of("héllo"), vec!['h', 'é', 'l', 'l', 'o']);
    assert_eq!(string_of("abc"), "abc".to_string());
    assert_eq!(string_of(""), String::new());
}

#[test]
fn trimming() {
    assert_eq!(trim_white_space("  \t hello world \r\n"), "hello world");
    assert_eq!(trim_white_space("   "), "");
    assert_eq!(trim_white_space(""), "");
    assert_eq!(trim_newlines("\n\nabc\n def\n"), "abc\n def");
    assert_eq!(trim_newlines(" a \n"), " a ");
    assert_eq!(trim_newlines("\n\n"), "");
}

#[test]
fn substring_search() {
    assert!(contains_str("l_sysinfo", "sysinfo"));
    assert!(contains_str("abc", ""));
    assert!(contains_str("", ""));
    assert!(!contains_str("", "a"));
    assert!(!contains_str("abc", "abcd"));
    assert!(contains_str("aaab", "aab"));
    assert!(!contains_str("abc", "cb"));
}

#[test]
fn lines_like_str_lines() {
    for s in ["", "a", "a\n", "a\nb", "a\r\nb\r\n", "\n", "\n\n", "a\rb", "x\n\ny", "end\r"] {
        let expected: Vec<&str> = s.lines().collect();
        assert_eq!(lines_str(s), expected, "input {s:?}");
    }
}

#[test]
fn decimal_and_padding() {
    let mut s = String::new();
    push_decimal(&mut s, 0);
    assert_eq!(s, "0");
    let mut s = String::from("n=");
    push_decimal(&mut s, 1234567890);
    assert_eq!(s, "n=1234567890");
    let mut s = String::new();
    push_decimal(&mut s, u64::MAX);
    assert_eq!(s, u64::MAX.to_string());
    let mut p = String::new();
    push_padded(&mut p, "INFO", 5);
    assert_eq!(p, "INFO ");
    let mut p = String::new();
    push_padded(&mut p, "WARNING", 5);
    assert_eq!(p, "WARNING");
    let mut p = String::new();
    push_padded(&mut p, "", 3);
    assert_eq!(p, "   ");
}
