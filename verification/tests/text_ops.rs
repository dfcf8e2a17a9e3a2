use clicker_core::text::{
    chars_of, is_white_space_char, parse_i32_str, replace_str, split_str, str_eq,
    string_from_chars, to_lowercase, trim_str, utf8_len_at_most,
};

#[test]
fn white_space_matches_std() {
    for u in 0u32..0x11_0000 {
        if let Some(c) = char::from_u32(u) {
            assert_eq!(is_white_space_char(c), c.is_whitespace(), "U+{u:04X}");
        }
    }
}

#[test]
fn trim_matches_std() {
    for s in ["", "  ", " a ", "\u{3000}x\t", "\u{85}ab c\u{2029}", "x"] {
        assert_eq!(trim_str(s), s.trim());
    }
}

#[test]
fn lowercase_matches_std() {
    for s in ["ABC", "MiXeD 12+", "ÀB", "ΣΑΣ", "İ", "\u{212A}ey"] {
        assert_eq!(to_lowercase(s), s.to_lowercase());
    }
    assert_eq!(to_lowercase("ÀB"), "àb");
}

#[test]
fn replace_matches_std() {
    for (s, from, to) in [("aaa", "aa", "b"), ("windows win", "win", "super"), ("", "x", "y"), ("abc", "abcd", "z")] {
        assert_eq!(replace_str(s, from, to), s.replace(from, to));
    }
}

#[test]
fn split_matches_std() {
    for s in ["a++b", "", "+", "ctrl+a", "a+"] {
        let ours: Vec<&str> = split_str(s, '+');
        let std: Vec<&str> = s.split('+').collect();
        assert_eq!(ours, std);
    }
}

#[test]
fn parse_i32_matches_std() {
    for s in ["5", "+5", "-3", "", "+", "-", "12a", "2147483647", "2147483648", "-2147483648", "-2147483649", "007", "+-1", "99999999999999"] {
        assert_eq!(parse_i32_str(s), s.parse::<i32>().ok(), "{s:?}");
    }
}

#[test]
fn utf8_length_limit() {
    assert!(utf8_len_at_most("abc", 3));
    assert!(!utf8_len_at_most("abcd", 3));
    assert!(!utf8_len_at_most("é", 1));
    assert!(utf8_len_at_most("é", 2));
    assert!(utf8_len_at_most("", 0));
}

#[test]
fn chars_and_strings() {
    assert_eq!(chars_of("héllo"), vec!['h', 'é', 'l', 'l', 'o']);
    assert_eq!(string_from_chars(&['a', 'ß']), "aß");
    assert!(str_eq("abc", "abc"));
    assert!(!str_eq("abc", "abd"));
    assert!(!str_eq("ab", "abc"));
}
