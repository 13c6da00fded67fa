use semantic_index::text::{
    char_is_white_space, chars_of, decimal_string, join, same_text, string_of, text_is_blank,
};

#[test]
fn white_space_is_what_the_standard_library_calls_white_space() {
    for code in 0u32..=0x10FFFF {
        if let Some(c) = char::from_u32(code) {
            assert_eq!(char_is_white_space(c), c.is_whitespace(), "U+{:04X}", code);
        }
    }
}

#[test]
fn blank_texts() {
    assert!(text_is_blank(""));
    assert!(text_is_blank(" "));
    assert!(text_is_blank(" \t\r\n"));
    assert!(text_is_blank("\u{00A0}\u{2003}\u{3000}"));
    assert!(!text_is_blank("a"));
    assert!(!text_is_blank("   a   "));
    assert!(!text_is_blank("\n\n.\n"));
    assert!(!text_is_blank("\u{200B}"));
}

#[test]
fn blank_agrees_with_trim() {
    let samples = ["", " ", "x", " x", "x ", "\t\n", "\u{0085}", "\u{FEFF}", "\u{1680}\u{205F}"];
    for s in samples {
        assert_eq!(text_is_blank(s), s.trim().is_empty(), "{:?}", s);
    }
}

#[test]
fn decimal_numerals() {
    assert_eq!(decimal_string(0), "0");
    assert_eq!(decimal_string(7), "7");
    assert_eq!(decimal_string(10), "10");
    assert_eq!(decimal_string(99), "99");
    assert_eq!(decimal_string(100), "100");
    assert_eq!(decimal_string(12345), "12345");
    assert_eq!(decimal_string(9007199254740993), "9007199254740993");
    assert_eq!(decimal_string(u64::MAX), "18446744073709551615");
}

#[test]
fn decimal_agrees_with_display() {
    let mut n: u64 = 1;
    for _ in 0..200 {
        assert_eq!(decimal_string(n), n.to_string());
        assert_eq!(decimal_string(n - 1), (n - 1).to_string());
        n = n.wrapping_mul(6364136223846793005).wrapping_add(1442695040888963407);
    }
}

#[test]
fn join_puts_the_separator_between_neighbours() {
    let none: Vec<String> = vec![];
    assert_eq!(join(&none, ", "), "");
    assert_eq!(join(&vec!["a".to_string()], ", "), "a");
    assert_eq!(join(&vec!["a".to_string(), "b".to_string()], ", "), "a, b");
    assert_eq!(
        join(&vec!["a".to_string(), "".to_string(), "c".to_string()], "--"),
        "a----c"
    );
    assert_eq!(join(&vec!["a".to_string(), "b".to_string()], ""), "ab");
}

#[test]
fn characters_and_strings() {
    assert_eq!(chars_of(""), Vec::<char>::new());
    assert_eq!(chars_of("añ日"), vec!['a', 'ñ', '日']);
    let chars = chars_of("añ日本x");
    assert_eq!(string_of(&chars, 0, 5), "añ日本x");
    assert_eq!(string_of(&chars, 1, 3), "ñ日");
    assert_eq!(string_of(&chars, 2, 2), "");
}

#[test]
fn same_text_compares_characters() {
    assert!(same_text("", ""));
    assert!(same_text("abc", "abc"));
    assert!(same_text("日本", "日本"));
    assert!(!same_text("abc", "abd"));
    assert!(!same_text("abc", "ab"));
    assert!(!same_text("", "a"));
    assert!(!same_text("abc", "ABC"));
}
