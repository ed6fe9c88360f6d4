use hyprland_minimizer::number::{i32_to_string, parse_i32, u32_to_string};
use hyprland_minimizer::order::text_le;
use hyprland_minimizer::text::{
    chars_of, ends_with, is_blank, is_letter_or_digit, is_white_space, lines_of, same, starts_with,
    text_after_last, text_of,
};

#[test]
fn white_space_is_that_of_unicode() {
    for n in 0..=0x10ffffu32 {
        if let Some(c) = char::from_u32(n) {
            assert_eq!(is_white_space(c), c.is_whitespace());
        }
    }
}

#[test]
fn letters_and_digits_are_those_of_unicode() {
    for n in 0..=0x10ffffu32 {
        if let Some(c) = char::from_u32(n) {
            assert_eq!(is_letter_or_digit(c), c.is_alphanumeric());
            if c.is_ascii() {
                assert_eq!(is_letter_or_digit(c), c.is_ascii_alphanumeric());
            }
        }
    }
}

#[test]
fn blank_text() {
    assert!(is_blank(""));
    assert!(is_blank(" \t\u{a0}\u{3000}\n"));
    assert!(!is_blank("  x "));
}

#[test]
fn lines_of_a_text() {
    let cases = [
        "",
        "\n",
        "a",
        "a\n",
        "a\nb",
        "a\r\nb\r\n",
        "a\r\r\nb",
        "\r\n\r\n",
        "a\n\nb",
        "last\r",
        "one\rtwo\nthree",
        "gr\u{fc}n\n\u{1f600}",
    ];
    for case in cases {
        let expected: Vec<String> = case.lines().map(|l| l.to_string()).collect();
        assert_eq!(lines_of(case), expected);
    }
    assert_eq!(lines_of("a\r\nb"), vec!["a".to_string(), "b".to_string()]);
    for line in lines_of("x\ny\n\nz") {
        assert!(!line.contains('\n'));
    }
}

#[test]
fn comparing_texts() {
    assert!(same("", ""));
    assert!(same("\u{e9}a", "\u{e9}a"));
    assert!(!same("a", "ab"));
    assert!(!same("ab", "a"));
    assert!(!same("ab", "ac"));
    assert!(starts_with("python3", "python"));
    assert!(starts_with("x", ""));
    assert!(!starts_with("pyt", "python"));
    assert!(!starts_with("qython3", "python"));
    assert!(ends_with("com.example.App", ".App"));
    assert!(ends_with("x", ""));
    assert!(!ends_with("App", ".App"));
    assert!(!ends_with("com.example.Apq", ".App"));
}

#[test]
fn cutting_texts() {
    let chars = chars_of("h\u{e9}llo");
    assert_eq!(chars, vec!['h', '\u{e9}', 'l', 'l', 'o']);
    assert_eq!(text_of(&chars, 1, 3), "\u{e9}l");
    assert_eq!(text_of(&chars, 5, 5), "");
    assert_eq!(text_after_last("/usr/bin/python3", '/'), "python3");
    assert_eq!(text_after_last("python3", '/'), "python3");
    assert_eq!(text_after_last("dir/", '/'), "");
    assert_eq!(text_after_last("", '/'), "");
}

#[test]
fn lexicographic_order() {
    let words = ["", "a", "aa", "ab", "b", "B", "\u{e9}", "z", "\u{ffff}", "\u{1f600}", "a\u{1}"];
    for x in words {
        for y in words {
            assert_eq!(text_le(x, y), x <= y);
        }
    }
}

#[test]
fn decimal_text() {
    for n in [0, 1, 9, 10, 11, 99, 100, 12345, -1, -9, -10, i32::MAX, i32::MIN] {
        assert_eq!(i32_to_string(n), n.to_string());
        assert_eq!(parse_i32(&i32_to_string(n)), Some(n));
    }
    for n in [0, 7, 10, 4096, u32::MAX] {
        assert_eq!(u32_to_string(n), n.to_string());
    }
}

#[test]
fn reading_numbers() {
    let cases = [
        "", "+", "-", "0", "-0", "+7", "007", "12a", "a12", " 1", "1 ", "+-1", "--1", "2147483647",
        "2147483648", "-2147483648", "-2147483649", "99999999999999999999", "-99999999999999999999",
        "\u{664}", "1_000",
    ];
    for case in cases {
        assert_eq!(parse_i32(case), case.parse::<i32>().ok());
    }
    assert_eq!(parse_i32("-12"), Some(-12));
    assert_eq!(parse_i32("twelve"), None);
}
