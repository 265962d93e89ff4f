use phantun_client_mac::text::{
    append_integer, append_numeral, chars_of, contains_text, find_field, split_first_line,
    text_of, trim, white_space,
};

#[test]
fn white_space_is_that_of_unicode() {
    for code in 0..=0x10_ffff_u32 {
        if let Some(c) = char::from_u32(code) {
            assert_eq!(white_space(c), c.is_whitespace(), "{code:x}");
        }
    }
}

#[test]
fn trimming_takes_white_space_from_both_ends() {
    for text in ["", " ", "\u{3000}a b\t\n", "x", "\u{85}\u{a0}y\u{2029}"] {
        let chars = chars_of(text);
        assert_eq!(text_of(trim(&chars)), text.trim());
    }
}

#[test]
fn lines_end_at_line_feeds() {
    for text in ["", "\n", "a", "a\n", "a\r\nb", "a\r", "\r\n\n", "a\n\nb\r\r\n", "a\rb\n"] {
        let chars = chars_of(text);
        let mut rest = chars.as_slice();
        let mut found = Vec::new();
        while !rest.is_empty() {
            let (line, behind) = split_first_line(rest);
            found.push(text_of(line));
            rest = behind;
        }
        assert_eq!(found, text.lines().collect::<Vec<_>>());
    }
}

#[test]
fn fields_are_found_by_their_trimmed_name() {
    assert_eq!(find_field("a: 1\n b : 2 \nb:3", "b"), Some("2".to_owned()));
    assert_eq!(find_field("a: x:y", "a"), Some("x:y".to_owned()));
    assert_eq!(find_field("a 1\nba: 2", "a"), None);
    assert_eq!(find_field("", "a"), None);
    assert_eq!(find_field("a:", "a"), Some(String::new()));
}

#[test]
fn parts_of_a_text_are_found() {
    let contains = |text: &str, needle: &str| contains_text(&chars_of(text), &chars_of(needle));
    assert!(contains("abcabd", "abd"));
    assert!(contains("abc", ""));
    assert!(!contains("abc", "abcd"));
    assert!(!contains("", "a"));
}

#[test]
fn numbers_are_written_as_usual() {
    for value in [0_u128, 9, 10, 4711, u128::MAX] {
        let mut decimal = String::new();
        append_numeral(&mut decimal, value, 10);
        assert_eq!(decimal, value.to_string());
        let mut hexadecimal = String::new();
        append_numeral(&mut hexadecimal, value, 16);
        assert_eq!(hexadecimal, format!("{value:x}"));
    }
    for value in [0_i64, -1, i64::from(i32::MIN), i64::MIN, i64::MAX] {
        let mut text = "n = ".to_owned();
        append_integer(&mut text, value);
        assert_eq!(text, format!("n = {value}"));
    }
}
