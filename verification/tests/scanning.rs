use video_audio_processor::scanning::{
    chars_of, digit_value, expect, hex_value, is_char_at, read_fixed, read_quoted, unescape_code,
};

fn input(s: &str) -> Vec<char> {
    s.chars().collect()
}

#[test]
fn characters_of_a_text() {
    assert_eq!(chars_of("aé✓"), vec!['a', 'é', '✓']);
    assert!(chars_of("").is_empty());
}

#[test]
fn literal_at_a_position() {
    let text = input("hello world");
    assert_eq!(expect(&text, 0, "hello"), Some(5));
    assert_eq!(expect(&text, 6, "world"), Some(11));
    assert_eq!(expect(&text, 6, "worlds"), None);
    assert_eq!(expect(&text, 1, "hello"), None);
    assert_eq!(expect(&text, 11, ""), Some(11));
    assert_eq!(expect(&text, 12, ""), None);
    assert_eq!(expect(&text, usize::MAX, "x"), None);
}

#[test]
fn character_at_a_position() {
    let text = input("a-b");
    assert!(is_char_at(&text, 1, '-'));
    assert!(!is_char_at(&text, 0, '-'));
    assert!(!is_char_at(&text, 3, '-'));
}

#[test]
fn digit_values() {
    assert_eq!(digit_value('0'), Some(0));
    assert_eq!(digit_value('9'), Some(9));
    assert_eq!(digit_value('a'), None);
    assert_eq!(digit_value('٣'), None);
}

#[test]
fn numbers_with_six_decimals() {
    assert_eq!(read_fixed(&input("7.500000,"), 0), Some((7_500_000, 8)));
    assert_eq!(read_fixed(&input("x-0.000001"), 1), Some((-1, 10)));
    assert_eq!(read_fixed(&input("12.3456789"), 0), Some((12_345_678, 9)));
    assert_eq!(read_fixed(&input("7.50000"), 0), None);
    assert_eq!(read_fixed(&input("7"), 0), None);
    assert_eq!(read_fixed(&input("-.500000"), 0), None);
    assert_eq!(read_fixed(&input("-"), 0), None);
    assert_eq!(read_fixed(&input(""), 0), None);
    assert_eq!(read_fixed(&input("1.000000"), 9), None);
    assert_eq!(
        read_fixed(&input("99999999999999999999.999999"), 0),
        Some((99_999_999_999_999_999_999_999_999, 27))
    );
    assert_eq!(read_fixed(&input("100000000000000000000.000000"), 0), None);
}

#[test]
fn quoted_texts() {
    assert_eq!(read_quoted(&input("\"abc\" rest"), 0), Some(("abc".to_string(), 5)));
    assert_eq!(read_quoted(&input("\"\""), 0), Some((String::new(), 2)));
    assert_eq!(
        read_quoted(&input("k: \"a\\\"b\\\\c\\nd\""), 3),
        Some(("a\"b\\c\nd".to_string(), 15))
    );
    assert_eq!(
        read_quoted(&input("\"\\u0001\\u001F\\u0041\\u00e9\""), 0),
        Some(("\u{1}\u{1f}A\u{e9}".to_string(), 26))
    );
    assert_eq!(read_quoted(&input("\"\\u0100\""), 0), None);
    assert_eq!(read_quoted(&input("\"\\u00g0\""), 0), None);
    assert_eq!(read_quoted(&input("\"\\u00"), 0), None);
    assert_eq!(read_quoted(&input("\"open"), 0), None);
    assert_eq!(read_quoted(&input("\"bad\\x\""), 0), None);
    assert_eq!(read_quoted(&input("abc"), 0), None);
    assert_eq!(read_quoted(&input("\""), 1), None);
}

#[test]
fn hexadecimal_digits() {
    assert_eq!(hex_value('0'), Some(0));
    assert_eq!(hex_value('9'), Some(9));
    assert_eq!(hex_value('a'), Some(10));
    assert_eq!(hex_value('F'), Some(15));
    assert_eq!(hex_value('g'), None);
}

#[test]
fn escape_codes() {
    assert_eq!(unescape_code('n'), Some('\n'));
    assert_eq!(unescape_code('r'), Some('\r'));
    assert_eq!(unescape_code('t'), Some('\t'));
    assert_eq!(unescape_code('"'), Some('"'));
    assert_eq!(unescape_code('\\'), Some('\\'));
    assert_eq!(unescape_code('u'), None);
}
