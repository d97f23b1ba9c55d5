use video_audio_processor::text::{
    magnitude, push_decimal, push_escaped, push_fixed, push_four_digits, push_padded,
    push_quoted, push_signed_fixed,
};

fn decimal(n: u64) -> String {
    let mut out = String::new();
    push_decimal(&mut out, n);
    out
}

fn fixed(value: u64, places: u32) -> String {
    let mut out = String::new();
    push_fixed(&mut out, value, places);
    out
}

fn signed(value: i64, places: u32) -> String {
    let mut out = String::new();
    push_signed_fixed(&mut out, value, places);
    out
}

#[test]
fn decimal_numerals() {
    assert_eq!(decimal(0), "0");
    assert_eq!(decimal(7), "7");
    assert_eq!(decimal(10), "10");
    assert_eq!(decimal(1_234_567_890), "1234567890");
    assert_eq!(decimal(u64::MAX), "18446744073709551615");
}

#[test]
fn numerals_are_appended() {
    let mut out = String::from("n=");
    push_decimal(&mut out, 42);
    push_decimal(&mut out, 0);
    assert_eq!(out, "n=420");
}

#[test]
fn padded_numerals() {
    let padded = |n: u64, width: u32| {
        let mut out = String::new();
        push_padded(&mut out, n, width);
        out
    };
    assert_eq!(padded(7, 3), "007");
    assert_eq!(padded(0, 2), "00");
    assert_eq!(padded(12_345, 3), "345");
    assert_eq!(padded(5, 0), "");
}

#[test]
fn four_digit_numerals() {
    let four = |n: u64| {
        let mut out = String::new();
        push_four_digits(&mut out, n);
        out
    };
    assert_eq!(four(0), "0000");
    assert_eq!(four(123), "0123");
    assert_eq!(four(9_999), "9999");
    assert_eq!(four(10_000), "10000");
}

#[test]
fn millionths_with_six_decimals() {
    assert_eq!(fixed(0, 6), "0.000000");
    assert_eq!(fixed(1, 6), "0.000001");
    assert_eq!(fixed(7_500_000, 6), "7.500000");
    assert_eq!(fixed(910_000, 6), "0.910000");
    assert_eq!(fixed(u64::MAX, 6), "18446744073709.551615");
}

#[test]
fn millionths_with_two_decimals_round_half_up() {
    assert_eq!(fixed(0, 2), "0.00");
    assert_eq!(fixed(4_999, 2), "0.00");
    assert_eq!(fixed(5_000, 2), "0.01");
    assert_eq!(fixed(1_234_567, 2), "1.23");
    assert_eq!(fixed(1_235_000, 2), "1.24");
    assert_eq!(fixed(999_999, 2), "1.00");
    assert_eq!(fixed(91_000_000, 2), "91.00");
}

#[test]
fn millionths_with_one_and_no_decimals() {
    assert_eq!(fixed(80_000_000, 1), "80.0");
    assert_eq!(fixed(49_999, 1), "0.0");
    assert_eq!(fixed(50_000, 1), "0.1");
    assert_eq!(fixed(499_999, 0), "0");
    assert_eq!(fixed(500_000, 0), "1");
    assert_eq!(fixed(u64::MAX, 0), "18446744073710");
}

#[test]
fn signed_millionths() {
    assert_eq!(signed(-7_500_000, 6), "-7.500000");
    assert_eq!(signed(7_500_000, 6), "7.500000");
    assert_eq!(signed(-1, 6), "-0.000001");
    assert_eq!(signed(-1, 2), "-0.00");
    assert_eq!(signed(0, 2), "0.00");
    assert_eq!(signed(i64::MIN, 6), "-9223372036854.775808");
    assert_eq!(signed(i64::MAX, 6), "9223372036854.775807");
}

#[test]
fn magnitudes() {
    assert_eq!(magnitude(0), 0);
    assert_eq!(magnitude(-5), 5);
    assert_eq!(magnitude(5), 5);
    assert_eq!(magnitude(i64::MIN), 9_223_372_036_854_775_808);
    assert_eq!(magnitude(i64::MAX), 9_223_372_036_854_775_807);
}

#[test]
fn escaped_text() {
    let escaped = |s: &str| {
        let mut out = String::new();
        push_escaped(&mut out, s);
        out
    };
    assert_eq!(escaped("plain"), "plain");
    assert_eq!(escaped(""), "");
    assert_eq!(escaped("a\"b"), "a\\\"b");
    assert_eq!(escaped("a\\b"), "a\\\\b");
    assert_eq!(escaped("l1\nl2\r\tend"), "l1\\nl2\\r\\tend");
    assert_eq!(escaped("é ✓"), "é ✓");
    assert_eq!(escaped("\u{0}\u{1}\u{8}\u{c}\u{1f}"), "\\u0000\\u0001\\u0008\\u000c\\u001f");
    assert_eq!(escaped(" \u{7f}"), " \u{7f}");
}

#[test]
fn quoted_text() {
    let mut out = String::from("x: ");
    push_quoted(&mut out, "a \"b\"");
    assert_eq!(out, "x: \"a \\\"b\\\"\"");
}
