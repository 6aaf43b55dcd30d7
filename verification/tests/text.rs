use an758x_stock2ubi::number::{
    parse_number, parse_unsigned, push_decimal, push_hexadecimal, push_padded_hexadecimal, to_digits,
};
use an758x_stock2ubi::text::{
    find, is_whitespace, push_chars, same_text, skip_whitespace, split_field, split_line,
    strip_prefix, to_chars, to_text, trim, trim_matches,
};

fn chars(text: &str) -> Vec<char> {
    text.chars().collect()
}

fn text(chars: &[char]) -> String {
    chars.iter().collect()
}

#[test]
fn white_space_is_that_of_unicode() {
    for code in 0..=0x10ffffu32 {
        if let Some(ch) = char::from_u32(code) {
            assert_eq!(is_whitespace(ch), ch.is_whitespace(), "{code:x}");
        }
    }
}

#[test]
fn texts_and_characters_agree() {
    let sample = "mtd0: \u{2014} \u{1f600}";
    assert_eq!(to_chars(sample), chars(sample));
    assert_eq!(to_text(&chars(sample)), sample);
    let mut pushed = String::from("a");
    push_chars(&mut pushed, &chars(sample));
    assert_eq!(pushed, format!("a{sample}"));
    assert!(same_text(sample, sample));
    assert!(!same_text("ab", "abc"));
    assert!(!same_text("abd", "abc"));
}

#[test]
fn trims_like_the_standard_library() {
    for sample in ["", "  ", " a ", "a b", "\t\n5.4.55\r\n", "\u{a0}x\u{3000}"] {
        assert_eq!(text(trim(&chars(sample))), sample.trim());
        assert_eq!(text(skip_whitespace(&chars(sample))), sample.trim_start());
    }
    for sample in ["", "\"", "\"\"a\"", "a\"b", "\"a b\""] {
        assert_eq!(text(trim_matches(&chars(sample), '"')), sample.trim_matches('"'));
    }
}

#[test]
fn splits_like_the_standard_library() {
    for sample in ["", "a", "a\n", "a\nb", "a\r\nb\r\n", "\n\na", "a\r", "\r\n\r"] {
        let all = chars(sample);
        let mut left: &[char] = &all;
        let mut lines = Vec::new();
        while !left.is_empty() {
            let (line, rest) = split_line(left);
            lines.push(text(line));
            left = rest;
        }
        let expected: Vec<&str> = sample.lines().collect();
        assert_eq!(lines, expected);
    }
    for sample in ["", "  ", "a", " a  b ", "00ee0000 00020000 \"a b\"", "\ta\u{3000}b"] {
        let all = chars(sample);
        let mut left: &[char] = &all;
        let mut fields = Vec::new();
        while let Some((field, rest)) = split_field(left) {
            fields.push(text(field));
            left = rest;
        }
        let expected: Vec<&str> = sample.split_whitespace().collect();
        assert_eq!(fields, expected);
    }
    assert_eq!(find(&chars("mtd0: a:b"), ':'), 4);
    assert_eq!(find(&chars("mtd0"), ':'), 4);
    assert_eq!(text(strip_prefix(&chars("mtd12"), "mtd").unwrap()), "12");
    assert!(strip_prefix(&chars("mt"), "mtd").is_none());
    assert!(strip_prefix(&chars("nand"), "mtd").is_none());
}

#[test]
fn reads_numbers_like_the_standard_library() {
    let samples = [
        "", "0", "+", "-", "+0", "-0", "00", "7", "+7", "-7", "++7", " 7", "7 ", "1f", "1F", "g", "0x1f",
        "18446744073709551615", "18446744073709551616", "ffffffffffffffff", "10000000000000000",
        "000000000000000000000000000001", "4294967295", "4294967296", "\u{663}",
    ];
    for sample in samples {
        for radix in [2u32, 10, 16, 36] {
            assert_eq!(
                parse_unsigned(&chars(sample), radix, u64::MAX),
                u64::from_str_radix(sample, radix).ok(),
                "{sample} {radix}"
            );
            assert_eq!(
                parse_unsigned(&chars(sample), radix, u32::MAX as u64),
                u32::from_str_radix(sample, radix).ok().map(u64::from),
                "{sample} {radix}"
            );
        }
    }
}

#[test]
fn reads_attributes_in_both_notations() {
    assert_eq!(parse_number("131072\n"), Some(131072));
    assert_eq!(parse_number(" 0x20000\n"), Some(0x20000));
    assert_eq!(parse_number("0x"), None);
    assert_eq!(parse_number("20000h"), None);
    assert_eq!(parse_number(""), None);
    assert_eq!(parse_number("0X10"), None);
    assert_eq!(parse_number("+5"), Some(5));
    assert_eq!(parse_number("0x+5"), Some(5));
}

#[test]
fn writes_numbers_like_the_standard_library() {
    for value in [0u64, 1, 9, 10, 15, 16, 255, 1_020_850_693, u32::MAX as u64, u64::MAX] {
        let mut decimal = String::from("d");
        push_decimal(&mut decimal, value);
        assert_eq!(decimal, format!("d{value}"));
        let mut hexadecimal = String::from("0x");
        push_hexadecimal(&mut hexadecimal, value);
        assert_eq!(hexadecimal, format!("0x{value:x}"));
        let mut padded = String::from("0x");
        push_padded_hexadecimal(&mut padded, value, 8);
        assert_eq!(padded, format!("0x{value:08x}"));
        // What is written reads back.
        for radix in [2u64, 10, 16, 36] {
            let digits = to_digits(value, radix);
            assert_eq!(parse_unsigned(&digits, radix as u32, u64::MAX), Some(value));
        }
    }
}
