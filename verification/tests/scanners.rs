use moshi_moshi::parser::common::sip_chars::{ascii, is_any_ascii, not_space_or_colon, scan, CharClass};
use moshi_moshi::text::{append_decimal, begins_with, parse_decimal, same_text, spells, to_chars};
use moshi_moshi::SipError;

const SAMPLES: [&str; 14] = [
    "",
    "plain",
    "Via: SIP/2.0/UDP",
    " leading",
    "\ttab",
    ":colon",
    "caf\u{e9} au lait",
    "\u{e9}",
    "a b",
    "a\r\nb",
    "a\nb",
    "name:value",
    "x\u{0}y",
    "tr\u{1f600}il",
];

#[test]
fn ascii_prefix_is_split_off() {
    assert_eq!(is_any_ascii("caf\u{e9} au lait"), Ok(("\u{e9} au lait", "caf")));
    assert_eq!(is_any_ascii("plain"), Ok(("", "plain")));
    assert_eq!(is_any_ascii(""), Ok(("", "")));
    assert_eq!(is_any_ascii("\u{e9}"), Ok(("\u{e9}", "")));
    assert_eq!(ascii("x\u{7f}\u{80}"), Ok(("\u{80}", "x\u{7f}")));
}

#[test]
fn name_prefix_is_split_off() {
    assert_eq!(not_space_or_colon("name:value"), Ok((":value", "name")));
    assert_eq!(not_space_or_colon("name value"), Ok((" value", "name")));
    assert_eq!(not_space_or_colon("a\tb"), Ok(("\tb", "a")));
    assert_eq!(not_space_or_colon("a\rb"), Ok(("\rb", "a")));
    assert_eq!(not_space_or_colon("a\nb"), Ok(("\nb", "a")));
    assert_eq!(not_space_or_colon("whole"), Ok(("", "whole")));
    assert_eq!(not_space_or_colon(""), Err(SipError::MalformedHeader));
    assert_eq!(not_space_or_colon(":x"), Err(SipError::MalformedHeader));
    assert_eq!(not_space_or_colon(" x"), Err(SipError::MalformedHeader));
}

#[test]
fn ascii_scanners_agree_with_nom() {
    for input in SAMPLES {
        let expected: nom::IResult<&str, &str> =
            nom::bytes::complete::take_while(|c: char| c.is_ascii())(input);
        let expected = expected.unwrap();
        assert_eq!(is_any_ascii(input), Ok(expected), "{:?}", input);
        assert_eq!(ascii(input), Ok(expected), "{:?}", input);
    }
}

#[test]
fn name_scanner_agrees_with_nom() {
    for input in SAMPLES {
        let expected: nom::IResult<&str, &str> = nom::bytes::complete::is_not(" \t\r\n:")(input);
        match expected {
            Ok(pair) => assert_eq!(not_space_or_colon(input), Ok(pair), "{:?}", input),
            Err(_) => assert_eq!(not_space_or_colon(input), Err(SipError::MalformedHeader), "{:?}", input),
        }
    }
}

#[test]
fn class_scanners_agree_with_nom() {
    for input in ["", "123abc", "abc123 x", "  \t x", " \n", "0", "x", "9\u{e9}", "Zz09_"] {
        let chars = to_chars(input);
        let digits: nom::IResult<&str, &str> = nom::character::complete::digit0(input);
        assert_eq!(scan(&chars, 0, CharClass::Digit), digits.unwrap().1.chars().count(), "{:?}", input);
        let blanks: nom::IResult<&str, &str> = nom::character::complete::space0(input);
        assert_eq!(scan(&chars, 0, CharClass::Blank), blanks.unwrap().1.chars().count(), "{:?}", input);
        let alnum: nom::IResult<&str, &str> = nom::character::complete::alphanumeric0(input);
        assert_eq!(scan(&chars, 0, CharClass::Alphanumeric), alnum.unwrap().1.chars().count(), "{:?}", input);
    }
}

#[test]
fn scan_starts_where_it_is_told() {
    let chars = to_chars("ab  cd:e");
    assert_eq!(scan(&chars, 0, CharClass::NotSpaceOrColon), 2);
    assert_eq!(scan(&chars, 2, CharClass::Blank), 4);
    assert_eq!(scan(&chars, 4, CharClass::Except(':')), 6);
    assert_eq!(scan(&chars, 6, CharClass::Except(':')), 6);
    assert_eq!(scan(&chars, 7, CharClass::Ascii), 8);
    assert_eq!(scan(&chars, 8, CharClass::Ascii), 8);
}

#[test]
fn class_membership() {
    assert!(CharClass::Ascii.test('\u{7f}'));
    assert!(!CharClass::Ascii.test('\u{80}'));
    assert!(CharClass::Blank.test(' ') && CharClass::Blank.test('\t'));
    assert!(!CharClass::Blank.test('\n'));
    assert!(CharClass::Digit.test('0') && CharClass::Digit.test('9'));
    assert!(!CharClass::Digit.test('/') && !CharClass::Digit.test(':'));
    assert!(CharClass::Alphanumeric.test('a') && CharClass::Alphanumeric.test('Z'));
    assert!(!CharClass::Alphanumeric.test('_') && !CharClass::Alphanumeric.test('\u{e9}'));
    assert!(CharClass::Except('@').test('a') && !CharClass::Except('@').test('@'));
    for c in [' ', '\t', '\r', '\n', ':'] {
        assert!(!CharClass::NotSpaceOrColon.test(c));
    }
    assert!(CharClass::NotSpaceOrColon.test('\u{0}'));
}

#[test]
fn decimal_numbers_are_read() {
    let chars = to_chars("x65535y");
    assert_eq!(parse_decimal(&chars, 1, 6, 65535), Some(65535));
    assert_eq!(parse_decimal(&chars, 1, 6, 65534), None);
    assert_eq!(parse_decimal(&chars, 1, 1, 65535), None);
    assert_eq!(parse_decimal(&chars, 0, 6, 65535), None);
    assert_eq!(parse_decimal(&chars, 1, 7, 65535), None);
    assert_eq!(parse_decimal(&chars, 2, 4, 65535), Some(55));
    let zeros = to_chars("0000000000000000000000000042");
    assert_eq!(parse_decimal(&zeros, 0, zeros.len(), 42), Some(42));
    let big = to_chars("4294967295");
    assert_eq!(parse_decimal(&big, 0, big.len(), u32::MAX), Some(u32::MAX));
    let bigger = to_chars("4294967296");
    assert_eq!(parse_decimal(&bigger, 0, bigger.len(), u32::MAX), None);
}

#[test]
fn decimal_numbers_are_written_and_read_back() {
    for n in [0u32, 1, 9, 10, 11, 99, 100, 101, 5060, 65535, 65536, 1000000, 4294967295] {
        let mut text = String::from(">");
        append_decimal(&mut text, n);
        assert_eq!(text, format!(">{}", n));
        let chars = to_chars(&text);
        assert_eq!(parse_decimal(&chars, 1, chars.len(), u32::MAX), Some(n));
    }
}

#[test]
fn texts_are_compared_letter_for_letter() {
    assert!(same_text("Call-ID", "Call-ID"));
    assert!(!same_text("Call-ID", "call-id"));
    assert!(!same_text("Call-ID", "Call-I"));
    assert!(same_text("", ""));
    let chars = to_chars("sips:alice");
    assert!(begins_with(&chars, "sips:"));
    assert!(!begins_with(&chars, "sip:"));
    assert!(begins_with(&chars, ""));
    assert!(!begins_with(&chars, "sips:alice and more"));
    assert!(spells(&chars, 5, 10, "alice"));
    assert!(!spells(&chars, 5, 9, "alice"));
    assert!(spells(&chars, 3, 3, ""));
}
