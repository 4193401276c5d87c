use lookahead_lexer::lexer::tokens::Number;
use lookahead_lexer::lexer::Lexer;
use lookahead_lexer::text::{
    byte_length, first_char, match_prefix, scan_run, slice, width_of, CharClass,
};
use lookahead_lexer::value::{digit_of, literal, marker, parse_digits};

#[test]
fn literals_have_their_values() {
    assert_eq!(literal("0x100"), Some(256));
    assert_eq!(literal("0xfF"), Some(255));
    assert_eq!(literal("0b101"), Some(5));
    assert_eq!(literal("42"), Some(42));
    assert_eq!(literal("0"), Some(0));
    assert_eq!(literal("007"), Some(7));
    assert_eq!(literal("18446744073709551615"), Some(u64::MAX));
    assert_eq!(literal("0xffffffffffffffff"), Some(u64::MAX));
}

#[test]
fn malformed_or_large_literals_have_none() {
    assert_eq!(literal(""), None);
    assert_eq!(literal("0x"), None);
    assert_eq!(literal("0b"), None);
    assert_eq!(literal("0b2"), None);
    assert_eq!(literal("0xg"), None);
    assert_eq!(literal("1.5"), None);
    assert_eq!(literal("12a"), None);
    assert_eq!(literal("18446744073709551616"), None);
    assert_eq!(literal("0x10000000000000000"), None);
}

#[test]
fn a_number_token_evaluates_its_own_text() {
    let mut lexer = Lexer::<1>::new("0b11 1.5 77");
    let a = lexer.get::<Number>().unwrap().unwrap();
    let b = lexer.get::<Number>().unwrap().unwrap();
    let c = lexer.get::<Number>().unwrap().unwrap();
    assert_eq!(a.eval(&lexer), Some(3));
    assert_eq!(b.eval(&lexer), None);
    assert_eq!(c.eval(&lexer), Some(77));
}

#[test]
fn digits_in_a_base() {
    assert_eq!(parse_digits("ff", 16), Some(255));
    assert_eq!(parse_digits("ff", 10), None);
    assert_eq!(parse_digits("101", 2), Some(5));
    assert_eq!(parse_digits("", 10), None);
    assert_eq!(digit_of('7'), 7);
    assert_eq!(digit_of('c'), 12);
    assert_eq!(digit_of('C'), 12);
    assert_eq!(digit_of('g'), 16);
    assert_eq!(marker("0x1"), Some((16, 2)));
    assert_eq!(marker("0b1"), Some((2, 2)));
    assert_eq!(marker("01"), None);
    assert_eq!(marker("0"), None);
}

#[test]
fn runs_are_measured_in_bytes() {
    assert_eq!(scan_run("abc1", CharClass::Alphabetic), 3);
    assert_eq!(scan_run("\u{e9}\u{4e16}!", CharClass::Alphabetic), 5);
    assert_eq!(scan_run("1abc", CharClass::Alphabetic), 0);
    assert_eq!(scan_run(" \t\u{2003}x", CharClass::Whitespace), 5);
    assert_eq!(scan_run("x ", CharClass::Whitespace), 0);
    assert_eq!(scan_run("12.5.x", CharClass::Decimal), 5);
    assert_eq!(scan_run("9aFg", CharClass::Hex), 3);
    assert_eq!(scan_run("0102", CharClass::Binary), 3);
    assert_eq!(scan_run("", CharClass::Binary), 0);
    assert!(CharClass::Hex.contains('B'));
    assert!(!CharClass::Decimal.contains('a'));
}

#[test]
fn prefixes_widths_and_slices() {
    assert_eq!(match_prefix("==x", "=="), Some(2));
    assert_eq!(match_prefix("=x", "=="), None);
    assert_eq!(match_prefix("", "=="), None);
    assert_eq!(match_prefix("abc", ""), Some(0));
    assert_eq!(match_prefix("\u{e9}x", "\u{e9}"), Some(2));
    assert_eq!(width_of('a'), 1);
    assert_eq!(width_of('\u{e9}'), 2);
    assert_eq!(width_of('\u{4e16}'), 3);
    assert_eq!(width_of('\u{1f600}'), 4);
    assert_eq!(byte_length("\u{e9}x"), 3);
    assert_eq!(first_char("\u{e9}x"), Some('\u{e9}'));
    assert_eq!(first_char(""), None);
    assert_eq!(slice("a\u{e9}b", 1, 3), "\u{e9}");
    assert_eq!(slice("abc", 3, 3), "");
    assert_eq!(slice("abc", 0, 3), "abc");
}
