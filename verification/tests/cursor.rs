use nvee::parser::IntError;
use nvee::text::{push_decimal, str_eq, utf8_width};
use nvee::{Ident, Key, Parse, Parser};

#[test]
fn peek_does_not_consume() {
    let p = Parser::new("ab");
    assert_eq!(p.peek_char(), Some('a'));
    assert_eq!(p.peek_char(), Some('a'));
    assert_eq!(Parser::new("").peek_char(), None);
}

#[test]
fn next_char_advances_by_whole_characters() {
    let mut p = Parser::new("a\u{e9}\u{20ac}\u{1f600}z");
    assert_eq!(p.next_char(), Some('a'));
    assert_eq!(p.next_char(), Some('\u{e9}'));
    assert_eq!(p.next_char(), Some('\u{20ac}'));
    assert_eq!(p.next_char(), Some('\u{1f600}'));
    assert_eq!(p.next_char(), Some('z'));
    assert_eq!(p.next_char(), None);
    assert_eq!(p.next_char(), None);
}

#[test]
fn parse_char_consumes_only_a_match() {
    let mut p = Parser::new("=x");
    assert!(!p.parse_char('x'));
    assert_eq!(p.peek_char(), Some('='));
    assert!(p.parse_char('='));
    assert_eq!(p.peek_char(), Some('x'));
    assert!(p.parse_char('x'));
    assert!(!p.parse_char('x'));
}

#[test]
fn parse_char_with_tests_the_next_character() {
    let mut p = Parser::new("7a");
    assert_eq!(p.parse_char_with(|c: char| c.is_ascii_digit()), Some('7'));
    assert_eq!(p.parse_char_with(|c: char| c.is_ascii_digit()), None);
    assert_eq!(p.peek_char(), Some('a'));
    let mut empty = Parser::new("");
    assert_eq!(empty.parse_char_with(|_c: char| true), None);
}

#[test]
fn parse_while_takes_the_longest_run() {
    let mut p = Parser::new("abc123");
    assert_eq!(p.parse_while(|c: &char| c.is_ascii_alphabetic()), Some("abc"));
    assert_eq!(p.parse_while(|c: &char| c.is_ascii_alphabetic()), None);
    assert_eq!(p.peek_char(), Some('1'));
    assert_eq!(p.parse_while(|c: &char| c.is_ascii_digit()), Some("123"));
    assert_eq!(p.parse_while(|_c: &char| true), None);
    assert_eq!(p.peek_char(), None);
}

#[test]
fn parse_while_respects_character_boundaries() {
    let mut p = Parser::new("\u{e9}\u{e9}\u{20ac}x\u{e9}");
    assert_eq!(p.parse_while(|c: &char| *c != 'x'), Some("\u{e9}\u{e9}\u{20ac}"));
    assert_eq!(p.next_char(), Some('x'));
    assert_eq!(p.parse_while(|c: &char| *c != 'x'), Some("\u{e9}"));
    assert_eq!(p.peek_char(), None);
}

#[test]
fn a_unit_is_read_from_where_the_reader_stands() {
    let mut p = Parser::new("ab.cd = 1");
    let key: Key = p.parse().unwrap();
    assert_eq!(key.to_string(), "ab.cd");
    assert_eq!(p.peek_char(), Some(' '));
    let id: Result<Ident, _> = p.parse();
    assert!(id.is_err());
    assert_eq!(p.peek_char(), Some(' '));
}

#[test]
fn integers_are_runs_of_digits() {
    assert_eq!(u64::parse_str("0"), Ok(0));
    assert_eq!(u64::parse_str("340"), Ok(340));
    assert_eq!(u64::parse_str("340x"), Ok(340));
    assert_eq!(u64::parse_str("18446744073709551615"), Ok(u64::MAX));
    assert_eq!(u64::parse_str("18446744073709551616"), Err(IntError::Overflow));
    assert_eq!(u64::parse_str(""), Err(IntError::Empty));
    assert_eq!(u64::parse_str("-1"), Err(IntError::Empty));
    assert_eq!(u64::parse_str("+1"), Err(IntError::Empty));
    let mut p = Parser::new("99999999999999999999999 x");
    let r: Result<u64, IntError> = p.parse();
    assert_eq!(r, Err(IntError::Overflow));
    assert_eq!(p.peek_char(), Some(' '));
}

#[test]
fn widths_of_encoded_characters() {
    assert_eq!(utf8_width('a'), 1);
    assert_eq!(utf8_width('\u{7f}'), 1);
    assert_eq!(utf8_width('\u{80}'), 2);
    assert_eq!(utf8_width('\u{7ff}'), 2);
    assert_eq!(utf8_width('\u{800}'), 3);
    assert_eq!(utf8_width('\u{ffff}'), 3);
    assert_eq!(utf8_width('\u{10000}'), 4);
    assert_eq!(utf8_width('\u{10ffff}'), 4);
    for c in ['a', '\u{e9}', '\u{20ac}', '\u{1f600}'] {
        assert_eq!(utf8_width(c), c.len_utf8());
    }
}

#[test]
fn text_helpers() {
    assert!(str_eq("abc", "abc"));
    assert!(str_eq("", ""));
    assert!(!str_eq("abc", "abd"));
    assert!(!str_eq("abc", "ab"));
    assert!(!str_eq("\u{e9}", "e"));
    let mut out = String::from("n=");
    push_decimal(&mut out, 0);
    push_decimal(&mut out, 905);
    assert_eq!(out, "n=0905");
}
