use fmtstrformatter::grammar::{Mode, Token};
use fmtstrformatter::scanner::{is_digit_char, next_token, read_width, stops_at};
use fmtstrformatter::text::{chars_of, first_char, push_spaces};

fn token(format: &str, at: usize) -> (Token, usize) {
    next_token(&chars_of(format), at)
}

#[test]
fn plain_character_is_a_literal() {
    assert_eq!(token("abc", 1), (Token::Literal { c: 'b' }, 1));
    assert_eq!(token("a?b", 1), (Token::Literal { c: '?' }, 1));
    assert_eq!(token("a&b", 1), (Token::Literal { c: '&' }, 1));
}

#[test]
fn percent_at_the_end_is_a_literal() {
    assert_eq!(token("%", 0), (Token::Literal { c: '%' }, 1));
    assert_eq!(token("ab%", 2), (Token::Literal { c: '%' }, 1));
}

#[test]
fn two_percents_are_one_token() {
    assert_eq!(token("%%", 0), (Token::Percent, 2));
    assert_eq!(token("a%%b", 1), (Token::Percent, 2));
}

#[test]
fn field_without_width() {
    assert_eq!(token("%a", 0), (Token::Field { key: 'a', width: 0, left: false }, 2));
    assert_eq!(token("x%&y", 1), (Token::Field { key: '&', width: 0, left: false }, 2));
}

#[test]
fn field_with_width() {
    assert_eq!(token("%5a", 0), (Token::Field { key: 'a', width: 5, left: false }, 3));
    assert_eq!(token("%123a", 0), (Token::Field { key: 'a', width: 123, left: false }, 5));
    assert_eq!(token("%007a", 0), (Token::Field { key: 'a', width: 7, left: false }, 5));
}

#[test]
fn field_with_minus() {
    assert_eq!(token("%-5a", 0), (Token::Field { key: 'a', width: 5, left: true }, 4));
    assert_eq!(token("%-a", 0), (Token::Field { key: 'a', width: 0, left: true }, 3));
    assert_eq!(token("%--", 0), (Token::Field { key: '-', width: 0, left: true }, 3));
    assert_eq!(token("%5-a", 0), (Token::Field { key: '-', width: 5, left: false }, 3));
}

#[test]
fn field_width_stops_at_the_largest() {
    assert_eq!(
        token("%4294967295a", 0),
        (Token::Field { key: 'a', width: 4294967295, left: false }, 12)
    );
    assert_eq!(
        token("%4294967296a", 0),
        (Token::Field { key: 'a', width: 4294967295, left: false }, 12)
    );
    assert_eq!(
        token("%-99999999999999999999999999a", 0),
        (Token::Field { key: 'a', width: 4294967295, left: true }, 29)
    );
    assert_eq!(
        token("%4294967294a", 0),
        (Token::Field { key: 'a', width: 4294967294, left: false }, 12)
    );
}

#[test]
fn opening_of_a_conditional() {
    assert_eq!(token("%?a?T&F?", 0), (Token::Open { key: 'a' }, 4));
    assert_eq!(token("%???", 0), (Token::Open { key: '?' }, 4));
    assert_eq!(token("x%?%?", 1), (Token::Open { key: '%' }, 4));
}

#[test]
fn percent_and_question_mark_that_open_nothing() {
    assert_eq!(token("%?", 0), (Token::Raw { c: '?' }, 2));
    assert_eq!(token("%?a", 0), (Token::Raw { c: '?' }, 2));
    assert_eq!(token("%?ab", 0), (Token::Raw { c: '?' }, 2));
    assert_eq!(token("%?ab?", 0), (Token::Raw { c: '?' }, 2));
}

#[test]
fn width_before_percent_is_raw() {
    assert_eq!(token("%5%", 0), (Token::Raw { c: '5' }, 2));
    assert_eq!(token("%-%%", 0), (Token::Raw { c: '-' }, 2));
    assert_eq!(token("%-12%a", 0), (Token::Raw { c: '-' }, 2));
    assert_eq!(token("%-12%a", 4), (Token::Field { key: 'a', width: 0, left: false }, 2));
}

#[test]
fn width_without_key_is_raw() {
    assert_eq!(token("%5", 0), (Token::Raw { c: '5' }, 2));
    assert_eq!(token("%-", 0), (Token::Raw { c: '-' }, 2));
    assert_eq!(token("%-12", 0), (Token::Raw { c: '-' }, 2));
    assert_eq!(token("%12", 0), (Token::Raw { c: '1' }, 2));
}

#[test]
fn read_width_reads_the_digits() {
    assert_eq!(read_width(&chars_of("123a"), 0), (3, 123));
    assert_eq!(read_width(&chars_of("123a"), 1), (3, 23));
    assert_eq!(read_width(&chars_of("123a"), 3), (3, 0));
    assert_eq!(read_width(&chars_of("123"), 3), (3, 0));
    assert_eq!(read_width(&chars_of("42"), 0), (2, 42));
    assert_eq!(read_width(&chars_of(""), 0), (0, 0));
    assert_eq!(read_width(&chars_of("000"), 0), (3, 0));
}

#[test]
fn read_width_stops_at_the_largest() {
    assert_eq!(read_width(&chars_of("4294967295"), 0), (10, 4294967295));
    assert_eq!(read_width(&chars_of("4294967296"), 0), (10, 4294967295));
    assert_eq!(read_width(&chars_of("42949672950"), 0), (11, 4294967295));
    assert_eq!(read_width(&chars_of("18446744073709551616"), 0), (20, 4294967295));
}

#[test]
fn only_ascii_digits_are_digits() {
    assert!(is_digit_char('0'));
    assert!(is_digit_char('5'));
    assert!(is_digit_char('9'));
    assert!(!is_digit_char('/'));
    assert!(!is_digit_char(':'));
    assert!(!is_digit_char('a'));
    assert!(!is_digit_char('\u{663}'));
}

#[test]
fn what_ends_a_branch() {
    assert!(!stops_at(Mode::Top, '?'));
    assert!(!stops_at(Mode::Top, '&'));
    assert!(stops_at(Mode::Then, '?'));
    assert!(stops_at(Mode::Then, '&'));
    assert!(stops_at(Mode::Else, '?'));
    assert!(!stops_at(Mode::Else, '&'));
    assert!(!stops_at(Mode::Then, 'a'));
    assert!(!stops_at(Mode::Else, '%'));
}

#[test]
fn chars_of_keeps_every_character() {
    assert_eq!(chars_of(""), Vec::<char>::new());
    assert_eq!(chars_of("a%b"), vec!['a', '%', 'b']);
    assert_eq!(chars_of("\u{e9}t\u{e9}"), vec!['\u{e9}', 't', '\u{e9}']);
}

#[test]
fn first_char_of_a_string() {
    assert_eq!(first_char(""), None);
    assert_eq!(first_char("a"), Some('a'));
    assert_eq!(first_char("xyz"), Some('x'));
    assert_eq!(first_char("\u{65e5}\u{672c}"), Some('\u{65e5}'));
}

#[test]
fn push_spaces_appends() {
    let mut s = String::from("ab");
    push_spaces(&mut s, 0);
    assert_eq!(s, "ab");
    push_spaces(&mut s, 3);
    assert_eq!(s, "ab   ");
}
