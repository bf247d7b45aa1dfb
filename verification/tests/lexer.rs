use json_parser::lexer::{collect_while, is_decimal_digit, parse_decimal};
use json_parser::{Cursor, Error, Lexer, LexerToken, LiteralType};

fn string(text: &str) -> LexerToken {
    LexerToken::Literal(LiteralType::String(String::from(text)))
}

fn integer(value: isize) -> LexerToken {
    LexerToken::Literal(LiteralType::Integer(value))
}

#[test]
fn next_token() {
    let mut lexer = Lexer::new(
        "{\
        \"testing\": \"a \\\"string\\\"\",
        \"numbers\\\\\": [1,\"2\",null]
        }",
    );
    assert_eq!(lexer.next_token(), Ok(LexerToken::LeftBrace));
    assert_eq!(
        lexer.next_token(),
        Ok(LexerToken::Literal(LiteralType::String(String::from("testing"))))
    );
    assert_eq!(lexer.next_token(), Ok(LexerToken::Colon));
    assert_eq!(
        lexer.next_token(),
        Ok(LexerToken::Literal(LiteralType::String(String::from("a \"string\""))))
    );
    assert_eq!(lexer.next_token(), Ok(LexerToken::Comma));
    assert_eq!(
        lexer.next_token(),
        Ok(LexerToken::Literal(LiteralType::String(String::from("numbers\\"))))
    );
    assert_eq!(lexer.next_token(), Ok(LexerToken::Colon));
    assert_eq!(lexer.next_token(), Ok(LexerToken::LeftBracket));
    assert_eq!(lexer.next_token(), Ok(LexerToken::Literal(LiteralType::Integer(1))));
    assert_eq!(lexer.next_token(), Ok(LexerToken::Comma));
    assert_eq!(
        lexer.next_token(),
        Ok(LexerToken::Literal(LiteralType::String(String::from("2"))))
    );
    assert_eq!(lexer.next_token(), Ok(LexerToken::Comma));
    assert_eq!(lexer.next_token(), Ok(LexerToken::Literal(LiteralType::Null)));
    assert_eq!(lexer.next_token(), Ok(LexerToken::RightBracket));
    assert_eq!(lexer.next_token(), Ok(LexerToken::RightBrace));
    assert_eq!(lexer.next_token(), Ok(LexerToken::Eof));
}

#[test]
fn escapes_collapse_to_the_character_behind_the_backslash() {
    let mut lexer = Lexer::new("\"a \\\"quoted\\\" word\"");
    assert_eq!(lexer.next_token(), Ok(string("a \"quoted\" word")));
    assert_eq!(lexer.next_token(), Ok(LexerToken::Eof));
}

#[test]
fn an_escaped_letter_is_the_letter() {
    let mut lexer = Lexer::new("\"line\\nbreak \\\\ \\u0041\"");
    assert_eq!(lexer.next_token(), Ok(string("linenbreak \\ u0041")));
}

#[test]
fn an_empty_string_literal() {
    let mut lexer = Lexer::new("\"\"");
    assert_eq!(lexer.next_token(), Ok(string("")));
    assert_eq!(lexer.next_token(), Ok(LexerToken::Eof));
}

#[test]
fn blanks_inside_a_string_are_kept() {
    let mut lexer = Lexer::new("\" a\tb\n\"");
    assert_eq!(lexer.next_token(), Ok(string(" a\tb\n")));
}

#[test]
fn braces_with_a_blank_between_them() {
    let mut lexer = Lexer::new("{ }");
    assert_eq!(lexer.next_token(), Ok(LexerToken::LeftBrace));
    assert_eq!(lexer.next_token(), Ok(LexerToken::RightBrace));
    assert_eq!(lexer.next_token(), Ok(LexerToken::Eof));
}

#[test]
fn every_punctuation_token() {
    let mut lexer = Lexer::new("{}[]:,");
    assert_eq!(lexer.next_token(), Ok(LexerToken::LeftBrace));
    assert_eq!(lexer.next_token(), Ok(LexerToken::RightBrace));
    assert_eq!(lexer.next_token(), Ok(LexerToken::LeftBracket));
    assert_eq!(lexer.next_token(), Ok(LexerToken::RightBracket));
    assert_eq!(lexer.next_token(), Ok(LexerToken::Colon));
    assert_eq!(lexer.next_token(), Ok(LexerToken::Comma));
    assert_eq!(lexer.next_token(), Ok(LexerToken::Eof));
}

#[test]
fn eof_is_returned_again_and_again() {
    let mut lexer = Lexer::new(" , \n");
    assert_eq!(lexer.next_token(), Ok(LexerToken::Comma));
    for _ in 0..5 {
        assert_eq!(lexer.next_token(), Ok(LexerToken::Eof));
    }
}

#[test]
fn empty_and_blank_texts_are_eof() {
    assert_eq!(Lexer::new("").next_token(), Ok(LexerToken::Eof));
    assert_eq!(Lexer::new(" \t\r\n ").next_token(), Ok(LexerToken::Eof));
}

#[test]
fn unicode_white_space_is_skipped() {
    let mut lexer = Lexer::new("\u{a0}\u{2028}\u{3000}\u{b}[\u{85}]");
    assert_eq!(lexer.next_token(), Ok(LexerToken::LeftBracket));
    assert_eq!(lexer.next_token(), Ok(LexerToken::RightBracket));
    assert_eq!(lexer.next_token(), Ok(LexerToken::Eof));
}

#[test]
fn is_whitespace_tells_blanks_from_the_rest() {
    assert!(Lexer::is_whitespace(Some(' ')));
    assert!(Lexer::is_whitespace(Some('\n')));
    assert!(Lexer::is_whitespace(Some('\r')));
    assert!(Lexer::is_whitespace(Some('\t')));
    assert!(Lexer::is_whitespace(Some('\u{a0}')));
    assert!(!Lexer::is_whitespace(Some('a')));
    assert!(!Lexer::is_whitespace(Some('{')));
    assert!(!Lexer::is_whitespace(Some('\u{200b}')));
    assert!(!Lexer::is_whitespace(None));
}

#[test]
fn ascii_white_space_is_the_space_and_tab_to_carriage_return() {
    for code in 0u8..=0x7f {
        let c = code as char;
        let expected = c == ' ' || ('\t' <= c && c <= '\r');
        assert_eq!(Lexer::is_whitespace(Some(c)), expected, "character {:?}", c);
    }
}

#[test]
fn ascii_letters_are_a_to_z_in_both_cases() {
    for code in 0u8..=0x7f {
        let c = code as char;
        if Lexer::is_whitespace(Some(c)) || "{}[]:,\"".contains(c) || c.is_ascii_digit() {
            continue;
        }
        let letter = ('a' <= c && c <= 'z') || ('A' <= c && c <= 'Z');
        let expected = if letter {
            LexerToken::Literal(LiteralType::Null)
        } else {
            LexerToken::Illegal
        };
        let text = format!("{}ull", c);
        assert_eq!(Lexer::new(&text).next_token(), Ok(expected), "character {:?}", c);
    }
}

#[test]
fn eat_whitespace_stops_at_the_first_token() {
    let mut lexer = Lexer::new("  \n x");
    lexer.eat_whitespace();
    lexer.eat_whitespace();
    assert_eq!(lexer.next_token(), Err(Error::UnknownKeyword));
}

#[test]
fn numbers() {
    let mut lexer = Lexer::new("0 7 42 007 1234567890");
    assert_eq!(lexer.next_token(), Ok(integer(0)));
    assert_eq!(lexer.next_token(), Ok(integer(7)));
    assert_eq!(lexer.next_token(), Ok(integer(42)));
    assert_eq!(lexer.next_token(), Ok(integer(7)));
    assert_eq!(lexer.next_token(), Ok(integer(1234567890)));
    assert_eq!(lexer.next_token(), Ok(LexerToken::Eof));
}

#[test]
fn a_number_ends_at_the_first_character_that_is_no_digit() {
    let mut lexer = Lexer::new("12,34]5\"6\"");
    assert_eq!(lexer.next_token(), Ok(integer(12)));
    assert_eq!(lexer.next_token(), Ok(LexerToken::Comma));
    assert_eq!(lexer.next_token(), Ok(integer(34)));
    assert_eq!(lexer.next_token(), Ok(LexerToken::RightBracket));
    assert_eq!(lexer.next_token(), Ok(integer(5)));
    assert_eq!(lexer.next_token(), Ok(string("6")));
}

#[test]
fn a_sign_or_a_point_starts_no_token() {
    let mut lexer = Lexer::new("-1.5");
    assert_eq!(lexer.next_token(), Ok(LexerToken::Illegal));
    assert_eq!(lexer.next_token(), Ok(integer(1)));
    assert_eq!(lexer.next_token(), Ok(LexerToken::Illegal));
    assert_eq!(lexer.next_token(), Ok(integer(5)));
}

#[test]
fn the_largest_number_is_read() {
    let text = isize::MAX.to_string();
    let mut lexer = Lexer::new(&text);
    assert_eq!(lexer.next_token(), Ok(integer(isize::MAX)));
    let padded = format!("000{}", isize::MAX);
    assert_eq!(Lexer::new(&padded).next_token(), Ok(integer(isize::MAX)));
}

#[test]
fn one_more_than_the_largest_number_is_malformed() {
    let text = (isize::MAX as u128 + 1).to_string();
    let mut lexer = Lexer::new(&text);
    assert_eq!(lexer.next_token(), Err(Error::MalformedNumber));
    assert_eq!(lexer.next_token(), Ok(LexerToken::Eof));
}

#[test]
fn overflowing_number_is_malformed() {
    let mut lexer = Lexer::new("99999999999999999999999999 7");
    assert_eq!(lexer.next_token(), Err(Error::MalformedNumber));
    assert_eq!(lexer.next_token(), Ok(integer(7)));
}

#[test]
fn a_string_without_its_closing_quote_is_unterminated() {
    let mut lexer = Lexer::new("\"abc");
    assert_eq!(lexer.next_token(), Err(Error::UnterminatedLiteral));
    assert_eq!(lexer.next_token(), Ok(LexerToken::Eof));
    assert_eq!(Lexer::new("\"").next_token(), Err(Error::UnterminatedLiteral));
}

#[test]
fn a_string_that_ends_in_a_backslash_is_unterminated() {
    let mut lexer = Lexer::new("\"abc\\");
    assert_eq!(lexer.next_token(), Err(Error::UnterminatedLiteral));
    assert_eq!(lexer.next_token(), Ok(LexerToken::Eof));
}

#[test]
fn an_escaped_closing_quote_does_not_close() {
    let mut lexer = Lexer::new("\"abc\\\"");
    assert_eq!(lexer.next_token(), Err(Error::UnterminatedLiteral));
}

#[test]
fn null_is_the_only_keyword() {
    assert_eq!(Lexer::new("null").next_token(), Ok(LexerToken::Literal(LiteralType::Null)));
    assert_eq!(Lexer::new("true").next_token(), Err(Error::UnknownKeyword));
    assert_eq!(Lexer::new("false").next_token(), Err(Error::UnknownKeyword));
    assert_eq!(Lexer::new("n").next_token(), Err(Error::UnknownKeyword));
    assert_eq!(Lexer::new("nul").next_token(), Err(Error::UnknownKeyword));
}

#[test]
fn any_letter_may_stand_before_ull() {
    assert_eq!(Lexer::new("xull").next_token(), Ok(LexerToken::Literal(LiteralType::Null)));
    assert_eq!(Lexer::new("éull").next_token(), Ok(LexerToken::Literal(LiteralType::Null)));
    assert_eq!(Lexer::new("京ull").next_token(), Ok(LexerToken::Literal(LiteralType::Null)));
}

#[test]
fn a_failed_keyword_keeps_what_it_matched() {
    let mut lexer = Lexer::new("nu,1");
    assert_eq!(lexer.next_token(), Err(Error::UnknownKeyword));
    assert_eq!(lexer.next_token(), Ok(LexerToken::Comma));
    assert_eq!(lexer.next_token(), Ok(integer(1)));
    // `t` fails before `r`; `r` takes the `u` with it and fails before `e`.
    let mut lexer = Lexer::new("true");
    assert_eq!(lexer.next_token(), Err(Error::UnknownKeyword));
    assert_eq!(lexer.next_token(), Err(Error::UnknownKeyword));
    assert_eq!(lexer.next_token(), Err(Error::UnknownKeyword));
    assert_eq!(lexer.next_token(), Ok(LexerToken::Eof));
}

#[test]
fn null_runs_into_what_follows() {
    let mut lexer = Lexer::new("nullnull7");
    assert_eq!(lexer.next_token(), Ok(LexerToken::Literal(LiteralType::Null)));
    assert_eq!(lexer.next_token(), Ok(LexerToken::Literal(LiteralType::Null)));
    assert_eq!(lexer.next_token(), Ok(integer(7)));
}

#[test]
fn other_characters_are_illegal() {
    let mut lexer = Lexer::new("# ٣ _");
    assert_eq!(lexer.next_token(), Ok(LexerToken::Illegal));
    assert_eq!(lexer.next_token(), Ok(LexerToken::Illegal));
    assert_eq!(lexer.next_token(), Ok(LexerToken::Illegal));
    assert_eq!(lexer.next_token(), Ok(LexerToken::Eof));
}

#[test]
fn a_clone_scans_from_the_same_place() {
    let mut lexer = Lexer::new("[1,2]");
    assert_eq!(lexer.next_token(), Ok(LexerToken::LeftBracket));
    let mut copy = lexer.clone();
    assert_eq!(copy.next_token(), Ok(integer(1)));
    assert_eq!(copy.next_token(), Ok(LexerToken::Comma));
    assert_eq!(lexer.next_token(), Ok(integer(1)));
    assert_eq!(copy.next_token(), Ok(integer(2)));
    assert_eq!(lexer.next_token(), Ok(LexerToken::Comma));
}

#[test]
fn the_tokens_end_before_eof() {
    let mut tokens = Lexer::new("[ null ]").into_iter();
    assert!(!tokens.eof());
    assert_eq!(tokens.next(), Ok(Some(LexerToken::LeftBracket)));
    assert_eq!(tokens.next(), Ok(Some(LexerToken::Literal(LiteralType::Null))));
    assert_eq!(tokens.next(), Ok(Some(LexerToken::RightBracket)));
    assert!(!tokens.eof());
    assert_eq!(tokens.next(), Ok(None));
    assert!(tokens.eof());
    assert_eq!(tokens.next(), Ok(None));
    assert!(tokens.eof());
}

#[test]
fn a_failed_scan_does_not_set_the_mark() {
    let mut tokens = Lexer::new("1 \"open").into_iter();
    assert_eq!(tokens.next(), Ok(Some(integer(1))));
    assert_eq!(tokens.next(), Err(Error::UnterminatedLiteral));
    assert!(!tokens.eof());
    assert_eq!(tokens.next(), Ok(None));
    assert!(tokens.eof());
}

#[test]
fn a_clone_of_the_tokens_has_a_mark_of_its_own() {
    let mut tokens = Lexer::new("7").into_iter();
    let mut copy = tokens.clone();
    assert_eq!(copy.next(), Ok(Some(integer(7))));
    assert_eq!(copy.next(), Ok(None));
    assert!(copy.eof());
    assert!(!tokens.eof());
    assert_eq!(tokens.next(), Ok(Some(integer(7))));
}

#[test]
fn collect_takes_all_the_tokens() {
    let mut tokens = Lexer::new("{ }").into_iter();
    assert_eq!(tokens.collect(), Ok(vec![LexerToken::LeftBrace, LexerToken::RightBrace]));
    assert!(tokens.eof());
    assert_eq!(tokens.collect(), Ok(vec![]));
    let mut tokens = Lexer::new("").into_iter();
    assert_eq!(tokens.collect(), Ok(vec![]));
    assert!(tokens.eof());
}

#[test]
fn collect_stops_at_the_first_failed_scan() {
    let mut tokens = Lexer::new("[1, nope, 2]").into_iter();
    assert_eq!(tokens.collect(), Err(Error::UnknownKeyword));
    assert!(!tokens.eof());
    assert_eq!(tokens.next(), Err(Error::UnknownKeyword));
    assert_eq!(
        tokens.collect(),
        Err(Error::UnknownKeyword)
    );
    assert_eq!(tokens.collect(), Err(Error::UnknownKeyword));
    assert_eq!(
        tokens.collect(),
        Ok(vec![LexerToken::Comma, integer(2), LexerToken::RightBracket])
    );
    assert!(tokens.eof());
}

#[test]
fn collect_while_stops_where_it_is_told() {
    let mut cursor = Cursor::new("abc;def");
    let collected = collect_while(&mut cursor, |c, _| c == ';');
    assert_eq!(collected, "abc");
    assert_eq!(cursor.peek(), Some(';'));
    let none = collect_while(&mut cursor, |c, _| c == ';');
    assert_eq!(none, "");
    assert_eq!(cursor.position_consumed(), 3);
}

#[test]
fn collect_while_counts_what_it_collected() {
    let mut cursor = Cursor::new("xxxxxx");
    cursor.next_char();
    let collected = collect_while(&mut cursor, |_, at| at == 3);
    assert_eq!(collected, "xxx");
    assert_eq!(cursor.position_consumed(), 4);
}

#[test]
fn collect_while_stops_at_the_end() {
    let mut cursor = Cursor::new("12345");
    let collected = collect_while(&mut cursor, |c, _| !is_decimal_digit(c));
    assert_eq!(collected, "12345");
    assert!(cursor.is_eof());
}

#[test]
fn decimal_digits_are_the_ten_ascii_digits() {
    for c in "0123456789".chars() {
        assert!(is_decimal_digit(c));
    }
    for c in "/:aA ٣-+".chars() {
        assert!(!is_decimal_digit(c));
    }
}

#[test]
fn parse_decimal_reads_runs_of_digits_only() {
    assert_eq!(parse_decimal("0"), Some(0));
    assert_eq!(parse_decimal("0000"), Some(0));
    assert_eq!(parse_decimal("905"), Some(905));
    assert_eq!(parse_decimal(""), None);
    assert_eq!(parse_decimal("-1"), None);
    assert_eq!(parse_decimal("+1"), None);
    assert_eq!(parse_decimal("12a"), None);
    assert_eq!(parse_decimal(" 12"), None);
    assert_eq!(parse_decimal(&isize::MAX.to_string()), Some(isize::MAX));
    assert_eq!(parse_decimal(&(isize::MAX as u128 + 1).to_string()), None);
    assert_eq!(parse_decimal(&format!("{}0", isize::MAX)), None);
}
