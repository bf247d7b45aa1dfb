use json_parser::{Error, Expected, LexerToken, LiteralType};

#[test]
fn failed_scans_are_named() {
    assert_eq!(Error::UnterminatedLiteral.to_string(), "Unterminated string literal");
    assert_eq!(Error::MalformedNumber.to_string(), "Malformed number");
    assert_eq!(Error::UnknownKeyword.to_string(), "Unknown keyword");
}

#[test]
fn an_unexpected_token_is_shown_with_what_was_asked_for() {
    assert_eq!(
        Error::UnexpectedToken {
            expected: Expected::Token(LexerToken::Colon),
            found: LexerToken::Literal(LiteralType::Integer(1)),
        }
        .to_string(),
        "Expected :, got Integer: 1"
    );
    assert_eq!(
        Error::UnexpectedToken { expected: Expected::Key, found: LexerToken::RightBrace }
            .to_string(),
        "Expected string literal as key, got }"
    );
    assert_eq!(
        Error::UnexpectedToken { expected: Expected::Value, found: LexerToken::Illegal }
            .to_string(),
        "Unexpected token (illegal character)"
    );
}

#[test]
fn an_unexpected_end_is_shown_with_what_was_asked_for() {
    assert_eq!(
        Error::UnexpectedEnd { expected: Expected::Token(LexerToken::RightBracket) }.to_string(),
        "Expected ], got the end of the input"
    );
    assert_eq!(
        Error::UnexpectedEnd { expected: Expected::Key }.to_string(),
        "Expected string literal as key, got the end of the input"
    );
    assert_eq!(Error::UnexpectedEnd { expected: Expected::Value }.to_string(), "Value expected");
}

#[test]
fn an_empty_document_is_named() {
    assert_eq!(Error::EmptyDocument.to_string(), "Empty document");
}
