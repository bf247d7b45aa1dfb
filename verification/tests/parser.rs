use json_parser::{
    Array, Element, Elements, Error, Expected, Lexer, LexerToken, LiteralType, Member, Members,
    Object, Parser, Value,
};

fn parser(text: &str) -> Parser {
    Parser::new(Lexer::new(text))
}

fn text(s: &str) -> Value {
    Value::String(s.to_string())
}

fn object(members: Vec<Member>) -> Object {
    Object(Some(Members(members)))
}

fn array(values: Vec<Value>) -> Value {
    Value::Array(Array(Some(Elements(values.into_iter().map(Element).collect()))))
}

fn unexpected(expected: Expected, found: LexerToken) -> Error {
    Error::UnexpectedToken { expected, found }
}

// The scanner knows no keyword but `null`, so the `true` of this document
// ends the parse.
#[test]
fn test_ast() {
    let mut parser = Parser::new(Lexer::new(
        "{\"key\":\"value\", \"key2\\\"\":[1,\"test\", {\"testing\": true}]}",
    ));
    let obj = parser.parse_object();
    assert_eq!(obj, Err(Error::UnknownKeyword));
}

#[test]
fn test_ast_with_null() {
    let mut parser = Parser::new(Lexer::new(
        "{\"key\":\"value\", \"key2\\\"\":[1,\"test\", {\"testing\": null}]}",
    ));
    let obj = parser.parse_object();
    assert_eq!(
        obj,
        Ok(Object(Some(Members(vec![
            Member::new("key".to_string(), Value::String("value".to_string())),
            Member::new(
                "key2\"".to_string(),
                Value::Array(Array(Some(Elements(vec![
                    Element(Value::Number(1)),
                    Element(Value::String("test".to_string())),
                    Element(Value::Object(Object(Some(Members(vec![Member::new(
                        "testing".to_string(),
                        Value::Null
                    )])))))
                ]))))
            )
        ]))))
    );
}

#[test]
fn nested_composite() {
    let parsed = parser("{\"k\":[1,\"two\",{\"b\":null}]}").parse();
    assert_eq!(
        parsed,
        Ok(object(vec![Member::new(
            "k".to_string(),
            array(vec![
                Value::Number(1),
                text("two"),
                Value::Object(object(vec![Member::new("b".to_string(), Value::Null)])),
            ]),
        )]))
    );
}

#[test]
fn nested_composite_with_a_boolean_is_an_unknown_keyword() {
    assert_eq!(parser("{\"k\":[1,\"two\",{\"b\":true}]}").parse(), Err(Error::UnknownKeyword));
}

#[test]
fn trailing_comma_in_an_object() {
    assert_eq!(
        parser("{\"a\":1,}").parse(),
        Err(unexpected(Expected::Key, LexerToken::RightBrace))
    );
}

#[test]
fn trailing_comma_in_an_array() {
    assert_eq!(
        parser("[1,]").parse_value(),
        Err(unexpected(Expected::Value, LexerToken::RightBracket))
    );
    assert_eq!(
        parser("[1,,2]").parse_array(),
        Err(unexpected(Expected::Value, LexerToken::Comma))
    );
}

#[test]
fn a_leading_comma_is_refused() {
    assert_eq!(
        parser("{,\"a\":1}").parse(),
        Err(unexpected(Expected::Key, LexerToken::Comma))
    );
    assert_eq!(
        parser("[,1]").parse_array(),
        Err(unexpected(Expected::Value, LexerToken::Comma))
    );
}

#[test]
fn an_empty_object_is_a_value() {
    assert_eq!(parser("{}").parse_value(), Ok(Value::Object(Object(None))));
    assert_eq!(parser("{ }").parse_object(), Ok(Object(None)));
    assert_eq!(
        parser("{\"a\":{}}").parse(),
        Ok(object(vec![Member::new("a".to_string(), Value::Object(Object(None)))]))
    );
    assert_eq!(
        parser("[{},{}]").parse_value(),
        Ok(array(vec![Value::Object(Object(None)), Value::Object(Object(None))]))
    );
}

#[test]
fn an_empty_object_is_no_document() {
    assert_eq!(parser("{}").parse(), Err(Error::EmptyDocument));
    assert_eq!(parser(" {\n} ").parse(), Err(Error::EmptyDocument));
    assert_eq!(parser("{} 1").parse(), Err(Error::EmptyDocument));
}

#[test]
fn an_empty_array_is_a_value() {
    assert_eq!(parser("[]").parse_value(), Ok(Value::Array(Array(None))));
    assert_eq!(parser("[ ]").parse_array(), Ok(Array(None)));
    assert_eq!(
        parser("{\"a\":[]}").parse(),
        Ok(object(vec![Member::new("a".to_string(), Value::Array(Array(None)))]))
    );
    assert_eq!(
        parser("[[],[[]]]").parse_value(),
        Ok(array(vec![Value::Array(Array(None)), array(vec![Value::Array(Array(None))])]))
    );
}

#[test]
fn a_document_is_an_object() {
    assert_eq!(
        parser("[1]").parse(),
        Err(unexpected(Expected::Token(LexerToken::LeftBrace), LexerToken::LeftBracket))
    );
    assert_eq!(
        parser("1").parse(),
        Err(unexpected(
            Expected::Token(LexerToken::LeftBrace),
            LexerToken::Literal(LiteralType::Integer(1))
        ))
    );
    assert_eq!(
        parser("").parse(),
        Err(Error::UnexpectedEnd { expected: Expected::Token(LexerToken::LeftBrace) })
    );
}

#[test]
fn literals_are_values() {
    assert_eq!(parser("17").parse_value(), Ok(Value::Number(17)));
    assert_eq!(parser("\"s\"").parse_value(), Ok(text("s")));
    assert_eq!(parser("null").parse_value(), Ok(Value::Null));
    assert_eq!(parser(" 3 4").parse_element(), Ok(Element(Value::Number(3))));
}

#[test]
fn what_starts_no_value_is_unexpected() {
    assert_eq!(
        parser("}").parse_value(),
        Err(unexpected(Expected::Value, LexerToken::RightBrace))
    );
    assert_eq!(parser(":").parse_value(), Err(unexpected(Expected::Value, LexerToken::Colon)));
    assert_eq!(
        parser("").parse_value(),
        Err(Error::UnexpectedEnd { expected: Expected::Value })
    );
    assert_eq!(
        parser("{\"a\":}").parse(),
        Err(unexpected(Expected::Value, LexerToken::RightBrace))
    );
}

#[test]
fn a_refused_value_is_not_taken() {
    let mut parser = parser("] 5");
    assert_eq!(
        parser.parse_value(),
        Err(unexpected(Expected::Value, LexerToken::RightBracket))
    );
    assert_eq!(parser.expect_next(LexerToken::RightBracket), Ok(()));
    assert_eq!(parser.parse_value(), Ok(Value::Number(5)));
}

#[test]
fn an_illegal_character_is_an_unexpected_token() {
    assert_eq!(
        parser("{\"a\": #}").parse(),
        Err(unexpected(Expected::Value, LexerToken::Illegal))
    );
    assert_eq!(parser("{#}").parse(), Err(unexpected(Expected::Key, LexerToken::Illegal)));
    assert_eq!(
        parser("#").parse(),
        Err(unexpected(Expected::Token(LexerToken::LeftBrace), LexerToken::Illegal))
    );
    assert_eq!(
        parser("{\"a\" # 1}").parse(),
        Err(unexpected(Expected::Token(LexerToken::Colon), LexerToken::Illegal))
    );
}

#[test]
fn a_key_is_a_string_literal() {
    assert_eq!(
        parser("{1:2}").parse(),
        Err(unexpected(Expected::Key, LexerToken::Literal(LiteralType::Integer(1))))
    );
    assert_eq!(
        parser("{null:2}").parse(),
        Err(unexpected(Expected::Key, LexerToken::Literal(LiteralType::Null)))
    );
    assert_eq!(
        parser("{[1]:2}").parse(),
        Err(unexpected(Expected::Key, LexerToken::LeftBracket))
    );
    assert_eq!(parser("{").parse(), Err(Error::UnexpectedEnd { expected: Expected::Key }));
    assert_eq!(
        parser("{\"a\":1,").parse(),
        Err(Error::UnexpectedEnd { expected: Expected::Key })
    );
}

#[test]
fn a_colon_parts_key_and_value() {
    assert_eq!(
        parser("{\"a\" 1}").parse(),
        Err(unexpected(
            Expected::Token(LexerToken::Colon),
            LexerToken::Literal(LiteralType::Integer(1))
        ))
    );
    assert_eq!(
        parser("{\"a\"").parse(),
        Err(Error::UnexpectedEnd { expected: Expected::Token(LexerToken::Colon) })
    );
    assert_eq!(
        parser("{\"a\":").parse(),
        Err(Error::UnexpectedEnd { expected: Expected::Value })
    );
}

#[test]
fn what_is_opened_has_to_be_closed() {
    assert_eq!(
        parser("{\"a\":1").parse(),
        Err(Error::UnexpectedEnd { expected: Expected::Token(LexerToken::RightBrace) })
    );
    assert_eq!(
        parser("{\"a\":1]").parse(),
        Err(unexpected(Expected::Token(LexerToken::RightBrace), LexerToken::RightBracket))
    );
    assert_eq!(
        parser("{\"a\":1 \"b\":2}").parse(),
        Err(unexpected(
            Expected::Token(LexerToken::RightBrace),
            LexerToken::Literal(LiteralType::String("b".to_string()))
        ))
    );
    assert_eq!(
        parser("[1").parse_array(),
        Err(Error::UnexpectedEnd { expected: Expected::Token(LexerToken::RightBracket) })
    );
    assert_eq!(
        parser("[1}").parse_array(),
        Err(unexpected(Expected::Token(LexerToken::RightBracket), LexerToken::RightBrace))
    );
    assert_eq!(
        parser("[1 2]").parse_array(),
        Err(unexpected(
            Expected::Token(LexerToken::RightBracket),
            LexerToken::Literal(LiteralType::Integer(2))
        ))
    );
    assert_eq!(parser("[").parse_array(), Err(Error::UnexpectedEnd { expected: Expected::Value }));
}

#[test]
fn failed_scans_end_the_parse() {
    assert_eq!(parser("{\"a\": \"open}").parse(), Err(Error::UnterminatedLiteral));
    assert_eq!(parser("{\"a").parse(), Err(Error::UnterminatedLiteral));
    assert_eq!(
        parser("{\"a\": 99999999999999999999999999999}").parse(),
        Err(Error::MalformedNumber)
    );
    assert_eq!(parser("{\"a\": [1, nil]}").parse(), Err(Error::UnknownKeyword));
    assert_eq!(parser("{\"a\": false}").parse(), Err(Error::UnknownKeyword));
    assert_eq!(parser("{\"a\": 1 x").parse(), Err(Error::UnknownKeyword));
    assert_eq!(parser("x").parse(), Err(Error::UnknownKeyword));
}

#[test]
fn an_error_of_the_grammar_comes_before_a_later_failed_scan() {
    assert_eq!(
        parser("{\"a\" 1 \"open").parse(),
        Err(unexpected(
            Expected::Token(LexerToken::Colon),
            LexerToken::Literal(LiteralType::Integer(1))
        ))
    );
}

#[test]
fn keys_may_repeat_and_keep_their_order() {
    assert_eq!(
        parser("{\"a\":1,\"b\":2,\"a\":3}").parse(),
        Ok(object(vec![
            Member::new("a".to_string(), Value::Number(1)),
            Member::new("b".to_string(), Value::Number(2)),
            Member::new("a".to_string(), Value::Number(3)),
        ]))
    );
}

#[test]
fn elements_keep_their_order() {
    assert_eq!(
        parser("3,1,2,null,\"x\"]").parse_elements(),
        Ok(Elements(vec![
            Element(Value::Number(3)),
            Element(Value::Number(1)),
            Element(Value::Number(2)),
            Element(Value::Null),
            Element(text("x")),
        ]))
    );
}

#[test]
fn members_are_read_without_their_braces() {
    let mut parser = parser("\"a\":1,\"b\":[2]}");
    assert_eq!(
        parser.parse_members(),
        Ok(Members(vec![
            Member::new("a".to_string(), Value::Number(1)),
            Member::new("b".to_string(), array(vec![Value::Number(2)])),
        ]))
    );
    assert_eq!(parser.expect_next(LexerToken::RightBrace), Ok(()));
    assert_eq!(
        parser.expect_next(LexerToken::RightBrace),
        Err(Error::UnexpectedEnd { expected: Expected::Token(LexerToken::RightBrace) })
    );
}

#[test]
fn a_member_is_a_key_a_colon_and_a_value() {
    let mut parser = parser("\"k\" : {\"n\": null} , 1");
    assert_eq!(
        parser.parse_member(),
        Ok(Member::new(
            "k".to_string(),
            Value::Object(object(vec![Member::new("n".to_string(), Value::Null)]))
        ))
    );
    assert_eq!(parser.expect_next(LexerToken::Comma), Ok(()));
    assert_eq!(parser.parse_value(), Ok(Value::Number(1)));
}

#[test]
fn what_follows_the_document_is_left_unread() {
    let mut parser = parser("{\"a\":1} ] 7");
    assert_eq!(
        parser.parse(),
        Ok(object(vec![Member::new("a".to_string(), Value::Number(1))]))
    );
    assert_eq!(parser.expect_next(LexerToken::RightBracket), Ok(()));
    assert_eq!(parser.parse_value(), Ok(Value::Number(7)));
    assert_eq!(
        parser.parse_value(),
        Err(Error::UnexpectedEnd { expected: Expected::Value })
    );
}

#[test]
fn expect_next_takes_the_token_it_refuses() {
    let mut parser = parser(": ,");
    assert_eq!(
        parser.expect_next(LexerToken::Comma),
        Err(unexpected(Expected::Token(LexerToken::Comma), LexerToken::Colon))
    );
    assert_eq!(parser.expect_next(LexerToken::Comma), Ok(()));
}

#[test]
fn expect_next_compares_payloads() {
    let one = LexerToken::Literal(LiteralType::Integer(1));
    let two = LexerToken::Literal(LiteralType::Integer(2));
    assert_eq!(parser("1").expect_next(one.clone()), Ok(()));
    assert_eq!(
        parser("1").expect_next(two.clone()),
        Err(unexpected(Expected::Token(two), one))
    );
}

#[test]
fn deep_nesting() {
    let depth = 200;
    let mut source = String::new();
    for _ in 0..depth {
        source.push('[');
    }
    source.push('0');
    for _ in 0..depth {
        source.push(']');
    }
    let mut expected = Value::Number(0);
    for _ in 0..depth {
        expected = array(vec![expected]);
    }
    assert_eq!(parser(&source).parse_value(), Ok(expected));
}
