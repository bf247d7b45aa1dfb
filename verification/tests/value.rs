use json_parser::{
    Array, Element, Elements, Error, Expected, LexerToken, LiteralType, Member, Members, Object,
    Value,
};

#[test]
fn literals_become_values() {
    assert_eq!(Value::from(LiteralType::Integer(12)), Value::Number(12));
    assert_eq!(Value::from(LiteralType::Integer(-3)), Value::Number(-3));
    assert_eq!(
        Value::from(LiteralType::String(String::from("s"))),
        Value::String(String::from("s"))
    );
    assert_eq!(Value::from(LiteralType::Null), Value::Null);
}

#[test]
fn literals_convert_into_values() {
    let number: Value = LiteralType::Integer(isize::MAX).into();
    assert_eq!(number, Value::Number(isize::MAX));
    let text: Value = LiteralType::String(String::from("é")).into();
    assert_eq!(text, Value::String(String::from("é")));
    let null: Value = LiteralType::Null.into();
    assert_eq!(null, Value::Null);
}

#[test]
fn trees_are_equal_by_shape_and_leaves() {
    let list = |values: Vec<Value>| {
        Value::Array(Array(Some(Elements(values.into_iter().map(Element).collect()))))
    };
    let one = || Value::Number(1);
    assert_eq!(list(vec![one(), Value::Null]), list(vec![one(), Value::Null]));
    assert_ne!(list(vec![one(), Value::Null]), list(vec![Value::Null, one()]));
    assert_ne!(list(vec![Value::Number(1)]), list(vec![Value::Number(1), Value::Number(1)]));
    assert_ne!(list(vec![list(vec![Value::Null])]), list(vec![list(vec![Value::Bool(true)])]));
    assert_ne!(list(vec![Value::Null]), Value::Array(Array(None)));
    let object = |key: &str, value: Value| {
        Object(Some(Members(vec![Member::new(key.to_string(), value)])))
    };
    assert_eq!(object("a", Value::Null), object("a", Value::Null));
    assert_ne!(object("a", Value::Null), object("b", Value::Null));
    assert_ne!(object("a", Value::Null), object("a", Value::Number(0)));
    assert_ne!(object("a", Value::Null), Object(None));
    assert_eq!(Object(None), Object(None));
    assert_eq!(Element(Value::Null), Element(Value::Null));
    assert_ne!(Element(Value::Null), Element(Value::Bool(false)));
    assert_eq!(Elements(vec![]), Elements(vec![]));
    assert_ne!(Members(vec![]), Members(vec![Member::new(String::new(), Value::Null)]));
    assert_eq!(Array(None), Array(None));
    assert_ne!(Array(None), Array(Some(Elements(vec![]))));
}

#[test]
fn a_member_holds_its_key_and_its_value() {
    let member = Member::new(String::from("k"), Value::Bool(true));
    assert_eq!(member.key, "k");
    assert_eq!(member.value, Value::Bool(true));
    assert_ne!(member, Member::new(String::from("k"), Value::Bool(false)));
    assert_ne!(member, Member::new(String::from("j"), Value::Bool(true)));
}

#[test]
fn a_cloned_tree_is_equal_to_the_first() {
    let tree = Value::Object(Object(Some(Members(vec![
        Member::new(
            String::from("list"),
            Value::Array(Array(Some(Elements(vec![
                Element(Value::Number(1)),
                Element(Value::Null),
                Element(Value::Array(Array(None))),
                Element(Value::Bool(false)),
            ])))),
        ),
        Member::new(String::from("name"), Value::String(String::from("n"))),
        Member::new(String::from("none"), Value::Object(Object(None))),
    ]))));
    let copy = tree.clone();
    assert_eq!(copy, tree);
    if let Value::Object(object) = &tree {
        assert_eq!(&object.clone(), object);
        let members = object.0.as_ref().unwrap();
        assert_eq!(&members.clone(), members);
        assert_eq!(members.0[0].clone(), members.0[0]);
        if let Value::Array(array) = &members.0[0].value {
            assert_eq!(&array.clone(), array);
            let elements = array.0.as_ref().unwrap();
            assert_eq!(&elements.clone(), elements);
            assert_eq!(elements.0[2].clone(), elements.0[2]);
        } else {
            panic!("the first member holds an array");
        }
    } else {
        panic!("the tree is an object");
    }
}

#[test]
fn an_empty_object_is_not_an_empty_array() {
    assert_ne!(Value::Object(Object(None)), Value::Array(Array(None)));
    assert_ne!(Value::Object(Object(None)), Value::Object(Object(Some(Members(vec![])))));
    assert_ne!(Value::Null, Value::Bool(false));
    assert_ne!(Value::Number(0), Value::String(String::from("0")));
}

#[test]
fn errors_are_equal_by_kind_and_payload() {
    let found = Error::UnexpectedToken { expected: Expected::Key, found: LexerToken::Comma };
    assert_eq!(found.clone(), found);
    assert_ne!(
        found,
        Error::UnexpectedToken { expected: Expected::Value, found: LexerToken::Comma }
    );
    assert_ne!(
        found,
        Error::UnexpectedToken { expected: Expected::Key, found: LexerToken::Colon }
    );
    let end = Error::UnexpectedEnd { expected: Expected::Token(LexerToken::RightBrace) };
    assert_eq!(end.clone(), end);
    assert_ne!(end, Error::UnexpectedEnd { expected: Expected::Key });
    assert_ne!(Error::EmptyDocument, Error::UnknownKeyword);
    assert_eq!(Error::MalformedNumber.clone(), Error::MalformedNumber);
    assert_eq!(Error::UnterminatedLiteral.clone(), Error::UnterminatedLiteral);
    assert_eq!(Expected::Value.clone(), Expected::Value);
}
