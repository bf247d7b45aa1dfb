//! The parser: from tokens to a tree, by recursive descent.

use crate::error::{outcome_view, Error, ErrorView, Expected};
use crate::grammar::{
    array_spec, document_spec, elements_spec, elements_tail, expect_spec, lemma_parse_consumes,
    member_spec, members_spec, members_tail, object_spec, shorter, value_spec,
};
use crate::lexer::Lexer;
use crate::stream::{token_stream, TokensView};
use crate::token::{LexerToken, LiteralType};
use crate::token_cursor::TokenCursor;
use crate::value::{
    elements_view, lemma_elements_view_push, lemma_members_view_push, members_view, Array,
    Element, Elements, Member, MemberView, Members, Object, Value, ValueView,
};
use vstd::prelude::*;

verus! {

/// A parser over the tokens of one text. Each production reads from where
/// the one before it stopped; after an error the parser stands where the
/// error was met.
///
/// The productions call each other as deeply as objects and arrays are
/// nested in the text, and nothing bounds that depth: a caller that reads
/// text from strangers bounds it beforehand.
#[derive(Debug)]
pub struct Parser {
    cursor: TokenCursor,
}

impl View for Parser {
    type V = TokensView;

    /// The tokens that have not been read yet.
    closed spec fn view(&self) -> TokensView {
        self.cursor@
    }
}

impl Parser {
    /// A parser at the first token that `lexer` has not scanned yet.
    pub fn new(lexer: Lexer) -> (parser: Parser)
        ensures
            parser@ == (TokensView { ahead: token_stream(lexer@), eof: false }),
    {
        Self { cursor: TokenCursor::new(lexer) }
    }

    /// Reads a document: an object with at least one member. An object
    /// without members is `EmptyDocument`. What follows the object is left
    /// unread.
    pub fn parse(&mut self) -> (r: Result<Object, Error>)
        ensures
            outcome_view(r) == document_spec(old(self)@).result,
            final(self)@ == document_spec(old(self)@).rest,
    {
        match self.parse_object() {
            Ok(Object(None)) => Err(Error::EmptyDocument),
            Ok(object) => Ok(object),
            Err(e) => Err(e),
        }
    }

    /// Takes the next token, which has to be `token`.
    pub fn expect_next(&mut self, token: LexerToken) -> (r: Result<(), Error>)
        ensures
            outcome_view(r) == expect_spec(old(self)@, token@).result,
            final(self)@ == expect_spec(old(self)@, token@).rest,
    {
        match self.cursor.next_token() {
            Err(e) => Err(e),
            Ok(None) => Err(Error::UnexpectedEnd { expected: Expected::Token(token) }),
            Ok(Some(got)) => {
                if got == token {
                    Ok(())
                } else {
                    Err(Error::UnexpectedToken { expected: Expected::Token(token), found: got })
                }
            },
        }
    }

    /// Reads a value: a literal, an object or an array.
    pub fn parse_value(&mut self) -> (r: Result<Value, Error>)
        ensures
            outcome_view(r) == value_spec(old(self)@).result,
            final(self)@ == value_spec(old(self)@).rest,
        decreases old(self)@.ahead.len(), 3int,
    {
        let next = self.cursor.peek();
        match next {
            Err(e) => Err(e),
            Ok(Some(LexerToken::Literal(literal))) => {
                let _ = self.cursor.next_token();
                Ok(Value::from(literal))
            },
            Ok(Some(LexerToken::LeftBrace)) => {
                match self.parse_object() {
                    Ok(object) => Ok(Value::Object(object)),
                    Err(e) => Err(e),
                }
            },
            Ok(Some(LexerToken::LeftBracket)) => {
                match self.parse_array() {
                    Ok(array) => Ok(Value::Array(array)),
                    Err(e) => Err(e),
                }
            },
            Ok(Some(found)) => Err(Error::UnexpectedToken { expected: Expected::Value, found }),
            Ok(None) => Err(Error::UnexpectedEnd { expected: Expected::Value }),
        }
    }

    /// Reads an object, from `{` to `}`.
    pub fn parse_object(&mut self) -> (r: Result<Object, Error>)
        ensures
            outcome_view(r) == object_spec(old(self)@).result,
            final(self)@ == object_spec(old(self)@).rest,
        decreases old(self)@.ahead.len(), 2int,
    {
        match self.expect_next(LexerToken::LeftBrace) {
            Err(e) => {
                return Err(e);
            },
            Ok(_) => {},
        }
        let object = match self.cursor.peek() {
            Err(e) => {
                return Err(e);
            },
            Ok(Some(LexerToken::RightBrace)) => Object(None),
            _ => {
                match self.parse_members() {
                    Ok(members) => Object(Some(members)),
                    Err(e) => {
                        return Err(e);
                    },
                }
            },
        };
        match self.expect_next(LexerToken::RightBrace) {
            Err(e) => Err(e),
            Ok(_) => Ok(object),
        }
    }

    /// Reads the members of an object: one, and one more behind each comma.
    pub fn parse_members(&mut self) -> (r: Result<Members, Error>)
        ensures
            outcome_view(r) == members_spec(old(self)@).result,
            final(self)@ == members_spec(old(self)@).rest,
        decreases old(self)@.ahead.len(), 1int,
    {
        let ghost start = self@;
        let mut members: Vec<Member> = Vec::new();
        proof {
            lemma_parse_consumes(start);
        }
        match self.parse_member() {
            Ok(member) => {
                proof {
                    lemma_members_view_push(members@, member);
                }
                members.push(member);
            },
            Err(e) => {
                return Err(e);
            },
        }
        loop
            invariant
                start == old(self)@,
                shorter(self@, start),
                members_spec(start) == members_tail(self@, members_view(members@)),
            ensures
                members_spec(start).result == Ok::<Seq<MemberView>, ErrorView>(
                    members_view(members@),
                ),
                members_spec(start).rest == self@,
            decreases self@.ahead.len(),
        {
            let ghost here = self@;
            match self.cursor.peek() {
                Err(e) => {
                    return Err(e);
                },
                Ok(Some(LexerToken::Comma)) => {
                    let _ = self.cursor.next_token();
                    proof {
                        lemma_parse_consumes(here.advance());
                    }
                    match self.parse_member() {
                        Ok(member) => {
                            proof {
                                lemma_members_view_push(members@, member);
                            }
                            members.push(member);
                        },
                        Err(e) => {
                            return Err(e);
                        },
                    }
                },
                _ => {
                    break ;
                },
            }
        }
        Ok(Members(members))
    }

    /// Reads a member: a string literal as the key, a colon and a value.
    pub fn parse_member(&mut self) -> (r: Result<Member, Error>)
        ensures
            outcome_view(r) == member_spec(old(self)@).result,
            final(self)@ == member_spec(old(self)@).rest,
        decreases old(self)@.ahead.len(), 0int,
    {
        let key = match self.cursor.next_token() {
            Err(e) => {
                return Err(e);
            },
            Ok(None) => {
                return Err(Error::UnexpectedEnd { expected: Expected::Key });
            },
            Ok(Some(LexerToken::Literal(LiteralType::String(literal)))) => literal,
            Ok(Some(found)) => {
                return Err(Error::UnexpectedToken { expected: Expected::Key, found });
            },
        };
        match self.expect_next(LexerToken::Colon) {
            Err(e) => {
                return Err(e);
            },
            Ok(_) => {},
        }
        match self.parse_value() {
            Ok(value) => Ok(Member::new(key, value)),
            Err(e) => Err(e),
        }
    }

    /// Reads an array, from `[` to `]`.
    pub fn parse_array(&mut self) -> (r: Result<Array, Error>)
        ensures
            outcome_view(r) == array_spec(old(self)@).result,
            final(self)@ == array_spec(old(self)@).rest,
        decreases old(self)@.ahead.len(), 2int,
    {
        match self.expect_next(LexerToken::LeftBracket) {
            Err(e) => {
                return Err(e);
            },
            Ok(_) => {},
        }
        let array = match self.cursor.peek() {
            Err(e) => {
                return Err(e);
            },
            Ok(Some(LexerToken::RightBracket)) => Array(None),
            _ => {
                match self.parse_elements() {
                    Ok(elements) => Array(Some(elements)),
                    Err(e) => {
                        return Err(e);
                    },
                }
            },
        };
        match self.expect_next(LexerToken::RightBracket) {
            Err(e) => Err(e),
            Ok(_) => Ok(array),
        }
    }

    /// Reads the elements of an array: one, and one more behind each comma.
    pub fn parse_elements(&mut self) -> (r: Result<Elements, Error>)
        ensures
            outcome_view(r) == elements_spec(old(self)@).result,
            final(self)@ == elements_spec(old(self)@).rest,
        decreases old(self)@.ahead.len(), 5int,
    {
        let ghost start = self@;
        let mut elements: Vec<Element> = Vec::new();
        proof {
            lemma_parse_consumes(start);
        }
        match self.parse_element() {
            Ok(element) => {
                proof {
                    lemma_elements_view_push(elements@, element);
                }
                elements.push(element);
            },
            Err(e) => {
                return Err(e);
            },
        }
        loop
            invariant
                start == old(self)@,
                shorter(self@, start),
                elements_spec(start) == elements_tail(self@, elements_view(elements@)),
            ensures
                elements_spec(start).result == Ok::<Seq<ValueView>, ErrorView>(
                    elements_view(elements@),
                ),
                elements_spec(start).rest == self@,
            decreases self@.ahead.len(),
        {
            let ghost here = self@;
            match self.cursor.peek() {
                Err(e) => {
                    return Err(e);
                },
                Ok(Some(LexerToken::Comma)) => {
                    let _ = self.cursor.next_token();
                    proof {
                        lemma_parse_consumes(here.advance());
                    }
                    match self.parse_element() {
                        Ok(element) => {
                            proof {
                                lemma_elements_view_push(elements@, element);
                            }
                            elements.push(element);
                        },
                        Err(e) => {
                            return Err(e);
                        },
                    }
                },
                _ => {
                    break ;
                },
            }
        }
        Ok(Elements(elements))
    }

    /// Reads an element of an array: a value.
    pub fn parse_element(&mut self) -> (r: Result<Element, Error>)
        ensures
            outcome_view(r) == value_spec(old(self)@).result,
            final(self)@ == value_spec(old(self)@).rest,
        decreases old(self)@.ahead.len(), 4int,
    {
        match self.parse_value() {
            Ok(value) => Ok(Element(value)),
            Err(e) => Err(e),
        }
    }
}

} // verus!
