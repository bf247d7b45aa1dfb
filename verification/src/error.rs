//! The conditions that end a scan or a parse.

use crate::token::{token_text, LexerToken, TokenView};
use vstd::prelude::*;
use vstd::std_specs::cmp::PartialEqSpecImpl;
use vstd::string::StringExecFns;

verus! {

/// What the grammar asked for at the place where a parse stopped.
#[derive(Debug)]
pub enum Expected {
    /// This very token.
    Token(LexerToken),
    /// A string literal, as the key of a member.
    Key,
    /// The first token of a value: a literal, `{` or `[`.
    Value,
}

/// What an [`Expected`] stands for in specifications.
pub ghost enum ExpectedView {
    Token(TokenView),
    Key,
    Value,
}

impl View for Expected {
    type V = ExpectedView;

    open spec fn view(&self) -> ExpectedView {
        match *self {
            Expected::Token(t) => ExpectedView::Token(t@),
            Expected::Key => ExpectedView::Key,
            Expected::Value => ExpectedView::Value,
        }
    }
}

impl Clone for Expected {
    fn clone(&self) -> (r: Self)
        ensures
            r == *self,
    {
        match self {
            Expected::Token(t) => Expected::Token(t.clone()),
            Expected::Key => Expected::Key,
            Expected::Value => Expected::Value,
        }
    }
}

impl PartialEq for Expected {
    fn eq(&self, other: &Self) -> (r: bool) {
        match (self, other) {
            (Expected::Token(a), Expected::Token(b)) => *a == *b,
            (Expected::Key, Expected::Key) => true,
            (Expected::Value, Expected::Value) => true,
            _ => false,
        }
    }
}

impl PartialEqSpecImpl for Expected {
    open spec fn obeys_eq_spec() -> bool {
        true
    }

    open spec fn eq_spec(&self, other: &Self) -> bool {
        self@ == other@
    }
}

/// Why a scan or a parse stopped. Every one of these is final: nothing is
/// recovered and no partial result is handed out.
#[derive(Debug)]
pub enum Error {
    /// The text ended inside a string literal, before its closing quote or
    /// right after a backslash.
    UnterminatedLiteral,
    /// A run of digits stands for a number too large to hold.
    MalformedNumber,
    /// A letter starts something other than the keyword `null`.
    UnknownKeyword,
    /// A token stands where the grammar does not allow it.
    UnexpectedToken { expected: Expected, found: LexerToken },
    /// The tokens ended where the grammar still asked for one.
    UnexpectedEnd { expected: Expected },
    /// The outermost object has no members.
    EmptyDocument,
}

/// What an [`Error`] stands for in specifications.
pub ghost enum ErrorView {
    UnterminatedLiteral,
    MalformedNumber,
    UnknownKeyword,
    UnexpectedToken { expected: ExpectedView, found: TokenView },
    UnexpectedEnd { expected: ExpectedView },
    EmptyDocument,
}

impl View for Error {
    type V = ErrorView;

    open spec fn view(&self) -> ErrorView {
        match *self {
            Error::UnterminatedLiteral => ErrorView::UnterminatedLiteral,
            Error::MalformedNumber => ErrorView::MalformedNumber,
            Error::UnknownKeyword => ErrorView::UnknownKeyword,
            Error::UnexpectedToken { expected, found } => ErrorView::UnexpectedToken {
                expected: expected@,
                found: found@,
            },
            Error::UnexpectedEnd { expected } => ErrorView::UnexpectedEnd { expected: expected@ },
            Error::EmptyDocument => ErrorView::EmptyDocument,
        }
    }
}

impl Clone for Error {
    fn clone(&self) -> (r: Self)
        ensures
            r == *self,
    {
        match self {
            Error::UnterminatedLiteral => Error::UnterminatedLiteral,
            Error::MalformedNumber => Error::MalformedNumber,
            Error::UnknownKeyword => Error::UnknownKeyword,
            Error::UnexpectedToken { expected, found } => Error::UnexpectedToken {
                expected: expected.clone(),
                found: found.clone(),
            },
            Error::UnexpectedEnd { expected } => Error::UnexpectedEnd {
                expected: expected.clone(),
            },
            Error::EmptyDocument => Error::EmptyDocument,
        }
    }
}

impl PartialEq for Error {
    /// Two errors are equal when they are of the same kind and name the same
    /// tokens.
    fn eq(&self, other: &Self) -> (r: bool) {
        match (self, other) {
            (Error::UnterminatedLiteral, Error::UnterminatedLiteral) => true,
            (Error::MalformedNumber, Error::MalformedNumber) => true,
            (Error::UnknownKeyword, Error::UnknownKeyword) => true,
            (
                Error::UnexpectedToken { expected: a, found: x },
                Error::UnexpectedToken { expected: b, found: y },
            ) => *a == *b && *x == *y,
            (Error::UnexpectedEnd { expected: a }, Error::UnexpectedEnd { expected: b }) => *a
                == *b,
            (Error::EmptyDocument, Error::EmptyDocument) => true,
            _ => false,
        }
    }
}

impl PartialEqSpecImpl for Error {
    open spec fn obeys_eq_spec() -> bool {
        true
    }

    open spec fn eq_spec(&self, other: &Self) -> bool {
        self@ == other@
    }
}

/// What the outcome of a fallible step stands for in specifications: the
/// view of the value it produced, or the view of the error that ended it.
pub open spec fn outcome_view<T: View>(r: Result<T, Error>) -> Result<T::V, ErrorView> {
    match r {
        Ok(t) => Ok(t@),
        Err(e) => Err(e@),
    }
}

/// The message that an error is reported with. It names the condition and,
/// where a token was asked for or met, that token.
pub open spec fn error_text(error: ErrorView) -> Seq<char> {
    match error {
        ErrorView::UnterminatedLiteral => "Unterminated string literal"@,
        ErrorView::MalformedNumber => "Malformed number"@,
        ErrorView::UnknownKeyword => "Unknown keyword"@,
        ErrorView::UnexpectedToken { expected: ExpectedView::Token(token), found } => "Expected "@
            + token_text(token) + ", got "@ + token_text(found),
        ErrorView::UnexpectedToken { expected: ExpectedView::Key, found } =>
            "Expected string literal as key, got "@ + token_text(found),
        ErrorView::UnexpectedToken { expected: ExpectedView::Value, found } => "Unexpected token "@
            + token_text(found),
        ErrorView::UnexpectedEnd { expected: ExpectedView::Token(token) } => "Expected "@
            + token_text(token) + ", got the end of the input"@,
        ErrorView::UnexpectedEnd { expected: ExpectedView::Key } =>
            "Expected string literal as key, got the end of the input"@,
        ErrorView::UnexpectedEnd { expected: ExpectedView::Value } => "Value expected"@,
        ErrorView::EmptyDocument => "Empty document"@,
    }
}

impl Error {
    /// The message that this error is reported with.
    pub fn to_string(&self) -> (text: String)
        ensures
            text@ == error_text(self@),
    {
        match self {
            Error::UnterminatedLiteral => "Unterminated string literal".to_string(),
            Error::MalformedNumber => "Malformed number".to_string(),
            Error::UnknownKeyword => "Unknown keyword".to_string(),
            Error::UnexpectedToken { expected: Expected::Token(token), found } => {
                let mut text = "Expected ".to_string();
                text.append(token.to_string().as_str());
                text.append(", got ");
                text.append(found.to_string().as_str());
                text
            },
            Error::UnexpectedToken { expected: Expected::Key, found } => {
                let mut text = "Expected string literal as key, got ".to_string();
                text.append(found.to_string().as_str());
                text
            },
            Error::UnexpectedToken { expected: Expected::Value, found } => {
                let mut text = "Unexpected token ".to_string();
                text.append(found.to_string().as_str());
                text
            },
            Error::UnexpectedEnd { expected: Expected::Token(token) } => {
                let mut text = "Expected ".to_string();
                text.append(token.to_string().as_str());
                text.append(", got the end of the input");
                text
            },
            Error::UnexpectedEnd { expected: Expected::Key } =>
                "Expected string literal as key, got the end of the input".to_string(),
            Error::UnexpectedEnd { expected: Expected::Value } => "Value expected".to_string(),
            Error::EmptyDocument => "Empty document".to_string(),
        }
    }
}

} // verus!
