//! Tokens and the literals they carry.

use vstd::prelude::*;
use vstd::string::StringExecFns;
use vstd::std_specs::cmp::PartialEqSpecImpl;

verus! {

/// The payload of a literal token.
#[derive(Debug)]
pub enum LiteralType {
    /// Text between double quotes, with every escape already resolved.
    String(String),
    /// A whole number written as a run of decimal digits.
    Integer(isize),
    /// The keyword `null`.
    Null,
}

/// What a [`LiteralType`] stands for in specifications.
pub ghost enum LiteralView {
    String(Seq<char>),
    Integer(int),
    Null,
}

impl View for LiteralType {
    type V = LiteralView;

    open spec fn view(&self) -> LiteralView {
        match *self {
            LiteralType::String(s) => LiteralView::String(s@),
            LiteralType::Integer(i) => LiteralView::Integer(i as int),
            LiteralType::Null => LiteralView::Null,
        }
    }
}

impl Clone for LiteralType {
    fn clone(&self) -> (r: Self)
        ensures
            r == *self,
    {
        match self {
            LiteralType::String(s) => LiteralType::String(s.clone()),
            LiteralType::Integer(i) => LiteralType::Integer(*i),
            LiteralType::Null => LiteralType::Null,
        }
    }
}

impl PartialEq for LiteralType {
    /// Two literals are equal when they are of the same kind and carry the
    /// same text or number.
    fn eq(&self, other: &Self) -> (r: bool) {
        match (self, other) {
            (LiteralType::String(a), LiteralType::String(b)) => *a == *b,
            (LiteralType::Integer(a), LiteralType::Integer(b)) => *a == *b,
            (LiteralType::Null, LiteralType::Null) => true,
            _ => false,
        }
    }
}

impl PartialEqSpecImpl for LiteralType {
    open spec fn obeys_eq_spec() -> bool {
        true
    }

    open spec fn eq_spec(&self, other: &Self) -> bool {
        self@ == other@
    }
}

/// One lexical unit of the input.
#[derive(Debug)]
pub enum LexerToken {
    /// The input is exhausted.
    Eof,
    LeftBrace,
    RightBrace,
    LeftBracket,
    RightBracket,
    Colon,
    Comma,
    /// A scanned primitive.
    Literal(LiteralType),
    /// A character that starts no token.
    Illegal,
}

/// What a [`LexerToken`] stands for in specifications.
pub ghost enum TokenView {
    Eof,
    LeftBrace,
    RightBrace,
    LeftBracket,
    RightBracket,
    Colon,
    Comma,
    Literal(LiteralView),
    Illegal,
}

impl View for LexerToken {
    type V = TokenView;

    open spec fn view(&self) -> TokenView {
        match *self {
            LexerToken::Eof => TokenView::Eof,
            LexerToken::LeftBrace => TokenView::LeftBrace,
            LexerToken::RightBrace => TokenView::RightBrace,
            LexerToken::LeftBracket => TokenView::LeftBracket,
            LexerToken::RightBracket => TokenView::RightBracket,
            LexerToken::Colon => TokenView::Colon,
            LexerToken::Comma => TokenView::Comma,
            LexerToken::Literal(l) => TokenView::Literal(l@),
            LexerToken::Illegal => TokenView::Illegal,
        }
    }
}

impl Clone for LexerToken {
    fn clone(&self) -> (r: Self)
        ensures
            r == *self,
    {
        match self {
            LexerToken::Eof => LexerToken::Eof,
            LexerToken::LeftBrace => LexerToken::LeftBrace,
            LexerToken::RightBrace => LexerToken::RightBrace,
            LexerToken::LeftBracket => LexerToken::LeftBracket,
            LexerToken::RightBracket => LexerToken::RightBracket,
            LexerToken::Colon => LexerToken::Colon,
            LexerToken::Comma => LexerToken::Comma,
            LexerToken::Literal(l) => LexerToken::Literal(l.clone()),
            LexerToken::Illegal => LexerToken::Illegal,
        }
    }
}

impl PartialEq for LexerToken {
    /// Two tokens are equal when they are of the same kind and, for literals,
    /// carry equal payloads.
    fn eq(&self, other: &Self) -> (r: bool) {
        match (self, other) {
            (LexerToken::Eof, LexerToken::Eof) => true,
            (LexerToken::LeftBrace, LexerToken::LeftBrace) => true,
            (LexerToken::RightBrace, LexerToken::RightBrace) => true,
            (LexerToken::LeftBracket, LexerToken::LeftBracket) => true,
            (LexerToken::RightBracket, LexerToken::RightBracket) => true,
            (LexerToken::Colon, LexerToken::Colon) => true,
            (LexerToken::Comma, LexerToken::Comma) => true,
            (LexerToken::Literal(a), LexerToken::Literal(b)) => a == b,
            (LexerToken::Illegal, LexerToken::Illegal) => true,
            _ => false,
        }
    }
}

impl PartialEqSpecImpl for LexerToken {
    open spec fn obeys_eq_spec() -> bool {
        true
    }

    open spec fn eq_spec(&self, other: &Self) -> bool {
        self@ == other@
    }
}

/// The character that stands for the digit `d`.
pub open spec fn digit_char(d: int) -> char
    recommends
        0 <= d < 10,
{
    ('0' as int + d) as char
}

/// The decimal digits of `n`, most significant first, without leading zeros.
pub open spec fn decimal_digits(n: nat) -> Seq<char>
    decreases n,
{
    if n < 10 {
        seq![digit_char(n as int)]
    } else {
        decimal_digits(n / 10).push(digit_char((n % 10) as int))
    }
}

/// The decimal text of `i`, with a minus sign where it is negative.
pub open spec fn decimal_text(i: int) -> Seq<char> {
    if i < 0 {
        seq!['-'] + decimal_digits((-i) as nat)
    } else {
        decimal_digits(i as nat)
    }
}

/// The text that a literal is shown as: its kind, a colon and its value.
pub open spec fn literal_text(literal: LiteralView) -> Seq<char> {
    match literal {
        LiteralView::String(s) => "String: "@ + s,
        LiteralView::Integer(i) => "Integer: "@ + decimal_text(i),
        LiteralView::Null => "Null"@,
    }
}

/// The text that a token is shown as: punctuation as its character, a
/// literal as its kind and value, and the two other tokens in words.
pub open spec fn token_text(token: TokenView) -> Seq<char> {
    match token {
        TokenView::Eof => "EOF"@,
        TokenView::LeftBrace => "{"@,
        TokenView::RightBrace => "}"@,
        TokenView::LeftBracket => "["@,
        TokenView::RightBracket => "]"@,
        TokenView::Colon => ":"@,
        TokenView::Comma => ","@,
        TokenView::Literal(literal) => literal_text(literal),
        TokenView::Illegal => "(illegal character)"@,
    }
}

/// Appends the decimal digits of `n` to `out`.
fn push_decimal_digits(out: &mut String, n: u128)
    ensures
        final(out)@ == old(out)@ + decimal_digits(n as nat),
    decreases n,
{
    if n >= 10 {
        push_decimal_digits(out, n / 10);
    }
    let d: u8 = (n % 10) as u8;
    let c: char = (48u8 + d) as char;
    assert(c == digit_char((n % 10) as int));
    out.push(c);
    assert(out@ =~= old(out)@ + decimal_digits(n as nat));
}

impl LiteralType {
    /// The text that this literal is shown as in messages.
    pub fn to_string(&self) -> (text: String)
        ensures
            text@ == literal_text(self@),
    {
        match self {
            LiteralType::String(s) => {
                let mut text = "String: ".to_string();
                text.append(s.as_str());
                text
            },
            LiteralType::Integer(i) => {
                let mut text = "Integer: ".to_string();
                let wide: i128 = *i as i128;
                if wide < 0 {
                    text.push('-');
                    push_decimal_digits(&mut text, (-wide) as u128);
                    assert(text@ =~= "Integer: "@ + decimal_text(*i as int));
                } else {
                    push_decimal_digits(&mut text, wide as u128);
                }
                text
            },
            LiteralType::Null => "Null".to_string(),
        }
    }
}

impl LexerToken {
    /// The text that this token is shown as in messages.
    pub fn to_string(&self) -> (text: String)
        ensures
            text@ == token_text(self@),
    {
        match self {
            LexerToken::Eof => "EOF".to_string(),
            LexerToken::LeftBrace => "{".to_string(),
            LexerToken::RightBrace => "}".to_string(),
            LexerToken::LeftBracket => "[".to_string(),
            LexerToken::RightBracket => "]".to_string(),
            LexerToken::Colon => ":".to_string(),
            LexerToken::Comma => ",".to_string(),
            LexerToken::Literal(literal) => literal.to_string(),
            LexerToken::Illegal => "(illegal character)".to_string(),
        }
    }
}

} // verus!
