//! Lookahead over the tokens of a text.

use crate::error::Error;
use crate::lexer::{IntoIter, Lexer};
use crate::stream::{step_view, token_stream, TokensView};
use crate::token::LexerToken;
use vstd::prelude::*;

verus! {

/// A reader of tokens that can look ahead without consuming. What it sees
/// ahead is what it hands out later: looking never moves it.
#[derive(Debug)]
pub struct TokenCursor {
    tokens: IntoIter,
}

impl View for TokenCursor {
    type V = TokensView;

    closed spec fn view(&self) -> TokensView {
        self.tokens@
    }
}

impl TokenCursor {
    /// A reader at the first token that `lexer` has not scanned yet.
    pub fn new(lexer: Lexer) -> (cursor: TokenCursor)
        ensures
            cursor@ == (TokensView { ahead: token_stream(lexer@), eof: false }),
    {
        TokenCursor { tokens: lexer.into_iter() }
    }

    /// Whether the end of the tokens has been taken.
    pub fn is_eof(&self) -> (b: bool)
        ensures
            b == self@.eof,
    {
        self.tokens.eof()
    }

    /// The next token, which stays where it is.
    pub fn peek(&self) -> (r: Result<Option<LexerToken>, Error>)
        ensures
            step_view(r) == self@.peek(),
    {
        let mut ahead = self.tokens.clone();
        ahead.next()
    }

    /// The token `n` places ahead of the next one, which stays where it is.
    /// A scan that fails on the way there ends the look.
    pub fn peek_nth(&self, n: usize) -> (r: Result<Option<LexerToken>, Error>)
        ensures
            step_view(r) == self@.peek_nth(n as nat),
    {
        let mut ahead = self.tokens.clone();
        let mut left = n;
        while left > 0
            invariant
                ahead@.peek_nth(left as nat) == self@.peek_nth(n as nat),
            decreases left,
        {
            match ahead.next() {
                Ok(Some(_)) => {},
                Ok(None) => {
                    return Ok(None);
                },
                Err(e) => {
                    return Err(e);
                },
            }
            left = left - 1;
        }
        ahead.next()
    }

    /// Takes the next token. Once the tokens have ended the result is `None`.
    pub fn next_token(&mut self) -> (r: Result<Option<LexerToken>, Error>)
        ensures
            step_view(r) == old(self)@.next(),
            final(self)@ == old(self)@.advance(),
    {
        self.tokens.next()
    }
}

} // verus!
