//! The tokens of a text as a sequence, and what reading that sequence one
//! token at a time gives.

use crate::cursor::first_of;
use crate::error::{Error, ErrorView};
use crate::scan::{lemma_scan_consumes, scan_token};
use crate::token::{LexerToken, TokenView};
use vstd::prelude::*;

verus! {

/// One item of the sequence of tokens that a text stands for: a token other
/// than `Eof`, or the error that a scan ended with.
pub type Lexeme = Result<TokenView, ErrorView>;

/// The tokens that scanning `s` to its end gives, in order, with an error in
/// the place of each scan that fails. The `Eof` that ends them is left out.
pub open spec fn token_stream(s: Seq<char>) -> Seq<Lexeme>
    decreases s.len(),
    via token_stream_decreases
{
    let scan = scan_token(s);
    if scan.token == Ok::<TokenView, ErrorView>(TokenView::Eof) {
        Seq::empty()
    } else {
        seq![scan.token] + token_stream(scan.rest)
    }
}

#[via_fn]
proof fn token_stream_decreases(s: Seq<char>) {
    lemma_scan_consumes(s);
}

/// What one step over a sequence of tokens gives: a token, `None` at the end
/// of the sequence, or the error of a scan that failed.
pub type Step = Result<Option<TokenView>, ErrorView>;

/// What the result of one step over the tokens stands for in specifications.
pub open spec fn step_view(r: Result<Option<LexerToken>, Error>) -> Step {
    match r {
        Ok(Some(t)) => Ok(Some(t@)),
        Ok(None) => Ok(None),
        Err(e) => Err(e@),
    }
}

/// What a sequence of tokens that is read one by one stands for in
/// specifications.
pub ghost struct TokensView {
    /// The tokens that have not been handed out yet, next first.
    pub ahead: Seq<Lexeme>,
    /// Whether the end of the tokens has been handed out.
    pub eof: bool,
}

impl TokensView {
    /// What looking `n` tokens ahead gives: the error of the first failed
    /// scan among the next `n + 1`, if there is one; else the token `n`
    /// places ahead of the next, or `None` where the tokens end before it.
    pub open spec fn peek_nth(self, n: nat) -> Step
        decreases n,
    {
        if self.ahead.len() == 0 {
            Ok(None)
        } else {
            match self.ahead[0] {
                Err(e) => Err(e),
                Ok(t) => if n == 0 {
                    Ok(Some(t))
                } else {
                    (TokensView { ahead: self.ahead.skip(1), eof: self.eof }).peek_nth(
                        (n - 1) as nat,
                    )
                },
            }
        }
    }

    /// What looking at the next token gives.
    pub open spec fn peek(self) -> Step {
        self.peek_nth(0)
    }

    /// What taking the next token gives.
    pub open spec fn next(self) -> Step {
        match first_of(self.ahead) {
            None => Ok(None),
            Some(Ok(t)) => Ok(Some(t)),
            Some(Err(e)) => Err(e),
        }
    }

    /// The tokens after the next one has been taken. Taking the end of the
    /// tokens sets the mark and changes nothing else.
    pub open spec fn advance(self) -> TokensView {
        if self.ahead.len() == 0 {
            TokensView { ahead: self.ahead, eof: true }
        } else {
            TokensView { ahead: self.ahead.skip(1), eof: self.eof }
        }
    }

    /// The number of tokens ahead up to the first scan that fails, or up to
    /// the end where none fails.
    pub open spec fn sound_run(self) -> nat
        decreases self.ahead.len(),
    {
        if self.ahead.len() > 0 && self.ahead[0] is Ok {
            1 + (TokensView { ahead: self.ahead.skip(1), eof: self.eof }).sound_run()
        } else {
            0
        }
    }

    /// What taking all the tokens that are left gives: the tokens, or the
    /// error of the first scan that fails.
    pub open spec fn collect(self) -> Result<Seq<TokenView>, ErrorView> {
        let n = self.sound_run() as int;
        if n == self.ahead.len() {
            Ok(Seq::new(self.ahead.len(), |i: int| self.ahead[i]->Ok_0))
        } else {
            Err(self.ahead[n]->Err_0)
        }
    }

    /// The tokens after all that are left have been taken: none and the mark
    /// set, or those behind the first scan that fails.
    pub open spec fn drain(self) -> TokensView {
        let n = self.sound_run() as int;
        if n == self.ahead.len() {
            TokensView { ahead: Seq::empty(), eof: true }
        } else {
            TokensView { ahead: self.ahead.skip(n + 1), eof: self.eof }
        }
    }

    /// What a look at the next token sees is what is taken after it; and as a
    /// look leaves the tokens as they are, every look before that sees the
    /// same.
    pub proof fn lemma_peek_then_next(self)
        ensures
            self.peek() == self.next(),
            self.peek_nth(0) == self.next(),
    {
    }

    /// Once the end of the tokens has been taken, it is all that is ever
    /// taken again.
    pub proof fn lemma_end_is_final(self)
        requires
            self.next() == Ok::<Option<TokenView>, ErrorView>(None),
        ensures
            self.advance().next() == Ok::<Option<TokenView>, ErrorView>(None),
            self.advance().advance() == self.advance(),
    {
    }
}

/// The views of `tokens`, in order.
pub open spec fn tokens_view(tokens: Seq<LexerToken>) -> Seq<TokenView> {
    Seq::new(tokens.len(), |i: int| tokens[i]@)
}

} // verus!
