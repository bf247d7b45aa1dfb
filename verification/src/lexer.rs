//! The scanner: from characters to tokens.

use crate::cursor::Cursor;
use crate::error::{outcome_view, Error, ErrorView};
use crate::scan::{
    after_scans, blank_run, decimal_value, is_blank, is_digit, keyword_tail,
    lemma_decimal_value_grows, lemma_eof_is_final, lemma_run_len, lemma_scan_consumes,
    parse_decimal_spec, scan_integer, scan_keyword, scan_string, scan_token, string_body,
};
use crate::stream::{step_view, token_stream, tokens_view, Lexeme, TokensView};
use crate::token::{LexerToken, LiteralType, TokenView};
use vstd::prelude::*;
use vstd::string::StringExecFns;

verus! {

/// Whether `c` is one of the ten decimal digits.
pub fn is_decimal_digit(c: char) -> (b: bool)
    ensures
        b == is_digit(c),
{
    '0' <= c && c <= '9'
}

/// Reads `text` as a whole number, where all of it is a run of decimal
/// digits and the number fits.
pub fn parse_decimal(text: &str) -> (r: Option<isize>)
    ensures
        r == parse_decimal_spec(text@),
{
    let mut acc: isize = 0;
    let mut any: bool = false;
    for c in it: text.chars()
        invariant
            it.seq() == text@,
            any == (it.index() > 0),
            forall|i: int| 0 <= i < it.index() ==> is_digit(#[trigger] text@[i]),
            acc == decimal_value(text@.take(it.index())),
    {
        let ghost k = it.index();
        assert(text@[k] == c);
        if !('0' <= c && c <= '9') {
            return None;
        }
        let d: isize = (c as u32 - '0' as u32) as isize;
        proof {
            let longer = text@.take(k + 1);
            assert(longer.drop_last() =~= text@.take(k));
            assert(longer.last() == c);
            assert(decimal_value(longer) == acc * 10 + d);
        }
        if acc > (isize::MAX - d) / 10 {
            proof {
                assert(decimal_value(text@.take(k + 1)) > isize::MAX);
                if forall|i: int| 0 <= i < text@.len() ==> is_digit(#[trigger] text@[i]) {
                    lemma_decimal_value_grows(text@, k + 1);
                }
            }
            return None;
        }
        acc = acc * 10 + d;
        any = true;
    }
    assert(text@.take(text@.len() as int) =~= text@);
    if any {
        Some(acc)
    } else {
        None
    }
}

/// Collects characters from `cursor` up to the first at which `f` says
/// stop, or to the end of the text. `f` is given each character with the
/// number of characters collected before it. The character that stops the
/// run stays unconsumed.
pub fn collect_while(cursor: &mut Cursor, f: impl Fn(char, usize) -> bool) -> (collected: String)
    requires
        forall|i: int|
            0 <= i < old(cursor)@.remaining.len() ==> f.requires(
                (#[trigger] old(cursor)@.remaining[i], i as usize),
            ),
    ensures
        ({
            let s = old(cursor)@.remaining;
            let n = collected@.len();
            &&& n <= s.len()
            &&& collected@ == s.take(n as int)
            &&& final(cursor)@ == old(cursor)@.advance(n)
            &&& forall|i: int| 0 <= i < n ==> f.ensures((#[trigger] s[i], i as usize), false)
            &&& n < s.len() ==> f.ensures((s[n as int], n as usize), true)
        }),
{
    let ghost s = cursor@.remaining;
    let start = cursor.position_consumed();
    let mut collected = String::new();
    assert(cursor@.remaining =~= cursor@.advance(0).remaining);
    assert(cursor@.consumed =~= cursor@.advance(0).consumed);
    assert(collected@ =~= s.take(0));
    loop
        invariant
            s == old(cursor)@.remaining,
            start == old(cursor)@.consumed.len(),
            collected@.len() <= s.len(),
            collected@ == s.take(collected@.len() as int),
            cursor@ == old(cursor)@.advance(collected@.len()),
            forall|i: int| 0 <= i < s.len() ==> f.requires((#[trigger] s[i], i as usize)),
            forall|i: int|
                0 <= i < collected@.len() ==> f.ensures((#[trigger] s[i], i as usize), false),
        ensures
            collected@.len() <= s.len(),
            collected@ == s.take(collected@.len() as int),
            cursor@ == old(cursor)@.advance(collected@.len()),
            forall|i: int|
                0 <= i < collected@.len() ==> f.ensures((#[trigger] s[i], i as usize), false),
            collected@.len() < s.len() ==> f.ensures(
                (s[collected@.len() as int], collected@.len() as usize),
                true,
            ),
        decreases s.len() - collected@.len(),
    {
        let ghost n = collected@.len();
        match cursor.peek() {
            None => {
                break ;
            },
            Some(c) => {
                assert(c == s[n as int]);
                let pos = cursor.position_consumed() - start;
                if f(c, pos) {
                    break ;
                }
                collected.push(c);
                cursor.next_char();
                proof {
                    let before = old(cursor)@;
                    assert(collected@ =~= s.take(n as int + 1));
                    assert(cursor@.remaining =~= before.advance(n + 1).remaining);
                    assert(cursor@.consumed =~= before.advance(n + 1).consumed);
                }
            },
        }
    }
    collected
}

/// The scanner. It hands out the tokens of a text one at a time, from the
/// start to the end, and `Eof` from then on.
#[derive(Debug)]
pub struct Lexer {
    cursor: Cursor,
}

impl View for Lexer {
    type V = Seq<char>;

    /// The text that has not been scanned yet.
    closed spec fn view(&self) -> Seq<char> {
        self.cursor@.remaining
    }
}

impl Clone for Lexer {
    /// A scanner at the same place in the same text, which moves
    /// independently of this one.
    fn clone(&self) -> (r: Self)
        ensures
            r == *self,
    {
        Lexer { cursor: self.cursor.clone() }
    }
}

impl Lexer {
    /// A scanner at the start of `slice`.
    pub fn new(slice: &str) -> (lexer: Lexer)
        ensures
            lexer@ == slice@,
    {
        Lexer { cursor: Cursor::new(slice) }
    }

    /// Whether `c` is a character that is skipped between tokens.
    pub fn is_whitespace(c: Option<char>) -> (b: bool)
        ensures
            b == (c matches Some(ch) && is_blank(ch)),
    {
        match c {
            Some(c) => c.is_whitespace() || c == '\n' || c == '\r',
            None => false,
        }
    }

    /// Skips the blank characters at the start of the text.
    pub fn eat_whitespace(&mut self)
        ensures
            final(self)@ == old(self)@.skip(blank_run(old(self)@) as int),
    {
        let ghost s = self@;
        self.cursor.eat_while(Self::is_whitespace);
        proof {
            let n = s.len() - self@.len();
            assert forall|i: int| 0 <= i < n implies is_blank(#[trigger] s[i]) by {
                assert(call_ensures(Self::is_whitespace, (Some(s[i]),), true));
            }
            if n < s.len() {
                assert(call_ensures(Self::is_whitespace, (Some(s[n]),), false));
            }
            lemma_run_len(s, |c: char| is_blank(c), n);
        }
    }

    /// Scans the string literal whose opening quote has just been consumed.
    fn string_literal(&mut self) -> (r: Result<LexerToken, Error>)
        ensures
            outcome_view(r) == scan_string(old(self)@).token,
            final(self)@ == scan_string(old(self)@).rest,
    {
        let ghost s = self@;
        let mut collected = String::new();
        assert(seq![] + Seq::<char>::empty() =~= Seq::<char>::empty());
        loop
            invariant
                s == old(self)@,
                string_body(s) == (match string_body(self@) {
                    Some((text, rest)) => Some((collected@ + text, rest)),
                    None => None,
                }),
            decreases self@.len(),
        {
            let ghost cur = self@;
            let ghost so_far = collected@;
            match self.cursor.next_char() {
                None => {
                    assert(self@ =~= Seq::<char>::empty());
                    return Err(Error::UnterminatedLiteral);
                },
                Some('"') => {
                    assert(so_far + Seq::<char>::empty() =~= so_far);
                    return Ok(LexerToken::Literal(LiteralType::String(collected)));
                },
                Some('\\') => {
                    match self.cursor.next_char() {
                        None => {
                            assert(cur.skip(1).len() == 0);
                            assert(self@ =~= Seq::<char>::empty());
                            return Err(Error::UnterminatedLiteral);
                        },
                        Some(escaped) => {
                            collected.push(escaped);
                            proof {
                                assert(self@ =~= cur.skip(2));
                                assert(escaped == cur[1]);
                                match string_body(self@) {
                                    Some((text, rest)) => {
                                        assert(so_far.push(escaped) + text =~= so_far + (
                                        seq![escaped] + text));
                                    },
                                    None => {},
                                }
                            }
                        },
                    }
                },
                Some(c) => {
                    collected.push(c);
                    proof {
                        match string_body(self@) {
                            Some((text, rest)) => {
                                assert(so_far.push(c) + text =~= so_far + (seq![c] + text));
                            },
                            None => {},
                        }
                    }
                },
            }
        }
    }

    /// Scans the number whose first digit `first` has just been consumed.
    fn integer_literal(&mut self, first: char) -> (r: Result<LexerToken, Error>)
        requires
            is_digit(first),
        ensures
            outcome_view(r) == scan_integer(first, old(self)@).token,
            final(self)@ == scan_integer(first, old(self)@).rest,
    {
        let ghost s = self@;
        let stop = |c: char, at: usize| -> (b: bool)
            ensures
                b == !is_digit(c),
            { !is_decimal_digit(c) };
        let rest = collect_while(&mut self.cursor, stop);
        let mut text = String::new();
        text.push(first);
        text.append(rest.as_str());
        proof {
            let n = rest@.len() as int;
            assert forall|i: int| 0 <= i < n implies is_digit(#[trigger] s[i]) by {
                assert(stop.ensures((s[i], i as usize), false));
            }
            if n < s.len() {
                assert(stop.ensures((s[n], n as usize), true));
            }
            lemma_run_len(s, |c: char| is_digit(c), n);
            assert(text@ =~= seq![first] + s.take(n));
        }
        match parse_decimal(text.as_str()) {
            Some(value) => Ok(LexerToken::Literal(LiteralType::Integer(value))),
            None => Err(Error::MalformedNumber),
        }
    }

    /// Scans the keyword whose first letter has just been consumed.
    fn keyword(&mut self) -> (r: Result<LexerToken, Error>)
        ensures
            outcome_view(r) == scan_keyword(old(self)@).token,
            final(self)@ == scan_keyword(old(self)@).rest,
    {
        proof {
            reveal_strlit("ull");
            assert("ull"@ =~= keyword_tail());
        }
        if self.cursor.is_match("ull") {
            Ok(LexerToken::Literal(LiteralType::Null))
        } else {
            Err(Error::UnknownKeyword)
        }
    }

    /// Scans the next token and moves past it. Once the text is used up the
    /// token is `Eof`, on this call and on every later one.
    ///
    /// After an error the scanner stands behind the characters that the
    /// failed scan used up.
    pub fn next_token(&mut self) -> (r: Result<LexerToken, Error>)
        ensures
            outcome_view(r) == scan_token(old(self)@).token,
            final(self)@ == scan_token(old(self)@).rest,
    {
        self.eat_whitespace();
        if self.cursor.is_eof() {
            return Ok(LexerToken::Eof);
        }
        let next_char = self.cursor.next_char();
        match next_char {
            Some('{') => Ok(LexerToken::LeftBrace),
            Some('}') => Ok(LexerToken::RightBrace),
            Some('[') => Ok(LexerToken::LeftBracket),
            Some(']') => Ok(LexerToken::RightBracket),
            Some(':') => Ok(LexerToken::Colon),
            Some(',') => Ok(LexerToken::Comma),
            Some('"') => self.string_literal(),
            Some(c) => {
                if is_decimal_digit(c) {
                    self.integer_literal(c)
                } else if c.is_alphabetic() {
                    self.keyword()
                } else {
                    Ok(LexerToken::Illegal)
                }
            },
            None => Ok(LexerToken::Illegal),
        }
    }

    /// The tokens of the text that has not been scanned yet.
    pub fn into_iter(self) -> (tokens: IntoIter)
        ensures
            tokens@ == (TokensView { ahead: token_stream(self@), eof: false }),
    {
        IntoIter { lexer: self, eof: false }
    }
}

/// The tokens of a text, scanned one by one as they are asked for. The end
/// of the text ends the tokens, and a mark records that this end has been
/// met.
#[derive(Debug)]
pub struct IntoIter {
    lexer: Lexer,
    eof: bool,
}

impl View for IntoIter {
    type V = TokensView;

    closed spec fn view(&self) -> TokensView {
        TokensView { ahead: token_stream(self.lexer@), eof: self.eof }
    }
}

impl Clone for IntoIter {
    /// The same tokens from the same place, read independently of this
    /// sequence.
    fn clone(&self) -> (r: Self)
        ensures
            r == *self,
    {
        IntoIter { lexer: self.lexer.clone(), eof: self.eof }
    }
}

impl IntoIter {
    /// Whether the end of the tokens has been met: whether a call of `next`
    /// has returned `None`.
    pub fn eof(&self) -> (b: bool)
        ensures
            b == self@.eof,
    {
        self.eof
    }

    /// Takes the next token. At the end of the text the result is `None`,
    /// and the mark is set.
    pub fn next(&mut self) -> (r: Result<Option<LexerToken>, Error>)
        ensures
            step_view(r) == old(self)@.next(),
            final(self)@ == old(self)@.advance(),
    {
        let ghost s = self.lexer@;
        proof {
            lemma_scan_consumes(s);
        }
        match self.lexer.next_token() {
            Ok(LexerToken::Eof) => {
                self.eof = true;
                proof {
                    lemma_eof_is_final(s, 1);
                    assert(after_scans(s, 1) == scan_token(s).rest);
                    assert(token_stream(self.lexer@) =~= Seq::<Lexeme>::empty());
                }
                Ok(None)
            },
            Ok(token) => {
                assert(token_stream(s).skip(1) =~= token_stream(self.lexer@));
                Ok(Some(token))
            },
            Err(e) => {
                assert(token_stream(s).skip(1) =~= token_stream(self.lexer@));
                Err(e)
            },
        }
    }

    /// Takes all the tokens that are left, up to the end of the text or to
    /// the first scan that fails.
    pub fn collect(&mut self) -> (r: Result<Vec<LexerToken>, Error>)
        ensures
            (match r {
                Ok(tokens) => Ok(tokens_view(tokens@)),
                Err(e) => Err(e@),
            }) == old(self)@.collect(),
            final(self)@ == old(self)@.drain(),
    {
        let ghost start = self@;
        let mut tokens: Vec<LexerToken> = Vec::new();
        assert(start.ahead.skip(0) =~= start.ahead);
        loop
            invariant
                start == old(self)@,
                tokens@.len() <= start.ahead.len(),
                self@.ahead == start.ahead.skip(tokens@.len() as int),
                self@.eof == start.eof,
                forall|i: int|
                    0 <= i < tokens@.len() ==> start.ahead[i] == Ok::<TokenView, ErrorView>(
                        #[trigger] tokens@[i]@,
                    ),
                start.sound_run() == tokens@.len() + self@.sound_run(),
            decreases start.ahead.len() - tokens@.len(),
        {
            let ghost here = self@;
            let ghost n = tokens@.len() as int;
            match self.next() {
                Ok(None) => {
                    proof {
                        assert(here.sound_run() == 0);
                        assert(tokens_view(tokens@) =~= Seq::new(
                            start.ahead.len(),
                            |i: int| start.ahead[i]->Ok_0,
                        ));
                        assert(self@.ahead =~= Seq::<Lexeme>::empty());
                    }
                    return Ok(tokens);
                },
                Ok(Some(token)) => {
                    tokens.push(token);
                    proof {
                        assert(here.ahead[0] == start.ahead[n]);
                        assert(self@.ahead =~= start.ahead.skip(n + 1));
                        assert(self@ == (TokensView { ahead: here.ahead.skip(1), eof: here.eof }));
                    }
                },
                Err(e) => {
                    proof {
                        assert(here.ahead[0] == start.ahead[n]);
                        assert(here.sound_run() == 0);
                        assert(self@.ahead =~= start.ahead.skip(n + 1));
                    }
                    return Err(e);
                },
            }
        }
    }
}

} // verus!
