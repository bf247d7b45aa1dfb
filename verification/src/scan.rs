//! What scanning means: the token that stands at the start of a text, and
//! the text that is left behind it.

use crate::cursor::{lemma_matched_len_bounds, matched_len};
use crate::error::ErrorView;
use crate::token::{LiteralView, TokenView};
use crate::assumed::{unicode_alphabetic, unicode_whitespace};
use vstd::prelude::*;

verus! {

/// Whether `c` is one of the ten decimal digits.
pub open spec fn is_digit(c: char) -> bool {
    '0' <= c && c <= '9'
}

/// Whether `c` is white space. An ASCII character is white space where it
/// is the space or one of the five from the tabulator to the carriage
/// return; any other character where it has the Unicode property
/// `White_Space`.
pub open spec fn is_white_space(c: char) -> bool {
    if c <= '\u{7f}' {
        c == ' ' || ('\t' <= c && c <= '\r')
    } else {
        unicode_whitespace(c)
    }
}

/// Whether `c` is a letter. An ASCII character is a letter where it is one
/// of `a` to `z` or `A` to `Z`; any other character where it has the Unicode
/// property `Alphabetic`.
pub open spec fn is_letter(c: char) -> bool {
    if c <= '\u{7f}' {
        ('a' <= c && c <= 'z') || ('A' <= c && c <= 'Z')
    } else {
        unicode_alphabetic(c)
    }
}

/// Whether `c` is skipped between tokens: white space, a line feed or a
/// carriage return.
pub open spec fn is_blank(c: char) -> bool {
    is_white_space(c) || c == '\n' || c == '\r'
}

/// The length of the longest prefix of `s` whose characters all satisfy `p`.
pub open spec fn run_len(s: Seq<char>, p: spec_fn(char) -> bool) -> nat
    decreases s.len(),
{
    if s.len() > 0 && p(s[0]) {
        1 + run_len(s.skip(1), p)
    } else {
        0
    }
}

/// `run_len(s, p)` is the one position at or before the end of `s` that has
/// only characters satisfying `p` in front of it and none at it.
pub proof fn lemma_run_len(s: Seq<char>, p: spec_fn(char) -> bool, n: int)
    ensures
        run_len(s, p) <= s.len(),
        forall|i: int| 0 <= i < run_len(s, p) ==> p(#[trigger] s[i]),
        run_len(s, p) < s.len() ==> !p(s[run_len(s, p) as int]),
        ({
            &&& 0 <= n <= s.len()
            &&& forall|i: int| 0 <= i < n ==> p(#[trigger] s[i])
            &&& n < s.len() ==> !p(s[n])
        }) ==> n == run_len(s, p),
    decreases s.len(),
{
    if s.len() > 0 && p(s[0]) {
        let t = s.skip(1);
        lemma_run_len(t, p, n - 1);
        assert forall|i: int| 0 <= i < run_len(s, p) implies p(#[trigger] s[i]) by {
            if i > 0 {
                assert(s[i] == t[i - 1]);
            }
        }
        if 0 <= n <= s.len() && (forall|i: int| 0 <= i < n ==> p(#[trigger] s[i])) && (n
            < s.len() ==> !p(s[n])) {
            assert(n > 0);
            assert forall|i: int| 0 <= i < n - 1 implies p(#[trigger] t[i]) by {
                assert(t[i] == s[i + 1]);
            }
        }
    } else {
        if 0 <= n <= s.len() && (forall|i: int| 0 <= i < n ==> p(#[trigger] s[i])) && (n
            < s.len() ==> !p(s[n])) {
            if n > 0 {
                assert(p(s[0]));
            }
        }
    }
}

/// The length of the run of blank characters at the start of `s`.
pub open spec fn blank_run(s: Seq<char>) -> nat {
    run_len(s, |c: char| is_blank(c))
}

/// The length of the run of decimal digits at the start of `s`.
pub open spec fn digit_run(s: Seq<char>) -> nat {
    run_len(s, |c: char| is_digit(c))
}

/// The number that a run of decimal digits stands for, read from the left.
/// Leading zeros do not count.
pub open spec fn decimal_value(digits: Seq<char>) -> nat
    decreases digits.len(),
{
    if digits.len() == 0 {
        0
    } else {
        (decimal_value(digits.drop_last()) * 10 + (digits.last() as int - '0' as int)) as nat
    }
}

/// The number that `text` stands for where it is a non-empty run of decimal
/// digits that fits the integer type, and `None` otherwise.
pub open spec fn parse_decimal_spec(text: Seq<char>) -> Option<isize> {
    if text.len() > 0 && (forall|i: int| 0 <= i < text.len() ==> is_digit(#[trigger] text[i]))
        && decimal_value(text) <= isize::MAX {
        Some(decimal_value(text) as isize)
    } else {
        None
    }
}

/// The value of a run of digits is at least the value of each of its
/// prefixes.
pub proof fn lemma_decimal_value_grows(digits: Seq<char>, k: int)
    requires
        0 <= k <= digits.len(),
        forall|i: int| 0 <= i < digits.len() ==> is_digit(#[trigger] digits[i]),
    ensures
        decimal_value(digits.take(k)) <= decimal_value(digits),
    decreases digits.len() - k,
{
    if k == digits.len() {
        assert(digits.take(k) =~= digits);
    } else {
        lemma_decimal_value_grows(digits, k + 1);
        let longer = digits.take(k + 1);
        assert(longer.drop_last() =~= digits.take(k));
        assert(is_digit(digits[k]));
        assert(longer.last() == digits[k]);
    }
}

/// The characters that must follow a letter for the two to be read as the
/// keyword `null`.
pub open spec fn keyword_tail() -> Seq<char> {
    seq!['u', 'l', 'l']
}

/// The token that a single character of punctuation stands for.
pub open spec fn punctuation(c: char) -> Option<TokenView> {
    if c == '{' {
        Some(TokenView::LeftBrace)
    } else if c == '}' {
        Some(TokenView::RightBrace)
    } else if c == '[' {
        Some(TokenView::LeftBracket)
    } else if c == ']' {
        Some(TokenView::RightBracket)
    } else if c == ':' {
        Some(TokenView::Colon)
    } else if c == ',' {
        Some(TokenView::Comma)
    } else {
        None
    }
}

/// `body` with `c` put in front of its text.
pub open spec fn prepend(c: char, body: Option<(Seq<char>, Seq<char>)>) -> Option<
    (Seq<char>, Seq<char>),
> {
    match body {
        Some((text, rest)) => Some((seq![c] + text, rest)),
        None => None,
    }
}

/// Reads `s` as what follows the opening quote of a string literal. The
/// result is the text of the literal and what is left of `s` after the
/// closing quote; `None` where `s` ends before a closing quote.
///
/// A backslash is dropped and the character after it is taken as it stands,
/// whatever it is: a quote after a backslash does not close the literal.
pub open spec fn string_body(s: Seq<char>) -> Option<(Seq<char>, Seq<char>)>
    decreases s.len(),
{
    if s.len() == 0 {
        None
    } else if s[0] == '"' {
        Some((Seq::empty(), s.skip(1)))
    } else if s[0] == '\\' {
        if s.len() < 2 {
            None
        } else {
            prepend(s[1], string_body(s.skip(2)))
        }
    } else {
        prepend(s[0], string_body(s.skip(1)))
    }
}

/// The outcome of scanning for one token: the token or the error, and the
/// text that is left.
pub ghost struct Scan {
    pub token: Result<TokenView, ErrorView>,
    pub rest: Seq<char>,
}

/// The scan of a string literal whose opening quote stood before `s`. Where
/// the literal does not end, all of `s` is used up.
pub open spec fn scan_string(s: Seq<char>) -> Scan {
    match string_body(s) {
        Some((text, rest)) => Scan {
            token: Ok(TokenView::Literal(LiteralView::String(text))),
            rest,
        },
        None => Scan { token: Err(ErrorView::UnterminatedLiteral), rest: Seq::empty() },
    }
}

/// The scan of a number whose first digit `first` stood before `s`. The
/// digits that follow are used up whether or not the number fits.
pub open spec fn scan_integer(first: char, s: Seq<char>) -> Scan {
    let n = digit_run(s) as int;
    Scan {
        token: match parse_decimal_spec(seq![first] + s.take(n)) {
            Some(v) => Ok(TokenView::Literal(LiteralView::Integer(v as int))),
            None => Err(ErrorView::MalformedNumber),
        },
        rest: s.skip(n),
    }
}

/// The scan of a keyword whose first letter stood before `s`. As much of
/// `ull` as stands at the start of `s` is used up, whether or not all of it
/// is there.
pub open spec fn scan_keyword(s: Seq<char>) -> Scan {
    let n = matched_len(s, keyword_tail());
    Scan {
        token: if n == keyword_tail().len() {
            Ok(TokenView::Literal(LiteralView::Null))
        } else {
            Err(ErrorView::UnknownKeyword)
        },
        rest: s.skip(n as int),
    }
}

/// The scan of one token from the start of `s`.
///
/// Blank characters are skipped first. At the end of the text the token is
/// `Eof`. Otherwise one character is used up and decides: punctuation is a
/// token by itself, a double quote opens a string literal, a digit starts a
/// number, any letter starts a keyword, and anything else is `Illegal`.
pub open spec fn scan_token(s: Seq<char>) -> Scan {
    let t = s.skip(blank_run(s) as int);
    if t.len() == 0 {
        Scan { token: Ok(TokenView::Eof), rest: t }
    } else {
        let c = t[0];
        let u = t.skip(1);
        if punctuation(c) is Some {
            Scan { token: Ok(punctuation(c)->0), rest: u }
        } else if c == '"' {
            scan_string(u)
        } else if is_digit(c) {
            scan_integer(c, u)
        } else if is_letter(c) {
            scan_keyword(u)
        } else {
            Scan { token: Ok(TokenView::Illegal), rest: u }
        }
    }
}

/// What is left after a string literal is shorter than what the literal
/// was read from.
pub proof fn lemma_string_body_consumes(s: Seq<char>)
    ensures
        string_body(s) matches Some((_, rest)) ==> rest.len() < s.len(),
    decreases s.len(),
{
    if s.len() == 0 {
    } else if s[0] == '"' {
    } else if s[0] == '\\' {
        if s.len() >= 2 {
            lemma_string_body_consumes(s.skip(2));
        }
    } else {
        lemma_string_body_consumes(s.skip(1));
    }
}

/// A scan never gives text back. It uses up at least one character unless
/// the token is `Eof`, and then nothing is left.
pub proof fn lemma_scan_consumes(s: Seq<char>)
    ensures
        scan_token(s).rest.len() <= s.len(),
        scan_token(s).token != Ok::<TokenView, ErrorView>(TokenView::Eof) ==> scan_token(
            s,
        ).rest.len() < s.len(),
        scan_token(s).token == Ok::<TokenView, ErrorView>(TokenView::Eof) ==> scan_token(
            s,
        ).rest.len() == 0,
{
    lemma_run_len(s, |c: char| is_blank(c), 0);
    let t = s.skip(blank_run(s) as int);
    if t.len() > 0 {
        let u = t.skip(1);
        lemma_string_body_consumes(u);
        lemma_run_len(u, |c: char| is_digit(c), 0);
        lemma_matched_len_bounds(u, keyword_tail());
    }
}

/// The text that is left of `s` after `n` scans.
pub open spec fn after_scans(s: Seq<char>, n: nat) -> Seq<char>
    decreases n,
{
    if n == 0 {
        s
    } else {
        after_scans(scan_token(s).rest, (n - 1) as nat)
    }
}

/// Once a scan has given `Eof`, every later scan gives `Eof` too: the end of
/// the text is final.
pub proof fn lemma_eof_is_final(s: Seq<char>, n: nat)
    requires
        scan_token(s).token == Ok::<TokenView, ErrorView>(TokenView::Eof),
    ensures
        scan_token(after_scans(s, n)).token == Ok::<TokenView, ErrorView>(TokenView::Eof),
        n > 0 ==> after_scans(s, n) == scan_token(s).rest,
    decreases n,
{
    if n > 0 {
        let rest = scan_token(s).rest;
        lemma_scan_consumes(s);
        assert(rest.len() == 0);
        assert(rest.skip(0) =~= rest);
        assert(scan_token(rest).token == Ok::<TokenView, ErrorView>(TokenView::Eof));
        assert(scan_token(rest).rest =~= rest);
        lemma_eof_is_final(rest, (n - 1) as nat);
        if n > 1 {
            assert(after_scans(rest, (n - 1) as nat) == scan_token(rest).rest);
        }
    }
}

/// Blank characters in front of a text change nothing: the scan gives the
/// same token and leaves the same text as without them.
pub proof fn lemma_leading_blanks_ignored(blanks: Seq<char>, s: Seq<char>)
    requires
        forall|i: int| 0 <= i < blanks.len() ==> is_blank(#[trigger] blanks[i]),
    ensures
        scan_token(blanks + s) == scan_token(s),
{
    let p = |c: char| is_blank(c);
    let whole = blanks + s;
    let n = blanks.len() + blank_run(s);
    lemma_run_len(s, p, 0);
    assert forall|i: int| 0 <= i < n implies p(#[trigger] whole[i]) by {
        if i >= blanks.len() {
            assert(whole[i] == s[i - blanks.len()]);
        }
    }
    if n < whole.len() {
        assert(whole[n as int] == s[blank_run(s) as int]);
    }
    lemma_run_len(whole, p, n as int);
    assert(whole.skip(n as int) =~= s.skip(blank_run(s) as int));
}

/// `text` written so that a string literal can hold it: with a backslash in
/// front of every double quote and every backslash.
pub open spec fn escaped(text: Seq<char>) -> Seq<char>
    decreases text.len(),
{
    if text.len() == 0 {
        Seq::empty()
    } else if text[0] == '"' || text[0] == '\\' {
        seq!['\\', text[0]] + escaped(text.skip(1))
    } else {
        seq![text[0]] + escaped(text.skip(1))
    }
}

/// Escaping is undone by the scan: a literal that holds the escaped form of
/// a text is read as that text, and what follows its closing quote is left.
pub proof fn lemma_escape_round_trip(text: Seq<char>, rest: Seq<char>)
    ensures
        string_body(escaped(text) + seq!['"'] + rest) == Some((text, rest)),
        scan_string(escaped(text) + seq!['"'] + rest) == (Scan {
            token: Ok(TokenView::Literal(LiteralView::String(text))),
            rest,
        }),
    decreases text.len(),
{
    let s = escaped(text) + seq!['"'] + rest;
    if text.len() == 0 {
        assert(s.skip(1) =~= rest);
        assert(text =~= Seq::<char>::empty());
    } else {
        let tail = escaped(text.skip(1)) + seq!['"'] + rest;
        lemma_escape_round_trip(text.skip(1), rest);
        if text[0] == '"' || text[0] == '\\' {
            assert(s.skip(2) =~= tail);
            assert(s[1] == text[0]);
        } else {
            assert(s.skip(1) =~= tail);
        }
        assert(seq![text[0]] + text.skip(1) =~= text);
    }
    assert(string_body(s) == Some((text, rest)));
}

/// A run of digits is read as the number it stands for where that number
/// fits the integer type, and is `MalformedNumber` where it does not. No
/// number is cut short or wrapped around.
pub proof fn lemma_number_fits_or_fails(first: char, s: Seq<char>)
    requires
        is_digit(first),
    ensures
        ({
            let value = decimal_value(seq![first] + s.take(digit_run(s) as int));
            scan_integer(first, s).token == (if value <= isize::MAX {
                Ok::<TokenView, ErrorView>(TokenView::Literal(LiteralView::Integer(value as int)))
            } else {
                Err::<TokenView, ErrorView>(ErrorView::MalformedNumber)
            })
        }),
{
    lemma_run_len(s, |c: char| is_digit(c), 0);
    let n = digit_run(s) as int;
    let text = seq![first] + s.take(n);
    assert forall|i: int| 0 <= i < text.len() implies is_digit(#[trigger] text[i]) by {
        if i > 0 {
            assert(text[i] == s[i - 1]);
        }
    }
}

} // verus!
