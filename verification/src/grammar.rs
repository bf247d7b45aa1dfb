//! The grammar of a document, as functions from the tokens ahead to what a
//! parse gives and what it leaves.
//!
//! ```text
//! object   := '{' [ members ] '}'
//! members  := member (',' member)*
//! member   := STRING ':' value
//! array    := '[' [ elements ] ']'
//! elements := element (',' element)*
//! element  := value
//! value    := LITERAL | object | array
//! ```
//!
//! Every choice is made on the next token alone. A parse stops at the first
//! token that does not fit and at the first scan that fails.

use crate::error::{ErrorView, ExpectedView};
use crate::stream::TokensView;
use crate::token::{LiteralView, TokenView};
use crate::value::{literal_value, MemberView, ValueView};
use vstd::prelude::*;

verus! {

/// The outcome of a parse: what was read, or the error that ended it, and
/// the tokens as the parse left them.
pub ghost struct Parsed<T> {
    pub result: Result<T, ErrorView>,
    pub rest: TokensView,
}

/// Whether fewer tokens are ahead in `after` than in `before`.
pub open spec fn shorter(after: TokensView, before: TokensView) -> bool {
    after.ahead.len() < before.ahead.len()
}

/// Taking one token, which has to be `token`.
pub open spec fn expect_spec(ts: TokensView, token: TokenView) -> Parsed<()> {
    Parsed {
        result: match ts.next() {
            Err(e) => Err(e),
            Ok(None) => Err(ErrorView::UnexpectedEnd { expected: ExpectedView::Token(token) }),
            Ok(Some(found)) => if found == token {
                Ok(())
            } else {
                Err(ErrorView::UnexpectedToken { expected: ExpectedView::Token(token), found })
            },
        },
        rest: ts.advance(),
    }
}

/// `value := LITERAL | object | array`
///
/// The next token decides, and is taken only where it is a literal. Where it
/// starts no value the parse stops without taking it.
pub open spec fn value_spec(ts: TokensView) -> Parsed<ValueView>
    decreases ts.ahead.len(), 3int,
{
    match ts.peek() {
        Err(e) => Parsed { result: Err(e), rest: ts },
        Ok(None) => Parsed {
            result: Err(ErrorView::UnexpectedEnd { expected: ExpectedView::Value }),
            rest: ts,
        },
        Ok(Some(TokenView::Literal(literal))) => Parsed {
            result: Ok(literal_value(literal)),
            rest: ts.advance(),
        },
        Ok(Some(TokenView::LeftBrace)) => {
            let object = object_spec(ts);
            Parsed {
                result: match object.result {
                    Ok(members) => Ok(ValueView::Object(members)),
                    Err(e) => Err(e),
                },
                rest: object.rest,
            }
        },
        Ok(Some(TokenView::LeftBracket)) => {
            let array = array_spec(ts);
            Parsed {
                result: match array.result {
                    Ok(elements) => Ok(ValueView::Array(elements)),
                    Err(e) => Err(e),
                },
                rest: array.rest,
            }
        },
        Ok(Some(found)) => Parsed {
            result: Err(ErrorView::UnexpectedToken { expected: ExpectedView::Value, found }),
            rest: ts,
        },
    }
}

/// `object := '{' [ members ] '}'`
///
/// The object is `None` where `}` follows `{` at once.
pub open spec fn object_spec(ts: TokensView) -> Parsed<Option<Seq<MemberView>>>
    decreases ts.ahead.len(), 2int,
{
    let open = expect_spec(ts, TokenView::LeftBrace);
    match open.result {
        Err(e) => Parsed { result: Err(e), rest: open.rest },
        Ok(_) => match open.rest.peek() {
            Err(e) => Parsed { result: Err(e), rest: open.rest },
            Ok(Some(TokenView::RightBrace)) => Parsed {
                result: Ok(None),
                rest: open.rest.advance(),
            },
            _ => {
                let members = members_spec(open.rest);
                match members.result {
                    Err(e) => Parsed { result: Err(e), rest: members.rest },
                    Ok(found) => {
                        let close = expect_spec(members.rest, TokenView::RightBrace);
                        Parsed {
                            result: match close.result {
                                Ok(_) => Ok(Some(found)),
                                Err(e) => Err(e),
                            },
                            rest: close.rest,
                        }
                    },
                }
            },
        },
    }
}

/// `members := member (',' member)*`
pub open spec fn members_spec(ts: TokensView) -> Parsed<Seq<MemberView>>
    decreases ts.ahead.len(), 1int,
{
    let first = member_spec(ts);
    match first.result {
        Err(e) => Parsed { result: Err(e), rest: first.rest },
        Ok(member) => if shorter(first.rest, ts) {
            members_tail(first.rest, seq![member])
        } else {
            Parsed { result: Ok(seq![member]), rest: first.rest }
        },
    }
}

/// `(',' member)*`, behind the members `found`.
///
/// A comma calls for another member: one that is followed by anything else
/// ends the parse with an error. The test on the length is for the
/// definition's sake: a member that is read always takes tokens (see
/// [`lemma_parse_consumes`]).
pub open spec fn members_tail(ts: TokensView, found: Seq<MemberView>) -> Parsed<Seq<MemberView>>
    decreases ts.ahead.len(), 1int,
{
    match ts.peek() {
        Err(e) => Parsed { result: Err(e), rest: ts },
        Ok(Some(TokenView::Comma)) => {
            let next = member_spec(ts.advance());
            match next.result {
                Err(e) => Parsed { result: Err(e), rest: next.rest },
                Ok(member) => if shorter(next.rest, ts) {
                    members_tail(next.rest, found.push(member))
                } else {
                    Parsed { result: Ok(found.push(member)), rest: next.rest }
                },
            }
        },
        _ => Parsed { result: Ok(found), rest: ts },
    }
}

/// `member := STRING ':' value`
///
/// The key is taken whatever it is, and has to be a string literal.
pub open spec fn member_spec(ts: TokensView) -> Parsed<MemberView>
    decreases ts.ahead.len(), 0int,
{
    match ts.next() {
        Err(e) => Parsed { result: Err(e), rest: ts.advance() },
        Ok(None) => Parsed {
            result: Err(ErrorView::UnexpectedEnd { expected: ExpectedView::Key }),
            rest: ts.advance(),
        },
        Ok(Some(TokenView::Literal(LiteralView::String(key)))) => {
            let colon = expect_spec(ts.advance(), TokenView::Colon);
            match colon.result {
                Err(e) => Parsed { result: Err(e), rest: colon.rest },
                Ok(_) => {
                    let value = value_spec(colon.rest);
                    Parsed {
                        result: match value.result {
                            Ok(v) => Ok(MemberView { key, value: v }),
                            Err(e) => Err(e),
                        },
                        rest: value.rest,
                    }
                },
            }
        },
        Ok(Some(found)) => Parsed {
            result: Err(ErrorView::UnexpectedToken { expected: ExpectedView::Key, found }),
            rest: ts.advance(),
        },
    }
}

/// `array := '[' [ elements ] ']'`
///
/// The array is `None` where `]` follows `[` at once.
pub open spec fn array_spec(ts: TokensView) -> Parsed<Option<Seq<ValueView>>>
    decreases ts.ahead.len(), 2int,
{
    let open = expect_spec(ts, TokenView::LeftBracket);
    match open.result {
        Err(e) => Parsed { result: Err(e), rest: open.rest },
        Ok(_) => match open.rest.peek() {
            Err(e) => Parsed { result: Err(e), rest: open.rest },
            Ok(Some(TokenView::RightBracket)) => Parsed {
                result: Ok(None),
                rest: open.rest.advance(),
            },
            _ => {
                let elements = elements_spec(open.rest);
                match elements.result {
                    Err(e) => Parsed { result: Err(e), rest: elements.rest },
                    Ok(found) => {
                        let close = expect_spec(elements.rest, TokenView::RightBracket);
                        Parsed {
                            result: match close.result {
                                Ok(_) => Ok(Some(found)),
                                Err(e) => Err(e),
                            },
                            rest: close.rest,
                        }
                    },
                }
            },
        },
    }
}

/// `elements := element (',' element)*`, where an element is a value.
pub open spec fn elements_spec(ts: TokensView) -> Parsed<Seq<ValueView>>
    decreases ts.ahead.len(), 4int,
{
    let first = value_spec(ts);
    match first.result {
        Err(e) => Parsed { result: Err(e), rest: first.rest },
        Ok(element) => if shorter(first.rest, ts) {
            elements_tail(first.rest, seq![element])
        } else {
            Parsed { result: Ok(seq![element]), rest: first.rest }
        },
    }
}

/// `(',' element)*`, behind the elements `found`.
///
/// A comma calls for another element. The test on the length is for the
/// definition's sake, as in [`members_tail`].
pub open spec fn elements_tail(ts: TokensView, found: Seq<ValueView>) -> Parsed<Seq<ValueView>>
    decreases ts.ahead.len(), 4int,
{
    match ts.peek() {
        Err(e) => Parsed { result: Err(e), rest: ts },
        Ok(Some(TokenView::Comma)) => {
            let next = value_spec(ts.advance());
            match next.result {
                Err(e) => Parsed { result: Err(e), rest: next.rest },
                Ok(element) => if shorter(next.rest, ts) {
                    elements_tail(next.rest, found.push(element))
                } else {
                    Parsed { result: Ok(found.push(element)), rest: next.rest }
                },
            }
        },
        _ => Parsed { result: Ok(found), rest: ts },
    }
}

/// A document: an object with at least one member.
pub open spec fn document_spec(ts: TokensView) -> Parsed<Option<Seq<MemberView>>> {
    let object = object_spec(ts);
    Parsed {
        result: match object.result {
            Err(e) => Err(e),
            Ok(None) => Err(ErrorView::EmptyDocument),
            Ok(Some(members)) => Ok(Some(members)),
        },
        rest: object.rest,
    }
}

/// Every production that reads something takes at least one token.
pub proof fn lemma_parse_consumes(ts: TokensView)
    ensures
        value_spec(ts).result is Ok ==> shorter(value_spec(ts).rest, ts),
        object_spec(ts).result is Ok ==> shorter(object_spec(ts).rest, ts),
        array_spec(ts).result is Ok ==> shorter(array_spec(ts).rest, ts),
        member_spec(ts).result is Ok ==> shorter(member_spec(ts).rest, ts),
        members_spec(ts).result is Ok ==> shorter(members_spec(ts).rest, ts),
        elements_spec(ts).result is Ok ==> shorter(elements_spec(ts).rest, ts),
        document_spec(ts).result is Ok ==> shorter(document_spec(ts).rest, ts),
    decreases ts.ahead.len(), 1int,
{
    // a member: the value behind its colon
    if ts.next() matches Ok(Some(TokenView::Literal(LiteralView::String(_)))) {
        let colon = expect_spec(ts.advance(), TokenView::Colon);
        if colon.result is Ok {
            lemma_parse_consumes(colon.rest);
        }
    }
    // an object or an array: what stands behind its opening token
    let brace = expect_spec(ts, TokenView::LeftBrace);
    if brace.result is Ok {
        lemma_parse_consumes(brace.rest);
    }
    let bracket = expect_spec(ts, TokenView::LeftBracket);
    if bracket.result is Ok {
        lemma_parse_consumes(bracket.rest);
    }
    // members and elements: what stands behind their first
    if let Ok(member) = member_spec(ts).result {
        lemma_tail_consumes(member_spec(ts).rest, seq![member], Seq::empty());
    }
    if let Ok(element) = value_spec(ts).result {
        lemma_tail_consumes(value_spec(ts).rest, Seq::empty(), seq![element]);
    }
}

/// What follows the first member or element never gives tokens back.
pub proof fn lemma_tail_consumes(ts: TokensView, members: Seq<MemberView>, elements: Seq<ValueView>)
    ensures
        members_tail(ts, members).result is Ok ==> members_tail(ts, members).rest.ahead.len()
            <= ts.ahead.len(),
        elements_tail(ts, elements).result is Ok ==> elements_tail(ts, elements).rest.ahead.len()
            <= ts.ahead.len(),
    decreases ts.ahead.len(), 0int,
{
    if ts.peek() matches Ok(Some(TokenView::Comma)) {
        lemma_parse_consumes(ts.advance());
        if let Ok(member) = member_spec(ts.advance()).result {
            lemma_tail_consumes(member_spec(ts.advance()).rest, members.push(member), elements);
        }
        if let Ok(element) = value_spec(ts.advance()).result {
            lemma_tail_consumes(value_spec(ts.advance()).rest, members, elements.push(element));
        }
    }
}

/// An object that is closed right after it is opened has no members. It is
/// a value like any other, and no document.
pub proof fn lemma_empty_object(ts: TokensView)
    requires
        ts.ahead.len() >= 2,
        ts.ahead[0] == Ok::<TokenView, ErrorView>(TokenView::LeftBrace),
        ts.ahead[1] == Ok::<TokenView, ErrorView>(TokenView::RightBrace),
    ensures
        object_spec(ts).result == Ok::<Option<Seq<MemberView>>, ErrorView>(None),
        value_spec(ts).result == Ok::<ValueView, ErrorView>(ValueView::Object(None)),
        document_spec(ts).result == Err::<Option<Seq<MemberView>>, ErrorView>(
            ErrorView::EmptyDocument,
        ),
{
}

/// A comma calls for another member or element. Where a token that starts
/// none follows it, or none at all, the parse ends with an error: a comma
/// before the closing token is not accepted.
pub proof fn lemma_trailing_comma(
    ts: TokensView,
    members: Seq<MemberView>,
    elements: Seq<ValueView>,
)
    requires
        ts.ahead.len() >= 1,
        ts.ahead[0] == Ok::<TokenView, ErrorView>(TokenView::Comma),
    ensures
        ts.ahead.len() == 1 ==> {
            &&& members_tail(ts, members).result == Err::<Seq<MemberView>, ErrorView>(
                ErrorView::UnexpectedEnd { expected: ExpectedView::Key },
            )
            &&& elements_tail(ts, elements).result == Err::<Seq<ValueView>, ErrorView>(
                ErrorView::UnexpectedEnd { expected: ExpectedView::Value },
            )
        },
        ts.ahead.len() >= 2 ==> (ts.ahead[1] matches Ok(found) ==> {
            &&& !(found is Literal && found->Literal_0 is String) ==> members_tail(
                ts,
                members,
            ).result == Err::<Seq<MemberView>, ErrorView>(
                ErrorView::UnexpectedToken { expected: ExpectedView::Key, found },
            )
            &&& !(found is Literal || found is LeftBrace || found is LeftBracket)
                ==> elements_tail(ts, elements).result == Err::<Seq<ValueView>, ErrorView>(
                ErrorView::UnexpectedToken { expected: ExpectedView::Value, found },
            )
        }),
{
    let behind = ts.advance();
    assert(ts.peek() == Ok::<Option<TokenView>, ErrorView>(Some(TokenView::Comma)));
    if ts.ahead.len() >= 2 {
        assert(behind.ahead[0] == ts.ahead[1]);
        if let Ok(found) = ts.ahead[1] {
            assert(behind.next() == Ok::<Option<TokenView>, ErrorView>(Some(found)));
            assert(behind.peek() == Ok::<Option<TokenView>, ErrorView>(Some(found)));
            if !(found is Literal && found->Literal_0 is String) {
                assert(member_spec(behind).result is Err);
            }
            if !(found is Literal || found is LeftBrace || found is LeftBracket) {
                assert(value_spec(behind).result is Err);
            }
        }
    } else {
        assert(behind.next() == Ok::<Option<TokenView>, ErrorView>(None));
        assert(behind.peek() == Ok::<Option<TokenView>, ErrorView>(None));
        assert(member_spec(behind).result is Err);
        assert(value_spec(behind).result is Err);
    }
}

/// A character that starts no token is handed out as a token, and ends the
/// parse where a production meets it.
pub proof fn lemma_illegal_is_unexpected(ts: TokensView, token: TokenView)
    requires
        ts.ahead.len() >= 1,
        ts.ahead[0] == Ok::<TokenView, ErrorView>(TokenView::Illegal),
        token != TokenView::Illegal,
    ensures
        value_spec(ts).result == Err::<ValueView, ErrorView>(
            ErrorView::UnexpectedToken { expected: ExpectedView::Value, found: TokenView::Illegal },
        ),
        member_spec(ts).result == Err::<MemberView, ErrorView>(
            ErrorView::UnexpectedToken { expected: ExpectedView::Key, found: TokenView::Illegal },
        ),
        expect_spec(ts, token).result == Err::<(), ErrorView>(
            ErrorView::UnexpectedToken {
                expected: ExpectedView::Token(token),
                found: TokenView::Illegal,
            },
        ),
{
}

} // verus!
