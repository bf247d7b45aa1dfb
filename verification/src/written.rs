//! The tokens that a tree is written with, and the proof that parsing reads
//! back what was written.

use crate::error::ErrorView;
use crate::grammar::{
    array_spec, document_spec, elements_spec, elements_tail, lemma_parse_consumes, member_spec,
    members_spec, members_tail, object_spec, value_spec, Parsed,
};
use crate::stream::{Lexeme, TokensView};
use crate::token::{LiteralView, TokenView};
use crate::value::{MemberView, ValueView};
use vstd::prelude::*;

verus! {

/// `tokens` as they stand in a sequence that is read: each one scanned
/// without error.
pub open spec fn lexemes(tokens: Seq<TokenView>) -> Seq<Lexeme> {
    Seq::new(tokens.len(), |i: int| Ok::<TokenView, ErrorView>(tokens[i]))
}

/// The tokens that `v` is written with. No token stands for a boolean, so
/// none is written for one.
pub open spec fn value_tokens(v: ValueView) -> Seq<TokenView>
    decreases v,
{
    match v {
        ValueView::Object(None) => seq![TokenView::LeftBrace, TokenView::RightBrace],
        ValueView::Object(Some(members)) => seq![TokenView::LeftBrace] + members_tokens(members)
            + seq![TokenView::RightBrace],
        ValueView::String(s) => seq![TokenView::Literal(LiteralView::String(s))],
        ValueView::Number(n) => seq![TokenView::Literal(LiteralView::Integer(n))],
        ValueView::Bool(_) => Seq::empty(),
        ValueView::Array(None) => seq![TokenView::LeftBracket, TokenView::RightBracket],
        ValueView::Array(Some(elements)) => seq![TokenView::LeftBracket] + elements_tokens(
            elements,
        ) + seq![TokenView::RightBracket],
        ValueView::Null => seq![TokenView::Literal(LiteralView::Null)],
    }
}

/// The tokens that a member is written with: its key, a colon and its value.
pub open spec fn member_tokens(member: MemberView) -> Seq<TokenView>
    decreases member,
{
    seq![TokenView::Literal(LiteralView::String(member.key)), TokenView::Colon] + value_tokens(
        member.value,
    )
}

/// The tokens that `members` are written with, a comma between each two.
pub open spec fn members_tokens(members: Seq<MemberView>) -> Seq<TokenView>
    decreases members,
{
    if members.len() == 0 {
        Seq::empty()
    } else if members.len() == 1 {
        member_tokens(members[0])
    } else {
        members_tokens(members.drop_last()) + seq![TokenView::Comma] + member_tokens(
            members.last(),
        )
    }
}

/// The tokens that `elements` are written with, a comma between each two.
pub open spec fn elements_tokens(elements: Seq<ValueView>) -> Seq<TokenView>
    decreases elements,
{
    if elements.len() == 0 {
        Seq::empty()
    } else if elements.len() == 1 {
        value_tokens(elements[0])
    } else {
        elements_tokens(elements.drop_last()) + seq![TokenView::Comma] + value_tokens(
            elements.last(),
        )
    }
}

/// Whether `v` is a tree that a parse can give: it holds no boolean, and
/// every object and array in it either is `None` or has something in it.
pub open spec fn readable(v: ValueView) -> bool
    decreases v,
{
    match v {
        ValueView::Object(Some(members)) => members.len() > 0 && forall|i: int|
            0 <= i < members.len() ==> readable((#[trigger] members[i]).value),
        ValueView::Array(Some(elements)) => elements.len() > 0 && forall|i: int|
            0 <= i < elements.len() ==> readable(#[trigger] elements[i]),
        ValueView::Bool(_) => false,
        _ => true,
    }
}

/// Whether `tokens` stand at the front of `ts` with `rest` behind them.
#[verifier::opaque]
pub open spec fn starts_with(ts: TokensView, tokens: Seq<TokenView>, rest: TokensView) -> bool {
    ts.ahead =~= lexemes(tokens) + rest.ahead && ts.eof == rest.eof
}

/// Whether every one of `members` holds a value that a parse can give.
pub open spec fn readable_members(members: Seq<MemberView>) -> bool {
    forall|i: int| 0 <= i < members.len() ==> readable((#[trigger] members[i]).value)
}

/// Whether every one of `elements` is a value that a parse can give.
pub open spec fn readable_elements(elements: Seq<ValueView>) -> bool {
    forall|i: int| 0 <= i < elements.len() ==> readable(#[trigger] elements[i])
}

/// A parse gives a value exactly where that value, written out, stands at
/// the front of the tokens; and it leaves exactly what stands behind it.
pub proof fn lemma_value_read_iff_written(ts: TokensView, v: ValueView, rest: TokensView)
    ensures
        value_spec(ts) == (Parsed { result: Ok::<ValueView, ErrorView>(v), rest }) <==> readable(v)
            && starts_with(ts, value_tokens(v), rest),
{
    lemma_value_was_written(ts);
    if readable(v) && starts_with(ts, value_tokens(v), rest) {
        lemma_value_is_read(v, ts, rest);
    }
}

/// A parse gives a document exactly where an object with these members,
/// written out, stands at the front of the tokens, and there is at least
/// one of them.
pub proof fn lemma_document_read_iff_written(
    ts: TokensView,
    members: Seq<MemberView>,
    rest: TokensView,
)
    ensures
        document_spec(ts) == (Parsed {
            result: Ok::<Option<Seq<MemberView>>, ErrorView>(Some(members)),
            rest,
        }) <==> readable(ValueView::Object(Some(members))) && starts_with(
            ts,
            value_tokens(ValueView::Object(Some(members))),
            rest,
        ),
{
    let v = ValueView::Object(Some(members));
    lemma_object_was_written(ts);
    if readable(v) && starts_with(ts, value_tokens(v), rest) {
        lemma_value_is_read(v, ts, rest);
        assert(ts.peek() == Ok::<Option<TokenView>, ErrorView>(Some(TokenView::LeftBrace))) by {
            let behind = members_tokens(members) + seq![TokenView::RightBrace];
            assert(value_tokens(v) =~= seq![TokenView::LeftBrace] + behind);
            lemma_starts_with_first(ts, TokenView::LeftBrace, behind, rest);
        }
    }
    if document_spec(ts) == (Parsed {
        result: Ok::<Option<Seq<MemberView>>, ErrorView>(Some(members)),
        rest,
    }) {
        assert(object_spec(ts).result == Ok::<Option<Seq<MemberView>>, ErrorView>(Some(members)));
    }
}

/// A token that is taken stood at the front.
proof fn lemma_starts_with_taken(ts: TokensView, token: TokenView)
    requires
        ts.next() == Ok::<Option<TokenView>, ErrorView>(Some(token)),
    ensures
        starts_with(ts, seq![token], ts.advance()),
{
    reveal(starts_with);
}

/// What stands at the front of what is left stands behind what stood at the
/// front.
proof fn lemma_starts_with_chain(
    ts: TokensView,
    first: Seq<TokenView>,
    between: TokensView,
    second: Seq<TokenView>,
    rest: TokensView,
)
    requires
        starts_with(ts, first, between),
        starts_with(between, second, rest),
    ensures
        starts_with(ts, first + second, rest),
{
    reveal(starts_with);
}

/// A value that was read was written at the front of the tokens.
pub proof fn lemma_value_was_written(ts: TokensView)
    ensures
        value_spec(ts).result matches Ok(v) ==> readable(v) && starts_with(
            ts,
            value_tokens(v),
            value_spec(ts).rest,
        ),
    decreases ts.ahead.len(), 3int,
{
    match ts.peek() {
        Ok(Some(TokenView::Literal(literal))) => {
            lemma_starts_with_taken(ts, TokenView::Literal(literal));
        },
        Ok(Some(TokenView::LeftBrace)) => {
            lemma_object_was_written(ts);
        },
        Ok(Some(TokenView::LeftBracket)) => {
            lemma_array_was_written(ts);
        },
        _ => {},
    }
}

/// An object that was read was written at the front of the tokens.
pub proof fn lemma_object_was_written(ts: TokensView)
    ensures
        object_spec(ts).result matches Ok(o) ==> readable(ValueView::Object(o)) && starts_with(
            ts,
            value_tokens(ValueView::Object(o)),
            object_spec(ts).rest,
        ),
    decreases ts.ahead.len(), 2int,
{
    if let Ok(found) = object_spec(ts).result {
        let inside = ts.advance();
        lemma_starts_with_taken(ts, TokenView::LeftBrace);
        match found {
            None => {
                lemma_starts_with_taken(inside, TokenView::RightBrace);
                lemma_starts_with_chain(
                    ts,
                    seq![TokenView::LeftBrace],
                    inside,
                    seq![TokenView::RightBrace],
                    inside.advance(),
                );
                assert(seq![TokenView::LeftBrace] + seq![TokenView::RightBrace] =~= value_tokens(
                    ValueView::Object(None),
                ));
            },
            Some(members) => {
                let end = members_spec(inside).rest;
                lemma_members_were_written(inside);
                lemma_starts_with_taken(end, TokenView::RightBrace);
                lemma_starts_with_chain(
                    ts,
                    seq![TokenView::LeftBrace],
                    inside,
                    members_tokens(members),
                    end,
                );
                lemma_starts_with_chain(
                    ts,
                    seq![TokenView::LeftBrace] + members_tokens(members),
                    end,
                    seq![TokenView::RightBrace],
                    end.advance(),
                );
            },
        }
    }
}

/// An array that was read was written at the front of the tokens.
pub proof fn lemma_array_was_written(ts: TokensView)
    ensures
        array_spec(ts).result matches Ok(a) ==> readable(ValueView::Array(a)) && starts_with(
            ts,
            value_tokens(ValueView::Array(a)),
            array_spec(ts).rest,
        ),
    decreases ts.ahead.len(), 2int,
{
    if let Ok(found) = array_spec(ts).result {
        let inside = ts.advance();
        lemma_starts_with_taken(ts, TokenView::LeftBracket);
        match found {
            None => {
                lemma_starts_with_taken(inside, TokenView::RightBracket);
                lemma_starts_with_chain(
                    ts,
                    seq![TokenView::LeftBracket],
                    inside,
                    seq![TokenView::RightBracket],
                    inside.advance(),
                );
                assert(seq![TokenView::LeftBracket] + seq![TokenView::RightBracket]
                    =~= value_tokens(ValueView::Array(None)));
            },
            Some(elements) => {
                let end = elements_spec(inside).rest;
                lemma_elements_were_written(inside);
                lemma_starts_with_taken(end, TokenView::RightBracket);
                lemma_starts_with_chain(
                    ts,
                    seq![TokenView::LeftBracket],
                    inside,
                    elements_tokens(elements),
                    end,
                );
                lemma_starts_with_chain(
                    ts,
                    seq![TokenView::LeftBracket] + elements_tokens(elements),
                    end,
                    seq![TokenView::RightBracket],
                    end.advance(),
                );
            },
        }
    }
}

/// A member that was read was written at the front of the tokens.
pub proof fn lemma_member_was_written(ts: TokensView)
    ensures
        member_spec(ts).result matches Ok(m) ==> readable(m.value) && starts_with(
            ts,
            member_tokens(m),
            member_spec(ts).rest,
        ),
    decreases ts.ahead.len(), 0int,
{
    if let Ok(m) = member_spec(ts).result {
        let key = TokenView::Literal(LiteralView::String(m.key));
        let colon = ts.advance();
        let value = colon.advance();
        lemma_starts_with_taken(ts, key);
        lemma_starts_with_taken(colon, TokenView::Colon);
        lemma_value_was_written(value);
        lemma_starts_with_chain(ts, seq![key], colon, seq![TokenView::Colon], value);
        lemma_starts_with_chain(
            ts,
            seq![key] + seq![TokenView::Colon],
            value,
            value_tokens(m.value),
            value_spec(value).rest,
        );
        assert(seq![key] + seq![TokenView::Colon] =~= seq![key, TokenView::Colon]);
    }
}

/// The members that were read were written at the front of the tokens.
pub proof fn lemma_members_were_written(ts: TokensView)
    ensures
        members_spec(ts).result matches Ok(ms) ==> ms.len() > 0 && readable_members(ms)
            && starts_with(ts, members_tokens(ms), members_spec(ts).rest),
    decreases ts.ahead.len(), 1int,
{
    if let Ok(first) = member_spec(ts).result {
        lemma_member_was_written(ts);
        lemma_parse_consumes(ts);
        lemma_members_tail_was_written(ts, member_spec(ts).rest, seq![first]);
    }
}

/// The members that were read behind `found` were written behind what
/// `found` was written with, a comma in front of each.
proof fn lemma_members_tail_was_written(
    whole: TokensView,
    ts: TokensView,
    found: Seq<MemberView>,
)
    requires
        found.len() > 0,
        starts_with(whole, members_tokens(found), ts),
    ensures
        members_tail(ts, found).result matches Ok(all) ==> {
            &&& all.len() > 0
            &&& readable_members(found) ==> readable_members(all)
            &&& starts_with(whole, members_tokens(all), members_tail(ts, found).rest)
        },
    decreases ts.ahead.len(), 0int,
{
    if ts.peek() == Ok::<Option<TokenView>, ErrorView>(Some(TokenView::Comma)) {
        let behind = ts.advance();
        if let Ok(m) = member_spec(behind).result {
            let next = member_spec(behind).rest;
            let longer = found.push(m);
            lemma_starts_with_taken(ts, TokenView::Comma);
            lemma_member_was_written(behind);
            lemma_parse_consumes(behind);
            lemma_starts_with_chain(
                whole,
                members_tokens(found),
                ts,
                seq![TokenView::Comma],
                behind,
            );
            lemma_starts_with_chain(
                whole,
                members_tokens(found) + seq![TokenView::Comma],
                behind,
                member_tokens(m),
                next,
            );
            assert(longer.drop_last() =~= found);
            lemma_members_tail_was_written(whole, next, longer);
            if readable_members(found) {
                assert(readable_members(longer));
            }
        }
    }
}

/// The elements that were read were written at the front of the tokens.
pub proof fn lemma_elements_were_written(ts: TokensView)
    ensures
        elements_spec(ts).result matches Ok(es) ==> es.len() > 0 && readable_elements(es)
            && starts_with(ts, elements_tokens(es), elements_spec(ts).rest),
    decreases ts.ahead.len(), 4int,
{
    if let Ok(first) = value_spec(ts).result {
        lemma_value_was_written(ts);
        lemma_parse_consumes(ts);
        lemma_elements_tail_was_written(ts, value_spec(ts).rest, seq![first]);
    }
}

/// The elements that were read behind `found` were written behind what
/// `found` was written with, a comma in front of each.
proof fn lemma_elements_tail_was_written(
    whole: TokensView,
    ts: TokensView,
    found: Seq<ValueView>,
)
    requires
        found.len() > 0,
        starts_with(whole, elements_tokens(found), ts),
    ensures
        elements_tail(ts, found).result matches Ok(all) ==> {
            &&& all.len() > 0
            &&& readable_elements(found) ==> readable_elements(all)
            &&& starts_with(whole, elements_tokens(all), elements_tail(ts, found).rest)
        },
    decreases ts.ahead.len(), 4int,
{
    if ts.peek() == Ok::<Option<TokenView>, ErrorView>(Some(TokenView::Comma)) {
        let behind = ts.advance();
        if let Ok(v) = value_spec(behind).result {
            let next = value_spec(behind).rest;
            let longer = found.push(v);
            lemma_starts_with_taken(ts, TokenView::Comma);
            lemma_value_was_written(behind);
            lemma_parse_consumes(behind);
            lemma_starts_with_chain(
                whole,
                elements_tokens(found),
                ts,
                seq![TokenView::Comma],
                behind,
            );
            lemma_starts_with_chain(
                whole,
                elements_tokens(found) + seq![TokenView::Comma],
                behind,
                value_tokens(v),
                next,
            );
            assert(longer.drop_last() =~= found);
            lemma_elements_tail_was_written(whole, next, longer);
            if readable_elements(found) {
                assert(readable_elements(longer));
            }
        }
    }
}

/// The tokens that `members` are written with behind a member, a comma in
/// front of each.
pub open spec fn more_members_tokens(members: Seq<MemberView>) -> Seq<TokenView>
    decreases members.len(),
{
    if members.len() == 0 {
        Seq::empty()
    } else {
        seq![TokenView::Comma] + member_tokens(members[0]) + more_members_tokens(members.skip(1))
    }
}

/// The tokens that `elements` are written with behind an element, a comma
/// in front of each.
pub open spec fn more_elements_tokens(elements: Seq<ValueView>) -> Seq<TokenView>
    decreases elements.len(),
{
    if elements.len() == 0 {
        Seq::empty()
    } else {
        seq![TokenView::Comma] + value_tokens(elements[0]) + more_elements_tokens(
            elements.skip(1),
        )
    }
}

/// One more member behind others is written behind them.
proof fn lemma_more_members_push(members: Seq<MemberView>, member: MemberView)
    ensures
        more_members_tokens(members.push(member)) =~= more_members_tokens(members)
            + seq![TokenView::Comma] + member_tokens(member),
    decreases members.len(),
{
    let longer = members.push(member);
    if members.len() == 0 {
        assert(longer.skip(1) =~= Seq::<MemberView>::empty());
        assert(more_members_tokens(longer.skip(1)) =~= Seq::<TokenView>::empty());
    } else {
        lemma_more_members_push(members.skip(1), member);
        assert(longer.skip(1) =~= members.skip(1).push(member));
    }
}

/// One more element behind others is written behind them.
proof fn lemma_more_elements_push(elements: Seq<ValueView>, element: ValueView)
    ensures
        more_elements_tokens(elements.push(element)) =~= more_elements_tokens(elements)
            + seq![TokenView::Comma] + value_tokens(element),
    decreases elements.len(),
{
    let longer = elements.push(element);
    if elements.len() == 0 {
        assert(longer.skip(1) =~= Seq::<ValueView>::empty());
        assert(more_elements_tokens(longer.skip(1)) =~= Seq::<TokenView>::empty());
    } else {
        lemma_more_elements_push(elements.skip(1), element);
        assert(longer.skip(1) =~= elements.skip(1).push(element));
    }
}

/// Members are written as the first of them and the others behind it.
proof fn lemma_members_tokens_split(members: Seq<MemberView>)
    requires
        members.len() > 0,
    ensures
        members_tokens(members) =~= member_tokens(members[0]) + more_members_tokens(
            members.skip(1),
        ),
    decreases members.len(),
{
    if members.len() == 1 {
        assert(more_members_tokens(members.skip(1)) =~= Seq::<TokenView>::empty());
    } else {
        let front = members.drop_last();
        lemma_members_tokens_split(front);
        lemma_more_members_push(front.skip(1), members.last());
        assert(front.skip(1).push(members.last()) =~= members.skip(1));
    }
}

/// Elements are written as the first of them and the others behind it.
proof fn lemma_elements_tokens_split(elements: Seq<ValueView>)
    requires
        elements.len() > 0,
    ensures
        elements_tokens(elements) =~= value_tokens(elements[0]) + more_elements_tokens(
            elements.skip(1),
        ),
    decreases elements.len(),
{
    if elements.len() == 1 {
        assert(more_elements_tokens(elements.skip(1)) =~= Seq::<TokenView>::empty());
    } else {
        let front = elements.drop_last();
        lemma_elements_tokens_split(front);
        lemma_more_elements_push(front.skip(1), elements.last());
        assert(front.skip(1).push(elements.last()) =~= elements.skip(1));
    }
}

/// `ts` without the first `n` of its tokens.
pub open spec fn without(ts: TokensView, n: nat) -> TokensView {
    TokensView { ahead: ts.ahead.skip(n as int), eof: ts.eof }
}

/// Where two runs of tokens stand at the front, the second stands at the
/// front of what the first leaves.
proof fn lemma_starts_with_split(
    ts: TokensView,
    first: Seq<TokenView>,
    second: Seq<TokenView>,
    rest: TokensView,
)
    requires
        starts_with(ts, first + second, rest),
    ensures
        starts_with(ts, first, without(ts, first.len())),
        starts_with(without(ts, first.len()), second, rest),
{
    reveal(starts_with);
}

/// A token that stands at the front is the next to be seen and to be taken.
proof fn lemma_starts_with_first(
    ts: TokensView,
    token: TokenView,
    others: Seq<TokenView>,
    rest: TokensView,
)
    requires
        starts_with(ts, seq![token] + others, rest),
    ensures
        ts.peek() == Ok::<Option<TokenView>, ErrorView>(Some(token)),
        ts.next() == Ok::<Option<TokenView>, ErrorView>(Some(token)),
        starts_with(ts.advance(), others, rest),
{
    reveal(starts_with);
    assert(ts.ahead[0] == lexemes(seq![token] + others)[0]);
}

/// Where no tokens stand at the front, nothing was taken.
proof fn lemma_starts_with_nothing(ts: TokensView, rest: TokensView)
    requires
        starts_with(ts, Seq::empty(), rest),
    ensures
        ts == rest,
{
    reveal(starts_with);
    assert(ts.ahead =~= rest.ahead);
}

/// A value that a parse can give is written with at least one token, and
/// its first token starts a value.
proof fn lemma_value_tokens_first(v: ValueView)
    requires
        readable(v),
    ensures
        value_tokens(v).len() > 0,
        value_tokens(v)[0] is Literal || value_tokens(v)[0] is LeftBrace || value_tokens(v)[0]
            is LeftBracket,
        value_tokens(v) =~= seq![value_tokens(v)[0]] + value_tokens(v).skip(1),
{
}

/// Whether the tokens in `rest` end a run of members or elements: the next
/// one is scanned without error and is no comma.
pub open spec fn ends_run(rest: TokensView) -> bool {
    rest.peek() is Ok && rest.peek() != Ok::<Option<TokenView>, ErrorView>(
        Some(TokenView::Comma),
    )
}

/// A value that is written at the front of the tokens is read from them,
/// and what stands behind it is left.
pub proof fn lemma_value_is_read(v: ValueView, ts: TokensView, rest: TokensView)
    requires
        readable(v),
        starts_with(ts, value_tokens(v), rest),
    ensures
        value_spec(ts) == (Parsed { result: Ok::<ValueView, ErrorView>(v), rest }),
    decreases v,
{
    match v {
        ValueView::Object(None) => {
            assert(value_tokens(v) =~= seq![TokenView::LeftBrace] + seq![TokenView::RightBrace]);
            lemma_starts_with_first(ts, TokenView::LeftBrace, seq![TokenView::RightBrace], rest);
            assert(seq![TokenView::RightBrace] =~= seq![TokenView::RightBrace] + Seq::empty());
            lemma_starts_with_first(ts.advance(), TokenView::RightBrace, Seq::empty(), rest);
            lemma_starts_with_nothing(ts.advance().advance(), rest);
        },
        ValueView::Object(Some(members)) => {
            let inside = ts.advance();
            let tail = members_tokens(members) + seq![TokenView::RightBrace];
            assert(value_tokens(v) =~= seq![TokenView::LeftBrace] + tail);
            lemma_starts_with_first(ts, TokenView::LeftBrace, tail, rest);
            lemma_starts_with_split(
                inside,
                members_tokens(members),
                seq![TokenView::RightBrace],
                rest,
            );
            let end = without(inside, members_tokens(members).len());
            assert(seq![TokenView::RightBrace] =~= seq![TokenView::RightBrace] + Seq::empty());
            lemma_starts_with_first(end, TokenView::RightBrace, Seq::empty(), rest);
            lemma_starts_with_nothing(end.advance(), rest);
            // the key of the first member is no closing brace
            lemma_members_tokens_split(members);
            let key = TokenView::Literal(LiteralView::String(members[0].key));
            let behind_key = seq![TokenView::Colon] + value_tokens(members[0].value)
                + more_members_tokens(members.skip(1)) + seq![TokenView::RightBrace];
            assert(tail =~= seq![key] + behind_key);
            lemma_starts_with_first(inside, key, behind_key, rest);
            lemma_members_are_read(members, inside, end);
        },
        ValueView::Array(None) => {
            assert(value_tokens(v) =~= seq![TokenView::LeftBracket] + seq![
                TokenView::RightBracket,
            ]);
            lemma_starts_with_first(
                ts,
                TokenView::LeftBracket,
                seq![TokenView::RightBracket],
                rest,
            );
            assert(seq![TokenView::RightBracket] =~= seq![TokenView::RightBracket] + Seq::empty());
            lemma_starts_with_first(ts.advance(), TokenView::RightBracket, Seq::empty(), rest);
            lemma_starts_with_nothing(ts.advance().advance(), rest);
        },
        ValueView::Array(Some(elements)) => {
            let inside = ts.advance();
            let tail = elements_tokens(elements) + seq![TokenView::RightBracket];
            assert(value_tokens(v) =~= seq![TokenView::LeftBracket] + tail);
            lemma_starts_with_first(ts, TokenView::LeftBracket, tail, rest);
            lemma_starts_with_split(
                inside,
                elements_tokens(elements),
                seq![TokenView::RightBracket],
                rest,
            );
            let end = without(inside, elements_tokens(elements).len());
            assert(seq![TokenView::RightBracket] =~= seq![TokenView::RightBracket] + Seq::empty());
            lemma_starts_with_first(end, TokenView::RightBracket, Seq::empty(), rest);
            lemma_starts_with_nothing(end.advance(), rest);
            // the first token of the first element is no closing bracket
            lemma_elements_tokens_split(elements);
            lemma_value_tokens_first(elements[0]);
            let first = value_tokens(elements[0])[0];
            let behind_first = value_tokens(elements[0]).skip(1) + more_elements_tokens(
                elements.skip(1),
            ) + seq![TokenView::RightBracket];
            assert(tail =~= seq![first] + behind_first);
            lemma_starts_with_first(inside, first, behind_first, rest);
            lemma_elements_are_read(elements, inside, end);
        },
        ValueView::Bool(_) => {},
        _ => {
            let token = value_tokens(v)[0];
            assert(value_tokens(v) =~= seq![token] + Seq::empty());
            lemma_starts_with_first(ts, token, Seq::empty(), rest);
            lemma_starts_with_nothing(ts.advance(), rest);
        },
    }
}

/// A member that is written at the front of the tokens is read from them.
pub proof fn lemma_member_is_read(m: MemberView, ts: TokensView, rest: TokensView)
    requires
        readable(m.value),
        starts_with(ts, member_tokens(m), rest),
    ensures
        member_spec(ts) == (Parsed { result: Ok::<MemberView, ErrorView>(m), rest }),
    decreases m,
{
    let key = TokenView::Literal(LiteralView::String(m.key));
    let behind_key = seq![TokenView::Colon] + value_tokens(m.value);
    assert(member_tokens(m) =~= seq![key] + behind_key);
    lemma_starts_with_first(ts, key, behind_key, rest);
    lemma_starts_with_first(ts.advance(), TokenView::Colon, value_tokens(m.value), rest);
    lemma_value_is_read(m.value, ts.advance().advance(), rest);
}

/// Members that are written at the front of the tokens, with no comma
/// behind them, are read from them.
pub proof fn lemma_members_are_read(members: Seq<MemberView>, ts: TokensView, rest: TokensView)
    requires
        members.len() > 0,
        readable_members(members),
        starts_with(ts, members_tokens(members), rest),
        ends_run(rest),
    ensures
        members_spec(ts) == (Parsed { result: Ok::<Seq<MemberView>, ErrorView>(members), rest }),
    decreases members,
{
    let first = members[0];
    let others = members.skip(1);
    lemma_members_tokens_split(members);
    lemma_starts_with_split(ts, member_tokens(first), more_members_tokens(others), rest);
    let behind = without(ts, member_tokens(first).len());
    lemma_member_is_read(first, ts, behind);
    lemma_parse_consumes(ts);
    assert forall|i: int| 0 <= i < others.len() implies readable((#[trigger] others[i]).value) by {
        assert(others[i] == members[i + 1]);
    }
    lemma_members_tail_is_read(behind, seq![first], others, rest);
    assert(seq![first] + others =~= members);
}

/// Members that are written behind others, with no comma behind them, are
/// read behind those.
proof fn lemma_members_tail_is_read(
    ts: TokensView,
    found: Seq<MemberView>,
    others: Seq<MemberView>,
    rest: TokensView,
)
    requires
        readable_members(others),
        starts_with(ts, more_members_tokens(others), rest),
        ends_run(rest),
    ensures
        members_tail(ts, found) == (Parsed {
            result: Ok::<Seq<MemberView>, ErrorView>(found + others),
            rest,
        }),
    decreases others,
{
    if others.len() == 0 {
        lemma_starts_with_nothing(ts, rest);
        assert(found + others =~= found);
    } else {
        let next = others[0];
        let later = others.skip(1);
        let behind_comma = member_tokens(next) + more_members_tokens(later);
        assert(more_members_tokens(others) =~= seq![TokenView::Comma] + behind_comma);
        lemma_starts_with_first(ts, TokenView::Comma, behind_comma, rest);
        let behind = ts.advance();
        lemma_starts_with_split(behind, member_tokens(next), more_members_tokens(later), rest);
        let end = without(behind, member_tokens(next).len());
        lemma_member_is_read(next, behind, end);
        lemma_parse_consumes(behind);
        assert forall|i: int| 0 <= i < later.len() implies readable(
            (#[trigger] later[i]).value,
        ) by {
            assert(later[i] == others[i + 1]);
        }
        lemma_members_tail_is_read(end, found.push(next), later, rest);
        assert(found.push(next) + later =~= found + others);
    }
}

/// Elements that are written at the front of the tokens, with no comma
/// behind them, are read from them.
pub proof fn lemma_elements_are_read(elements: Seq<ValueView>, ts: TokensView, rest: TokensView)
    requires
        elements.len() > 0,
        readable_elements(elements),
        starts_with(ts, elements_tokens(elements), rest),
        ends_run(rest),
    ensures
        elements_spec(ts) == (Parsed { result: Ok::<Seq<ValueView>, ErrorView>(elements), rest }),
    decreases elements,
{
    let first = elements[0];
    let others = elements.skip(1);
    lemma_elements_tokens_split(elements);
    lemma_starts_with_split(ts, value_tokens(first), more_elements_tokens(others), rest);
    let behind = without(ts, value_tokens(first).len());
    lemma_value_is_read(first, ts, behind);
    lemma_parse_consumes(ts);
    assert forall|i: int| 0 <= i < others.len() implies readable(#[trigger] others[i]) by {
        assert(others[i] == elements[i + 1]);
    }
    lemma_elements_tail_is_read(behind, seq![first], others, rest);
    assert(seq![first] + others =~= elements);
}

/// Elements that are written behind others, with no comma behind them, are
/// read behind those.
proof fn lemma_elements_tail_is_read(
    ts: TokensView,
    found: Seq<ValueView>,
    others: Seq<ValueView>,
    rest: TokensView,
)
    requires
        readable_elements(others),
        starts_with(ts, more_elements_tokens(others), rest),
        ends_run(rest),
    ensures
        elements_tail(ts, found) == (Parsed {
            result: Ok::<Seq<ValueView>, ErrorView>(found + others),
            rest,
        }),
    decreases others,
{
    if others.len() == 0 {
        lemma_starts_with_nothing(ts, rest);
        assert(found + others =~= found);
    } else {
        let next = others[0];
        let later = others.skip(1);
        let behind_comma = value_tokens(next) + more_elements_tokens(later);
        assert(more_elements_tokens(others) =~= seq![TokenView::Comma] + behind_comma);
        lemma_starts_with_first(ts, TokenView::Comma, behind_comma, rest);
        let behind = ts.advance();
        lemma_starts_with_split(behind, value_tokens(next), more_elements_tokens(later), rest);
        let end = without(behind, value_tokens(next).len());
        lemma_value_is_read(next, behind, end);
        lemma_parse_consumes(behind);
        assert forall|i: int| 0 <= i < later.len() implies readable(#[trigger] later[i]) by {
            assert(later[i] == others[i + 1]);
        }
        lemma_elements_tail_is_read(end, found.push(next), later, rest);
        assert(found.push(next) + later =~= found + others);
    }
}

/// How often `token` stands in `tokens`.
pub open spec fn occurrences(tokens: Seq<TokenView>, token: TokenView) -> nat
    decreases tokens.len(),
{
    if tokens.len() == 0 {
        0
    } else {
        occurrences(tokens.drop_last(), token) + if tokens.last() == token {
            1nat
        } else {
            0nat
        }
    }
}

/// Whether `tokens` hold as many closing braces as opening ones, and as many
/// closing brackets as opening ones.
pub open spec fn balanced(tokens: Seq<TokenView>) -> bool {
    &&& occurrences(tokens, TokenView::LeftBrace) == occurrences(tokens, TokenView::RightBrace)
    &&& occurrences(tokens, TokenView::LeftBracket) == occurrences(
        tokens,
        TokenView::RightBracket,
    )
}

/// A token stands in two runs as often as in the first and in the second
/// together.
proof fn lemma_occurrences_concat(a: Seq<TokenView>, b: Seq<TokenView>, token: TokenView)
    ensures
        occurrences(a + b, token) == occurrences(a, token) + occurrences(b, token),
    decreases b.len(),
{
    if b.len() == 0 {
        assert(a + b =~= a);
    } else {
        lemma_occurrences_concat(a, b.drop_last(), token);
        assert((a + b).drop_last() =~= a + b.drop_last());
    }
}

/// Two balanced runs, one behind the other, are balanced.
proof fn lemma_balanced_concat(a: Seq<TokenView>, b: Seq<TokenView>)
    requires
        balanced(a),
        balanced(b),
    ensures
        balanced(a + b),
{
    lemma_occurrences_concat(a, b, TokenView::LeftBrace);
    lemma_occurrences_concat(a, b, TokenView::RightBrace);
    lemma_occurrences_concat(a, b, TokenView::LeftBracket);
    lemma_occurrences_concat(a, b, TokenView::RightBracket);
}

/// A run of one token that is neither brace nor bracket is balanced, and so
/// are a pair of braces and a pair of brackets around a balanced run.
proof fn lemma_balanced_parts(token: TokenView, inside: Seq<TokenView>)
    requires
        balanced(inside),
    ensures
        !(token is LeftBrace || token is RightBrace || token is LeftBracket || token
            is RightBracket) ==> balanced(seq![token]),
        balanced(seq![TokenView::LeftBrace] + inside + seq![TokenView::RightBrace]),
        balanced(seq![TokenView::LeftBracket] + inside + seq![TokenView::RightBracket]),
        balanced(Seq::empty()),
{
    reveal_with_fuel(occurrences, 2);
    let one = seq![token];
    assert(one.drop_last() =~= Seq::<TokenView>::empty());
    let braces = seq![TokenView::LeftBrace] + inside + seq![TokenView::RightBrace];
    let brackets = seq![TokenView::LeftBracket] + inside + seq![TokenView::RightBracket];
    assert(braces.drop_last() =~= seq![TokenView::LeftBrace] + inside);
    assert(brackets.drop_last() =~= seq![TokenView::LeftBracket] + inside);
    assert(seq![TokenView::LeftBrace].drop_last() =~= Seq::<TokenView>::empty());
    assert(seq![TokenView::LeftBracket].drop_last() =~= Seq::<TokenView>::empty());
    lemma_occurrences_concat(seq![TokenView::LeftBrace], inside, TokenView::LeftBrace);
    lemma_occurrences_concat(seq![TokenView::LeftBrace], inside, TokenView::RightBrace);
    lemma_occurrences_concat(seq![TokenView::LeftBrace], inside, TokenView::LeftBracket);
    lemma_occurrences_concat(seq![TokenView::LeftBrace], inside, TokenView::RightBracket);
    lemma_occurrences_concat(seq![TokenView::LeftBracket], inside, TokenView::LeftBrace);
    lemma_occurrences_concat(seq![TokenView::LeftBracket], inside, TokenView::RightBrace);
    lemma_occurrences_concat(seq![TokenView::LeftBracket], inside, TokenView::LeftBracket);
    lemma_occurrences_concat(seq![TokenView::LeftBracket], inside, TokenView::RightBracket);
}

/// What a value is written with closes every brace and every bracket that
/// it opens. With [`lemma_value_was_written`] this holds of the tokens that
/// a parse takes for a value: each production closes what it opened before
/// it returns.
pub proof fn lemma_written_is_balanced(v: ValueView)
    ensures
        balanced(value_tokens(v)),
    decreases v,
{
    lemma_balanced_parts(TokenView::Comma, Seq::empty());
    match v {
        ValueView::Object(None) => {
            assert(value_tokens(v) =~= seq![TokenView::LeftBrace] + Seq::empty() + seq![
                TokenView::RightBrace,
            ]);
        },
        ValueView::Object(Some(members)) => {
            lemma_members_are_balanced(members);
            lemma_balanced_parts(TokenView::Comma, members_tokens(members));
        },
        ValueView::Array(None) => {
            assert(value_tokens(v) =~= seq![TokenView::LeftBracket] + Seq::empty() + seq![
                TokenView::RightBracket,
            ]);
        },
        ValueView::Array(Some(elements)) => {
            lemma_elements_are_balanced(elements);
            lemma_balanced_parts(TokenView::Comma, elements_tokens(elements));
        },
        ValueView::Bool(_) => {},
        _ => {
            lemma_balanced_parts(value_tokens(v)[0], Seq::empty());
            assert(value_tokens(v) =~= seq![value_tokens(v)[0]]);
        },
    }
}

/// What members are written with is balanced.
proof fn lemma_members_are_balanced(members: Seq<MemberView>)
    ensures
        balanced(members_tokens(members)),
    decreases members,
{
    lemma_balanced_parts(TokenView::Comma, Seq::empty());
    if members.len() > 0 {
        let last = members.last();
        let key = TokenView::Literal(LiteralView::String(last.key));
        lemma_written_is_balanced(last.value);
        lemma_balanced_parts(key, Seq::empty());
        lemma_balanced_parts(TokenView::Colon, Seq::empty());
        lemma_balanced_concat(seq![key], seq![TokenView::Colon]);
        assert(seq![key] + seq![TokenView::Colon] =~= seq![key, TokenView::Colon]);
        lemma_balanced_concat(seq![key, TokenView::Colon], value_tokens(last.value));
        assert(balanced(member_tokens(last)));
        if members.len() == 1 {
            assert(members[0] == last);
        }
        if members.len() > 1 {
            lemma_members_are_balanced(members.drop_last());
            lemma_balanced_concat(members_tokens(members.drop_last()), seq![TokenView::Comma]);
            lemma_balanced_concat(
                members_tokens(members.drop_last()) + seq![TokenView::Comma],
                member_tokens(last),
            );
        }
    }
}

/// What elements are written with is balanced.
proof fn lemma_elements_are_balanced(elements: Seq<ValueView>)
    ensures
        balanced(elements_tokens(elements)),
    decreases elements,
{
    lemma_balanced_parts(TokenView::Comma, Seq::empty());
    if elements.len() > 0 {
        let last = elements.last();
        lemma_written_is_balanced(last);
        if elements.len() == 1 {
            assert(elements[0] == last);
        }
        if elements.len() > 1 {
            lemma_elements_are_balanced(elements.drop_last());
            lemma_balanced_concat(elements_tokens(elements.drop_last()), seq![TokenView::Comma]);
            lemma_balanced_concat(
                elements_tokens(elements.drop_last()) + seq![TokenView::Comma],
                value_tokens(last),
            );
        }
    }
}

} // verus!
