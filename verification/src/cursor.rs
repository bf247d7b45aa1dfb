//! A forward-only scanner over the characters of a text.

use std::sync::Arc;
use vstd::prelude::*;

verus! {

/// The first item of `s`, or `None` where `s` is empty.
pub open spec fn first_of<T>(s: Seq<T>) -> Option<T> {
    if s.len() > 0 {
        Some(s[0])
    } else {
        None
    }
}

/// The number of leading positions at which `s` and `t` hold the same
/// character, counted up to the first position where they differ or where one
/// of them ends.
pub open spec fn matched_len(s: Seq<char>, t: Seq<char>) -> nat
    decreases t.len(),
{
    if s.len() > 0 && t.len() > 0 && s[0] == t[0] {
        1 + matched_len(s.skip(1), t.skip(1))
    } else {
        0
    }
}

/// `matched_len` never exceeds the length of either text.
pub proof fn lemma_matched_len_bounds(s: Seq<char>, t: Seq<char>)
    ensures
        matched_len(s, t) <= s.len(),
        matched_len(s, t) <= t.len(),
    decreases t.len(),
{
    if s.len() > 0 && t.len() > 0 && s[0] == t[0] {
        lemma_matched_len_bounds(s.skip(1), t.skip(1));
    }
}

/// What a [`Cursor`] stands for in specifications: the text split at the
/// cursor's position.
pub ghost struct CursorView {
    /// The characters that have been consumed, oldest first.
    pub consumed: Seq<char>,
    /// The characters that have not been consumed yet, next first.
    pub remaining: Seq<char>,
}

impl CursorView {
    /// The view after `n` more characters have been consumed.
    pub open spec fn advance(self, n: nat) -> CursorView
        recommends
            n <= self.remaining.len(),
    {
        CursorView {
            consumed: self.consumed + self.remaining.take(n as int),
            remaining: self.remaining.skip(n as int),
        }
    }
}

/// A scanner over the characters of a text. It looks ahead without consuming,
/// consumes one character at a time, and never moves backwards.
///
/// The characters are shared between a cursor and its clones; each clone has
/// a position of its own.
#[derive(Debug)]
pub struct Cursor {
    chars: Arc<Vec<char>>,
    pos: usize,
}

impl View for Cursor {
    type V = CursorView;

    closed spec fn view(&self) -> CursorView {
        CursorView {
            consumed: self.chars@.take(self.pos as int),
            remaining: self.chars@.skip(self.pos as int),
        }
    }
}

impl Cursor {
    #[verifier::type_invariant]
    spec fn in_bounds(&self) -> bool {
        self.pos <= self.chars@.len()
    }

    /// A cursor at the start of `slice`.
    pub fn new(slice: &str) -> (c: Cursor)
        ensures
            c@.remaining == slice@,
            c@.consumed == Seq::<char>::empty(),
    {
        let mut chars: Vec<char> = Vec::new();
        for c in it: slice.chars()
            invariant
                it.seq() == slice@,
                chars@ == it.seq().take(it.index()),
        {
            chars.push(c);
        }
        assert(chars@ =~= slice@);
        let cursor = Cursor { chars: Arc::new(chars), pos: 0 };
        assert(cursor@.remaining =~= slice@);
        assert(cursor@.consumed =~= Seq::<char>::empty());
        cursor
    }

    /// Whether no character is left.
    pub fn is_eof(&self) -> (b: bool)
        ensures
            b == (self@.remaining.len() == 0),
    {
        proof {
            use_type_invariant(self);
        }
        self.pos >= self.chars.len()
    }

    /// The next character, which stays unconsumed.
    pub fn peek(&self) -> (r: Option<char>)
        ensures
            r == first_of(self@.remaining),
    {
        self.peek_nth(0)
    }

    /// The character `n` places ahead of the next one, which stays unconsumed.
    pub fn peek_nth(&self, n: usize) -> (r: Option<char>)
        ensures
            r == (if n < self@.remaining.len() {
                Some(self@.remaining[n as int])
            } else {
                None
            }),
    {
        proof {
            use_type_invariant(self);
        }
        if n < self.chars.len() - self.pos {
            Some(self.chars[self.pos + n])
        } else {
            None
        }
    }

    /// Consumes the next character and returns it. At the end of the text
    /// nothing changes.
    pub fn next_char(&mut self) -> (r: Option<char>)
        ensures
            r == first_of(old(self)@.remaining),
            final(self)@ == (if old(self)@.remaining.len() > 0 {
                old(self)@.advance(1)
            } else {
                old(self)@
            }),
    {
        proof {
            use_type_invariant(&*self);
        }
        if self.pos < self.chars.len() {
            let c = self.chars[self.pos];
            self.pos = self.pos + 1;
            proof {
                let before = old(self)@;
                assert(self@.remaining =~= before.advance(1).remaining);
                assert(self@.consumed =~= before.advance(1).consumed);
            }
            Some(c)
        } else {
            None
        }
    }

    /// Consumes characters for as long as `f` accepts the next one, and stops
    /// at the first that it rejects or at the end of the text. `f` is asked
    /// about each character once, and never about the end of the text.
    pub fn eat_while(&mut self, f: impl Fn(Option<char>) -> bool)
        requires
            forall|i: int|
                0 <= i < old(self)@.remaining.len() ==> f.requires(
                    (Some(#[trigger] old(self)@.remaining[i]),),
                ),
        ensures
            ({
                let s = old(self)@.remaining;
                let n = s.len() - final(self)@.remaining.len();
                &&& 0 <= n <= s.len()
                &&& final(self)@ == old(self)@.advance(n as nat)
                &&& forall|i: int| 0 <= i < n ==> f.ensures((Some(#[trigger] s[i]),), true)
                &&& n < s.len() ==> f.ensures((Some(s[n]),), false)
            }),
    {
        proof {
            use_type_invariant(&*self);
        }
        let ghost s = self@.remaining;
        let ghost start = self.pos;
        loop
            invariant
                self.chars == old(self).chars,
                start == old(self).pos,
                start <= self.pos <= self.chars@.len(),
                s == self.chars@.skip(start as int),
                forall|i: int| 0 <= i < s.len() ==> f.requires((Some(#[trigger] s[i]),)),
                forall|i: int|
                    0 <= i < self.pos - start ==> f.ensures((Some(#[trigger] s[i]),), true),
            ensures
                self.chars == old(self).chars,
                start <= self.pos <= self.chars@.len(),
                forall|i: int|
                    0 <= i < self.pos - start ==> f.ensures((Some(#[trigger] s[i]),), true),
                self.pos - start < s.len() ==> f.ensures((Some(s[self.pos - start]),), false),
            decreases self.chars@.len() - self.pos,
        {
            if self.pos >= self.chars.len() {
                break ;
            }
            let next = Some(self.chars[self.pos]);
            assert(next == Some(s[self.pos - start]));
            if !f(next) {
                break ;
            }
            self.pos = self.pos + 1;
        }
        proof {
            let n = (self.pos - start) as nat;
            assert(self@.remaining =~= old(self)@.advance(n).remaining);
            assert(self@.consumed =~= old(self)@.advance(n).consumed);
        }
    }

    /// Consumes the characters of `target` from the text one at a time, for as
    /// long as each is the next character, and says whether all of `target`
    /// was found. The characters that matched stay consumed when a later one
    /// does not match: the cursor does not go back.
    pub fn is_match(&mut self, target: &str) -> (r: bool)
        ensures
            r == (matched_len(old(self)@.remaining, target@) == target@.len()),
            final(self)@ == old(self)@.advance(matched_len(old(self)@.remaining, target@)),
    {
        proof {
            use_type_invariant(&*self);
        }
        let ghost s = self@.remaining;
        let ghost start = self.pos;
        assert(s.skip(0) =~= s && target@.skip(0) =~= target@);
        for c in it: target.chars()
            invariant
                it.seq() == target@,
                self.chars == old(self).chars,
                start == old(self).pos,
                s == self.chars@.skip(start as int),
                self.pos == start + it.index(),
                self.pos <= self.chars@.len(),
                matched_len(s, target@) == it.index() + matched_len(
                    s.skip(it.index()),
                    target@.skip(it.index()),
                ),
        {
            let ghost k = it.index();
            assert(target@.skip(k)[0] == c);
            if self.pos < self.chars.len() && self.chars[self.pos] == c {
                assert(s.skip(k)[0] == c);
                assert(s.skip(k).skip(1) =~= s.skip(k + 1));
                assert(target@.skip(k).skip(1) =~= target@.skip(k + 1));
                self.pos = self.pos + 1;
            } else {
                proof {
                    if self.pos < self.chars@.len() {
                        assert(s.skip(k)[0] == self.chars@[self.pos as int]);
                    }
                    assert(matched_len(s.skip(k), target@.skip(k)) == 0);
                    assert(self@.remaining =~= old(self)@.advance(k as nat).remaining);
                    assert(self@.consumed =~= old(self)@.advance(k as nat).consumed);
                }
                return false;
            }
        }
        proof {
            let n = target@.len();
            assert(matched_len(s.skip(n as int), target@.skip(n as int)) == 0);
            assert(self@.remaining =~= old(self)@.advance(n).remaining);
            assert(self@.consumed =~= old(self)@.advance(n).consumed);
        }
        true
    }

    /// The number of characters consumed so far.
    pub fn position_consumed(&self) -> (n: usize)
        ensures
            n == self@.consumed.len(),
    {
        proof {
            use_type_invariant(self);
        }
        self.pos
    }
}

impl Clone for Cursor {
    /// A cursor over the same text at the same position, which moves
    /// independently of this one.
    fn clone(&self) -> (r: Self)
        ensures
            r == *self,
    {
        proof {
            use_type_invariant(self);
        }
        Cursor { chars: self.chars.clone(), pos: self.pos }
    }
}

} // verus!
