//! The token stream and the cursor that reads it.
use vstd::prelude::*;

use crate::parser::Token;

verus! {

/// One item of the token stream.
#[derive(Clone, Copy, Debug, PartialEq, Eq, Structural)]
pub enum Lexeme {
    /// A token of the given kind.
    Token(Token),
    /// A stretch of input that belongs to no token kind. It matches no step.
    Unknown,
}

/// A forward cursor over a token stream. Copies of a cursor share the
/// stream and move independently of each other.
#[derive(Copy, Debug)]
pub struct TokenCursor<'a> {
    tokens: &'a [Lexeme],
    position: usize,
}

impl<'a> Clone for TokenCursor<'a> {
    /// A cursor of its own at the place where this one stands.
    fn clone(&self) -> (copy: TokenCursor<'a>)
        ensures
            copy == *self,
    {
        TokenCursor { tokens: self.tokens, position: self.position }
    }
}

impl<'a> View for TokenCursor<'a> {
    type V = Seq<Lexeme>;

    /// The items that the cursor has not yet handed out, next one first.
    closed spec fn view(&self) -> Seq<Lexeme> {
        if self.position <= self.tokens@.len() {
            self.tokens@.skip(self.position as int)
        } else {
            Seq::empty()
        }
    }
}

impl<'a> TokenCursor<'a> {
    /// A cursor that stands before the first item of `tokens`.
    pub fn new(tokens: &'a [Lexeme]) -> (cursor: TokenCursor<'a>)
        ensures
            cursor@ == tokens@,
    {
        TokenCursor { tokens, position: 0 }
    }

    /// Hands out the next item and moves past it, or returns `None` once
    /// the stream is used up and stays there.
    pub fn next(&mut self) -> (item: Option<Lexeme>)
        ensures
            old(self)@.len() == 0 ==> item is None && final(self)@ == old(self)@,
            old(self)@.len() > 0 ==> item == Some(old(self)@[0]) && final(self)@ == old(self)@.skip(1),
            seq![item] == handed_out(old(self)@, 1),
    {
        if self.position < self.tokens.len() {
            let item = self.tokens[self.position];
            self.position = self.position + 1;
            Some(item)
        } else {
            None
        }
    }
}

/// What the first `count` calls of `next` hand out from a cursor that holds
/// `stream`: its items in order and, once they are used up, `None`.
pub open spec fn handed_out(stream: Seq<Lexeme>, count: nat) -> Seq<Option<Lexeme>> {
    Seq::new(
        count,
        |i: int|
            if i < stream.len() {
                Some(stream[i])
            } else {
                None
            },
    )
}

/// Reading goes on where it stopped: what a cursor hands out in `first`
/// calls and then in `second` more is what it hands out in `first + second`
/// calls.
pub proof fn lemma_reading_goes_on(stream: Seq<Lexeme>, first: nat, second: nat)
    ensures
        handed_out(stream, first + second) == handed_out(stream, first) + handed_out(
            if first <= stream.len() {
                stream.skip(first as int)
            } else {
                Seq::empty()
            },
            second,
        ),
{
}

/// A cursor and a copy of it hand out the same items in the same order,
/// however many are read: what a cursor hands out depends on what it holds
/// alone. That the two move independently is what `clone` and `next` say of
/// themselves: `clone` gives a cursor of its own that holds the same, and
/// `next` changes the cursor it is called on and no other.
pub proof fn lemma_copies_are_independent(cursor: TokenCursor, copy: TokenCursor, count: nat)
    requires
        copy == cursor,
    ensures
        handed_out(copy@, count) == handed_out(cursor@, count),
{
}

} // verus!
