use vstd::prelude::*;

verus! {

/// Types that implement this trait can be used as input for a parser.
///
/// A streamable source hands out tokens one at a time: `peek` inspects the
/// next token without consuming it, `next` consumes it, and `position`
/// reports how many tokens have been consumed so far. The spec functions
/// `tokens` and `pos` model the source as the full token sequence together
/// with a cursor into it, which never runs past the end of the sequence.
pub trait Streamable<I> {
    /// The full sequence of tokens this source ranges over.
    spec fn tokens(&self) -> Seq<I>;

    /// The cursor: how many tokens have been consumed so far.
    spec fn pos(&self) -> int;

    /// Returns the next token without advancing.
    fn peek(&mut self) -> (r: Option<&I>)
        requires
            0 <= old(self).pos() <= old(self).tokens().len(),
        ensures
            final(self).tokens() == old(self).tokens(),
            final(self).pos() == old(self).pos(),
            match r {
                Some(t) => old(self).pos() < old(self).tokens().len() && *t == old(self).tokens()[old(
                    self,
                ).pos()],
                None => old(self).pos() == old(self).tokens().len(),
            },
    ;

    /// Returns and consumes the next token, advancing the position by one.
    fn next(&mut self) -> (r: Option<I>)
        requires
            0 <= old(self).pos() <= old(self).tokens().len(),
        ensures
            final(self).tokens() == old(self).tokens(),
            match r {
                Some(t) => old(self).pos() < old(self).tokens().len() && t == old(self).tokens()[old(
                    self,
                ).pos()] && final(self).pos() == old(self).pos() + 1,
                None => old(self).pos() == old(self).tokens().len() && final(self).pos() == old(
                    self,
                ).pos(),
            },
    ;

    /// Returns the number of tokens consumed so far.
    fn position(&self) -> (r: usize)
        requires
            0 <= self.pos() <= self.tokens().len(),
        ensures
            r == self.pos(),
    ;
}

/// A token source backed by a vector of tokens, positioned by a cursor.
///
/// The position equals the count of tokens consumed so far; peeking never
/// advances it. On an exhausted source `peek` and `next` return nothing and
/// the position keeps its last value.
pub struct Stream<I> {
    tokens: Vec<I>,
    cursor: usize,
}

impl<I: Copy> Stream<I> {
    /// Wraps a vector of tokens as a fresh stream positioned at its start.
    pub fn new(tokens: Vec<I>) -> (s: Self)
        ensures
            s.tokens() == tokens@,
            s.pos() == 0,
    {
        Stream { tokens, cursor: 0 }
    }
}

impl<I: Copy> Streamable<I> for Stream<I> {
    closed spec fn tokens(&self) -> Seq<I> {
        self.tokens@
    }

    closed spec fn pos(&self) -> int {
        self.cursor as int
    }

    fn peek(&mut self) -> (r: Option<&I>) {
        if self.cursor < self.tokens.len() {
            Some(&self.tokens[self.cursor])
        } else {
            None
        }
    }

    fn next(&mut self) -> (r: Option<I>) {
        if self.cursor < self.tokens.len() {
            let t = self.tokens[self.cursor];
            self.cursor = self.cursor + 1;
            Some(t)
        } else {
            None
        }
    }

    fn position(&self) -> (r: usize) {
        self.cursor
    }
}

} // verus!
