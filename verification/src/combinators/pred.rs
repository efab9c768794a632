use vstd::prelude::*;

use crate::error::Error;
use crate::parser::Parser;
use crate::stream::Streamable;

verus! {

/// For parsing with a predicate: matches one token on which the predicate
/// returns true.
pub struct Pred<F>(pub F);

impl<I: Copy, F: Fn(&I) -> bool> Parser<I, I> for Pred<F> {
    /// The predicate must accept every token.
    open spec fn wf(&self) -> bool {
        forall|x: &I| call_requires(self.0, (x,))
    }

    /// If the predicate returns true of the next token, consume it and
    /// succeed; otherwise consume nothing and fail with an empty expected
    /// set (a predicate carries no printable description) and the token
    /// actually peeked, if any.
    open spec fn obeys(
        &self,
        tokens: Seq<I>,
        pos: int,
        consumed: int,
        result: Result<I, Error<I>>,
        end: int,
    ) -> bool {
        if pos < tokens.len() {
            ||| {
                &&& call_ensures(self.0, (&tokens[pos],), true)
                &&& consumed == 1
                &&& result matches Ok(t) && t == tokens[pos]
                &&& end == pos + 1
            }
            ||| {
                &&& call_ensures(self.0, (&tokens[pos],), false)
                &&& consumed == 0
                &&& end == pos
                &&& result matches Err(e) && e@.pos == pos && e@.expected == Seq::<I>::empty()
                    && e@.found == Some(tokens[pos])
            }
        } else {
            &&& consumed == 0
            &&& end == pos
            &&& result matches Err(e) && e@.pos == pos && e@.expected == Seq::<I>::empty()
                && e@.found == None::<I>
        }
    }

    fn parse_impl<S: Streamable<I>>(&self, stream: &mut S, errors: &mut Vec<Error<I>>) -> (r: (
        usize,
        Result<I, Error<I>>)) {
        let peeked: Option<I> = match stream.peek() {
            Some(x) => Some(*x),
            None => None,
        };
        match peeked {
            Some(x) => {
                if (self.0)(&x) {
                    let t = stream.next().unwrap();
                    (1, Ok(t))
                } else {
                    let err = Error::Unexpected(stream.position(), Vec::new(), peeked);
                    proof {
                        assert(err@.expected =~= Seq::<I>::empty());
                    }
                    (0, Err(err))
                }
            },
            None => {
                let err = Error::Unexpected(stream.position(), Vec::new(), None);
                proof {
                    assert(err@.expected =~= Seq::<I>::empty());
                }
                (0, Err(err))
            },
        }
    }
}

/// Constructs [`Pred`]: a parser that matches one token satisfying `f`.
pub fn pred<I, F: Fn(&I) -> bool>(f: F) -> (p: Pred<F>)
    ensures
        p.0 == f,
{
    Pred(f)
}

} // verus!
