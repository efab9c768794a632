use vstd::prelude::*;

use crate::error::Error;
use crate::parser::Parser;
use crate::stream::Streamable;
use vstd::std_specs::cmp::PartialEqSpec;

verus! {

/// For parsing specific things (like an operator, a keyword, etcetera):
/// matches one token equal to a given one.
#[derive(Debug)]
pub struct Just<Input>(pub Input);

impl<Input: Copy + PartialEq> Parser<Input, Input> for Just<Input> {
    /// Equality on `Input` must mean what its `eq_spec` says, so that one
    /// comparison decides the step.
    open spec fn wf(&self) -> bool {
        <Input as PartialEqSpec>::obeys_eq_spec()
    }

    /// If the next token equals the wanted one, consume it and succeed;
    /// otherwise consume nothing and report the wanted token as expected,
    /// together with the token actually peeked, if any.
    open spec fn obeys(
        &self,
        tokens: Seq<Input>,
        pos: int,
        consumed: int,
        result: Result<Input, Error<Input>>,
        end: int,
    ) -> bool {
        if pos < tokens.len() && tokens[pos].eq_spec(&self.0) {
            &&& consumed == 1
            &&& result matches Ok(t) && t == tokens[pos]
            &&& end == pos + 1
        } else {
            &&& consumed == 0
            &&& end == pos
            &&& result matches Err(e) && e@.pos == pos && e@.expected == seq![self.0] && e@.found
                == (if pos < tokens.len() {
                Some(tokens[pos])
            } else {
                None::<Input>
            })
        }
    }

    fn parse_impl<S: Streamable<Input>>(&self, stream: &mut S, errors: &mut Vec<Error<Input>>) -> (
        r: (usize, Result<Input, Error<Input>>)) {
        let peeked: Option<Input> = match stream.peek() {
            Some(x) => Some(*x),
            None => None,
        };
        match peeked {
            Some(x) => {
                if x == self.0 {
                    let t = stream.next().unwrap();
                    (1, Ok(t))
                } else {
                    let err = Error::Unexpected(stream.position(), vec![self.0], peeked);
                    proof {
                        assert(err@.expected =~= seq![self.0]);
                    }
                    (0, Err(err))
                }
            },
            None => {
                let err = Error::Unexpected(stream.position(), vec![self.0], None);
                proof {
                    assert(err@.expected =~= seq![self.0]);
                }
                (0, Err(err))
            },
        }
    }
}

/// Constructs [`Just`]: a parser that matches one token equal to `x`.
pub fn just<I: Copy + PartialEq>(x: I) -> (p: Just<I>)
    ensures
        p.0 == x,
{
    Just(x)
}

/// For all tokens `x`: `just(x)` against a stream whose next token is `x`
/// succeeds, consumes one token and returns that token; against a stream
/// whose next token differs from `x`, or is absent, it fails, consumes
/// nothing, and reports the position, the expected token `x`, and the token
/// found, if any. Stated for token types whose equality test means equality.
pub proof fn lemma_just_matches<I: Copy + PartialEq>(
    x: I,
    tokens: Seq<I>,
    pos: int,
    consumed: int,
    result: Result<I, Error<I>>,
    end: int,
)
    requires
        forall|a: I, b: I| #[trigger] a.eq_spec(&b) <==> a == b,
        Just(x).obeys(tokens, pos, consumed, result, end),
    ensures
        pos < tokens.len() && tokens[pos] == x ==> {
            &&& consumed == 1
            &&& result matches Ok(t) && t == x
            &&& end == pos + 1
        },
        !(pos < tokens.len() && tokens[pos] == x) ==> {
            &&& consumed == 0
            &&& end == pos
            &&& result matches Err(e) && e@.pos == pos && e@.expected == seq![x] && e@.found == (
            if pos < tokens.len() {
                Some(tokens[pos])
            } else {
                None::<I>
            })
        },
{
}

} // verus!
