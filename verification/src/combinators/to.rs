use core::marker::PhantomData;

use vstd::prelude::*;

use crate::error::Error;
use crate::parser::Parser;
use crate::stream::Streamable;

verus! {

/// For converting output to a fixed value (`O` to `N`): delegates to the
/// inner parser and replaces any successful output with a constant,
/// regardless of what was actually matched, preserving the consumed count
/// and leaving failures untouched.
pub struct To<P, N, O>(pub P, pub N, pub PhantomData<O>);

/// Replacing the output preserves the consumed count, the stream position,
/// and failure-versus-success exactly as the inner parser has them: a
/// failure is the inner parser's failure untouched, and a success is an
/// inner success whose value is the fixed constant, regardless of what was
/// matched.
pub proof fn lemma_to_preserves<I, O, N: Copy, P: Parser<I, O>>(
    this: To<P, N, O>,
    tokens: Seq<I>,
    pos: int,
    consumed: int,
    end: int,
    n: N,
    e: Error<I>,
)
    ensures
        this.obeys(tokens, pos, consumed, Err(e), end) <==> this.0.obeys(
            tokens,
            pos,
            consumed,
            Err(e),
            end,
        ),
        this.obeys(tokens, pos, consumed, Ok(n), end) <==> n == this.1 && exists|o: O|
            #[trigger] this.0.obeys(tokens, pos, consumed, Ok(o), end),
{
}

impl<I, O, N: Copy, P: Parser<I, O>> Parser<I, N> for To<P, N, O> {
    open spec fn wf(&self) -> bool {
        self.0.wf()
    }

    /// A success is a success of the inner parser with its value replaced by
    /// the constant; a failure is exactly the inner parser's failure. Both
    /// keep the inner consumed count and stream position.
    open spec fn obeys(
        &self,
        tokens: Seq<I>,
        pos: int,
        consumed: int,
        result: Result<N, Error<I>>,
        end: int,
    ) -> bool {
        match result {
            Ok(n) => n == self.1 && exists|o: O|
                #[trigger] self.0.obeys(tokens, pos, consumed, Ok(o), end),
            Err(e) => self.0.obeys(tokens, pos, consumed, Err(e), end),
        }
    }

    fn parse_impl<S: Streamable<I>>(&self, stream: &mut S, errors: &mut Vec<Error<I>>) -> (r: (
        usize,
        Result<N, Error<I>>)) {
        let ghost t0 = stream.tokens();
        let ghost pos0 = stream.pos();
        let (p, res) = self.0.parse_impl(stream, errors);
        let ghost end = stream.pos();
        match res {
            Ok(o) => {
                let ghost go = o;
                let ret = (p, Ok(self.1));
                proof {
                    assert(self.obeys(t0, pos0, ret.0 as int, ret.1, end)) by {
                        assert(self.0.obeys(t0, pos0, p as int, Ok(go), end));
                    }
                }
                ret
            },
            Err(e) => (p, Err(e)),
        }
    }
}

/// Constructs [`To`]: `parser` with any successful output replaced by
/// `new_output`.
pub fn to<P, N: Copy, O>(parser: P, new_output: N) -> (r: To<P, N, O>)
    ensures
        r.0 == parser,
        r.1 == new_output,
{
    To(parser, new_output, PhantomData)
}

} // verus!
