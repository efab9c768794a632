use core::marker::PhantomData;

use vstd::prelude::*;

use crate::error::Error;
use crate::parser::Parser;
use crate::stream::Streamable;

verus! {

/// For mapping output from one type to another (`O` to `N`) via a function
/// (`F`): delegates to the inner parser and transforms a successful value,
/// preserving the consumed count and leaving failures untouched.
pub struct Mapped<P, F, O>(pub P, pub F, pub PhantomData<O>);

/// Mapping preserves the consumed count, the stream position, and
/// failure-versus-success exactly as the inner parser has them: a failure is
/// the inner parser's failure untouched, and a success is an inner success
/// with only its value transformed by the function.
pub proof fn lemma_mapped_preserves<I, O, N, P: Parser<I, O>, F: Fn(O) -> N>(
    this: Mapped<P, F, O>,
    tokens: Seq<I>,
    pos: int,
    consumed: int,
    end: int,
    n: N,
    e: Error<I>,
)
    ensures
        this.obeys(tokens, pos, consumed, Err(e), end) <==> this.0.obeys(
            tokens,
            pos,
            consumed,
            Err(e),
            end,
        ),
        this.obeys(tokens, pos, consumed, Ok(n), end) <==> exists|o: O|
            #[trigger] this.0.obeys(tokens, pos, consumed, Ok(o), end) && call_ensures(
                this.1,
                (o,),
                n,
            ),
{
}

impl<I, O, N, P: Parser<I, O>, F: Fn(O) -> N> Parser<I, N> for Mapped<P, F, O> {
    /// The inner parser must be usable and the function must accept every
    /// value the inner parser can produce.
    open spec fn wf(&self) -> bool {
        &&& self.0.wf()
        &&& forall|o: O| call_requires(self.1, (o,))
    }

    /// A success is a success of the inner parser with the function applied
    /// to its value; a failure is exactly the inner parser's failure. Both
    /// keep the inner consumed count and stream position.
    open spec fn obeys(
        &self,
        tokens: Seq<I>,
        pos: int,
        consumed: int,
        result: Result<N, Error<I>>,
        end: int,
    ) -> bool {
        match result {
            Ok(n) => exists|o: O|
                #[trigger] self.0.obeys(tokens, pos, consumed, Ok(o), end) && call_ensures(
                    self.1,
                    (o,),
                    n,
                ),
            Err(e) => self.0.obeys(tokens, pos, consumed, Err(e), end),
        }
    }

    fn parse_impl<S: Streamable<I>>(&self, stream: &mut S, errors: &mut Vec<Error<I>>) -> (r: (
        usize,
        Result<N, Error<I>>)) {
        let ghost t0 = stream.tokens();
        let ghost pos0 = stream.pos();
        let (p, res) = self.0.parse_impl(stream, errors);
        let ghost end = stream.pos();
        match res {
            Ok(o) => {
                let ghost go = o;
                let n = (self.1)(o);
                let ret = (p, Ok(n));
                proof {
                    assert(self.obeys(t0, pos0, ret.0 as int, ret.1, end)) by {
                        assert(self.0.obeys(t0, pos0, p as int, Ok(go), end));
                    }
                }
                ret
            },
            Err(e) => (p, Err(e)),
        }
    }
}

} // verus!
