use vstd::prelude::*;

use crate::error::Error;
use crate::parser::Parser;
use crate::stream::Streamable;

verus! {

/// Holds when, starting from `pos` in `tokens`, the parser `p` can succeed
/// `outs.len()` times in a row, producing the values of `outs` in order,
/// each step advancing the stream, ending at position `end`.
pub open spec fn repeat_chain<I, O, P: Parser<I, O>>(
    p: P,
    tokens: Seq<I>,
    pos: int,
    outs: Seq<O>,
    end: int,
) -> bool
    decreases outs.len(),
{
    if outs.len() == 0 {
        end == pos
    } else {
        exists|c: int, mid: int|
            {
                &&& #[trigger] p.obeys(tokens, pos, c, Ok(outs[0]), mid)
                &&& pos < mid <= tokens.len()
                &&& repeat_chain(p, tokens, mid, outs.drop_first(), end)
            }
    }
}

/// A chain extends by one more success at its end.
proof fn lemma_repeat_chain_snoc<I, O, P: Parser<I, O>>(
    p: P,
    tokens: Seq<I>,
    pos: int,
    outs: Seq<O>,
    mid: int,
    c: int,
    o: O,
    mid2: int,
)
    requires
        repeat_chain(p, tokens, pos, outs, mid),
        p.obeys(tokens, mid, c, Ok(o), mid2),
        mid < mid2 <= tokens.len(),
    ensures
        repeat_chain(p, tokens, pos, outs.push(o), mid2),
    decreases outs.len(),
{
    if outs.len() == 0 {
        assert(outs.push(o)[0] == o);
        assert(outs.push(o).drop_first() =~= Seq::<O>::empty());
        assert(repeat_chain(p, tokens, mid2, outs.push(o).drop_first(), mid2));
    } else {
        let (c1, m1) = choose|c1: int, m1: int|
            {
                &&& #[trigger] p.obeys(tokens, pos, c1, Ok(outs[0]), m1)
                &&& pos < m1 <= tokens.len()
                &&& repeat_chain(p, tokens, m1, outs.drop_first(), mid)
            };
        lemma_repeat_chain_snoc(p, tokens, m1, outs.drop_first(), mid, c, o, mid2);
        assert(outs.push(o).drop_first() =~= outs.drop_first().push(o));
        assert(outs.push(o)[0] == outs[0]);
        assert(p.obeys(tokens, pos, c1, Ok(outs.push(o)[0]), m1));
    }
}

/// For repeating a parser (`P`) greedily until it fails; the failing step's
/// error is discarded, so repetition itself never fails. To prevent a loop
/// that makes no progress, a success that consumes nothing also stops the
/// repetition, without recording its output.
pub struct Repeat<P>(pub P);

impl<I, O, P: Parser<I, O>> Parser<I, Vec<O>> for Repeat<P> {
    open spec fn wf(&self) -> bool {
        self.0.wf()
    }

    /// The result is always a success: the values of a longest chain of
    /// advancing successes of the inner parser, with the reported count
    /// being the stream position reached before the stopping attempt (equal
    /// to the tokens consumed when the repetition starts at the beginning of
    /// the stream). The stopping attempt either failed — the stream keeps
    /// any tokens that attempt consumed — or succeeded without advancing.
    open spec fn obeys(
        &self,
        tokens: Seq<I>,
        pos: int,
        consumed: int,
        result: Result<Vec<O>, Error<I>>,
        end: int,
    ) -> bool {
        &&& result matches Ok(v) && repeat_chain(self.0, tokens, pos, v@, consumed)
        &&& {
            ||| exists|c2: int, e: Error<I>| #[trigger]
                self.0.obeys(tokens, consumed, c2, Err(e), end)
            ||| (end == consumed && exists|c2: int, o: O| #[trigger]
                self.0.obeys(tokens, consumed, c2, Ok(o), consumed))
        }
    }

    fn parse_impl<S: Streamable<I>>(&self, stream: &mut S, errors: &mut Vec<Error<I>>) -> (r: (
        usize,
        Result<Vec<O>, Error<I>>)) {
        let ghost t0 = stream.tokens();
        let ghost pos0 = stream.pos();
        let ghost errs0 = errors@;
        let mut outputs: Vec<O> = Vec::new();
        let mut p = stream.position();
        loop
            invariant_except_break
                self.wf(),
                
                stream.tokens() == t0,
                pos0 <= stream.pos() <= t0.len(),
                p == stream.pos(),
                errors@ == errs0,
                repeat_chain(self.0, t0, pos0, outputs@, p as int),
            ensures
                
                stream.tokens() == t0,
                pos0 <= p <= stream.pos() <= t0.len(),
                errors@ == errs0,
                repeat_chain(self.0, t0, pos0, outputs@, p as int),
                ({
                    ||| exists|c2: int, e: Error<I>| #[trigger]
                        self.0.obeys(t0, p as int, c2, Err(e), stream.pos())
                    ||| (stream.pos() == p && exists|c2: int, o: O| #[trigger]
                        self.0.obeys(t0, p as int, c2, Ok(o), p as int))
                }),
            decreases t0.len() - stream.pos(),
        {
            let before = stream.position();
            let (np, res) = self.0.parse_impl(stream, errors);
            match res {
                Ok(o) => {
                    let now = stream.position();
                    if now == before {
                        proof {
                            assert(self.0.obeys(t0, p as int, np as int, Ok(o), p as int));
                        }
                        break ;
                    }
                    proof {
                        lemma_repeat_chain_snoc(
                            self.0,
                            t0,
                            pos0,
                            outputs@,
                            p as int,
                            np as int,
                            o,
                            now as int,
                        );
                    }
                    outputs.push(o);
                    p = now;
                },
                Err(e) => {
                    proof {
                        assert(self.0.obeys(t0, p as int, np as int, Err(e), stream.pos()));
                    }
                    break ;
                },
            }
        }
        let ret = (p, Ok(outputs));
        proof {
            assert(self.obeys(t0, pos0, ret.0 as int, ret.1, stream.pos()));
        }
        ret
    }
}

/// Constructs [`Repeat`]: `p`'s parser applied greedily until it fails.
pub fn repeat<P>(p: P) -> (r: Repeat<P>)
    ensures
        r.0 == p,
{
    Repeat(p)
}

/// Repetition never returns an error, whatever the input and however its
/// inner parser behaves.
pub proof fn lemma_repeat_never_fails<I, O, P: Parser<I, O>>(
    this: Repeat<P>,
    tokens: Seq<I>,
    pos: int,
    consumed: int,
    result: Result<Vec<O>, Error<I>>,
    end: int,
)
    requires
        this.obeys(tokens, pos, consumed, result, end),
    ensures
        result is Ok,
{
}

/// When the inner parser can only fail — as on empty input for a parser
/// that wants a token — repetition succeeds with the empty sequence and
/// reports the position it started from: zero matches consume nothing.
pub proof fn lemma_repeat_empty<I, O, P: Parser<I, O>>(
    this: Repeat<P>,
    tokens: Seq<I>,
    pos: int,
    consumed: int,
    result: Result<Vec<O>, Error<I>>,
    end: int,
)
    requires
        this.obeys(tokens, pos, consumed, result, end),
        forall|c: int, r: Result<O, Error<I>>, e: int|
            #[trigger] this.0.obeys(tokens, pos, c, r, e) ==> r is Err,
    ensures
        result matches Ok(v) && v@ =~= Seq::<O>::empty(),
        consumed == pos,
{
    let v = result->Ok_0;
    if v@.len() != 0 {
        assert(exists|c: int, mid: int|
            {
                &&& #[trigger] this.0.obeys(tokens, pos, c, Ok(v@[0]), mid)
                &&& pos < mid <= tokens.len()
                &&& repeat_chain(this.0, tokens, mid, v@.drop_first(), consumed)
            });
    }
}

} // verus!
