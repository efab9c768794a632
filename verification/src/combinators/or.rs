use vstd::prelude::*;

use crate::error::{spec_merge, Error};
use crate::parser::Parser;
use crate::stream::Streamable;

verus! {

/// For choosing between two parsers (`P1` and `P2`), with a commit rule:
/// the second parser is tried only when the first fails without having
/// consumed any token. Alternation is not full backtracking; a partial match
/// by the first parser forecloses the alternative.
pub struct Or<P1, P2>(pub P1, pub P2);

/// Constructs [`Or`]: `p1`'s parser, or else `p2`'s.
pub fn or<P1, P2>(p1: P1, p2: P2) -> (r: Or<P1, P2>)
    ensures
        r.0 == p1,
        r.1 == p2,
{
    Or(p1, p2)
}

/// When the first parser can only succeed, the choice returns the first
/// parser's outcome unchanged, and the second parser plays no part in it.
pub proof fn lemma_or_first_success<I, O, P1: Parser<I, O>, P2: Parser<I, O>>(
    this: Or<P1, P2>,
    tokens: Seq<I>,
    pos: int,
    consumed: int,
    result: Result<O, Error<I>>,
    end: int,
)
    requires
        this.obeys(tokens, pos, consumed, result, end),
        forall|c: int, r: Result<O, Error<I>>, e: int|
            #[trigger] this.0.obeys(tokens, pos, c, r, e) ==> r is Ok,
    ensures
        result is Ok,
        this.0.obeys(tokens, pos, consumed, result, end),
{
}

/// When the first parser can only fail without consuming and the second can
/// only succeed, the choice returns the second parser's outcome unchanged.
pub proof fn lemma_or_second_success<I, O, P1: Parser<I, O>, P2: Parser<I, O>>(
    this: Or<P1, P2>,
    tokens: Seq<I>,
    pos: int,
    consumed: int,
    result: Result<O, Error<I>>,
    end: int,
)
    requires
        this.obeys(tokens, pos, consumed, result, end),
        forall|c: int, r: Result<O, Error<I>>, e: int|
            #[trigger] this.0.obeys(tokens, pos, c, r, e) ==> r is Err && c == 0,
        forall|c: int, r: Result<O, Error<I>>, e: int|
            #[trigger] this.1.obeys(tokens, pos, c, r, e) ==> r is Ok,
    ensures
        result is Ok,
        this.1.obeys(tokens, pos, consumed, result, end),
{
}

/// When both parsers can only fail, the first without consuming, the choice
/// fails with the second failure's consumed count and the merge of the two
/// errors: the furthest failure, or the pooled expectations at a tie.
pub proof fn lemma_or_both_fail<I, O, P1: Parser<I, O>, P2: Parser<I, O>>(
    this: Or<P1, P2>,
    tokens: Seq<I>,
    pos: int,
    consumed: int,
    result: Result<O, Error<I>>,
    end: int,
    e1: Error<I>,
    c2: int,
    e2: Error<I>,
)
    requires
        this.obeys(tokens, pos, consumed, result, end),
        forall|c: int, r: Result<O, Error<I>>, e: int|
            #[trigger] this.0.obeys(tokens, pos, c, r, e) ==> c == 0 && r == Err::<O, Error<I>>(
                e1,
            ),
        forall|c: int, r: Result<O, Error<I>>, e: int|
            #[trigger] this.1.obeys(tokens, pos, c, r, e) ==> c == c2 && r == Err::<O, Error<I>>(
                e2,
            ),
    ensures
        consumed == c2,
        result matches Err(e) && e@ == spec_merge(e1@, e2@),
{
}

/// The commit rule: once the first parser can only fail after having
/// consumed at least one token, the choice propagates that failure
/// unchanged, and the second parser is never consulted — no alternative may
/// retroactively take over past a partial match.
pub proof fn lemma_or_commit<I, O, P1: Parser<I, O>, P2: Parser<I, O>>(
    this: Or<P1, P2>,
    tokens: Seq<I>,
    pos: int,
    consumed: int,
    result: Result<O, Error<I>>,
    end: int,
)
    requires
        this.obeys(tokens, pos, consumed, result, end),
        forall|c: int, r: Result<O, Error<I>>, e: int|
            #[trigger] this.0.obeys(tokens, pos, c, r, e) ==> r is Err && c != 0,
    ensures
        result is Err,
        consumed != 0,
        this.0.obeys(tokens, pos, consumed, result, end),
{
}

impl<I, O, P1: Parser<I, O>, P2: Parser<I, O>> Parser<I, O> for Or<P1, P2> {
    open spec fn wf(&self) -> bool {
        &&& self.0.wf()
        &&& self.1.wf()
    }

    /// One of three cases. The first parser succeeded, and its outcome is
    /// returned unchanged. Or it failed without consuming, and the second
    /// parser ran from the same position: a success of the second is
    /// returned unchanged, while a second failure is reported with the
    /// second's consumed count and the merge of the two errors. Or the first
    /// failed after consuming — a commit point — and its failure is
    /// propagated without the second ever running.
    open spec fn obeys(
        &self,
        tokens: Seq<I>,
        pos: int,
        consumed: int,
        result: Result<O, Error<I>>,
        end: int,
    ) -> bool {
        ||| {
            &&& result is Ok
            &&& self.0.obeys(tokens, pos, consumed, result, end)
        }
        ||| {
            &&& (exists|e1: Error<I>| #[trigger]
                self.0.obeys(tokens, pos, 0, Err(e1), pos) && match result {
                    Ok(_) => self.1.obeys(tokens, pos, consumed, result, end),
                    Err(e) => exists|e2: Error<I>| #[trigger]
                        self.1.obeys(tokens, pos, consumed, Err(e2), end) && e@ == spec_merge(
                            e1@,
                            e2@,
                        ),
                })
        }
        ||| {
            &&& result is Err
            &&& consumed != 0
            &&& self.0.obeys(tokens, pos, consumed, result, end)
        }
    }

    fn parse_impl<S: Streamable<I>>(&self, stream: &mut S, errors: &mut Vec<Error<I>>) -> (r: (
        usize,
        Result<O, Error<I>>)) {
        let ghost t0 = stream.tokens();
        let ghost pos0 = stream.pos();
        let (p1c, r1) = self.0.parse_impl(stream, errors);
        match r1 {
            Ok(o) => (p1c, Ok(o)),
            Err(e) => {
                if p1c == 0 {
                    let ghost e1 = e;
                    let (p2c, r2) = self.1.parse_impl(stream, errors);
                    let ghost end = stream.pos();
                    match r2 {
                        Ok(o) => {
                            let ret = (p2c, Ok(o));
                            proof {
                                assert(self.obeys(t0, pos0, ret.0 as int, ret.1, end)) by {
                                    assert(self.0.obeys(t0, pos0, 0, Err(e1), pos0));
                                }
                            }
                            ret
                        },
                        Err(ne) => {
                            let ghost e2 = ne;
                            let merged = e.merge(ne);
                            let ret = (p2c, Err(merged));
                            proof {
                                assert(self.obeys(t0, pos0, ret.0 as int, ret.1, end)) by {
                                    assert(self.0.obeys(t0, pos0, 0, Err(e1), pos0));
                                    assert(self.1.obeys(t0, pos0, p2c as int, Err(e2), end));
                                }
                            }
                            ret
                        },
                    }
                } else {
                    (p1c, Err(e))
                }
            },
        }
    }
}

} // verus!
