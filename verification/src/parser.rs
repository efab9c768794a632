use vstd::prelude::*;

use crate::combinators::{Mapped, Or, To};
use crate::error::Error;
use crate::stream::{Stream, Streamable};

verus! {

/// The terminal outcome that a recovering entry point reports: the output
/// where one exists, otherwise the single error that stopped progress.
pub open spec fn reported<O, I>(output: Option<O>, errs: Seq<Error<I>>) -> Result<O, Error<I>> {
    match output {
        Some(o) => Ok(o),
        None => Err(errs[0]),
    }
}

/// The terminal outcome that [`Parser::parse`] reports: the output on
/// success, otherwise the single error of its error list.
pub open spec fn outcome_of<O, I>(r: Result<O, Vec<Error<I>>>) -> Result<O, Error<I>> {
    match r {
        Ok(o) => Ok(o),
        Err(errs) => Err(errs@[0]),
    }
}

/// The capability every combinator implements, together with the two
/// caller-facing entry points built on it.
///
/// One parsing step returns a pair `(consumed, result)`: how many tokens the
/// step advanced the stream by, and either the parsed value or the failure
/// that stopped it. On failure, `consumed == 0` signals that no commitment
/// was made, and a sibling alternative may still be tried; `consumed > 0`
/// marks a commit point — a partial match occurred and no alternative may
/// retroactively take over.
///
/// The spec function `obeys` is each combinator's specification: it relates
/// the token sequence and starting position to the admissible outcomes, where
/// `end` is the stream position after the step. `wf` is what a combinator
/// asks of the functions it was built from.
pub trait Parser<I, O> {
    /// What this combinator requires of the values and functions it was
    /// built from.
    open spec fn wf(&self) -> bool {
        true
    }

    /// The specification of one parsing step: starting from `pos` in
    /// `tokens`, the step may report `consumed` tokens, produce `result`,
    /// and leave the stream at position `end`.
    spec fn obeys(
        &self,
        tokens: Seq<I>,
        pos: int,
        consumed: int,
        result: Result<O, Error<I>>,
        end: int,
    ) -> bool;

    /// One parsing step against `stream`; `errors` is an accumulator for
    /// non-fatal diagnostics, which the combinators of this crate pass
    /// through untouched — only the top-level entry points append to it.
    fn parse_impl<S: Streamable<I>>(&self, stream: &mut S, errors: &mut Vec<Error<I>>) -> (r: (
        usize,
        Result<O, Error<I>>,
    ))
        requires
            self.wf(),
            0 <= old(stream).pos() <= old(stream).tokens().len(),
        ensures
            final(stream).tokens() == old(stream).tokens(),
            old(stream).pos() <= final(stream).pos() <= old(stream).tokens().len(),
            final(errors)@ == old(errors)@,
            r.1 is Err && r.0 == 0 ==> final(stream).pos() == old(stream).pos(),
            self.obeys(
                old(stream).tokens(),
                old(stream).pos(),
                r.0 as int,
                r.1,
                final(stream).pos(),
            ),
    ;

    /// Tries to parse via `parse_impl` and returns the diagnostics if it
    /// cannot. The output is absent exactly when the returned error list is
    /// non-empty; a failure contributes the single terminal error that
    /// stopped progress.
    fn parse_or_recover(&self, tokens: Vec<I>) -> (r: (Option<O>, Vec<Error<I>>)) where
        Self: Sized,
        I: Copy,

        requires
            self.wf(),
        ensures
            r.0 is Some <==> r.1@.len() == 0,
            r.0 is None <==> r.1@.len() == 1,
            exists|c: int, end: int| self.obeys(tokens@, 0, c, reported(r.0, r.1@), end),
    {
        let mut errors: Vec<Error<I>> = Vec::new();
        let mut stream = Stream::new(tokens);
        let (consumed, result) = self.parse_impl(&mut stream, &mut errors);
        let ghost end = stream.pos();
        match result {
            Ok(o) => {
                let ret = (Some(o), errors);
                proof {
                    assert(exists|c: int, e2: int|
                        self.obeys(tokens@, 0, c, reported(ret.0, ret.1@), e2)) by {
                        assert(self.obeys(tokens@, 0, consumed as int, reported(ret.0, ret.1@), end));
                    }
                }
                ret
            },
            Err(e) => {
                errors.push(e);
                let ret = (None, errors);
                proof {
                    assert(exists|c: int, e2: int|
                        self.obeys(tokens@, 0, c, reported(ret.0, ret.1@), e2)) by {
                        assert(self.obeys(tokens@, 0, consumed as int, reported(ret.0, ret.1@), end));
                    }
                }
                ret
            },
        }
    }

    /// Parses what was intended or returns the errors: `Ok` exactly when the
    /// collected error list is empty.
    fn parse(&self, tokens: Vec<I>) -> (r: Result<O, Vec<Error<I>>>) where
        Self: Sized,
        I: Copy,

        requires
            self.wf(),
        ensures
            r matches Err(errs) ==> errs@.len() == 1,
            exists|c: int, end: int| self.obeys(tokens@, 0, c, outcome_of(r), end),
    {
        let (output, errors) = self.parse_or_recover(tokens);
        let ghost outcome = reported(output, errors@);
        if errors.is_empty() {
            match output {
                Some(o) => {
                    let ret = Ok(o);
                    proof {
                        assert(exists|c: int, e2: int|
                            self.obeys(tokens@, 0, c, outcome_of(ret), e2)) by {
                            let (wc, we) = choose|c: int, e2: int|
                                self.obeys(tokens@, 0, c, outcome, e2);
                            assert(self.obeys(tokens@, 0, wc, outcome, we));
                            assert(self.obeys(tokens@, 0, wc, outcome_of(ret), we));
                        }
                    }
                    ret
                },
                None => Err(errors),
            }
        } else {
            let ret = Err(errors);
            proof {
                assert(exists|c: int, e2: int|
                    self.obeys(tokens@, 0, c, outcome_of(ret), e2)) by {
                    let (wc, we) = choose|c: int, e2: int|
                        self.obeys(tokens@, 0, c, outcome, e2);
                    assert(self.obeys(tokens@, 0, wc, outcome, we));
                    assert(self.obeys(tokens@, 0, wc, outcome_of(ret), we));
                }
            }
            ret
        }
    }

    /// For converting output to a fixed value (`O` to `N`): builds
    /// [`To`] around this parser.
    fn to<N: Copy>(self, x: N) -> (r: To<Self, N, O>) where Self: Sized
        ensures
            r.0 == self,
            r.1 == x,
    {
        crate::combinators::to(self, x)
    }

    /// For choosing between two parsers (`P1` and `P2`): builds [`Or`]
    /// around this parser and `other`.
    fn or<P2>(self, other: P2) -> (r: Or<Self, P2>) where Self: Sized
        ensures
            r.0 == self,
            r.1 == other,
    {
        crate::combinators::or(self, other)
    }

    /// For mapping output from one type to another (`O` to `N`) via a
    /// function (`F`): builds [`Mapped`] around this parser.
    fn map<N, F: Fn(O) -> N>(self, f: F) -> (r: Mapped<Self, F, O>) where Self: Sized
        ensures
            r.0 == self,
            r.1 == f,
    {
        crate::combinators::map(self, f)
    }
}

} // verus!
