use vstd::prelude::*;

verus! {

/// Mathematical model of an [`Error`]: the failure position, the tokens that
/// would have been accepted there, and the token actually observed (absent at
/// end of input).
#[verifier::ext_equal]
pub struct ErrorView<I> {
    /// Zero-based stream position at which the failure occurred.
    pub pos: int,
    /// The candidate tokens that would have been accepted at that position.
    pub expected: Seq<I>,
    /// The token actually observed, or `None` at end of input.
    pub found: Option<I>,
}

/// Returned when a parser fails.
///
/// There is a single failure kind: absence of a token at end of input is
/// represented by a `None` found-token, not by a distinct variant.
#[derive(Debug)]
pub enum Error<I> {
    /// Occurs when the parser expected something but got something else:
    /// position, expected tokens, found token (absent at end of input).
    Unexpected(usize, Vec<I>, Option<I>),
}

impl<I> View for Error<I> {
    type V = ErrorView<I>;

    open spec fn view(&self) -> ErrorView<I> {
        match self {
            Error::Unexpected(p, e, f) => ErrorView { pos: *p as int, expected: e@, found: *f },
        }
    }
}

/// What [`Error::merge`] returns: the furthest failure wins; on a tie the
/// expected tokens are pooled, each side's order preserved, and the first
/// present found-token is kept.
pub open spec fn spec_merge<I>(a: ErrorView<I>, b: ErrorView<I>) -> ErrorView<I> {
    if a.pos > b.pos {
        a
    } else if a.pos < b.pos {
        b
    } else {
        ErrorView {
            pos: a.pos,
            expected: a.expected + b.expected,
            found: if a.found is Some {
                a.found
            } else {
                b.found
            },
        }
    }
}

/// The furthest failure wins a merge: if the positions differ, the merge is
/// the failure with the larger position, unchanged; at equal positions the
/// expected tokens are pooled, the first side's first and each side's order
/// preserved, and the first present found-token is kept.
pub proof fn lemma_merge_furthest<I>(a: ErrorView<I>, b: ErrorView<I>)
    ensures
        a.pos > b.pos ==> spec_merge(a, b) == a,
        a.pos < b.pos ==> spec_merge(a, b) == b,
        a.pos == b.pos ==> {
            &&& spec_merge(a, b).pos == a.pos
            &&& spec_merge(a, b).expected == a.expected + b.expected
            &&& spec_merge(a, b).found == (if a.found is Some {
                a.found
            } else {
                b.found
            })
        },
{
}

impl<I> Error<I> {
    /// The stream position at which this failure occurred.
    fn position(&self) -> (r: usize)
        ensures
            r == self@.pos,
    {
        match self {
            Error::Unexpected(p, _, _) => *p,
        }
    }

    /// Combines two failures into the most informative one: the failure that
    /// reached the larger position, or, at equal positions, one that pools
    /// both expected sets (`self`'s first) and keeps `self`'s found-token if
    /// present, otherwise `other`'s.
    pub fn merge(self, other: Self) -> (r: Self)
        ensures
            r@ == spec_merge(self@, other@),
    {
        if self.position() > other.position() {
            self
        } else if self.position() < other.position() {
            other
        } else {
            match (self, other) {
                (Error::Unexpected(p, mut e1, f1), Error::Unexpected(_, mut e2, f2)) => {
                    e1.append(&mut e2);
                    let found = match f1 {
                        Some(x) => Some(x),
                        None => f2,
                    };
                    let r = Error::Unexpected(p, e1, found);
                    proof {
                        assert(r@ =~= spec_merge(self@, other@));
                    }
                    r
                },
            }
        }
    }
}

} // verus!
