use vstd::prelude::*;

mod just;
mod mapped;
mod or;
mod pred;
mod repeat;
mod to;

pub use just::Just;
pub use just::just;
pub use just::lemma_just_matches;
pub use mapped::Mapped;
pub use mapped::lemma_mapped_preserves;
pub use or::Or;
pub use or::lemma_or_both_fail;
pub use or::lemma_or_commit;
pub use or::lemma_or_first_success;
pub use or::lemma_or_second_success;
pub use or::or;
pub use pred::Pred;
pub use pred::pred;
pub use repeat::Repeat;
pub use repeat::lemma_repeat_empty;
pub use repeat::lemma_repeat_never_fails;
pub use repeat::repeat;
pub use repeat::repeat_chain;
pub use to::To;
pub use to::lemma_to_preserves;
pub use to::to;

use core::marker::PhantomData;

verus! {

/// Constructs [`Mapped`]: `p`'s parser with `f` applied to its output.
pub fn map<O, P, F>(p: P, f: F) -> (r: Mapped<P, F, O>)
    ensures
        r.0 == p,
        r.1 == f,
{
    Mapped(p, f, PhantomData)
}

} // verus!
