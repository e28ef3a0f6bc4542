//! The never-ending-sequence capability.

use vstd::prelude::*;

verus! {

/// A sequence that never ends.
///
/// A value of an implementing type denotes the mathematical infinite
/// sequence `item_at(0), item_at(1), item_at(2), ...` of the items it has
/// yet to produce. Advancing is infallible: `next_infinite` always yields
/// the head of that sequence and shifts the remainder forward by one.
///
/// Implementors must uphold the model exactly; the contract of
/// `next_infinite` is the proof obligation that makes the capability a
/// static guarantee rather than a runtime flag. A type whose advance could
/// exhaust cannot satisfy it.
pub trait InfiniteIterator: Sized {
    /// The element type produced on every advance.
    type Item;

    /// Well-formedness of the sequence state; constructors establish it and
    /// `next_infinite` preserves it.
    spec fn wf(&self) -> bool;

    /// The item that the `n`-th future advance will produce.
    spec fn item_at(&self, n: nat) -> Self::Item;

    /// Advance one step. Never fails: the result is the head of the
    /// denoted sequence, and afterwards the denoted sequence is the old
    /// one with its head removed.
    fn next_infinite(&mut self) -> (r: Self::Item)
        requires
            old(self).wf(),
        ensures
            final(self).wf(),
            r == old(self).item_at(0),
            forall|n: nat| #[trigger] final(self).item_at(n) == old(self).item_at(n + 1),
    ;
}

/// A heap-owned never-ending sequence is itself never-ending: pure
/// delegation, not a derivation.
impl<I: InfiniteIterator> InfiniteIterator for Box<I> {
    type Item = I::Item;

    open spec fn wf(&self) -> bool {
        (**self).wf()
    }

    open spec fn item_at(&self, n: nat) -> I::Item {
        (**self).item_at(n)
    }

    fn next_infinite(&mut self) -> (r: I::Item) {
        (**self).next_infinite()
    }
}

/// Every inhabited set of positions has a least element: from any witness
/// position satisfying `p`, the first position satisfying `p` can be
/// found. The operations that walk a never-ending sequence to a match
/// terminate exactly when they reach this position.
pub proof fn lemma_least_witness(p: spec_fn(nat) -> bool, n: nat) -> (least: nat)
    requires
        p(n),
    ensures
        p(least),
        forall|m: nat| m < least ==> !(#[trigger] p(m)),
    decreases n,
{
    if exists|m: nat| m < n && #[trigger] p(m) {
        let m = choose|m: nat| m < n && #[trigger] p(m);
        lemma_least_witness(p, m)
    } else {
        n
    }
}

} // verus!
