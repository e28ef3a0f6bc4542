//! Adapters that discard a bounded number of items per step: skipping a
//! fixed prefix, and stepping by a fixed stride. Discarding finitely many
//! items between results never stops pulling, so the never-ending
//! capability passes through.

use vstd::prelude::*;
use crate::infinite::InfiniteIterator;

verus! {

/// Discards a fixed number of leading items, then hands the rest on.
pub struct Skipped<I> {
    /// The underlying never-ending sequence.
    pub inner: I,
    /// How many leading items are still to be discarded.
    pub to_skip: u64,
}

impl<I: InfiniteIterator> Skipped<I> {
    /// The sequence `inner[count], inner[count + 1], ...`.
    pub fn new(inner: I, count: u64) -> (r: Skipped<I>)
        requires
            inner.wf(),
        ensures
            r.wf(),
            forall|n: nat| #[trigger] r.item_at(n) == inner.item_at((n + count) as nat),
    {
        Skipped { inner, to_skip: count }
    }
}

impl<I: InfiniteIterator> InfiniteIterator for Skipped<I> {
    type Item = I::Item;

    open spec fn wf(&self) -> bool {
        self.inner.wf()
    }

    open spec fn item_at(&self, n: nat) -> I::Item {
        self.inner.item_at((n + self.to_skip) as nat)
    }

    fn next_infinite(&mut self) -> (r: I::Item) {
        let ghost mut skipped: nat = 0nat;
        while self.to_skip > 0
            invariant
                self.inner.wf(),
                skipped + self.to_skip == old(self).to_skip,
                forall|k: nat| #[trigger] self.inner.item_at(k) == old(self).inner.item_at(k + skipped),
            decreases self.to_skip,
        {
            let ghost prev = self.inner;
            let _ = self.inner.next_infinite();
            self.to_skip = self.to_skip - 1;
            proof {
                skipped = skipped + 1;
                assert forall|k: nat| #[trigger] self.inner.item_at(k)
                    == old(self).inner.item_at(k + skipped) by {
                    assert(self.inner.item_at(k) == prev.item_at(k + 1));
                }
            }
        }
        let x = self.inner.next_infinite();
        proof {
            assert(x == old(self).item_at(0));
            assert forall|n: nat| #[trigger] self.item_at(n) == old(self).item_at(n + 1) by {
                assert(self.inner.item_at(n) == old(self).inner.item_at((n + old(self).to_skip + 1) as nat));
            }
        }
        x
    }
}

/// Hands on every `stride`-th item, beginning with the first.
pub struct SteppedBy<I> {
    /// The underlying never-ending sequence.
    pub inner: I,
    /// The distance between consecutive results; at least one.
    pub stride: u64,
}

impl<I: InfiniteIterator> SteppedBy<I> {
    /// The sequence `inner[0], inner[stride], inner[2 * stride], ...`.
    pub fn new(inner: I, stride: u64) -> (r: SteppedBy<I>)
        requires
            inner.wf(),
            stride >= 1,
        ensures
            r.wf(),
            forall|n: nat| #[trigger] r.item_at(n) == inner.item_at((n * stride) as nat),
    {
        SteppedBy { inner, stride }
    }
}

impl<I: InfiniteIterator> InfiniteIterator for SteppedBy<I> {
    type Item = I::Item;

    open spec fn wf(&self) -> bool {
        self.inner.wf() && self.stride >= 1
    }

    open spec fn item_at(&self, n: nat) -> I::Item {
        self.inner.item_at((n * self.stride) as nat)
    }

    fn next_infinite(&mut self) -> (r: I::Item) {
        let x = self.inner.next_infinite();
        let mut advanced: u64 = 1;
        while advanced < self.stride
            invariant
                self.inner.wf(),
                self.stride == old(self).stride,
                1 <= advanced <= self.stride,
                x == old(self).inner.item_at(0),
                forall|k: nat| #[trigger] self.inner.item_at(k)
                    == old(self).inner.item_at((k + advanced) as nat),
            decreases self.stride - advanced,
        {
            let ghost prev = self.inner;
            let _ = self.inner.next_infinite();
            advanced = advanced + 1;
            proof {
                assert forall|k: nat| #[trigger] self.inner.item_at(k)
                    == old(self).inner.item_at((k + advanced) as nat) by {
                    assert(self.inner.item_at(k) == prev.item_at(k + 1));
                }
            }
        }
        proof {
            assert(x == old(self).item_at(0));
            assert forall|n: nat| #[trigger] self.item_at(n) == old(self).item_at(n + 1) by {
                assert((n + 1) * self.stride == n * self.stride + self.stride) by (nonlinear_arith);
                assert(self.inner.item_at((n * self.stride) as nat)
                    == old(self).inner.item_at((n * self.stride + self.stride) as nat));
            }
        }
        x
    }
}

} // verus!
