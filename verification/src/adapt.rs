//! Adapters whose advance consumes exactly one item of each underlying
//! sequence, so the never-ending capability passes through pointwise.

use vstd::prelude::*;
use crate::infinite::InfiniteIterator;
use crate::func::{Observe, Transform};
use crate::gen::{wrap_at, wrap_inc, lemma_wrap_at_shift};

verus! {

/// Applies a transform to every item. Never-ending when the underlying
/// sequence is: the transform only reshapes items, it never stops pulling.
pub struct Mapped<I, F> {
    /// The underlying never-ending sequence.
    pub inner: I,
    /// The transform applied to each item.
    pub f: F,
}

impl<I: InfiniteIterator, F: Transform<I::Item>> Mapped<I, F> {
    /// The sequence `f(inner[0]), f(inner[1]), ...`.
    pub fn new(inner: I, f: F) -> (r: Mapped<I, F>)
        requires
            inner.wf(),
        ensures
            r.wf(),
            forall|n: nat| #[trigger] r.item_at(n) == f.spec_apply(inner.item_at(n)),
    {
        Mapped { inner, f }
    }
}

impl<I: InfiniteIterator, F: Transform<I::Item>> InfiniteIterator for Mapped<I, F> {
    type Item = F::Out;

    open spec fn wf(&self) -> bool {
        self.inner.wf()
    }

    open spec fn item_at(&self, n: nat) -> F::Out {
        self.f.spec_apply(self.inner.item_at(n))
    }

    fn next_infinite(&mut self) -> (r: F::Out) {
        let x = self.inner.next_infinite();
        self.f.apply(x)
    }
}

/// Pairs two sequences item by item. Zipping stops as soon as either side
/// would stop, so the capability is derived only when both sides carry it.
pub struct Zipped<A, B> {
    /// The sequence supplying the first component of each pair.
    pub left: A,
    /// The sequence supplying the second component of each pair.
    pub right: B,
}

impl<A: InfiniteIterator, B: InfiniteIterator> Zipped<A, B> {
    /// The sequence `(left[0], right[0]), (left[1], right[1]), ...`.
    pub fn new(left: A, right: B) -> (r: Zipped<A, B>)
        requires
            left.wf(),
            right.wf(),
        ensures
            r.wf(),
            forall|n: nat| #[trigger] r.item_at(n) == (left.item_at(n), right.item_at(n)),
    {
        Zipped { left, right }
    }
}

impl<A: InfiniteIterator, B: InfiniteIterator> InfiniteIterator for Zipped<A, B> {
    type Item = (A::Item, B::Item);

    open spec fn wf(&self) -> bool {
        self.left.wf() && self.right.wf()
    }

    open spec fn item_at(&self, n: nat) -> (A::Item, B::Item) {
        (self.left.item_at(n), self.right.item_at(n))
    }

    fn next_infinite(&mut self) -> (r: (A::Item, B::Item)) {
        let x = self.left.next_infinite();
        let y = self.right.next_infinite();
        (x, y)
    }
}

/// Repeats a sequence from its start once it is exhausted. A never-ending
/// sequence is never exhausted, so the replay is never reached and the
/// adapter behaves exactly as the underlying sequence; cycling a sequence
/// not known to be never-ending grants nothing, since an empty one would
/// make the advance fail.
pub struct Cycled<I> {
    /// The underlying never-ending sequence.
    pub inner: I,
}

impl<I: InfiniteIterator> Cycled<I> {
    /// The same sequence as `inner`; the replay can never begin.
    pub fn new(inner: I) -> (r: Cycled<I>)
        requires
            inner.wf(),
        ensures
            r.wf(),
            forall|n: nat| #[trigger] r.item_at(n) == inner.item_at(n),
    {
        Cycled { inner }
    }
}

impl<I: InfiniteIterator> InfiniteIterator for Cycled<I> {
    type Item = I::Item;

    open spec fn wf(&self) -> bool {
        self.inner.wf()
    }

    open spec fn item_at(&self, n: nat) -> I::Item {
        self.inner.item_at(n)
    }

    fn next_infinite(&mut self) -> (r: I::Item) {
        self.inner.next_infinite()
    }
}

/// Guarantees that a sequence keeps reporting exhaustion once exhausted.
/// A never-ending sequence is never exhausted, so fusing changes nothing
/// and the capability passes through.
pub struct Fused<I> {
    /// The underlying never-ending sequence.
    pub inner: I,
}

impl<I: InfiniteIterator> Fused<I> {
    /// The same sequence as `inner`.
    pub fn new(inner: I) -> (r: Fused<I>)
        requires
            inner.wf(),
        ensures
            r.wf(),
            forall|n: nat| #[trigger] r.item_at(n) == inner.item_at(n),
    {
        Fused { inner }
    }
}

impl<I: InfiniteIterator> InfiniteIterator for Fused<I> {
    type Item = I::Item;

    open spec fn wf(&self) -> bool {
        self.inner.wf()
    }

    open spec fn item_at(&self, n: nat) -> I::Item {
        self.inner.item_at(n)
    }

    fn next_infinite(&mut self) -> (r: I::Item) {
        self.inner.next_infinite()
    }
}

/// Shows every item to an observer before handing it on. The observer
/// cannot change or drop items, so the capability passes through.
pub struct Inspected<I, O> {
    /// The underlying never-ending sequence.
    pub inner: I,
    /// The observer shown each item.
    pub observer: O,
}

impl<I: InfiniteIterator, O: Observe<I::Item>> Inspected<I, O> {
    /// The same sequence as `inner`, observed in passing.
    pub fn new(inner: I, observer: O) -> (r: Inspected<I, O>)
        requires
            inner.wf(),
        ensures
            r.wf(),
            forall|n: nat| #[trigger] r.item_at(n) == inner.item_at(n),
    {
        Inspected { inner, observer }
    }
}

impl<I: InfiniteIterator, O: Observe<I::Item>> InfiniteIterator for Inspected<I, O> {
    type Item = I::Item;

    open spec fn wf(&self) -> bool {
        self.inner.wf()
    }

    open spec fn item_at(&self, n: nat) -> I::Item {
        self.inner.item_at(n)
    }

    fn next_infinite(&mut self) -> (r: I::Item) {
        let x = self.inner.next_infinite();
        self.observer.observe(&x);
        x
    }
}

/// Pairs every item with its position, counted from the adapter's
/// creation in wrapping 64-bit arithmetic. Counting never stops pulling,
/// so the capability passes through.
pub struct Enumerated<I> {
    /// The underlying never-ending sequence.
    pub inner: I,
    /// The position the next advance will report.
    pub count: u64,
}

impl<I: InfiniteIterator> Enumerated<I> {
    /// The sequence `(0, inner[0]), (1, inner[1]), ...` (positions
    /// wrapping).
    pub fn new(inner: I) -> (r: Enumerated<I>)
        requires
            inner.wf(),
        ensures
            r.wf(),
            forall|n: nat| #[trigger] r.item_at(n) == (wrap_at(0, n), inner.item_at(n)),
    {
        Enumerated { inner, count: 0 }
    }
}

impl<I: InfiniteIterator> InfiniteIterator for Enumerated<I> {
    type Item = (u64, I::Item);

    open spec fn wf(&self) -> bool {
        self.inner.wf()
    }

    open spec fn item_at(&self, n: nat) -> (u64, I::Item) {
        (wrap_at(self.count, n), self.inner.item_at(n))
    }

    fn next_infinite(&mut self) -> (r: (u64, I::Item)) {
        let x = self.inner.next_infinite();
        let c = self.count;
        self.count = if self.count == u64::MAX {
            0
        } else {
            self.count + 1
        };
        proof {
            assert(self.count == wrap_inc(c));
            assert forall|n: nat| #[trigger] self.item_at(n) == old(self).item_at(n + 1) by {
                lemma_wrap_at_shift(c, n);
            }
        }
        (c, x)
    }
}

} // verus!
