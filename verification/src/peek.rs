//! Single-item lookahead over a never-ending sequence.

use vstd::prelude::*;
use crate::infinite::InfiniteIterator;
use crate::sealed::Sealed;

verus! {

/// A never-ending sequence with a one-item lookahead slot. Because the
/// wrapped sequence cannot exhaust, the slot is always fillable, so
/// peeking never comes back empty.
pub struct Peekable<I: InfiniteIterator> {
    /// The underlying never-ending sequence.
    pub inner: I,
    /// The item pulled ahead of time, if any.
    pub slot: Option<I::Item>,
}

impl<I: InfiniteIterator> Peekable<I> {
    /// The same sequence as `inner`, with lookahead available.
    pub fn new(inner: I) -> (r: Peekable<I>)
        requires
            inner.wf(),
        ensures
            r.wf(),
            forall|n: nat| #[trigger] r.item_at(n) == inner.item_at(n),
    {
        Peekable { inner, slot: None }
    }
}

impl<I: InfiniteIterator> InfiniteIterator for Peekable<I> {
    type Item = I::Item;

    open spec fn wf(&self) -> bool {
        self.inner.wf()
    }

    open spec fn item_at(&self, n: nat) -> I::Item {
        match self.slot {
            Some(x) => if n == 0 {
                x
            } else {
                self.inner.item_at((n - 1) as nat)
            },
            None => self.inner.item_at(n),
        }
    }

    fn next_infinite(&mut self) -> (r: I::Item) {
        let s = self.slot.take();
        match s {
            Some(x) => x,
            None => self.inner.next_infinite(),
        }
    }
}

/// Extra lookahead operations available only when the wrapped sequence
/// never ends: both peeks are guaranteed to find an item, because the
/// lookahead slot can always be filled. Sealed to [`Peekable`] itself, so
/// no other wrapper can claim the guarantee without holding the
/// invariant.
pub trait PeekableExt: Sealed + InfiniteIterator {
    /// A reference to the item the next advance will produce, without
    /// consuming it. The denoted sequence is left exactly as it was.
    fn peek_infinite(&mut self) -> (r: &Self::Item)
        requires
            old(self).wf(),
        ensures
            final(self).wf(),
            *r == old(self).item_at(0),
            forall|n: nat| #[trigger] final(self).item_at(n) == old(self).item_at(n),
    ;

    /// A unique reference to the item the next advance will produce. The
    /// head of the sequence becomes whatever the caller leaves behind;
    /// everything after it is untouched.
    fn peek_infinite_mut(&mut self) -> (r: &mut Self::Item)
        requires
            old(self).wf(),
        ensures
            final(self).wf(),
            *r == old(self).item_at(0),
            final(self).item_at(0) == *final(r),
            forall|n: nat| n >= 1 ==> #[trigger] final(self).item_at(n) == old(self).item_at(n),
    ;
}

impl<I: InfiniteIterator> Sealed for Peekable<I> {}

impl<I: InfiniteIterator> PeekableExt for Peekable<I> {
    fn peek_infinite(&mut self) -> (r: &I::Item) {
        if self.slot.is_none() {
            let x = self.inner.next_infinite();
            self.slot = Some(x);
        }
        self.slot.as_ref().unwrap()
    }

    fn peek_infinite_mut(&mut self) -> (r: &mut I::Item) {
        if self.slot.is_none() {
            let x = self.inner.next_infinite();
            self.slot = Some(x);
        }
        self.slot.as_mut().unwrap()
    }
}

/// Peeking twice in a row, with no advance in between, finds the very
/// same item both times: peeking leaves the denoted sequence untouched,
/// so the second peek still faces the same head.
pub fn peek_twice_agrees<I: InfiniteIterator>(p: &mut Peekable<I>) -> (pair: (
    I::Item,
    I::Item,
)) where I::Item: Copy
    requires
        old(p).wf(),
    ensures
        pair.0 == pair.1,
        pair.0 == old(p).item_at(0),
{
    let a = *p.peek_infinite();
    let b = *p.peek_infinite();
    (a, b)
}

} // verus!
