//! Chaining a finite prefix onto a never-ending tail.

use vstd::prelude::*;
use crate::infinite::InfiniteIterator;
use crate::source::Source;

verus! {

/// Produces every item of a finite first operand, then every item of a
/// never-ending second operand. Only the second operand must carry the
/// never-ending capability: once the prefix is exhausted, control shifts
/// permanently to the tail.
pub struct Chained<A, B> {
    /// The finite prefix.
    pub first: A,
    /// The never-ending tail.
    pub second: B,
}

impl<A: Source, B: InfiniteIterator<Item = A::Item>> Chained<A, B> {
    /// The items of `first` followed by the items of `second`.
    pub fn new(first: A, second: B) -> (r: Chained<A, B>)
        requires
            first.wf(),
            second.wf(),
        ensures
            r.wf(),
            forall|n: nat| n < first.remaining().len()
                ==> #[trigger] r.item_at(n) == first.remaining()[n as int],
            forall|n: nat| n >= first.remaining().len()
                ==> #[trigger] r.item_at(n) == second.item_at((n - first.remaining().len()) as nat),
    {
        Chained { first, second }
    }
}

impl<A: Source, B: InfiniteIterator<Item = A::Item>> InfiniteIterator for Chained<A, B> {
    type Item = A::Item;

    open spec fn wf(&self) -> bool {
        self.first.wf() && self.second.wf()
    }

    open spec fn item_at(&self, n: nat) -> A::Item {
        if n < self.first.remaining().len() {
            self.first.remaining()[n as int]
        } else {
            self.second.item_at((n - self.first.remaining().len()) as nat)
        }
    }

    fn next_infinite(&mut self) -> (r: A::Item) {
        let ghost prefix = old(self).first.remaining();
        match self.first.next() {
            Some(x) => {
                proof {
                    assert forall|n: nat| #[trigger] self.item_at(n) == old(self).item_at(n + 1) by {
                        if n < prefix.len() - 1 {
                            assert(self.first.remaining()[n as int] == prefix[n as int + 1]);
                        }
                    }
                }
                x
            },
            None => {
                let y = self.second.next_infinite();
                y
            },
        }
    }
}

} // verus!
