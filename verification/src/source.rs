//! The base, exhaustible sequence contract: the fallback path.
//!
//! A [`Source`] is an ordinary sequence whose advance may report
//! exhaustion. It is modeled by the finite sequence of items it has yet
//! to produce. Sequences that can also prove they never end additionally
//! implement [`crate::infinite::InfiniteIterator`]; the two capabilities
//! exclude each other on one value, since a never-ending sequence has no
//! finite remainder.

use vstd::prelude::*;

verus! {

/// An exhaustible sequence, modeled by the finite sequence of items it
/// has yet to produce.
pub trait Source: Sized {
    /// The element type produced on each advance.
    type Item;

    /// Well-formedness of the sequence state; constructors establish it
    /// and `next` preserves it.
    spec fn wf(&self) -> bool;

    /// The items this sequence has yet to produce, in order.
    spec fn remaining(&self) -> Seq<Self::Item>;

    /// Advance one step: the head of the remainder, or `None` once the
    /// remainder is empty.
    fn next(&mut self) -> (r: Option<Self::Item>)
        requires
            old(self).wf(),
        ensures
            final(self).wf(),
            old(self).remaining().len() == 0 ==> r is None
                && final(self).remaining() == old(self).remaining(),
            old(self).remaining().len() > 0 ==> r == Some(old(self).remaining()[0])
                && final(self).remaining() == old(self).remaining().drop_first(),
    ;
}

/// A source that hands out the elements of a vector in order.
pub struct VecSource<T> {
    /// The elements, fixed at creation.
    pub items: Vec<T>,
    /// How many elements have already been produced.
    pub taken: usize,
}

impl<T: Copy> VecSource<T> {
    /// A source producing the elements of `items` in order.
    pub fn new(items: Vec<T>) -> (r: VecSource<T>)
        ensures
            r.wf(),
            r.remaining() == items@,
    {
        let r = VecSource { items, taken: 0 };
        proof {
            assert(r.remaining() =~= r.items@);
        }
        r
    }
}

impl<T: Copy> Source for VecSource<T> {
    type Item = T;

    open spec fn wf(&self) -> bool {
        self.taken <= self.items.len()
    }

    open spec fn remaining(&self) -> Seq<T> {
        self.items@.skip(self.taken as int)
    }

    fn next(&mut self) -> (r: Option<T>) {
        if self.taken < self.items.len() {
            let x = self.items[self.taken];
            self.taken = self.taken + 1;
            proof {
                assert(self.remaining() =~= old(self).remaining().drop_first());
            }
            Some(x)
        } else {
            None
        }
    }
}

/// A source counting upward from one bound to another, exclusive.
pub struct BoundedRange {
    /// The value the next advance will produce, when below `end`.
    pub cur: u64,
    /// The exclusive upper bound.
    pub end: u64,
}

impl BoundedRange {
    /// The source `start, start + 1, ..., end - 1`.
    pub fn new(start: u64, end: u64) -> (r: BoundedRange)
        requires
            start <= end,
        ensures
            r.wf(),
            r.remaining() == Seq::new((end - start) as nat, |i: int| (start + i) as u64),
    {
        let r = BoundedRange { cur: start, end };
        proof {
            assert(r.remaining() =~= Seq::new((end - start) as nat, |i: int| (start + i) as u64));
        }
        r
    }
}

impl Source for BoundedRange {
    type Item = u64;

    open spec fn wf(&self) -> bool {
        self.cur <= self.end
    }

    open spec fn remaining(&self) -> Seq<u64> {
        Seq::new((self.end - self.cur) as nat, |i: int| (self.cur + i) as u64)
    }

    fn next(&mut self) -> (r: Option<u64>) {
        if self.cur < self.end {
            let x = self.cur;
            self.cur = self.cur + 1;
            proof {
                assert(self.remaining() =~= old(self).remaining().drop_first());
            }
            Some(x)
        } else {
            None
        }
    }
}

} // verus!
