//! Generating sources that are never-ending by construction.

use vstd::prelude::*;
use crate::infinite::InfiniteIterator;
use crate::func::Producer;

verus! {

/// The successor of `x` in wrapping 64-bit arithmetic.
pub open spec fn wrap_inc(x: u64) -> u64 {
    if x == u64::MAX {
        0
    } else {
        (x + 1) as u64
    }
}

/// The `n`-th value counted upward from `start` in wrapping 64-bit
/// arithmetic.
pub open spec fn wrap_at(start: u64, n: nat) -> u64
    decreases n,
{
    if n == 0 {
        start
    } else {
        wrap_inc(wrap_at(start, (n - 1) as nat))
    }
}

/// Counting from the successor of `start` lags counting from `start` by
/// exactly one step.
pub proof fn lemma_wrap_at_shift(start: u64, n: nat)
    ensures
        wrap_at(wrap_inc(start), n) == wrap_at(start, n + 1),
    decreases n,
{
    if n == 0 {
        assert(wrap_at(wrap_inc(start), 0) == wrap_inc(start));
        assert(wrap_at(start, 1) == wrap_inc(wrap_at(start, 0)));
    } else {
        lemma_wrap_at_shift(start, (n - 1) as nat);
        assert(wrap_at(wrap_inc(start), n) == wrap_inc(wrap_at(wrap_inc(start), (n - 1) as nat)));
        assert(wrap_at(start, n + 1) == wrap_inc(wrap_at(start, n)));
    }
}

/// An unbounded ascending count from a starting point, wrapping around at
/// the top of the 64-bit range. Never-ending axiomatically: there is
/// always a next number.
pub struct RangeFrom {
    /// The value the next advance will produce.
    pub cur: u64,
}

impl RangeFrom {
    /// The sequence `start, start + 1, start + 2, ...` (wrapping).
    pub fn new(start: u64) -> (r: RangeFrom)
        ensures
            r.wf(),
            forall|n: nat| #[trigger] r.item_at(n) == wrap_at(start, n),
    {
        RangeFrom { cur: start }
    }
}

impl InfiniteIterator for RangeFrom {
    type Item = u64;

    open spec fn wf(&self) -> bool {
        true
    }

    open spec fn item_at(&self, n: nat) -> u64 {
        wrap_at(self.cur, n)
    }

    fn next_infinite(&mut self) -> (r: u64) {
        let r = self.cur;
        self.cur = if self.cur == u64::MAX {
            0
        } else {
            self.cur + 1
        };
        proof {
            assert forall|n: nat| #[trigger] self.item_at(n) == old(self).item_at(n + 1) by {
                lemma_wrap_at_shift(old(self).cur, n);
            }
        }
        r
    }
}

/// Repeatedly invokes a value producer. Never-ending axiomatically: the
/// producer always yields a value.
pub struct RepeatWith<F> {
    /// The producer invoked on every advance.
    pub f: F,
}

impl<F: Producer> RepeatWith<F> {
    /// A sequence that yields `f.produce()` on every advance.
    pub fn new(f: F) -> (r: RepeatWith<F>)
        ensures
            r.wf(),
            forall|n: nat| #[trigger] r.item_at(n) == f.spec_value(),
    {
        RepeatWith { f }
    }
}

impl<F: Producer> InfiniteIterator for RepeatWith<F> {
    type Item = F::Out;

    open spec fn wf(&self) -> bool {
        true
    }

    open spec fn item_at(&self, n: nat) -> F::Out {
        self.f.spec_value()
    }

    fn next_infinite(&mut self) -> (r: F::Out) {
        self.f.produce()
    }
}

/// Repeats a single value forever. Never-ending axiomatically: producing
/// a copy of the stored value can never fail.
pub struct RepeatValue<T> {
    /// The value handed out on every advance.
    pub value: T,
}

impl<T: Copy> RepeatValue<T> {
    /// A sequence that yields `value` on every advance.
    pub fn new(value: T) -> (r: RepeatValue<T>)
        ensures
            r.wf(),
            forall|n: nat| #[trigger] r.item_at(n) == value,
    {
        RepeatValue { value }
    }
}

impl<T: Copy> InfiniteIterator for RepeatValue<T> {
    type Item = T;

    open spec fn wf(&self) -> bool {
        true
    }

    open spec fn item_at(&self, n: nat) -> T {
        self.value
    }

    fn next_infinite(&mut self) -> (r: T) {
        self.value
    }
}

} // verus!
