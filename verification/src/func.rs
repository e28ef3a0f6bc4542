//! Function-like capabilities supplied by the user of the library.
//!
//! The sequence adapters and the search operations are parameterized by
//! user-supplied behaviour: a predicate, a total transform, a transform
//! that may decline an item, a value producer, an observer. Each is a
//! trait whose executable method is pinned to a specification-level
//! function, so that the model of an adapter built over it stays a
//! mathematical function of the adapter's inputs.

use vstd::prelude::*;
use crate::source::BoundedRange;

verus! {

/// A pure test on items.
pub trait Predicate<T>: Sized {
    /// What the predicate holds of, at the specification level.
    spec fn holds(&self, t: T) -> bool;

    /// Decide whether the predicate holds of `t`.
    fn test(&self, t: &T) -> (b: bool)
        ensures
            b == self.holds(*t),
    ;
}

/// A pure transform applied to every item.
pub trait Transform<T>: Sized {
    /// The result type of the transform.
    type Out;

    /// The transform as a mathematical function.
    spec fn spec_apply(&self, t: T) -> Self::Out;

    /// Apply the transform to `t`.
    fn apply(&self, t: T) -> (r: Self::Out)
        ensures
            r == self.spec_apply(t),
    ;
}

/// A pure transform that may decline an item.
pub trait PartialTransform<T>: Sized {
    /// The result type of an accepted item.
    type Out;

    /// The transform as a mathematical partial function: `None` declines.
    spec fn spec_attempt(&self, t: T) -> Option<Self::Out>;

    /// Apply the transform to `t`, declining with `None`.
    fn attempt(&self, t: T) -> (r: Option<Self::Out>)
        ensures
            r == self.spec_attempt(t),
    ;
}

/// A pure producer of values, invoked anew on every advance.
pub trait Producer: Sized {
    /// The type of the produced value.
    type Out;

    /// The produced value, at the specification level.
    spec fn spec_value(&self) -> Self::Out;

    /// Produce the value.
    fn produce(&self) -> (r: Self::Out)
        ensures
            r == self.spec_value(),
    ;
}

/// An observer of items passing through an adapter. It may keep state of
/// its own, but it cannot influence which items flow past it, so no
/// contract is stated about it.
pub trait Observe<T>: Sized {
    /// Look at one item.
    fn observe(&mut self, t: &T);
}

/// The predicate `item > bound` on unsigned items.
pub struct GreaterThan {
    /// The strict lower bound an item must exceed.
    pub bound: u64,
}

impl Predicate<u64> for GreaterThan {
    open spec fn holds(&self, t: u64) -> bool {
        t > self.bound
    }

    fn test(&self, t: &u64) -> (b: bool) {
        *t > self.bound
    }
}

/// The predicate `item < bound` on unsigned items.
pub struct LessThan {
    /// The strict upper bound an item must stay under.
    pub bound: u64,
}

impl Predicate<u64> for LessThan {
    open spec fn holds(&self, t: u64) -> bool {
        t < self.bound
    }

    fn test(&self, t: &u64) -> (b: bool) {
        *t < self.bound
    }
}

/// The partial transform `item - amount`, declining items that would
/// underflow.
pub struct SubtractChecked {
    /// The amount subtracted from each accepted item.
    pub amount: u64,
}

impl PartialTransform<u64> for SubtractChecked {
    type Out = u64;

    open spec fn spec_attempt(&self, t: u64) -> Option<u64> {
        if t >= self.amount {
            Some((t - self.amount) as u64)
        } else {
            None
        }
    }

    fn attempt(&self, t: u64) -> (r: Option<u64>) {
        if t >= self.amount {
            Some(t - self.amount)
        } else {
            None
        }
    }
}

/// The total transform `item + amount`, saturating at the largest value.
pub struct AddSaturating {
    /// The amount added to each item.
    pub amount: u64,
}

impl Transform<u64> for AddSaturating {
    type Out = u64;

    open spec fn spec_apply(&self, t: u64) -> u64 {
        if t + self.amount > u64::MAX {
            u64::MAX
        } else {
            (t + self.amount) as u64
        }
    }

    fn apply(&self, t: u64) -> (r: u64) {
        if t > u64::MAX - self.amount {
            u64::MAX
        } else {
            t + self.amount
        }
    }
}

/// A producer that yields the same value on every call.
pub struct ConstantProducer {
    /// The value produced.
    pub value: u64,
}

impl Producer for ConstantProducer {
    type Out = u64;

    open spec fn spec_value(&self) -> u64 {
        self.value
    }

    fn produce(&self) -> (r: u64) {
        self.value
    }
}

/// An observer that counts how many items flowed past it, saturating.
pub struct CountingObserver {
    /// How many items have been observed so far.
    pub seen: u64,
}

impl Observe<u64> for CountingObserver {
    fn observe(&mut self, t: &u64) {
        if self.seen < u64::MAX {
            self.seen = self.seen + 1;
        }
    }
}

/// The total transform from an item to the two-element segment holding
/// the item and its successor, clipped at the top of the range.
pub struct PairRange;

impl Transform<u64> for PairRange {
    type Out = BoundedRange;

    open spec fn spec_apply(&self, t: u64) -> BoundedRange {
        if t + 2 > u64::MAX {
            BoundedRange { cur: t, end: u64::MAX }
        } else {
            BoundedRange { cur: t, end: (t + 2) as u64 }
        }
    }

    fn apply(&self, t: u64) -> (r: BoundedRange) {
        if t > u64::MAX - 2 {
            BoundedRange { cur: t, end: u64::MAX }
        } else {
            BoundedRange { cur: t, end: t + 2 }
        }
    }
}

/// The total transform from an item to the one-element segment holding
/// it when it is odd, and to the empty segment otherwise.
pub struct KeepOdd;

impl Transform<u64> for KeepOdd {
    type Out = BoundedRange;

    open spec fn spec_apply(&self, t: u64) -> BoundedRange {
        if t % 2 == 1 && t < u64::MAX {
            BoundedRange { cur: t, end: (t + 1) as u64 }
        } else {
            BoundedRange { cur: t, end: t }
        }
    }

    fn apply(&self, t: u64) -> (r: BoundedRange) {
        if t % 2 == 1 && t < u64::MAX {
            BoundedRange { cur: t, end: t + 1 }
        } else {
            BoundedRange { cur: t, end: t }
        }
    }
}

} // verus!
