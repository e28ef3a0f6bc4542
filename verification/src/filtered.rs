//! Filtering a never-ending sequence.

use vstd::prelude::*;
use crate::infinite::InfiniteIterator;
use crate::func::{PartialTransform, Predicate};
use crate::position::{
    always_sat,
    first_sat,
    is_first_sat,
    lemma_always_sat_shift,
    lemma_first_sat,
    lemma_sat_index,
    lemma_sat_index_shift,
    sat_from,
    sat_index,
};

verus! {

/// The match predicate of a filter, as a predicate on positions of the
/// underlying sequence.
pub open spec fn filter_matches<I: InfiniteIterator, P: Predicate<I::Item>>(
    it: I,
    pred: P,
) -> spec_fn(nat) -> bool {
    |n: nat| pred.holds(it.item_at(n))
}

/// Hands on exactly the items satisfying a predicate. The combinator
/// discards items but never stops pulling, so it stays never-ending; its
/// advance keeps consuming the underlying sequence until the next match,
/// which is owed by the well-formedness condition that matches never run
/// out. With finitely many matches the advance could not return, which is
/// exactly why the capability asks for `always_sat`.
pub struct Filtered<I, P> {
    /// The underlying never-ending sequence.
    pub inner: I,
    /// The predicate an item must satisfy to be handed on.
    pub pred: P,
}

impl<I: InfiniteIterator, P: Predicate<I::Item>> Filtered<I, P> {
    /// The subsequence of items of `inner` satisfying `pred`.
    pub fn new(inner: I, pred: P) -> (r: Filtered<I, P>)
        requires
            inner.wf(),
            always_sat(filter_matches(inner, pred)),
        ensures
            r.wf(),
            forall|n: nat| #[trigger] r.item_at(n)
                == inner.item_at(sat_index(filter_matches(inner, pred), n)),
    {
        Filtered { inner, pred }
    }
}

impl<I: InfiniteIterator, P: Predicate<I::Item>> InfiniteIterator for Filtered<I, P> {
    type Item = I::Item;

    open spec fn wf(&self) -> bool {
        self.inner.wf() && always_sat(filter_matches(self.inner, self.pred))
    }

    open spec fn item_at(&self, n: nat) -> I::Item {
        self.inner.item_at(sat_index(filter_matches(self.inner, self.pred), n))
    }

    fn next_infinite(&mut self) -> (r: I::Item) {
        let ghost q0 = filter_matches(old(self).inner, old(self).pred);
        let ghost mut target: nat = 0nat;
        proof {
            assert(sat_from(q0, 0));
            lemma_first_sat(q0, 0);
            target = first_sat(q0, 0);
            assert(target == sat_index(q0, 0));
        }
        let ghost mut steps: nat = 0nat;
        loop
            invariant
                self.inner.wf(),
                self.pred == old(self).pred,
                always_sat(q0),
                q0 == filter_matches(old(self).inner, old(self).pred),
                is_first_sat(q0, 0, target),
                target == sat_index(q0, 0),
                steps <= target,
                forall|k: nat| #[trigger] self.inner.item_at(k)
                    == old(self).inner.item_at(k + steps),
            decreases target - steps,
        {
            let ghost prev = self.inner;
            let x = self.inner.next_infinite();
            proof {
                assert(x == old(self).inner.item_at(steps));
            }
            if self.pred.test(&x) {
                proof {
                    assert(q0(steps) == old(self).pred.holds(old(self).inner.item_at(steps)));
                    assert(q0(steps));
                    assert(steps == target);
                    assert forall|k: nat| #[trigger] self.inner.item_at(k)
                        == old(self).inner.item_at(k + target + 1) by {
                        assert(self.inner.item_at(k) == prev.item_at(k + 1));
                    }
                    let qn = filter_matches(self.inner, self.pred);
                    assert forall|j: nat| #[trigger] qn(j) == q0(j + target + 1) by {
                        assert(qn(j) == self.pred.holds(self.inner.item_at(j)));
                        assert(self.inner.item_at(j) == old(self).inner.item_at(j + target + 1));
                        assert(q0(j + target + 1) == old(self).pred.holds(
                            old(self).inner.item_at(j + target + 1),
                        ));
                    }
                    lemma_always_sat_shift(qn, q0, target + 1);
                    assert forall|n: nat| #[trigger] self.item_at(n) == old(self).item_at(
                        n + 1,
                    ) by {
                        lemma_sat_index_shift(qn, q0, target + 1, n);
                        lemma_sat_index(q0, n + 1);
                        assert(self.inner.item_at(sat_index(qn, n)) == old(self).inner.item_at(
                            sat_index(qn, n) + target + 1,
                        ));
                    }
                }
                return x;
            }
            proof {
                assert(q0(steps) == old(self).pred.holds(old(self).inner.item_at(steps)));
                assert(!q0(steps));
                steps = steps + 1;
                assert forall|k: nat| #[trigger] self.inner.item_at(k) == old(self).inner.item_at(
                    k + steps,
                ) by {
                    assert(self.inner.item_at(k) == prev.item_at(k + 1));
                }
            }
        }
    }
}

/// The acceptance predicate of a filtering transform, as a predicate on
/// positions of the underlying sequence.
pub open spec fn accepts_at<I: InfiniteIterator, F: PartialTransform<I::Item>>(
    it: I,
    f: F,
) -> spec_fn(nat) -> bool {
    |n: nat| f.spec_attempt(it.item_at(n)) is Some
}

/// Transforms items, discarding the ones the transform declines. Stays
/// never-ending under the same condition as a plain filter: acceptances
/// must never run out.
pub struct FilterMapped<I, F> {
    /// The underlying never-ending sequence.
    pub inner: I,
    /// The transform deciding and reshaping each item.
    pub f: F,
}

impl<I: InfiniteIterator, F: PartialTransform<I::Item>> FilterMapped<I, F> {
    /// The transformed subsequence of items of `inner` that `f` accepts.
    pub fn new(inner: I, f: F) -> (r: FilterMapped<I, F>)
        requires
            inner.wf(),
            always_sat(accepts_at(inner, f)),
        ensures
            r.wf(),
            forall|n: nat| Some(#[trigger] r.item_at(n))
                == f.spec_attempt(inner.item_at(sat_index(accepts_at(inner, f), n))),
    {
        let r = FilterMapped { inner, f };
        proof {
            assert forall|n: nat| Some(#[trigger] r.item_at(n)) == f.spec_attempt(
                inner.item_at(sat_index(accepts_at(inner, f), n)),
            ) by {
                lemma_sat_index(accepts_at(inner, f), n);
            }
        }
        r
    }
}

impl<I: InfiniteIterator, F: PartialTransform<I::Item>> InfiniteIterator for FilterMapped<I, F> {
    type Item = F::Out;

    open spec fn wf(&self) -> bool {
        self.inner.wf() && always_sat(accepts_at(self.inner, self.f))
    }

    open spec fn item_at(&self, n: nat) -> F::Out {
        self.f.spec_attempt(self.inner.item_at(sat_index(accepts_at(self.inner, self.f), n)))->0
    }

    fn next_infinite(&mut self) -> (r: F::Out) {
        let ghost q0 = accepts_at(old(self).inner, old(self).f);
        let ghost mut target: nat = 0nat;
        proof {
            assert(sat_from(q0, 0));
            lemma_first_sat(q0, 0);
            target = first_sat(q0, 0);
            assert(target == sat_index(q0, 0));
        }
        let ghost mut steps: nat = 0nat;
        loop
            invariant
                self.inner.wf(),
                self.f == old(self).f,
                always_sat(q0),
                q0 == accepts_at(old(self).inner, old(self).f),
                is_first_sat(q0, 0, target),
                target == sat_index(q0, 0),
                steps <= target,
                forall|k: nat| #[trigger] self.inner.item_at(k)
                    == old(self).inner.item_at(k + steps),
            decreases target - steps,
        {
            let ghost prev = self.inner;
            let x = self.inner.next_infinite();
            proof {
                assert(x == old(self).inner.item_at(steps));
                assert(q0(steps) == (old(self).f.spec_attempt(
                    old(self).inner.item_at(steps),
                ) is Some));
            }
            match self.f.attempt(x) {
                Some(v) => {
                    proof {
                        assert(q0(steps));
                        assert(steps == target);
                        assert forall|k: nat| #[trigger] self.inner.item_at(k)
                            == old(self).inner.item_at(k + target + 1) by {
                            assert(self.inner.item_at(k) == prev.item_at(k + 1));
                        }
                        let qn = accepts_at(self.inner, self.f);
                        assert forall|j: nat| #[trigger] qn(j) == q0(j + target + 1) by {
                            assert(qn(j) == (self.f.spec_attempt(self.inner.item_at(j)) is Some));
                            assert(self.inner.item_at(j) == old(self).inner.item_at(
                                j + target + 1,
                            ));
                            assert(q0(j + target + 1) == (old(self).f.spec_attempt(
                                old(self).inner.item_at(j + target + 1),
                            ) is Some));
                        }
                        lemma_always_sat_shift(qn, q0, target + 1);
                        assert forall|n: nat| #[trigger] self.item_at(n) == old(self).item_at(
                            n + 1,
                        ) by {
                            lemma_sat_index_shift(qn, q0, target + 1, n);
                            lemma_sat_index(q0, n + 1);
                            assert(self.inner.item_at(sat_index(qn, n)) == old(
                                self,
                            ).inner.item_at(sat_index(qn, n) + target + 1));
                        }
                    }
                    return v;
                },
                None => {
                    proof {
                        assert(!q0(steps));
                        steps = steps + 1;
                        assert forall|k: nat| #[trigger] self.inner.item_at(k) == old(
                            self,
                        ).inner.item_at(k + steps) by {
                            assert(self.inner.item_at(k) == prev.item_at(k + 1));
                        }
                    }
                },
            }
        }
    }
}

/// The rejection predicate of a skipping filter, as a predicate on
/// positions of the underlying sequence: where the skip condition fails.
pub open spec fn fails_at<I: InfiniteIterator, P: Predicate<I::Item>>(
    it: I,
    pred: P,
) -> spec_fn(nat) -> bool {
    |n: nat| !pred.holds(it.item_at(n))
}

/// Discards the longest prefix of items satisfying a condition, then
/// hands everything on unexamined. The condition must eventually fail
/// once; from then on the adapter is a plain passthrough.
pub struct SkipWhile<I, P> {
    /// The underlying never-ending sequence.
    pub inner: I,
    /// The condition items of the leading prefix satisfy.
    pub pred: P,
    /// Whether the prefix has already been discarded.
    pub started: bool,
}

impl<I: InfiniteIterator, P: Predicate<I::Item>> SkipWhile<I, P> {
    /// The items of `inner` from the first one failing `pred` onward.
    pub fn new(inner: I, pred: P) -> (r: SkipWhile<I, P>)
        requires
            inner.wf(),
            sat_from(fails_at(inner, pred), 0),
        ensures
            r.wf(),
            forall|n: nat| #[trigger] r.item_at(n)
                == inner.item_at(n + first_sat(fails_at(inner, pred), 0)),
    {
        SkipWhile { inner, pred, started: false }
    }
}

impl<I: InfiniteIterator, P: Predicate<I::Item>> InfiniteIterator for SkipWhile<I, P> {
    type Item = I::Item;

    open spec fn wf(&self) -> bool {
        self.inner.wf() && (self.started || sat_from(fails_at(self.inner, self.pred), 0))
    }

    open spec fn item_at(&self, n: nat) -> I::Item {
        if self.started {
            self.inner.item_at(n)
        } else {
            self.inner.item_at(n + first_sat(fails_at(self.inner, self.pred), 0))
        }
    }

    fn next_infinite(&mut self) -> (r: I::Item) {
        if self.started {
            return self.inner.next_infinite();
        }
        let ghost q0 = fails_at(old(self).inner, old(self).pred);
        let ghost mut target: nat = 0nat;
        proof {
            lemma_first_sat(q0, 0);
            target = first_sat(q0, 0);
        }
        let ghost mut steps: nat = 0nat;
        loop
            invariant
                self.inner.wf(),
                self.pred == old(self).pred,
                !self.started,
                !old(self).started,
                q0 == fails_at(old(self).inner, old(self).pred),
                is_first_sat(q0, 0, target),
                target == first_sat(q0, 0),
                steps <= target,
                forall|k: nat| #[trigger] self.inner.item_at(k)
                    == old(self).inner.item_at(k + steps),
            decreases target - steps,
        {
            let ghost prev = self.inner;
            let x = self.inner.next_infinite();
            proof {
                assert(x == old(self).inner.item_at(steps));
                assert(q0(steps) == !old(self).pred.holds(old(self).inner.item_at(steps)));
            }
            if !self.pred.test(&x) {
                self.started = true;
                proof {
                    assert(q0(steps));
                    assert(steps == target);
                    assert forall|n: nat| #[trigger] self.item_at(n) == old(self).item_at(
                        n + 1,
                    ) by {
                        assert(self.inner.item_at(n) == prev.item_at(n + 1));
                    }
                }
                return x;
            }
            proof {
                assert(!q0(steps));
                steps = steps + 1;
                assert forall|k: nat| #[trigger] self.inner.item_at(k) == old(self).inner.item_at(
                    k + steps,
                ) by {
                    assert(self.inner.item_at(k) == prev.item_at(k + 1));
                }
            }
        }
    }
}

} // verus!
