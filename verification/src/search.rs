//! Searching a never-ending sequence.
//!
//! None of these operations can fail: the sequence cannot exhaust, so a
//! search ends by finding, never by running out. The flip side is that a
//! search whose predicate is never satisfied would never return; each
//! operation therefore asks for a position at which it succeeds, and its
//! walk provably stops at the first such position.

use vstd::prelude::*;
use crate::infinite::{InfiniteIterator, lemma_least_witness};
use crate::func::{PartialTransform, Predicate};

verus! {

/// Advances until an item satisfies `pred` and returns that item. The
/// first satisfying item is consumed along with everything before it;
/// the sequence goes on right behind it.
pub fn find_infinite<I: InfiniteIterator, P: Predicate<I::Item>>(it: &mut I, pred: &P) -> (r:
    I::Item)
    requires
        old(it).wf(),
        exists|n: nat| #[trigger] pred.holds(old(it).item_at(n)),
    ensures
        final(it).wf(),
        exists|n: nat|
            {
                &&& #[trigger] pred.holds(old(it).item_at(n))
                &&& forall|m: nat| m < n ==> !pred.holds(old(it).item_at(m))
                &&& r == old(it).item_at(n)
                &&& forall|k: nat| #[trigger] final(it).item_at(k) == old(it).item_at(k + n + 1)
            },
{
    let ghost mut target: nat = 0nat;
    proof {
        let hit = |n: nat| pred.holds(old(it).item_at(n));
        let witness = choose|n: nat| #[trigger] pred.holds(old(it).item_at(n));
        assert(hit(witness));
        target = lemma_least_witness(hit, witness);
        assert(pred.holds(old(it).item_at(target)));
        assert forall|m: nat| m < target implies !pred.holds(old(it).item_at(m)) by {
            assert(!hit(m));
        }
    }
    let ghost mut steps: nat = 0nat;
    loop
        invariant
            it.wf(),
            steps <= target,
            pred.holds(old(it).item_at(target)),
            forall|m: nat| m < target ==> !pred.holds(old(it).item_at(m)),
            forall|k: nat| #[trigger] it.item_at(k) == old(it).item_at(k + steps),
        decreases target - steps,
    {
        let ghost prev = *it;
        let x = it.next_infinite();
        proof {
            assert(x == old(it).item_at(steps));
        }
        if pred.test(&x) {
            proof {
                assert(steps == target);
                assert forall|k: nat| #[trigger] it.item_at(k) == old(it).item_at(
                    k + target + 1,
                ) by {
                    assert(it.item_at(k) == prev.item_at(k + 1));
                }
            }
            return x;
        }
        proof {
            steps = steps + 1;
            assert forall|k: nat| #[trigger] it.item_at(k) == old(it).item_at(k + steps) by {
                assert(it.item_at(k) == prev.item_at(k + 1));
            }
        }
    }
}

/// Advances until the transform accepts an item and returns the
/// transformed value. Items the transform declines are consumed and
/// discarded.
pub fn find_map_infinite<I: InfiniteIterator, F: PartialTransform<I::Item>>(
    it: &mut I,
    f: &F,
) -> (r: F::Out)
    requires
        old(it).wf(),
        exists|n: nat| (#[trigger] f.spec_attempt(old(it).item_at(n))) is Some,
    ensures
        final(it).wf(),
        exists|n: nat|
            {
                &&& (#[trigger] f.spec_attempt(old(it).item_at(n))) is Some
                &&& forall|m: nat| m < n ==> !(f.spec_attempt(old(it).item_at(m)) is Some)
                &&& Some(r) == f.spec_attempt(old(it).item_at(n))
                &&& forall|k: nat| #[trigger] final(it).item_at(k) == old(it).item_at(k + n + 1)
            },
{
    let ghost mut target: nat = 0nat;
    proof {
        let hit = |n: nat| f.spec_attempt(old(it).item_at(n)) is Some;
        let witness = choose|n: nat| (#[trigger] f.spec_attempt(old(it).item_at(n))) is Some;
        assert(hit(witness));
        target = lemma_least_witness(hit, witness);
        assert(f.spec_attempt(old(it).item_at(target)) is Some);
        assert forall|m: nat|
            m < target implies !(f.spec_attempt(old(it).item_at(m)) is Some) by {
            assert(!hit(m));
        }
    }
    let ghost mut steps: nat = 0nat;
    loop
        invariant
            it.wf(),
            steps <= target,
            f.spec_attempt(old(it).item_at(target)) is Some,
            forall|m: nat| m < target ==> !(f.spec_attempt(old(it).item_at(m)) is Some),
            forall|k: nat| #[trigger] it.item_at(k) == old(it).item_at(k + steps),
        decreases target - steps,
    {
        let ghost prev = *it;
        let x = it.next_infinite();
        proof {
            assert(x == old(it).item_at(steps));
        }
        match f.attempt(x) {
            Some(v) => {
                proof {
                    assert(steps == target);
                    assert forall|k: nat| #[trigger] it.item_at(k) == old(it).item_at(
                        k + target + 1,
                    ) by {
                        assert(it.item_at(k) == prev.item_at(k + 1));
                    }
                }
                return v;
            },
            None => {
                proof {
                    steps = steps + 1;
                    assert forall|k: nat| #[trigger] it.item_at(k) == old(it).item_at(
                        k + steps,
                    ) by {
                        assert(it.item_at(k) == prev.item_at(k + 1));
                    }
                }
            },
        }
    }
}

/// Advances until an item satisfies `pred` and returns how many items
/// were consumed before it, counting from zero. The match position must
/// fit the counter, which every position reachable in practice does.
pub fn position_infinite<I: InfiniteIterator, P: Predicate<I::Item>>(it: &mut I, pred: &P) -> (r:
    u64)
    requires
        old(it).wf(),
        exists|n: nat| n <= u64::MAX && #[trigger] pred.holds(old(it).item_at(n)),
    ensures
        final(it).wf(),
        exists|n: nat|
            {
                &&& #[trigger] pred.holds(old(it).item_at(n))
                &&& forall|m: nat| m < n ==> !pred.holds(old(it).item_at(m))
                &&& r == n
                &&& forall|k: nat| #[trigger] final(it).item_at(k) == old(it).item_at(k + n + 1)
            },
{
    let ghost mut target: nat = 0nat;
    proof {
        let hit = |n: nat| pred.holds(old(it).item_at(n));
        let witness = choose|n: nat|
            n <= u64::MAX && #[trigger] pred.holds(old(it).item_at(n));
        assert(hit(witness));
        target = lemma_least_witness(hit, witness);
        assert(target <= witness <= u64::MAX);
        assert(pred.holds(old(it).item_at(target)));
        assert forall|m: nat| m < target implies !pred.holds(old(it).item_at(m)) by {
            assert(!hit(m));
        }
    }
    let mut count: u64 = 0;
    loop
        invariant
            it.wf(),
            count <= target <= u64::MAX,
            pred.holds(old(it).item_at(target)),
            forall|m: nat| m < target ==> !pred.holds(old(it).item_at(m)),
            forall|k: nat| #[trigger] it.item_at(k) == old(it).item_at((k + count) as nat),
        decreases target - count,
    {
        let ghost prev = *it;
        let x = it.next_infinite();
        proof {
            assert(x == old(it).item_at(count as nat));
        }
        if pred.test(&x) {
            proof {
                assert(count == target);
                assert forall|k: nat| #[trigger] it.item_at(k) == old(it).item_at(
                    k + target + 1,
                ) by {
                    assert(it.item_at(k) == prev.item_at(k + 1));
                }
            }
            return count;
        }
        count = count + 1;
        proof {
            assert forall|k: nat| #[trigger] it.item_at(k) == old(it).item_at((k + count) as nat) by {
                assert(it.item_at(k) == prev.item_at(k + 1));
            }
        }
    }
}

} // verus!
