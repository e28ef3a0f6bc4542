//! Positions of matches along a never-ending sequence.
//!
//! A discarding adapter (filtering, filter-mapping, skipping a matching
//! prefix) is modeled through the positions at which a match predicate
//! holds: its `n`-th item is the underlying item at the `n`-th matching
//! position. This module defines those positions over an abstract match
//! predicate on positions and proves the facts the adapters need: the
//! first matching position is what it claims to be, matching positions
//! grow strictly, and they shift in step with the underlying sequence.

use vstd::prelude::*;
use crate::infinite::lemma_least_witness;

verus! {

/// Whether some position at or after `start` matches.
pub open spec fn sat_from(q: spec_fn(nat) -> bool, start: nat) -> bool {
    exists|m: nat| m >= start && #[trigger] q(m)
}

/// Whether matches never run out: infinitely many positions match. A
/// discarding adapter stays never-ending exactly under this condition.
pub open spec fn always_sat(q: spec_fn(nat) -> bool) -> bool {
    forall|start: nat| #[trigger] sat_from(q, start)
}

/// Whether `h` is the first matching position at or after `start`.
pub open spec fn is_first_sat(q: spec_fn(nat) -> bool, start: nat, h: nat) -> bool {
    h >= start && q(h) && (forall|j: nat| start <= j < h ==> !(#[trigger] q(j)))
}

/// The first matching position at or after `start`.
pub open spec fn first_sat(q: spec_fn(nat) -> bool, start: nat) -> nat {
    choose|h: nat| is_first_sat(q, start, h)
}

/// The `k`-th matching position, counting matches from position zero.
pub open spec fn sat_index(q: spec_fn(nat) -> bool, k: nat) -> nat
    decreases k,
{
    if k == 0 {
        first_sat(q, 0)
    } else {
        first_sat(q, sat_index(q, (k - 1) as nat) + 1)
    }
}

/// When a match exists at or after `start`, the first matching position
/// is one, and nothing before it matches.
pub proof fn lemma_first_sat(q: spec_fn(nat) -> bool, start: nat)
    requires
        sat_from(q, start),
    ensures
        is_first_sat(q, start, first_sat(q, start)),
{
    let witness = choose|m: nat| m >= start && #[trigger] q(m);
    let p = |m: nat| m >= start && q(m);
    assert(p(witness));
    let least = lemma_least_witness(p, witness);
    assert forall|j: nat| start <= j < least implies !(#[trigger] q(j)) by {
        assert(!p(j));
    }
    assert(is_first_sat(q, start, least));
}

/// Two positions that are both the first match from `start` are the same
/// position.
pub proof fn lemma_first_sat_unique(q: spec_fn(nat) -> bool, start: nat, h1: nat, h2: nat)
    requires
        is_first_sat(q, start, h1),
        is_first_sat(q, start, h2),
    ensures
        h1 == h2,
{
}

/// When matches never run out, every matching position exists, matches,
/// and the positions grow strictly with `k`.
pub proof fn lemma_sat_index(q: spec_fn(nat) -> bool, k: nat)
    requires
        always_sat(q),
    ensures
        q(sat_index(q, k)),
        sat_index(q, k) >= k,
        k > 0 ==> sat_index(q, k) > sat_index(q, (k - 1) as nat),
    decreases k,
{
    if k == 0 {
        lemma_first_sat(q, 0);
    } else {
        lemma_sat_index(q, (k - 1) as nat);
        lemma_first_sat(q, sat_index(q, (k - 1) as nat) + 1);
    }
}

/// The matching positions of a sequence advanced past its first match
/// are the later matching positions of the original sequence, shifted
/// back by the amount consumed: discarding up to and including the first
/// match turns the `n + 1`-st match into the `n`-th.
pub proof fn lemma_sat_index_shift(
    qn: spec_fn(nat) -> bool,
    qo: spec_fn(nat) -> bool,
    d: nat,
    k: nat,
)
    requires
        always_sat(qo),
        forall|j: nat| #[trigger] qn(j) == qo(j + d),
        d == sat_index(qo, 0) + 1,
    ensures
        sat_index(qo, k + 1) >= d,
        sat_index(qn, k) == sat_index(qo, k + 1) - d,
    decreases k,
{
    lemma_sat_index(qo, k + 1);
    lemma_sat_index(qo, k);
    if k == 0 {
        lemma_sat_index(qo, 0);
        let h_old = sat_index(qo, 1);
        lemma_first_sat(qo, sat_index(qo, 0) + 1);
        assert(is_first_sat(qo, d, h_old));
        assert(is_first_sat(qn, 0, (h_old - d) as nat)) by {
            assert(qn((h_old - d) as nat) == qo(h_old));
            assert forall|j: nat| j < h_old - d implies !(#[trigger] qn(j)) by {
                assert(qn(j) == qo(j + d));
            }
        }
        lemma_first_sat(qn, 0);
        lemma_first_sat_unique(qn, 0, first_sat(qn, 0), (h_old - d) as nat);
    } else {
        lemma_sat_index_shift(qn, qo, d, (k - 1) as nat);
        let prev_n = sat_index(qn, (k - 1) as nat);
        let prev_o = sat_index(qo, k);
        assert(prev_n == prev_o - d);
        let h_old = sat_index(qo, k + 1);
        lemma_first_sat(qo, prev_o + 1);
        assert(is_first_sat(qo, prev_o + 1, h_old));
        assert(is_first_sat(qn, prev_n + 1, (h_old - d) as nat)) by {
            assert(qn((h_old - d) as nat) == qo(h_old));
            assert forall|j: nat| prev_n + 1 <= j < h_old - d implies !(#[trigger] qn(j)) by {
                assert(qn(j) == qo(j + d));
            }
        }
        lemma_first_sat(qn, prev_n + 1);
        lemma_first_sat_unique(qn, prev_n + 1, first_sat(qn, prev_n + 1), (h_old - d) as nat);
    }
}

/// When position zero does not match, advancing by one moves the first
/// match one position closer.
pub proof fn lemma_first_sat_step(qn: spec_fn(nat) -> bool, qo: spec_fn(nat) -> bool)
    requires
        sat_from(qo, 0),
        !qo(0),
        forall|j: nat| #[trigger] qn(j) == qo(j + 1),
    ensures
        sat_from(qn, 0),
        first_sat(qn, 0) + 1 == first_sat(qo, 0),
{
    lemma_first_sat(qo, 0);
    let h = first_sat(qo, 0);
    assert(h >= 1);
    assert(is_first_sat(qn, 0, (h - 1) as nat)) by {
        assert(qn((h - 1) as nat) == qo(h));
        assert forall|j: nat| j < h - 1 implies !(#[trigger] qn(j)) by {
            assert(qn(j) == qo(j + 1));
        }
    }
    assert(sat_from(qn, 0)) by {
        assert(qn((h - 1) as nat));
        assert((h - 1) as nat >= 0 && qn((h - 1) as nat));
    }
    lemma_first_sat(qn, 0);
    lemma_first_sat_unique(qn, 0, first_sat(qn, 0), (h - 1) as nat);
}

/// A sequence advanced past its first match still has matches at every
/// position onward, provided the original did.
pub proof fn lemma_always_sat_shift(qn: spec_fn(nat) -> bool, qo: spec_fn(nat) -> bool, d: nat)
    requires
        always_sat(qo),
        forall|j: nat| #[trigger] qn(j) == qo(j + d),
    ensures
        always_sat(qn),
{
    assert forall|start: nat| #[trigger] sat_from(qn, start) by {
        assert(sat_from(qo, start + d));
        let m = choose|m: nat| m >= start + d && #[trigger] qo(m);
        assert(qn((m - d) as nat) == qo(m));
        assert((m - d) as nat >= start && qn((m - d) as nat));
    }
}

} // verus!
