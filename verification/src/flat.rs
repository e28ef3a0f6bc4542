//! Flattening a never-ending sequence of finite segments, and its
//! composition with mapping: flat-map.

use vstd::prelude::*;
use crate::adapt::Mapped;
use crate::func::Transform;
use crate::infinite::{lemma_least_witness, InfiniteIterator};
use crate::position::{
    always_sat,
    first_sat,
    lemma_always_sat_shift,
    lemma_first_sat_step,
    lemma_sat_index,
    sat_from,
    sat_index,
};
use crate::source::Source;

verus! {

/// The positions of the nonempty segments of a never-ending sequence of
/// segments.
pub open spec fn nonempty_at<I: InfiniteIterator>(it: I) -> spec_fn(nat) -> bool where
    I::Item: Source
{
    |k: nat| it.item_at(k).remaining().len() > 0
}

/// Every segment is well-formed, and nonempty segments never run out.
/// Flattening stays never-ending exactly under the second condition: a
/// tail of nothing but empty segments would leave the flattened advance
/// with nothing to produce.
pub open spec fn segments_ok<I: InfiniteIterator>(it: I) -> bool where I::Item: Source {
    (forall|k: nat| (#[trigger] it.item_at(k)).wf()) && always_sat(nonempty_at(it))
}

/// The number of elements in the first `k` segments together.
pub open spec fn prefix_len<I: InfiniteIterator>(it: I, k: nat) -> nat where I::Item: Source
    decreases k,
{
    if k == 0 {
        0
    } else {
        prefix_len(it, (k - 1) as nat) + it.item_at((k - 1) as nat).remaining().len()
    }
}

/// Prefix lengths never shrink.
pub proof fn lemma_prefix_len_mono<I: InfiniteIterator>(it: I, a: nat, b: nat) where
    I::Item: Source

    requires
        a <= b,
    ensures
        prefix_len(it, a) <= prefix_len(it, b),
    decreases b,
{
    if b > a {
        lemma_prefix_len_mono(it, a, (b - 1) as nat);
    }
}

/// Prefix lengths grow without bound: the first `j + 1` nonempty
/// segments alone contribute more than `j` elements.
pub proof fn lemma_prefix_len_unbounded<I: InfiniteIterator>(it: I, j: nat) where I::Item: Source
    requires
        segments_ok(it),
    ensures
        prefix_len(it, sat_index(nonempty_at(it), j) + 1) >= j + 1,
    decreases j,
{
    let q = nonempty_at(it);
    lemma_sat_index(q, j);
    let sj = sat_index(q, j);
    assert(q(sj));
    assert(it.item_at(sj).remaining().len() > 0);
    if j == 0 {
        lemma_prefix_len_mono(it, 0, sj);
    } else {
        lemma_prefix_len_unbounded(it, (j - 1) as nat);
        let sp = sat_index(q, (j - 1) as nat);
        lemma_prefix_len_mono(it, sp + 1, sj);
    }
}

/// The index of the segment holding flat position `n`.
pub open spec fn segment_of<I: InfiniteIterator>(it: I, n: nat) -> nat where I::Item: Source {
    choose|k: nat| #[trigger] prefix_len(it, k) <= n < prefix_len(it, k + 1)
}

/// Flat position `n` falls inside the segment `segment_of` names.
pub proof fn lemma_segment_of<I: InfiniteIterator>(it: I, n: nat) where I::Item: Source
    requires
        segments_ok(it),
    ensures
        prefix_len(it, segment_of(it, n)) <= n < prefix_len(it, segment_of(it, n) + 1),
{
    let p = |k: nat| prefix_len(it, k + 1) > n;
    lemma_prefix_len_unbounded(it, n);
    let witness = sat_index(nonempty_at(it), n);
    assert(p(witness));
    let least = lemma_least_witness(p, witness);
    if least > 0 {
        assert(!p((least - 1) as nat));
        assert(prefix_len(it, least) <= n);
    }
    assert(prefix_len(it, least) <= n < prefix_len(it, least + 1));
    let seg = segment_of(it, n);
    assert(prefix_len(it, seg) <= n < prefix_len(it, seg + 1));
}

/// Any two segment indices whose ranges both hold `n` are the same index.
pub proof fn lemma_segment_unique<I: InfiniteIterator>(it: I, n: nat, k1: nat, k2: nat) where
    I::Item: Source

    requires
        prefix_len(it, k1) <= n < prefix_len(it, k1 + 1),
        prefix_len(it, k2) <= n < prefix_len(it, k2 + 1),
    ensures
        k1 == k2,
{
    if k1 < k2 {
        lemma_prefix_len_mono(it, k1 + 1, k2);
    }
    if k2 < k1 {
        lemma_prefix_len_mono(it, k2 + 1, k1);
    }
}

/// The element at flat position `n` of the concatenation of all
/// segments.
pub open spec fn flat_at<I: InfiniteIterator>(it: I, n: nat) -> <I::Item as Source>::Item where
    I::Item: Source
{
    it.item_at(segment_of(it, n)).remaining()[n - prefix_len(it, segment_of(it, n))]
}

/// Prefix lengths of the shifted sequence lag the original's by exactly
/// the first segment.
proof fn lemma_prefix_shift<I: InfiniteIterator>(shifted: I, it: I, k: nat) where I::Item: Source
    requires
        forall|j: nat| #[trigger] shifted.item_at(j) == it.item_at(j + 1),
    ensures
        prefix_len(shifted, k) + it.item_at(0).remaining().len() == prefix_len(it, k + 1),
    decreases k,
{
    if k == 0 {
        assert(prefix_len(shifted, 0) == 0);
        assert(prefix_len(it, 1) == prefix_len(it, 0) + it.item_at(0).remaining().len());
    } else {
        lemma_prefix_shift(shifted, it, (k - 1) as nat);
        assert(shifted.item_at((k - 1) as nat) == it.item_at(k));
        assert(prefix_len(shifted, k) == prefix_len(shifted, (k - 1) as nat) + shifted.item_at(
            (k - 1) as nat,
        ).remaining().len());
        assert(prefix_len(it, k + 1) == prefix_len(it, k) + it.item_at(k).remaining().len());
    }
}

/// Peeling one segment off preserves the segments' well-formedness and
/// the condition that nonempty segments never run out.
pub proof fn lemma_segments_ok_shift<I: InfiniteIterator>(shifted: I, it: I) where I::Item: Source
    requires
        segments_ok(it),
        forall|j: nat| #[trigger] shifted.item_at(j) == it.item_at(j + 1),
    ensures
        segments_ok(shifted),
        forall|j: nat| #[trigger] nonempty_at(shifted)(j) == nonempty_at(it)(j + 1),
{
    assert forall|k: nat| (#[trigger] shifted.item_at(k)).wf() by {
        assert(shifted.item_at(k) == it.item_at(k + 1));
    }
    let qn = nonempty_at(shifted);
    let qo = nonempty_at(it);
    assert forall|j: nat| #[trigger] qn(j) == qo(j + 1) by {
        assert(shifted.item_at(j) == it.item_at(j + 1));
        assert(qn(j) == (shifted.item_at(j).remaining().len() > 0));
        assert(qo(j + 1) == (it.item_at(j + 1).remaining().len() > 0));
    }
    lemma_always_sat_shift(qn, qo, 1);
}

/// Peeling the first segment off: positions inside it are its own
/// elements, and positions past it are the flat positions of the
/// remaining segments.
pub proof fn lemma_flat_peel<I: InfiniteIterator>(shifted: I, it: I, n: nat) where I::Item: Source
    requires
        segments_ok(it),
        forall|j: nat| #[trigger] shifted.item_at(j) == it.item_at(j + 1),
    ensures
        n < it.item_at(0).remaining().len() ==> flat_at(it, n) == it.item_at(0).remaining()[
            n as int
        ],
        n >= it.item_at(0).remaining().len() ==> flat_at(it, n) == flat_at(
            shifted,
            (n - it.item_at(0).remaining().len()) as nat,
        ),
{
    let len0 = it.item_at(0).remaining().len();
    lemma_segments_ok_shift(shifted, it);
    assert forall|k: nat| #[trigger] prefix_len(shifted, k) + len0 == prefix_len(it, k + 1) by {
        lemma_prefix_shift(shifted, it, k);
    }
    lemma_segment_of(it, n);
    if n < len0 {
        assert(prefix_len(it, 0) == 0);
        assert(prefix_len(it, 1) == len0);
        lemma_segment_unique(it, n, segment_of(it, n), 0);
    } else {
        let m = (n - len0) as nat;
        lemma_segment_of(shifted, m);
        let seg_s = segment_of(shifted, m);
        assert(prefix_len(it, seg_s + 1) == prefix_len(shifted, seg_s) + len0);
        assert(prefix_len(it, seg_s + 2) == prefix_len(shifted, seg_s + 1) + len0);
        lemma_segment_unique(it, n, segment_of(it, n), seg_s + 1);
        assert(it.item_at(seg_s + 1) == shifted.item_at(seg_s));
    }
}

/// Concatenates a never-ending sequence of finite segments into one
/// never-ending sequence of their elements. The combinator never stops
/// pulling segments, and a nonempty one is always still to come, so there
/// is always a next element.
pub struct Flattened<I: InfiniteIterator> where I::Item: Source {
    /// The never-ending supply of further segments.
    pub inner: I,
    /// The segment currently being drained.
    pub cur: I::Item,
}

impl<I: InfiniteIterator> Flattened<I> where I::Item: Source {
    /// The elements of every segment of `inner`, in order.
    pub fn new(inner: I) -> (r: Flattened<I>)
        requires
            inner.wf(),
            segments_ok(inner),
        ensures
            r.wf(),
            forall|n: nat| #[trigger] r.item_at(n) == flat_at(inner, n),
    {
        let ghost orig = inner;
        let mut rest = inner;
        let first = rest.next_infinite();
        let r = Flattened { inner: rest, cur: first };
        proof {
            lemma_segments_ok_shift(r.inner, orig);
            assert forall|n: nat| #[trigger] r.item_at(n) == flat_at(orig, n) by {
                lemma_flat_peel(r.inner, orig, n);
            }
        }
        r
    }
}

impl<I: InfiniteIterator> InfiniteIterator for Flattened<I> where I::Item: Source {
    type Item = <I::Item as Source>::Item;

    open spec fn wf(&self) -> bool {
        self.inner.wf() && self.cur.wf() && segments_ok(self.inner)
    }

    open spec fn item_at(&self, n: nat) -> <I::Item as Source>::Item {
        if n < self.cur.remaining().len() {
            self.cur.remaining()[n as int]
        } else {
            flat_at(self.inner, (n - self.cur.remaining().len()) as nat)
        }
    }

    #[verifier::rlimit(60)]
    fn next_infinite(&mut self) -> (r: <I::Item as Source>::Item) {
        loop
            invariant
                self.inner.wf(),
                self.cur.wf(),
                segments_ok(self.inner),
                forall|n: nat| #[trigger] self.item_at(n) == old(self).item_at(n),
            decreases (if self.cur.remaining().len() > 0 {
                0nat
            } else {
                first_sat(nonempty_at(self.inner), 0) + 1
            }),
        {
            let ghost state = *self;
            match self.cur.next() {
                Some(x) => {
                    proof {
                        assert(state.cur.remaining().len() > 0);
                        assert(x == state.item_at(0));
                        assert forall|n: nat| #[trigger] self.item_at(n) == state.item_at(
                            n + 1,
                        ) by {
                            if n < state.cur.remaining().len() - 1 {
                                assert(self.cur.remaining()[n as int] == state.cur.remaining()[
                                    n as int + 1
                                ]);
                            }
                        }
                    }
                    return x;
                },
                None => {
                    let ghost prev_inner = self.inner;
                    let seg = self.inner.next_infinite();
                    self.cur = seg;
                    proof {
                        assert(state.cur.remaining().len() == 0);
                        assert(seg == prev_inner.item_at(0));
                        assert(seg.wf());
                        lemma_segments_ok_shift(self.inner, prev_inner);
                        assert forall|n: nat| #[trigger] self.item_at(n) == state.item_at(n) by {
                            lemma_flat_peel(self.inner, prev_inner, n);
                        }
                        let qo = nonempty_at(prev_inner);
                        let qn = nonempty_at(self.inner);
                        assert(sat_from(qo, 0));
                        if seg.remaining().len() == 0 {
                            assert(!qo(0));
                            lemma_first_sat_step(qn, qo);
                        }
                    }
                },
            }
        }
    }
}

/// Maps every item to a finite segment and produces the elements of all
/// the segments in order: the composition of [`Mapped`] and
/// [`Flattened`], never-ending under the same condition as flattening.
pub struct FlatMapped<I: InfiniteIterator, F: Transform<I::Item>> where F::Out: Source {
    /// The flattened, mapped sequence.
    pub seq_of: Flattened<Mapped<I, F>>,
}

impl<I: InfiniteIterator, F: Transform<I::Item>> FlatMapped<I, F> where F::Out: Source {
    /// The elements of `f` applied to every item of `inner`, in order.
    pub fn new(inner: I, f: F) -> (r: FlatMapped<I, F>)
        requires
            inner.wf(),
            segments_ok((Mapped { inner, f })),
        ensures
            r.wf(),
            forall|n: nat| #[trigger] r.item_at(n) == flat_at((Mapped { inner, f }), n),
    {
        FlatMapped { seq_of: Flattened::new(Mapped { inner, f }) }
    }
}

impl<I: InfiniteIterator, F: Transform<I::Item>> InfiniteIterator for FlatMapped<I, F> where
    F::Out: Source
{
    type Item = <F::Out as Source>::Item;

    open spec fn wf(&self) -> bool {
        self.seq_of.wf()
    }

    open spec fn item_at(&self, n: nat) -> <F::Out as Source>::Item {
        self.seq_of.item_at(n)
    }

    fn next_infinite(&mut self) -> (r: <F::Out as Source>::Item) {
        self.seq_of.next_infinite()
    }
}

} // verus!
