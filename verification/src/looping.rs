//! The loop construct over either kind of sequence.
//!
//! A loop is a producer together with a body that, for each item, either
//! continues or breaks with a value. The two advance paths are selected at
//! compile time by which capability the producer's type carries: an
//! exhaustible producer ([`Source`]) drives [`run_loop`], whose advance
//! may fail and whose natural exit yields no value, while a never-ending
//! producer ([`InfiniteIterator`]) drives [`run_loop_infinite`], whose
//! advance cannot fail — its failure arm is the uninhabited
//! [`core::convert::Infallible`] — and which can only exit through an
//! explicit break with a value.

use vstd::prelude::*;
use crate::infinite::{InfiniteIterator, lemma_least_witness};
use crate::source::Source;

verus! {

/// A unit-like marker carried by the failure arm of the fallback advance
/// path: the producer exhausted naturally.
pub struct Exhausted;

/// What a loop body decides after seeing one item.
pub enum Flow<B> {
    /// Keep iterating.
    Continue,
    /// Leave the loop, yielding this value.
    Break(B),
}

/// The fallback-aware advance on an exhaustible producer: the failure arm
/// carries the [`Exhausted`] marker.
pub fn advance_fallible<S: Source>(src: &mut S) -> (r: Result<S::Item, Exhausted>)
    requires
        old(src).wf(),
    ensures
        final(src).wf(),
        old(src).remaining().len() == 0 ==> r is Err
            && final(src).remaining() == old(src).remaining(),
        old(src).remaining().len() > 0 ==> r == Ok::<S::Item, Exhausted>(old(src).remaining()[0])
            && final(src).remaining() == old(src).remaining().drop_first(),
{
    match src.next() {
        Some(x) => Ok(x),
        None => Err(Exhausted),
    }
}

/// The specialized advance on a never-ending producer: the failure arm is
/// uninhabited ([`core::convert::Infallible`]), so the result is always
/// the success arm and a handler for the failure arm is statically dead
/// code.
pub fn advance_infallible<I: InfiniteIterator>(it: &mut I) -> (r: Result<
    I::Item,
    core::convert::Infallible,
>)
    requires
        old(it).wf(),
    ensures
        final(it).wf(),
        r == Ok::<I::Item, core::convert::Infallible>(old(it).item_at(0)),
        forall|n: nat| #[trigger] final(it).item_at(n) == old(it).item_at(n + 1),
{
    Ok(it.next_infinite())
}

/// A loop body: handed one item at a time, it updates its own state and
/// decides whether to continue or to break with a value. The executable
/// step is pinned to the decision function `spec_step` over the body's
/// abstract state, so a whole loop has a mathematical meaning.
pub trait LoopBody: Sized {
    /// The type of the items the body is handed.
    type Item;

    /// The type of the value an explicit break yields.
    type BreakValue;

    /// The abstract state of the body.
    type Model;

    /// Well-formedness of the body's state.
    spec fn wf(&self) -> bool;

    /// The abstract state a body value denotes.
    spec fn model(&self) -> Self::Model;

    /// The body as a mathematical function: next abstract state and
    /// decision.
    spec fn spec_step(m: Self::Model, t: Self::Item) -> (Self::Model, Flow<Self::BreakValue>);

    /// Run the body once on `t`.
    fn step(&mut self, t: Self::Item) -> (f: Flow<Self::BreakValue>)
        requires
            old(self).wf(),
        ensures
            final(self).wf(),
            (final(self).model(), f) == Self::spec_step(old(self).model(), t),
    ;
}

/// The abstract state and outcome of running a body over the items
/// `items` in order: the final state, and the break value if the body
/// broke before the items ran out.
pub open spec fn loop_run<L: LoopBody>(m: L::Model, items: Seq<L::Item>) -> (
    L::Model,
    Option<L::BreakValue>,
)
    decreases items.len(),
{
    if items.len() == 0 {
        (m, None)
    } else {
        let stepped = L::spec_step(m, items[0]);
        match stepped.1 {
            Flow::Break(b) => (stepped.0, Some(b)),
            Flow::Continue => loop_run::<L>(stepped.0, items.drop_first()),
        }
    }
}

/// The loop construct over an exhaustible producer: the fallback path.
/// Feeds the producer's items to the body until the body breaks or the
/// producer exhausts; natural exhaustion yields `None`, the unit-like
/// outcome.
pub fn run_loop<S: Source, L: LoopBody<Item = S::Item>>(src: &mut S, body: &mut L) -> (r: Option<
    L::BreakValue,
>)
    requires
        old(src).wf(),
        old(body).wf(),
    ensures
        final(src).wf(),
        final(body).wf(),
        (final(body).model(), r) == loop_run::<L>(old(body).model(), old(src).remaining()),
        r is None ==> final(src).remaining().len() == 0,
{
    loop
        invariant
            src.wf(),
            body.wf(),
            loop_run::<L>(old(body).model(), old(src).remaining()) == loop_run::<L>(
                body.model(),
                src.remaining(),
            ),
        decreases src.remaining().len(),
    {
        let ghost prev_model = body.model();
        let ghost prev_rem = src.remaining();
        match src.next() {
            None => {
                return None;
            },
            Some(x) => {
                match body.step(x) {
                    Flow::Break(b) => {
                        proof {
                            assert(loop_run::<L>(prev_model, prev_rem) == (
                                body.model(),
                                Some(b),
                            ));
                        }
                        return Some(b);
                    },
                    Flow::Continue => {
                        proof {
                            assert(loop_run::<L>(prev_model, prev_rem) == loop_run::<L>(
                                body.model(),
                                src.remaining(),
                            ));
                        }
                    },
                }
            },
        }
    }
}

/// The abstract body state after a body has been run, continuing
/// throughout, on the first `n` items of the never-ending sequence
/// denoted by `it`.
pub open spec fn run_state<I: InfiniteIterator, L: LoopBody<Item = I::Item>>(
    m: L::Model,
    it: I,
    n: nat,
) -> L::Model
    decreases n,
{
    if n == 0 {
        m
    } else {
        L::spec_step(run_state::<I, L>(m, it, (n - 1) as nat), it.item_at((n - 1) as nat)).0
    }
}

/// The decision a body takes on the `n`-th item of the never-ending
/// sequence denoted by `it`, having continued on all earlier ones.
pub open spec fn flow_at<I: InfiniteIterator, L: LoopBody<Item = I::Item>>(
    m: L::Model,
    it: I,
    n: nat,
) -> Flow<L::BreakValue> {
    L::spec_step(run_state::<I, L>(m, it, n), it.item_at(n)).1
}

/// The loop construct over a never-ending producer: the infallible path.
/// The advance cannot fail, so the loop cannot exit by exhaustion; the
/// only way out is the body's explicit break, whose value is returned.
/// The body must eventually break: a body that never broke would keep
/// the loop running forever, so termination is owed to the break alone,
/// never to exhaustion.
pub fn run_loop_infinite<I: InfiniteIterator, L: LoopBody<Item = I::Item>>(
    it: &mut I,
    body: &mut L,
) -> (r: L::BreakValue)
    requires
        old(it).wf(),
        old(body).wf(),
        exists|n: nat| (#[trigger] flow_at::<I, L>(old(body).model(), *old(it), n)) is Break,
    ensures
        final(it).wf(),
        final(body).wf(),
        exists|n: nat|
            {
                &&& #[trigger] flow_at::<I, L>(old(body).model(), *old(it), n)
                    == Flow::<L::BreakValue>::Break(r)
                &&& forall|m: nat|
                    m < n ==> flow_at::<I, L>(old(body).model(), *old(it), m) is Continue
                &&& final(body).model() == L::spec_step(
                    run_state::<I, L>(old(body).model(), *old(it), n),
                    old(it).item_at(n),
                ).0
                &&& forall|k: nat| #[trigger] final(it).item_at(k) == old(it).item_at(k + n + 1)
            },
{
    let ghost mut steps: nat = 0nat;
    let ghost mut target: nat = 0nat;
    proof {
        let witness = choose|n: nat|
            (#[trigger] flow_at::<I, L>(old(body).model(), *old(it), n)) is Break;
        let brk = |n: nat| flow_at::<I, L>(old(body).model(), *old(it), n) is Break;
        assert(brk(witness));
        target = lemma_least_witness(brk, witness);
        assert(flow_at::<I, L>(old(body).model(), *old(it), target) is Break);
        assert forall|m: nat|
            m < target implies !(flow_at::<I, L>(old(body).model(), *old(it), m) is Break) by {
            assert(!brk(m));
        }
    }
    loop
        invariant
            it.wf(),
            body.wf(),
            steps <= target,
            flow_at::<I, L>(old(body).model(), *old(it), target) is Break,
            forall|m: nat| m < target ==> !(flow_at::<I, L>(old(body).model(), *old(it), m) is Break),
            body.model() == run_state::<I, L>(old(body).model(), *old(it), steps),
            forall|m: nat| m < steps ==> flow_at::<I, L>(old(body).model(), *old(it), m) is Continue,
            forall|k: nat| #[trigger] it.item_at(k) == old(it).item_at(k + steps),
        decreases target - steps,
    {
        let ghost prev_it = *it;
        let ghost prev_model = body.model();
        let x = match advance_infallible(it) {
            Ok(v) => v,
            // the failure arm is uninhabited: this branch provably
            // cannot run
            Err(_) => vstd::pervasive::unreached(),
        };
        proof {
            assert(x == old(it).item_at(steps));
        }
        match body.step(x) {
            Flow::Break(b) => {
                proof {
                    assert(flow_at::<I, L>(old(body).model(), *old(it), steps)
                        == Flow::<L::BreakValue>::Break(b));
                    assert forall|k: nat| #[trigger] it.item_at(k) == old(it).item_at(
                        k + steps + 1,
                    ) by {
                        assert(it.item_at(k) == prev_it.item_at(k + 1));
                    }
                }
                return b;
            },
            Flow::Continue => {
                proof {
                    assert(flow_at::<I, L>(old(body).model(), *old(it), steps) is Continue);
                    steps = steps + 1;
                    assert(body.model() == run_state::<I, L>(old(body).model(), *old(it), steps));
                    assert forall|k: nat| #[trigger] it.item_at(k) == old(it).item_at(
                        k + steps,
                    ) by {
                        assert(it.item_at(k) == prev_it.item_at(k + 1));
                    }
                }
            },
        }
    }
}

/// A loop body that records every item it is handed and never breaks.
pub struct Collector {
    /// The items seen so far, in order.
    pub seen: Vec<u64>,
}

impl LoopBody for Collector {
    type Item = u64;

    type BreakValue = u64;

    type Model = Seq<u64>;

    open spec fn wf(&self) -> bool {
        true
    }

    open spec fn model(&self) -> Seq<u64> {
        self.seen@
    }

    open spec fn spec_step(m: Seq<u64>, t: u64) -> (Seq<u64>, Flow<u64>) {
        (m.push(t), Flow::Continue)
    }

    fn step(&mut self, t: u64) -> (f: Flow<u64>) {
        self.seen.push(t);
        Flow::Continue
    }
}

/// A loop body that breaks with the first item above a bound.
pub struct BreakAbove {
    /// The strict bound; the first item above it ends the loop.
    pub bound: u64,
}

impl LoopBody for BreakAbove {
    type Item = u64;

    type BreakValue = u64;

    type Model = u64;

    open spec fn wf(&self) -> bool {
        true
    }

    open spec fn model(&self) -> u64 {
        self.bound
    }

    open spec fn spec_step(m: u64, t: u64) -> (u64, Flow<u64>) {
        if t > m {
            (m, Flow::Break(t))
        } else {
            (m, Flow::Continue)
        }
    }

    fn step(&mut self, t: u64) -> (f: Flow<u64>) {
        if t > self.bound {
            Flow::Break(t)
        } else {
            Flow::Continue
        }
    }
}

} // verus!
