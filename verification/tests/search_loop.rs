use infinite_iterator::InfiniteIterator;
use infinite_iterator::func::{GreaterThan, SubtractChecked};
use infinite_iterator::gen::{RangeFrom, RepeatValue};
use infinite_iterator::looping::{
    advance_fallible, advance_infallible, run_loop, run_loop_infinite, BreakAbove, Collector, Flow,
    LoopBody,
};
use infinite_iterator::peek::{peek_twice_agrees, Peekable, PeekableExt};
use infinite_iterator::search::{find_infinite, find_map_infinite, position_infinite};
use infinite_iterator::source::{BoundedRange, VecSource};
use infinite_iterator::stride::SteppedBy;

#[test]
fn find_first_above_ten() {
    let mut it = RangeFrom::new(5);
    let found = find_infinite(&mut it, &GreaterThan { bound: 10 });
    assert_eq!(found, 11);
    assert_eq!(it.next_infinite(), 12);
}

#[test]
fn find_map_first_accepted() {
    let mut it = SteppedBy::new(RangeFrom::new(5), 3);
    let found = find_map_infinite(&mut it, &SubtractChecked { amount: 10 });
    assert_eq!(found, 1);
}

#[test]
fn position_of_first_above_ten() {
    let mut it = RangeFrom::new(5);
    let pos = position_infinite(&mut it, &GreaterThan { bound: 10 });
    assert_eq!(pos, 6);
}

#[test]
fn loop_over_finite_runs_to_unit() {
    let mut src = VecSource::new(vec![1u64, 2, 3]);
    let mut body = Collector { seen: Vec::new() };
    let out = run_loop(&mut src, &mut body);
    assert!(out.is_none());
    assert_eq!(body.seen, vec![1, 2, 3]);
}

#[test]
fn loop_over_infinite_breaks_with_value() {
    let mut it = RangeFrom::new(0);
    let mut body = BreakAbove { bound: 10 };
    let out = run_loop_infinite(&mut it, &mut body);
    assert_eq!(out, 11);
}

#[test]
fn fallible_advance_reports_exhaustion() {
    let mut src = BoundedRange::new(0, 1);
    assert!(matches!(advance_fallible(&mut src), Ok(0)));
    assert!(advance_fallible(&mut src).is_err());
}

#[test]
fn infallible_advance_always_succeeds() {
    let mut it = RepeatValue::new(4u64);
    assert!(matches!(advance_infallible(&mut it), Ok(4)));
    assert!(matches!(advance_infallible(&mut it), Ok(4)));
}

#[test]
fn body_decisions_follow_items() {
    let mut body = BreakAbove { bound: 2 };
    assert!(matches!(body.step(1), Flow::Continue));
    assert!(matches!(body.step(3), Flow::Break(3)));
}

#[test]
fn peek_does_not_consume() {
    let mut it = Peekable::new(RangeFrom::new(42));
    assert_eq!(*it.peek_infinite(), 42);
    assert_eq!(*it.peek_infinite(), 42);
    assert_eq!(it.next_infinite(), 42);
    assert_eq!(it.next_infinite(), 43);
}

#[test]
fn peek_twice_returns_same_item() {
    let mut it = Peekable::new(RangeFrom::new(7));
    let (a, b) = peek_twice_agrees(&mut it);
    assert_eq!(a, b);
    assert_eq!(a, 7);
}

#[test]
fn peek_mut_rewrites_the_head() {
    let mut it = Peekable::new(RangeFrom::new(5));
    {
        let head = it.peek_infinite_mut();
        assert_eq!(*head, 5);
        *head = 100;
    }
    assert_eq!(it.next_infinite(), 100);
    assert_eq!(it.next_infinite(), 6);
}
