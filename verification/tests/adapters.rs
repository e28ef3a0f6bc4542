use infinite_iterator::InfiniteIterator;
use infinite_iterator::adapt::{Cycled, Enumerated, Fused, Inspected, Mapped, Zipped};
use infinite_iterator::chain::Chained;
use infinite_iterator::filtered::{FilterMapped, Filtered, SkipWhile};
use infinite_iterator::flat::{FlatMapped, Flattened};
use infinite_iterator::func::{
    AddSaturating, ConstantProducer, CountingObserver, GreaterThan, KeepOdd, LessThan, PairRange,
    SubtractChecked,
};
use infinite_iterator::gen::{RangeFrom, RepeatValue, RepeatWith};
use infinite_iterator::peek::{Peekable, PeekableExt};
use infinite_iterator::source::{BoundedRange, Source, VecSource};
use infinite_iterator::stride::{Skipped, SteppedBy};

#[test]
fn repeat_always_same() {
    let mut it = RepeatValue::new(9u64);
    assert_eq!(it.next_infinite(), 9);
    assert_eq!(it.next_infinite(), 9);
    assert_eq!(it.next_infinite(), 9);
}

#[test]
fn repeat_with_produces() {
    let mut it = RepeatWith::new(ConstantProducer { value: 3 });
    assert_eq!(it.next_infinite(), 3);
    assert_eq!(it.next_infinite(), 3);
}

#[test]
fn range_from_counts_up() {
    let mut it = RangeFrom::new(5);
    assert_eq!(it.next_infinite(), 5);
    assert_eq!(it.next_infinite(), 6);
    assert_eq!(it.next_infinite(), 7);
}

#[test]
fn range_from_wraps_at_top() {
    let mut it = RangeFrom::new(u64::MAX);
    assert_eq!(it.next_infinite(), u64::MAX);
    assert_eq!(it.next_infinite(), 0);
    assert_eq!(it.next_infinite(), 1);
}

#[test]
fn mapped_reshapes_every_item() {
    let mut it = Mapped::new(RangeFrom::new(0), AddSaturating { amount: 5 });
    assert_eq!(it.next_infinite(), 5);
    assert_eq!(it.next_infinite(), 6);
    assert_eq!(it.next_infinite(), 7);
}

#[test]
fn mapped_saturates_at_top() {
    let mut it = Mapped::new(RangeFrom::new(u64::MAX - 1), AddSaturating { amount: 5 });
    assert_eq!(it.next_infinite(), u64::MAX);
    assert_eq!(it.next_infinite(), u64::MAX);
}

#[test]
fn filtered_keeps_only_matches() {
    let mut it = Filtered::new(RangeFrom::new(0), GreaterThan { bound: 2 });
    assert_eq!(it.next_infinite(), 3);
    assert_eq!(it.next_infinite(), 4);
    assert_eq!(it.next_infinite(), 5);
}

#[test]
fn filter_mapped_transforms_accepted() {
    let mut it = FilterMapped::new(RangeFrom::new(5), SubtractChecked { amount: 10 });
    assert_eq!(it.next_infinite(), 0);
    assert_eq!(it.next_infinite(), 1);
    assert_eq!(it.next_infinite(), 2);
}

#[test]
fn skip_while_drops_matching_prefix() {
    let mut it = SkipWhile::new(RangeFrom::new(0), LessThan { bound: 3 });
    assert_eq!(it.next_infinite(), 3);
    assert_eq!(it.next_infinite(), 4);
    assert_eq!(it.next_infinite(), 5);
}

#[test]
fn zipped_pairs_both_sides() {
    let mut it = Zipped::new(RangeFrom::new(0), RepeatValue::new(7u64));
    assert_eq!(it.next_infinite(), (0, 7));
    assert_eq!(it.next_infinite(), (1, 7));
}

#[test]
fn chained_hands_over_to_tail() {
    let prefix = VecSource::new(vec![1u64, 2, 3]);
    let mut it = Chained::new(prefix, RepeatValue::new(9u64));
    assert_eq!(it.next_infinite(), 1);
    assert_eq!(it.next_infinite(), 2);
    assert_eq!(it.next_infinite(), 3);
    assert_eq!(it.next_infinite(), 9);
    assert_eq!(it.next_infinite(), 9);
    assert_eq!(it.next_infinite(), 9);
    assert_eq!(it.next_infinite(), 9);
    assert_eq!(it.next_infinite(), 9);
}

#[test]
fn cycled_is_transparent_on_never_ending() {
    let mut it = Cycled::new(RangeFrom::new(10));
    assert_eq!(it.next_infinite(), 10);
    assert_eq!(it.next_infinite(), 11);
    assert_eq!(it.next_infinite(), 12);
}

#[test]
fn fused_is_transparent() {
    let mut it = Fused::new(RangeFrom::new(2));
    assert_eq!(it.next_infinite(), 2);
    assert_eq!(it.next_infinite(), 3);
}

#[test]
fn skipped_discards_prefix() {
    let mut it = Skipped::new(RangeFrom::new(0), 4);
    assert_eq!(it.next_infinite(), 4);
    assert_eq!(it.next_infinite(), 5);
}

#[test]
fn stepped_by_strides() {
    let mut it = SteppedBy::new(RangeFrom::new(5), 3);
    assert_eq!(it.next_infinite(), 5);
    assert_eq!(it.next_infinite(), 8);
    assert_eq!(it.next_infinite(), 11);
}

#[test]
fn enumerated_counts_positions() {
    let mut it = Enumerated::new(RepeatValue::new(9u64));
    assert_eq!(it.next_infinite(), (0, 9));
    assert_eq!(it.next_infinite(), (1, 9));
    assert_eq!(it.next_infinite(), (2, 9));
}

#[test]
fn inspected_observes_without_changing() {
    let mut it = Inspected::new(RangeFrom::new(1), CountingObserver { seen: 0 });
    assert_eq!(it.next_infinite(), 1);
    assert_eq!(it.next_infinite(), 2);
    assert_eq!(it.next_infinite(), 3);
    assert_eq!(it.observer.seen, 3);
}

#[test]
fn boxed_delegates() {
    let mut it = Box::new(RangeFrom::new(20));
    assert_eq!(it.next_infinite(), 20);
    assert_eq!(it.next_infinite(), 21);
}

#[test]
fn flattened_splices_segments() {
    let segments = Mapped::new(RangeFrom::new(1), PairRange);
    let mut it = Flattened::new(segments);
    assert_eq!(it.next_infinite(), 1);
    assert_eq!(it.next_infinite(), 2);
    assert_eq!(it.next_infinite(), 2);
    assert_eq!(it.next_infinite(), 3);
    assert_eq!(it.next_infinite(), 3);
    assert_eq!(it.next_infinite(), 4);
}

#[test]
fn deep_composition_advances_pointwise() {
    let mapped = Mapped::new(RangeFrom::new(0), AddSaturating { amount: 1 });
    let filtered = Filtered::new(mapped, GreaterThan { bound: 3 });
    let mut it = Peekable::new(filtered);
    assert_eq!(*it.peek_infinite(), 4);
    assert_eq!(it.next_infinite(), 4);
    assert_eq!(it.next_infinite(), 5);
    assert_eq!(*it.peek_infinite(), 6);
}

#[test]
fn flat_mapped_composes_map_and_flatten() {
    let mut it = FlatMapped::new(RangeFrom::new(10), PairRange);
    assert_eq!(it.next_infinite(), 10);
    assert_eq!(it.next_infinite(), 11);
    assert_eq!(it.next_infinite(), 11);
    assert_eq!(it.next_infinite(), 12);
}

#[test]
fn flat_mapped_skips_empty_segments() {
    let mut it = FlatMapped::new(RangeFrom::new(0), KeepOdd);
    assert_eq!(it.next_infinite(), 1);
    assert_eq!(it.next_infinite(), 3);
    assert_eq!(it.next_infinite(), 5);
}

#[test]
fn vec_source_exhausts() {
    let mut src = VecSource::new(vec![1u64, 2]);
    assert_eq!(src.next(), Some(1));
    assert_eq!(src.next(), Some(2));
    assert_eq!(src.next(), None);
    assert_eq!(src.next(), None);
}

#[test]
fn bounded_range_exhausts() {
    let mut src = BoundedRange::new(5, 7);
    assert_eq!(src.next(), Some(5));
    assert_eq!(src.next(), Some(6));
    assert_eq!(src.next(), None);
}
