//! Sequences that are statically known never to end.
//!
//! The core capability is the [`InfiniteIterator`] trait: a sequence type
//! whose single-step advance is infallible, modeled by the infinite
//! sequence of items it has yet to produce. Each adapter re-derives the
//! capability only when the underlying sequence(s) and the adapter's own
//! semantics jointly guarantee non-termination, and each derivation is a
//! verified proof obligation rather than a convention. Exhaustible
//! sequences implement [`source::Source`] instead, and the loop construct
//! in [`looping`] drives either kind through the advance path its
//! capability selects: fallible with a natural exit, or infallible with
//! an explicit break as the only way out.

pub mod infinite;
pub mod func;
pub mod gen;
pub mod adapt;
pub mod source;
pub mod chain;
pub mod stride;
pub mod looping;
pub mod position;
pub mod filtered;
pub mod flat;
pub mod search;
mod sealed;
pub mod peek;

pub use infinite::InfiniteIterator;
