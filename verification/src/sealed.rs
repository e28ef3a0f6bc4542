//! The seal restricting the peek extension to the one adapter that
//! actually holds its invariant.

use vstd::prelude::*;

verus! {

/// Implemented only by [`crate::peek::Peekable`]. Because this module is
/// private, no type outside the crate can implement it, so no wrapper
/// that merely resembles the lookahead adapter can claim the never-empty
/// peek guarantee.
pub trait Sealed {}

} // verus!
