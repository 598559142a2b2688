//! Trade aggressor encoding.
use vstd::prelude::*;

verus! {

/// Channel carries no aggressor flag.
pub const NONE: u8 = 0;

/// Aggressive seller.
pub const SELL: u8 = 1;

/// Aggressive buyer.
pub const BUY: u8 = 2;

/// Flag present but unclassified.
pub const UNKNOWN: u8 = 3;

} // verus!
