//! Encoding of the quote-level `quote_ext` word.
use vstd::prelude::*;

verus! {

/// `quote_ext` is unused.
pub const NONE: u8 = 0;

/// `quote_ext` is the total LP holdings.
pub const LP_HOLDINGS: u8 = 1;

/// `quote_ext` is the exchange sequence boundary (crypto snapshots).
pub const SEQUENCE: u8 = 2;

/// `quote_ext` is the indicative price of a call auction before the cross,
/// in the record's price scale.
pub const EXPECTED_PRICE: u8 = 3;

} // verus!
