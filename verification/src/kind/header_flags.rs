//! Header flag bits.
use vstd::prelude::*;

verus! {

/// `venue_ns` holds a real exchange timestamp.
pub const VENUE_TIME_VALID: u8 = 1;

/// Producer judged this data stale; the consumer must not act on it.
pub const STALE: u8 = 2;

/// Bid side carries no levels.
pub const BID_EMPTY: u8 = 4;

/// Ask side carries no levels.
pub const ASK_EMPTY: u8 = 8;

} // verus!
