//! Quote payload level-flag bits.
use vstd::prelude::*;

verus! {

/// Every level's `order_count` is meaningful.
pub const ORDER_COUNT_VALID: u8 = 1;

} // verus!
