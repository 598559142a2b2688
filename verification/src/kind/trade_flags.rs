//! Trade payload flag bits.
use vstd::prelude::*;

verus! {

/// `cumulative_qty` is meaningful.
pub const CUMULATIVE_QTY_VALID: u8 = 1;

/// `trade_yield` is meaningful.
pub const YIELD_VALID: u8 = 2;

/// `dyn_upper` / `dyn_lower` are meaningful.
pub const DYN_LIMIT_VALID: u8 = 4;

} // verus!
