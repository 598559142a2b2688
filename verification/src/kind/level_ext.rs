//! Encoding of the per-level `ext` word.
use vstd::prelude::*;

verus! {

/// `ext` is unused.
pub const NONE: u8 = 0;

/// `ext` is a bond yield (`i32` bit pattern).
pub const BOND_YIELD: u8 = 1;

/// `ext` is the liquidity-provider quantity at that level.
pub const LP_QUANTITY: u8 = 2;

} // verus!
