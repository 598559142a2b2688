//! Expansion direction encoding.
use vstd::prelude::*;

verus! {

/// Notice does not announce an expansion condition.
pub const NOT_APPLICABLE: u8 = 0;

/// Upward expansion condition occurred.
pub const UP: u8 = 1;

/// Downward expansion condition occurred.
pub const DOWN: u8 = 2;

} // verus!
