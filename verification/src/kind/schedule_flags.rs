//! Market schedule flag bits.
use vstd::prelude::*;

verus! {

/// The header symbol scopes this notice to one instrument.
pub const INSTRUMENT_SCOPED: u8 = 1;

/// `expected_time_of_day` is meaningful.
pub const EXPECTED_TIME_VALID: u8 = 2;

} // verus!
