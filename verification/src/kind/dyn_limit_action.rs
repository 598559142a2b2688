//! Dynamic price limit action encoding.
use vstd::prelude::*;

verus! {

/// The message said something this build does not recognise; the band in
/// the payload must not be acted on.
pub const UNKNOWN: u8 = 0;

/// A band is in force; `upper_price` / `lower_price` are it.
pub const APPLIED: u8 = 1;

/// The band is lifted. Prices in the payload are not a band.
pub const RELEASED: u8 = 2;

} // verus!
