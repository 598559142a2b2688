//! The one path a finished record takes out of a handler.
//!
//! The record is built in the slot: a sink hands a filler its buffer and
//! publishes the buffer only if the filler says `Ok`. A `fill` that returns
//! `Err` publishes nothing, which makes "never publish a half-filled record"
//! a property of the signature rather than of the caller's discipline.
use vstd::prelude::*;

use crate::record::WireRecord;

verus! {

/// Somewhere a completed [`WireRecord`] can be published.
///
/// Implemented by the shared-memory ring producer for the live path, and by
/// whatever a test or a replay wants to collect into.
pub trait RecordSink {
    /// Claims a record buffer, runs `fill` on it, and publishes it only if
    /// `fill` returns `Ok`. On `Err` the buffer is abandoned and nothing
    /// observes it.
    fn publish<E, F: FnOnce(&mut WireRecord) -> Result<(), E>>(&mut self, fill: F) -> Result<(), E>;

    /// Notes `n` records dropped before a buffer was claimed.
    fn note_drops(&mut self, n: u64);
}

} // verus!
