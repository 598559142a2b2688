//! Errors raised while validating wire records.
use vstd::prelude::*;

use crate::kind::{WireKind, kind_label, kind_name};
use crate::text::{decimal, hex, push_decimal, push_hex};
use vstd::string::StringExecFns;
use crate::types::{Venue, venue_byte};

verus! {

/// Wire-record validation error.
///
/// Every variant is `Copy` and carries no heap data. A wire error means the
/// two sides of the ABI disagree, and the correct reaction is to stop reading
/// the segment, not to skip the record and carry on.
#[allow(inconsistent_fields)]
#[derive(Debug, Clone, Copy, PartialEq, Eq, Structural)]
pub enum WireError {
    /// Byte slice length does not match the expected size.
    Length {
        /// Expected size in bytes.
        expected: usize,
        /// Actual slice length.
        actual: usize,
    },
    /// Byte slice is not aligned for an in-place reference.
    Alignment {
        /// Required alignment in bytes.
        required: usize,
    },
    /// Segment magic does not match.
    Magic {
        /// Magic value found in the segment.
        found: u64,
    },
    /// Segment format version differs from this binary's.
    FormatVersion {
        /// Version compiled into this binary.
        expected: u32,
        /// Version written by the producer.
        found: u32,
    },
    /// Segment record size differs from this binary's.
    RecordSize {
        /// Record size compiled into this binary.
        expected: u32,
        /// Record size written by the producer.
        found: u32,
    },
    /// Segment capacity is zero.
    Capacity,
    /// Record kind byte is not a known [`WireKind`].
    Kind {
        /// Raw kind byte.
        found: u8,
    },
    /// A typed payload accessor was used on a record of another kind.
    KindMismatch {
        /// Kind the accessor expects.
        expected: WireKind,
        /// Kind the record actually carries.
        found: WireKind,
    },
    /// Venue byte is not a known [`Venue`].
    Venue {
        /// Raw venue byte.
        found: u8,
    },
    /// Scale byte is not a known scale.
    Scale {
        /// Raw scale byte.
        found: u8,
    },
    /// Depth exceeds the layout's maximum depth.
    Depth {
        /// Depth carried by the record.
        found: u8,
        /// Maximum depth supported by the layout.
        max: u8,
    },
    /// Trade kind byte is not a known encoding.
    TradeKind {
        /// Raw trade kind byte.
        found: u8,
    },
    /// Level extension kind byte is not a known encoding.
    LevelExtKind {
        /// Raw level extension kind byte.
        found: u8,
    },
    /// Quote extension kind byte is not a known encoding.
    QuoteExtKind {
        /// Raw quote extension kind byte.
        found: u8,
    },
    /// Expansion direction byte is not a known encoding.
    ExpansionDirection {
        /// Raw direction byte.
        found: u8,
    },
    /// Dynamic price limit action byte is not a known encoding.
    DynLimitAction {
        /// Raw action byte.
        found: u8,
    },
    /// A snapshot delta claims more changed levels than it holds.
    DeltaLevelCount {
        /// Bid levels claimed.
        bid: u8,
        /// Ask levels claimed.
        ask: u8,
        /// Levels the payload holds.
        max: u8,
    },
}

impl WireError {
    /// Venue error for a decoded venue, for callers that already have one.
    pub fn venue(v: Venue) -> (res: WireError)
        ensures
            res == (WireError::Venue { found: venue_byte(v) }),
    {
        WireError::Venue { found: v.as_u8() }
    }
}

/// What a wire error says.
pub open spec fn wire_error_text(e: WireError) -> Seq<char> {
    match e {
        WireError::Length { expected, actual } => "wire length mismatch: expected "@ + decimal(expected as nat)
            + ", got "@ + decimal(actual as nat),
        WireError::Alignment { required } => "wire slice not aligned to "@ + decimal(required as nat),
        WireError::Magic { found } => "wire segment magic mismatch: 0x"@ + hex(found as nat),
        WireError::FormatVersion { expected, found } => "wire format version mismatch: expected "@
            + decimal(expected as nat) + ", got "@ + decimal(found as nat),
        WireError::RecordSize { expected, found } => "wire record size mismatch: expected "@ + decimal(
            expected as nat,
        ) + ", got "@ + decimal(found as nat),
        WireError::Capacity => "wire segment capacity is zero"@,
        WireError::Kind { found } => "unknown wire record kind "@ + decimal(found as nat),
        WireError::KindMismatch { expected, found } => "wire record kind mismatch: expected "@
            + kind_label(expected)@ + ", got "@ + kind_label(found)@,
        WireError::Venue { found } => "unknown wire venue "@ + decimal(found as nat),
        WireError::Scale { found } => "unknown wire scale "@ + decimal(found as nat),
        WireError::Depth { found, max } => "wire depth "@ + decimal(found as nat) + " exceeds "@ + decimal(
            max as nat,
        ),
        WireError::TradeKind { found } => "unknown wire trade kind "@ + decimal(found as nat),
        WireError::LevelExtKind { found } => "unknown wire level extension "@ + decimal(found as nat),
        WireError::QuoteExtKind { found } => "unknown wire quote extension "@ + decimal(found as nat),
        WireError::ExpansionDirection { found } => "unknown wire expansion direction "@ + decimal(found as nat),
        WireError::DynLimitAction { found } => "unknown wire dynamic limit action "@ + decimal(found as nat),
        WireError::DeltaLevelCount { bid, ask, max } => "wire delta claims "@ + decimal(bid as nat)
            + " bid and "@ + decimal(ask as nat) + " ask levels, more than "@ + decimal(max as nat),
    }
}

impl WireError {
    /// The error as a sentence.
    pub fn to_string(&self) -> (res: String)
        ensures
            res@ == wire_error_text(*self),
    {
        let mut s = String::new();
        match *self {
            WireError::Length { expected, actual } => {
                s.append("wire length mismatch: expected ");
                push_decimal(&mut s, expected as u64);
                s.append(", got ");
                push_decimal(&mut s, actual as u64);
            },
            WireError::Alignment { required } => {
                s.append("wire slice not aligned to ");
                push_decimal(&mut s, required as u64);
            },
            WireError::Magic { found } => {
                s.append("wire segment magic mismatch: 0x");
                push_hex(&mut s, found);
            },
            WireError::FormatVersion { expected, found } => {
                s.append("wire format version mismatch: expected ");
                push_decimal(&mut s, expected as u64);
                s.append(", got ");
                push_decimal(&mut s, found as u64);
            },
            WireError::RecordSize { expected, found } => {
                s.append("wire record size mismatch: expected ");
                push_decimal(&mut s, expected as u64);
                s.append(", got ");
                push_decimal(&mut s, found as u64);
            },
            WireError::Capacity => {
                s.append("wire segment capacity is zero");
            },
            WireError::Kind { found } => {
                s.append("unknown wire record kind ");
                push_decimal(&mut s, found as u64);
            },
            WireError::KindMismatch { expected, found } => {
                s.append("wire record kind mismatch: expected ");
                s.append(kind_name(expected));
                s.append(", got ");
                s.append(kind_name(found));
            },
            WireError::Venue { found } => {
                s.append("unknown wire venue ");
                push_decimal(&mut s, found as u64);
            },
            WireError::Scale { found } => {
                s.append("unknown wire scale ");
                push_decimal(&mut s, found as u64);
            },
            WireError::Depth { found, max } => {
                s.append("wire depth ");
                push_decimal(&mut s, found as u64);
                s.append(" exceeds ");
                push_decimal(&mut s, max as u64);
            },
            WireError::TradeKind { found } => {
                s.append("unknown wire trade kind ");
                push_decimal(&mut s, found as u64);
            },
            WireError::LevelExtKind { found } => {
                s.append("unknown wire level extension ");
                push_decimal(&mut s, found as u64);
            },
            WireError::QuoteExtKind { found } => {
                s.append("unknown wire quote extension ");
                push_decimal(&mut s, found as u64);
            },
            WireError::ExpansionDirection { found } => {
                s.append("unknown wire expansion direction ");
                push_decimal(&mut s, found as u64);
            },
            WireError::DynLimitAction { found } => {
                s.append("unknown wire dynamic limit action ");
                push_decimal(&mut s, found as u64);
            },
            WireError::DeltaLevelCount { bid, ask, max } => {
                s.append("wire delta claims ");
                push_decimal(&mut s, bid as u64);
                s.append(" bid and ");
                push_decimal(&mut s, ask as u64);
                s.append(" ask levels, more than ");
                push_decimal(&mut s, max as u64);
            },
        }
        proof {
            assert(s@ =~= wire_error_text(*self));
        }
        s
    }
}

} // verus!
