//! Feed-handler wire records and the verified half of the handler around them.
//!
//! The wire record is the fixed-layout ABI between the feed handler process
//! and its consumer. Every record is a 64-byte header, a 544-byte payload
//! area and 32 bytes of explicit tail, 640 bytes in all; every field is a
//! plain integer or byte array with an explicit width and an explicit
//! little-endian position, so a record has exactly one byte image.
//!
//! Around the record: the segment header a consumer checks before it reads a
//! ring; the TOML reader and the three handlers' confs read with it, with
//! the rules that refuse a conf that would run wrong; the core-mask and SMT
//! topology rules a feed is placed by; the FIX venue adapter that turns
//! decoded market data into records; what a feed thread decides between
//! receive rounds; the log timestamp; and the libpcap reader and report of
//! the capture replay.
#![allow(unused_imports)]

use vstd::prelude::*;

pub mod boot;
pub mod codec;
pub mod conf;
pub mod cpu;
pub mod error;
pub mod feed;
pub mod fix;
pub mod header;
pub mod kind;
pub mod layout;
pub mod log;
pub mod payload;
pub mod pcap;
pub mod record;
pub mod segment;
pub mod signal;
pub mod sink;
pub mod text;
pub mod toml;
pub mod types;

pub use error::WireError;
pub use header::RecordHeader;
pub use payload::{
    DynamicPriceLimitPayload, HeartbeatPayload, InvestorStatsPayload, MarketSchedulePayload, OpenInterestPayload,
    PriceLimitPayload, QuotePayload, SnapshotDeltaPayload, TradePayload, TradeQuotePayload, WireDeltaLevel, WireLevel,
};
pub use record::WireRecord;
pub use sink::RecordSink;
pub use segment::{SEGMENT_HEADER_LEN, SEGMENT_MAGIC, SegmentHeader};
pub use kind::{
    WireKind, dyn_limit_action, expansion_direction, header_flags, level_ext, level_flags, quote_ext,
    schedule_flags, trade_flags, trade_kind,
};
pub use types::{
    BookPrice, BookQuantity, BookYield, ISIN_LEN, Isin, OrderCount, SYMBOL_LEN, Scale, Symbol, UnixNano, Venue,
    symbol_bytes, symbol_from_bytes,
};

verus! {

/// Wire format version. Bump on **any** layout or semantic change; the reader
/// rejects a segment whose version differs.
pub const WIRE_FORMAT_VERSION: u32 = 4;

/// Maximum book depth carried per side.
pub const WIRE_MAX_DEPTH: usize = 10;

/// Maximum number of changed levels one snapshot delta carries, shared
/// between the two sides.
pub const WIRE_MAX_DELTA_LEVELS: usize = 32;

/// Size of the fixed record header in bytes.
pub const WIRE_HEADER_LEN: usize = 64;

/// Size of the payload area in bytes.
pub const WIRE_PAYLOAD_LEN: usize = 544;

/// Size of one record in bytes: header + payload + explicit tail padding.
pub const WIRE_RECORD_LEN: usize = 640;

/// Alignment of a record and of the segment header (one cache line).
pub const WIRE_ALIGN: usize = 64;

} // verus!
