//! Record kinds and flag bit definitions.
//!
//! Flags carry conclusions, not evidence: a bit the consumer could only
//! interpret by branching on the venue does not belong here.
use vstd::prelude::*;

use crate::error::WireError;

pub mod dyn_limit_action;
pub mod expansion_direction;
pub mod header_flags;
pub mod level_ext;
pub mod level_flags;
pub mod quote_ext;
pub mod schedule_flags;
pub mod trade_flags;
pub mod trade_kind;

verus! {

/// Record kind. Byte `0` is deliberately unused so an all-zero slot is
/// invalid.
#[derive(Debug, Clone, Copy, PartialEq, Eq, Hash, Structural)]
pub enum WireKind {
    /// Full book snapshot.
    Quote,
    /// Single trade print.
    Trade,
    /// Trade print plus the post-trade book.
    TradeQuote,
    /// Open interest.
    OpenInterest,
    /// Investor statistics.
    InvestorStats,
    /// Incremental book delta: the changed levels of both sides.
    SnapshotDelta,
    /// Applied daily price-limit expansion.
    PriceLimit,
    /// Market operation notice.
    MarketSchedule,
    /// Producer liveness, emitted from the receive loop itself.
    Heartbeat,
    /// Intraday dynamic price band applied or released.
    DynamicPriceLimit,
}

/// The wire byte of each kind.
pub open spec fn kind_byte(k: WireKind) -> u8 {
    match k {
        WireKind::Quote => 1,
        WireKind::Trade => 2,
        WireKind::TradeQuote => 3,
        WireKind::OpenInterest => 4,
        WireKind::InvestorStats => 5,
        WireKind::SnapshotDelta => 6,
        WireKind::PriceLimit => 7,
        WireKind::MarketSchedule => 8,
        WireKind::Heartbeat => 9,
        WireKind::DynamicPriceLimit => 10,
    }
}

/// The kind a wire byte names, if any: the inverse of [`kind_byte`].
pub open spec fn kind_of_byte(b: u8) -> Option<WireKind> {
    if b == 1 {
        Some(WireKind::Quote)
    } else if b == 2 {
        Some(WireKind::Trade)
    } else if b == 3 {
        Some(WireKind::TradeQuote)
    } else if b == 4 {
        Some(WireKind::OpenInterest)
    } else if b == 5 {
        Some(WireKind::InvestorStats)
    } else if b == 6 {
        Some(WireKind::SnapshotDelta)
    } else if b == 7 {
        Some(WireKind::PriceLimit)
    } else if b == 8 {
        Some(WireKind::MarketSchedule)
    } else if b == 9 {
        Some(WireKind::Heartbeat)
    } else if b == 10 {
        Some(WireKind::DynamicPriceLimit)
    } else {
        None
    }
}

/// Decoding a kind byte: the kind, or the error naming the byte.
pub open spec fn decode_kind(b: u8) -> Result<WireKind, WireError> {
    match kind_of_byte(b) {
        Some(k) => Ok(k),
        None => Err(WireError::Kind { found: b }),
    }
}

impl WireKind {
    /// Decodes a raw kind byte.
    pub fn from_u8(v: u8) -> (res: Result<WireKind, WireError>)
        ensures
            res == decode_kind(v),
            res is Err <==> (v == 0 || v > 10),
    {
        match v {
            1 => Ok(WireKind::Quote),
            2 => Ok(WireKind::Trade),
            3 => Ok(WireKind::TradeQuote),
            4 => Ok(WireKind::OpenInterest),
            5 => Ok(WireKind::InvestorStats),
            6 => Ok(WireKind::SnapshotDelta),
            7 => Ok(WireKind::PriceLimit),
            8 => Ok(WireKind::MarketSchedule),
            9 => Ok(WireKind::Heartbeat),
            10 => Ok(WireKind::DynamicPriceLimit),
            found => Err(WireError::Kind { found }),
        }
    }

    /// Raw kind byte.
    pub fn as_u8(self) -> (res: u8)
        ensures
            res == kind_byte(self),
    {
        match self {
            WireKind::Quote => 1,
            WireKind::Trade => 2,
            WireKind::TradeQuote => 3,
            WireKind::OpenInterest => 4,
            WireKind::InvestorStats => 5,
            WireKind::SnapshotDelta => 6,
            WireKind::PriceLimit => 7,
            WireKind::MarketSchedule => 8,
            WireKind::Heartbeat => 9,
            WireKind::DynamicPriceLimit => 10,
        }
    }

    /// `true` for kinds whose next message fully replaces the previous one.
    ///
    /// A ring drop of a self-healing kind only needs a counter; a drop of a
    /// snapshot delta must trigger recovery.
    pub fn is_self_healing(self) -> (res: bool)
        ensures
            res <==> self != WireKind::SnapshotDelta,
    {
        match self {
            WireKind::SnapshotDelta => false,
            _ => true,
        }
    }
}

/// A kind's byte decodes back to that kind, no kind uses byte zero, and
/// every byte that decodes names the kind whose byte it is.
pub proof fn law_kind_byte_round_trip(k: WireKind, b: u8)
    ensures
        decode_kind(kind_byte(k)) == Ok::<WireKind, WireError>(k),
        kind_byte(k) != 0,
        kind_of_byte(b) matches Some(j) ==> kind_byte(j) == b,
{
}

/// The name of each kind, as its variant is written.
pub open spec fn kind_label(k: WireKind) -> &'static str {
    match k {
        WireKind::Quote => "Quote",
        WireKind::Trade => "Trade",
        WireKind::TradeQuote => "TradeQuote",
        WireKind::OpenInterest => "OpenInterest",
        WireKind::InvestorStats => "InvestorStats",
        WireKind::SnapshotDelta => "SnapshotDelta",
        WireKind::PriceLimit => "PriceLimit",
        WireKind::MarketSchedule => "MarketSchedule",
        WireKind::Heartbeat => "Heartbeat",
        WireKind::DynamicPriceLimit => "DynamicPriceLimit",
    }
}

/// The name of a kind, as a record dump or an error message writes it.
pub fn kind_name(k: WireKind) -> (res: &'static str)
    ensures
        res == kind_label(k),
{
    match k {
        WireKind::Quote => "Quote",
        WireKind::Trade => "Trade",
        WireKind::TradeQuote => "TradeQuote",
        WireKind::OpenInterest => "OpenInterest",
        WireKind::InvestorStats => "InvestorStats",
        WireKind::SnapshotDelta => "SnapshotDelta",
        WireKind::PriceLimit => "PriceLimit",
        WireKind::MarketSchedule => "MarketSchedule",
        WireKind::Heartbeat => "Heartbeat",
        WireKind::DynamicPriceLimit => "DynamicPriceLimit",
    }
}

/// The kind bytes are the wire ABI's: 1 quote, 2 trade, 3 trade and quote,
/// 4 open interest, 5 investor statistics, 6 snapshot delta, 7 price limit,
/// 8 market schedule, 9 heartbeat, 10 dynamic price limit; every other
/// byte, 0 among them, names no kind.
pub proof fn law_kind_codes(b: u8)
    ensures
        kind_of_byte(b) == (if b == 1 {
            Some(WireKind::Quote)
        } else if b == 2 {
            Some(WireKind::Trade)
        } else if b == 3 {
            Some(WireKind::TradeQuote)
        } else if b == 4 {
            Some(WireKind::OpenInterest)
        } else if b == 5 {
            Some(WireKind::InvestorStats)
        } else if b == 6 {
            Some(WireKind::SnapshotDelta)
        } else if b == 7 {
            Some(WireKind::PriceLimit)
        } else if b == 8 {
            Some(WireKind::MarketSchedule)
        } else if b == 9 {
            Some(WireKind::Heartbeat)
        } else if b == 10 {
            Some(WireKind::DynamicPriceLimit)
        } else {
            None::<WireKind>
        }),
        kind_of_byte(b) matches Some(k) ==> kind_byte(k) == b,
{
}

} // verus!
