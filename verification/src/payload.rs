//! Per-kind payloads.
//!
//! Every payload is plain data: integers and byte arrays only, with explicit
//! padding fields, so that every byte of a record's payload area is some
//! field's byte (see [`crate::layout`] for where each field sits).
use vstd::prelude::*;

use crate::kind::{dyn_limit_action, level_flags, trade_flags, trade_kind};
use crate::types::{BookPrice, BookQuantity, BookYield, OrderCount};

verus! {

/// One book level (24 bytes).
#[derive(Debug, Clone, Copy, PartialEq, Eq, Structural)]
pub struct WireLevel {
    /// Price in `price_scale` units.
    pub price: BookPrice,
    /// Quantity in `qty_scale` units.
    pub qty: BookQuantity,
    /// Resting-order count; meaningful only with `ORDER_COUNT_VALID`.
    pub order_count: OrderCount,
    /// Extension word; meaning given by the quote's `level_ext_kind`.
    pub ext: u32,
}

/// The level with every field zero.
pub open spec fn zero_level() -> WireLevel {
    WireLevel { price: 0, qty: 0, order_count: 0, ext: 0 }
}

impl WireLevel {
    /// Level with price and quantity only.
    pub fn new(price: BookPrice, qty: BookQuantity) -> (res: WireLevel)
        ensures
            res == (WireLevel { price, qty, order_count: 0, ext: 0 }),
    {
        WireLevel { price, qty, order_count: 0, ext: 0 }
    }

    /// Level with a resting-order count.
    pub fn with_count(price: BookPrice, qty: BookQuantity, order_count: OrderCount) -> (res: WireLevel)
        ensures
            res == (WireLevel { price, qty, order_count, ext: 0 }),
    {
        WireLevel { price, qty, order_count, ext: 0 }
    }

    /// Bond yield view of `ext`: the same 32 bits read as signed.
    pub fn bond_yield(&self) -> (res: BookYield)
        ensures
            res == self.ext as i32,
    {
        self.ext as i32
    }
}

impl Default for WireLevel {
    fn default() -> (res: WireLevel)
        ensures
            res == zero_level(),
    {
        WireLevel { price: 0, qty: 0, order_count: 0, ext: 0 }
    }
}

/// Full book snapshot, both sides, level 0 innermost (496 bytes).
#[derive(Debug, Clone, Copy, PartialEq, Eq)]
pub struct QuotePayload {
    /// Ask levels, ascending price. Entries past the header depth are zero.
    pub ask: [WireLevel; 10],
    /// Bid levels, descending price. Entries past the header depth are zero.
    pub bid: [WireLevel; 10],
    /// Quote-level extension word; meaning given by `quote_ext_kind`.
    pub quote_ext: u64,
    /// Encoding of every level's `ext` word.
    pub level_ext_kind: u8,
    /// Encoding of `quote_ext`.
    pub quote_ext_kind: u8,
    /// Level flag bits.
    pub level_flags: u8,
    /// Explicit padding, always zero.
    pub _pad: [u8; 5],
}

/// Every level of `a` is zero.
pub open spec fn all_zero_levels(a: Seq<WireLevel>) -> bool {
    forall|i: int| 0 <= i < a.len() ==> #[trigger] a[i] == zero_level()
}

/// The quote with every field zero.
pub open spec fn is_zero_quote(q: QuotePayload) -> bool {
    &&& all_zero_levels(q.ask@)
    &&& all_zero_levels(q.bid@)
    &&& q.quote_ext == 0
    &&& q.level_ext_kind == 0
    &&& q.quote_ext_kind == 0
    &&& q.level_flags == 0
    &&& q._pad@ == Seq::new(5, |i: int| 0u8)
}

/// `q` and `p` agree on everything but the given field changes, stated by
/// the caller: the arrays and the scalar fields listed here.
pub open spec fn quote_scalars_eq(q: QuotePayload, p: QuotePayload) -> bool {
    &&& q.quote_ext == p.quote_ext
    &&& q.level_ext_kind == p.level_ext_kind
    &&& q.quote_ext_kind == p.quote_ext_kind
    &&& q.level_flags == p.level_flags
    &&& q._pad == p._pad
}

/// The first `min(depth, 10)` entries of a side.
pub open spec fn side_prefix(side: Seq<WireLevel>, depth: u8) -> Seq<WireLevel> {
    side.subrange(0, if depth <= 10 { depth as int } else { 10 })
}

impl QuotePayload {
    /// Sets one ask level.
    pub fn set_ask(&mut self, i: usize, level: WireLevel) -> (r: &mut QuotePayload)
        requires
            i < 10,
        ensures
            r.ask@ == old(self).ask@.update(i as int, level),
            r.bid == old(self).bid,
            quote_scalars_eq(*r, *old(self)),
            *final(self) == *final(r),
    {
        self.ask[i] = level;
        self
    }

    /// Sets one bid level.
    pub fn set_bid(&mut self, i: usize, level: WireLevel) -> (r: &mut QuotePayload)
        requires
            i < 10,
        ensures
            r.bid@ == old(self).bid@.update(i as int, level),
            r.ask == old(self).ask,
            quote_scalars_eq(*r, *old(self)),
            *final(self) == *final(r),
    {
        self.bid[i] = level;
        self
    }

    /// Marks every level's `order_count` as meaningful.
    pub fn with_order_counts(&mut self) -> (r: &mut QuotePayload)
        ensures
            *r == (QuotePayload {
                level_flags: old(self).level_flags | level_flags::ORDER_COUNT_VALID,
                ..*old(self)
            }),
            *final(self) == *final(r),
    {
        self.level_flags = self.level_flags | level_flags::ORDER_COUNT_VALID;
        self
    }

    /// `true` when `order_count` is meaningful.
    pub fn has_order_counts(&self) -> (res: bool)
        ensures
            res == (self.level_flags & level_flags::ORDER_COUNT_VALID != 0),
    {
        self.level_flags & level_flags::ORDER_COUNT_VALID != 0
    }

    /// Declares the per-level `ext` word encoding.
    pub fn with_level_ext(&mut self, kind: u8) -> (r: &mut QuotePayload)
        ensures
            *r == (QuotePayload { level_ext_kind: kind, ..*old(self) }),
            *final(self) == *final(r),
    {
        self.level_ext_kind = kind;
        self
    }

    /// Sets the quote-level extension.
    pub fn with_quote_ext(&mut self, kind: u8, value: u64) -> (r: &mut QuotePayload)
        ensures
            *r == (QuotePayload { quote_ext_kind: kind, quote_ext: value, ..*old(self) }),
            *final(self) == *final(r),
    {
        self.quote_ext_kind = kind;
        self.quote_ext = value;
        self
    }

    /// Ask levels up to `depth`, clamped to the ten the layout holds.
    pub fn asks(&self, depth: u8) -> (res: &[WireLevel])
        ensures
            res@ == side_prefix(self.ask@, depth),
    {
        let n: usize = if depth as usize <= 10 { depth as usize } else { 10 };
        let s: &[WireLevel] = self.ask.as_slice();
        &s[0..n]
    }

    /// Bid levels up to `depth`, clamped to the ten the layout holds.
    pub fn bids(&self, depth: u8) -> (res: &[WireLevel])
        ensures
            res@ == side_prefix(self.bid@, depth),
    {
        let n: usize = if depth as usize <= 10 { depth as usize } else { 10 };
        let s: &[WireLevel] = self.bid.as_slice();
        &s[0..n]
    }
}

impl Default for QuotePayload {
    fn default() -> (res: QuotePayload)
        ensures
            is_zero_quote(res),
    {
        let z = WireLevel { price: 0, qty: 0, order_count: 0, ext: 0 };
        let q = QuotePayload {
            ask: [z; 10],
            bid: [z; 10],
            quote_ext: 0,
            level_ext_kind: 0,
            quote_ext_kind: 0,
            level_flags: 0,
            _pad: [0u8; 5],
        };
        assert(q._pad@ =~= Seq::new(5, |i: int| 0u8));
        q
    }
}

/// One trade print (48 bytes).
#[derive(Debug, Clone, Copy, PartialEq, Eq, Structural)]
pub struct TradePayload {
    /// Trade price in `price_scale` units.
    pub price: BookPrice,
    /// Trade quantity in `qty_scale` units.
    pub qty: BookQuantity,
    /// Session-cumulative quantity; meaningful with `CUMULATIVE_QTY_VALID`.
    pub cumulative_qty: BookQuantity,
    /// Dynamic upper price limit in force after this print; meaningful with
    /// `DYN_LIMIT_VALID`.
    pub dyn_upper: BookPrice,
    /// Dynamic lower price limit in force after this print; meaningful with
    /// `DYN_LIMIT_VALID`.
    pub dyn_lower: BookPrice,
    /// Trade yield; meaningful with `YIELD_VALID`.
    pub trade_yield: BookYield,
    /// Aggressor encoding.
    pub trade_kind: u8,
    /// Trade flag bits.
    pub trade_flags: u8,
    /// Explicit padding, always zero.
    pub _pad: u16,
}

/// `flags` has the bit `bit` set.
pub open spec fn bit_set(flags: u8, bit: u8) -> bool {
    flags & bit != 0
}

impl TradePayload {
    /// Trade with price and quantity only, no aggressor flag.
    pub fn new(price: BookPrice, qty: BookQuantity) -> (res: TradePayload)
        ensures
            res == (TradePayload {
                price,
                qty,
                cumulative_qty: 0,
                dyn_upper: 0,
                dyn_lower: 0,
                trade_yield: 0,
                trade_kind: trade_kind::NONE,
                trade_flags: 0,
                _pad: 0,
            }),
    {
        TradePayload {
            price,
            qty,
            cumulative_qty: 0,
            dyn_upper: 0,
            dyn_lower: 0,
            trade_yield: 0,
            trade_kind: trade_kind::NONE,
            trade_flags: 0,
            _pad: 0,
        }
    }

    /// Sets the aggressor encoding.
    pub fn with_kind(&mut self, kind: u8) -> (r: &mut TradePayload)
        ensures
            *r == (TradePayload { trade_kind: kind, ..*old(self) }),
            *final(self) == *final(r),
    {
        self.trade_kind = kind;
        self
    }

    /// Sets the cumulative quantity and marks it valid.
    pub fn with_cumulative_qty(&mut self, cumulative: BookQuantity) -> (r: &mut TradePayload)
        ensures
            *r == (TradePayload {
                cumulative_qty: cumulative,
                trade_flags: old(self).trade_flags | trade_flags::CUMULATIVE_QTY_VALID,
                ..*old(self)
            }),
            *final(self) == *final(r),
    {
        self.cumulative_qty = cumulative;
        self.trade_flags = self.trade_flags | trade_flags::CUMULATIVE_QTY_VALID;
        self
    }

    /// Sets the dynamic price limits in force and marks them valid.
    pub fn with_dyn_limits(&mut self, upper: BookPrice, lower: BookPrice) -> (r: &mut TradePayload)
        ensures
            *r == (TradePayload {
                dyn_upper: upper,
                dyn_lower: lower,
                trade_flags: old(self).trade_flags | trade_flags::DYN_LIMIT_VALID,
                ..*old(self)
            }),
            *final(self) == *final(r),
    {
        self.dyn_upper = upper;
        self.dyn_lower = lower;
        self.trade_flags = self.trade_flags | trade_flags::DYN_LIMIT_VALID;
        self
    }

    /// Dynamic `(upper, lower)` price limits, if marked applicable.
    pub fn dyn_limits(&self) -> (res: Option<(BookPrice, BookPrice)>)
        ensures
            res == (if bit_set(self.trade_flags, trade_flags::DYN_LIMIT_VALID) {
                Some((self.dyn_upper, self.dyn_lower))
            } else {
                None::<(BookPrice, BookPrice)>
            }),
    {
        if self.trade_flags & trade_flags::DYN_LIMIT_VALID != 0 {
            Some((self.dyn_upper, self.dyn_lower))
        } else {
            None
        }
    }

    /// Sets the yield and marks it valid.
    pub fn with_yield(&mut self, trade_yield: BookYield) -> (r: &mut TradePayload)
        ensures
            *r == (TradePayload {
                trade_yield,
                trade_flags: old(self).trade_flags | trade_flags::YIELD_VALID,
                ..*old(self)
            }),
            *final(self) == *final(r),
    {
        self.trade_yield = trade_yield;
        self.trade_flags = self.trade_flags | trade_flags::YIELD_VALID;
        self
    }

    /// Cumulative quantity, if valid.
    pub fn cumulative_qty(&self) -> (res: Option<BookQuantity>)
        ensures
            res == (if bit_set(self.trade_flags, trade_flags::CUMULATIVE_QTY_VALID) {
                Some(self.cumulative_qty)
            } else {
                None::<BookQuantity>
            }),
    {
        if self.trade_flags & trade_flags::CUMULATIVE_QTY_VALID != 0 {
            Some(self.cumulative_qty)
        } else {
            None
        }
    }

    /// Yield, if valid.
    pub fn trade_yield(&self) -> (res: Option<BookYield>)
        ensures
            res == (if bit_set(self.trade_flags, trade_flags::YIELD_VALID) {
                Some(self.trade_yield)
            } else {
                None::<BookYield>
            }),
    {
        if self.trade_flags & trade_flags::YIELD_VALID != 0 {
            Some(self.trade_yield)
        } else {
            None
        }
    }
}

impl Default for TradePayload {
    fn default() -> (res: TradePayload)
        ensures
            res == (TradePayload {
                price: 0,
                qty: 0,
                cumulative_qty: 0,
                dyn_upper: 0,
                dyn_lower: 0,
                trade_yield: 0,
                trade_kind: 0,
                trade_flags: 0,
                _pad: 0,
            }),
    {
        TradePayload::new(0, 0)
    }
}

/// Marking one optional trade field valid leaves the others as they were,
/// and makes the marked one readable.
pub proof fn law_trade_flags_independent(flags: u8)
    ensures
        bit_set(flags | trade_flags::CUMULATIVE_QTY_VALID, trade_flags::CUMULATIVE_QTY_VALID),
        bit_set(flags | trade_flags::CUMULATIVE_QTY_VALID, trade_flags::YIELD_VALID)
            == bit_set(flags, trade_flags::YIELD_VALID),
        bit_set(flags | trade_flags::CUMULATIVE_QTY_VALID, trade_flags::DYN_LIMIT_VALID)
            == bit_set(flags, trade_flags::DYN_LIMIT_VALID),
        bit_set(flags | trade_flags::YIELD_VALID, trade_flags::YIELD_VALID),
        bit_set(flags | trade_flags::YIELD_VALID, trade_flags::CUMULATIVE_QTY_VALID)
            == bit_set(flags, trade_flags::CUMULATIVE_QTY_VALID),
        bit_set(flags | trade_flags::YIELD_VALID, trade_flags::DYN_LIMIT_VALID)
            == bit_set(flags, trade_flags::DYN_LIMIT_VALID),
        bit_set(flags | trade_flags::DYN_LIMIT_VALID, trade_flags::DYN_LIMIT_VALID),
        bit_set(flags | trade_flags::DYN_LIMIT_VALID, trade_flags::CUMULATIVE_QTY_VALID)
            == bit_set(flags, trade_flags::CUMULATIVE_QTY_VALID),
        bit_set(flags | trade_flags::DYN_LIMIT_VALID, trade_flags::YIELD_VALID)
            == bit_set(flags, trade_flags::YIELD_VALID),
{
    assert((flags | 1u8) & 1u8 != 0u8) by (bit_vector);
    assert(((flags | 1u8) & 2u8 != 0u8) == (flags & 2u8 != 0u8)) by (bit_vector);
    assert(((flags | 1u8) & 4u8 != 0u8) == (flags & 4u8 != 0u8)) by (bit_vector);
    assert((flags | 2u8) & 2u8 != 0u8) by (bit_vector);
    assert(((flags | 2u8) & 1u8 != 0u8) == (flags & 1u8 != 0u8)) by (bit_vector);
    assert(((flags | 2u8) & 4u8 != 0u8) == (flags & 4u8 != 0u8)) by (bit_vector);
    assert((flags | 4u8) & 4u8 != 0u8) by (bit_vector);
    assert(((flags | 4u8) & 1u8 != 0u8) == (flags & 1u8 != 0u8)) by (bit_vector);
    assert(((flags | 4u8) & 2u8 != 0u8) == (flags & 2u8 != 0u8)) by (bit_vector);
}

/// Trade print followed by the post-trade book (544 bytes).
#[derive(Debug, Clone, Copy, PartialEq, Eq)]
pub struct TradeQuotePayload {
    /// The print.
    pub trade: TradePayload,
    /// The book after the print.
    pub quote: QuotePayload,
}

/// Open interest (8 bytes).
#[derive(Debug, Clone, Copy, PartialEq, Eq, Structural)]
pub struct OpenInterestPayload {
    /// Open interest in `qty_scale` units.
    pub open_interest: BookQuantity,
}

/// Investor statistics (48 bytes).
#[derive(Debug, Clone, Copy, PartialEq, Eq)]
pub struct InvestorStatsPayload {
    /// Buy quantity.
    pub buy_qty: BookQuantity,
    /// Sell quantity.
    pub sell_qty: BookQuantity,
    /// Buy value.
    pub buy_value: BookQuantity,
    /// Sell value.
    pub sell_value: BookQuantity,
    /// Raw KRX product-kind code.
    pub product_kind: [u8; 11],
    /// Raw KRX derivative-kind byte.
    pub derivative_kind: u8,
    /// Raw KRX investor-kind code.
    pub investor_kind: [u8; 4],
}

/// Applied daily price-limit expansion (40 bytes).
#[derive(Debug, Clone, Copy, PartialEq, Eq)]
pub struct PriceLimitPayload {
    /// Exchange application time, ns since KST midnight.
    pub applied_time_of_day: u64,
    /// Applied upper price.
    pub upper_price: BookPrice,
    /// Applied lower price.
    pub lower_price: BookPrice,
    /// Exchange distribution sequence; zero means the channel left it blank.
    pub sequence: u32,
    /// Exchange board.
    pub board_id: [u8; 2],
    /// Information category.
    pub information_category: [u8; 3],
    /// Applied upper stage.
    pub upper_stage: u8,
    /// Applied lower stage.
    pub lower_stage: u8,
    /// Explicit padding, always zero.
    pub _pad: [u8; 5],
}

/// Intraday dynamic price band applied or released (40 bytes).
#[derive(Debug, Clone, Copy, PartialEq, Eq)]
pub struct DynamicPriceLimitPayload {
    /// Exchange processing time, ns since KST midnight.
    pub applied_time_of_day: u64,
    /// Dynamic upper price; meaningless unless `action` is `APPLIED`.
    pub upper_price: BookPrice,
    /// Dynamic lower price; meaningless unless `action` is `APPLIED`.
    pub lower_price: BookPrice,
    /// Exchange distribution sequence; zero means the channel left it blank.
    pub sequence: u32,
    /// Exchange board.
    pub board_id: [u8; 2],
    /// Information category.
    pub information_category: [u8; 3],
    /// Action encoding.
    pub action: u8,
    /// Explicit padding, always zero.
    pub _pad: [u8; 6],
}

impl DynamicPriceLimitPayload {
    /// `(upper, lower)` if a band is actually in force. A release and an
    /// unknown code both give `None`: neither is a band to fence orders with.
    pub fn band(&self) -> (res: Option<(BookPrice, BookPrice)>)
        ensures
            res == (if self.action == dyn_limit_action::APPLIED {
                Some((self.upper_price, self.lower_price))
            } else {
                None::<(BookPrice, BookPrice)>
            }),
    {
        if self.action == dyn_limit_action::APPLIED {
            Some((self.upper_price, self.lower_price))
        } else {
            None
        }
    }
}

/// Market operation notice (72 bytes).
#[derive(Debug, Clone, Copy, PartialEq, Eq)]
pub struct MarketSchedulePayload {
    /// Event start time, ns since KST midnight.
    pub event_time_of_day: u64,
    /// Scheduled expansion time; meaningful with `EXPECTED_TIME_VALID`.
    pub expected_time_of_day: u64,
    /// Bit mask selecting affected issue groups.
    pub board_event_group: u32,
    /// Information category.
    pub information_category: [u8; 3],
    /// Market-operation product group.
    pub market_operation_product_id: [u8; 3],
    /// Board scope.
    pub board_id: [u8; 2],
    /// Board event identifier.
    pub board_event_id: [u8; 3],
    /// `BS`, `BE`, `SS`, `SE`, `SH` or `SR`.
    pub session_action: [u8; 2],
    /// Exchange session identifier.
    pub session_id: [u8; 2],
    /// Product scope.
    pub product_id: [u8; 11],
    /// Common-stock ISIN for cash-market halt scope.
    pub common_stock_isin: [u8; 12],
    /// Cash-market trading-halt reason.
    pub halt_reason: [u8; 3],
    /// Cash-market halt occurrence type.
    pub halt_type: u8,
    /// Applied step of this notice.
    pub step: u8,
    /// Expansion direction encoding.
    pub expansion_direction: u8,
    /// Schedule flag bits.
    pub schedule_flags: u8,
    /// Explicit padding, always zero.
    pub _pad: [u8; 7],
}

/// Producer liveness (16 bytes). The header `recv_ns` is the beat time.
#[derive(Debug, Clone, Copy, PartialEq, Eq, Structural)]
pub struct HeartbeatPayload {
    /// Datagrams or messages received by the handler since boot.
    pub received: u64,
    /// Records written to the ring since boot, heartbeats excluded.
    pub forwarded: u64,
}

impl Default for HeartbeatPayload {
    fn default() -> (res: HeartbeatPayload)
        ensures
            res == (HeartbeatPayload { received: 0, forwarded: 0 }),
    {
        HeartbeatPayload { received: 0, forwarded: 0 }
    }
}

/// One changed level of a snapshot delta (16 bytes). A zero quantity
/// removes the level.
#[derive(Debug, Clone, Copy, PartialEq, Eq, Structural)]
pub struct WireDeltaLevel {
    /// Price in `price_scale` units.
    pub price: BookPrice,
    /// New quantity at that price in `qty_scale` units; zero removes it.
    pub qty: BookQuantity,
}

impl Default for WireDeltaLevel {
    fn default() -> (res: WireDeltaLevel)
        ensures
            res == (WireDeltaLevel { price: 0, qty: 0 }),
    {
        WireDeltaLevel { price: 0, qty: 0 }
    }
}

/// Incremental book change (544 bytes): the levels that changed between two
/// exchange update ids, bids first, then asks, sharing one array of
/// [`WIRE_MAX_DELTA_LEVELS`](crate::WIRE_MAX_DELTA_LEVELS).
#[derive(Debug, Clone, Copy, PartialEq, Eq)]
pub struct SnapshotDeltaPayload {
    /// Exchange update id of the first change carried.
    pub first_update_id: u64,
    /// Exchange update id of the last change carried.
    pub final_update_id: u64,
    /// Changed levels: `bid_count` bids, then `ask_count` asks.
    pub levels: [WireDeltaLevel; 32],
    /// Bid levels at the front of `levels`.
    pub bid_count: u8,
    /// Ask levels after the bids.
    pub ask_count: u8,
    /// Explicit padding, always zero.
    pub _pad: [u8; 14],
}

impl Default for SnapshotDeltaPayload {
    fn default() -> (res: SnapshotDeltaPayload)
        ensures
            res.first_update_id == 0,
            res.final_update_id == 0,
            forall|i: int| 0 <= i < 32 ==> #[trigger] res.levels@[i] == (WireDeltaLevel { price: 0, qty: 0 }),
            res.bid_count == 0,
            res.ask_count == 0,
            res._pad@ == Seq::new(14, |i: int| 0u8),
    {
        let z = WireDeltaLevel { price: 0, qty: 0 };
        let d = SnapshotDeltaPayload {
            first_update_id: 0,
            final_update_id: 0,
            levels: [z; 32],
            bid_count: 0,
            ask_count: 0,
            _pad: [0u8; 14],
        };
        assert(d._pad@ =~= Seq::new(14, |i: int| 0u8));
        d
    }
}

} // verus!
