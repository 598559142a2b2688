//! Where every field of every wire struct sits, and the verified reads and
//! writes that put it there.
//!
//! All integers are little-endian and every struct is packed field after
//! field in declaration order with its explicit padding fields, so a struct's
//! image is exactly its size:
//!
//! ```text
//! WireLevel                 24   price@0 qty@8 order_count@16 ext@20
//! QuotePayload             496   ask[10]@0 bid[10]@240 quote_ext@480 level_ext_kind@488
//!                                quote_ext_kind@489 level_flags@490 _pad@491
//! TradePayload              48   price@0 qty@8 cumulative_qty@16 dyn_upper@24 dyn_lower@32
//!                                trade_yield@40 trade_kind@44 trade_flags@45 _pad@46
//! TradeQuotePayload        544   trade@0 quote@48
//! OpenInterestPayload        8   open_interest@0
//! InvestorStatsPayload      48   buy_qty@0 sell_qty@8 buy_value@16 sell_value@24
//!                                product_kind@32 derivative_kind@43 investor_kind@44
//! PriceLimitPayload         40   applied@0 upper@8 lower@16 sequence@24 board@28 category@30
//!                                upper_stage@33 lower_stage@34 _pad@35
//! DynamicPriceLimitPayload  40   applied@0 upper@8 lower@16 sequence@24 board@28 category@30
//!                                action@33 _pad@34
//! MarketSchedulePayload     72   event@0 expected@8 group@16 category@20 mop@23 board@26
//!                                event_id@28 action@31 session@33 product@35 isin@46
//!                                halt_reason@58 halt_type@61 step@62 direction@63 flags@64 _pad@65
//! HeartbeatPayload          16   received@0 forwarded@8
//! WireDeltaLevel            16   price@0 qty@8
//! SnapshotDeltaPayload     544   first@0 final@8 levels[32]@16 bid_count@528 ask_count@529 _pad@530
//! ```
use vstd::prelude::*;

use crate::codec::{
    get_bytes, get_i32, get_i64, get_u16, get_u32, get_u64, get_u8, holds_bytes, holds_i32,
    holds_i64, holds_u16, holds_u32, holds_u64, holds_u8, lemma_bytes_unique, lemma_i32_unique,
    lemma_i64_unique, lemma_u16_unique, lemma_u32_unique, lemma_u64_unique, put_bytes, put_i32,
    put_i64, put_u16, put_u32, put_u64, put_u8, same_outside,
};
use crate::header::RecordHeader;
use crate::payload::{
    DynamicPriceLimitPayload, HeartbeatPayload, InvestorStatsPayload, MarketSchedulePayload,
    OpenInterestPayload, PriceLimitPayload, QuotePayload, SnapshotDeltaPayload, TradePayload,
    TradeQuotePayload, WireDeltaLevel, WireLevel,
};

verus! {

/// A book level sits at `at`.
pub open spec fn level_at(s: Seq<u8>, at: int, l: WireLevel) -> bool {
    &&& holds_i64(s, at, l.price)
    &&& holds_u64(s, at + 8, l.qty)
    &&& holds_u32(s, at + 16, l.order_count)
    &&& holds_u32(s, at + 20, l.ext)
}

/// Ten book levels sit one after another from `at`.
pub open spec fn side_at(s: Seq<u8>, at: int, side: Seq<WireLevel>) -> bool {
    &&& side.len() == 10
    &&& forall|i: int| 0 <= i < 10 ==> #[trigger] level_at(s, at + 24 * i, side[i])
}

/// A quote sits at `at`.
pub open spec fn quote_at(s: Seq<u8>, at: int, q: QuotePayload) -> bool {
    &&& side_at(s, at, q.ask@)
    &&& side_at(s, at + 240, q.bid@)
    &&& holds_u64(s, at + 480, q.quote_ext)
    &&& holds_u8(s, at + 488, q.level_ext_kind)
    &&& holds_u8(s, at + 489, q.quote_ext_kind)
    &&& holds_u8(s, at + 490, q.level_flags)
    &&& holds_bytes(s, at + 491, q._pad@)
}

/// A trade sits at `at`.
pub open spec fn trade_at(s: Seq<u8>, at: int, t: TradePayload) -> bool {
    &&& holds_i64(s, at, t.price)
    &&& holds_u64(s, at + 8, t.qty)
    &&& holds_u64(s, at + 16, t.cumulative_qty)
    &&& holds_i64(s, at + 24, t.dyn_upper)
    &&& holds_i64(s, at + 32, t.dyn_lower)
    &&& holds_i32(s, at + 40, t.trade_yield)
    &&& holds_u8(s, at + 44, t.trade_kind)
    &&& holds_u8(s, at + 45, t.trade_flags)
    &&& holds_u16(s, at + 46, t._pad)
}

/// A trade and the book it left sit at `at`.
pub open spec fn trade_quote_at(s: Seq<u8>, at: int, p: TradeQuotePayload) -> bool {
    &&& trade_at(s, at, p.trade)
    &&& quote_at(s, at + 48, p.quote)
}

/// An open-interest payload sits at `at`.
pub open spec fn open_interest_at(s: Seq<u8>, at: int, p: OpenInterestPayload) -> bool {
    holds_u64(s, at, p.open_interest)
}

/// An investor-statistics payload sits at `at`.
pub open spec fn investor_stats_at(s: Seq<u8>, at: int, p: InvestorStatsPayload) -> bool {
    &&& holds_u64(s, at, p.buy_qty)
    &&& holds_u64(s, at + 8, p.sell_qty)
    &&& holds_u64(s, at + 16, p.buy_value)
    &&& holds_u64(s, at + 24, p.sell_value)
    &&& holds_bytes(s, at + 32, p.product_kind@)
    &&& holds_u8(s, at + 43, p.derivative_kind)
    &&& holds_bytes(s, at + 44, p.investor_kind@)
}

/// A price-limit payload sits at `at`.
pub open spec fn price_limit_at(s: Seq<u8>, at: int, p: PriceLimitPayload) -> bool {
    &&& holds_u64(s, at, p.applied_time_of_day)
    &&& holds_i64(s, at + 8, p.upper_price)
    &&& holds_i64(s, at + 16, p.lower_price)
    &&& holds_u32(s, at + 24, p.sequence)
    &&& holds_bytes(s, at + 28, p.board_id@)
    &&& holds_bytes(s, at + 30, p.information_category@)
    &&& holds_u8(s, at + 33, p.upper_stage)
    &&& holds_u8(s, at + 34, p.lower_stage)
    &&& holds_bytes(s, at + 35, p._pad@)
}

/// A dynamic-price-limit payload sits at `at`.
pub open spec fn dynamic_price_limit_at(s: Seq<u8>, at: int, p: DynamicPriceLimitPayload) -> bool {
    &&& holds_u64(s, at, p.applied_time_of_day)
    &&& holds_i64(s, at + 8, p.upper_price)
    &&& holds_i64(s, at + 16, p.lower_price)
    &&& holds_u32(s, at + 24, p.sequence)
    &&& holds_bytes(s, at + 28, p.board_id@)
    &&& holds_bytes(s, at + 30, p.information_category@)
    &&& holds_u8(s, at + 33, p.action)
    &&& holds_bytes(s, at + 34, p._pad@)
}

/// A market-schedule payload sits at `at`.
pub open spec fn market_schedule_at(s: Seq<u8>, at: int, p: MarketSchedulePayload) -> bool {
    &&& holds_u64(s, at, p.event_time_of_day)
    &&& holds_u64(s, at + 8, p.expected_time_of_day)
    &&& holds_u32(s, at + 16, p.board_event_group)
    &&& holds_bytes(s, at + 20, p.information_category@)
    &&& holds_bytes(s, at + 23, p.market_operation_product_id@)
    &&& holds_bytes(s, at + 26, p.board_id@)
    &&& holds_bytes(s, at + 28, p.board_event_id@)
    &&& holds_bytes(s, at + 31, p.session_action@)
    &&& holds_bytes(s, at + 33, p.session_id@)
    &&& holds_bytes(s, at + 35, p.product_id@)
    &&& holds_bytes(s, at + 46, p.common_stock_isin@)
    &&& holds_bytes(s, at + 58, p.halt_reason@)
    &&& holds_u8(s, at + 61, p.halt_type)
    &&& holds_u8(s, at + 62, p.step)
    &&& holds_u8(s, at + 63, p.expansion_direction)
    &&& holds_u8(s, at + 64, p.schedule_flags)
    &&& holds_bytes(s, at + 65, p._pad@)
}

/// A heartbeat sits at `at`.
pub open spec fn heartbeat_at(s: Seq<u8>, at: int, p: HeartbeatPayload) -> bool {
    &&& holds_u64(s, at, p.received)
    &&& holds_u64(s, at + 8, p.forwarded)
}

/// A changed level sits at `at`.
pub open spec fn delta_level_at(s: Seq<u8>, at: int, l: WireDeltaLevel) -> bool {
    &&& holds_i64(s, at, l.price)
    &&& holds_u64(s, at + 8, l.qty)
}

/// A snapshot delta sits at `at`.
pub open spec fn snapshot_delta_at(s: Seq<u8>, at: int, p: SnapshotDeltaPayload) -> bool {
    &&& holds_u64(s, at, p.first_update_id)
    &&& holds_u64(s, at + 8, p.final_update_id)
    &&& p.levels@.len() == 32
    &&& forall|i: int| 0 <= i < 32 ==> #[trigger] delta_level_at(s, at + 16 + 16 * i, p.levels@[i])
    &&& holds_u8(s, at + 528, p.bid_count)
    &&& holds_u8(s, at + 529, p.ask_count)
    &&& holds_bytes(s, at + 530, p._pad@)
}

// ---------------------------------------------------------------------------
// Writes
// ---------------------------------------------------------------------------

/// Writes a level at `at`.
pub fn write_level<const N: usize>(buf: &mut [u8; N], at: usize, l: &WireLevel)
    requires
        at + 24 <= N,
    ensures
        level_at(final(buf)@, at as int, *l),
        same_outside(old(buf)@, final(buf)@, at as int, 24),
{
    put_i64(buf, at, l.price);
    put_u64(buf, at + 8, l.qty);
    put_u32(buf, at + 16, l.order_count);
    put_u32(buf, at + 20, l.ext);
}

/// Writes ten levels from `at`.
pub fn write_side<const N: usize>(buf: &mut [u8; N], at: usize, side: &[WireLevel; 10])
    requires
        at + 240 <= N,
    ensures
        side_at(final(buf)@, at as int, side@),
        same_outside(old(buf)@, final(buf)@, at as int, 240),
{
    let mut i: usize = 0;
    while i < 10
        invariant
            at + 240 <= N,
            0 <= i <= 10,
            buf@.len() == N,
            forall|j: int| 0 <= j < i ==> #[trigger] level_at(buf@, at + 24 * j, side@[j]),
            same_outside(old(buf)@, buf@, at as int, 240),
        decreases 10 - i,
    {
        let ghost before = buf@;
        write_level(buf, at + 24 * i, &side[i]);
        assert forall|j: int| 0 <= j < i + 1 implies #[trigger] level_at(buf@, at + 24 * j, side@[j]) by {
            if j < i {
                assert(level_at(before, at + 24 * j, side@[j]));
            }
        }
        i += 1;
    }
}

/// Writes a quote at `at`.
#[verifier::rlimit(40)]
pub fn write_quote<const N: usize>(buf: &mut [u8; N], at: usize, q: &QuotePayload)
    requires
        at + 496 <= N,
    ensures
        quote_at(final(buf)@, at as int, *q),
        same_outside(old(buf)@, final(buf)@, at as int, 496),
{
    write_side(buf, at, &q.ask);
    let ghost b1 = buf@;
    write_side(buf, at + 240, &q.bid);
    let ghost b2 = buf@;
    put_u64(buf, at + 480, q.quote_ext);
    put_u8(buf, at + 488, q.level_ext_kind);
    put_u8(buf, at + 489, q.quote_ext_kind);
    put_u8(buf, at + 490, q.level_flags);
    put_bytes(buf, at + 491, q._pad.as_slice());
    assert forall|j: int| 0 <= j < 10 implies #[trigger] level_at(buf@, at + 24 * j, q.ask@[j]) by {
        assert(level_at(b1, at + 24 * j, q.ask@[j]));
    }
    assert forall|j: int| 0 <= j < 10 implies #[trigger] level_at(buf@, at + 240 + 24 * j, q.bid@[j]) by {
        assert(level_at(b2, at + 240 + 24 * j, q.bid@[j]));
    }
}

/// Writes a trade at `at`.
pub fn write_trade<const N: usize>(buf: &mut [u8; N], at: usize, t: &TradePayload)
    requires
        at + 48 <= N,
    ensures
        trade_at(final(buf)@, at as int, *t),
        same_outside(old(buf)@, final(buf)@, at as int, 48),
{
    put_i64(buf, at, t.price);
    put_u64(buf, at + 8, t.qty);
    put_u64(buf, at + 16, t.cumulative_qty);
    put_i64(buf, at + 24, t.dyn_upper);
    put_i64(buf, at + 32, t.dyn_lower);
    put_i32(buf, at + 40, t.trade_yield);
    put_u8(buf, at + 44, t.trade_kind);
    put_u8(buf, at + 45, t.trade_flags);
    put_u16(buf, at + 46, t._pad);
}

/// Writes a trade and its book at `at`.
pub fn write_trade_quote<const N: usize>(buf: &mut [u8; N], at: usize, p: &TradeQuotePayload)
    requires
        at + 544 <= N,
    ensures
        trade_quote_at(final(buf)@, at as int, *p),
        same_outside(old(buf)@, final(buf)@, at as int, 544),
{
    write_trade(buf, at, &p.trade);
    let ghost b1 = buf@;
    write_quote(buf, at + 48, &p.quote);
    assert(trade_at(b1, at as int, p.trade));
}

/// Writes an open-interest payload at `at`.
pub fn write_open_interest<const N: usize>(buf: &mut [u8; N], at: usize, p: &OpenInterestPayload)
    requires
        at + 8 <= N,
    ensures
        open_interest_at(final(buf)@, at as int, *p),
        same_outside(old(buf)@, final(buf)@, at as int, 8),
{
    put_u64(buf, at, p.open_interest);
}

/// Writes an investor-statistics payload at `at`.
pub fn write_investor_stats<const N: usize>(buf: &mut [u8; N], at: usize, p: &InvestorStatsPayload)
    requires
        at + 48 <= N,
    ensures
        investor_stats_at(final(buf)@, at as int, *p),
        same_outside(old(buf)@, final(buf)@, at as int, 48),
{
    put_u64(buf, at, p.buy_qty);
    put_u64(buf, at + 8, p.sell_qty);
    put_u64(buf, at + 16, p.buy_value);
    put_u64(buf, at + 24, p.sell_value);
    put_bytes(buf, at + 32, p.product_kind.as_slice());
    let ghost b1 = buf@;
    put_u8(buf, at + 43, p.derivative_kind);
    put_bytes(buf, at + 44, p.investor_kind.as_slice());
    assert(holds_bytes(b1, at + 32, p.product_kind@));
}

/// Writes a price-limit payload at `at`.
pub fn write_price_limit<const N: usize>(buf: &mut [u8; N], at: usize, p: &PriceLimitPayload)
    requires
        at + 40 <= N,
    ensures
        price_limit_at(final(buf)@, at as int, *p),
        same_outside(old(buf)@, final(buf)@, at as int, 40),
{
    put_u64(buf, at, p.applied_time_of_day);
    put_i64(buf, at + 8, p.upper_price);
    put_i64(buf, at + 16, p.lower_price);
    put_u32(buf, at + 24, p.sequence);
    put_bytes(buf, at + 28, p.board_id.as_slice());
    let ghost b1 = buf@;
    put_bytes(buf, at + 30, p.information_category.as_slice());
    let ghost b2 = buf@;
    put_u8(buf, at + 33, p.upper_stage);
    put_u8(buf, at + 34, p.lower_stage);
    put_bytes(buf, at + 35, p._pad.as_slice());
    assert(holds_bytes(b1, at + 28, p.board_id@));
    assert(holds_bytes(b2, at + 30, p.information_category@));
}

/// Writes a dynamic-price-limit payload at `at`.
pub fn write_dynamic_price_limit<const N: usize>(
    buf: &mut [u8; N],
    at: usize,
    p: &DynamicPriceLimitPayload,
)
    requires
        at + 40 <= N,
    ensures
        dynamic_price_limit_at(final(buf)@, at as int, *p),
        same_outside(old(buf)@, final(buf)@, at as int, 40),
{
    put_u64(buf, at, p.applied_time_of_day);
    put_i64(buf, at + 8, p.upper_price);
    put_i64(buf, at + 16, p.lower_price);
    put_u32(buf, at + 24, p.sequence);
    put_bytes(buf, at + 28, p.board_id.as_slice());
    let ghost b1 = buf@;
    put_bytes(buf, at + 30, p.information_category.as_slice());
    let ghost b2 = buf@;
    put_u8(buf, at + 33, p.action);
    put_bytes(buf, at + 34, p._pad.as_slice());
    assert(holds_bytes(b1, at + 28, p.board_id@));
    assert(holds_bytes(b2, at + 30, p.information_category@));
}

/// Writes a market-schedule payload at `at`.
pub fn write_market_schedule<const N: usize>(buf: &mut [u8; N], at: usize, p: &MarketSchedulePayload)
    requires
        at + 72 <= N,
    ensures
        market_schedule_at(final(buf)@, at as int, *p),
        same_outside(old(buf)@, final(buf)@, at as int, 72),
{
    put_u64(buf, at, p.event_time_of_day);
    put_u64(buf, at + 8, p.expected_time_of_day);
    put_u32(buf, at + 16, p.board_event_group);
    put_bytes(buf, at + 20, p.information_category.as_slice());
    let ghost b1 = buf@;
    put_bytes(buf, at + 23, p.market_operation_product_id.as_slice());
    let ghost b2 = buf@;
    put_bytes(buf, at + 26, p.board_id.as_slice());
    let ghost b3 = buf@;
    put_bytes(buf, at + 28, p.board_event_id.as_slice());
    let ghost b4 = buf@;
    put_bytes(buf, at + 31, p.session_action.as_slice());
    let ghost b5 = buf@;
    put_bytes(buf, at + 33, p.session_id.as_slice());
    let ghost b6 = buf@;
    put_bytes(buf, at + 35, p.product_id.as_slice());
    let ghost b7 = buf@;
    put_bytes(buf, at + 46, p.common_stock_isin.as_slice());
    let ghost b8 = buf@;
    put_bytes(buf, at + 58, p.halt_reason.as_slice());
    let ghost b9 = buf@;
    put_u8(buf, at + 61, p.halt_type);
    put_u8(buf, at + 62, p.step);
    put_u8(buf, at + 63, p.expansion_direction);
    put_u8(buf, at + 64, p.schedule_flags);
    put_bytes(buf, at + 65, p._pad.as_slice());
    assert(holds_bytes(b1, at + 20, p.information_category@));
    assert(holds_bytes(b2, at + 23, p.market_operation_product_id@));
    assert(holds_bytes(b3, at + 26, p.board_id@));
    assert(holds_bytes(b4, at + 28, p.board_event_id@));
    assert(holds_bytes(b5, at + 31, p.session_action@));
    assert(holds_bytes(b6, at + 33, p.session_id@));
    assert(holds_bytes(b7, at + 35, p.product_id@));
    assert(holds_bytes(b8, at + 46, p.common_stock_isin@));
    assert(holds_bytes(b9, at + 58, p.halt_reason@));
}

/// Writes a heartbeat at `at`.
pub fn write_heartbeat<const N: usize>(buf: &mut [u8; N], at: usize, p: &HeartbeatPayload)
    requires
        at + 16 <= N,
    ensures
        heartbeat_at(final(buf)@, at as int, *p),
        same_outside(old(buf)@, final(buf)@, at as int, 16),
{
    put_u64(buf, at, p.received);
    put_u64(buf, at + 8, p.forwarded);
}

/// Writes a snapshot delta at `at`.
pub fn write_snapshot_delta<const N: usize>(buf: &mut [u8; N], at: usize, p: &SnapshotDeltaPayload)
    requires
        at + 544 <= N,
    ensures
        snapshot_delta_at(final(buf)@, at as int, *p),
        same_outside(old(buf)@, final(buf)@, at as int, 544),
{
    put_u64(buf, at, p.first_update_id);
    put_u64(buf, at + 8, p.final_update_id);
    let ghost b0 = buf@;
    let mut i: usize = 0;
    while i < 32
        invariant
            at + 544 <= N,
            0 <= i <= 32,
            buf@.len() == N,
            p.levels@.len() == 32,
            forall|j: int| 0 <= j < i ==> #[trigger] delta_level_at(buf@, at + 16 + 16 * j, p.levels@[j]),
            same_outside(b0, buf@, at + 16, 512),
        decreases 32 - i,
    {
        let ghost before = buf@;
        put_i64(buf, at + 16 + 16 * i, p.levels[i].price);
        put_u64(buf, at + 24 + 16 * i, p.levels[i].qty);
        assert forall|j: int| 0 <= j < i + 1 implies #[trigger] delta_level_at(
            buf@,
            at + 16 + 16 * j,
            p.levels@[j],
        ) by {
            if j < i {
                assert(delta_level_at(before, at + 16 + 16 * j, p.levels@[j]));
            }
        }
        i += 1;
    }
    let ghost b1 = buf@;
    put_u8(buf, at + 528, p.bid_count);
    put_u8(buf, at + 529, p.ask_count);
    put_bytes(buf, at + 530, p._pad.as_slice());
    assert forall|j: int| 0 <= j < 32 implies #[trigger] delta_level_at(
        buf@,
        at + 16 + 16 * j,
        p.levels@[j],
    ) by {
        assert(delta_level_at(b1, at + 16 + 16 * j, p.levels@[j]));
    }
}

// ---------------------------------------------------------------------------
// Reads
// ---------------------------------------------------------------------------

/// Reads the level at `at`.
pub fn read_level(s: &[u8], at: usize) -> (res: WireLevel)
    requires
        at + 24 <= s@.len(),
    ensures
        level_at(s@, at as int, res),
{
    let _len = s.len();
    WireLevel {
        price: get_i64(s, at),
        qty: get_u64(s, at + 8),
        order_count: get_u32(s, at + 16),
        ext: get_u32(s, at + 20),
    }
}

/// Reads the ten levels from `at`.
pub fn read_side(s: &[u8], at: usize) -> (res: [WireLevel; 10])
    requires
        at + 240 <= s@.len(),
    ensures
        side_at(s@, at as int, res@),
{
    let _len = s.len();
    let z = WireLevel { price: 0, qty: 0, order_count: 0, ext: 0 };
    let mut out = [z; 10];
    let mut i: usize = 0;
    while i < 10
        invariant
            _len == s@.len(),
            at + 240 <= s@.len(),
            0 <= i <= 10,
            out@.len() == 10,
            forall|j: int| 0 <= j < i ==> #[trigger] level_at(s@, at + 24 * j, out@[j]),
        decreases 10 - i,
    {
        out[i] = read_level(s, at + 24 * i);
        i += 1;
    }
    out
}

/// Reads the quote at `at`.
pub fn read_quote(s: &[u8], at: usize) -> (res: QuotePayload)
    requires
        at + 496 <= s@.len(),
    ensures
        quote_at(s@, at as int, res),
{
    let _len = s.len();
    QuotePayload {
        ask: read_side(s, at),
        bid: read_side(s, at + 240),
        quote_ext: get_u64(s, at + 480),
        level_ext_kind: get_u8(s, at + 488),
        quote_ext_kind: get_u8(s, at + 489),
        level_flags: get_u8(s, at + 490),
        _pad: get_bytes(s, at + 491),
    }
}

/// Reads the trade at `at`.
pub fn read_trade(s: &[u8], at: usize) -> (res: TradePayload)
    requires
        at + 48 <= s@.len(),
    ensures
        trade_at(s@, at as int, res),
{
    let _len = s.len();
    TradePayload {
        price: get_i64(s, at),
        qty: get_u64(s, at + 8),
        cumulative_qty: get_u64(s, at + 16),
        dyn_upper: get_i64(s, at + 24),
        dyn_lower: get_i64(s, at + 32),
        trade_yield: get_i32(s, at + 40),
        trade_kind: get_u8(s, at + 44),
        trade_flags: get_u8(s, at + 45),
        _pad: get_u16(s, at + 46),
    }
}

/// Reads the trade and book at `at`.
pub fn read_trade_quote(s: &[u8], at: usize) -> (res: TradeQuotePayload)
    requires
        at + 544 <= s@.len(),
    ensures
        trade_quote_at(s@, at as int, res),
{
    let _len = s.len();
    TradeQuotePayload { trade: read_trade(s, at), quote: read_quote(s, at + 48) }
}

/// Reads the open-interest payload at `at`.
pub fn read_open_interest(s: &[u8], at: usize) -> (res: OpenInterestPayload)
    requires
        at + 8 <= s@.len(),
    ensures
        open_interest_at(s@, at as int, res),
{
    let _len = s.len();
    OpenInterestPayload { open_interest: get_u64(s, at) }
}

/// Reads the investor-statistics payload at `at`.
pub fn read_investor_stats(s: &[u8], at: usize) -> (res: InvestorStatsPayload)
    requires
        at + 48 <= s@.len(),
    ensures
        investor_stats_at(s@, at as int, res),
{
    let _len = s.len();
    InvestorStatsPayload {
        buy_qty: get_u64(s, at),
        sell_qty: get_u64(s, at + 8),
        buy_value: get_u64(s, at + 16),
        sell_value: get_u64(s, at + 24),
        product_kind: get_bytes(s, at + 32),
        derivative_kind: get_u8(s, at + 43),
        investor_kind: get_bytes(s, at + 44),
    }
}

/// Reads the price-limit payload at `at`.
pub fn read_price_limit(s: &[u8], at: usize) -> (res: PriceLimitPayload)
    requires
        at + 40 <= s@.len(),
    ensures
        price_limit_at(s@, at as int, res),
{
    let _len = s.len();
    PriceLimitPayload {
        applied_time_of_day: get_u64(s, at),
        upper_price: get_i64(s, at + 8),
        lower_price: get_i64(s, at + 16),
        sequence: get_u32(s, at + 24),
        board_id: get_bytes(s, at + 28),
        information_category: get_bytes(s, at + 30),
        upper_stage: get_u8(s, at + 33),
        lower_stage: get_u8(s, at + 34),
        _pad: get_bytes(s, at + 35),
    }
}

/// Reads the dynamic-price-limit payload at `at`.
pub fn read_dynamic_price_limit(s: &[u8], at: usize) -> (res: DynamicPriceLimitPayload)
    requires
        at + 40 <= s@.len(),
    ensures
        dynamic_price_limit_at(s@, at as int, res),
{
    let _len = s.len();
    DynamicPriceLimitPayload {
        applied_time_of_day: get_u64(s, at),
        upper_price: get_i64(s, at + 8),
        lower_price: get_i64(s, at + 16),
        sequence: get_u32(s, at + 24),
        board_id: get_bytes(s, at + 28),
        information_category: get_bytes(s, at + 30),
        action: get_u8(s, at + 33),
        _pad: get_bytes(s, at + 34),
    }
}

/// Reads the market-schedule payload at `at`.
pub fn read_market_schedule(s: &[u8], at: usize) -> (res: MarketSchedulePayload)
    requires
        at + 72 <= s@.len(),
    ensures
        market_schedule_at(s@, at as int, res),
{
    let _len = s.len();
    MarketSchedulePayload {
        event_time_of_day: get_u64(s, at),
        expected_time_of_day: get_u64(s, at + 8),
        board_event_group: get_u32(s, at + 16),
        information_category: get_bytes(s, at + 20),
        market_operation_product_id: get_bytes(s, at + 23),
        board_id: get_bytes(s, at + 26),
        board_event_id: get_bytes(s, at + 28),
        session_action: get_bytes(s, at + 31),
        session_id: get_bytes(s, at + 33),
        product_id: get_bytes(s, at + 35),
        common_stock_isin: get_bytes(s, at + 46),
        halt_reason: get_bytes(s, at + 58),
        halt_type: get_u8(s, at + 61),
        step: get_u8(s, at + 62),
        expansion_direction: get_u8(s, at + 63),
        schedule_flags: get_u8(s, at + 64),
        _pad: get_bytes(s, at + 65),
    }
}

/// Reads the heartbeat at `at`.
pub fn read_heartbeat(s: &[u8], at: usize) -> (res: HeartbeatPayload)
    requires
        at + 16 <= s@.len(),
    ensures
        heartbeat_at(s@, at as int, res),
{
    let _len = s.len();
    HeartbeatPayload { received: get_u64(s, at), forwarded: get_u64(s, at + 8) }
}

/// Reads the snapshot delta at `at`.
pub fn read_snapshot_delta(s: &[u8], at: usize) -> (res: SnapshotDeltaPayload)
    requires
        at + 544 <= s@.len(),
    ensures
        snapshot_delta_at(s@, at as int, res),
{
    let _len = s.len();
    let z = WireDeltaLevel { price: 0, qty: 0 };
    let mut levels = [z; 32];
    let mut i: usize = 0;
    while i < 32
        invariant
            _len == s@.len(),
            at + 544 <= s@.len(),
            0 <= i <= 32,
            levels@.len() == 32,
            forall|j: int| 0 <= j < i ==> #[trigger] delta_level_at(s@, at + 16 + 16 * j, levels@[j]),
        decreases 32 - i,
    {
        levels[i] = WireDeltaLevel { price: get_i64(s, at + 16 + 16 * i), qty: get_u64(s, at + 24 + 16 * i) };
        i += 1;
    }
    SnapshotDeltaPayload {
        first_update_id: get_u64(s, at),
        final_update_id: get_u64(s, at + 8),
        levels,
        bid_count: get_u8(s, at + 528),
        ask_count: get_u8(s, at + 529),
        _pad: get_bytes(s, at + 530),
    }
}

// ---------------------------------------------------------------------------
// An image names one value
// ---------------------------------------------------------------------------

/// Only one level has a given image.
pub proof fn lemma_level_unique(s: Seq<u8>, at: int, a: WireLevel, b: WireLevel)
    requires
        level_at(s, at, a),
        level_at(s, at, b),
    ensures
        a == b,
{
    lemma_i64_unique(s, at, a.price, b.price);
    lemma_u64_unique(s, at + 8, a.qty, b.qty);
    lemma_u32_unique(s, at + 16, a.order_count, b.order_count);
    lemma_u32_unique(s, at + 20, a.ext, b.ext);
}

/// Only one side of ten levels has a given image.
pub proof fn lemma_side_unique(s: Seq<u8>, at: int, a: [WireLevel; 10], b: [WireLevel; 10])
    requires
        side_at(s, at, a@),
        side_at(s, at, b@),
    ensures
        a == b,
{
    assert forall|i: int| 0 <= i < 10 implies a@[i] == b@[i] by {
        assert(level_at(s, at + 24 * i, a@[i]));
        assert(level_at(s, at + 24 * i, b@[i]));
        lemma_level_unique(s, at + 24 * i, a@[i], b@[i]);
    }
    assert(a =~= b);
}

/// Only one quote has a given image.
pub proof fn lemma_quote_unique(s: Seq<u8>, at: int, a: QuotePayload, b: QuotePayload)
    requires
        quote_at(s, at, a),
        quote_at(s, at, b),
    ensures
        a == b,
{
    lemma_side_unique(s, at, a.ask, b.ask);
    lemma_side_unique(s, at + 240, a.bid, b.bid);
    lemma_u64_unique(s, at + 480, a.quote_ext, b.quote_ext);
    lemma_bytes_unique(s, at + 491, a._pad@, b._pad@);
    assert(a._pad =~= b._pad);
}

/// Only one trade has a given image.
pub proof fn lemma_trade_unique(s: Seq<u8>, at: int, a: TradePayload, b: TradePayload)
    requires
        trade_at(s, at, a),
        trade_at(s, at, b),
    ensures
        a == b,
{
    lemma_i64_unique(s, at, a.price, b.price);
    lemma_u64_unique(s, at + 8, a.qty, b.qty);
    lemma_u64_unique(s, at + 16, a.cumulative_qty, b.cumulative_qty);
    lemma_i64_unique(s, at + 24, a.dyn_upper, b.dyn_upper);
    lemma_i64_unique(s, at + 32, a.dyn_lower, b.dyn_lower);
    lemma_i32_unique(s, at + 40, a.trade_yield, b.trade_yield);
    lemma_u16_unique(s, at + 46, a._pad, b._pad);
}

/// Only one trade-and-book has a given image.
pub proof fn lemma_trade_quote_unique(s: Seq<u8>, at: int, a: TradeQuotePayload, b: TradeQuotePayload)
    requires
        trade_quote_at(s, at, a),
        trade_quote_at(s, at, b),
    ensures
        a == b,
{
    lemma_trade_unique(s, at, a.trade, b.trade);
    lemma_quote_unique(s, at + 48, a.quote, b.quote);
}

/// Only one open-interest payload has a given image.
pub proof fn lemma_open_interest_unique(s: Seq<u8>, at: int, a: OpenInterestPayload, b: OpenInterestPayload)
    requires
        open_interest_at(s, at, a),
        open_interest_at(s, at, b),
    ensures
        a == b,
{
    lemma_u64_unique(s, at, a.open_interest, b.open_interest);
}

/// Only one investor-statistics payload has a given image.
pub proof fn lemma_investor_stats_unique(
    s: Seq<u8>,
    at: int,
    a: InvestorStatsPayload,
    b: InvestorStatsPayload,
)
    requires
        investor_stats_at(s, at, a),
        investor_stats_at(s, at, b),
    ensures
        a == b,
{
    lemma_u64_unique(s, at, a.buy_qty, b.buy_qty);
    lemma_u64_unique(s, at + 8, a.sell_qty, b.sell_qty);
    lemma_u64_unique(s, at + 16, a.buy_value, b.buy_value);
    lemma_u64_unique(s, at + 24, a.sell_value, b.sell_value);
    lemma_bytes_unique(s, at + 32, a.product_kind@, b.product_kind@);
    lemma_bytes_unique(s, at + 44, a.investor_kind@, b.investor_kind@);
    assert(a.product_kind =~= b.product_kind);
    assert(a.investor_kind =~= b.investor_kind);
}

/// Only one price-limit payload has a given image.
pub proof fn lemma_price_limit_unique(s: Seq<u8>, at: int, a: PriceLimitPayload, b: PriceLimitPayload)
    requires
        price_limit_at(s, at, a),
        price_limit_at(s, at, b),
    ensures
        a == b,
{
    lemma_u64_unique(s, at, a.applied_time_of_day, b.applied_time_of_day);
    lemma_i64_unique(s, at + 8, a.upper_price, b.upper_price);
    lemma_i64_unique(s, at + 16, a.lower_price, b.lower_price);
    lemma_u32_unique(s, at + 24, a.sequence, b.sequence);
    lemma_bytes_unique(s, at + 28, a.board_id@, b.board_id@);
    lemma_bytes_unique(s, at + 30, a.information_category@, b.information_category@);
    lemma_bytes_unique(s, at + 35, a._pad@, b._pad@);
    assert(a.board_id =~= b.board_id);
    assert(a.information_category =~= b.information_category);
    assert(a._pad =~= b._pad);
}

/// Only one dynamic-price-limit payload has a given image.
pub proof fn lemma_dynamic_price_limit_unique(
    s: Seq<u8>,
    at: int,
    a: DynamicPriceLimitPayload,
    b: DynamicPriceLimitPayload,
)
    requires
        dynamic_price_limit_at(s, at, a),
        dynamic_price_limit_at(s, at, b),
    ensures
        a == b,
{
    lemma_u64_unique(s, at, a.applied_time_of_day, b.applied_time_of_day);
    lemma_i64_unique(s, at + 8, a.upper_price, b.upper_price);
    lemma_i64_unique(s, at + 16, a.lower_price, b.lower_price);
    lemma_u32_unique(s, at + 24, a.sequence, b.sequence);
    lemma_bytes_unique(s, at + 28, a.board_id@, b.board_id@);
    lemma_bytes_unique(s, at + 30, a.information_category@, b.information_category@);
    lemma_bytes_unique(s, at + 34, a._pad@, b._pad@);
    assert(a.board_id =~= b.board_id);
    assert(a.information_category =~= b.information_category);
    assert(a._pad =~= b._pad);
}

/// Only one market-schedule payload has a given image.
pub proof fn lemma_market_schedule_unique(
    s: Seq<u8>,
    at: int,
    a: MarketSchedulePayload,
    b: MarketSchedulePayload,
)
    requires
        market_schedule_at(s, at, a),
        market_schedule_at(s, at, b),
    ensures
        a == b,
{
    lemma_u64_unique(s, at, a.event_time_of_day, b.event_time_of_day);
    lemma_u64_unique(s, at + 8, a.expected_time_of_day, b.expected_time_of_day);
    lemma_u32_unique(s, at + 16, a.board_event_group, b.board_event_group);
    lemma_bytes_unique(s, at + 20, a.information_category@, b.information_category@);
    lemma_bytes_unique(s, at + 23, a.market_operation_product_id@, b.market_operation_product_id@);
    lemma_bytes_unique(s, at + 26, a.board_id@, b.board_id@);
    lemma_bytes_unique(s, at + 28, a.board_event_id@, b.board_event_id@);
    lemma_bytes_unique(s, at + 31, a.session_action@, b.session_action@);
    lemma_bytes_unique(s, at + 33, a.session_id@, b.session_id@);
    lemma_bytes_unique(s, at + 35, a.product_id@, b.product_id@);
    lemma_bytes_unique(s, at + 46, a.common_stock_isin@, b.common_stock_isin@);
    lemma_bytes_unique(s, at + 58, a.halt_reason@, b.halt_reason@);
    lemma_bytes_unique(s, at + 65, a._pad@, b._pad@);
    assert(a.information_category =~= b.information_category);
    assert(a.market_operation_product_id =~= b.market_operation_product_id);
    assert(a.board_id =~= b.board_id);
    assert(a.board_event_id =~= b.board_event_id);
    assert(a.session_action =~= b.session_action);
    assert(a.session_id =~= b.session_id);
    assert(a.product_id =~= b.product_id);
    assert(a.common_stock_isin =~= b.common_stock_isin);
    assert(a.halt_reason =~= b.halt_reason);
    assert(a._pad =~= b._pad);
}

/// Only one heartbeat has a given image.
pub proof fn lemma_heartbeat_unique(s: Seq<u8>, at: int, a: HeartbeatPayload, b: HeartbeatPayload)
    requires
        heartbeat_at(s, at, a),
        heartbeat_at(s, at, b),
    ensures
        a == b,
{
    lemma_u64_unique(s, at, a.received, b.received);
    lemma_u64_unique(s, at + 8, a.forwarded, b.forwarded);
}

/// Only one snapshot delta has a given image.
pub proof fn lemma_snapshot_delta_unique(
    s: Seq<u8>,
    at: int,
    a: SnapshotDeltaPayload,
    b: SnapshotDeltaPayload,
)
    requires
        snapshot_delta_at(s, at, a),
        snapshot_delta_at(s, at, b),
    ensures
        a == b,
{
    lemma_u64_unique(s, at, a.first_update_id, b.first_update_id);
    lemma_u64_unique(s, at + 8, a.final_update_id, b.final_update_id);
    assert forall|i: int| 0 <= i < 32 implies a.levels@[i] == b.levels@[i] by {
        assert(delta_level_at(s, at + 16 + 16 * i, a.levels@[i]));
        assert(delta_level_at(s, at + 16 + 16 * i, b.levels@[i]));
        lemma_i64_unique(s, at + 16 + 16 * i, a.levels@[i].price, b.levels@[i].price);
        lemma_u64_unique(s, at + 24 + 16 * i, a.levels@[i].qty, b.levels@[i].qty);
    }
    assert(a.levels =~= b.levels);
    lemma_bytes_unique(s, at + 530, a._pad@, b._pad@);
    assert(a._pad =~= b._pad);
}

// ---------------------------------------------------------------------------
// The header
// ---------------------------------------------------------------------------

/// A header sits at `at`:
/// kind@0 venue@1 flags@2 depth@3 price_scale@4 qty_scale@5 _pad0@6
/// producer_seq@8 recv_ns@16 venue_ns@24 symbol@32 _pad1@56 (64 bytes).
pub open spec fn header_at(s: Seq<u8>, at: int, h: RecordHeader) -> bool {
    &&& holds_u8(s, at, h.kind)
    &&& holds_u8(s, at + 1, h.venue)
    &&& holds_u8(s, at + 2, h.flags)
    &&& holds_u8(s, at + 3, h.depth)
    &&& holds_u8(s, at + 4, h.price_scale)
    &&& holds_u8(s, at + 5, h.qty_scale)
    &&& holds_u16(s, at + 6, h._pad0)
    &&& holds_u64(s, at + 8, h.producer_seq)
    &&& holds_u64(s, at + 16, h.recv_ns)
    &&& holds_u64(s, at + 24, h.venue_ns)
    &&& holds_bytes(s, at + 32, h.symbol@)
    &&& holds_bytes(s, at + 56, h._pad1@)
}

/// Writes a header at `at`.
pub fn write_header<const N: usize>(buf: &mut [u8; N], at: usize, h: &RecordHeader)
    requires
        at + 64 <= N,
    ensures
        header_at(final(buf)@, at as int, *h),
        same_outside(old(buf)@, final(buf)@, at as int, 64),
{
    put_u8(buf, at, h.kind);
    put_u8(buf, at + 1, h.venue);
    put_u8(buf, at + 2, h.flags);
    put_u8(buf, at + 3, h.depth);
    put_u8(buf, at + 4, h.price_scale);
    put_u8(buf, at + 5, h.qty_scale);
    put_u16(buf, at + 6, h._pad0);
    put_u64(buf, at + 8, h.producer_seq);
    put_u64(buf, at + 16, h.recv_ns);
    put_u64(buf, at + 24, h.venue_ns);
    put_bytes(buf, at + 32, h.symbol.as_slice());
    let ghost b1 = buf@;
    put_bytes(buf, at + 56, h._pad1.as_slice());
    assert(holds_bytes(b1, at + 32, h.symbol@));
}

/// Reads the header at `at`.
pub fn read_header(s: &[u8], at: usize) -> (res: RecordHeader)
    requires
        at + 64 <= s@.len(),
    ensures
        header_at(s@, at as int, res),
{
    let _len = s.len();
    RecordHeader {
        kind: get_u8(s, at),
        venue: get_u8(s, at + 1),
        flags: get_u8(s, at + 2),
        depth: get_u8(s, at + 3),
        price_scale: get_u8(s, at + 4),
        qty_scale: get_u8(s, at + 5),
        _pad0: get_u16(s, at + 6),
        producer_seq: get_u64(s, at + 8),
        recv_ns: get_u64(s, at + 16),
        venue_ns: get_u64(s, at + 24),
        symbol: get_bytes(s, at + 32),
        _pad1: get_bytes(s, at + 56),
    }
}

/// Only one header has a given image.
pub proof fn lemma_header_unique(s: Seq<u8>, at: int, a: RecordHeader, b: RecordHeader)
    requires
        header_at(s, at, a),
        header_at(s, at, b),
    ensures
        a == b,
{
    lemma_u16_unique(s, at + 6, a._pad0, b._pad0);
    lemma_u64_unique(s, at + 8, a.producer_seq, b.producer_seq);
    lemma_u64_unique(s, at + 16, a.recv_ns, b.recv_ns);
    lemma_u64_unique(s, at + 24, a.venue_ns, b.venue_ns);
    lemma_bytes_unique(s, at + 32, a.symbol@, b.symbol@);
    lemma_bytes_unique(s, at + 56, a._pad1@, b._pad1@);
    assert(a.symbol =~= b.symbol);
    assert(a._pad1 =~= b._pad1);
}

/// A header's image survives any change made outside it.
pub proof fn lemma_header_kept(s: Seq<u8>, t: Seq<u8>, at: int)
    requires
        s.len() == t.len(),
        0 <= at,
        at + 64 <= s.len(),
        forall|i: int| at <= i < at + 64 ==> #[trigger] t[i] == s[i],
    ensures
        forall|h: RecordHeader| header_at(s, at, h) ==> header_at(t, at, h),
{
    assert forall|h: RecordHeader| header_at(s, at, h) implies header_at(t, at, h) by {
        assert(holds_bytes(t, at + 32, h.symbol@));
        assert(holds_bytes(t, at + 56, h._pad1@));
    }
}

} // verus!
