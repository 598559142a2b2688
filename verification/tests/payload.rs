//! Per-kind payloads.

use jeed::{
    QuotePayload, RecordHeader, TradePayload, TradeQuotePayload, Venue, WIRE_MAX_DEPTH, WireKind, WireLevel,
    WireRecord, level_ext, quote_ext, symbol_from_bytes, trade_flags, trade_kind,
};

#[test]
fn quote_levels_are_zero_past_depth() {
    let mut q = QuotePayload::default();
    q.set_ask(0, WireLevel::new(1_000, 5));
    q.set_bid(0, WireLevel::new(999, 7));

    assert_eq!(q.asks(1), &[WireLevel::new(1_000, 5)]);
    assert_eq!(q.bids(1), &[WireLevel::new(999, 7)]);
    assert_eq!(q.ask[1], WireLevel::default());
    assert_eq!(q.bid[WIRE_MAX_DEPTH - 1], WireLevel::default());
}

#[test]
fn depth_beyond_the_array_is_clamped_not_panicking() {
    let q = QuotePayload::default();
    assert_eq!(q.asks(u8::MAX).len(), WIRE_MAX_DEPTH);
    assert_eq!(q.bids(u8::MAX).len(), WIRE_MAX_DEPTH);
}

#[test]
fn order_count_validity_is_per_payload_not_per_level() {
    let mut q = QuotePayload::default();
    assert!(!q.has_order_counts());

    q.set_ask(0, WireLevel::with_count(1_000, 5, 3));
    assert!(!q.has_order_counts(), "the value is there but not yet declared meaningful");

    q.with_order_counts();
    assert!(q.has_order_counts());
    assert_eq!(q.ask[0].order_count, 3);
}

#[test]
fn level_ext_carries_a_bond_yield() {
    let mut q = QuotePayload::default();
    let mut lvl = WireLevel::new(10_000, 1);
    lvl.ext = (-25i32) as u32;
    q.set_ask(0, lvl);
    q.with_level_ext(level_ext::BOND_YIELD);

    assert_eq!(q.level_ext_kind, level_ext::BOND_YIELD);
    assert_eq!(q.ask[0].bond_yield(), -25);
}

#[test]
fn quote_ext_carries_lp_holdings() {
    let mut q = QuotePayload::default();
    q.with_quote_ext(quote_ext::LP_HOLDINGS, 123_456);
    assert_eq!(q.quote_ext_kind, quote_ext::LP_HOLDINGS);
    assert_eq!(q.quote_ext, 123_456);
}

#[test]
fn trade_optional_fields_are_absent_until_marked() {
    let mut t = TradePayload::new(103065, 4);
    assert_eq!(t.trade_kind, trade_kind::NONE);
    assert_eq!(t.cumulative_qty(), None);
    assert_eq!(t.trade_yield(), None);

    t.with_cumulative_qty(166_478);
    assert_eq!(t.cumulative_qty(), Some(166_478));
    assert_eq!(t.trade_yield(), None, "marking one must not mark the other");

    t.with_yield(-3);
    assert_eq!(t.trade_yield(), Some(-3));
    assert_eq!(t.trade_flags, trade_flags::CUMULATIVE_QTY_VALID | trade_flags::YIELD_VALID);
}

#[test]
fn no_aggressor_flag_is_distinct_from_an_unclassified_one() {
    assert_ne!(trade_kind::NONE, trade_kind::UNKNOWN);

    let mut t = TradePayload::new(100, 1);
    assert_eq!(t.trade_kind, trade_kind::NONE);
    t.with_kind(trade_kind::UNKNOWN);
    assert_eq!(t.trade_kind, trade_kind::UNKNOWN);
}

#[test]
fn trade_quote_is_the_trade_and_the_book_it_left() {
    let mut quote = QuotePayload::default();
    quote.set_ask(0, WireLevel::new(93705, 10));
    quote.set_bid(0, WireLevel::new(93695, 8));
    let tq = TradeQuotePayload { trade: TradePayload::new(93700, 2), quote };

    assert_eq!(tq.trade.price, 93700);
    assert_eq!(tq.quote.ask[0].price, 93705);
    // On the wire the trade comes first and the book right after it.
    let h = RecordHeader::new(WireKind::TradeQuote, Venue::Krx, symbol_from_bytes(b"KR4A01690002").unwrap(), 1);
    let rec = WireRecord::new_trade_quote(h, tq);
    assert_eq!(rec.payload_bytes()[0..8], 93700i64.to_le_bytes());
    assert_eq!(rec.payload_bytes()[48..56], 93705i64.to_le_bytes());
}

#[test]
fn dynamic_limits_and_yield_are_read_back_only_when_marked() {
    let mut t = TradePayload::new(100, 1);
    assert_eq!(t.dyn_limits(), None);
    t.with_dyn_limits(120, 80);
    assert_eq!(t.dyn_limits(), Some((120, 80)));
    assert!(t.trade_flags & trade_flags::DYN_LIMIT_VALID != 0);
}
