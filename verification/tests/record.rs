//! The record, its byte image, and kind gating.

use jeed::{
    HeartbeatPayload, QuotePayload, RecordHeader, Scale, SnapshotDeltaPayload, TradePayload, TradeQuotePayload,
    Venue, WIRE_HEADER_LEN, WIRE_PAYLOAD_LEN, WIRE_RECORD_LEN, WireDeltaLevel, WireError, WireKind, WireLevel,
    WireRecord, level_ext, symbol_from_bytes, trade_kind,
};

fn header(kind: WireKind) -> RecordHeader {
    let mut h = RecordHeader::new(kind, Venue::Krx, symbol_from_bytes(b"KR4A01690002").unwrap(), 1_785_455_100_003_679_000);
    h.set_scales(Scale::S2, Scale::S0);
    h
}

fn quote_record() -> WireRecord {
    let mut q = QuotePayload::default();
    q.set_ask(0, WireLevel::with_count(93705, 10, 3));
    q.set_bid(0, WireLevel::with_count(93695, 8, 2));
    q.with_order_counts();

    let mut h = header(WireKind::Quote);
    h.set_depth(1);
    h.set_venue_time(1_785_455_100_000_000_000);
    WireRecord::new_quote(h, q)
}

#[test]
fn zeroed_record_is_invalid() {
    let rec = WireRecord::zeroed();
    assert_eq!(rec.validate(), Err(WireError::Kind { found: 0 }));
    assert_eq!(rec.as_bytes(), [0u8; WIRE_RECORD_LEN]);
}

#[test]
fn bytes_round_trip_through_a_slice() {
    let rec = quote_record();
    let copy = WireRecord::from_bytes(&rec.as_bytes()).expect("valid record");
    assert_eq!(copy, rec);
    assert_eq!(copy.quote().unwrap().ask[0].price, 93705);
}

#[test]
fn round_trip_survives_an_unaligned_slice() {
    let rec = quote_record();
    let mut buf = vec![0u8; WIRE_RECORD_LEN + 1];
    buf[1..].copy_from_slice(&rec.as_bytes());

    let copy = WireRecord::from_bytes(&buf[1..]).expect("unaligned copy is fine");
    assert_eq!(copy, rec);
}

#[test]
fn wrong_length_is_rejected() {
    let rec = quote_record();
    let bytes = rec.as_bytes();
    assert_eq!(
        WireRecord::from_bytes(&bytes[..WIRE_RECORD_LEN - 1]),
        Err(WireError::Length { expected: WIRE_RECORD_LEN, actual: WIRE_RECORD_LEN - 1 })
    );
}

#[test]
fn typed_access_is_gated_by_the_header_kind() {
    let rec = quote_record();
    assert!(rec.quote().is_ok());
    assert_eq!(rec.trade().unwrap_err(), WireError::KindMismatch { expected: WireKind::Trade, found: WireKind::Quote });
    assert_eq!(
        rec.heartbeat().unwrap_err(),
        WireError::KindMismatch { expected: WireKind::Heartbeat, found: WireKind::Quote }
    );
}

#[test]
fn installing_a_payload_zeroes_the_rest_of_the_area() {
    let mut rec = quote_record();
    assert_ne!(rec.payload_bytes()[..8], [0u8; 8]);

    rec.set_heartbeat(HeartbeatPayload { received: 7, forwarded: 5 });
    assert_eq!(rec.kind(), Ok(WireKind::Heartbeat));
    assert_eq!(rec.heartbeat().unwrap().received, 7);
    assert_eq!(
        &rec.payload_bytes()[16..],
        &[0u8; WIRE_PAYLOAD_LEN - 16][..],
        "everything past the 16-byte heartbeat must be zero"
    );
}

#[test]
fn trade_quote_keeps_the_print_and_the_book_together() {
    let mut trade = TradePayload::new(93700, 2);
    trade.with_cumulative_qty(132).with_kind(trade_kind::BUY);
    let mut quote = QuotePayload::default();
    quote.set_ask(0, WireLevel::new(93705, 10));
    quote.set_bid(0, WireLevel::new(93695, 8));
    let tq = TradeQuotePayload { trade, quote };

    let mut h = header(WireKind::TradeQuote);
    h.set_depth(1);
    let rec = WireRecord::new_trade_quote(h, tq);

    assert_eq!(rec.validate(), Ok(()));
    let got = rec.trade_quote().unwrap();
    assert_eq!(got.trade.price, 93700);
    assert_eq!(got.trade.cumulative_qty(), Some(132));
    assert_eq!(got.quote.bid[0].qty, 8);
}

#[test]
fn unknown_payload_encodings_are_rejected() {
    let mut rec = quote_record();
    let mut q = rec.quote().unwrap();
    q.level_ext_kind = 99;
    rec.set_quote(q);
    assert_eq!(rec.validate(), Err(WireError::LevelExtKind { found: 99 }));

    let mut rec = quote_record();
    let mut q = rec.quote().unwrap();
    q.quote_ext_kind = 42;
    rec.set_quote(q);
    assert_eq!(rec.validate(), Err(WireError::QuoteExtKind { found: 42 }));

    let mut rec = WireRecord::new_trade(header(WireKind::Trade), TradePayload::new(100, 1));
    let mut t = rec.trade().unwrap();
    t.trade_kind = 7;
    rec.set_trade(t);
    assert_eq!(rec.validate(), Err(WireError::TradeKind { found: 7 }));
}

#[test]
fn validation_runs_on_the_way_in_from_bytes() {
    let mut rec = quote_record();
    let mut q = rec.quote().unwrap();
    q.with_level_ext(99);
    rec.set_quote(q);
    let bytes = rec.as_bytes();

    // The record is corrupt, so it must not come back out as a value.
    assert_eq!(WireRecord::from_bytes(&bytes), Err(WireError::LevelExtKind { found: 99 }));
}

#[test]
fn known_encodings_pass_validation() {
    let mut rec = quote_record();
    let mut q = rec.quote().unwrap();
    q.with_level_ext(level_ext::LP_QUANTITY);
    rec.set_quote(q);
    assert_eq!(rec.validate(), Ok(()));
}

#[test]
fn snapshot_delta_is_no_longer_a_reserved_kind() {
    let mut d = SnapshotDeltaPayload { first_update_id: 157, final_update_id: 160, bid_count: 1, ask_count: 1, ..Default::default() };
    d.levels[0] = WireDeltaLevel { price: 2_400, qty: 10 };
    d.levels[1] = WireDeltaLevel { price: 2_600, qty: 0 };

    let rec = WireRecord::new_snapshot_delta(header(WireKind::SnapshotDelta), d);
    assert_eq!(rec.validate(), Ok(()));
    assert_eq!(rec.snapshot_delta().unwrap().final_update_id, 160);
    assert_eq!(rec.trade(), Err(WireError::KindMismatch { expected: WireKind::Trade, found: WireKind::SnapshotDelta }));
}

#[test]
fn a_delta_claiming_more_levels_than_it_holds_is_rejected() {
    let d = SnapshotDeltaPayload { bid_count: 20, ask_count: 20, ..Default::default() };
    let rec = WireRecord::new_snapshot_delta(header(WireKind::SnapshotDelta), d);
    assert_eq!(rec.validate(), Err(WireError::DeltaLevelCount { bid: 20, ask: 20, max: 32 }));
}

#[test]
fn snapshot_delta_is_the_one_kind_that_does_not_heal_itself() {
    assert!(!WireKind::SnapshotDelta.is_self_healing());
    for k in [WireKind::Quote, WireKind::Trade, WireKind::TradeQuote] {
        assert!(k.is_self_healing());
    }
}

#[test]
fn the_header_leads_the_image_little_endian() {
    let rec = quote_record();
    let bytes = rec.as_bytes();
    assert_eq!(bytes[0], WireKind::Quote.as_u8());
    assert_eq!(bytes[1], Venue::Krx.as_u8());
    assert_eq!(bytes[WIRE_HEADER_LEN..WIRE_HEADER_LEN + 8], 93705i64.to_le_bytes());
    assert_eq!(WireRecord::with_header(header(WireKind::Heartbeat)).kind(), Ok(WireKind::Heartbeat));
}

#[test]
fn a_record_carries_each_kind_it_is_given() {
    let rec = WireRecord::new_heartbeat(header(WireKind::Heartbeat), HeartbeatPayload { received: 3, forwarded: 2 });
    assert_eq!(rec.validate(), Ok(()));
    assert_eq!(rec.heartbeat().unwrap().forwarded, 2);
    assert_eq!(WireKind::from_u8(rec.header.kind), Ok(WireKind::Heartbeat));
}

#[test]
fn wire_errors_read_as_sentences() {
    assert_eq!(WireError::Magic { found: 0xbeef }.to_string(), "wire segment magic mismatch: 0xbeef");
    assert_eq!(
        WireError::KindMismatch { expected: WireKind::Trade, found: WireKind::Quote }.to_string(),
        "wire record kind mismatch: expected Trade, got Quote"
    );
    assert_eq!(WireError::Depth { found: 11, max: 10 }.to_string(), "wire depth 11 exceeds 10");
    assert_eq!(WireError::Capacity.to_string(), "wire segment capacity is zero");
    assert_eq!(jeed::kind::kind_name(WireKind::DynamicPriceLimit), "DynamicPriceLimit");
}
