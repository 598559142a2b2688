//! The FIX venue adapter: a decoded message becoming the right wire records,
//! or the right refusal. The messages are the SMBS ones a session decodes,
//! written out as the values the adapter reads.

use jeed::fix::{AdaptError, EntryType, FixScales, MarketData, MarketEntry, SnapshotAdapter};
use jeed::{Scale, Venue, WireKind, WireRecord, header_flags};

const RECV_NS: u64 = 1_769_990_400_500_000_000;

/// 2026-02-02 00:00:02.000 UTC.
const VENUE_NS: u64 = 1_769_990_402_000_000_000;

const SCALES: FixScales = FixScales { price: Scale::S2, quantity: Scale::S0 };

fn entry(entry_type: EntryType, level: u64, price: i64, size: Option<u64>) -> MarketEntry {
    MarketEntry {
        entry_type,
        level,
        price,
        size: size.unwrap_or(0),
        has_size: size.is_some(),
        symbol: b"USDKRW".to_vec(),
        venue_ns: Some(VENUE_NS),
    }
}

fn message(snapshot: bool, entries: Vec<MarketEntry>) -> MarketData {
    let bid_depth = entries.iter().filter(|e| e.entry_type == EntryType::Bid).count();
    let offer_depth = entries.iter().filter(|e| e.entry_type == EntryType::Offer).count();
    MarketData { snapshot, symbol: b"USDKRW".to_vec(), entries, venue_ns: Some(VENUE_NS), bid_depth, offer_depth }
}

/// 1450.00 bid, 1453.00 offer, five million each.
fn two_sided() -> MarketData {
    message(
        true,
        vec![entry(EntryType::Bid, 0, 145_000, Some(5_000_000)), entry(EntryType::Offer, 0, 145_300, Some(5_000_000))],
    )
}

/// The open book: an offer only.
fn open_book() -> MarketData {
    message(true, vec![entry(EntryType::Offer, 0, 145_300, Some(5_000_000))])
}

/// One trade at 1451.00 for a million.
fn trade() -> MarketData {
    message(false, vec![entry(EntryType::Trade, 0, 145_100, Some(1_000_000))])
}

fn adapt(msg: &MarketData) -> (Vec<WireRecord>, Result<usize, AdaptError>) {
    SnapshotAdapter::new(Venue::Smbs, SCALES, None).adapt(msg, RECV_NS)
}

#[test]
fn a_two_sided_snapshot_becomes_one_quote() {
    let (records, r) = adapt(&two_sided());
    assert_eq!(r, Ok(1));
    assert_eq!(records.len(), 1);
    let rec = &records[0];
    assert_eq!(rec.kind(), Ok(WireKind::Quote));
    assert_eq!(rec.header.venue, Venue::Smbs.as_u8());
    assert_eq!(rec.header.symbol_bytes(), b"USDKRW");
    assert_eq!(rec.header.depth, 1);
    assert_eq!(rec.header.price_scale(), Ok(Scale::S2));
    let q = rec.quote().unwrap();
    assert_eq!(q.bid[0].price, 145000, "1450.00 × 100");
    assert_eq!(q.ask[0].price, 145300, "1453.00 × 100");
    assert_eq!(q.bid[0].qty, 5_000_000);
    assert_eq!(q.ask[0].qty, 5_000_000);
    assert_eq!(rec.header.flags & (header_flags::BID_EMPTY | header_flags::ASK_EMPTY), 0);
    assert_eq!(rec.validate(), Ok(()));
}

#[test]
fn a_one_sided_open_snapshot_flags_the_empty_side() {
    let (records, r) = adapt(&open_book());
    assert_eq!(r, Ok(1));
    let rec = &records[0];
    let q = rec.quote().unwrap();
    assert_eq!(q.ask[0].price, 145300);
    assert_eq!(q.bid[0].price, 0);
    assert!(rec.header.has(header_flags::BID_EMPTY), "no bid side");
    assert!(!rec.header.has(header_flags::ASK_EMPTY), "offer present");
}

#[test]
fn an_incremental_trade_becomes_a_trade() {
    let (records, r) = adapt(&trade());
    assert_eq!(r, Ok(1));
    let rec = &records[0];
    assert_eq!(rec.kind(), Ok(WireKind::Trade));
    assert_eq!(rec.header.symbol_bytes(), b"USDKRW");
    let t = rec.trade().unwrap();
    assert_eq!(t.price, 145100, "1451.00 × 100");
    assert_eq!(t.qty, 1_000_000);
    assert_eq!(rec.validate(), Ok(()));
}

#[test]
fn a_venue_time_rides_the_record() {
    let (records, _r) = adapt(&two_sided());
    assert_eq!(records[0].header.venue_time(), Some(VENUE_NS));
    let (records, _r) = adapt(&trade());
    assert_eq!(records[0].header.venue_time(), Some(VENUE_NS));
}

#[test]
fn a_book_moving_incremental_is_refused_not_dropped() {
    let (records, r) = adapt(&message(false, vec![entry(EntryType::Bid, 0, 145_050, Some(3_000_000))]));
    assert_eq!(r, Err(AdaptError::IncrementalBook));
    assert!(records.is_empty(), "nothing published on a refusal");
}

#[test]
fn a_snapshot_level_with_no_size_is_refused_unless_a_default_is_set() {
    let no_size = message(true, vec![entry(EntryType::Bid, 0, 145_000, None)]);
    let (records, r) = adapt(&no_size);
    assert_eq!(r, Err(AdaptError::NoSize));
    assert!(records.is_empty());

    let (records, r) = SnapshotAdapter::new(Venue::Smbs, SCALES, Some(7_000_000)).adapt(&no_size, RECV_NS);
    assert_eq!(r, Ok(1));
    assert_eq!(records[0].quote().unwrap().bid[0].qty, 7_000_000, "the configured default");
}

#[test]
fn a_symbol_too_long_for_the_wire_is_refused() {
    let mut msg = open_book();
    msg.symbol = vec![b'X'; jeed::SYMBOL_LEN + 1];
    let (records, r) = adapt(&msg);
    assert_eq!(r, Err(AdaptError::SymbolTooLong));
    assert!(records.is_empty());
    assert_eq!(r.unwrap_err().to_string(), "Symbol is longer than 24 bytes");
}

#[test]
fn a_message_with_no_symbol_is_refused() {
    let mut msg = open_book();
    msg.symbol = Vec::new();
    assert_eq!(adapt(&msg).1, Err(AdaptError::NoSymbol));
    let mut msg = trade();
    msg.entries[0].symbol = Vec::new();
    assert_eq!(adapt(&msg).1, Err(AdaptError::NoSymbol));
}

#[test]
fn trades_before_a_book_move_are_still_published() {
    let msg = message(
        false,
        vec![
            entry(EntryType::Trade, 0, 145_100, Some(1_000_000)),
            entry(EntryType::Other, 0, 0, None),
            entry(EntryType::Trade, 0, 145_200, Some(2_000_000)),
            entry(EntryType::Offer, 0, 145_300, Some(5_000_000)),
            entry(EntryType::Trade, 0, 145_400, Some(3_000_000)),
        ],
    );
    let (records, r) = adapt(&msg);
    assert_eq!(r, Err(AdaptError::IncrementalBook));
    assert_eq!(records.len(), 2);
    assert_eq!(records[0].trade().unwrap().price, 145_100);
    assert_eq!(records[1].trade().unwrap().price, 145_200);
    assert_eq!(records[1].trade().unwrap().qty, 2_000_000);
}

#[test]
fn levels_past_the_wire_depth_and_statistics_are_passed_over() {
    let msg = message(
        true,
        vec![
            entry(EntryType::Bid, 0, 145_000, Some(1)),
            entry(EntryType::Bid, 3, 144_700, Some(4)),
            entry(EntryType::Bid, 10, 144_000, Some(11)),
            entry(EntryType::Other, 1, 999_999, None),
            entry(EntryType::Offer, 1, 145_400, Some(2)),
        ],
    );
    let (records, r) = adapt(&msg);
    assert_eq!(r, Ok(1));
    let rec = &records[0];
    assert_eq!(rec.header.depth, 4, "deepest level kept, plus one");
    let q = rec.quote().unwrap();
    assert_eq!(q.bid[3].price, 144_700);
    assert_eq!(q.bid[3].qty, 4);
    assert_eq!(q.ask[1].price, 145_400);
    assert_eq!(q.ask[0].price, 0);
    assert_eq!(rec.header.qty_scale(), Ok(Scale::S0));
}

#[test]
fn every_refusal_reads_as_its_reason() {
    assert_eq!(AdaptError::IncrementalBook.to_string(), "35=X moves the book and the wire has no delta record");
    assert_eq!(AdaptError::NoSize.to_string(), "entry has no size and no default_qty is configured");
    assert_eq!(AdaptError::NoSymbol.to_string(), "no Symbol to key the record on");
}
