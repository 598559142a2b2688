//! The record header: identity, scales, flags and validation.

use jeed::{RecordHeader, Scale, Venue, WIRE_MAX_DEPTH, WireError, WireKind, header_flags, symbol_from_bytes};

/// A header that passes validation, for tests that then break one field.
fn valid() -> RecordHeader {
    let mut h = RecordHeader::new(WireKind::Quote, Venue::Krx, symbol_from_bytes(b"KR4A01690002").unwrap(), 1_000);
    h.set_scales(Scale::S2, Scale::S0);
    h
}

#[test]
fn zeroed_header_is_invalid() {
    // Kind 0 is unused precisely so an all-zero ring slot cannot pass as data.
    assert_eq!(RecordHeader::zeroed().validate(), Err(WireError::Kind { found: 0 }));
}

#[test]
fn new_fills_identity_and_reception_time() {
    let h = valid();
    assert_eq!(h.kind(), Ok(WireKind::Quote));
    assert_eq!(h.venue(), Ok(Venue::Krx));
    assert_eq!(h.symbol_bytes(), b"KR4A01690002");
    assert_eq!(h.recv_ns, 1_000);
    assert_eq!(h.validate(), Ok(()));
}

#[test]
fn scales_round_trip() {
    let h = valid();
    assert_eq!(h.price_scale(), Ok(Scale::S2));
    assert_eq!(h.qty_scale(), Ok(Scale::S0));
}

#[test]
fn unknown_enumerated_bytes_are_rejected() {
    let mut h = valid();
    h.kind = 200;
    assert_eq!(h.validate(), Err(WireError::Kind { found: 200 }));

    // Bytes 3 and 9 name venues, so the unknown byte is one past the last.
    let mut h = valid();
    h.venue = 15;
    assert_eq!(h.validate(), Err(WireError::Venue { found: 15 }));

    let mut h = valid();
    h.price_scale = 9;
    assert_eq!(h.validate(), Err(WireError::Scale { found: 9 }));

    let mut h = valid();
    h.qty_scale = 100;
    assert_eq!(h.validate(), Err(WireError::Scale { found: 100 }));
}

#[test]
fn depth_beyond_the_layout_is_rejected() {
    let mut h = valid();
    h.set_depth(WIRE_MAX_DEPTH as u8);
    assert_eq!(h.validate(), Ok(()));

    h.set_depth(WIRE_MAX_DEPTH as u8 + 1);
    assert_eq!(h.validate(), Err(WireError::Depth { found: 11, max: WIRE_MAX_DEPTH as u8 }));
}

#[test]
fn venue_time_is_absent_until_marked_valid() {
    let mut h = valid();
    assert_eq!(h.venue_time(), None);
    assert_eq!(h.venue_age_ns(), None);

    h.set_venue_time(900);
    assert!(h.has(header_flags::VENUE_TIME_VALID));
    assert_eq!(h.venue_time(), Some(900));
}

#[test]
fn venue_age_saturates_instead_of_wrapping() {
    // A venue stamp ahead of the reception stamp reads as age 0, not as
    // centuries.
    let mut h = valid();
    h.recv_ns = 1_000;
    h.set_venue_time(5_000);
    assert_eq!(h.venue_age_ns(), Some(0));

    h.set_venue_time(400);
    assert_eq!(h.venue_age_ns(), Some(600));
}

#[test]
fn flags_accumulate() {
    let mut h = valid();
    assert!(!h.is_stale());

    h.set_flags(header_flags::STALE);
    h.set_flags(header_flags::BID_EMPTY);
    assert!(h.is_stale());
    assert!(h.has(header_flags::BID_EMPTY));
    assert!(!h.has(header_flags::ASK_EMPTY));

    // `has` requires every bit of the mask.
    assert!(h.has(header_flags::STALE | header_flags::BID_EMPTY));
    assert!(!h.has(header_flags::STALE | header_flags::ASK_EMPTY));
}

#[test]
fn producer_seq_is_the_ordering_authority_not_the_exchange_sequence() {
    let mut h = valid();
    h.set_producer_seq(42);
    assert_eq!(h.producer_seq, 42);
}

#[test]
fn setters_chain_on_one_header() {
    let mut h = valid();
    h.set_depth(3).set_producer_seq(7).set_flags(header_flags::STALE);
    assert_eq!(h.depth, 3);
    assert_eq!(h.producer_seq, 7);
    assert!(h.is_stale());
}

#[test]
fn a_symbol_longer_than_the_field_or_holding_a_nul_is_refused() {
    assert!(symbol_from_bytes(&[b'A'; 24]).is_some());
    assert!(symbol_from_bytes(&[b'A'; 25]).is_none());
    assert!(symbol_from_bytes(b"AB\0C").is_none());
    let s = symbol_from_bytes(b"BTCUSDT").unwrap();
    assert_eq!(jeed::symbol_bytes(&s), b"BTCUSDT");
}
