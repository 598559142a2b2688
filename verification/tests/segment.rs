//! The shared-memory segment header and its attach check.

use jeed::{SEGMENT_HEADER_LEN, SEGMENT_MAGIC, SegmentHeader, WIRE_ALIGN, WIRE_FORMAT_VERSION, WIRE_RECORD_LEN, WireError};

#[test]
fn magic_is_the_ascii_tag() {
    assert_eq!(SEGMENT_MAGIC.to_le_bytes(), *b"FE_WIRE1");
}

#[test]
fn a_fresh_segment_passes_its_own_check() {
    let h = SegmentHeader::new(1_024, 7);
    assert_eq!(h.check(), Ok(()));
    assert_eq!(h.format_version, WIRE_FORMAT_VERSION);
    assert_eq!(h.record_size as usize, WIRE_RECORD_LEN);
    assert_eq!(h.boot_id, 7);
    assert_eq!(h.write_cursor(), 0);
    assert_eq!(h.drops(), 0);
}

#[test]
fn a_producer_with_a_different_layout_is_refused() {
    let mut h = SegmentHeader::new(16, 0);
    h.magic = 1;
    assert_eq!(h.check(), Err(WireError::Magic { found: 1 }));

    let mut h = SegmentHeader::new(16, 0);
    h.format_version = WIRE_FORMAT_VERSION + 1;
    assert_eq!(h.check(), Err(WireError::FormatVersion { expected: WIRE_FORMAT_VERSION, found: WIRE_FORMAT_VERSION + 1 }));

    let mut h = SegmentHeader::new(16, 0);
    h.record_size = 512;
    assert_eq!(h.check(), Err(WireError::RecordSize { expected: WIRE_RECORD_LEN as u32, found: 512 }));
}

#[test]
fn an_empty_segment_is_refused() {
    assert_eq!(SegmentHeader::new(0, 0).check(), Err(WireError::Capacity));
}

#[test]
fn segment_length_is_the_header_plus_its_slots() {
    let h = SegmentHeader::new(4, 0);
    assert_eq!(h.segment_len(), SEGMENT_HEADER_LEN + 4 * WIRE_RECORD_LEN);
}

#[test]
fn slots_wrap_around_the_ring() {
    let h = SegmentHeader::new(4, 0);
    assert_eq!(h.slot_offset(0), SEGMENT_HEADER_LEN);
    assert_eq!(h.slot_offset(3), SEGMENT_HEADER_LEN + 3 * WIRE_RECORD_LEN);
    assert_eq!(h.slot_offset(4), SEGMENT_HEADER_LEN, "sequence 4 reuses slot 0");
    assert_eq!(h.slot_offset(9), h.slot_offset(1));
}

#[test]
fn every_slot_offset_is_cache_line_aligned() {
    let h = SegmentHeader::new(8, 0);
    for seq in 0..16 {
        assert_eq!(h.slot_offset(seq) % WIRE_ALIGN, 0, "slot for seq {seq}");
    }
}

#[test]
fn publishing_advances_the_cursor() {
    let h = SegmentHeader::new(16, 0);
    h.publish(1);
    assert_eq!(h.write_cursor(), 1);
    h.publish(5);
    assert_eq!(h.write_cursor(), 5);
}

#[test]
fn drops_accumulate() {
    let h = SegmentHeader::new(16, 0);
    h.note_drops(3);
    h.note_drops(2);
    assert_eq!(h.drops(), 5);
}
