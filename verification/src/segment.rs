//! Shared-memory segment header.
//!
//! Lives at offset 0 of a ring segment, followed by `capacity` records of
//! 640 bytes each. The first cache line is written once by the producer at
//! boot; the second holds the producer's live cursors. A reader checks the
//! first line and refuses the segment on any mismatch.
use vstd::prelude::*;

use crate::error::WireError;
use core::sync::atomic::AtomicU64;

verus! {

/// Segment magic: ASCII `FE_WIRE1` as a little-endian `u64`.
pub const SEGMENT_MAGIC: u64 = 0x3145_5249_575f_4546;

/// Size of the segment header in bytes (two cache lines).
pub const SEGMENT_HEADER_LEN: usize = 128;

/// Segment header (128 bytes).
#[derive(Debug)]
pub struct SegmentHeader {
    /// [`SEGMENT_MAGIC`].
    pub magic: u64,
    /// Wire format version of the producer.
    pub format_version: u32,
    /// Record size of the producer.
    pub record_size: u32,
    /// Number of record slots following this header.
    pub capacity: u64,
    /// Producer boot identity; changes on every producer restart.
    pub boot_id: u64,
    /// Explicit padding to the end of the first cache line.
    pub _pad0: [u8; 32],
    /// Next `producer_seq` to be written; records below it are published.
    pub write_cursor: AtomicU64,
    /// Records the producer failed to write. Diagnostic only.
    pub drop_counter: AtomicU64,
    /// Explicit padding to the end of the second cache line.
    pub _pad1: [u8; 48],
}

/// What the attach check answers for the four constant fields, in the order
/// magic, format version, record size, capacity.
pub open spec fn segment_check(magic: u64, format_version: u32, record_size: u32, capacity: u64) -> Result<(), WireError> {
    if magic != SEGMENT_MAGIC {
        Err(WireError::Magic { found: magic })
    } else if format_version != crate::WIRE_FORMAT_VERSION {
        Err(WireError::FormatVersion { expected: crate::WIRE_FORMAT_VERSION, found: format_version })
    } else if record_size != 640 {
        Err(WireError::RecordSize { expected: 640, found: record_size })
    } else if capacity == 0 {
        Err(WireError::Capacity)
    } else {
        Ok(())
    }
}

/// Byte offset of the slot holding sequence `seq` in a ring of `capacity`
/// slots: the slots wrap around.
pub open spec fn slot_offset_of(capacity: u64, seq: u64) -> int {
    128 + (seq % capacity) as int * 640
}

impl SegmentHeader {
    /// Header for a fresh segment of `capacity` slots with cursors at zero.
    pub fn new(capacity: u64, boot_id: u64) -> (res: SegmentHeader)
        ensures
            res.magic == SEGMENT_MAGIC,
            res.format_version == crate::WIRE_FORMAT_VERSION,
            res.record_size == 640,
            res.capacity == capacity,
            res.boot_id == boot_id,
            res._pad0@ == Seq::new(32, |i: int| 0u8),
            res._pad1@ == Seq::new(48, |i: int| 0u8),
    {
        let h = SegmentHeader {
            magic: SEGMENT_MAGIC,
            format_version: crate::WIRE_FORMAT_VERSION,
            record_size: 640,
            capacity,
            boot_id,
            _pad0: [0u8; 32],
            write_cursor: AtomicU64::new(0),
            drop_counter: AtomicU64::new(0),
            _pad1: [0u8; 48],
        };
        assert(h._pad0@ =~= Seq::new(32, |i: int| 0u8));
        assert(h._pad1@ =~= Seq::new(48, |i: int| 0u8));
        h
    }

    /// Attach-time check. Rejects a segment produced by a binary with a
    /// different wire layout, or with no slots.
    pub fn check(&self) -> (res: Result<(), WireError>)
        ensures
            res == segment_check(self.magic, self.format_version, self.record_size, self.capacity),
    {
        if self.magic != SEGMENT_MAGIC {
            return Err(WireError::Magic { found: self.magic });
        }
        if self.format_version != crate::WIRE_FORMAT_VERSION {
            return Err(WireError::FormatVersion { expected: crate::WIRE_FORMAT_VERSION, found: self.format_version });
        }
        if self.record_size != 640 {
            return Err(WireError::RecordSize { expected: 640, found: self.record_size });
        }
        if self.capacity == 0 {
            return Err(WireError::Capacity);
        }
        Ok(())
    }

    /// Total segment size in bytes for this header's capacity.
    pub fn segment_len(&self) -> (res: usize)
        requires
            128 + self.capacity * 640 <= usize::MAX,
        ensures
            res == 128 + self.capacity * 640,
    {
        SEGMENT_HEADER_LEN + self.capacity as usize * crate::WIRE_RECORD_LEN
    }

    /// Byte offset of the slot holding `producer_seq`.
    pub fn slot_offset(&self, producer_seq: u64) -> (res: usize)
        requires
            self.capacity > 0,
            128 + (self.capacity - 1) * 640 <= usize::MAX,
        ensures
            res == slot_offset_of(self.capacity, producer_seq),
    {
        let slot = producer_seq % self.capacity;
        SEGMENT_HEADER_LEN + slot as usize * crate::WIRE_RECORD_LEN
    }

    /// Published cursor: records with `producer_seq` below it are complete.
    ///
    /// The value is whatever the producer last published; nothing is
    /// promised of it here.
    pub fn write_cursor(&self) -> u64 {
        self.write_cursor.load(core::sync::atomic::Ordering::Acquire)
    }

    /// Publishes records up to (excluding) `next`. The producer must have
    /// finished writing slot `next - 1` first.
    pub fn publish(&self, next: u64) {
        self.write_cursor.store(next, core::sync::atomic::Ordering::Release);
    }

    /// Records dropped by the producer so far.
    ///
    /// The value is whatever the producer last counted, possibly from another
    /// thread or process through the shared segment; nothing is promised of
    /// it here.
    pub fn drops(&self) -> u64 {
        self.drop_counter.load(core::sync::atomic::Ordering::Relaxed)
    }

    /// Adds `n` to the drop counter (wrapping, as the atomic does).
    pub fn note_drops(&self, n: u64) {
        self.drop_counter.fetch_add(n, core::sync::atomic::Ordering::Relaxed);
    }
}

/// Slot offsets repeat with the ring's capacity, every offset is a whole
/// number of cache lines, and every slot lies inside the segment.
pub proof fn law_slots_wrap(capacity: u64, seq: u64)
    requires
        capacity > 0,
    ensures
        seq + capacity <= u64::MAX ==> slot_offset_of(capacity, (seq + capacity) as u64) == slot_offset_of(capacity, seq),
        slot_offset_of(capacity, seq) % 64 == 0,
        128 <= slot_offset_of(capacity, seq),
        slot_offset_of(capacity, seq) + 640 <= 128 + capacity * 640,
{
    let r = seq % capacity;
    assert(0 <= r < capacity);
    if seq + capacity <= u64::MAX {
        vstd::arithmetic::div_mod::lemma_mod_add_multiples_vanish(seq as int, capacity as int);
    }
    assert((128 + r as int * 640) % 64 == 0) by (nonlinear_arith)
        requires r >= 0;
    assert(r as int * 640 + 640 <= capacity as int * 640) by (nonlinear_arith)
        requires r < capacity;
}

} // verus!
