//! Fixed 64-byte record header.
use vstd::prelude::*;

use crate::error::WireError;
use crate::kind::{WireKind, decode_kind, header_flags, kind_byte};
use crate::types::{
    Scale, Symbol, UnixNano, Venue, scale_decimals, scale_of_decimals, symbol_len, venue_byte,
    venue_of_byte,
};

verus! {

/// Record header, identical for every [`WireKind`].
///
/// Identity is `(venue, symbol)` in raw form; ordering authority is
/// `producer_seq`; `recv_ns` is for measurement and labelling only.
#[derive(Debug, Clone, Copy, PartialEq, Eq)]
pub struct RecordHeader {
    /// [`WireKind`] as a byte. `0` is invalid.
    pub kind: u8,
    /// [`Venue`] as a byte.
    pub venue: u8,
    /// Header flag bits.
    pub flags: u8,
    /// Number of valid book levels per side; zero for kinds without a book.
    pub depth: u8,
    /// Price [`Scale`] as a byte.
    pub price_scale: u8,
    /// Quantity [`Scale`] as a byte.
    pub qty_scale: u8,
    /// Explicit padding, always zero.
    pub _pad0: u16,
    /// Producer's ring sequence, +1 per record written.
    pub producer_seq: u64,
    /// Feed handler reception time.
    pub recv_ns: UnixNano,
    /// Assembled absolute exchange time in ns; meaningful only with
    /// `VENUE_TIME_VALID`.
    pub venue_ns: UnixNano,
    /// The venue's own instrument name, `NUL`-padded.
    pub symbol: Symbol,
    /// Explicit padding, always zero.
    pub _pad1: [u8; 8],
}

/// Decoding a scale byte: the scale, or the error naming the byte.
pub open spec fn decode_scale(b: u8) -> Result<Scale, WireError> {
    match scale_of_decimals(b as int) {
        Some(s) => Ok(s),
        None => Err(WireError::Scale { found: b }),
    }
}

/// Decoding a venue byte: the venue, or the error naming the byte.
pub open spec fn decode_venue(b: u8) -> Result<Venue, WireError> {
    match venue_of_byte(b) {
        Some(v) => Ok(v),
        None => Err(WireError::Venue { found: b }),
    }
}

/// `flags` has every bit of `mask` set.
pub open spec fn has_bits(flags: u8, mask: u8) -> bool {
    flags & mask == mask
}

/// What validating a header gives: the first failing check in the order
/// kind, venue, price scale, quantity scale, depth.
pub open spec fn header_check(h: RecordHeader) -> Result<(), WireError> {
    if decode_kind(h.kind) is Err {
        Err(WireError::Kind { found: h.kind })
    } else if decode_venue(h.venue) is Err {
        Err(WireError::Venue { found: h.venue })
    } else if decode_scale(h.price_scale) is Err {
        Err(WireError::Scale { found: h.price_scale })
    } else if decode_scale(h.qty_scale) is Err {
        Err(WireError::Scale { found: h.qty_scale })
    } else if h.depth > 10 {
        Err(WireError::Depth { found: h.depth, max: 10 })
    } else {
        Ok(())
    }
}

/// `n` zero bytes.
pub open spec fn zeros(n: nat) -> Seq<u8> {
    Seq::new(n, |i: int| 0u8)
}

/// Every field of `h` except the identity and reception time is zero.
pub open spec fn zero_but_identity(h: RecordHeader) -> bool {
    &&& h.flags == 0
    &&& h.depth == 0
    &&& h.price_scale == 0
    &&& h.qty_scale == 0
    &&& h._pad0 == 0
    &&& h.producer_seq == 0
    &&& h.venue_ns == 0
    &&& h._pad1@ == zeros(8)
}

/// The all-zero header.
pub open spec fn is_zero_header(h: RecordHeader) -> bool {
    &&& zero_but_identity(h)
    &&& h.kind == 0
    &&& h.venue == 0
    &&& h.recv_ns == 0
    &&& h.symbol@ == zeros(24)
}

/// Decodes a scale byte (the scale's decimal count is its byte).
pub fn scale_from_u8(v: u8) -> (res: Result<Scale, WireError>)
    ensures
        res == decode_scale(v),
{
    match Scale::from_decimals(v as usize) {
        Some(s) => Ok(s),
        None => Err(WireError::Scale { found: v }),
    }
}

impl RecordHeader {
    /// All-zero header. `kind == 0`, so it fails validation until a kind is
    /// assigned.
    pub fn zeroed() -> (res: RecordHeader)
        ensures
            is_zero_header(res),
    {
        let h = RecordHeader {
            kind: 0,
            venue: 0,
            flags: 0,
            depth: 0,
            price_scale: 0,
            qty_scale: 0,
            _pad0: 0,
            producer_seq: 0,
            recv_ns: 0,
            venue_ns: 0,
            symbol: [0u8; 24],
            _pad1: [0u8; 8],
        };
        assert(h.symbol@ =~= zeros(24));
        assert(h._pad1@ =~= zeros(8));
        h
    }

    /// Creates a header with the identity and reception time filled in;
    /// everything else is zero (scales `S0`).
    pub fn new(kind: WireKind, venue: Venue, symbol: Symbol, recv_ns: UnixNano) -> (res: RecordHeader)
        ensures
            res.kind == kind_byte(kind),
            res.venue == venue_byte(venue),
            res.symbol == symbol,
            res.recv_ns == recv_ns,
            zero_but_identity(res),
    {
        let mut h = RecordHeader::zeroed();
        assert(h.symbol@ =~= zeros(24));
        assert(h._pad1@ =~= zeros(8));
        h.kind = kind.as_u8();
        h.venue = venue.as_u8();
        h.symbol = symbol;
        h.recv_ns = recv_ns;
        h
    }

    /// The symbol without its `NUL` padding.
    pub fn symbol_bytes(&self) -> (res: &[u8])
        ensures
            res@ == self.symbol@.subrange(0, symbol_len(self.symbol@) as int),
    {
        crate::types::symbol_bytes(&self.symbol)
    }

    /// Decoded record kind.
    pub fn kind(&self) -> (res: Result<WireKind, WireError>)
        ensures
            res == decode_kind(self.kind),
    {
        WireKind::from_u8(self.kind)
    }

    /// Decoded venue.
    pub fn venue(&self) -> (res: Result<Venue, WireError>)
        ensures
            res == decode_venue(self.venue),
    {
        match Venue::from_u8(self.venue) {
            Some(v) => Ok(v),
            None => Err(WireError::Venue { found: self.venue }),
        }
    }

    /// Decoded price scale.
    pub fn price_scale(&self) -> (res: Result<Scale, WireError>)
        ensures
            res == decode_scale(self.price_scale),
    {
        scale_from_u8(self.price_scale)
    }

    /// Decoded quantity scale.
    pub fn qty_scale(&self) -> (res: Result<Scale, WireError>)
        ensures
            res == decode_scale(self.qty_scale),
    {
        scale_from_u8(self.qty_scale)
    }

    /// Sets both scales.
    pub fn set_scales(&mut self, price: Scale, qty: Scale) -> (r: &mut RecordHeader)
        ensures
            *r == (RecordHeader {
                price_scale: scale_decimals(price),
                qty_scale: scale_decimals(qty),
                ..*old(self)
            }),
            *final(self) == *final(r),
    {
        self.price_scale = price.decimals();
        self.qty_scale = qty.decimals();
        self
    }

    /// Sets the number of valid levels per side.
    pub fn set_depth(&mut self, depth: u8) -> (r: &mut RecordHeader)
        ensures
            *r == (RecordHeader { depth, ..*old(self) }),
            *final(self) == *final(r),
    {
        self.depth = depth;
        self
    }

    /// Sets the ring sequence.
    pub fn set_producer_seq(&mut self, seq: u64) -> (r: &mut RecordHeader)
        ensures
            *r == (RecordHeader { producer_seq: seq, ..*old(self) }),
            *final(self) == *final(r),
    {
        self.producer_seq = seq;
        self
    }

    /// Sets the exchange time and marks it valid.
    pub fn set_venue_time(&mut self, venue_ns: UnixNano) -> (r: &mut RecordHeader)
        ensures
            *r == (RecordHeader {
                venue_ns,
                flags: old(self).flags | header_flags::VENUE_TIME_VALID,
                ..*old(self)
            }),
            *final(self) == *final(r),
    {
        self.venue_ns = venue_ns;
        self.flags = self.flags | header_flags::VENUE_TIME_VALID;
        self
    }

    /// Exchange time, if the producer marked it valid.
    pub fn venue_time(&self) -> (res: Option<UnixNano>)
        ensures
            res == (if has_bits(self.flags, header_flags::VENUE_TIME_VALID) {
                Some(self.venue_ns)
            } else {
                None::<UnixNano>
            }),
    {
        if self.has(header_flags::VENUE_TIME_VALID) {
            Some(self.venue_ns)
        } else {
            None
        }
    }

    /// `true` if every bit of `mask` is set.
    pub fn has(&self, mask: u8) -> (res: bool)
        ensures
            res == has_bits(self.flags, mask),
    {
        self.flags & mask == mask
    }

    /// Sets the given flag bits, keeping the ones already set.
    pub fn set_flags(&mut self, mask: u8) -> (r: &mut RecordHeader)
        ensures
            *r == (RecordHeader { flags: old(self).flags | mask, ..*old(self) }),
            *final(self) == *final(r),
    {
        self.flags = self.flags | mask;
        self
    }

    /// Producer marked this record stale.
    pub fn is_stale(&self) -> (res: bool)
        ensures
            res == has_bits(self.flags, header_flags::STALE),
    {
        self.has(header_flags::STALE)
    }

    /// Venue-to-reception age in ns when the venue time is valid, saturating
    /// at zero: neither clock is monotonic.
    pub fn venue_age_ns(&self) -> (res: Option<UnixNano>)
        ensures
            res == (if has_bits(self.flags, header_flags::VENUE_TIME_VALID) {
                Some(
                    if self.recv_ns >= self.venue_ns {
                        (self.recv_ns - self.venue_ns) as u64
                    } else {
                        0u64
                    },
                )
            } else {
                None::<UnixNano>
            }),
    {
        match self.venue_time() {
            Some(v) => Some(
                if self.recv_ns >= v {
                    self.recv_ns - v
                } else {
                    0
                },
            ),
            None => None,
        }
    }

    /// Checks every enumerated byte and the depth bound.
    pub fn validate(&self) -> (res: Result<(), WireError>)
        ensures
            res == header_check(*self),
    {
        if let Err(e) = self.kind() {
            return Err(e);
        }
        if let Err(e) = self.venue() {
            return Err(e);
        }
        if let Err(e) = self.price_scale() {
            return Err(e);
        }
        if let Err(e) = self.qty_scale() {
            return Err(e);
        }
        if self.depth as usize > crate::WIRE_MAX_DEPTH {
            return Err(WireError::Depth { found: self.depth, max: 10 });
        }
        Ok(())
    }
}

/// Setting a flag keeps every flag already set, and makes the new one
/// readable by `has`.
pub proof fn law_flags_accumulate(flags: u8, old_mask: u8, mask: u8)
    ensures
        has_bits(flags, old_mask) ==> has_bits(flags | mask, old_mask),
        has_bits(flags | mask, mask),
{
    assert((flags & old_mask == old_mask) ==> ((flags | mask) & old_mask == old_mask)) by (bit_vector);
    assert((flags | mask) & mask == mask) by (bit_vector);
}

/// After `set_venue_time(t)`, the venue time reads back as `t`, and a
/// freshly made header carries none.
pub proof fn law_venue_time_read_back(h: RecordHeader, t: UnixNano)
    ensures
        has_bits(h.flags | header_flags::VENUE_TIME_VALID, header_flags::VENUE_TIME_VALID),
        !has_bits(0u8, header_flags::VENUE_TIME_VALID),
{
    let f = h.flags;
    assert((f | 1u8) & 1u8 == 1u8) by (bit_vector);
    assert((0u8 & 1u8) != 1u8) by (bit_vector);
}

/// A header passes exactly when its kind byte is one of the ten kinds (1 to
/// 10), its venue byte one of the fifteen venues (0 to 14), both scales
/// are at most eight decimals and its depth at most ten levels; otherwise
/// the first check to fail, in that order, names the byte.
pub proof fn law_header_accepts(h: RecordHeader)
    ensures
        header_check(h) == (if !(1 <= h.kind <= 10) {
            Err(WireError::Kind { found: h.kind })
        } else if h.venue > 14 {
            Err(WireError::Venue { found: h.venue })
        } else if h.price_scale > 8 {
            Err(WireError::Scale { found: h.price_scale })
        } else if h.qty_scale > 8 {
            Err(WireError::Scale { found: h.qty_scale })
        } else if h.depth > 10 {
            Err(WireError::Depth { found: h.depth, max: 10 })
        } else {
            Ok::<(), WireError>(())
        }),
{
    crate::kind::law_kind_codes(h.kind);
    crate::types::law_venue_codes(h.venue);
}

} // verus!
