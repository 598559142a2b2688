//! Packet captures: the classic libpcap file format and the Ethernet · IPv4 ·
//! UDP frames a market-data tap records.
//!
//! The file is a 24-byte header and, per packet, a 16-byte record header
//! followed by the captured bytes. The header's magic says the byte order and
//! whether timestamps are in micro- or nanoseconds; only Ethernet captures
//! are read. A frame is unwrapped down to the UDP payload, through any VLAN
//! tags, with the payload length taken from the UDP header so that Ethernet
//! padding is never mistaken for payload.
use vstd::prelude::*;
use std::collections::BTreeMap;
use vstd::string::StringExecFns;

use crate::header::RecordHeader;
use crate::kind::{WireKind, decode_kind, kind_label, kind_name};
use crate::layout::{
    dynamic_price_limit_at, lemma_dynamic_price_limit_unique, lemma_market_schedule_unique, lemma_price_limit_unique,
    lemma_quote_unique, lemma_trade_quote_unique, lemma_trade_unique, market_schedule_at, price_limit_at, quote_at,
    trade_at, trade_quote_at,
};
use crate::payload::{DynamicPriceLimitPayload, MarketSchedulePayload, PriceLimitPayload, QuotePayload, TradePayload, WireLevel};
use crate::record::WireRecord;
use crate::text::{
    ascii_text, decimal, hex_digits, push_ascii, push_char, push_decimal, push_hex_digits, push_tab_signed,
    push_tab_unsigned, signed,
};
use crate::toml::grammar::lossy_text;
use crate::toml::lossy_string;
use crate::types::symbol_len;

pub mod report;
pub mod tally;

verus! {

/// Magic of a capture with microsecond timestamps, as written by `tcpdump`.
pub const MAGIC_MICROS: u32 = 0xa1b2_c3d4;

/// Magic of a capture with nanosecond timestamps.
pub const MAGIC_NANOS: u32 = 0xa1b2_3c4d;

/// The only link type read: Ethernet.
pub const LINK_ETHERNET: u32 = 1;

/// Largest captured length accepted for one packet.
///
/// A record header claiming more than a few times a normal snapshot length
/// is a corrupt header, not a jumbo frame.
pub const MAX_CAPTURED: usize = 1048576;

// ---------------------------------------------------------------------------
// Byte fields
// ---------------------------------------------------------------------------

/// Big-endian `u16` at `at`.
pub open spec fn be16_at(s: Seq<u8>, at: int) -> int {
    s[at] * 256 + s[at + 1]
}

/// Little-endian `u32` at `at`.
pub open spec fn le32_at(s: Seq<u8>, at: int) -> int {
    s[at] + s[at + 1] * 256 + s[at + 2] * 65536 + s[at + 3] * 16777216
}

/// Big-endian `u32` at `at`.
pub open spec fn be32_at(s: Seq<u8>, at: int) -> int {
    s[at] * 16777216 + s[at + 1] * 65536 + s[at + 2] * 256 + s[at + 3]
}

/// A four-byte field in the file's byte order.
pub open spec fn word_at(s: Seq<u8>, at: int, swap: bool) -> int {
    if swap { be32_at(s, at) } else { le32_at(s, at) }
}

fn be16(bytes: &[u8], at: usize) -> (res: u16)
    requires
        at + 2 <= bytes@.len(),
    ensures
        res == be16_at(bytes@, at as int),
{
    (bytes[at] as u16) * 256 + (bytes[at + 1] as u16)
}

fn word(bytes: &[u8], at: usize, swap: bool) -> (res: u32)
    requires
        at + 4 <= bytes@.len(),
    ensures
        res == word_at(bytes@, at as int, swap),
{
    let b0 = bytes[at] as u32;
    let b1 = bytes[at + 1] as u32;
    let b2 = bytes[at + 2] as u32;
    let b3 = bytes[at + 3] as u32;
    if swap {
        b0 * 16777216 + b1 * 65536 + b2 * 256 + b3
    } else {
        b0 + b1 * 256 + b2 * 65536 + b3 * 16777216
    }
}

// ---------------------------------------------------------------------------
// The file
// ---------------------------------------------------------------------------

/// Why a capture could not be read.
#[derive(Debug, Clone, Copy, PartialEq, Eq, Structural)]
pub enum PcapError {
    /// Not a libpcap file. The value is the first four bytes, little-endian.
    Magic(u32),
    /// A libpcap file of something other than Ethernet frames.
    LinkType(u32),
    /// The file ends inside packet `packet` (zero-based; `0` with no packet
    /// read means the file header itself is short).
    Truncated {
        /// Index of the packet the file ends inside.
        packet: u64,
    },
    /// A packet header claims more than [`MAX_CAPTURED`] bytes.
    Length {
        /// Index of the packet.
        packet: u64,
        /// The claimed captured length.
        captured: usize,
    },
}

/// What a file header says: `(swap, nanos)`, the byte order (`true` when
/// it is the reverse of the magic's little-endian reading) and whether
/// timestamps are in nanoseconds; or why the file is refused.
pub open spec fn file_format(head: Seq<u8>) -> Result<(bool, bool), PcapError> {
    if head.len() < 24 {
        Err(PcapError::Truncated { packet: 0 })
    } else {
        let magic = le32_at(head, 0);
        let found = if magic == MAGIC_MICROS {
            Some((false, false))
        } else if magic == MAGIC_NANOS {
            Some((false, true))
        } else if be32_at(head, 0) == MAGIC_MICROS {
            Some((true, false))
        } else if be32_at(head, 0) == MAGIC_NANOS {
            Some((true, true))
        } else {
            None
        };
        match found {
            None => Err(PcapError::Magic(magic as u32)),
            Some((swap, nanos)) => {
                let link = word_at(head, 20, swap);
                if link != LINK_ETHERNET {
                    Err(PcapError::LinkType(link as u32))
                } else {
                    Ok((swap, nanos))
                }
            },
        }
    }
}

/// The next record of a capture whose unread bytes are `rest`, `packets`
/// packets in: `None` at a clean end, else `(ts_ns, captured, original)`,
/// the capture time in nanoseconds and the captured and on-the-wire
/// lengths; or why it cannot be read.
pub open spec fn next_record(rest: Seq<u8>, swap: bool, nanos: bool, packets: u64) -> Result<
    Option<(int, int, int)>,
    PcapError,
> {
    if rest.len() == 0 {
        Ok(None)
    } else if rest.len() < 16 {
        Err(PcapError::Truncated { packet: packets })
    } else {
        let captured = word_at(rest, 8, swap);
        if captured > MAX_CAPTURED {
            Err(PcapError::Length { packet: packets, captured: captured as usize })
        } else if rest.len() - 16 < captured {
            Err(PcapError::Truncated { packet: packets })
        } else {
            let unit: int = if nanos { 1 } else { 1000 };
            Ok(Some((word_at(rest, 0, swap) * 1_000_000_000 + word_at(rest, 4, swap) * unit, captured, word_at(rest, 12, swap))))
        }
    }
}

/// One captured packet.
#[derive(Debug, Clone, Copy)]
pub struct Packet<'a> {
    /// Capture time as Unix nanoseconds.
    pub ts_ns: u64,
    /// Length on the wire. Larger than `bytes` when the snapshot cut it.
    pub original: usize,
    /// The captured bytes, starting at the Ethernet header.
    pub bytes: &'a [u8],
}

impl<'a> Packet<'a> {
    /// `true` when the capture kept fewer bytes than were on the wire.
    pub fn truncated(&self) -> (res: bool)
        ensures
            res == (self.bytes@.len() < self.original),
    {
        self.bytes.len() < self.original
    }
}

/// What the bytes read for a record header say, `packets` packets in: `None`
/// when none were left (a clean end), else `(ts_ns, captured, original)`;
/// or why the record cannot be read. Only the first 16 bytes are looked at.
pub open spec fn head_record(h: Seq<u8>, swap: bool, nanos: bool, packets: u64) -> Result<
    Option<(int, int, int)>,
    PcapError,
> {
    if h.len() == 0 {
        Ok(None)
    } else if h.len() < 16 {
        Err(PcapError::Truncated { packet: packets })
    } else {
        let captured = word_at(h, 8, swap);
        if captured > MAX_CAPTURED {
            Err(PcapError::Length { packet: packets, captured: captured as usize })
        } else {
            let unit: int = if nanos { 1 } else { 1000 };
            Ok(Some((word_at(h, 0, swap) * 1_000_000_000 + word_at(h, 4, swap) * unit, captured, word_at(h, 12, swap))))
        }
    }
}

/// A packet's record header, read: what the packet's captured bytes need.
#[derive(Debug, Clone, Copy, PartialEq, Eq)]
pub struct RecordHead {
    /// Capture time as Unix nanoseconds.
    pub ts_ns: u64,
    /// Bytes captured, which follow the header.
    pub captured: usize,
    /// Length on the wire.
    pub original: usize,
}

/// A libpcap file, read one packet at a time.
///
/// The reader holds no bytes. Whoever reads the file hands it the bytes it
/// got, a record header (16 bytes, fewer at the end of the file) and then
/// the captured bytes the header announced, and gets back what they are. A
/// replay reuses one buffer for the captured bytes, so a capture of any size
/// costs at most [`MAX_CAPTURED`] bytes of it.
#[derive(Debug)]
pub struct Reader {
    swap: bool,
    nanos: bool,
    packets: u64,
}

impl Reader {
    /// Whether the file's fields are in the reverse of little-endian order.
    pub closed spec fn swapped(&self) -> bool {
        self.swap
    }

    /// Whether the file's timestamps are in nanoseconds.
    pub closed spec fn in_nanos(&self) -> bool {
        self.nanos
    }

    /// Packets returned so far.
    pub closed spec fn count(&self) -> u64 {
        self.packets
    }

    /// Reads the file header, `head` being the bytes the file begins with
    /// (24, or fewer for a shorter file), and refuses anything that is not
    /// Ethernet frames in the classic format.
    pub fn new(head: &[u8]) -> (res: Result<Self, PcapError>)
        ensures
            match file_format(head@) {
                Err(e) => res == Err::<Self, PcapError>(e),
                Ok((swap, nanos)) => res matches Ok(r) && r.swapped() == swap && r.in_nanos() == nanos && r.count() == 0,
            },
    {
        if head.len() < 24 {
            return Err(PcapError::Truncated { packet: 0 });
        }
        let magic = word(head, 0, false);
        let reversed = word(head, 0, true);
        let (swap, nanos) = if magic == MAGIC_MICROS {
            (false, false)
        } else if magic == MAGIC_NANOS {
            (false, true)
        } else if reversed == MAGIC_MICROS {
            (true, false)
        } else if reversed == MAGIC_NANOS {
            (true, true)
        } else {
            return Err(PcapError::Magic(magic));
        };
        let link = word(head, 20, swap);
        if link != LINK_ETHERNET {
            return Err(PcapError::LinkType(link));
        }
        Ok(Reader { swap, nanos, packets: 0 })
    }

    /// Reads a packet's record header from `head`, the bytes the file had
    /// for it: 16, fewer at its end. `None` at a clean end of the file; a
    /// header cut short is [`PcapError::Truncated`], one claiming more than
    /// [`MAX_CAPTURED`] bytes is [`PcapError::Length`].
    pub fn record_head(&self, head: &[u8]) -> (res: Result<Option<RecordHead>, PcapError>)
        ensures
            match head_record(head@, self.swapped(), self.in_nanos(), self.count()) {
                Err(e) => res == Err::<Option<RecordHead>, PcapError>(e),
                Ok(None) => res == Ok::<Option<RecordHead>, PcapError>(None),
                Ok(Some((ts, captured, original))) => res matches Ok(Some(h)) && h.ts_ns == ts && h.captured
                    == captured && h.original == original,
            },
    {
        if head.len() == 0 {
            return Ok(None);
        }
        if head.len() < 16 {
            return Err(PcapError::Truncated { packet: self.packets });
        }
        let secs = word(head, 0, self.swap);
        let frac = word(head, 4, self.swap);
        let captured = word(head, 8, self.swap) as usize;
        let original = word(head, 12, self.swap) as usize;
        if captured > MAX_CAPTURED {
            return Err(PcapError::Length { packet: self.packets, captured });
        }
        let unit: u64 = if self.nanos { 1 } else { 1_000 };
        let ts_ns = (secs as u64) * 1_000_000_000 + (frac as u64) * unit;
        Ok(Some(RecordHead { ts_ns, captured, original }))
    }

    /// The packet whose record header is `head`, from `body`, the captured
    /// bytes the file had after the header: `head.captured` of them, fewer
    /// at its end, which is [`PcapError::Truncated`] after every whole packet
    /// before it. Only a packet returned counts.
    pub fn next_packet<'a>(&mut self, head: RecordHead, body: &'a [u8]) -> (res: Result<Packet<'a>, PcapError>)
        requires
            old(self).count() < u64::MAX,
        ensures
            body@.len() < head.captured ==> res == Err::<Packet<'a>, PcapError>(
                PcapError::Truncated { packet: old(self).count() },
            ) && *final(self) == *old(self),
            body@.len() >= head.captured ==> (res matches Ok(p) && p.ts_ns == head.ts_ns && p.original == head.original
                && p.bytes@ == body@.subrange(0, head.captured as int)) && final(self).count() == old(self).count() + 1
                && final(self).swapped() == old(self).swapped() && final(self).in_nanos() == old(self).in_nanos(),
    {
        if body.len() < head.captured {
            return Err(PcapError::Truncated { packet: self.packets });
        }
        self.packets = self.packets + 1;
        let bytes = slice_prefix(body, head.captured);
        Ok(Packet { ts_ns: head.ts_ns, original: head.original, bytes })
    }

    /// Packets returned so far.
    pub fn packets(&self) -> (res: u64)
        ensures
            res == self.count(),
    {
        self.packets
    }
}

/// The first `n` bytes of `s`.
fn slice_prefix<'a>(s: &'a [u8], n: usize) -> (res: &'a [u8])
    requires
        n <= s@.len(),
    ensures
        res@ == s@.subrange(0, n as int),
{
    let res = &s[0..n];
    assert(res@ =~= s@.subrange(0, n as int));
    res
}

/// Reading a record in two steps, its header from the first 16 bytes left
/// (fewer at the end of the file) and then as many captured bytes as that
/// header announces (fewer at the end), reads what reading it from all the
/// bytes left does: the same packet, the same clean end, the same error.
pub proof fn law_two_reads_are_one(rest: Seq<u8>, swap: bool, nanos: bool, packets: u64)
    ensures
        next_record(rest, swap, nanos, packets) == (match head_record(
            rest.subrange(0, if rest.len() < 16 { rest.len() as int } else { 16 }),
            swap,
            nanos,
            packets,
        ) {
            Err(e) => Err(e),
            Ok(None) => Ok(None),
            Ok(Some((ts, captured, original))) => if rest.subrange(
                16,
                if rest.len() < 16 + captured { rest.len() as int } else { 16 + captured },
            ).len() < captured {
                Err(PcapError::Truncated { packet: packets })
            } else {
                Ok(Some((ts, captured, original)))
            },
        }),
{
    let h = rest.subrange(0, if rest.len() < 16 { rest.len() as int } else { 16 });
    if rest.len() >= 16 {
        assert(word_at(h, 0, swap) == word_at(rest, 0, swap));
        assert(word_at(h, 4, swap) == word_at(rest, 4, swap));
        assert(word_at(h, 8, swap) == word_at(rest, 8, swap));
        assert(word_at(h, 12, swap) == word_at(rest, 12, swap));
    }
}

// ---------------------------------------------------------------------------
// The frame
// ---------------------------------------------------------------------------

/// Why a frame carried no datagram.
#[derive(Debug, Clone, Copy, PartialEq, Eq, Structural)]
pub enum Skip {
    /// Not IPv4: ARP, IPv6, spanning tree, whatever else shares the tap.
    NotIpv4,
    /// IPv4 but not UDP.
    NotUdp,
    /// A fragment. Market data is never fragmented.
    Fragment,
    /// Shorter than its own headers say, usually a truncated capture.
    Short,
}

/// One UDP datagram found inside an Ethernet frame.
#[derive(Debug, Clone, Copy, PartialEq, Eq)]
pub struct Datagram<'a> {
    /// IPv4 destination: the multicast group.
    pub dst: [u8; 4],
    /// UDP destination port.
    pub port: u16,
    /// The datagram's payload: what the socket would have handed the loop.
    pub payload: &'a [u8],
}

/// An 802.1Q or 802.1ad tag in front of the real EtherType.
pub open spec fn is_vlan_tag(ethertype: int) -> bool {
    ethertype == 0x8100 || ethertype == 0x88a8
}

/// Past the VLAN tags: the offset of the EtherType that is not a tag, when
/// the one at `at` is in the frame; `None` when a tag chain runs off the
/// end of the frame.
pub open spec fn final_ethertype(f: Seq<u8>, at: int) -> Option<int>
    decreases f.len() - at,
{
    if at < 0 || f.len() < at + 2 {
        None
    } else if is_vlan_tag(be16_at(f, at)) {
        if f.len() < at + 6 { None } else { final_ethertype(f, at + 4) }
    } else {
        Some(at)
    }
}

/// Where the frame's UDP datagram is, as `(ip, udp, len)`: the offsets of
/// the IPv4 and UDP headers and the UDP length; or why there is none, by
/// the first layer that fails: Ethernet and its tags, then IPv4, then UDP.
pub open spec fn frame_layout(f: Seq<u8>) -> Result<(int, int, int), Skip> {
    if f.len() < 14 {
        Err(Skip::Short)
    } else {
        match final_ethertype(f, 12) {
            None => Err(Skip::Short),
            Some(at) => {
                let ip = at + 2;
                if be16_at(f, at) != 0x0800 {
                    Err(Skip::NotIpv4)
                } else if f.len() - ip < 20 {
                    Err(Skip::Short)
                } else if f[ip] / 16 != 4 {
                    Err(Skip::NotIpv4)
                } else {
                    let ihl = (f[ip] % 16) * 4;
                    if ihl < 20 || f.len() - ip < ihl {
                        Err(Skip::Short)
                    } else if f[ip + 9] != 17 {
                        Err(Skip::NotUdp)
                    } else if be16_at(f, ip + 6) % 16384 != 0 {
                        Err(Skip::Fragment)
                    } else {
                        let udp = ip + ihl;
                        if f.len() - udp < 8 {
                            Err(Skip::Short)
                        } else {
                            let len = be16_at(f, udp + 4);
                            if len < 8 || f.len() - udp < len {
                                Err(Skip::Short)
                            } else {
                                Ok((ip, udp, len))
                            }
                        }
                    }
                }
            },
        }
    }
}

/// Unwraps Ethernet (with any VLAN tags), IPv4 and UDP.
///
/// The payload length comes from the UDP header, not the frame: a short
/// datagram is padded to the Ethernet minimum, and the padding is not the
/// payload.
pub fn datagram(frame: &[u8]) -> (res: Result<Datagram<'_>, Skip>)
    ensures
        match frame_layout(frame@) {
            Err(e) => res == Err::<Datagram<'_>, Skip>(e),
            Ok((ip, udp, len)) => res matches Ok(d) && d.dst@ == frame@.subrange(ip + 16, ip + 20)
                && d.port == be16_at(frame@, udp + 2) && d.payload@ == frame@.subrange(udp + 8, udp + len),
        },
{
    if frame.len() < 14 {
        return Err(Skip::Short);
    }
    let mut at: usize = 12;
    let mut ethertype = be16(frame, at);
    while ethertype == 0x8100 || ethertype == 0x88a8
        invariant
            12 <= at,
            at + 2 <= frame@.len(),
            ethertype == be16_at(frame@, at as int),
            final_ethertype(frame@, 12) == final_ethertype(frame@, at as int),
        decreases frame@.len() - at,
    {
        if frame.len() - at < 6 {
            return Err(Skip::Short);
        }
        at += 4;
        ethertype = be16(frame, at);
    }
    assert(final_ethertype(frame@, at as int) == Some(at as int));
    at += 2;
    if ethertype != 0x0800 {
        return Err(Skip::NotIpv4);
    }
    let ip = at;
    if frame.len() - ip < 20 {
        return Err(Skip::Short);
    }
    let v = frame[ip];
    assert(v >> 4u8 == v / 16 && v & 0x0fu8 == v % 16) by (bit_vector);
    if v >> 4 != 4 {
        return Err(Skip::NotIpv4);
    }
    let ihl = ((v & 0x0f) as usize) * 4;
    if ihl < 20 || frame.len() - ip < ihl {
        return Err(Skip::Short);
    }
    if frame[ip + 9] != 17 {
        return Err(Skip::NotUdp);
    }
    let flags = be16(frame, ip + 6);
    assert(flags & 0x3fffu16 == flags % 16384) by (bit_vector);
    if flags & 0x3fff != 0 {
        return Err(Skip::Fragment);
    }
    let dst = [frame[ip + 16], frame[ip + 17], frame[ip + 18], frame[ip + 19]];
    let udp = ip + ihl;
    if frame.len() - udp < 8 {
        return Err(Skip::Short);
    }
    let port = be16(frame, udp + 2);
    let len = be16(frame, udp + 4) as usize;
    if len < 8 || frame.len() - udp < len {
        return Err(Skip::Short);
    }
    let payload = &frame[udp + 8..udp + len];
    assert(dst@ =~= frame@.subrange(ip + 16, ip + 20));
    Ok(Datagram { dst, port, payload })
}

// ---------------------------------------------------------------------------
// Tallies
// ---------------------------------------------------------------------------

/// Counts over a whole capture.
#[derive(Debug, Clone, Copy, PartialEq, Eq, Structural)]
pub struct PacketTally {
    /// Packets read.
    pub packets: u64,
    /// Packets that were a whole UDP datagram.
    pub datagrams: u64,
    /// Packets the snapshot length cut short.
    pub truncated: u64,
    /// Skipped: not IPv4.
    pub not_ipv4: u64,
    /// Skipped: not UDP.
    pub not_udp: u64,
    /// Skipped: an IP fragment.
    pub fragments: u64,
    /// Skipped: shorter than its headers.
    pub short: u64,
    /// Payload bytes handed on.
    pub bytes: u64,
    /// Capture time of the first packet.
    pub first_ns: u64,
    /// Capture time of the last packet.
    pub last_ns: u64,
}

impl Default for PacketTally {
    fn default() -> (res: PacketTally)
        ensures
            res == (PacketTally {
                packets: 0,
                datagrams: 0,
                truncated: 0,
                not_ipv4: 0,
                not_udp: 0,
                fragments: 0,
                short: 0,
                bytes: 0,
                first_ns: 0,
                last_ns: 0,
            }),
    {
        PacketTally {
            packets: 0,
            datagrams: 0,
            truncated: 0,
            not_ipv4: 0,
            not_udp: 0,
            fragments: 0,
            short: 0,
            bytes: 0,
            first_ns: 0,
            last_ns: 0,
        }
    }
}

/// The tally after one more packet captured at `ts`, cut short or not,
/// whose frame unwrapped to `unwrapped`.
pub open spec fn tally_packet(t: PacketTally, ts: u64, cut: bool, unwrapped: Result<(int, int, int), Skip>) -> PacketTally {
    PacketTally {
        packets: (t.packets + 1) as u64,
        first_ns: if t.packets == 0 { ts } else { t.first_ns },
        last_ns: ts,
        truncated: if cut { (t.truncated + 1) as u64 } else { t.truncated },
        not_ipv4: if unwrapped == Err::<(int, int, int), Skip>(Skip::NotIpv4) { (t.not_ipv4 + 1) as u64 } else { t.not_ipv4 },
        not_udp: if unwrapped == Err::<(int, int, int), Skip>(Skip::NotUdp) { (t.not_udp + 1) as u64 } else { t.not_udp },
        fragments: if unwrapped == Err::<(int, int, int), Skip>(Skip::Fragment) { (t.fragments + 1) as u64 } else { t.fragments },
        short: if unwrapped == Err::<(int, int, int), Skip>(Skip::Short) { (t.short + 1) as u64 } else { t.short },
        ..t
    }
}

impl PacketTally {
    /// No counter has outrun the packets: a tally of packets fed one at a
    /// time.
    pub open spec fn consistent(&self) -> bool {
        &&& self.truncated <= self.packets
        &&& self.not_ipv4 + self.not_udp + self.fragments + self.short <= self.packets
    }

    /// Counts one packet and unwraps it: the datagram it carries, or why it
    /// carries none.
    pub fn packet<'a>(&mut self, packet: &Packet<'a>) -> (res: Result<Datagram<'a>, Skip>)
        requires
            old(self).consistent(),
            old(self).packets < u64::MAX,
        ensures
            final(self).consistent(),
            *final(self) == tally_packet(*old(self), packet.ts_ns, packet.bytes@.len() < packet.original, frame_layout(packet.bytes@)),
            match frame_layout(packet.bytes@) {
                Err(e) => res == Err::<Datagram<'a>, Skip>(e),
                Ok((ip, udp, len)) => res matches Ok(d) && d.dst@ == packet.bytes@.subrange(ip + 16, ip + 20)
                    && d.port == be16_at(packet.bytes@, udp + 2) && d.payload@ == packet.bytes@.subrange(udp + 8, udp + len),
            },
    {
        if self.packets == 0 {
            self.first_ns = packet.ts_ns;
        }
        self.packets = self.packets + 1;
        self.last_ns = packet.ts_ns;
        if packet.truncated() {
            self.truncated = self.truncated + 1;
        }
        let res = datagram(packet.bytes);
        match res {
            Ok(_) => {},
            Err(Skip::NotIpv4) => self.not_ipv4 = self.not_ipv4 + 1,
            Err(Skip::NotUdp) => self.not_udp = self.not_udp + 1,
            Err(Skip::Fragment) => self.fragments = self.fragments + 1,
            Err(Skip::Short) => self.short = self.short + 1,
        }
        res
    }

    /// Counts one datagram of `len` payload bytes handed on.
    pub fn datagram(&mut self, len: usize)
        requires
            old(self).datagrams < u64::MAX,
            old(self).bytes + len <= u64::MAX,
        ensures
            *final(self) == (PacketTally {
                datagrams: (old(self).datagrams + 1) as u64,
                bytes: (old(self).bytes + len) as u64,
                ..*old(self)
            }),
    {
        self.datagrams = self.datagrams + 1;
        self.bytes = self.bytes + len as u64;
    }
}

/// What arrived on one multicast group and port.
#[derive(Debug, Clone, PartialEq, Eq)]
pub struct PortTally {
    /// Datagrams.
    pub received: u64,
    /// Datagrams per trcode, by the code's `u64` packing.
    pub codes: BTreeMap<u64, u64>,
}

impl Default for PortTally {
    fn default() -> (res: PortTally)
        ensures
            res.received == 0,
            res.codes@ == Map::<u64, u64>::empty(),
    {
        PortTally { received: 0, codes: BTreeMap::new() }
    }
}

/// `u64` keys are ordered the way a `BTreeMap` needs.
proof fn lemma_u64_keys_ordered()
    ensures
        vstd::laws_cmp::obeys_cmp::<u64>(),
{
    broadcast use vstd::laws_cmp::group_laws_cmp;
}

impl PortTally {
    /// Counts one datagram, under its trcode's packing `code` when it was
    /// long enough to carry one.
    pub fn saw(&mut self, code: Option<u64>)
        requires
            old(self).received < u64::MAX,
            forall|k: u64| code == Some(k) && old(self).codes@.contains_key(k) ==> old(self).codes@[k] < u64::MAX,
        ensures
            final(self).received == old(self).received + 1,
            final(self).codes@ == (match code {
                None => old(self).codes@,
                Some(k) => old(self).codes@.insert(
                    k,
                    (if old(self).codes@.contains_key(k) { old(self).codes@[k] + 1 } else { 1 }) as u64,
                ),
            }),
    {
        proof {
            lemma_u64_keys_ordered();
        }
        self.received = self.received + 1;
        match code {
            None => {},
            Some(k) => {
                let n = match self.codes.get(&k) {
                    Some(n) => *n + 1,
                    None => 1,
                };
                self.codes.insert(k, n);
            },
        }
    }
}

// ---------------------------------------------------------------------------
// Messages
// ---------------------------------------------------------------------------

/// What a capture error says.
pub open spec fn pcap_error_text(e: PcapError) -> Seq<char> {
    match e {
        PcapError::Magic(m) => "not a libpcap file (magic 0x"@ + hex_digits(m as nat, 8) + ")"@,
        PcapError::LinkType(l) => "link type "@ + decimal(l as nat) + " is not Ethernet (1)"@,
        PcapError::Truncated { packet } => "file ends inside packet "@ + decimal(packet as nat),
        PcapError::Length { packet, captured } => "packet "@ + decimal(packet as nat) + " claims "@ + decimal(
            captured as nat,
        ) + " bytes, more than 1048576"@,
    }
}

impl PcapError {
    /// The error as a sentence.
    pub fn to_string(&self) -> (res: String)
        ensures
            res@ == pcap_error_text(*self),
    {
        let mut s = String::new();
        match *self {
            PcapError::Magic(m) => {
                s.append("not a libpcap file (magic 0x");
                push_hex_digits(&mut s, m as u64, 8);
                s.append(")");
            },
            PcapError::LinkType(l) => {
                s.append("link type ");
                push_decimal(&mut s, l as u64);
                s.append(" is not Ethernet (1)");
            },
            PcapError::Truncated { packet } => {
                s.append("file ends inside packet ");
                push_decimal(&mut s, packet);
            },
            PcapError::Length { packet, captured } => {
                s.append("packet ");
                push_decimal(&mut s, packet);
                s.append(" claims ");
                push_decimal(&mut s, captured as u64);
                s.append(" bytes, more than 1048576");
            },
        }
        proof {
            assert(s@ =~= pcap_error_text(*self));
        }
        s
    }
}

/// Why a frame was skipped, in words.
pub open spec fn skip_text(k: Skip) -> Seq<char> {
    match k {
        Skip::NotIpv4 => "not IPv4"@,
        Skip::NotUdp => "not UDP"@,
        Skip::Fragment => "IP fragment"@,
        Skip::Short => "shorter than its headers"@,
    }
}

impl Skip {
    /// The reason as words.
    pub fn to_string(&self) -> (res: String)
        ensures
            res@ == skip_text(*self),
    {
        let t = match *self {
            Skip::NotIpv4 => "not IPv4",
            Skip::NotUdp => "not UDP",
            Skip::Fragment => "IP fragment",
            Skip::Short => "shorter than its headers",
        };
        let mut s = String::new();
        s.append(t);
        assert(s@ =~= skip_text(*self));
        s
    }
}

// ---------------------------------------------------------------------------
// The dump
// ---------------------------------------------------------------------------

/// The header line of a dump.
pub open spec fn tsv_header() -> Seq<char> {
    "trcode\tkind\tsymbol\tvenue_ns\trecv_ns\tflags\tdepth\tprice_scale\tqty_scale\t\u{2026}\n"@
}

/// A tab and then `n`.
pub open spec fn col(n: int) -> Seq<char> {
    seq!['\t'] + signed(n)
}

/// A tab and then bytes read as UTF-8, each invalid sequence replaced.
pub open spec fn text_col(bytes: Seq<u8>) -> Seq<char> {
    seq!['\t'] + lossy_text(bytes)
}

/// The three columns of a book level: price, quantity, order count.
pub open spec fn level_cols(l: WireLevel) -> Seq<char> {
    col(l.price as int) + col(l.qty as int) + col(l.order_count as int)
}

/// The columns of the first `n` levels of a side.
pub open spec fn side_cols(side: Seq<WireLevel>, n: int) -> Seq<char>
    decreases n,
{
    if n <= 0 {
        Seq::empty()
    } else {
        side_cols(side, n - 1) + level_cols(side[n - 1])
    }
}

/// A quote's columns: its extension fields, then ten bid levels, then ten
/// ask levels.
pub open spec fn quote_cols(q: QuotePayload) -> Seq<char> {
    col(q.quote_ext_kind as int) + col(q.quote_ext as int) + col(q.level_flags as int) + side_cols(q.bid@, 10)
        + side_cols(q.ask@, 10)
}

/// A trade's columns.
pub open spec fn trade_cols(t: TradePayload) -> Seq<char> {
    col(t.price as int) + col(t.qty as int) + col(t.trade_kind as int) + col(t.trade_flags as int) + col(
        t.cumulative_qty as int,
    ) + col(t.dyn_upper as int) + col(t.dyn_lower as int) + col(t.trade_yield as int)
}

/// A price limit's columns.
pub open spec fn price_limit_cols(p: PriceLimitPayload) -> Seq<char> {
    col(p.applied_time_of_day as int) + col(p.upper_price as int) + col(p.lower_price as int) + col(p.sequence as int)
        + text_col(p.board_id@) + text_col(p.information_category@) + col(p.upper_stage as int) + col(
        p.lower_stage as int,
    )
}

/// A dynamic price limit's columns.
pub open spec fn dynamic_price_limit_cols(p: DynamicPriceLimitPayload) -> Seq<char> {
    col(p.applied_time_of_day as int) + col(p.upper_price as int) + col(p.lower_price as int) + col(p.sequence as int)
        + text_col(p.board_id@) + text_col(p.information_category@) + col(p.action as int)
}

/// A market schedule notice's columns.
pub open spec fn schedule_cols(m: MarketSchedulePayload) -> Seq<char> {
    col(m.event_time_of_day as int) + col(m.expected_time_of_day as int) + col(m.board_event_group as int) + text_col(
        m.information_category@,
    ) + text_col(m.product_id@) + text_col(m.board_id@) + text_col(m.board_event_id@) + text_col(m.session_action@)
        + text_col(m.session_id@) + text_col(m.halt_reason@) + col(m.halt_type as int) + col(m.step as int) + col(
        m.expansion_direction as int,
    ) + col(m.schedule_flags as int)
}

/// The columns every line starts with: trcode, kind, symbol, venue and
/// reception times, flags, depth and the two scales.
pub open spec fn common_cols(code: Seq<u8>, h: RecordHeader) -> Seq<char> {
    ascii_text(code) + seq!['\t'] + (match decode_kind(h.kind) {
        Ok(k) => kind_label(k)@,
        Err(_) => seq!['?'],
    }) + text_col(h.symbol@.subrange(0, symbol_len(h.symbol@) as int)) + col(h.venue_ns as int) + col(h.recv_ns as int)
        + col(h.flags as int) + col(h.depth as int) + col(h.price_scale as int) + col(h.qty_scale as int)
}

/// `tail` is what follows the common columns in the dump line of `rec`:
/// the columns of its kind where it has any, and a newline.
pub open spec fn is_kind_tail(tail: Seq<char>, rec: WireRecord) -> bool {
    let img = rec.payload_image();
    match decode_kind(rec.header.kind) {
        Ok(WireKind::Quote) => forall|q: QuotePayload| quote_at(img, 0, q) ==> tail == quote_cols(q) + seq!['\n'],
        Ok(WireKind::Trade) => forall|t: TradePayload| trade_at(img, 0, t) ==> tail == trade_cols(t) + seq!['\n'],
        Ok(WireKind::TradeQuote) => forall|tq: crate::payload::TradeQuotePayload| trade_quote_at(img, 0, tq) ==> tail
            == trade_cols(tq.trade) + quote_cols(tq.quote) + seq!['\n'],
        Ok(WireKind::PriceLimit) => forall|p: PriceLimitPayload| price_limit_at(img, 0, p) ==> tail == price_limit_cols(p)
            + seq!['\n'],
        Ok(WireKind::DynamicPriceLimit) => forall|p: DynamicPriceLimitPayload| dynamic_price_limit_at(img, 0, p) ==> tail
            == dynamic_price_limit_cols(p) + seq!['\n'],
        Ok(WireKind::MarketSchedule) => forall|m: MarketSchedulePayload| market_schedule_at(img, 0, m) ==> tail
            == schedule_cols(m) + seq!['\n'],
        _ => tail == seq!['\n'],
    }
}

/// Appends the header line of a dump.
pub fn write_tsv_header(out: &mut String)
    ensures
        final(out)@ == old(out)@ + tsv_header(),
{
    out.append("trcode\tkind\tsymbol\tvenue_ns\trecv_ns\tflags\tdepth\tprice_scale\tqty_scale\t\u{2026}\n");
}

fn push_level(out: &mut String, l: &WireLevel)
    ensures
        final(out)@ == old(out)@ + level_cols(*l),
{
    push_tab_signed(out, l.price);
    push_tab_unsigned(out, l.qty);
    push_tab_unsigned(out, l.order_count as u64);
    assert(final(out)@ =~= old(out)@ + level_cols(*l));
}

fn push_side(out: &mut String, side: &[WireLevel; 10])
    ensures
        final(out)@ == old(out)@ + side_cols(side@, 10),
{
    let mut k: usize = 0;
    while k < 10
        invariant
            k <= 10,
            out@ == old(out)@ + side_cols(side@, k as int),
        decreases 10 - k,
    {
        push_level(out, &side[k]);
        assert(out@ =~= old(out)@ + side_cols(side@, k + 1));
        k += 1;
    }
}

fn quote_columns(out: &mut String, q: &QuotePayload)
    ensures
        final(out)@ == old(out)@ + quote_cols(*q),
{
    push_tab_unsigned(out, q.quote_ext_kind as u64);
    push_tab_unsigned(out, q.quote_ext);
    push_tab_unsigned(out, q.level_flags as u64);
    push_side(out, &q.bid);
    push_side(out, &q.ask);
    assert(final(out)@ =~= old(out)@ + quote_cols(*q));
}

fn trade_columns(out: &mut String, t: &TradePayload)
    ensures
        final(out)@ == old(out)@ + trade_cols(*t),
{
    push_tab_signed(out, t.price);
    push_tab_unsigned(out, t.qty);
    push_tab_unsigned(out, t.trade_kind as u64);
    push_tab_unsigned(out, t.trade_flags as u64);
    push_tab_unsigned(out, t.cumulative_qty);
    push_tab_signed(out, t.dyn_upper);
    push_tab_signed(out, t.dyn_lower);
    push_tab_signed(out, t.trade_yield as i64);
    assert(final(out)@ =~= old(out)@ + trade_cols(*t));
}

fn push_text_col(out: &mut String, bytes: &[u8])
    ensures
        final(out)@ == old(out)@ + text_col(bytes@),
{
    push_char(out, '\t');
    let text = lossy_string(bytes);
    out.append(text.as_str());
    assert(final(out)@ =~= old(out)@ + text_col(bytes@));
}

fn push_common(out: &mut String, code: &[u8; 5], h: &RecordHeader)
    ensures
        final(out)@ == old(out)@ + common_cols(code@, *h),
{
    push_ascii(out, code);
    push_char(out, '\t');
    match h.kind() {
        Ok(k) => out.append(kind_name(k)),
        Err(_) => push_char(out, '?'),
    }
    push_text_col(out, h.symbol_bytes());
    push_tab_unsigned(out, h.venue_ns);
    push_tab_unsigned(out, h.recv_ns);
    push_tab_unsigned(out, h.flags as u64);
    push_tab_unsigned(out, h.depth as u64);
    push_tab_unsigned(out, h.price_scale as u64);
    push_tab_unsigned(out, h.qty_scale as u64);
    assert(final(out)@ =~= old(out)@ + common_cols(code@, *h));
}

fn push_quote_tail(out: &mut String, rec: &WireRecord)
    requires
        decode_kind(rec.header.kind) == Ok::<WireKind, crate::error::WireError>(WireKind::Quote),
    ensures
        exists|tail: Seq<char>| final(out)@ == old(out)@ + tail && is_kind_tail(tail, *rec),
{
    let ghost img = rec.payload_image();
    if let Ok(q) = rec.quote() {
        quote_columns(out, &q);
        push_char(out, '\n');
        let ghost tail = quote_cols(q) + seq!['\n'];
        proof {
            assert forall|p: QuotePayload| quote_at(img, 0, p) implies tail == quote_cols(p) + seq!['\n'] by {
                lemma_quote_unique(img, 0, p, q);
            }
            assert(out@ =~= old(out)@ + tail);
            assert(is_kind_tail(tail, *rec));
        }
    }
}

fn push_trade_tail(out: &mut String, rec: &WireRecord)
    requires
        decode_kind(rec.header.kind) == Ok::<WireKind, crate::error::WireError>(WireKind::Trade),
    ensures
        exists|tail: Seq<char>| final(out)@ == old(out)@ + tail && is_kind_tail(tail, *rec),
{
    let ghost img = rec.payload_image();
    if let Ok(t) = rec.trade() {
        trade_columns(out, &t);
        push_char(out, '\n');
        let ghost tail = trade_cols(t) + seq!['\n'];
        proof {
            assert forall|p: TradePayload| trade_at(img, 0, p) implies tail == trade_cols(p) + seq!['\n'] by {
                lemma_trade_unique(img, 0, p, t);
            }
            assert(out@ =~= old(out)@ + tail);
            assert(is_kind_tail(tail, *rec));
        }
    }
}

fn push_trade_quote_tail(out: &mut String, rec: &WireRecord)
    requires
        decode_kind(rec.header.kind) == Ok::<WireKind, crate::error::WireError>(WireKind::TradeQuote),
    ensures
        exists|tail: Seq<char>| final(out)@ == old(out)@ + tail && is_kind_tail(tail, *rec),
{
    let ghost img = rec.payload_image();
    if let Ok(tq) = rec.trade_quote() {
        trade_columns(out, &tq.trade);
        quote_columns(out, &tq.quote);
        push_char(out, '\n');
        let ghost tail = trade_cols(tq.trade) + quote_cols(tq.quote) + seq!['\n'];
        proof {
            assert forall|p: crate::payload::TradeQuotePayload| trade_quote_at(img, 0, p) implies tail == trade_cols(p.trade)
                + quote_cols(p.quote) + seq!['\n'] by {
                lemma_trade_quote_unique(img, 0, p, tq);
            }
            assert(out@ =~= old(out)@ + tail);
            assert(is_kind_tail(tail, *rec));
        }
    }
}

fn push_price_limit_tail(out: &mut String, rec: &WireRecord)
    requires
        decode_kind(rec.header.kind) == Ok::<WireKind, crate::error::WireError>(WireKind::PriceLimit),
    ensures
        exists|tail: Seq<char>| final(out)@ == old(out)@ + tail && is_kind_tail(tail, *rec),
{
    let ghost img = rec.payload_image();
    if let Ok(p) = rec.price_limit() {
        push_tab_unsigned(out, p.applied_time_of_day);
        push_tab_signed(out, p.upper_price);
        push_tab_signed(out, p.lower_price);
        push_tab_unsigned(out, p.sequence as u64);
        push_text_col(out, &p.board_id);
        push_text_col(out, &p.information_category);
        push_tab_unsigned(out, p.upper_stage as u64);
        push_tab_unsigned(out, p.lower_stage as u64);
        push_char(out, '\n');
        let ghost tail = price_limit_cols(p) + seq!['\n'];
        proof {
            assert forall|x: PriceLimitPayload| price_limit_at(img, 0, x) implies tail == price_limit_cols(x) + seq!['\n'] by {
                lemma_price_limit_unique(img, 0, x, p);
            }
            assert(out@ =~= old(out)@ + tail);
            assert(is_kind_tail(tail, *rec));
        }
    }
}

fn push_dynamic_price_limit_tail(out: &mut String, rec: &WireRecord)
    requires
        decode_kind(rec.header.kind) == Ok::<WireKind, crate::error::WireError>(WireKind::DynamicPriceLimit),
    ensures
        exists|tail: Seq<char>| final(out)@ == old(out)@ + tail && is_kind_tail(tail, *rec),
{
    let ghost img = rec.payload_image();
    if let Ok(p) = rec.dynamic_price_limit() {
        push_tab_unsigned(out, p.applied_time_of_day);
        push_tab_signed(out, p.upper_price);
        push_tab_signed(out, p.lower_price);
        push_tab_unsigned(out, p.sequence as u64);
        push_text_col(out, &p.board_id);
        push_text_col(out, &p.information_category);
        push_tab_unsigned(out, p.action as u64);
        push_char(out, '\n');
        let ghost tail = dynamic_price_limit_cols(p) + seq!['\n'];
        proof {
            assert forall|x: DynamicPriceLimitPayload| dynamic_price_limit_at(img, 0, x) implies tail
                == dynamic_price_limit_cols(x) + seq!['\n'] by {
                lemma_dynamic_price_limit_unique(img, 0, x, p);
            }
            assert(out@ =~= old(out)@ + tail);
            assert(is_kind_tail(tail, *rec));
        }
    }
}

fn push_schedule_tail(out: &mut String, rec: &WireRecord)
    requires
        decode_kind(rec.header.kind) == Ok::<WireKind, crate::error::WireError>(WireKind::MarketSchedule),
    ensures
        exists|tail: Seq<char>| final(out)@ == old(out)@ + tail && is_kind_tail(tail, *rec),
{
    let ghost img = rec.payload_image();
    if let Ok(m) = rec.market_schedule() {
        push_tab_unsigned(out, m.event_time_of_day);
        push_tab_unsigned(out, m.expected_time_of_day);
        push_tab_unsigned(out, m.board_event_group as u64);
        push_text_col(out, &m.information_category);
        push_text_col(out, &m.product_id);
        push_text_col(out, &m.board_id);
        push_text_col(out, &m.board_event_id);
        push_text_col(out, &m.session_action);
        push_text_col(out, &m.session_id);
        push_text_col(out, &m.halt_reason);
        push_tab_unsigned(out, m.halt_type as u64);
        push_tab_unsigned(out, m.step as u64);
        push_tab_unsigned(out, m.expansion_direction as u64);
        push_tab_unsigned(out, m.schedule_flags as u64);
        push_char(out, '\n');
        let ghost tail = schedule_cols(m) + seq!['\n'];
        proof {
            assert forall|x: MarketSchedulePayload| market_schedule_at(img, 0, x) implies tail == schedule_cols(x)
                + seq!['\n'] by {
                lemma_market_schedule_unique(img, 0, x, m);
            }
            assert(out@ =~= old(out)@ + tail);
            assert(is_kind_tail(tail, *rec));
        }
    }
}

/// Appends the dump line of one published record: the common columns
/// `trcode kind symbol venue_ns recv_ns flags depth price_scale qty_scale`,
/// then by kind: a quote's extension fields and ten bid then ten ask levels
/// (price, quantity, order count); a trade's price, quantity, kind, flags,
/// cumulative quantity, dynamic limits and yield; a trade-quote's trade then
/// quote columns; a price limit's, dynamic price limit's or schedule
/// notice's fields; nothing more for other kinds; then a newline. Prices
/// and sizes are the wire integers; the scales say where the point is.
pub fn write_tsv(out: &mut String, code: &[u8; 5], rec: &WireRecord)
    ensures
        exists|tail: Seq<char>| final(out)@ == old(out)@ + common_cols(code@, rec.header) + tail && is_kind_tail(tail, *rec),
{
    push_common(out, code, &rec.header);
    let ghost mid = out@;
    match rec.kind() {
        Ok(WireKind::Quote) => push_quote_tail(out, rec),
        Ok(WireKind::Trade) => push_trade_tail(out, rec),
        Ok(WireKind::TradeQuote) => push_trade_quote_tail(out, rec),
        Ok(WireKind::PriceLimit) => push_price_limit_tail(out, rec),
        Ok(WireKind::DynamicPriceLimit) => push_dynamic_price_limit_tail(out, rec),
        Ok(WireKind::MarketSchedule) => push_schedule_tail(out, rec),
        _ => {
            push_char(out, '\n');
            assert(is_kind_tail(seq!['\n'], *rec));
            assert(out@ =~= mid + seq!['\n']);
        },
    }
    let ghost tail = choose|tail: Seq<char>| out@ == mid + tail && is_kind_tail(tail, *rec);
    assert(out@ =~= old(out)@ + common_cols(code@, rec.header) + tail);
}

proof fn lemma_final_ethertype_bounds(f: Seq<u8>, at: int)
    requires
        final_ethertype(f, at) is Some,
    ensures
        at <= final_ethertype(f, at)->0,
        final_ethertype(f, at)->0 + 2 <= f.len(),
    decreases f.len() - at,
{
    if at >= 0 && f.len() >= at + 2 && is_vlan_tag(be16_at(f, at)) && f.len() >= at + 6 {
        lemma_final_ethertype_bounds(f, at + 4);
    }
}

proof fn lemma_final_ethertype_extends(f: Seq<u8>, extra: Seq<u8>, at: int)
    requires
        final_ethertype(f, at) is Some,
    ensures
        final_ethertype(f + extra, at) == final_ethertype(f, at),
    decreases f.len() - at,
{
    let g = f + extra;
    assert(g[at] == f[at] && g[at + 1] == f[at + 1]);
    if is_vlan_tag(be16_at(f, at)) {
        lemma_final_ethertype_extends(f, extra, at + 4);
    }
}

// ---------------------------------------------------------------------------
// The dump's columns, in their documented order
// ---------------------------------------------------------------------------

/// A tab, then `n` in decimal.
pub open spec fn tab_num(n: int) -> Seq<char> {
    seq!['\t'] + signed(n)
}

/// A book level as the dump lists it: price, quantity, order count.
pub open spec fn tsv_level(l: WireLevel) -> Seq<char> {
    tab_num(l.price as int) + tab_num(l.qty as int) + tab_num(l.order_count as int)
}

/// The ten levels of a side, innermost first.
pub open spec fn tsv_side(side: Seq<WireLevel>) -> Seq<char> {
    tsv_level(side[0]) + tsv_level(side[1]) + tsv_level(side[2]) + tsv_level(side[3]) + tsv_level(side[4]) + tsv_level(
        side[5],
    ) + tsv_level(side[6]) + tsv_level(side[7]) + tsv_level(side[8]) + tsv_level(side[9])
}

proof fn lemma_side_cols(side: Seq<WireLevel>)
    ensures
        side_cols(side, 10) == tsv_side(side),
{
    reveal_with_fuel(side_cols, 11);
    assert(side_cols(side, 10) =~= tsv_side(side));
}

/// The line of a price-limit record goes on, after the common columns, with
/// `applied_tod upper lower sequence board category upper_stage lower_stage`
/// and ends.
pub proof fn law_price_limit_columns(rec: WireRecord, p: PriceLimitPayload, tail: Seq<char>)
    requires
        decode_kind(rec.header.kind) == Ok::<WireKind, crate::error::WireError>(WireKind::PriceLimit),
        price_limit_at(rec.payload_image(), 0, p),
        is_kind_tail(tail, rec),
    ensures
        tail == seq!['\t'] + signed(p.applied_time_of_day as int) + seq!['\t'] + signed(p.upper_price as int) + seq!['\t']
            + signed(p.lower_price as int) + seq!['\t'] + signed(p.sequence as int) + seq!['\t'] + lossy_text(p.board_id@)
            + seq!['\t'] + lossy_text(p.information_category@) + seq!['\t'] + signed(p.upper_stage as int) + seq!['\t']
            + signed(p.lower_stage as int) + seq!['\n'],
{
    assert(tail == price_limit_cols(p) + seq!['\n']);
    assert(tail =~= seq!['\t'] + signed(p.applied_time_of_day as int) + seq!['\t'] + signed(p.upper_price as int)
        + seq!['\t'] + signed(p.lower_price as int) + seq!['\t'] + signed(p.sequence as int) + seq!['\t'] + lossy_text(
        p.board_id@,
    ) + seq!['\t'] + lossy_text(p.information_category@) + seq!['\t'] + signed(p.upper_stage as int) + seq!['\t']
        + signed(p.lower_stage as int) + seq!['\n']);
}

/// The line of a dynamic-price-limit record goes on with `applied_tod
/// upper lower sequence board category action` and ends.
pub proof fn law_dynamic_price_limit_columns(rec: WireRecord, p: DynamicPriceLimitPayload, tail: Seq<char>)
    requires
        decode_kind(rec.header.kind) == Ok::<WireKind, crate::error::WireError>(WireKind::DynamicPriceLimit),
        dynamic_price_limit_at(rec.payload_image(), 0, p),
        is_kind_tail(tail, rec),
    ensures
        tail == seq!['\t'] + signed(p.applied_time_of_day as int) + seq!['\t'] + signed(p.upper_price as int) + seq!['\t']
            + signed(p.lower_price as int) + seq!['\t'] + signed(p.sequence as int) + seq!['\t'] + lossy_text(p.board_id@)
            + seq!['\t'] + lossy_text(p.information_category@) + seq!['\t'] + signed(p.action as int) + seq!['\n'],
{
    assert(tail == dynamic_price_limit_cols(p) + seq!['\n']);
    assert(tail =~= seq!['\t'] + signed(p.applied_time_of_day as int) + seq!['\t'] + signed(p.upper_price as int)
        + seq!['\t'] + signed(p.lower_price as int) + seq!['\t'] + signed(p.sequence as int) + seq!['\t'] + lossy_text(
        p.board_id@,
    ) + seq!['\t'] + lossy_text(p.information_category@) + seq!['\t'] + signed(p.action as int) + seq!['\n']);
}

/// The line of a trade record goes on with `price qty trade_kind
/// trade_flags cumulative_qty dyn_upper dyn_lower trade_yield` and ends.
pub proof fn law_trade_columns(rec: WireRecord, t: TradePayload, tail: Seq<char>)
    requires
        decode_kind(rec.header.kind) == Ok::<WireKind, crate::error::WireError>(WireKind::Trade),
        trade_at(rec.payload_image(), 0, t),
        is_kind_tail(tail, rec),
    ensures
        tail == seq!['\t'] + signed(t.price as int) + seq!['\t'] + signed(t.qty as int) + seq!['\t'] + signed(
            t.trade_kind as int,
        ) + seq!['\t'] + signed(t.trade_flags as int) + seq!['\t'] + signed(t.cumulative_qty as int) + seq!['\t']
            + signed(t.dyn_upper as int) + seq!['\t'] + signed(t.dyn_lower as int) + seq!['\t'] + signed(
            t.trade_yield as int,
        ) + seq!['\n'],
{
    assert(tail == trade_cols(t) + seq!['\n']);
    assert(tail =~= seq!['\t'] + signed(t.price as int) + seq!['\t'] + signed(t.qty as int) + seq!['\t'] + signed(
        t.trade_kind as int,
    ) + seq!['\t'] + signed(t.trade_flags as int) + seq!['\t'] + signed(t.cumulative_qty as int) + seq!['\t']
        + signed(t.dyn_upper as int) + seq!['\t'] + signed(t.dyn_lower as int) + seq!['\t'] + signed(
        t.trade_yield as int,
    ) + seq!['\n']);
}

/// The line of a quote record goes on with `quote_ext_kind quote_ext
/// level_flags`, then the ten bid levels, innermost first, then the ten
/// ask levels, each `price qty count`, and ends.
pub proof fn law_quote_columns(rec: WireRecord, q: QuotePayload, tail: Seq<char>)
    requires
        decode_kind(rec.header.kind) == Ok::<WireKind, crate::error::WireError>(WireKind::Quote),
        quote_at(rec.payload_image(), 0, q),
        is_kind_tail(tail, rec),
    ensures
        tail == tab_num(q.quote_ext_kind as int) + tab_num(q.quote_ext as int) + tab_num(q.level_flags as int) + tsv_side(
            q.bid@,
        ) + tsv_side(q.ask@) + seq!['\n'],
{
    lemma_side_cols(q.bid@);
    lemma_side_cols(q.ask@);
    assert(tail == quote_cols(q) + seq!['\n']);
}

/// The line of a market schedule notice goes on with `event_tod
/// expected_tod board_event_group category product board event action
/// session halt_reason halt_type step direction flags` and ends.
pub proof fn law_schedule_columns(rec: WireRecord, m: MarketSchedulePayload, tail: Seq<char>)
    requires
        decode_kind(rec.header.kind) == Ok::<WireKind, crate::error::WireError>(WireKind::MarketSchedule),
        market_schedule_at(rec.payload_image(), 0, m),
        is_kind_tail(tail, rec),
    ensures
        tail == tab_num(m.event_time_of_day as int) + tab_num(m.expected_time_of_day as int) + tab_num(
            m.board_event_group as int,
        ) + seq!['\t'] + lossy_text(m.information_category@) + seq!['\t'] + lossy_text(m.product_id@) + seq!['\t']
            + lossy_text(m.board_id@) + seq!['\t'] + lossy_text(m.board_event_id@) + seq!['\t'] + lossy_text(
            m.session_action@,
        ) + seq!['\t'] + lossy_text(m.session_id@) + seq!['\t'] + lossy_text(m.halt_reason@) + tab_num(m.halt_type as int)
            + tab_num(m.step as int) + tab_num(m.expansion_direction as int) + tab_num(m.schedule_flags as int) + seq!['\n'],
{
    assert(tail == schedule_cols(m) + seq!['\n']);
}

/// The columns every line starts with, in order: the trcode, the kind's
/// name, the symbol without its padding, then `venue_ns recv_ns flags depth
/// price_scale qty_scale` from the header.
pub proof fn law_common_columns(code: Seq<u8>, h: RecordHeader)
    ensures
        common_cols(code, h) == ascii_text(code) + seq!['\t'] + (match decode_kind(h.kind) {
            Ok(k) => kind_label(k)@,
            Err(_) => seq!['?'],
        }) + seq!['\t'] + lossy_text(h.symbol@.subrange(0, symbol_len(h.symbol@) as int)) + tab_num(h.venue_ns as int)
            + tab_num(h.recv_ns as int) + tab_num(h.flags as int) + tab_num(h.depth as int) + tab_num(
            h.price_scale as int,
        ) + tab_num(h.qty_scale as int),
{
    assert(common_cols(code, h) =~= ascii_text(code) + seq!['\t'] + (match decode_kind(h.kind) {
        Ok(k) => kind_label(k)@,
        Err(_) => seq!['?'],
    }) + seq!['\t'] + lossy_text(h.symbol@.subrange(0, symbol_len(h.symbol@) as int)) + tab_num(h.venue_ns as int)
        + tab_num(h.recv_ns as int) + tab_num(h.flags as int) + tab_num(h.depth as int) + tab_num(h.price_scale as int)
        + tab_num(h.qty_scale as int));
}

/// Bytes after a whole datagram are never part of it: a frame padded to the
/// Ethernet minimum, or followed by anything at all, unwraps to the same
/// datagram.
pub proof fn law_padding_is_not_payload(f: Seq<u8>, extra: Seq<u8>)
    requires
        frame_layout(f) is Ok,
    ensures
        frame_layout(f + extra) == frame_layout(f),
{
    let g = f + extra;
    lemma_final_ethertype_extends(f, extra, 12);
    lemma_final_ethertype_bounds(f, 12);
    let at = final_ethertype(f, 12)->0;
    let ip = at + 2;
    let ihl = (f[ip] % 16) * 4;
    let udp = ip + ihl;
    assert(g[at] == f[at] && g[at + 1] == f[at + 1]);
    assert(g[ip] == f[ip] && g[ip + 9] == f[ip + 9]);
    assert(g[ip + 6] == f[ip + 6] && g[ip + 7] == f[ip + 7]);
    assert(g[udp + 4] == f[udp + 4] && g[udp + 5] == f[udp + 5]);
}

/// `f` with a VLAN tag of protocol `tpid` (0x8100 for 802.1Q, 0x88a8 for
/// 802.1ad) carrying `tci` inserted after the two MAC addresses.
pub open spec fn vlan_tagged(f: Seq<u8>, tpid: u16, tci: u16) -> Seq<u8> {
    f.subrange(0, 12) + seq![(tpid / 256) as u8, (tpid % 256) as u8, (tci / 256) as u8, (tci % 256) as u8]
        + f.subrange(12, f.len() as int)
}

proof fn lemma_final_ethertype_tagged(f: Seq<u8>, tpid: u16, tci: u16, at: int)
    requires
        f.len() >= 14,
        at >= 12,
    ensures
        final_ethertype(vlan_tagged(f, tpid, tci), at + 4) == (match final_ethertype(f, at) {
            Some(x) => Some(x + 4),
            None => None::<int>,
        }),
    decreases f.len() - at,
{
    let g = vlan_tagged(f, tpid, tci);
    assert(g.len() == f.len() + 4);
    if at + 2 <= f.len() {
        assert(g[at + 4] == f[at] && g[at + 5] == f[at + 1]);
        if is_vlan_tag(be16_at(f, at)) && f.len() >= at + 6 {
            lemma_final_ethertype_tagged(f, tpid, tci, at + 4);
        }
    }
}

/// A VLAN tag, 802.1Q or 802.1ad, changes nothing about the datagram a
/// frame carries: the tagged frame's IPv4 and UDP headers sit four bytes
/// later and hold the same values.
pub proof fn law_vlan_tag_is_transparent(f: Seq<u8>, tpid: u16, tci: u16)
    requires
        f.len() >= 14,
        is_vlan_tag(tpid as int),
    ensures
        frame_layout(vlan_tagged(f, tpid, tci)) == (match frame_layout(f) {
            Ok((ip, udp, len)) => Ok((ip + 4, udp + 4, len)),
            Err(e) => Err(e),
        }),
        forall|i: int| 12 <= i < f.len() ==> vlan_tagged(f, tpid, tci)[i + 4] == f[i],
{
    let g = vlan_tagged(f, tpid, tci);
    assert(g[12] == (tpid / 256) as u8 && g[13] == (tpid % 256) as u8);
    assert(be16_at(g, 12) == tpid);
    assert(forall|i: int| 12 <= i < f.len() ==> g[i + 4] == f[i]);
    lemma_final_ethertype_tagged(f, tpid, tci, 12);
    assert(final_ethertype(g, 12) == final_ethertype(g, 16));
    match final_ethertype(f, 12) {
        Some(at) => {
            lemma_final_ethertype_bounds(f, 12);
            let ip = at + 2;
            if f.len() - ip >= 20 {
                assert(g[ip + 4] == f[ip] && g[ip + 13] == f[ip + 9]);
                assert(g[ip + 10] == f[ip + 6] && g[ip + 11] == f[ip + 7]);
                assert(g[at + 4] == f[at] && g[at + 5] == f[at + 1]);
                let ihl = (f[ip] % 16) * 4;
                let udp = ip + ihl;
                if ihl >= 20 && f.len() - ip >= ihl && f.len() - udp >= 8 {
                    assert(g[udp + 8] == f[udp + 4] && g[udp + 9] == f[udp + 5]);
                }
            }
        },
        None => {},
    }
}

proof fn lemma_final_ethertype_cut(f: Seq<u8>, n: int, at: int)
    requires
        0 <= n <= f.len(),
        final_ethertype(f, at) is Some,
    ensures
        final_ethertype(f.subrange(0, n), at) == (if n >= final_ethertype(f, at)->0 + 2 {
            final_ethertype(f, at)
        } else {
            None::<int>
        }),
    decreases f.len() - at,
{
    let g = f.subrange(0, n);
    lemma_final_ethertype_bounds(f, at);
    if at + 2 <= n {
        assert(g[at] == f[at] && g[at + 1] == f[at + 1]);
        if is_vlan_tag(be16_at(f, at)) {
            lemma_final_ethertype_bounds(f, at + 4);
            if n >= at + 6 {
                lemma_final_ethertype_cut(f, n, at + 4);
            }
        }
    }
}

/// A frame cut anywhere before the end of its datagram, inside the Ethernet
/// header, a VLAN tag, the IPv4 or UDP header or the payload, is refused as
/// `Short`.
pub proof fn law_a_cut_frame_is_short(f: Seq<u8>, n: int)
    requires
        frame_layout(f) matches Ok((ip, udp, len)) && 0 <= n < udp + len,
    ensures
        frame_layout(f.subrange(0, n)) == Err::<(int, int, int), Skip>(Skip::Short),
{
    let g = f.subrange(0, n);
    if n >= 14 {
        lemma_final_ethertype_cut(f, n, 12);
        lemma_final_ethertype_bounds(f, 12);
        let at = final_ethertype(f, 12)->0;
        let ip = at + 2;
        if n >= at + 2 {
            assert(g[at] == f[at] && g[at + 1] == f[at + 1]);
            if n - ip >= 20 {
                assert(g[ip] == f[ip] && g[ip + 9] == f[ip + 9]);
                assert(g[ip + 6] == f[ip + 6] && g[ip + 7] == f[ip + 7]);
                let ihl = (f[ip] % 16) * 4;
                let udp = ip + ihl;
                if n - ip >= ihl && n - udp >= 8 {
                    assert(g[udp + 4] == f[udp + 4] && g[udp + 5] == f[udp + 5]);
                }
            }
        }
    }
}

// ---------------------------------------------------------------------------
// Reading a whole capture
// ---------------------------------------------------------------------------

/// What reading the records of `rest` one after another gives, `packets`
/// packets in: each packet read, as `(ts_ns, bytes, original)`, and how the
/// reading ends, `Ok` at a clean end or the error that stops it.
#[verifier::opaque]
pub open spec fn read_all(rest: Seq<u8>, swap: bool, nanos: bool, packets: u64) -> (Seq<(int, Seq<u8>, int)>, Result<(), PcapError>)
    decreases rest.len(),
{
    match next_record(rest, swap, nanos, packets) {
        Err(e) => (Seq::empty(), Err(e)),
        Ok(None) => (Seq::empty(), Ok(())),
        Ok(Some((ts, captured, original))) => if 16 + captured <= rest.len() && packets < u64::MAX {
            let (more, end) = read_all(rest.subrange(16 + captured, rest.len() as int), swap, nanos, (packets + 1) as u64);
            (seq![(ts, rest.subrange(16, 16 + captured), original)] + more, end)
        } else {
            (Seq::empty(), Ok(()))
        },
    }
}

/// `r` is one whole packet record: a 16-byte header whose captured length
/// is at most [`MAX_CAPTURED`], then exactly that many bytes.
pub open spec fn whole_record(r: Seq<u8>, swap: bool) -> bool {
    r.len() >= 16 && word_at(r, 8, swap) <= MAX_CAPTURED && r.len() == 16 + word_at(r, 8, swap)
}

/// `c` is a packet record cut short: some of its bytes, not all of them.
pub open spec fn cut_record(c: Seq<u8>, swap: bool) -> bool {
    0 < c.len() && (c.len() < 16 || (word_at(c, 8, swap) <= MAX_CAPTURED && c.len() < 16 + word_at(c, 8, swap)))
}

/// What a whole record holds, as `(ts_ns, bytes, original)`.
pub open spec fn record_packet(r: Seq<u8>, swap: bool, nanos: bool) -> (int, Seq<u8>, int) {
    let unit: int = if nanos { 1 } else { 1000 };
    (word_at(r, 0, swap) * 1_000_000_000 + word_at(r, 4, swap) * unit, r.subrange(16, r.len() as int), word_at(r, 12, swap))
}

proof fn lemma_record_then(r: Seq<u8>, t: Seq<u8>, swap: bool, nanos: bool, packets: u64)
    requires
        whole_record(r, swap),
    ensures
        next_record(r + t, swap, nanos, packets) == Ok::<Option<(int, int, int)>, PcapError>(
            Some((record_packet(r, swap, nanos).0, word_at(r, 8, swap), record_packet(r, swap, nanos).2)),
        ),
        (r + t).subrange(16, 16 + word_at(r, 8, swap)) == record_packet(r, swap, nanos).1,
        (r + t).subrange(16 + word_at(r, 8, swap), (r + t).len() as int) == t,
{
    let rest = r + t;
    let captured = word_at(r, 8, swap);
    assert(word_at(rest, 8, swap) == captured) by {
        assert(rest[8] == r[8] && rest[9] == r[9] && rest[10] == r[10] && rest[11] == r[11]);
    }
    assert(word_at(rest, 0, swap) == word_at(r, 0, swap)) by {
        assert(rest[0] == r[0] && rest[1] == r[1] && rest[2] == r[2] && rest[3] == r[3]);
    }
    assert(word_at(rest, 4, swap) == word_at(r, 4, swap)) by {
        assert(rest[4] == r[4] && rest[5] == r[5] && rest[6] == r[6] && rest[7] == r[7]);
    }
    assert(word_at(rest, 12, swap) == word_at(r, 12, swap)) by {
        assert(rest[12] == r[12] && rest[13] == r[13] && rest[14] == r[14] && rest[15] == r[15]);
    }
    assert(rest.subrange(16, 16 + captured) =~= r.subrange(16, r.len() as int));
    assert(rest.subrange(16 + captured, rest.len() as int) =~= t);
}

proof fn lemma_cut_is_truncated(cut: Seq<u8>, swap: bool, nanos: bool, packets: u64)
    requires
        cut.len() == 0 || cut_record(cut, swap),
    ensures
        read_all(cut, swap, nanos, packets) == (
            Seq::<(int, Seq<u8>, int)>::empty(),
            if cut.len() == 0 {
                Ok::<(), PcapError>(())
            } else {
                Err::<(), PcapError>(PcapError::Truncated { packet: packets })
            },
        ),
{
    reveal(read_all);
}

proof fn lemma_read_all_step(rest: Seq<u8>, swap: bool, nanos: bool, packets: u64)
    requires
        next_record(rest, swap, nanos, packets) is Ok,
        next_record(rest, swap, nanos, packets)->Ok_0 is Some,
        packets < u64::MAX,
    ensures
        ({
            let (ts, captured, original) = next_record(rest, swap, nanos, packets)->Ok_0->Some_0;
            let next = read_all(rest.subrange(16 + captured, rest.len() as int), swap, nanos, (packets + 1) as u64);
            read_all(rest, swap, nanos, packets) == (seq![(ts, rest.subrange(16, 16 + captured), original)] + next.0, next.1)
        }),
{
    reveal(read_all);
}

/// Whole records followed by a cut one read as every whole packet, in
/// order, then `Truncated` naming the packet cut; with nothing after them,
/// as every packet and a clean end.
pub proof fn law_whole_packets_then_the_cut(records: Seq<Seq<u8>>, cut: Seq<u8>, swap: bool, nanos: bool, packets: u64)
    requires
        forall|i: int| 0 <= i < records.len() ==> whole_record(#[trigger] records[i], swap),
        cut.len() == 0 || cut_record(cut, swap),
        packets + records.len() < u64::MAX,
    ensures
        read_all(records.flatten() + cut, swap, nanos, packets) == (
            records.map_values(|r: Seq<u8>| record_packet(r, swap, nanos)),
            if cut.len() == 0 {
                Ok::<(), PcapError>(())
            } else {
                Err::<(), PcapError>(PcapError::Truncated { packet: (packets + records.len()) as u64 })
            },
        ),
    decreases records.len(),
{
    if records.len() == 0 {
        assert(records.flatten() + cut =~= cut);
        assert(records.map_values(|r: Seq<u8>| record_packet(r, swap, nanos)) =~= Seq::<(int, Seq<u8>, int)>::empty());
        lemma_cut_is_truncated(cut, swap, nanos, packets);
    } else {
        let r = records[0];
        let tail = records.drop_first();
        let t = tail.flatten() + cut;
        assert(records.flatten() == r + tail.flatten());
        assert(records.flatten() + cut =~= r + t);
        assert(whole_record(r, swap));
        lemma_record_then(r, t, swap, nanos, packets);
        assert forall|i: int| 0 <= i < tail.len() implies whole_record(#[trigger] tail[i], swap) by {
            assert(tail[i] == records[i + 1]);
        }
        law_whole_packets_then_the_cut(tail, cut, swap, nanos, (packets + 1) as u64);
        lemma_read_all_step(r + t, swap, nanos, packets);
        assert(records.map_values(|r: Seq<u8>| record_packet(r, swap, nanos)) =~= seq![record_packet(r, swap, nanos)]
            + tail.map_values(|r: Seq<u8>| record_packet(r, swap, nanos)));
    }
}

} // verus!
