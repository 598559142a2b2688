//! Captures: the libpcap file and the frames inside it.
//!
//! The capture is synthesised here byte for byte: a libpcap header, Ethernet,
//! IPv4 and UDP around a payload.

use jeed::pcap::{
    Datagram, MAGIC_MICROS, MAGIC_NANOS, Packet, PacketTally, PcapError, PortTally, Reader, Skip, datagram, write_tsv,
    write_tsv_header,
};
use jeed::{QuotePayload, RecordHeader, Scale, TradePayload, Venue, WireKind, WireLevel, WireRecord, symbol_from_bytes};

const GROUP: [u8; 4] = [233, 38, 231, 92];
const PORT: u16 = 13302;
const RECV_NS: u64 = 1_785_455_100_003_679_000;

/// Reads a capture the way a replay reads a file: the file header, then per
/// packet its record header and the bytes that header announces, each taken
/// as far as the file goes.
struct Capture<'f> {
    reader: Reader,
    file: &'f [u8],
    at: usize,
}

impl<'f> Capture<'f> {
    fn new(file: &'f [u8]) -> Result<Self, PcapError> {
        let n = file.len().min(24);
        let reader = Reader::new(&file[..n])?;
        Ok(Self { reader, file, at: n })
    }

    fn take(&mut self, n: usize) -> &'f [u8] {
        let end = (self.at + n).min(self.file.len());
        let bytes = &self.file[self.at..end];
        self.at = end;
        bytes
    }

    fn next_packet(&mut self) -> Result<Option<Packet<'f>>, PcapError> {
        let head = self.take(16);
        let Some(h) = self.reader.record_head(head)? else {
            return Ok(None);
        };
        let body = self.take(h.captured);
        self.reader.next_packet(h, body).map(Some)
    }

    fn packets(&self) -> u64 {
        self.reader.packets()
    }
}

/// An Ethernet frame carrying one UDP datagram to `dst:port`.
fn frame(dst: [u8; 4], port: u16, payload: &[u8]) -> Vec<u8> {
    let mut f = Vec::new();
    f.extend_from_slice(&[0x01, 0x00, 0x5e, 0x26, 0xe7, 0x5c]);
    f.extend_from_slice(&[0xc8, 0x60, 0x8f, 0x15, 0xaa, 0x41]);
    f.extend_from_slice(&[0x08, 0x00]);
    let ip_len = 20 + 8 + payload.len();
    f.extend_from_slice(&[0x45, 0x00]);
    f.extend_from_slice(&(ip_len as u16).to_be_bytes());
    f.extend_from_slice(&[0x5f, 0xf4, 0x40, 0x00, 0x7b, 17, 0, 0]);
    f.extend_from_slice(&[192, 168, 21, 10]);
    f.extend_from_slice(&dst);
    f.extend_from_slice(&30001u16.to_be_bytes());
    f.extend_from_slice(&port.to_be_bytes());
    f.extend_from_slice(&((8 + payload.len()) as u16).to_be_bytes());
    f.extend_from_slice(&[0, 0]);
    f.extend_from_slice(payload);
    f
}

/// The same frame behind an 802.1Q tag.
fn tagged(frame: &[u8]) -> Vec<u8> {
    let mut f = frame[..12].to_vec();
    f.extend_from_slice(&[0x81, 0x00, 0x00, 0x64]);
    f.extend_from_slice(&frame[12..]);
    f
}

/// A classic libpcap file (little-endian, microseconds, Ethernet).
fn pcap(packets: &[(u64, &[u8])]) -> Vec<u8> {
    let mut out = Vec::new();
    out.extend_from_slice(&MAGIC_MICROS.to_le_bytes());
    out.extend_from_slice(&2u16.to_le_bytes());
    out.extend_from_slice(&4u16.to_le_bytes());
    out.extend_from_slice(&[0; 8]);
    out.extend_from_slice(&262_144u32.to_le_bytes());
    out.extend_from_slice(&1u32.to_le_bytes());
    for (ts_ns, bytes) in packets {
        out.extend_from_slice(&((ts_ns / 1_000_000_000) as u32).to_le_bytes());
        out.extend_from_slice(&(((ts_ns % 1_000_000_000) / 1_000) as u32).to_le_bytes());
        out.extend_from_slice(&(bytes.len() as u32).to_le_bytes());
        out.extend_from_slice(&(bytes.len() as u32).to_le_bytes());
        out.extend_from_slice(bytes);
    }
    out
}

#[test]
fn datagram_unwraps_ethernet_ipv4_udp() {
    let payload = b"B601F hello\xff";
    let f = frame(GROUP, PORT, payload);
    let d = datagram(&f).unwrap();
    assert_eq!(d.dst, GROUP);
    assert_eq!(d.port, PORT);
    assert_eq!(d.payload, payload);

    // Behind a VLAN tag, the same datagram.
    assert_eq!(datagram(&tagged(&f)).unwrap(), d);

    // Ethernet padding past the UDP length is not payload.
    let mut padded = f.clone();
    padded.extend_from_slice(&[0xaa; 20]);
    assert_eq!(datagram(&padded).unwrap().payload, payload);

    let mut arp = f[..12].to_vec();
    arp.extend_from_slice(&[0x08, 0x06, 0, 0]);
    assert_eq!(datagram(&arp), Err(Skip::NotIpv4));

    let mut tcp = f.clone();
    tcp[23] = 6;
    assert_eq!(datagram(&tcp), Err(Skip::NotUdp));

    let mut frag = f.clone();
    frag[21] = 0x05; // fragment offset 5
    assert_eq!(datagram(&frag), Err(Skip::Fragment));

    // Cut inside the UDP header, and cut inside the payload.
    assert_eq!(datagram(&f[..38]), Err(Skip::Short));
    assert_eq!(datagram(&f[..f.len() - 3]), Err(Skip::Short));
    assert_eq!(datagram(&f[..10]), Err(Skip::Short));
}

#[test]
fn a_chain_of_tags_cut_short_is_short_and_a_q_in_q_tag_is_unwrapped() {
    let f = frame(GROUP, PORT, b"B601F\xff");
    let mut qinq = f[..12].to_vec();
    qinq.extend_from_slice(&[0x88, 0xa8, 0x00, 0x01, 0x81, 0x00, 0x00, 0x64]);
    qinq.extend_from_slice(&f[12..]);
    assert_eq!(datagram(&qinq).unwrap().port, PORT);
    assert_eq!(datagram(&qinq[..17]), Err(Skip::Short));
    let mut v6 = f.clone();
    v6[14] = 0x65;
    assert_eq!(datagram(&v6), Err(Skip::NotIpv4));
}

#[test]
fn the_reader_takes_both_magics_in_both_byte_orders() {
    let f = frame(GROUP, PORT, b"B601F\xff");
    // Nanosecond magic, big-endian.
    let mut file = Vec::new();
    file.extend_from_slice(&MAGIC_NANOS.to_be_bytes());
    file.extend_from_slice(&2u16.to_be_bytes());
    file.extend_from_slice(&4u16.to_be_bytes());
    file.extend_from_slice(&[0; 8]);
    file.extend_from_slice(&65_535u32.to_be_bytes());
    file.extend_from_slice(&1u32.to_be_bytes());
    file.extend_from_slice(&1_786_046_401u32.to_be_bytes());
    file.extend_from_slice(&896_314_500u32.to_be_bytes());
    file.extend_from_slice(&(f.len() as u32).to_be_bytes());
    file.extend_from_slice(&((f.len() + 40) as u32).to_be_bytes());
    file.extend_from_slice(&f);

    let mut r = Capture::new(&file).unwrap();
    let p = r.next_packet().unwrap().unwrap();
    assert_eq!(p.ts_ns, 1_786_046_401_896_314_500);
    assert_eq!(p.bytes, &f[..]);
    assert_eq!(p.original, f.len() + 40);
    assert!(p.truncated());
    assert!(r.next_packet().unwrap().is_none());
    assert_eq!(r.packets(), 1);

    // Microsecond magic, little-endian, is the synthesiser's own.
    let file = pcap(&[(RECV_NS, &f)]);
    let mut r = Capture::new(&file).unwrap();
    let p = r.next_packet().unwrap().unwrap();
    assert_eq!(p.ts_ns, RECV_NS);
    assert!(!p.truncated());
}

#[test]
fn a_file_cut_inside_a_packet_is_truncated_after_the_whole_ones() {
    let f = frame(GROUP, PORT, b"B601F\xff");
    let file = pcap(&[(RECV_NS, &f), (RECV_NS + 1, &f)]);
    let cut = file[..file.len() - 5].to_vec();
    let mut r = Capture::new(&cut).unwrap();
    assert!(r.next_packet().unwrap().is_some());
    assert!(matches!(r.next_packet(), Err(PcapError::Truncated { packet: 1 })));

    // Cut inside the second packet's header.
    let cut = file[..file.len() - f.len() - 3].to_vec();
    let mut r = Capture::new(&cut).unwrap();
    assert!(r.next_packet().unwrap().is_some());
    assert!(matches!(r.next_packet(), Err(PcapError::Truncated { packet: 1 })));

    // Cut inside the file header.
    assert!(matches!(Capture::new(&file[..10]), Err(PcapError::Truncated { packet: 0 })));
}

#[test]
fn a_wrong_magic_or_link_type_is_refused_by_name() {
    let mut file = pcap(&[]);
    file[0] = 0x0a;
    file[1] = 0x0d;
    file[2] = 0x0d;
    file[3] = 0x0a;
    assert!(matches!(Capture::new(&file), Err(PcapError::Magic(0x0a0d_0d0a))));

    let mut file = pcap(&[]);
    file[20] = 113; // Linux cooked
    assert!(matches!(Capture::new(&file), Err(PcapError::LinkType(113))));

    let mut file = pcap(&[]);
    file.extend_from_slice(&[0; 8]);
    file.extend_from_slice(&(1u32 << 30).to_le_bytes());
    file.extend_from_slice(&(1u32 << 30).to_le_bytes());
    let mut r = Capture::new(&file).unwrap();
    assert!(matches!(r.next_packet(), Err(PcapError::Length { packet: 0, captured }) if captured == 1 << 30));
}

#[test]
fn packets_are_tallied_by_what_they_carried() {
    let good = frame(GROUP, PORT, b"B601F hello\xff");
    let mut tcp = good.clone();
    tcp[23] = 6;
    let mut arp = good[..12].to_vec();
    arp.extend_from_slice(&[0x08, 0x06, 0, 0]);
    let file = pcap(&[(RECV_NS, &good), (RECV_NS + 1_000, &tcp), (RECV_NS + 2_000, &arp), (RECV_NS + 3_000, &good[..30])]);
    let mut r = Capture::new(&file).unwrap();
    let mut t = PacketTally::default();
    let mut datagrams: Vec<Datagram> = Vec::new();
    let mut sizes = Vec::new();
    while let Some(p) = r.next_packet().unwrap() {
        if let Ok(d) = t.packet(&p) {
            sizes.push(d.payload.len());
            datagrams.push(Datagram { dst: d.dst, port: d.port, payload: &[] });
        }
    }
    for n in sizes {
        t.datagram(n);
    }
    assert_eq!(t.packets, 4);
    assert_eq!(t.not_udp, 1);
    assert_eq!(t.not_ipv4, 1);
    assert_eq!(t.short, 1);
    assert_eq!(t.datagrams, 1);
    assert_eq!(t.bytes, 12);
    assert_eq!(t.first_ns, RECV_NS);
    assert_eq!(t.last_ns, RECV_NS + 3_000);
    assert_eq!(datagrams[0].port, PORT);
}

#[test]
fn a_port_counts_datagrams_and_codes() {
    let mut p = PortTally::default();
    p.saw(Some(7));
    p.saw(Some(7));
    p.saw(None);
    p.saw(Some(9));
    assert_eq!(p.received, 4);
    assert_eq!(p.codes[&7], 2);
    assert_eq!(p.codes[&9], 1);
    assert_eq!(p.codes.len(), 2);
}

#[test]
fn capture_errors_read_as_sentences() {
    assert_eq!(PcapError::Magic(0x0a0d_0d0a).to_string(), "not a libpcap file (magic 0x0a0d0d0a)");
    assert_eq!(PcapError::LinkType(113).to_string(), "link type 113 is not Ethernet (1)");
    assert_eq!(PcapError::Truncated { packet: 3 }.to_string(), "file ends inside packet 3");
    assert_eq!(
        PcapError::Length { packet: 0, captured: 1 << 30 }.to_string(),
        "packet 0 claims 1073741824 bytes, more than 1048576"
    );
    assert_eq!(Skip::Fragment.to_string(), "IP fragment");
    assert_eq!(Skip::Short.to_string(), "shorter than its headers");
}

#[test]
fn a_published_record_dumps_as_one_tab_separated_line() {

    let mut out = String::new();
    write_tsv_header(&mut out);
    assert!(out.starts_with("trcode\tkind\tsymbol"));
    assert!(out.ends_with('\n'));

    let mut q = QuotePayload::default();
    q.set_ask(0, WireLevel::with_count(93705, 10, 3));
    q.set_bid(0, WireLevel::with_count(93695, 8, 2));
    q.with_order_counts();
    let mut h = RecordHeader::new(WireKind::Quote, Venue::Krx, symbol_from_bytes(b"KR4101V90009").unwrap(), RECV_NS);
    h.set_scales(Scale::S2, Scale::S0);
    h.set_depth(5);
    h.set_venue_time(1_785_455_100_000_000_000);
    let rec = WireRecord::new_quote(h, q);

    let mut line = String::new();
    write_tsv(&mut line, b"B601F", &rec);
    assert!(line.ends_with('\n'));
    let cols: Vec<&str> = line.trim_end_matches('\n').split('\t').collect();
    assert_eq!(&cols[..4], &["B601F", "Quote", "KR4101V90009", "1785455100000000000"]);
    assert_eq!(cols[4], RECV_NS.to_string());
    assert_eq!(cols[6], "5", "depth");
    assert_eq!(cols[7], "2", "price scale");
    assert_eq!(&cols[12..15], &["93695", "8", "2"], "bid 0: price qty count");
    assert_eq!(&cols[42..45], &["93705", "10", "3"], "ask 0");
    assert_eq!(cols.len(), 12 + 60);

    let mut t = TradePayload::new(-5, 2);
    t.with_yield(-3);
    let trade = WireRecord::new_trade(RecordHeader::new(WireKind::Trade, Venue::Krx, symbol_from_bytes(b"X").unwrap(), 1), t);
    let mut line = String::new();
    write_tsv(&mut line, b"A301F", &trade);
    let cols: Vec<&str> = line.trim_end_matches('\n').split('\t').collect();
    assert_eq!(cols[1], "Trade");
    assert_eq!(&cols[9..11], &["-5", "2"]);
    assert_eq!(cols[16], "-3");
    assert_eq!(cols.len(), 9 + 8);

    let mut line = String::new();
    write_tsv(&mut line, b"B601F", &WireRecord::zeroed());
    assert!(line.starts_with("B601F\t?\t\t0\t0\t"), "{line}");
}

#[test]
fn text_columns_read_as_utf8() {
    let symbol = symbol_from_bytes("é\u{ff}".as_bytes()).unwrap();
    let rec = WireRecord::new_trade(
        RecordHeader::new(WireKind::Trade, Venue::Krx, symbol, 1),
        TradePayload::new(1, 1),
    );
    let mut line = String::new();
    write_tsv(&mut line, b"A301F", &rec);
    let cols: Vec<&str> = line.trim_end_matches('\n').split('\t').collect();
    assert_eq!(cols[2], "é\u{ff}");

    let mut bytes = "é".as_bytes().to_vec();
    bytes.push(0xff);
    let rec = WireRecord::new_trade(
        RecordHeader::new(WireKind::Trade, Venue::Krx, symbol_from_bytes(&bytes).unwrap(), 1),
        TradePayload::new(1, 1),
    );
    let mut line = String::new();
    write_tsv(&mut line, b"A301F", &rec);
    let cols: Vec<&str> = line.trim_end_matches('\n').split('\t').collect();
    assert_eq!(cols[2], "é\u{fffd}", "an invalid byte is replaced, a valid sequence kept");
}

#[test]
fn a_record_is_read_in_two_steps() {
    let f = frame(GROUP, PORT, b"B601F\xff");
    let file = pcap(&[(RECV_NS, &f)]);
    let r = Reader::new(&file[..24]).unwrap();
    assert!(matches!(r.record_head(&[]), Ok(None)), "nothing left is a clean end");
    assert!(matches!(r.record_head(&file[24..30]), Err(PcapError::Truncated { packet: 0 })));
    let h = r.record_head(&file[24..40]).unwrap().unwrap();
    assert_eq!(h.ts_ns, RECV_NS);
    assert_eq!(h.captured, f.len());
    assert_eq!(h.original, f.len());

    let mut r = Reader::new(&file[..24]).unwrap();
    assert!(matches!(r.next_packet(h, &file[40..file.len() - 1]), Err(PcapError::Truncated { packet: 0 })));
    assert_eq!(r.packets(), 0, "a cut packet does not count");
    let p = r.next_packet(h, &file[40..]).unwrap();
    assert_eq!(p.bytes, &f[..]);
    assert_eq!(r.packets(), 1);
}
