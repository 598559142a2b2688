//! The FIX venue layer: decoded market data becomes wire records.
//!
//! A full refresh (`35=W`) becomes one book snapshot, each trade of an
//! incremental (`35=X`) one trade record, and anything ambiguous is refused
//! rather than guessed: an incremental entry that moves the book has no wire
//! record to carry it, and a level with no size and no configured default
//! cannot be published as a number the venue never sent.
//!
//! The session decodes the message; what the mapping reads of it is held
//! here as plain values. The records come back in publishing order with the
//! outcome, and whoever owns the ring publishes them.
use vstd::prelude::*;
use vstd::string::StringExecFns;

use crate::header::{RecordHeader, zeros};
use crate::kind::{WireKind, header_flags, kind_byte, trade_kind};
use crate::layout::{quote_at, trade_at};
use crate::payload::{QuotePayload, TradePayload, WireLevel, zero_level};
use crate::record::{WireRecord, zero_from};
use crate::types::{
    BookPrice, BookQuantity, Scale, Symbol, UnixNano, Venue, padded_symbol, scale_decimals, symbol_accepts,
    symbol_from_bytes, venue_byte,
};

verus! {

/// What a market data entry (`269`) is.
#[derive(Debug, Clone, Copy, PartialEq, Eq, Structural)]
pub enum EntryType {
    /// `269=0`.
    Bid,
    /// `269=1`.
    Offer,
    /// `269=2`.
    Trade,
    /// Anything else: a statistic, a session high, a VWAP.
    Other,
}

/// One entry of a decoded message, as the mapping reads it.
#[derive(Debug, Clone, PartialEq, Eq)]
pub struct MarketEntry {
    /// `269`.
    pub entry_type: EntryType,
    /// The book level, 0 innermost.
    pub level: u64,
    /// `270`, on the session's price scale.
    pub price: BookPrice,
    /// `271`, on the session's size scale; meaningful only with `has_size`.
    pub size: BookQuantity,
    /// Whether the entry carried a `271`.
    pub has_size: bool,
    /// The entry's instrument: its own `55`, or the message's.
    pub symbol: Vec<u8>,
    /// The entry's exchange time, if it carried one.
    pub venue_ns: Option<UnixNano>,
}

/// A decoded `35=W` or `35=X`, as the mapping reads it.
#[derive(Debug, Clone, PartialEq, Eq)]
pub struct MarketData {
    /// `35=W`: a full refresh.
    pub snapshot: bool,
    /// The message's `55`.
    pub symbol: Vec<u8>,
    /// The entries, in message order.
    pub entries: Vec<MarketEntry>,
    /// The message's exchange time, if it carried one.
    pub venue_ns: Option<UnixNano>,
    /// Number of bid levels the message carries.
    pub bid_depth: usize,
    /// Number of offer levels the message carries.
    pub offer_depth: usize,
}

/// The session's price and size scales.
#[derive(Debug, Clone, Copy, PartialEq, Eq, Structural)]
pub struct FixScales {
    /// Price scale.
    pub price: Scale,
    /// Size scale.
    pub quantity: Scale,
}

/// Why the adapter refused a message.
#[derive(Debug, Clone, Copy, PartialEq, Eq, Structural)]
pub enum AdaptError {
    /// A `35=X` entry that moves the book, which the wire has no delta record
    /// for yet.
    IncrementalBook,
    /// A level with no size and no `default_qty` in conf.
    NoSize,
    /// No `55` to key the record on.
    NoSymbol,
    /// A `55` longer than the header's symbol field.
    SymbolTooLong,
}

/// The venue layer, driven by conf: a full refresh becomes a book snapshot,
/// a trade becomes a trade, and anything ambiguous is refused.
#[derive(Debug, Clone, Copy, PartialEq, Eq, Structural)]
pub struct SnapshotAdapter {
    venue: Venue,
    scales: FixScales,
    default_qty: Option<u64>,
}

/// An adapter, as plain values: the venue it publishes as, the session's
/// scales, and the size for a level that carries none.
pub struct AdapterModel {
    pub venue: Venue,
    pub scales: FixScales,
    pub default_qty: Option<u64>,
}

impl View for SnapshotAdapter {
    type V = AdapterModel;

    closed spec fn view(&self) -> AdapterModel {
        AdapterModel { venue: self.venue, scales: self.scales, default_qty: self.default_qty }
    }
}

// ---------------------------------------------------------------------------
// What a message becomes
// ---------------------------------------------------------------------------

/// The size to publish for an entry.
pub open spec fn size_of(e: MarketEntry, default_qty: Option<u64>) -> Result<u64, AdaptError> {
    if e.has_size {
        Ok(e.size)
    } else {
        match default_qty {
            Some(q) => Ok(q),
            None => Err(AdaptError::NoSize),
        }
    }
}

/// The symbol field a venue symbol becomes.
pub open spec fn wire_symbol_of(b: Seq<u8>) -> Result<Seq<u8>, AdaptError> {
    if b.len() == 0 {
        Err(AdaptError::NoSymbol)
    } else if !symbol_accepts(b) {
        Err(AdaptError::SymbolTooLong)
    } else {
        Ok(padded_symbol(b))
    }
}

/// Ten empty levels.
pub open spec fn empty_side() -> Seq<WireLevel> {
    Seq::new(10, |i: int| zero_level())
}

/// The book the first `k` entries of a snapshot build: bids, asks and the
/// depth, or the first refusal. Entries that are not book levels, and
/// levels past the wire's depth, are passed over.
pub open spec fn book_from(entries: Seq<MarketEntry>, k: int, default_qty: Option<u64>) -> Result<
    (Seq<WireLevel>, Seq<WireLevel>, int),
    AdaptError,
>
    decreases k,
{
    if k <= 0 {
        Ok((empty_side(), empty_side(), 0))
    } else {
        match book_from(entries, k - 1, default_qty) {
            Err(x) => Err(x),
            Ok((bid, ask, depth)) => {
                let e = entries[k - 1];
                if (e.entry_type != EntryType::Bid && e.entry_type != EntryType::Offer) || e.level >= 10 {
                    Ok((bid, ask, depth))
                } else {
                    match size_of(e, default_qty) {
                        Err(x) => Err(x),
                        Ok(q) => {
                            let w = WireLevel { price: e.price, qty: q, order_count: 0, ext: 0 };
                            let d = if depth >= e.level + 1 { depth } else { e.level + 1 };
                            if e.entry_type == EntryType::Bid {
                                Ok((bid.update(e.level as int, w), ask, d))
                            } else {
                                Ok((bid, ask.update(e.level as int, w), d))
                            }
                        },
                    }
                }
            },
        }
    }
}

/// A trade an incremental becomes, as plain values.
pub struct TradeOut {
    pub symbol: Seq<u8>,
    pub price: BookPrice,
    pub qty: BookQuantity,
    pub venue_ns: Option<UnixNano>,
}

/// The trades the first `k` entries of an incremental become, and the
/// refusal that stopped it, if any: a book move, a trade with no usable
/// symbol or no size. Other entries are passed over.
pub open spec fn trades_from(entries: Seq<MarketEntry>, k: int, default_qty: Option<u64>) -> (
    Seq<TradeOut>,
    Option<AdaptError>,
)
    decreases k,
{
    if k <= 0 {
        (Seq::empty(), None)
    } else {
        let (outs, err) = trades_from(entries, k - 1, default_qty);
        if err is Some {
            (outs, err)
        } else {
            let e = entries[k - 1];
            match e.entry_type {
                EntryType::Trade => match wire_symbol_of(e.symbol@) {
                    Err(x) => (outs, Some(x)),
                    Ok(symbol) => match size_of(e, default_qty) {
                        Err(x) => (outs, Some(x)),
                        Ok(q) => (outs.push(TradeOut { symbol, price: e.price, qty: q, venue_ns: e.venue_ns }), None),
                    },
                },
                EntryType::Bid | EntryType::Offer => (outs, Some(AdaptError::IncrementalBook)),
                EntryType::Other => (outs, None),
            }
        }
    }
}

/// The flags a header gets: the venue time's, then the empty sides'.
pub open spec fn flags_after(venue_time: bool, bid_empty: bool, ask_empty: bool) -> u8 {
    let f1: u8 = if venue_time { 0u8 | header_flags::VENUE_TIME_VALID } else { 0u8 };
    let f2: u8 = if bid_empty { f1 | header_flags::BID_EMPTY } else { f1 };
    if ask_empty { f2 | header_flags::ASK_EMPTY } else { f2 }
}

/// `h` is the header the adapter writes: the identity, the session's
/// scales, the depth, the exchange time when there is one, the flags.
pub open spec fn header_is(
    h: RecordHeader,
    kind: WireKind,
    a: AdapterModel,
    symbol: Seq<u8>,
    recv_ns: UnixNano,
    depth: u8,
    venue_ns: Option<UnixNano>,
    bid_empty: bool,
    ask_empty: bool,
) -> bool {
    &&& h.kind == kind_byte(kind)
    &&& h.venue == venue_byte(a.venue)
    &&& h.symbol@ == symbol
    &&& h.recv_ns == recv_ns
    &&& h.price_scale == scale_decimals(a.scales.price)
    &&& h.qty_scale == scale_decimals(a.scales.quantity)
    &&& h.depth == depth
    &&& h.venue_ns == (match venue_ns {
        Some(t) => t,
        None => 0,
    })
    &&& h.flags == flags_after(venue_ns is Some, bid_empty, ask_empty)
    &&& h._pad0 == 0
    &&& h.producer_seq == 0
    &&& h._pad1@ == zeros(8)
}

/// `q` carries exactly these two sides and nothing else.
pub open spec fn sides_are(q: QuotePayload, bid: Seq<WireLevel>, ask: Seq<WireLevel>) -> bool {
    &&& q.bid@ == bid
    &&& q.ask@ == ask
    &&& q.quote_ext == 0
    &&& q.level_ext_kind == 0
    &&& q.quote_ext_kind == 0
    &&& q.level_flags == 0
    &&& q._pad@ == Seq::new(5, |i: int| 0u8)
}

/// `rec` is the book snapshot of `msg` with these sides and depth.
pub open spec fn quote_record_is(
    rec: WireRecord,
    a: AdapterModel,
    msg: MarketData,
    symbol: Seq<u8>,
    recv_ns: UnixNano,
    bid: Seq<WireLevel>,
    ask: Seq<WireLevel>,
    depth: int,
) -> bool {
    &&& header_is(
        rec.header,
        WireKind::Quote,
        a,
        symbol,
        recv_ns,
        depth as u8,
        msg.venue_ns,
        msg.bid_depth == 0,
        msg.offer_depth == 0,
    )
    &&& exists|q: QuotePayload| quote_at(rec.payload_image(), 0, q) && sides_are(q, bid, ask)
    &&& zero_from(rec.payload_image(), 496)
    &&& rec.tail_image() == zeros(32)
}

/// `rec` is the trade record of `t`.
pub open spec fn trade_record_is(rec: WireRecord, a: AdapterModel, t: TradeOut, recv_ns: UnixNano) -> bool {
    &&& header_is(rec.header, WireKind::Trade, a, t.symbol, recv_ns, 0, t.venue_ns, false, false)
    &&& trade_at(
        rec.payload_image(),
        0,
        TradePayload {
            price: t.price,
            qty: t.qty,
            cumulative_qty: 0,
            dyn_upper: 0,
            dyn_lower: 0,
            trade_yield: 0,
            trade_kind: trade_kind::NONE,
            trade_flags: 0,
            _pad: 0,
        },
    )
    &&& zero_from(rec.payload_image(), 48)
    &&& rec.tail_image() == zeros(32)
}

/// What adapting `msg` gives: the records to publish, in order, and how many
/// were published or why the message was refused.
pub open spec fn adapted(
    a: AdapterModel,
    msg: MarketData,
    recv_ns: UnixNano,
    res: (Seq<WireRecord>, Result<usize, AdaptError>),
) -> bool {
    if msg.snapshot {
        match wire_symbol_of(msg.symbol@) {
            Err(x) => res.0.len() == 0 && res.1 == Err::<usize, AdaptError>(x),
            Ok(symbol) => match book_from(msg.entries@, msg.entries@.len() as int, a.default_qty) {
                Err(x) => res.0.len() == 0 && res.1 == Err::<usize, AdaptError>(x),
                Ok((bid, ask, depth)) => {
                    &&& res.1 == Ok::<usize, AdaptError>(1)
                    &&& res.0.len() == 1
                    &&& quote_record_is(res.0[0], a, msg, symbol, recv_ns, bid, ask, depth)
                },
            },
        }
    } else {
        let (outs, err) = trades_from(msg.entries@, msg.entries@.len() as int, a.default_qty);
        &&& res.0.len() == outs.len()
        &&& forall|i: int| 0 <= i < outs.len() ==> #[trigger] trade_record_is(res.0[i], a, outs[i], recv_ns)
        &&& res.1 == match err {
            Some(x) => Err::<usize, AdaptError>(x),
            None => Ok::<usize, AdaptError>(outs.len() as usize),
        }
    }
}

// ---------------------------------------------------------------------------
// Building them
// ---------------------------------------------------------------------------

/// The venue's symbol as the header carries it.
fn wire_symbol(symbol: &[u8]) -> (res: Result<Symbol, AdaptError>)
    ensures
        match wire_symbol_of(symbol@) {
            Ok(s) => res matches Ok(x) && x@ == s,
            Err(e) => res == Err::<Symbol, AdaptError>(e),
        },
{
    if symbol.len() == 0 {
        return Err(AdaptError::NoSymbol);
    }
    match symbol_from_bytes(symbol) {
        Some(s) => Ok(s),
        None => Err(AdaptError::SymbolTooLong),
    }
}

impl SnapshotAdapter {
    /// Builds the adapter for a feed.
    pub fn new(venue: Venue, scales: FixScales, default_qty: Option<u64>) -> (res: SnapshotAdapter)
        ensures
            res@ == (AdapterModel { venue, scales, default_qty }),
    {
        SnapshotAdapter { venue, scales, default_qty }
    }

    /// The venue this adapter publishes as.
    pub fn venue(&self) -> (res: Venue)
        ensures
            res == self@.venue,
    {
        self.venue
    }

    /// The session's scales.
    pub fn scales(&self) -> (res: FixScales)
        ensures
            res == self@.scales,
    {
        self.scales
    }

    /// The size to publish for an entry.
    fn entry_size(&self, e: &MarketEntry) -> (res: Result<u64, AdaptError>)
        ensures
            res == size_of(*e, self@.default_qty),
    {
        if e.has_size {
            Ok(e.size)
        } else {
            match self.default_qty {
                Some(q) => Ok(q),
                None => Err(AdaptError::NoSize),
            }
        }
    }

    /// The header every record of this session starts from.
    fn header(&self, kind: WireKind, symbol: Symbol, recv_ns: UnixNano, venue_ns: Option<UnixNano>) -> (res:
        RecordHeader)
        ensures
            header_is(res, kind, self@, symbol@, recv_ns, 0, venue_ns, false, false),
    {
        let mut h = RecordHeader::new(kind, self.venue, symbol, recv_ns);
        h.set_scales(self.scales.price, self.scales.quantity);
        match venue_ns {
            Some(t) => {
                h.set_venue_time(t);
            },
            None => {},
        }
        h
    }

    /// A full refresh: one book snapshot.
    fn snapshot(&self, msg: &MarketData, recv_ns: UnixNano) -> (res: (Vec<WireRecord>, Result<usize, AdaptError>))
        requires
            msg.snapshot,
        ensures
            adapted(self@, *msg, recv_ns, (res.0@, res.1)),
    {
        let symbol = match wire_symbol(msg.symbol.as_slice()) {
            Err(e) => {
                return (Vec::new(), Err(e));
            },
            Ok(s) => s,
        };
        let mut quote = QuotePayload::default();
        assert(quote.bid@ =~= empty_side());
        assert(quote.ask@ =~= empty_side());
        let mut depth: u64 = 0;
        let mut k: usize = 0;
        while k < msg.entries.len()
            invariant
                msg.snapshot,
                wire_symbol_of(msg.symbol@) == Ok::<Seq<u8>, AdaptError>(symbol@),
                k <= msg.entries@.len(),
                book_from(msg.entries@, k as int, self@.default_qty) matches Ok((bid, ask, d)) && sides_are(
                    quote,
                    bid,
                    ask,
                ) && d == depth,
                depth <= 10,
            decreases msg.entries@.len() - k,
        {
            let e = &msg.entries[k];
            let on_book = match e.entry_type {
                EntryType::Bid => true,
                EntryType::Offer => true,
                _ => false,
            };
            if on_book && e.level < 10 {
                let q = match self.entry_size(e) {
                    Err(x) => {
                        proof {
                            lemma_book_stops(msg.entries@, k + 1, msg.entries@.len() as int, self@.default_qty);
                        }
                        return (Vec::new(), Err(x));
                    },
                    Ok(q) => q,
                };
                let level = e.level as usize;
                let w = WireLevel::new(e.price, q);
                match e.entry_type {
                    EntryType::Bid => {
                        quote.set_bid(level, w);
                    },
                    _ => {
                        quote.set_ask(level, w);
                    },
                }
                if e.level + 1 > depth {
                    depth = e.level + 1;
                }
            }
            k += 1;
        }
        let mut header = self.header(WireKind::Quote, symbol, recv_ns, msg.venue_ns);
        header.set_depth(depth as u8);
        if msg.bid_depth == 0 {
            header.set_flags(header_flags::BID_EMPTY);
        }
        if msg.offer_depth == 0 {
            header.set_flags(header_flags::ASK_EMPTY);
        }
        let rec = WireRecord::new_quote(header, quote);
        let mut out: Vec<WireRecord> = Vec::new();
        out.push(rec);
        (out, Ok(1))
    }

    /// An incremental: one trade record per trade, refusing a book move.
    fn incremental(&self, msg: &MarketData, recv_ns: UnixNano) -> (res: (Vec<WireRecord>, Result<usize, AdaptError>))
        requires
            !msg.snapshot,
        ensures
            adapted(self@, *msg, recv_ns, (res.0@, res.1)),
    {
        let mut out: Vec<WireRecord> = Vec::new();
        let mut k: usize = 0;
        while k < msg.entries.len()
            invariant
                !msg.snapshot,
                k <= msg.entries@.len(),
                trades_from(msg.entries@, k as int, self@.default_qty).1 is None,
                out@.len() == trades_from(msg.entries@, k as int, self@.default_qty).0.len(),
                out@.len() <= k,
                forall|i: int| 0 <= i < out@.len() ==> #[trigger] trade_record_is(
                    out@[i],
                    self@,
                    trades_from(msg.entries@, k as int, self@.default_qty).0[i],
                    recv_ns,
                ),
            decreases msg.entries@.len() - k,
        {
            let e = &msg.entries[k];
            match e.entry_type {
                EntryType::Trade => {},
                EntryType::Other => {
                    k += 1;
                    continue;
                },
                _ => {
                    proof {
                        lemma_trades_stop(msg.entries@, k + 1, msg.entries@.len() as int, self@.default_qty);
                    }
                    return (out, Err(AdaptError::IncrementalBook));
                },
            }
            let symbol = match wire_symbol(e.symbol.as_slice()) {
                Err(x) => {
                    proof {
                        lemma_trades_stop(msg.entries@, k + 1, msg.entries@.len() as int, self@.default_qty);
                    }
                    return (out, Err(x));
                },
                Ok(s) => s,
            };
            let q = match self.entry_size(e) {
                Err(x) => {
                    proof {
                        lemma_trades_stop(msg.entries@, k + 1, msg.entries@.len() as int, self@.default_qty);
                    }
                    return (out, Err(x));
                },
                Ok(q) => q,
            };
            let header = self.header(WireKind::Trade, symbol, recv_ns, e.venue_ns);
            let rec = WireRecord::new_trade(header, TradePayload::new(e.price, q));
            out.push(rec);
            k += 1;
        }
        let n = out.len();
        (out, Ok(n))
    }

    /// Maps one decoded message: the records to publish, in order, and how
    /// many there are, or why the message was refused after those.
    pub fn adapt(&self, msg: &MarketData, recv_ns: UnixNano) -> (res: (Vec<WireRecord>, Result<usize, AdaptError>))
        ensures
            adapted(self@, *msg, recv_ns, (res.0@, res.1)),
    {
        if msg.snapshot {
            self.snapshot(msg, recv_ns)
        } else {
            self.incremental(msg, recv_ns)
        }
    }
}

proof fn lemma_book_depth(entries: Seq<MarketEntry>, k: int, default_qty: Option<u64>)
    requires
        0 <= k <= entries.len(),
    ensures
        book_from(entries, k, default_qty) matches Ok((bid, ask, depth)) ==> {
            &&& forall|i: int|
                0 <= i < k && (entries[i].entry_type == EntryType::Bid || entries[i].entry_type == EntryType::Offer)
                    && entries[i].level < 10 ==> depth >= #[trigger] entries[i].level + 1
            &&& depth == 0 || exists|i: int|
                0 <= i < k && (entries[i].entry_type == EntryType::Bid || entries[i].entry_type == EntryType::Offer)
                    && entries[i].level < 10 && depth == #[trigger] entries[i].level + 1
        },
    decreases k,
{
    if k > 0 {
        lemma_book_depth(entries, k - 1, default_qty);
    }
}

/// Each kept level holds the last entry for its side and level; a level
/// no entry names is empty.
spec fn sides_hold(entries: Seq<MarketEntry>, k: int, default_qty: Option<u64>, bid: Seq<WireLevel>, ask: Seq<WireLevel>) -> bool {
    &&& kept_hold(entries, k, default_qty, bid, ask)
    &&& empty_hold(entries, k, EntryType::Bid, bid)
    &&& empty_hold(entries, k, EntryType::Offer, ask)
}

/// No entry from `i + 1` up to `k` is for the same side and level as
/// entry `i`.
pub open spec fn last_before(entries: Seq<MarketEntry>, k: int, i: int) -> bool {
    forall|j: int|
        i < j < k ==> !(#[trigger] entries[j].entry_type == entries[i].entry_type && entries[j].level == entries[i].level)
}

/// Some entry before `k` is a `side` entry for level `l`.
pub open spec fn names_level(entries: Seq<MarketEntry>, k: int, side: EntryType, l: int) -> bool {
    exists|i: int| 0 <= i < k && #[trigger] entries[i].entry_type == side && entries[i].level == l
}

/// Each kept level holds the last entry for its side and level.
spec fn kept_hold(entries: Seq<MarketEntry>, k: int, default_qty: Option<u64>, bid: Seq<WireLevel>, ask: Seq<WireLevel>) -> bool {
    forall|i: int| #[trigger] kept_at(entries, k, default_qty, bid, ask, i)
}

/// Entry `i`, when it is the last kept entry for its side and level, is
/// what that level holds.
spec fn kept_at(entries: Seq<MarketEntry>, k: int, default_qty: Option<u64>, bid: Seq<WireLevel>, ask: Seq<WireLevel>, i: int) -> bool {
    0 <= i < k && entries[i].level < 10 && (entries[i].entry_type == EntryType::Bid || entries[i].entry_type
        == EntryType::Offer) && last_before(entries, k, i) ==> {
        let w = if entries[i].entry_type == EntryType::Bid {
            bid[entries[i].level as int]
        } else {
            ask[entries[i].level as int]
        };
        &&& w.price == entries[i].price
        &&& w.qty == (if entries[i].has_size { entries[i].size } else { default_qty->0 })
        &&& w.order_count == 0
        &&& w.ext == 0
    }
}

/// A level of `side` that no entry names is empty.
spec fn empty_hold(entries: Seq<MarketEntry>, k: int, side: EntryType, levels: Seq<WireLevel>) -> bool {
    forall|l: int| 0 <= l < 10 && !names_level(entries, k, side, l) ==> #[trigger] levels[l] == zero_level()
}

proof fn lemma_book_sides(entries: Seq<MarketEntry>, k: int, default_qty: Option<u64>)
    requires
        0 <= k <= entries.len(),
    ensures
        book_from(entries, k, default_qty) matches Ok((bid, ask, depth)) ==> bid.len() == 10 && ask.len() == 10
            && sides_hold(entries, k, default_qty, bid, ask),
    decreases k,
{
    if k > 0 {
        lemma_book_sides(entries, k - 1, default_qty);
        if let Ok((bid, ask, depth)) = book_from(entries, k, default_qty) {
            let (bid0, ask0, d0) = book_from(entries, k - 1, default_qty)->Ok_0;
            let e = entries[k - 1];
            assert(bid.len() == 10 && ask.len() == 10);
            assert forall|i: int| #[trigger] kept_at(entries, k, default_qty, bid, ask, i) by {
                if 0 <= i < k && entries[i].level < 10 && (entries[i].entry_type == EntryType::Bid || entries[i].entry_type
                    == EntryType::Offer) && last_before(entries, k, i) {
                let kept = (e.entry_type == EntryType::Bid || e.entry_type == EntryType::Offer) && e.level < 10;
                if i < k - 1 {
                    assert(!(entries[k - 1].entry_type == entries[i].entry_type && entries[k - 1].level == entries[i].level));
                    assert(last_before(entries, k - 1, i));
                    let li = entries[i].level as int;
                    assert(kept_at(entries, k - 1, default_qty, bid0, ask0, i));
                    let w0 = if entries[i].entry_type == EntryType::Bid { bid0[li] } else { ask0[li] };
                    assert(w0.price == entries[i].price);
                    if kept {
                        if e.entry_type == EntryType::Bid {
                            assert(ask == ask0);
                            if entries[i].entry_type == EntryType::Bid {
                                assert(e.level != entries[i].level);
                                assert(bid[li] == bid0[li]);
                            }
                        } else {
                            assert(bid == bid0);
                            if entries[i].entry_type == EntryType::Offer {
                                assert(e.level != entries[i].level);
                                assert(ask[li] == ask0[li]);
                            }
                        }
                    } else {
                        assert(bid == bid0 && ask == ask0);
                    }
                } else {
                    assert(i == k - 1);
                    assert(kept);
                    let q = if e.has_size { e.size } else { default_qty->0 };
                    assert(size_of(e, default_qty) == Ok::<u64, AdaptError>(q));
                    let w = WireLevel { price: e.price, qty: q, order_count: 0, ext: 0 };
                    if e.entry_type == EntryType::Bid {
                        assert(bid == bid0.update(e.level as int, w));
                        assert(bid[e.level as int] == w);
                    } else {
                        assert(ask == ask0.update(e.level as int, w));
                        assert(ask[e.level as int] == w);
                    }
                }
                }
            }
            assert forall|l: int| 0 <= l < 10 && !names_level(entries, k, EntryType::Bid, l) implies #[trigger] bid[l]
                == zero_level() by {
                if names_level(entries, k - 1, EntryType::Bid, l) {
                    let i = choose|i: int| 0 <= i < k - 1 && #[trigger] entries[i].entry_type == EntryType::Bid
                        && entries[i].level == l;
                    assert(names_level(entries, k, EntryType::Bid, l));
                }
                if entries[k - 1].entry_type == EntryType::Bid && entries[k - 1].level == l {
                    assert(names_level(entries, k, EntryType::Bid, l));
                }
            }
            assert forall|l: int| 0 <= l < 10 && !names_level(entries, k, EntryType::Offer, l) implies #[trigger] ask[l]
                == zero_level() by {
                if names_level(entries, k - 1, EntryType::Offer, l) {
                    let i = choose|i: int| 0 <= i < k - 1 && #[trigger] entries[i].entry_type == EntryType::Offer
                        && entries[i].level == l;
                    assert(names_level(entries, k, EntryType::Offer, l));
                }
                if entries[k - 1].entry_type == EntryType::Offer && entries[k - 1].level == l {
                    assert(names_level(entries, k, EntryType::Offer, l));
                }
            }
            assert(kept_hold(entries, k, default_qty, bid, ask));
            assert(empty_hold(entries, k, EntryType::Bid, bid));
            assert(empty_hold(entries, k, EntryType::Offer, ask));
        }
    } else {
        assert(forall|l: int| 0 <= l < 10 ==> #[trigger] empty_side()[l] == zero_level());
    }
}

/// A full refresh becomes one book snapshot whose depth is one more than
/// the deepest level kept on either side (a bid or an offer within the
/// wire's ten levels), or zero when none is kept. Each level holds the price
/// and size of the last entry for that side and level, and a level no entry
/// names stays empty.
pub proof fn law_snapshot_book(a: AdapterModel, msg: MarketData, recv_ns: UnixNano, res: (Seq<WireRecord>, Result<usize, AdaptError>))
    requires
        adapted(a, msg, recv_ns, res),
        msg.snapshot,
        res.1 is Ok,
    ensures
        res.0.len() == 1,
        forall|i: int|
            0 <= i < msg.entries@.len() && (msg.entries@[i].entry_type == EntryType::Bid || msg.entries@[i].entry_type
                == EntryType::Offer) && msg.entries@[i].level < 10 ==> res.0[0].header.depth >= #[trigger] msg.entries@[i].level
                + 1,
        res.0[0].header.depth == 0 || exists|i: int|
            0 <= i < msg.entries@.len() && (msg.entries@[i].entry_type == EntryType::Bid || msg.entries@[i].entry_type
                == EntryType::Offer) && msg.entries@[i].level < 10 && res.0[0].header.depth == #[trigger] msg.entries@[i].level
                + 1,
        exists|q: QuotePayload| quote_at(res.0[0].payload_image(), 0, q) && #[trigger] snapshot_levels(
            q,
            msg.entries@,
            a.default_qty,
        ),
{
    let entries = msg.entries@;
    let n = entries.len() as int;
    lemma_book_depth(entries, n, a.default_qty);
    lemma_book_sides(entries, n, a.default_qty);
    lemma_book_depth_small(entries, n, a.default_qty);
    let (bid, ask, depth) = book_from(entries, n, a.default_qty)->Ok_0;
    assert(sides_hold(entries, n, a.default_qty, bid, ask));
    assert(res.0[0].header.depth == depth as u8);
    assert(res.0[0].header.depth == depth);
    let q = choose|q: QuotePayload| quote_at(res.0[0].payload_image(), 0, q) && sides_are(q, bid, ask);
    assert(quote_at(res.0[0].payload_image(), 0, q));
    assert forall|i: int|
        0 <= i < entries.len() && entries[i].level < 10 && (entries[i].entry_type == EntryType::Bid
            || entries[i].entry_type == EntryType::Offer) && last_before(entries, entries.len() as int, i) implies {
            let w = if entries[i].entry_type == EntryType::Bid {
                q.bid@[entries[i].level as int]
            } else {
                q.ask@[entries[i].level as int]
            };
            &&& w.price == #[trigger] entries[i].price
            &&& w.qty == (if entries[i].has_size { entries[i].size } else { a.default_qty->0 })
        } by {
        assert(kept_at(entries, n, a.default_qty, bid, ask, i));
    }
    assert(empty_hold(entries, n, EntryType::Bid, bid));
    assert(empty_hold(entries, n, EntryType::Offer, ask));
    assert(forall|l: int|
        0 <= l < 10 && !names_level(entries, entries.len() as int, EntryType::Bid, l) ==> #[trigger] q.bid@[l]
            == zero_level());
    assert(forall|l: int|
        0 <= l < 10 && !names_level(entries, entries.len() as int, EntryType::Offer, l) ==> #[trigger] q.ask@[l]
            == zero_level());
    assert(snapshot_levels(q, entries, a.default_qty));
}

/// The book levels of a snapshot: each level holds the price and size of
/// the last bid or offer entry for that side and level within the wire's
/// ten, and a level no entry names is empty.
pub open spec fn snapshot_levels(q: QuotePayload, entries: Seq<MarketEntry>, default_qty: Option<u64>) -> bool {
    &&& forall|i: int|
        0 <= i < entries.len() && entries[i].level < 10 && (entries[i].entry_type == EntryType::Bid
            || entries[i].entry_type == EntryType::Offer) && last_before(entries, entries.len() as int, i) ==> {
            let w = if entries[i].entry_type == EntryType::Bid {
                q.bid@[entries[i].level as int]
            } else {
                q.ask@[entries[i].level as int]
            };
            &&& w.price == #[trigger] entries[i].price
            &&& w.qty == (if entries[i].has_size { entries[i].size } else { default_qty->0 })
        }
    &&& forall|l: int|
        0 <= l < 10 && !names_level(entries, entries.len() as int, EntryType::Bid, l) ==> #[trigger] q.bid@[l]
            == zero_level()
    &&& forall|l: int|
        0 <= l < 10 && !names_level(entries, entries.len() as int, EntryType::Offer, l) ==> #[trigger] q.ask@[l]
            == zero_level()
}

proof fn lemma_book_depth_small(entries: Seq<MarketEntry>, k: int, default_qty: Option<u64>)
    requires
        0 <= k <= entries.len(),
    ensures
        book_from(entries, k, default_qty) matches Ok((bid, ask, depth)) ==> 0 <= depth <= 10,
    decreases k,
{
    if k > 0 {
        lemma_book_depth_small(entries, k - 1, default_qty);
    }
}

/// How many of the first `k` entries are trades.
pub open spec fn trade_count(entries: Seq<MarketEntry>, k: int) -> nat
    decreases k,
{
    if k <= 0 {
        0
    } else {
        trade_count(entries, k - 1) + (if entries[k - 1].entry_type == EntryType::Trade { 1nat } else { 0nat })
    }
}

/// Some trade entry before `k` has this price, and this size (its own, or
/// the feed's default when it has none).
pub open spec fn a_trade_entry(entries: Seq<MarketEntry>, k: int, default_qty: Option<u64>, price: BookPrice, qty: BookQuantity) -> bool {
    exists|j: int|
        0 <= j < k && #[trigger] entries[j].entry_type == EntryType::Trade && price == entries[j].price && qty == (if entries[j].has_size {
            entries[j].size
        } else {
            default_qty->0
        })
}

/// `rec` is a trade record made from one of `entries`' trades: its price
/// and size, no cumulative size, no aggressor.
pub open spec fn trade_record_of_entry(rec: WireRecord, entries: Seq<MarketEntry>, default_qty: Option<u64>) -> bool {
    &&& rec.header.kind == 2
    &&& exists|t: TradePayload|
        trade_at(rec.payload_image(), 0, t) && #[trigger] a_trade_entry(entries, entries.len() as int, default_qty, t.price, t.qty)
            && t.cumulative_qty == 0 && t.trade_kind == trade_kind::NONE
}

proof fn lemma_trades(entries: Seq<MarketEntry>, k: int, default_qty: Option<u64>)
    requires
        0 <= k <= entries.len(),
    ensures
        trades_from(entries, k, default_qty).1 is None ==> trades_from(entries, k, default_qty).0.len() == trade_count(
            entries,
            k,
        ),
        trades_from(entries, k, default_qty).0.len() <= trade_count(entries, k),
        forall|i: int|
            0 <= i < trades_from(entries, k, default_qty).0.len() ==> #[trigger] a_trade_entry(
                entries,
                k,
                default_qty,
                trades_from(entries, k, default_qty).0[i].price,
                trades_from(entries, k, default_qty).0[i].qty,
            ),
    decreases k,
{
    if k > 0 {
        lemma_trades(entries, k - 1, default_qty);
        let prev = trades_from(entries, k - 1, default_qty).0;
        let cur = trades_from(entries, k, default_qty).0;
        assert forall|i: int| 0 <= i < cur.len() implies #[trigger] a_trade_entry(
            entries,
            k,
            default_qty,
            cur[i].price,
            cur[i].qty,
        ) by {
            if i < prev.len() {
                assert(cur[i] == prev[i]);
                assert(a_trade_entry(entries, k - 1, default_qty, prev[i].price, prev[i].qty));
                let j = choose|j: int|
                    0 <= j < k - 1 && #[trigger] entries[j].entry_type == EntryType::Trade && prev[i].price == entries[j].price
                        && prev[i].qty == (if entries[j].has_size { entries[j].size } else { default_qty->0 });
                assert(entries[j].entry_type == EntryType::Trade);
            } else {
                assert(i == prev.len());
                assert(entries[k - 1].entry_type == EntryType::Trade);
            }
        }
    }
}

/// An incremental becomes trade records only: each made from a trade
/// entry's price and size (its own size, or the feed's default when it has
/// none), with no cumulative size and no aggressor; never more records than
/// trade entries, and when the message is not refused, one for each.
pub proof fn law_incremental_trades(a: AdapterModel, msg: MarketData, recv_ns: UnixNano, res: (Seq<WireRecord>, Result<usize, AdaptError>))
    requires
        adapted(a, msg, recv_ns, res),
        !msg.snapshot,
    ensures
        res.1 is Ok ==> res.0.len() == trade_count(msg.entries@, msg.entries@.len() as int) && res.1 == Ok::<usize, AdaptError>(
            res.0.len() as usize,
        ),
        res.0.len() <= trade_count(msg.entries@, msg.entries@.len() as int),
        forall|i: int| 0 <= i < res.0.len() ==> #[trigger] trade_record_of_entry(res.0[i], msg.entries@, a.default_qty),
{
    let entries = msg.entries@;
    let n = entries.len() as int;
    lemma_trades(entries, n, a.default_qty);
    let outs = trades_from(entries, n, a.default_qty).0;
    assert forall|i: int| 0 <= i < res.0.len() implies #[trigger] trade_record_of_entry(res.0[i], entries, a.default_qty) by {
        assert(trade_record_is(res.0[i], a, outs[i], recv_ns));
        assert(a_trade_entry(entries, n, a.default_qty, outs[i].price, outs[i].qty));
        let t = TradePayload {
            price: outs[i].price,
            qty: outs[i].qty,
            cumulative_qty: 0,
            dyn_upper: 0,
            dyn_lower: 0,
            trade_yield: 0,
            trade_kind: trade_kind::NONE,
            trade_flags: 0,
            _pad: 0,
        };
        assert(trade_at(res.0[i].payload_image(), 0, t));
        assert(res.0[i].header.kind == kind_byte(WireKind::Trade));
    }
}

/// Once a snapshot entry has been refused, later entries change nothing.
proof fn lemma_book_stops(entries: Seq<MarketEntry>, k: int, m: int, default_qty: Option<u64>)
    requires
        0 <= k <= m,
        book_from(entries, k, default_qty) is Err,
    ensures
        book_from(entries, m, default_qty) == book_from(entries, k, default_qty),
    decreases m - k,
{
    if m > k {
        lemma_book_stops(entries, k, m - 1, default_qty);
    }
}

/// Once an incremental entry has been refused, later entries change nothing.
proof fn lemma_trades_stop(entries: Seq<MarketEntry>, k: int, m: int, default_qty: Option<u64>)
    requires
        0 <= k <= m,
        trades_from(entries, k, default_qty).1 is Some,
    ensures
        trades_from(entries, m, default_qty) == trades_from(entries, k, default_qty),
    decreases m - k,
{
    if m > k {
        lemma_trades_stop(entries, k, m - 1, default_qty);
    }
}

/// What an adapter refusal reads as.
pub open spec fn adapt_error_text(e: AdaptError) -> Seq<char> {
    match e {
        AdaptError::IncrementalBook => "35=X moves the book and the wire has no delta record"@,
        AdaptError::NoSize => "entry has no size and no default_qty is configured"@,
        AdaptError::NoSymbol => "no Symbol to key the record on"@,
        AdaptError::SymbolTooLong => "Symbol is longer than 24 bytes"@,
    }
}

impl AdaptError {
    /// The refusal as the log prints it.
    pub fn to_string(&self) -> (res: String)
        ensures
            res@ == adapt_error_text(*self),
    {
        match self {
            AdaptError::IncrementalBook => String::from_str("35=X moves the book and the wire has no delta record"),
            AdaptError::NoSize => String::from_str("entry has no size and no default_qty is configured"),
            AdaptError::NoSymbol => String::from_str("no Symbol to key the record on"),
            AdaptError::SymbolTooLong => String::from_str("Symbol is longer than 24 bytes"),
        }
    }
}

} // verus!
