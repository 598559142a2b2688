//! `conf/crypto.toml`: one connection per feed, each to one ring, with the
//! instruments it subscribes to.
//!
//! The channel vocabulary, the default knobs and what the receiver says of
//! each instrument and router are the receiver's; they are handed in. A
//! `url` is read here as the text the conf wrote, and handed back beside
//! the conf, in order, for the receiver to parse.
use vstd::prelude::*;
use vstd::string::{StringExecFns, StrSliceExecFns};
use vstd::utf8::encode_utf8;

use crate::conf::rules::{
    Placement, RuleError, RuleFault, check_placement, first_where, lemma_first_where_facts, lemma_first_where_found,
    lemma_first_where_none, placement_verdict, refusal_texts, topology_of, verdict_is,
};
use crate::conf::{
    ConfError, ConfFault, Health, Mode, Section, comma_joined, decimals_of, feed_at, feed_index, feed_label, finish_of,
    health_fits, health_of, mode_of, positive_u32_or, positive_u64_or, push_comma_joined, read_mode, read_report_secs,
    report_secs_of, str_opt, str_req, strs_req, tables_of, u16s_req, u64_opt, u64_req,
};
use crate::cpu::{Mask, Topology, lists, mask_of, names};
use crate::text::{decimal, push_decimal};
use crate::toml::grammar::Doc;
use crate::toml::Table;
use crate::types::{Venue, str_eq, venue_tag};

verus! {

/// The conf name of each crypto venue, in the order the names are listed.
pub open spec fn crypto_names() -> Seq<&'static str> {
    seq![
        "binance-spot",
        "binance-futures",
        "upbit",
        "bithumb",
        "okx",
        "bybit-spot",
        "bybit-linear",
        "bitget-spot",
        "bitget-linear",
        "gate-spot",
        "kucoin-spot",
        "kucoin-futures",
    ]
}

/// The conf name of a crypto venue; `None` for a venue that is not one.
pub open spec fn crypto_name(v: Venue) -> Option<&'static str> {
    match v {
        Venue::BinanceSpot => Some("binance-spot"),
        Venue::BinanceFutures => Some("binance-futures"),
        Venue::Upbit => Some("upbit"),
        Venue::Bithumb => Some("bithumb"),
        Venue::Okx => Some("okx"),
        Venue::BybitSpot => Some("bybit-spot"),
        Venue::BybitLinear => Some("bybit-linear"),
        Venue::BitgetSpot => Some("bitget-spot"),
        Venue::BitgetLinear => Some("bitget-linear"),
        Venue::GateSpot => Some("gate-spot"),
        Venue::KucoinSpot => Some("kucoin-spot"),
        Venue::KucoinFutures => Some("kucoin-futures"),
        _ => None,
    }
}

/// The crypto venue a conf name names, if any (names are case-sensitive).
pub open spec fn crypto_venue(n: Seq<char>) -> Option<Venue> {
    if n == "binance-spot"@ {
        Some(Venue::BinanceSpot)
    } else if n == "binance-futures"@ {
        Some(Venue::BinanceFutures)
    } else if n == "upbit"@ {
        Some(Venue::Upbit)
    } else if n == "bithumb"@ {
        Some(Venue::Bithumb)
    } else if n == "okx"@ {
        Some(Venue::Okx)
    } else if n == "bybit-spot"@ {
        Some(Venue::BybitSpot)
    } else if n == "bybit-linear"@ {
        Some(Venue::BybitLinear)
    } else if n == "bitget-spot"@ {
        Some(Venue::BitgetSpot)
    } else if n == "bitget-linear"@ {
        Some(Venue::BitgetLinear)
    } else if n == "gate-spot"@ {
        Some(Venue::GateSpot)
    } else if n == "kucoin-spot"@ {
        Some(Venue::KucoinSpot)
    } else if n == "kucoin-futures"@ {
        Some(Venue::KucoinFutures)
    } else {
        None
    }
}

/// The venue a conf `venue = "…"` names.
pub fn venue_by_name(name: &str) -> (res: Option<Venue>)
    ensures
        res == crypto_venue(name@),
{
    if str_eq(name, "binance-spot") {
        Some(Venue::BinanceSpot)
    } else if str_eq(name, "binance-futures") {
        Some(Venue::BinanceFutures)
    } else if str_eq(name, "upbit") {
        Some(Venue::Upbit)
    } else if str_eq(name, "bithumb") {
        Some(Venue::Bithumb)
    } else if str_eq(name, "okx") {
        Some(Venue::Okx)
    } else if str_eq(name, "bybit-spot") {
        Some(Venue::BybitSpot)
    } else if str_eq(name, "bybit-linear") {
        Some(Venue::BybitLinear)
    } else if str_eq(name, "bitget-spot") {
        Some(Venue::BitgetSpot)
    } else if str_eq(name, "bitget-linear") {
        Some(Venue::BitgetLinear)
    } else if str_eq(name, "gate-spot") {
        Some(Venue::GateSpot)
    } else if str_eq(name, "kucoin-spot") {
        Some(Venue::KucoinSpot)
    } else if str_eq(name, "kucoin-futures") {
        Some(Venue::KucoinFutures)
    } else {
        None
    }
}

/// The conf name of a crypto venue, or `None` for one that is not.
pub fn venue_name(venue: Venue) -> (res: Option<&'static str>)
    ensures
        res == crypto_name(venue),
{
    match venue {
        Venue::BinanceSpot => Some("binance-spot"),
        Venue::BinanceFutures => Some("binance-futures"),
        Venue::Upbit => Some("upbit"),
        Venue::Bithumb => Some("bithumb"),
        Venue::Okx => Some("okx"),
        Venue::BybitSpot => Some("bybit-spot"),
        Venue::BybitLinear => Some("bybit-linear"),
        Venue::BitgetSpot => Some("bitget-spot"),
        Venue::BitgetLinear => Some("bitget-linear"),
        Venue::GateSpot => Some("gate-spot"),
        Venue::KucoinSpot => Some("kucoin-spot"),
        Venue::KucoinFutures => Some("kucoin-futures"),
        _ => None,
    }
}

/// Every conf venue name, for the error message that lists them.
pub fn venue_names() -> (res: Vec<&'static str>)
    ensures
        res@ == crypto_names(),
{
    let res = vec![
        "binance-spot",
        "binance-futures",
        "upbit",
        "bithumb",
        "okx",
        "bybit-spot",
        "bybit-linear",
        "bitget-spot",
        "bitget-linear",
        "gate-spot",
        "kucoin-spot",
        "kucoin-futures",
    ];
    assert(res@ =~= crypto_names());
    res
}

/// Every listed name names a crypto venue whose name it is, and every
/// crypto venue's name is listed and reads back as that venue.
pub proof fn law_crypto_names_round_trip(v: Venue)
    ensures
        forall|i: int| 0 <= i < crypto_names().len() ==> (#[trigger] crypto_venue(crypto_names()[i]@) matches Some(w)
            && crypto_name(w) == Some(crypto_names()[i])),
        crypto_name(v) matches Some(n) ==> crypto_venue(n@) == Some(v) && crypto_names().contains(n),
{
    reveal_strlit("binance-spot");
    reveal_strlit("binance-futures");
    reveal_strlit("upbit");
    reveal_strlit("bithumb");
    reveal_strlit("okx");
    reveal_strlit("bybit-spot");
    reveal_strlit("bybit-linear");
    reveal_strlit("bitget-spot");
    reveal_strlit("bitget-linear");
    reveal_strlit("gate-spot");
    reveal_strlit("kucoin-spot");
    reveal_strlit("kucoin-futures");
    assert("binance-spot"@.len() == 12);
    assert("binance-futures"@.len() == 15);
    assert("upbit"@.len() == 5);
    assert("bithumb"@.len() == 7);
    assert("okx"@.len() == 3);
    assert("bybit-spot"@.len() == 10);
    assert("bybit-linear"@.len() == 12);
    assert("bitget-spot"@.len() == 11);
    assert("bitget-linear"@.len() == 13);
    assert("gate-spot"@.len() == 9);
    assert("kucoin-spot"@.len() == 11);
    assert("kucoin-futures"@.len() == 14);
    assert("bybit-linear"@[1] != "binance-spot"@[1]);
    assert("kucoin-spot"@[0] != "bitget-spot"@[0]);
    let names = crypto_names();
    assert forall|i: int| 0 <= i < names.len() implies (#[trigger] crypto_venue(names[i]@) matches Some(w)
        && crypto_name(w) == Some(names[i])) by {
        if i == 0 {
        } else if i == 1 {
        } else if i == 2 {
        } else if i == 3 {
        } else if i == 4 {
        } else if i == 5 {
        } else if i == 6 {
        } else if i == 7 {
        } else if i == 8 {
        } else if i == 9 {
        } else if i == 10 {
        } else {
        }
    }
    match crypto_name(v) {
        Some(n) => {
            assert(names.contains(n)) by {
                if v == Venue::BinanceSpot { assert(names[0] == n); }
                else if v == Venue::BinanceFutures { assert(names[1] == n); }
                else if v == Venue::Upbit { assert(names[2] == n); }
                else if v == Venue::Bithumb { assert(names[3] == n); }
                else if v == Venue::Okx { assert(names[4] == n); }
                else if v == Venue::BybitSpot { assert(names[5] == n); }
                else if v == Venue::BybitLinear { assert(names[6] == n); }
                else if v == Venue::BitgetSpot { assert(names[7] == n); }
                else if v == Venue::BitgetLinear { assert(names[8] == n); }
                else if v == Venue::GateSpot { assert(names[9] == n); }
                else if v == Venue::KucoinSpot { assert(names[10] == n); }
                else { assert(names[11] == n); }
            }
        },
        None => {},
    }
}


// ---------------------------------------------------------------------------
// The conf
// ---------------------------------------------------------------------------

/// What the receiver uses when a feed leaves a knob out.
#[derive(Debug, Clone, Copy, PartialEq, Eq, Structural)]
pub struct CryptoDefaults {
    /// `ping_secs`.
    pub ping_secs: u64,
    /// `reconnect_secs`.
    pub reconnect_secs: u64,
    /// `burst`.
    pub burst: u32,
}

/// One `[[feed.instrument]]`.
#[derive(Debug, Clone, PartialEq, Eq)]
pub struct InstrumentConf {
    /// `symbol`: as the venue spells it.
    pub symbol: String,
    /// `price_decimals`.
    pub price_decimals: usize,
    /// `qty_decimals`.
    pub qty_decimals: usize,
    /// `channels`: in the conf vocabulary, in the order listed, each once.
    pub channels: Vec<String>,
    /// `depth`: book depth, where the venue offers a choice.
    pub depth: Option<u16>,
}

/// One `[[feed]]`: one connection, one thread, one ring.
#[derive(Debug, Clone, PartialEq, Eq)]
pub struct CryptoFeedConf {
    /// `name`: for the thread and the log.
    pub name: String,
    /// `venue`: which exchange and market, by its conf name.
    pub venue: Venue,
    /// `mode`.
    pub mode: Mode,
    /// `cores`: the affinity set. Exactly one for a spinning feed.
    pub cores: Vec<u16>,
    /// `ring`: segment name, session-local namespace.
    pub ring: String,
    /// `ring_slots`: a power of two.
    pub ring_slots: u64,
    /// `url`: the WebSocket to dial, if not the venue's default, as written.
    pub url: Option<String>,
    /// `rest`: where the venue's REST calls go, if not the venue's own.
    pub rest: Option<String>,
    /// `[[feed.instrument]]`, in file order.
    pub instruments: Vec<InstrumentConf>,
    /// `ping_secs`: quiet time before a protocol ping. Zero disables it.
    pub ping_secs: u64,
    /// `reconnect_secs`: wait between connection attempts.
    pub reconnect_secs: u64,
    /// `burst`: frames handled per round.
    pub burst: u32,
}

/// The whole file.
#[derive(Debug, Clone, PartialEq, Eq)]
pub struct CryptoConf {
    /// `[[feed]]`, in file order.
    pub feeds: Vec<CryptoFeedConf>,
    /// `[health]`.
    pub health: Health,
    /// `[log] report_secs`. Zero silences the report line.
    pub report_secs: u64,
}

/// A `url` read from the conf: the feed it is under, as errors name it, and
/// the text.
#[derive(Debug, Clone, PartialEq, Eq)]
pub struct UrlText {
    pub at: String,
    pub text: String,
}

/// What reading a conf gives: every `url` read, in file order, and then the
/// conf, or the first fault found after those.
#[derive(Debug)]
pub struct CryptoRead {
    pub urls: Vec<UrlText>,
    pub conf: Result<CryptoConf, ConfError>,
}

/// An instrument, as plain values.
pub struct InstrumentModel {
    pub symbol: Seq<char>,
    pub price_decimals: usize,
    pub qty_decimals: usize,
    pub channels: Seq<Seq<char>>,
    pub depth: Option<u16>,
}

/// A crypto feed, as plain values.
pub struct CryptoFeedModel {
    pub name: Seq<char>,
    pub venue: Venue,
    pub mode: Mode,
    pub cores: Seq<u16>,
    pub ring: Seq<char>,
    pub ring_slots: u64,
    pub url: Option<Seq<char>>,
    pub rest: Option<Seq<char>>,
    pub instruments: Seq<InstrumentModel>,
    pub ping_secs: u64,
    pub reconnect_secs: u64,
    pub burst: u32,
}

/// The crypto conf, as plain values.
pub struct CryptoModel {
    pub feeds: Seq<CryptoFeedModel>,
    pub health: Health,
    pub report_secs: u64,
}

/// A text, if any, as plain values.
pub open spec fn text_opt(t: Option<String>) -> Option<Seq<char>> {
    match t {
        Some(s) => Some(s@),
        None => None,
    }
}

impl View for InstrumentConf {
    type V = InstrumentModel;

    open spec fn view(&self) -> InstrumentModel {
        InstrumentModel {
            symbol: self.symbol@,
            price_decimals: self.price_decimals,
            qty_decimals: self.qty_decimals,
            channels: self.channels@.map_values(|c: String| c@),
            depth: self.depth,
        }
    }
}

impl View for CryptoFeedConf {
    type V = CryptoFeedModel;

    open spec fn view(&self) -> CryptoFeedModel {
        CryptoFeedModel {
            name: self.name@,
            venue: self.venue,
            mode: self.mode,
            cores: self.cores@,
            ring: self.ring@,
            ring_slots: self.ring_slots,
            url: text_opt(self.url),
            rest: text_opt(self.rest),
            instruments: self.instruments@.map_values(|i: InstrumentConf| i@),
            ping_secs: self.ping_secs,
            reconnect_secs: self.reconnect_secs,
            burst: self.burst,
        }
    }
}

impl View for CryptoConf {
    type V = CryptoModel;

    open spec fn view(&self) -> CryptoModel {
        CryptoModel {
            feeds: self.feeds@.map_values(|f: CryptoFeedConf| f@),
            health: self.health,
            report_secs: self.report_secs,
        }
    }
}

// ---------------------------------------------------------------------------
// What a conf reads as
// ---------------------------------------------------------------------------

/// The keys a crypto `[[feed]]` may hold.
pub open spec fn crypto_feed_keys() -> Seq<Seq<char>> {
    seq![
        "name"@,
        "venue"@,
        "mode"@,
        "cores"@,
        "ring"@,
        "ring_slots"@,
        "url"@,
        "rest"@,
        "instrument"@,
        "ping_secs"@,
        "reconnect_secs"@,
        "burst"@,
    ]
}

/// The keys a `[[feed.instrument]]` may hold.
pub open spec fn instrument_keys() -> Seq<Seq<char>> {
    seq!["symbol"@, "price_decimals"@, "qty_decimals"@, "channels"@, "depth"@]
}

/// The keys the top level may hold.
pub open spec fn crypto_root_keys() -> Seq<Seq<char>> {
    seq!["feed"@, "health"@, "log"@]
}

/// `venue`: one of the crypto venues' conf names.
pub open spec fn crypto_venue_of(at: Seq<char>, entries: Seq<(Seq<char>, Doc)>) -> Result<Venue, ConfFault> {
    match str_req(at, entries, "venue"@) {
        Err(f) => Err(f),
        Ok(t) => match crypto_venue(t) {
            Some(v) => Ok(v),
            None => Err(
                ConfFault::Invalid {
                    at,
                    key: "venue"@,
                    reason: "\""@ + t + "\" is not a venue; one of "@ + comma_joined(
                        crypto_names().map_values(|n: &str| n@),
                    ),
                },
            ),
        },
    }
}

/// The part of a feed every conf has: venue, mode, cores, ring and its size.
pub open spec fn crypto_head(at: Seq<char>, entries: Seq<(Seq<char>, Doc)>) -> Result<
    (Venue, Mode, Seq<u16>, Seq<char>, u64),
    ConfFault,
> {
    match crypto_venue_of(at, entries) {
        Err(f) => Err(f),
        Ok(venue) => match mode_of(at, entries) {
            Err(f) => Err(f),
            Ok(mode) => match u16s_req(at, entries, "cores"@) {
                Err(f) => Err(f),
                Ok(cores) => match str_req(at, entries, "ring"@) {
                    Err(f) => Err(f),
                    Ok(ring) => match u64_req(at, entries, "ring_slots"@) {
                        Err(f) => Err(f),
                        Ok(slots) => Ok((venue, mode, cores, ring, slots)),
                    },
                },
            },
        },
    }
}

/// `https://`, as bytes.
pub open spec fn https_bytes() -> Seq<u8> {
    seq![104u8, 116, 116, 112, 115, 58, 47, 47]
}

/// `http://`, as bytes.
pub open spec fn http_bytes() -> Seq<u8> {
    seq![104u8, 116, 116, 112, 58, 47, 47]
}

/// `b` begins with `p`.
pub open spec fn has_prefix(b: Seq<u8>, p: Seq<u8>) -> bool {
    p.len() <= b.len() && b.subrange(0, p.len() as int) == p
}

/// `rest`: an `http://` or `https://` address, optional.
pub open spec fn rest_of(at: Seq<char>, entries: Seq<(Seq<char>, Doc)>) -> Result<Option<Seq<char>>, ConfFault> {
    match str_opt(at, entries, "rest"@) {
        Err(f) => Err(f),
        Ok(None) => Ok(None),
        Ok(Some(t)) => if has_prefix(encode_utf8(t), https_bytes()) || has_prefix(encode_utf8(t), http_bytes()) {
            Ok(Some(t))
        } else {
            Err(ConfFault::Invalid { at, key: "rest"@, reason: "`"@ + t + "` must start with http:// or https://"@ })
        },
    }
}

/// Why channel `i` of `texts` cannot stand, if it cannot: not in the
/// vocabulary, or listed before.
pub open spec fn channel_fault(texts: Seq<Seq<char>>, i: int, vocab: Seq<Seq<char>>) -> Option<Seq<char>> {
    if !vocab.contains(texts[i]) {
        Some("`"@ + texts[i] + "` is not a channel; one of "@ + comma_joined(vocab))
    } else if texts.subrange(0, i).contains(texts[i]) {
        Some("`"@ + texts[i] + "` is listed twice"@)
    } else {
        None
    }
}

/// The first channel from `from` on that cannot stand, and why.
pub open spec fn first_channel_fault(texts: Seq<Seq<char>>, from: int, vocab: Seq<Seq<char>>) -> Option<Seq<char>>
    decreases texts.len() - from,
{
    if from < 0 || from >= texts.len() {
        None
    } else {
        match channel_fault(texts, from, vocab) {
            Some(r) => Some(r),
            None => first_channel_fault(texts, from + 1, vocab),
        }
    }
}

/// `channels`: each in the vocabulary, none twice, at least one.
pub open spec fn channels_of(at: Seq<char>, entries: Seq<(Seq<char>, Doc)>, vocab: Seq<Seq<char>>) -> Result<
    Seq<Seq<char>>,
    ConfFault,
> {
    match strs_req(at, entries, "channels"@) {
        Err(f) => Err(f),
        Ok(texts) => match first_channel_fault(texts, 0, vocab) {
            Some(reason) => Err(ConfFault::Invalid { at, key: "channels"@, reason }),
            None => if texts.len() == 0 {
                Err(ConfFault::Invalid { at, key: "channels"@, reason: "is empty"@ })
            } else {
                Ok(texts)
            },
        },
    }
}

/// `depth`: at least one and fitting 16 bits, optional.
pub open spec fn depth_of(at: Seq<char>, entries: Seq<(Seq<char>, Doc)>) -> Result<Option<u16>, ConfFault> {
    match u64_opt(at, entries, "depth"@) {
        Err(f) => Err(f),
        Ok(None) => Ok(None),
        Ok(Some(n)) => if n == 0 {
            Err(ConfFault::Invalid { at, key: "depth"@, reason: "must be at least 1"@ })
        } else if n <= u16::MAX {
            Ok(Some(n as u16))
        } else {
            Err(ConfFault::Invalid { at, key: "depth"@, reason: "is too large"@ })
        },
    }
}

/// An instrument of symbol `symbol` whose errors call it `at`.
pub open spec fn instrument_of(
    at: Seq<char>,
    entries: Seq<(Seq<char>, Doc)>,
    symbol: Seq<char>,
    vocab: Seq<Seq<char>>,
) -> Result<InstrumentModel, ConfFault> {
    match decimals_of(at, entries, "price_decimals"@) {
        Err(f) => Err(f),
        Ok(price_decimals) => match decimals_of(at, entries, "qty_decimals"@) {
            Err(f) => Err(f),
            Ok(qty_decimals) => match channels_of(at, entries, vocab) {
                Err(f) => Err(f),
                Ok(channels) => match depth_of(at, entries) {
                    Err(f) => Err(f),
                    Ok(depth) => match finish_of(at, entries, instrument_keys()) {
                        Err(f) => Err(f),
                        Ok(()) => Ok(InstrumentModel { symbol, price_decimals, qty_decimals, channels, depth }),
                    },
                },
            },
        },
    }
}

/// `feed[name].instrument[label]`: how errors name an instrument.
pub open spec fn instrument_at(feed: Seq<char>, label: Seq<char>) -> Seq<char> {
    feed + ".instrument["@ + label + "]"@
}

/// The first `k` of a feed's `[[feed.instrument]]` tables, or the first
/// fault.
pub open spec fn instruments_of(feed: Seq<char>, tables: Seq<Seq<(Seq<char>, Doc)>>, k: int, vocab: Seq<Seq<char>>) -> Result<
    Seq<InstrumentModel>,
    ConfFault,
>
    decreases k,
{
    if k <= 0 {
        Ok(Seq::empty())
    } else {
        match instruments_of(feed, tables, k - 1, vocab) {
            Err(f) => Err(f),
            Ok(insts) => match str_req(instrument_at(feed, decimal((k - 1) as nat)), tables[k - 1], "symbol"@) {
                Err(f) => Err(f),
                Ok(symbol) => match instrument_of(instrument_at(feed, symbol), tables[k - 1], symbol, vocab) {
                    Err(f) => Err(f),
                    Ok(m) => Ok(insts.push(m)),
                },
            },
        }
    }
}

/// Everything of a feed after its `url`.
pub open spec fn crypto_rest(at: Seq<char>, entries: Seq<(Seq<char>, Doc)>, d: CryptoDefaults, vocab: Seq<Seq<char>>) -> Result<
    (Option<Seq<char>>, Seq<InstrumentModel>, u64, u64, u32),
    ConfFault,
> {
    match rest_of(at, entries) {
        Err(f) => Err(f),
        Ok(rest) => match tables_of(at, entries, "instrument"@) {
            Err(f) => Err(f),
            Ok(tables) => match instruments_of(at, tables, tables.len() as int, vocab) {
                Err(f) => Err(f),
                Ok(instruments) => match u64_opt(at, entries, "ping_secs"@) {
                    Err(f) => Err(f),
                    Ok(ping) => match positive_u64_or(at, entries, "reconnect_secs"@, d.reconnect_secs) {
                        Err(f) => Err(f),
                        Ok(reconnect_secs) => match positive_u32_or(at, entries, "burst"@, d.burst) {
                            Err(f) => Err(f),
                            Ok(burst) => match finish_of(at, entries, crypto_feed_keys()) {
                                Err(f) => Err(f),
                                Ok(()) => Ok(
                                    (
                                        rest,
                                        instruments,
                                        match ping {
                                            Some(n) => n,
                                            None => d.ping_secs,
                                        },
                                        reconnect_secs,
                                        burst,
                                    ),
                                ),
                            },
                        },
                    },
                },
            },
        },
    }
}

/// A feed named `name` whose errors call it `at`: the `url` it read, if
/// any, and the feed or the first fault.
pub open spec fn crypto_feed_of(
    at: Seq<char>,
    entries: Seq<(Seq<char>, Doc)>,
    name: Seq<char>,
    d: CryptoDefaults,
    vocab: Seq<Seq<char>>,
) -> (Option<Seq<char>>, Result<CryptoFeedModel, ConfFault>) {
    match crypto_head(at, entries) {
        Err(f) => (None, Err(f)),
        Ok((venue, mode, cores, ring, ring_slots)) => match str_opt(at, entries, "url"@) {
            Err(f) => (None, Err(f)),
            Ok(url) => (
                url,
                match crypto_rest(at, entries, d, vocab) {
                    Err(f) => Err(f),
                    Ok((rest, instruments, ping_secs, reconnect_secs, burst)) => Ok(
                        CryptoFeedModel {
                            name,
                            venue,
                            mode,
                            cores,
                            ring,
                            ring_slots,
                            url,
                            rest,
                            instruments,
                            ping_secs,
                            reconnect_secs,
                            burst,
                        },
                    ),
                },
            ),
        },
    }
}

/// The first `k` of the `[[feed]]` tables: the urls read, each with its
/// feed, and the feeds or the first fault.
pub open spec fn crypto_feeds_of(tables: Seq<Seq<(Seq<char>, Doc)>>, k: int, d: CryptoDefaults, vocab: Seq<Seq<char>>) -> (
    Seq<(Seq<char>, Seq<char>)>,
    Result<Seq<CryptoFeedModel>, ConfFault>,
)
    decreases k,
{
    if k <= 0 {
        (Seq::empty(), Ok(Seq::empty()))
    } else {
        let (urls, before) = crypto_feeds_of(tables, k - 1, d, vocab);
        match before {
            Err(f) => (urls, Err(f)),
            Ok(feeds) => match str_req(feed_at(decimal((k - 1) as nat)), tables[k - 1], "name"@) {
                Err(f) => (urls, Err(f)),
                Ok(name) => {
                    let at = feed_at(name);
                    let (url, feed) = crypto_feed_of(at, tables[k - 1], name, d, vocab);
                    (
                        match url {
                            Some(u) => urls.push((at, u)),
                            None => urls,
                        },
                        match feed {
                            Ok(m) => Ok(feeds.push(m)),
                            Err(f) => Err(f),
                        },
                    )
                },
            },
        }
    }
}

/// What the file reads as: the urls read, and the conf or the first fault
/// after them.
pub open spec fn crypto_of(root: Seq<(Seq<char>, Doc)>, d: CryptoDefaults, vocab: Seq<Seq<char>>) -> (
    Seq<(Seq<char>, Seq<char>)>,
    Result<CryptoModel, ConfFault>,
) {
    match tables_of(Seq::empty(), root, "feed"@) {
        Err(f) => (Seq::empty(), Err(f)),
        Ok(tables) => {
            let (urls, feeds) = crypto_feeds_of(tables, tables.len() as int, d, vocab);
            (
                urls,
                match feeds {
                    Err(f) => Err(f),
                    Ok(feeds) => match health_of(root) {
                        Err(f) => Err(f),
                        Ok(health) => match report_secs_of(root) {
                            Err(f) => Err(f),
                            Ok(report_secs) => match finish_of(Seq::empty(), root, crypto_root_keys()) {
                                Err(f) => Err(f),
                                Ok(()) => Ok(CryptoModel { feeds, health, report_secs }),
                            },
                        },
                    },
                },
            )
        },
    }
}


// ---------------------------------------------------------------------------
// Reading it
// ---------------------------------------------------------------------------

/// `b` begins with `p`.
fn starts_with(b: &[u8], p: &[u8]) -> (res: bool)
    ensures
        res == has_prefix(b@, p@),
{
    if p.len() > b.len() {
        return false;
    }
    let mut i: usize = 0;
    while i < p.len()
        invariant
            i <= p@.len() <= b@.len(),
            forall|k: int| 0 <= k < i ==> b@[k] == p@[k],
        decreases p@.len() - i,
    {
        if b[i] != p[i] {
            assert(b@.subrange(0, p@.len() as int)[i as int] != p@[i as int]);
            return false;
        }
        i += 1;
    }
    assert(b@.subrange(0, p@.len() as int) =~= p@);
    true
}

/// `items[..end]` holds `x`.
fn holds_text_before(items: &Vec<String>, end: usize, x: &str) -> (res: bool)
    requires
        end <= items@.len(),
    ensures
        res == items@.map_values(|c: String| c@).subrange(0, end as int).contains(x@),
{
    let ghost texts = items@.map_values(|c: String| c@);
    let mut k: usize = 0;
    while k < end
        invariant
            k <= end <= items@.len(),
            texts == items@.map_values(|c: String| c@),
            forall|m: int| 0 <= m < k ==> #[trigger] texts[m] != x@,
        decreases end - k,
    {
        if str_eq(items[k].as_str(), x) {
            assert(texts.subrange(0, end as int)[k as int] == x@);
            return true;
        }
        k += 1;
    }
    assert forall|m: int| 0 <= m < end implies texts.subrange(0, end as int)[m] != x@ by {
        assert(texts.subrange(0, end as int)[m] == texts[m]);
    }
    false
}

/// `vocab` holds `x`.
fn in_vocab(vocab: &[&str], x: &str) -> (res: bool)
    ensures
        res == vocab@.map_values(|n: &str| n@).contains(x@),
{
    let ghost names = vocab@.map_values(|n: &str| n@);
    let mut k: usize = 0;
    while k < vocab.len()
        invariant
            k <= vocab@.len(),
            names == vocab@.map_values(|n: &str| n@),
            forall|m: int| 0 <= m < k ==> #[trigger] names[m] != x@,
        decreases vocab@.len() - k,
    {
        if str_eq(vocab[k], x) {
            assert(names[k as int] == x@);
            return true;
        }
        k += 1;
    }
    false
}

fn read_channels(s: &Section, vocab: &[&str]) -> (res: Result<Vec<String>, ConfError>)
    ensures
        match channels_of(s.name(), s.entries(), vocab@.map_values(|n: &str| n@)) {
            Ok(cs) => res matches Ok(v) && v@.map_values(|c: String| c@) == cs,
            Err(f) => res matches Err(e) && e@ == f,
        },
{
    let ghost names = vocab@.map_values(|n: &str| n@);
    let texts = match s.required_strs("channels") {
        Err(e) => {
            return Err(e);
        },
        Ok(t) => t,
    };
    let ghost ts = match strs_req(s.name(), s.entries(), "channels"@) {
        Ok(ts) => ts,
        Err(_) => Seq::empty(),
    };
    let mut out: Vec<String> = Vec::new();
    let mut i: usize = 0;
    while i < texts.len()
        invariant
            i <= texts@.len(),
            names == vocab@.map_values(|n: &str| n@),
            strs_req(s.name(), s.entries(), "channels"@) == Ok::<Seq<Seq<char>>, ConfFault>(ts),
            texts@.len() == ts.len(),
            forall|k: int| 0 <= k < ts.len() ==> #[trigger] texts@[k]@ == ts[k],
            first_channel_fault(ts, 0, names) == first_channel_fault(ts, i as int, names),
            out@.map_values(|c: String| c@) == ts.subrange(0, i as int),
            out@.len() == i,
        decreases texts@.len() - i,
    {
        let text = texts[i];
        if !in_vocab(vocab, text) {
            let mut reason = String::from_str("`");
            reason.append(text);
            reason.append("` is not a channel; one of ");
            push_comma_joined(&mut reason, vocab);
            return Err(s.invalid("channels", reason.as_str()));
        }
        if holds_text_before(&out, i, text) {
            assert(out@.map_values(|c: String| c@).subrange(0, i as int) =~= ts.subrange(0, i as int));
            let mut reason = String::from_str("`");
            reason.append(text);
            reason.append("` is listed twice");
            return Err(s.invalid("channels", reason.as_str()));
        }
        assert(out@.map_values(|c: String| c@).subrange(0, i as int) =~= ts.subrange(0, i as int));
        let t = String::from_str(text);
        proof {
            assert(out@.push(t).map_values(|c: String| c@) =~= out@.map_values(|c: String| c@).push(t@));
            assert(ts.subrange(0, i + 1) =~= ts.subrange(0, i as int).push(ts[i as int]));
        }
        out.push(t);
        i += 1;
    }
    assert(ts.subrange(0, ts.len() as int) =~= ts);
    if out.len() == 0 {
        return Err(s.invalid("channels", "is empty"));
    }
    Ok(out)
}

fn read_depth(s: &Section) -> (res: Result<Option<u16>, ConfError>)
    ensures
        match depth_of(s.name(), s.entries()) {
            Ok(d) => res == Ok::<Option<u16>, ConfError>(d),
            Err(f) => res matches Err(e) && e@ == f,
        },
{
    match s.optional_u64("depth") {
        Err(e) => Err(e),
        Ok(None) => Ok(None),
        Ok(Some(n)) => {
            if n == 0 {
                Err(s.invalid("depth", "must be at least 1"))
            } else if n <= 0xffff {
                Ok(Some(n as u16))
            } else {
                Err(s.invalid("depth", "is too large"))
            }
        },
    }
}

/// An instrument of symbol `symbol`.
fn read_instrument(s: &Section, symbol: String, vocab: &[&str]) -> (res: Result<InstrumentConf, ConfError>)
    ensures
        match instrument_of(s.name(), s.entries(), symbol@, vocab@.map_values(|n: &str| n@)) {
            Ok(m) => res matches Ok(i) && i@ == m,
            Err(f) => res matches Err(e) && e@ == f,
        },
{
    let price_decimals = match s.decimals("price_decimals") {
        Err(e) => {
            return Err(e);
        },
        Ok(n) => n,
    };
    let qty_decimals = match s.decimals("qty_decimals") {
        Err(e) => {
            return Err(e);
        },
        Ok(n) => n,
    };
    let channels = match read_channels(s, vocab) {
        Err(e) => {
            return Err(e);
        },
        Ok(c) => c,
    };
    let depth = match read_depth(s) {
        Err(e) => {
            return Err(e);
        },
        Ok(d) => d,
    };
    let known: [&str; 5] = ["symbol", "price_decimals", "qty_decimals", "channels", "depth"];
    assert(known@.map_values(|k: &str| k@) =~= instrument_keys());
    match s.finish(known.as_slice()) {
        Err(e) => Err(e),
        Ok(()) => Ok(InstrumentConf { symbol, price_decimals, qty_decimals, channels, depth }),
    }
}

/// `feed[name].instrument[label]`.
fn instrument_label(feed: &str, label: &str) -> (res: String)
    ensures
        res@ == instrument_at(feed@, label@),
{
    let mut s = String::from_str(feed);
    s.append(".instrument[");
    s.append(label);
    s.append("]");
    s
}

/// `feed[name].instrument[i]`.
fn instrument_index(feed: &str, i: usize) -> (res: String)
    ensures
        res@ == instrument_at(feed@, decimal(i as nat)),
{
    let mut s = String::from_str(feed);
    s.append(".instrument[");
    push_decimal(&mut s, i as u64);
    s.append("]");
    assert(s@ =~= instrument_at(feed@, decimal(i as nat)));
    s
}

/// Once an instrument has failed, later tables change nothing.
proof fn lemma_instruments_stop(feed: Seq<char>, tables: Seq<Seq<(Seq<char>, Doc)>>, k: int, m: int, vocab: Seq<Seq<char>>)
    requires
        0 <= k <= m,
        instruments_of(feed, tables, k, vocab) is Err,
    ensures
        instruments_of(feed, tables, m, vocab) == instruments_of(feed, tables, k, vocab),
    decreases m - k,
{
    if m > k {
        lemma_instruments_stop(feed, tables, k, m - 1, vocab);
    }
}

/// The feed's instruments, in file order.
fn read_instruments(s: &Section, vocab: &[&str]) -> (res: Result<Vec<InstrumentConf>, ConfError>)
    ensures
        match tables_of(s.name(), s.entries(), "instrument"@) {
            Err(f) => res matches Err(e) && e@ == f,
            Ok(ts) => match instruments_of(s.name(), ts, ts.len() as int, vocab@.map_values(|n: &str| n@)) {
                Ok(m) => res matches Ok(v) && v@.map_values(|i: InstrumentConf| i@) == m,
                Err(f) => res matches Err(e) && e@ == f,
            },
        },
{
    let ghost names = vocab@.map_values(|n: &str| n@);
    let tables = match s.tables("instrument") {
        Err(e) => {
            return Err(e);
        },
        Ok(t) => t,
    };
    let ghost ts = match tables_of(s.name(), s.entries(), "instrument"@) {
        Ok(ts) => ts,
        Err(_) => Seq::empty(),
    };
    let mut out: Vec<InstrumentConf> = Vec::new();
    assert(out@.map_values(|i: InstrumentConf| i@) =~= Seq::<InstrumentModel>::empty());
    let mut i: usize = 0;
    while i < tables.len()
        invariant
            i <= tables@.len(),
            names == vocab@.map_values(|n: &str| n@),
            tables_of(s.name(), s.entries(), "instrument"@) == Ok::<Seq<Seq<(Seq<char>, Doc)>>, ConfFault>(ts),
            tables@.len() == ts.len(),
            forall|k: int| 0 <= k < ts.len() ==> #[trigger] tables@[k].doc_entries() == ts[k],
            instruments_of(s.name(), ts, i as int, names) == Ok::<Seq<InstrumentModel>, ConfFault>(
                out@.map_values(|i: InstrumentConf| i@),
            ),
        decreases tables@.len() - i,
    {
        let t = tables[i];
        let at0 = instrument_index(s.at, i);
        let s0 = Section::new(at0.as_str(), t);
        let symbol = match s0.required_str("symbol") {
            Err(e) => {
                proof {
                    lemma_instruments_stop(s.name(), ts, i + 1, ts.len() as int, names);
                }
                return Err(e);
            },
            Ok(n) => n,
        };
        let at = instrument_label(s.at, symbol);
        let si = Section::new(at.as_str(), t);
        match read_instrument(&si, String::from_str(symbol), vocab) {
            Err(e) => {
                proof {
                    lemma_instruments_stop(s.name(), ts, i + 1, ts.len() as int, names);
                }
                return Err(e);
            },
            Ok(inst) => {
                proof {
                    assert(out@.push(inst).map_values(|i: InstrumentConf| i@) =~= out@.map_values(
                        |i: InstrumentConf| i@,
                    ).push(inst@));
                }
                out.push(inst);
            },
        }
        i += 1;
    }
    Ok(out)
}


fn read_crypto_venue(s: &Section) -> (res: Result<Venue, ConfError>)
    ensures
        match crypto_venue_of(s.name(), s.entries()) {
            Ok(v) => res == Ok::<Venue, ConfError>(v),
            Err(f) => res matches Err(e) && e@ == f,
        },
{
    let text = match s.required_str("venue") {
        Err(e) => {
            return Err(e);
        },
        Ok(t) => t,
    };
    match venue_by_name(text) {
        Some(v) => Ok(v),
        None => {
            let mut reason = String::from_str("\"");
            reason.append(text);
            reason.append("\" is not a venue; one of ");
            let names = venue_names();
            push_comma_joined(&mut reason, names.as_slice());
            Err(s.invalid("venue", reason.as_str()))
        },
    }
}

fn read_crypto_head(s: &Section) -> (res: Result<(Venue, Mode, Vec<u16>, String, u64), ConfError>)
    ensures
        match crypto_head(s.name(), s.entries()) {
            Ok((v, m, c, r, n)) => res matches Ok(x) && x.0 == v && x.1 == m && x.2@ == c && x.3@ == r && x.4 == n,
            Err(f) => res matches Err(e) && e@ == f,
        },
{
    let venue = match read_crypto_venue(s) {
        Err(e) => {
            return Err(e);
        },
        Ok(v) => v,
    };
    let mode = match read_mode(s) {
        Err(e) => {
            return Err(e);
        },
        Ok(m) => m,
    };
    let cores = match s.required_u16s("cores") {
        Err(e) => {
            return Err(e);
        },
        Ok(c) => c,
    };
    let ring = match s.required_str("ring") {
        Err(e) => {
            return Err(e);
        },
        Ok(r) => String::from_str(r),
    };
    let ring_slots = match s.required_u64("ring_slots") {
        Err(e) => {
            return Err(e);
        },
        Ok(n) => n,
    };
    Ok((venue, mode, cores, ring, ring_slots))
}

fn read_rest(s: &Section) -> (res: Result<Option<String>, ConfError>)
    ensures
        match rest_of(s.name(), s.entries()) {
            Ok(r) => res matches Ok(x) && text_opt(x) == r,
            Err(f) => res matches Err(e) && e@ == f,
        },
{
    match s.optional_str("rest") {
        Err(e) => Err(e),
        Ok(None) => Ok(None),
        Ok(Some(t)) => {
            let https: [u8; 8] = [104, 116, 116, 112, 115, 58, 47, 47];
            let http: [u8; 7] = [104, 116, 116, 112, 58, 47, 47];
            assert(https@ =~= https_bytes());
            assert(http@ =~= http_bytes());
            if starts_with(t.as_bytes(), https.as_slice()) || starts_with(t.as_bytes(), http.as_slice()) {
                Ok(Some(String::from_str(t)))
            } else {
                let mut reason = String::from_str("`");
                reason.append(t);
                reason.append("` must start with http:// or https://");
                Err(s.invalid("rest", reason.as_str()))
            }
        },
    }
}

/// Everything of a feed after its `url`.
fn read_crypto_rest(s: &Section, d: CryptoDefaults, vocab: &[&str]) -> (res: Result<
    (Option<String>, Vec<InstrumentConf>, u64, u64, u32),
    ConfError,
>)
    ensures
        match crypto_rest(s.name(), s.entries(), d, vocab@.map_values(|n: &str| n@)) {
            Ok((r, insts, p, rc, b)) => res matches Ok(x) && text_opt(x.0) == r && x.1@.map_values(
                |i: InstrumentConf| i@,
            ) == insts && x.2 == p && x.3 == rc && x.4 == b,
            Err(f) => res matches Err(e) && e@ == f,
        },
{
    let rest = match read_rest(s) {
        Err(e) => {
            return Err(e);
        },
        Ok(r) => r,
    };
    let instruments = match read_instruments(s, vocab) {
        Err(e) => {
            return Err(e);
        },
        Ok(v) => v,
    };
    let ping_secs = match s.optional_u64("ping_secs") {
        Err(e) => {
            return Err(e);
        },
        Ok(None) => d.ping_secs,
        Ok(Some(n)) => n,
    };
    let reconnect_secs = match s.positive_u64_or("reconnect_secs", d.reconnect_secs) {
        Err(e) => {
            return Err(e);
        },
        Ok(n) => n,
    };
    let burst = match s.positive_u32_or("burst", d.burst) {
        Err(e) => {
            return Err(e);
        },
        Ok(n) => n,
    };
    let known: [&str; 12] = [
        "name",
        "venue",
        "mode",
        "cores",
        "ring",
        "ring_slots",
        "url",
        "rest",
        "instrument",
        "ping_secs",
        "reconnect_secs",
        "burst",
    ];
    assert(known@.map_values(|k: &str| k@) =~= crypto_feed_keys());
    match s.finish(known.as_slice()) {
        Err(e) => Err(e),
        Ok(()) => Ok((rest, instruments, ping_secs, reconnect_secs, burst)),
    }
}

/// A feed named `name`: the `url` it read, if any, and the feed or the
/// first fault.
fn read_crypto_feed(s: &Section, name: String, d: CryptoDefaults, vocab: &[&str]) -> (res: (
    Option<String>,
    Result<CryptoFeedConf, ConfError>,
))
    ensures
        ({
            let (url, feed) = crypto_feed_of(s.name(), s.entries(), name@, d, vocab@.map_values(|n: &str| n@));
            &&& text_opt(res.0) == url
            &&& match feed {
                Ok(m) => res.1 matches Ok(f) && f@ == m,
                Err(f) => res.1 matches Err(e) && e@ == f,
            }
        }),
{
    let (venue, mode, cores, ring, ring_slots) = match read_crypto_head(s) {
        Err(e) => {
            return (None, Err(e));
        },
        Ok(h) => h,
    };
    let url = match s.optional_str("url") {
        Err(e) => {
            return (None, Err(e));
        },
        Ok(None) => None,
        Ok(Some(t)) => Some(String::from_str(t)),
    };
    let read = match &url {
        Some(t) => Some(String::from_str(t.as_str())),
        None => None,
    };
    match read_crypto_rest(s, d, vocab) {
        Err(e) => (read, Err(e)),
        Ok((rest, instruments, ping_secs, reconnect_secs, burst)) => (
            read,
            Ok(
                CryptoFeedConf {
                    name,
                    venue,
                    mode,
                    cores,
                    ring,
                    ring_slots,
                    url,
                    rest,
                    instruments,
                    ping_secs,
                    reconnect_secs,
                    burst,
                },
            ),
        ),
    }
}

/// Once a feed has failed, later tables change nothing.
proof fn lemma_crypto_feeds_stop(
    tables: Seq<Seq<(Seq<char>, Doc)>>,
    k: int,
    m: int,
    d: CryptoDefaults,
    vocab: Seq<Seq<char>>,
)
    requires
        0 <= k <= m,
        crypto_feeds_of(tables, k, d, vocab).1 is Err,
    ensures
        crypto_feeds_of(tables, m, d, vocab) == crypto_feeds_of(tables, k, d, vocab),
    decreases m - k,
{
    if m > k {
        lemma_crypto_feeds_stop(tables, k, m - 1, d, vocab);
    }
}

/// `urls` read as the pairs of feed and text that `crypto_of` lists.
pub open spec fn urls_are(got: Seq<UrlText>, want: Seq<(Seq<char>, Seq<char>)>) -> bool {
    &&& got.len() == want.len()
    &&& forall|k: int| 0 <= k < want.len() ==> #[trigger] got[k].at@ == want[k].0 && got[k].text@ == want[k].1
}

impl CryptoConf {
    /// Reads parsed TOML, with the receiver's own values for the knobs a
    /// feed leaves out and its channel names, in its order.
    pub fn from_table(table: &Table, defaults: CryptoDefaults, channels: &[&str]) -> (res: CryptoRead)
        requires
            health_fits(table.doc_entries()),
        ensures
            ({
                let (urls, conf) = crypto_of(table.doc_entries(), defaults, channels@.map_values(|n: &str| n@));
                &&& urls_are(res.urls@, urls)
                &&& match conf {
                    Ok(m) => res.conf matches Ok(c) && c@ == m,
                    Err(f) => res.conf matches Err(e) && e@ == f,
                }
            }),
    {
        let ghost vocab = channels@.map_values(|n: &str| n@);
        let root = Section::new("", table);
        proof {
            reveal_strlit("");
            reveal_strlit("health");
        }
        assert(root.name() =~= Seq::<char>::empty());
        let mut urls: Vec<UrlText> = Vec::new();
        let tables = match root.tables("feed") {
            Err(e) => {
                return CryptoRead { urls, conf: Err(e) };
            },
            Ok(t) => t,
        };
        let ghost ts = match tables_of(Seq::empty(), table.doc_entries(), "feed"@) {
            Ok(ts) => ts,
            Err(_) => Seq::empty(),
        };
        let ghost whole = crypto_of(table.doc_entries(), defaults, vocab);
        let ghost all = crypto_feeds_of(ts, ts.len() as int, defaults, vocab);
        assert(whole.0 == all.0);
        assert(all.1 matches Err(f) ==> whole.1 == Err::<CryptoModel, ConfFault>(f));
        let mut feeds: Vec<CryptoFeedConf> = Vec::new();
        assert(feeds@.map_values(|f: CryptoFeedConf| f@) =~= Seq::<CryptoFeedModel>::empty());
        let mut i: usize = 0;
        while i < tables.len()
            invariant
                vocab == channels@.map_values(|n: &str| n@),
                whole == crypto_of(table.doc_entries(), defaults, vocab),
                all == crypto_feeds_of(ts, ts.len() as int, defaults, vocab),
                whole.0 == all.0,
                all.1 matches Err(f) ==> whole.1 == Err::<CryptoModel, ConfFault>(f),
                i <= tables@.len(),
                tables@.len() == ts.len(),
                forall|k: int| 0 <= k < ts.len() ==> #[trigger] tables@[k].doc_entries() == ts[k],
                crypto_feeds_of(ts, i as int, defaults, vocab).1 == Ok::<Seq<CryptoFeedModel>, ConfFault>(
                    feeds@.map_values(|f: CryptoFeedConf| f@),
                ),
                urls_are(urls@, crypto_feeds_of(ts, i as int, defaults, vocab).0),
            decreases tables@.len() - i,
        {
            let t = tables[i];
            let at0 = feed_index(i);
            let s0 = Section::new(at0.as_str(), t);
            let name = match s0.required_str("name") {
                Err(e) => {
                    proof {
                        lemma_crypto_feeds_stop(ts, i + 1, ts.len() as int, defaults, vocab);
                    }
                    return CryptoRead { urls, conf: Err(e) };
                },
                Ok(n) => n,
            };
            let at = feed_label(name);
            let s = Section::new(at.as_str(), t);
            let ghost before = urls@;
            let (url, feed) = read_crypto_feed(&s, String::from_str(name), defaults, channels);
            match url {
                Some(u) => {
                    urls.push(UrlText { at: String::from_str(at.as_str()), text: u });
                },
                None => {},
            }
            proof {
                let want = crypto_feeds_of(ts, i + 1, defaults, vocab).0;
                assert forall|k: int| 0 <= k < want.len() implies #[trigger] urls@[k].at@ == want[k].0
                    && urls@[k].text@ == want[k].1 by {
                    if k < before.len() {
                        assert(urls@[k] == before[k]);
                    }
                }
            }
            match feed {
                Err(e) => {
                    proof {
                        lemma_crypto_feeds_stop(ts, i + 1, ts.len() as int, defaults, vocab);
                    }
                    return CryptoRead { urls, conf: Err(e) };
                },
                Ok(f) => {
                    proof {
                        assert(feeds@.push(f).map_values(|f: CryptoFeedConf| f@) =~= feeds@.map_values(
                            |f: CryptoFeedConf| f@,
                        ).push(f@));
                    }
                    feeds.push(f);
                },
            }
            i += 1;
        }
        let health_section = match root.optional_table("health") {
            Err(e) => {
                return CryptoRead { urls, conf: Err(e) };
            },
            Ok(h) => h,
        };
        let health = match Health::from_section(health_section) {
            Err(e) => {
                return CryptoRead { urls, conf: Err(e) };
            },
            Ok(h) => h,
        };
        let report_secs = match read_report_secs(&root) {
            Err(e) => {
                return CryptoRead { urls, conf: Err(e) };
            },
            Ok(n) => n,
        };
        let known: [&str; 3] = ["feed", "health", "log"];
        assert(known@.map_values(|k: &str| k@) =~= crypto_root_keys());
        match root.finish(known.as_slice()) {
            Err(e) => CryptoRead { urls, conf: Err(e) },
            Ok(()) => CryptoRead { urls, conf: Ok(CryptoConf { feeds, health, report_secs }) },
        }
    }
}


// ---------------------------------------------------------------------------
// Its rules
// ---------------------------------------------------------------------------

impl CryptoFeedConf {
    /// The affinity mask, or `None` if a core is beyond the mask's width.
    pub fn mask(&self) -> (res: Option<Mask>)
        ensures
            res is None <==> exists|j: int| 0 <= j < self.cores@.len() && self.cores@[j] >= 64,
            res matches Some(m) ==> forall|lp: int| 0 <= lp < 64 ==> (names(m, lp) <==> lists(self.cores@, lp)),
    {
        mask_of(self.cores.as_slice())
    }

    /// The part every conf's feed has, for the shared rules.
    pub fn placement(&self) -> (res: Placement<'_>)
        ensures
            res.name@ == self.name@,
            res.spin == (self.mode == Mode::Spin),
            res.cores@ == self.cores@,
            res.ring@ == self.ring@,
            res.ring_slots == self.ring_slots,
    {
        let spin = match self.mode {
            Mode::Spin => true,
            Mode::Block => false,
        };
        Placement {
            name: self.name.as_str(),
            spin,
            cores: self.cores.as_slice(),
            ring: self.ring.as_str(),
            ring_slots: self.ring_slots,
        }
    }
}

/// `ps` are the feeds' placements, in order.
pub open spec fn crypto_placements(ps: Seq<Placement>, feeds: Seq<CryptoFeedConf>) -> bool {
    &&& ps.len() == feeds.len()
    &&& forall|i: int| #![trigger ps[i]] 0 <= i < feeds.len() ==> {
        &&& ps[i].name@ == feeds[i].name@
        &&& ps[i].spin == (feeds[i].mode == Mode::Spin)
        &&& ps[i].cores@ == feeds[i].cores@
        &&& ps[i].ring@ == feeds[i].ring@
        &&& ps[i].ring_slots == feeds[i].ring_slots
    }
}

/// Instrument `j` was refused.
pub open spec fn refused(inst: Seq<Option<Seq<char>>>) -> spec_fn(int) -> bool {
    |j: int| inst[j] is Some
}

/// What building feed `f`'s router answers, given what the receiver said of
/// each instrument and of the router: no instrument, the first refused
/// instrument, or the router's refusal.
pub open spec fn router_fault(f: CryptoFeedConf, inst: Seq<Option<Seq<char>>>, router: Option<Seq<char>>) -> Option<
    RuleFault,
> {
    if f.instruments@.len() == 0 {
        Some(RuleFault::NoInstruments { feed: f.name@ })
    } else {
        match first_where(f.instruments@.len() as int, 0, refused(inst)) {
            Some(j) => Some(
                RuleFault::Instrument { feed: f.name@, symbol: f.instruments@[j].symbol@, reason: inst[j]->0 },
            ),
            None => match router {
                Some(r) => Some(RuleFault::Router { feed: f.name@, reason: r }),
                None => None,
            },
        }
    }
}

/// The first feed from `i` on whose router cannot be built.
pub open spec fn first_router_fault(
    feeds: Seq<CryptoFeedConf>,
    inst: Seq<Seq<Option<Seq<char>>>>,
    router: Seq<Option<Seq<char>>>,
    i: int,
) -> Option<RuleFault>
    decreases feeds.len() - i,
{
    if i < 0 || i >= feeds.len() {
        None
    } else {
        match router_fault(feeds[i], inst[i], router[i]) {
            Some(f) => Some(f),
            None => first_router_fault(feeds, inst, router, i + 1),
        }
    }
}

/// What each instrument's refusal reads as, per feed.
pub open spec fn instrument_texts(refusals: Seq<Vec<Option<String>>>) -> Seq<Seq<Option<Seq<char>>>> {
    refusals.map_values(|v: Vec<Option<String>>| refusal_texts(v@))
}

/// What the crypto conf's rules answer: the shared placement rules, then
/// each feed's router, in file order.
pub open spec fn crypto_verdict(
    ps: Seq<Placement>,
    feeds: Seq<CryptoFeedConf>,
    topology: Option<Seq<u64>>,
    refusals: Seq<Option<Seq<char>>>,
    inst: Seq<Seq<Option<Seq<char>>>>,
    router: Seq<Option<Seq<char>>>,
) -> Result<Option<RuleFault>, ()> {
    match placement_verdict(ps, topology, refusals) {
        Ok(None) => Ok(first_router_fault(feeds, inst, router, 0)),
        other => other,
    }
}

/// The first feed from `i` on whose router cannot be built, as an error.
fn router_error(
    feeds: &Vec<CryptoFeedConf>,
    instrument_refusals: &[Vec<Option<String>>],
    router_refusals: &[Option<String>],
) -> (res: Option<RuleError>)
    requires
        instrument_refusals@.len() == feeds@.len(),
        router_refusals@.len() == feeds@.len(),
        forall|i: int| 0 <= i < feeds@.len() ==> #[trigger] instrument_refusals@[i]@.len() == feeds@[i].instruments@.len(),
    ensures
        match first_router_fault(
            feeds@,
            instrument_texts(instrument_refusals@),
            refusal_texts(router_refusals@),
            0,
        ) {
            Some(f) => res matches Some(e) && e@ == f,
            None => res is None,
        },
{
    let ghost inst = instrument_texts(instrument_refusals@);
    let ghost router = refusal_texts(router_refusals@);
    let mut i: usize = 0;
    while i < feeds.len()
        invariant
            i <= feeds@.len(),
            inst == instrument_texts(instrument_refusals@),
            router == refusal_texts(router_refusals@),
            instrument_refusals@.len() == feeds@.len(),
            router_refusals@.len() == feeds@.len(),
            forall|k: int| 0 <= k < feeds@.len() ==> #[trigger] instrument_refusals@[k]@.len()
                == feeds@[k].instruments@.len(),
            first_router_fault(feeds@, inst, router, 0) == first_router_fault(feeds@, inst, router, i as int),
        decreases feeds@.len() - i,
    {
        let f = &feeds[i];
        let name = f.name.as_str();
        if f.instruments.len() == 0 {
            return Some(RuleError::NoInstruments { feed: String::from_str(name) });
        }
        let refs = &instrument_refusals[i];
        assert(inst[i as int] == refusal_texts(refs@));
        let mut j: usize = 0;
        while j < refs.len()
            invariant
                i < feeds@.len(),
                *f == feeds@[i as int],
                name@ == f.name@,
                f.instruments@.len() > 0,
                *refs == instrument_refusals@[i as int],
                inst == instrument_texts(instrument_refusals@),
                router == refusal_texts(router_refusals@),
                first_router_fault(feeds@, inst, router, 0) == first_router_fault(feeds@, inst, router, i as int),
                j <= refs@.len(),
                refs@.len() == f.instruments@.len(),
                inst[i as int] == refusal_texts(refs@),
                forall|m: int| #![trigger refused(inst[i as int])(m)] 0 <= m < j ==> !refused(inst[i as int])(m),
            decreases refs@.len() - j,
        {
            match &refs[j] {
                Some(r) => {
                    proof {
                        assert(refused(inst[i as int])(j as int));
                        lemma_first_where_found(refs@.len() as int, 0, refused(inst[i as int]), j as int);
                    }
                    return Some(
                        RuleError::Instrument {
                            feed: String::from_str(name),
                            symbol: String::from_str(f.instruments[j].symbol.as_str()),
                            reason: String::from_str(r.as_str()),
                        },
                    );
                },
                None => {
                    assert(!refused(inst[i as int])(j as int));
                },
            }
            j += 1;
        }
        proof {
            lemma_first_where_none(refs@.len() as int, 0, refused(inst[i as int]));
        }
        match &router_refusals[i] {
            Some(r) => {
                return Some(RuleError::Router { feed: String::from_str(name), reason: String::from_str(r.as_str()) });
            },
            None => {},
        }
        i += 1;
    }
    None
}

impl CryptoConf {
    /// Refuses a conf that would run wrong.
    ///
    /// `topology` is the box's SMT layout; without it the sibling rule is
    /// skipped. `ring_refusals[i]` is what the segment layer said of feed
    /// `i`'s ring name; `instrument_refusals[i][j]` what the receiver said
    /// of its instrument `j`, and `router_refusals[i]` what it said of the
    /// router over those instruments. `None` is acceptance.
    pub fn validate(
        &self,
        topology: Option<&Topology>,
        ring_refusals: &[Option<String>],
        instrument_refusals: &[Vec<Option<String>>],
        router_refusals: &[Option<String>],
    ) -> (res: Result<(), RuleError>)
        requires
            ring_refusals@.len() == self.feeds@.len(),
            instrument_refusals@.len() == self.feeds@.len(),
            router_refusals@.len() == self.feeds@.len(),
            forall|i: int| 0 <= i < self.feeds@.len() ==> #[trigger] instrument_refusals@[i]@.len()
                == self.feeds@[i].instruments@.len(),
            forall|ps: Seq<Placement>| crypto_placements(ps, self.feeds@) ==> placement_verdict(
                ps,
                topology_of(topology),
                refusal_texts(ring_refusals@),
            ) is Ok,
        ensures
            exists|ps: Seq<Placement>| crypto_placements(ps, self.feeds@) && verdict_is(
                res,
                crypto_verdict(
                    ps,
                    self.feeds@,
                    topology_of(topology),
                    refusal_texts(ring_refusals@),
                    instrument_texts(instrument_refusals@),
                    refusal_texts(router_refusals@),
                ),
            ),
    {
        let mut ps: Vec<Placement> = Vec::new();
        let mut i: usize = 0;
        while i < self.feeds.len()
            invariant
                i <= self.feeds@.len(),
                ps@.len() == i,
                forall|k: int| #![trigger ps@[k]] 0 <= k < i ==> {
                    &&& ps@[k].name@ == self.feeds@[k].name@
                    &&& ps@[k].spin == (self.feeds@[k].mode == Mode::Spin)
                    &&& ps@[k].cores@ == self.feeds@[k].cores@
                    &&& ps@[k].ring@ == self.feeds@[k].ring@
                    &&& ps@[k].ring_slots == self.feeds@[k].ring_slots
                },
            decreases self.feeds@.len() - i,
        {
            ps.push(self.feeds[i].placement());
            i += 1;
        }
        assert(crypto_placements(ps@, self.feeds@));
        let ghost verdict = crypto_verdict(
            ps@,
            self.feeds@,
            topology_of(topology),
            refusal_texts(ring_refusals@),
            instrument_texts(instrument_refusals@),
            refusal_texts(router_refusals@),
        );
        match check_placement(ps.as_slice(), topology, ring_refusals) {
            Err(e) => {
                assert(verdict_is(Err(e), verdict));
                return Err(e);
            },
            Ok(()) => {},
        }
        match router_error(&self.feeds, instrument_refusals, router_refusals) {
            Some(e) => {
                assert(verdict_is(Err(e), verdict));
                Err(e)
            },
            None => {
                assert(verdict_is(Ok(()), verdict));
                Ok(())
            },
        }
    }
}

proof fn lemma_no_router_fault(
    feeds: Seq<CryptoFeedConf>,
    inst: Seq<Seq<Option<Seq<char>>>>,
    router: Seq<Option<Seq<char>>>,
    i: int,
)
    requires
        0 <= i,
        first_router_fault(feeds, inst, router, i) is None,
    ensures
        forall|k: int| i <= k < feeds.len() ==> #[trigger] router_fault(feeds[k], inst[k], router[k]) is None,
    decreases feeds.len() - i,
{
    if i < feeds.len() {
        lemma_no_router_fault(feeds, inst, router, i + 1);
    }
}

/// What a crypto conf the rules accept guarantees: its placement is one the
/// shared rules accept (so [`law_accepted_placement`] holds of it), every
/// feed subscribes to at least one instrument, the receiver refused none of
/// them, and it built every feed's router.
///
/// [`law_accepted_placement`]: crate::conf::rules::law_accepted_placement
pub proof fn law_accepted_crypto(
    ps: Seq<Placement>,
    feeds: Seq<CryptoFeedConf>,
    topology: Option<Seq<u64>>,
    refusals: Seq<Option<Seq<char>>>,
    inst: Seq<Seq<Option<Seq<char>>>>,
    router: Seq<Option<Seq<char>>>,
)
    requires
        crypto_verdict(ps, feeds, topology, refusals, inst, router) == Ok::<Option<RuleFault>, ()>(None),
    ensures
        placement_verdict(ps, topology, refusals) == Ok::<Option<RuleFault>, ()>(None),
        forall|i: int| #![trigger feeds[i]] 0 <= i < feeds.len() ==> {
            &&& feeds[i].instruments@.len() > 0
            &&& router[i] is None
            &&& forall|j: int| 0 <= j < feeds[i].instruments@.len() ==> #[trigger] inst[i][j] is None
        },
{
    lemma_no_router_fault(feeds, inst, router, 0);
    assert forall|i: int| #![trigger feeds[i]] 0 <= i < feeds.len() implies {
        &&& feeds[i].instruments@.len() > 0
        &&& router[i] is None
        &&& forall|j: int| 0 <= j < feeds[i].instruments@.len() ==> #[trigger] inst[i][j] is None
    } by {
        assert(router_fault(feeds[i], inst[i], router[i]) is None);
        lemma_first_where_facts(feeds[i].instruments@.len() as int, 0, refused(inst[i]));
        assert forall|j: int| 0 <= j < feeds[i].instruments@.len() implies #[trigger] inst[i][j] is None by {
            assert(!refused(inst[i])(j));
        }
    }
}

// ---------------------------------------------------------------------------
// Its warnings
// ---------------------------------------------------------------------------

/// What might be wrong with a conf that will still run.
#[derive(Debug, Clone, PartialEq, Eq)]
pub enum Warning {
    /// The SMT layout could not be read, so the sibling rule was not applied.
    NoTopology,
    /// One instrument under two feeds on the same venue: two connections,
    /// two rings, one market.
    SymbolInTwoFeeds {
        /// The venue.
        venue: Venue,
        /// The symbol.
        symbol: String,
        /// First feed.
        a: String,
        /// Second feed.
        b: String,
    },
}

/// A warning, as plain values.
pub enum WarningModel {
    NoTopology,
    SymbolInTwoFeeds { venue: Venue, symbol: Seq<char>, a: Seq<char>, b: Seq<char> },
}

impl View for Warning {
    type V = WarningModel;

    open spec fn view(&self) -> WarningModel {
        match self {
            Warning::NoTopology => WarningModel::NoTopology,
            Warning::SymbolInTwoFeeds { venue, symbol, a, b } => WarningModel::SymbolInTwoFeeds {
                venue: *venue,
                symbol: symbol@,
                a: a@,
                b: b@,
            },
        }
    }
}

/// The symbols of a feed's instruments, in order.
pub open spec fn symbols_text(f: CryptoFeedConf) -> Seq<Seq<char>> {
    f.instruments@.map_values(|i: InstrumentConf| i.symbol@)
}

/// Earlier feed `k` is on `venue` and has an instrument `symbol`.
pub open spec fn lists_symbol(feeds: Seq<CryptoFeedConf>, venue: Venue, symbol: Seq<char>) -> spec_fn(int) -> bool {
    |k: int| feeds[k].venue == venue && symbols_text(feeds[k]).contains(symbol)
}

/// The warning for instrument `j` of feed `i`, if an earlier feed on its
/// venue has it too (the first such).
pub open spec fn symbol_warning(feeds: Seq<CryptoFeedConf>, i: int, j: int) -> Seq<WarningModel> {
    let f = feeds[i];
    let symbol = symbols_text(f)[j];
    match first_where(i, 0, lists_symbol(feeds, f.venue, symbol)) {
        Some(k) => seq![WarningModel::SymbolInTwoFeeds { venue: f.venue, symbol, a: feeds[k].name@, b: f.name@ }],
        None => Seq::empty(),
    }
}

/// The warnings for the first `n` instruments of feed `i`.
pub open spec fn feed_warnings(feeds: Seq<CryptoFeedConf>, i: int, n: int) -> Seq<WarningModel>
    decreases n,
{
    if n <= 0 {
        Seq::empty()
    } else {
        feed_warnings(feeds, i, n - 1) + symbol_warning(feeds, i, n - 1)
    }
}

/// The warnings for the first `n` feeds.
pub open spec fn feeds_warnings(feeds: Seq<CryptoFeedConf>, n: int) -> Seq<WarningModel>
    decreases n,
{
    if n <= 0 {
        Seq::empty()
    } else {
        feeds_warnings(feeds, n - 1) + feed_warnings(feeds, n - 1, feeds[n - 1].instruments@.len() as int)
    }
}

/// Every warning, in order: the missing topology first, then each feed's
/// instruments in file order.
pub open spec fn crypto_warnings(feeds: Seq<CryptoFeedConf>, topology_known: bool) -> Seq<WarningModel> {
    (if topology_known {
        Seq::empty()
    } else {
        seq![WarningModel::NoTopology]
    }) + feeds_warnings(feeds, feeds.len() as int)
}

/// `f` has an instrument `symbol`.
fn has_instrument(f: &CryptoFeedConf, symbol: &str) -> (res: bool)
    ensures
        res == symbols_text(*f).contains(symbol@),
{
    let ghost texts = symbols_text(*f);
    let mut k: usize = 0;
    while k < f.instruments.len()
        invariant
            k <= f.instruments@.len(),
            texts == symbols_text(*f),
            forall|m: int| 0 <= m < k ==> #[trigger] texts[m] != symbol@,
        decreases f.instruments@.len() - k,
    {
        if str_eq(f.instruments[k].symbol.as_str(), symbol) {
            assert(texts[k as int] == symbol@);
            return true;
        }
        k += 1;
    }
    false
}

/// The first feed before `i` on `venue` that has an instrument `symbol`.
fn earlier_listing(feeds: &Vec<CryptoFeedConf>, i: usize, venue: Venue, symbol: &str) -> (res: Option<usize>)
    requires
        i <= feeds@.len(),
    ensures
        match first_where(i as int, 0, lists_symbol(feeds@, venue, symbol@)) {
            Some(k) => res == Some(k as usize),
            None => res is None,
        },
        res matches Some(k) ==> k < i,
{
    let mut k: usize = 0;
    while k < i
        invariant
            k <= i <= feeds@.len(),
            forall|m: int| #![trigger lists_symbol(feeds@, venue, symbol@)(m)] 0 <= m < k ==> !lists_symbol(
                feeds@,
                venue,
                symbol@,
            )(m),
        decreases i - k,
    {
        if feeds[k].venue == venue && has_instrument(&feeds[k], symbol) {
            proof {
                lemma_first_where_found(i as int, 0, lists_symbol(feeds@, venue, symbol@), k as int);
            }
            return Some(k);
        }
        k += 1;
    }
    proof {
        lemma_first_where_none(i as int, 0, lists_symbol(feeds@, venue, symbol@));
    }
    None
}

/// Appends the warning for instrument `j` of feed `i`, if any.
fn push_symbol_warning(out: &mut Vec<Warning>, feeds: &Vec<CryptoFeedConf>, i: usize, j: usize)
    requires
        i < feeds@.len(),
        j < feeds@[i as int].instruments@.len(),
    ensures
        final(out)@.map_values(|w: Warning| w@) == old(out)@.map_values(|w: Warning| w@) + symbol_warning(
            feeds@,
            i as int,
            j as int,
        ),
{
    let f = &feeds[i];
    let symbol = f.instruments[j].symbol.as_str();
    assert(symbols_text(*f)[j as int] == symbol@);
    proof {
        lemma_first_where_facts(i as int, 0, lists_symbol(feeds@, f.venue, symbol@));
    }
    let ghost before = out@.map_values(|w: Warning| w@);
    match earlier_listing(feeds, i, f.venue, symbol) {
        Some(k) => {
            let w = Warning::SymbolInTwoFeeds {
                venue: f.venue,
                symbol: String::from_str(symbol),
                a: String::from_str(feeds[k].name.as_str()),
                b: String::from_str(f.name.as_str()),
            };
            assert(out@.push(w).map_values(|w: Warning| w@) =~= before.push(w@));
            out.push(w);
        },
        None => {},
    }
    assert(out@.map_values(|w: Warning| w@) =~= before + symbol_warning(feeds@, i as int, j as int));
}

impl CryptoConf {
    /// What might be wrong with a conf that will still run.
    /// `topology_known` says whether the SMT layout could be read.
    pub fn warnings(&self, topology_known: bool) -> (res: Vec<Warning>)
        ensures
            res@.map_values(|w: Warning| w@) == crypto_warnings(self.feeds@, topology_known),
    {
        let ghost feeds = self.feeds@;
        let ghost first: Seq<WarningModel> = if topology_known {
            Seq::empty()
        } else {
            seq![WarningModel::NoTopology]
        };
        let mut out: Vec<Warning> = Vec::new();
        if !topology_known {
            out.push(Warning::NoTopology);
        }
        assert(out@.map_values(|w: Warning| w@) =~= first + feeds_warnings(feeds, 0));
        let mut i: usize = 0;
        while i < self.feeds.len()
            invariant
                feeds == self.feeds@,
                i <= feeds.len(),
                out@.map_values(|w: Warning| w@) == first + feeds_warnings(feeds, i as int),
            decreases feeds.len() - i,
        {
            let ghost head = out@.map_values(|w: Warning| w@);
            let mut j: usize = 0;
            while j < self.feeds[i].instruments.len()
                invariant
                    feeds == self.feeds@,
                    i < feeds.len(),
                    j <= feeds[i as int].instruments@.len(),
                    out@.map_values(|w: Warning| w@) == head + feed_warnings(feeds, i as int, j as int),
                decreases feeds[i as int].instruments@.len() - j,
            {
                push_symbol_warning(&mut out, &self.feeds, i, j);
                proof {
                    assert(out@.map_values(|w: Warning| w@) =~= head + feed_warnings(feeds, i as int, j + 1));
                }
                j += 1;
            }
            proof {
                assert(out@.map_values(|w: Warning| w@) =~= first + feeds_warnings(feeds, i + 1));
            }
            i += 1;
        }
        assert(out@.map_values(|w: Warning| w@) =~= crypto_warnings(feeds, topology_known));
        out
    }
}

impl Warning {
    /// The warning as the log prints it.
    pub fn to_string(&self) -> (res: String)
        ensures
            res@ == warning_text(self@),
    {
        match self {
            Warning::NoTopology => String::from_str("SMT topology unavailable; the sibling-core rule was not checked"),
            Warning::SymbolInTwoFeeds { venue, symbol, a, b } => {
                let mut s = String::from_str(venue.as_str());
                s.append(" ");
                s.append(symbol.as_str());
                s.append(" is listed under both \"");
                s.append(a.as_str());
                s.append("\" and \"");
                s.append(b.as_str());
                s.append("\"; it will be published to two rings");
                s
            },
        }
    }
}

/// What a warning reads as.
pub open spec fn warning_text(w: WarningModel) -> Seq<char> {
    match w {
        WarningModel::NoTopology => "SMT topology unavailable; the sibling-core rule was not checked"@,
        WarningModel::SymbolInTwoFeeds { venue, symbol, a, b } => venue_tag(venue)@ + " "@ + symbol
            + " is listed under both \""@ + a + "\" and \""@ + b + "\"; it will be published to two rings"@,
    }
}

} // verus!
