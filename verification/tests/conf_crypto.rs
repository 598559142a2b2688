//! `conf/crypto.toml`: reading, rules and warnings.

use jeed::conf::crypto::{CryptoDefaults, CryptoRead, Warning};
use jeed::conf::rules::RuleError;
use jeed::conf::{ConfError, CryptoConf, Mode};
use jeed::cpu::Topology;
use jeed::toml::parse;
use jeed::Venue;

const MINIMAL: &str = r#"
[[feed]]
name = "binance"
venue = "binance-spot"
mode = "block"
cores = [2]
ring = "jeed.test.binance"
ring_slots = 4096

[[feed.instrument]]
symbol = "BTCUSDT"
price_decimals = 2
qty_decimals = 5
channels = ["trade", "delta"]

[[feed]]
name = "gate"
venue = "gate-spot"
mode = "block"
cores = [4, 5]
ring = "jeed.test.gate"
ring_slots = 256
rest = "http://127.0.0.1:9"

[[feed.instrument]]
symbol = "BTC_USDT"
price_decimals = 1
qty_decimals = 4
channels = ["delta"]
"#;

/// The receiver's own defaults.
const DEFAULTS: CryptoDefaults = CryptoDefaults { ping_secs: 30, reconnect_secs: 5, burst: 64 };

/// The receiver's channel names, in its order.
const CHANNELS: [&str; 4] = ["trade", "bbo", "book", "delta"];

fn read(text: &str) -> CryptoRead {
    CryptoConf::from_table(&parse(text).unwrap(), DEFAULTS, &CHANNELS)
}

fn conf(text: &str) -> CryptoConf {
    read(text).conf.unwrap()
}

fn read_err(text: &str) -> ConfError {
    read(text).conf.unwrap_err()
}

/// Validates with nothing refused by the segment layer or the receiver.
fn validate(c: &CryptoConf) -> Result<(), RuleError> {
    let none: Vec<Option<String>> = c.feeds.iter().map(|_| None).collect();
    let instruments: Vec<Vec<Option<String>>> =
        c.feeds.iter().map(|f| f.instruments.iter().map(|_| None).collect()).collect();
    c.validate(None, &none, &instruments, &none)
}

fn six_flat() -> Topology {
    Topology::from_siblings(vec![1, 2, 4, 8, 16, 32])
}

#[test]
fn the_minimal_conf_reads_and_validates() {
    let c = conf(MINIMAL);
    assert_eq!(c.feeds.len(), 2);
    let b = &c.feeds[0];
    assert_eq!(b.venue, Venue::BinanceSpot);
    assert_eq!(b.mode, Mode::Block);
    assert_eq!(b.cores, [2]);
    assert_eq!(b.instruments.len(), 1);
    assert_eq!(b.instruments[0].symbol, "BTCUSDT");
    assert_eq!(b.instruments[0].channels, ["trade", "delta"]);
    assert_eq!(b.instruments[0].depth, None);
    assert_eq!(b.url, None);
    assert_eq!(b.ping_secs, 30);
    assert_eq!(b.reconnect_secs, 5);
    assert_eq!(b.burst, 64);
    assert_eq!(c.feeds[1].rest.as_deref(), Some("http://127.0.0.1:9"));
    assert_eq!(c.health.stale_ns, 500_000_000, "absent guard is on");
    assert_eq!(c.report_secs, 10);
    validate(&c).unwrap();
    assert_eq!(c.warnings(false), [Warning::NoTopology]);
    assert!(c.warnings(true).is_empty());
    assert_eq!(c.feeds[1].mask(), Some(0b11_0000));
}

#[test]
fn crypto_an_unknown_venue_names_the_known_ones() {
    let msg = read_err(&MINIMAL.replace("\"gate-spot\"", "\"gate\"")).to_string();
    assert!(msg.starts_with("feed[gate]: `venue` \"gate\" is not a venue; one of binance-spot, "), "{msg}");
    assert!(msg.contains("kucoin-futures"), "{msg}");
    assert!(msg.ends_with("gate-spot, kucoin-spot, kucoin-futures"), "{msg}");
}

#[test]
fn an_unknown_key_anywhere_is_refused() {
    let text = MINIMAL.replace("ring_slots = 256", "ring_slots = 256\nring_slot = 256");
    let e = read_err(&text);
    assert!(matches!(&e, ConfError::Unknown { at, key } if at == "feed[gate]" && key == "ring_slot"), "{}", e.to_string());

    let e = read_err(&MINIMAL.replace("qty_decimals = 4", "qty_decimal = 4"));
    assert_eq!(e.to_string(), "feed[gate].instrument[BTC_USDT]: `qty_decimals` is required");

    let text = MINIMAL.replace("qty_decimals = 4\n", "qty_decimals = 4\nlot = 1\n");
    assert_eq!(read_err(&text).to_string(), "feed[gate].instrument[BTC_USDT]: unknown key `lot`");
}

#[test]
fn channels_are_checked_when_read() {
    let e = read_err(&MINIMAL.replace("[\"delta\"]", "[\"orderbook\"]"));
    assert!(e.to_string().contains("`orderbook` is not a channel; one of trade, bbo, book, delta"), "{}", e.to_string());
    let e = read_err(&MINIMAL.replace("[\"delta\"]", "[\"delta\", \"delta\"]"));
    assert!(e.to_string().contains("`delta` is listed twice"), "{}", e.to_string());
    let e = read_err(&MINIMAL.replace("[\"delta\"]", "[]"));
    assert_eq!(e.to_string(), "feed[gate].instrument[BTC_USDT]: `channels` is empty");
}

#[test]
fn scales_depth_and_urls_are_checked_when_read() {
    let e = read_err(&MINIMAL.replace("price_decimals = 1", "price_decimals = 9"));
    assert_eq!(e.to_string(), "feed[gate].instrument[BTC_USDT]: `price_decimals` must be 0..=8");
    let text = MINIMAL.replace("channels = [\"delta\"]", "channels = [\"delta\"]\ndepth = 0");
    assert_eq!(read_err(&text).to_string(), "feed[gate].instrument[BTC_USDT]: `depth` must be at least 1");

    // A url is handed back, under its feed, for the receiver to parse.
    let text = MINIMAL.replace("rest = \"http://127.0.0.1:9\"", "url = \"https://api.gateio.ws/ws/v4/\"");
    let r = read(&text);
    assert_eq!(r.urls.len(), 1);
    assert_eq!(r.urls[0].at, "feed[gate]");
    assert_eq!(r.urls[0].text, "https://api.gateio.ws/ws/v4/");
    assert_eq!(r.conf.unwrap().feeds[1].url.as_deref(), Some("https://api.gateio.ws/ws/v4/"));

    let text = MINIMAL.replace("rest = \"http://127.0.0.1:9\"", "rest = \"api.gateio.ws\"");
    assert_eq!(read_err(&text).to_string(), "feed[gate]: `rest` `api.gateio.ws` must start with http:// or https://");
    let text = MINIMAL.replace("rest = \"http://127.0.0.1:9\"", "rest = \"https://api.gateio.ws\"");
    assert_eq!(conf(&text).feeds[1].rest.as_deref(), Some("https://api.gateio.ws"));
    let text = MINIMAL.replace("rest = \"http://127.0.0.1:9\"", "reconnect_secs = 0");
    assert_eq!(read_err(&text).to_string(), "feed[gate]: `reconnect_secs` must be at least 1");
}

#[test]
fn a_url_read_before_a_fault_still_comes_back() {
    let text = MINIMAL.replace("rest = \"http://127.0.0.1:9\"", "url = \"ws://127.0.0.1:9/\"\nrest = \"ftp://x\"");
    let r = read(&text);
    assert_eq!(r.urls.len(), 1);
    assert_eq!(r.urls[0].text, "ws://127.0.0.1:9/");
    assert_eq!(r.conf.unwrap_err().to_string(), "feed[gate]: `rest` `ftp://x` must start with http:// or https://");
}

#[test]
fn validate_applies_the_shared_placement_rules() {
    let c = conf(&MINIMAL.replace("cores = [4, 5]", "cores = [2]"));
    assert_eq!(validate(&c), Err(RuleError::CoreShared { core: 2, a: "binance".into(), b: "gate".into() }));

    let c = conf(&MINIMAL.replace("ring_slots = 256", "ring_slots = 300"));
    assert_eq!(validate(&c), Err(RuleError::RingSlots { feed: "gate".into(), slots: 300 }));

    let c = conf(&MINIMAL.replace(
        "name = \"gate\"\nvenue = \"gate-spot\"\nmode = \"block\"",
        "name = \"gate\"\nvenue = \"gate-spot\"\nmode = \"spin\"",
    ));
    assert_eq!(validate(&c), Err(RuleError::SpinOnSeveralCores { feed: "gate".into(), cores: 2 }));

    assert_eq!(validate(&conf("")), Err(RuleError::NoFeeds));
}

#[test]
fn validate_refuses_what_the_venue_cannot_serve() {
    // The receiver's router refuses a depth of seven on Binance; the refusal
    // comes back under the feed.
    let c = conf(&MINIMAL.replace("channels = [\"trade\", \"delta\"]", "channels = [\"trade\", \"delta\"]\ndepth = 7"));
    assert_eq!(c.feeds[0].instruments[0].depth, Some(7));
    let none: Vec<Option<String>> = vec![None, None];
    let instruments = vec![vec![None], vec![None]];
    let routers = vec![Some("BINANCE_SPOT has no book of depth 7".to_string()), None];
    let e = c.validate(None, &none, &instruments, &routers).unwrap_err();
    assert_eq!(e, RuleError::Router { feed: "binance".into(), reason: "BINANCE_SPOT has no book of depth 7".into() });
    assert_eq!(e.to_string(), "feed[binance]: BINANCE_SPOT has no book of depth 7");
}

#[test]
fn validate_refuses_a_feed_with_no_instruments_or_a_symbol_the_wire_cannot_hold() {
    let text = MINIMAL.replace(
        "[[feed.instrument]]\nsymbol = \"BTC_USDT\"\nprice_decimals = 1\nqty_decimals = 4\nchannels = [\"delta\"]\n",
        "",
    );
    let c = conf(&text);
    assert_eq!(validate(&c), Err(RuleError::NoInstruments { feed: "gate".into() }));

    let long = "X".repeat(25);
    let c = conf(&MINIMAL.replace("BTC_USDT", &long));
    let none: Vec<Option<String>> = vec![None, None];
    let instruments = vec![vec![None], vec![Some("symbol does not fit the wire".to_string())]];
    let e = c.validate(None, &none, &instruments, &none).unwrap_err();
    assert!(matches!(&e, RuleError::Instrument { feed, symbol, .. } if feed == "gate" && symbol == &long), "{}", e.to_string());
    assert!(e.to_string().starts_with("feed[gate]: instrument XXXX"), "{}", e.to_string());
}

#[test]
fn a_symbol_under_two_feeds_on_one_venue_is_a_warning() {
    let text = MINIMAL
        .replace("venue = \"gate-spot\"", "venue = \"binance-spot\"")
        .replace("BTC_USDT", "BTCUSDT")
        .replace("rest = \"http://127.0.0.1:9\"\n", "");
    let c = conf(&text);
    validate(&c).unwrap();
    let w = c.warnings(six_flat().logical() > 0);
    assert_eq!(
        w,
        [Warning::SymbolInTwoFeeds {
            venue: Venue::BinanceSpot,
            symbol: "BTCUSDT".into(),
            a: "binance".into(),
            b: "gate".into()
        }]
    );
    assert_eq!(
        w[0].to_string(),
        "BINANCE_SPOT BTCUSDT is listed under both \"binance\" and \"gate\"; it will be published to two rings"
    );
}

#[test]
fn kucoin_has_no_endpoint_until_the_ticket() {
    let text = MINIMAL.replace("venue = \"gate-spot\"", "venue = \"kucoin-spot\"").replace("BTC_USDT", "BTC-USDT");
    let c = conf(&text);
    assert_eq!(c.feeds[1].venue, Venue::KucoinSpot);
    assert_eq!(c.feeds[1].url, None);
    let text = text.replace("rest = \"http://127.0.0.1:9\"", "url = \"ws://127.0.0.1:9/\"");
    let c = conf(&text);
    assert_eq!(c.feeds[1].url.as_deref(), Some("ws://127.0.0.1:9/"), "an explicit url is dialled even so");
}
