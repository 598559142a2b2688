//! `conf/fix.toml`: reading, rules and warnings.

use jeed::conf::fix::{FixDefaults, SubscriptionType, Warning};
use jeed::conf::rules::RuleError;
use jeed::conf::{ConfError, FixConf, Mode};
use jeed::toml::parse;
use jeed::{Scale, Venue};

const MINIMAL: &str = r#"
[[feed]]
name = "smbs"
venue = "smbs"
mode = "block"
cores = [4]
ring = "jeed.test.fix"
ring_slots = 1024
host = "10.0.0.1"
port = 9100
sender_comp_id = "JEED"
target_comp_id = "SMBS"
price_decimals = 2
qty_decimals = 0
symbols = ["USD/KRW", "EUR/KRW"]
"#;

/// The session receiver's own defaults.
const DEFAULTS: FixDefaults =
    FixDefaults { heartbeat_secs: 30, reset_seq: true, reconnect_secs: 5, logon_timeout_secs: 10, burst: 64 };

fn conf(text: &str) -> Result<FixConf, ConfError> {
    FixConf::from_table(&parse(text).unwrap(), DEFAULTS)
}

fn validate(c: &FixConf) -> Result<(), RuleError> {
    let refusals: Vec<Option<String>> = c.feeds.iter().map(|_| None).collect();
    c.validate(None, &refusals)
}

#[test]
fn a_minimal_conf_gets_the_session_defaults() {
    let c = conf(MINIMAL).unwrap();
    assert_eq!(c.feeds.len(), 1);
    let f = &c.feeds[0];
    assert_eq!(f.venue, Venue::Smbs);
    assert_eq!(f.mode, Mode::Block);
    assert_eq!(f.begin_string, "FIX.4.4");
    assert_eq!(f.heartbeat_secs, 30);
    assert!(f.reset_seq);
    assert_eq!(f.reconnect_secs, 5);
    assert_eq!(f.logon_timeout_secs, 10);
    assert_eq!(f.burst, 64);
    assert_eq!(f.depth, 0, "full book");
    assert_eq!(f.subscription, SubscriptionType::SnapshotPlusUpdates);
    assert_eq!(f.default_qty, None, "a level with no size is refused, not invented");
    assert_eq!(f.symbols, ["USD/KRW", "EUR/KRW"]);
    assert_eq!(f.scales().0, Scale::S2);
    assert_eq!(f.scales().1, Scale::S0);
    assert_eq!(f.host, "10.0.0.1");
    assert_eq!(f.port, 9100);
    assert_eq!(f.sender_comp_id, "JEED");
    assert_eq!(f.target_comp_id, "SMBS");
    assert_eq!(c.report_secs, 10);
    assert_eq!(c.health.stale_ns, 500_000_000);
    assert_eq!(c.health.heartbeat_ns, 100_000_000);
}

#[test]
fn every_session_knob_is_read() {
    let text = format!(
        "{MINIMAL}\nbegin_string = \"FIX.4.2\"\nheartbeat_secs = 20\nreset_seq = false\n\
         reconnect_secs = 2\nlogon_timeout_secs = 3\nburst = 8\ndepth = 1\nsubscription = \"snapshot\"\n\
         default_qty = 5000000\n[health]\nstale_ms = 0\n[log]\nreport_secs = 0"
    );
    let c = conf(&text).unwrap();
    let f = &c.feeds[0];
    assert_eq!(f.begin_string, "FIX.4.2");
    assert_eq!(f.heartbeat_secs, 20);
    assert!(!f.reset_seq);
    assert_eq!(f.reconnect_secs, 2);
    assert_eq!(f.logon_timeout_secs, 3);
    assert_eq!(f.burst, 8);
    assert_eq!(f.depth, 1);
    assert_eq!(f.subscription, SubscriptionType::Snapshot);
    assert_eq!(f.default_qty, Some(5_000_000));
    assert_eq!(c.health.stale_ns, 0);
    assert_eq!(c.report_secs, 0);
}

#[test]
fn an_unknown_key_is_refused_by_name() {
    let e = conf(&format!("{MINIMAL}\nsymbol = [\"USD/KRW\"]")).unwrap_err();
    assert!(matches!(&e, ConfError::Unknown { at, key } if at == "feed[smbs]" && key == "symbol"), "{}", e.to_string());
}

#[test]
fn fix_an_unknown_venue_names_the_known_ones() {
    let e = conf(&MINIMAL.replace("venue = \"smbs\"", "venue = \"cme\"")).unwrap_err();
    assert!(e.to_string().contains("not a FIX venue"), "{}", e.to_string());
    assert!(e.to_string().contains("smbs"), "{}", e.to_string());
    assert_eq!(e.to_string(), "feed[smbs]: `venue` \"cme\" is not a FIX venue; one of smbs");
}

#[test]
fn bad_values_are_refused_with_the_reason() {
    for (from, to, expect) in [
        ("port = 9100", "port = 0", "1..=65535"),
        ("port = 9100", "port = 70000", "1..=65535"),
        ("price_decimals = 2", "price_decimals = 9", "0..=8"),
        ("mode = \"block\"", "mode = \"poll\"", "spin"),
    ] {
        let e = conf(&MINIMAL.replace(from, to)).unwrap_err();
        assert!(e.to_string().contains(expect), "{to}: {}", e.to_string());
    }
    for extra in ["reconnect_secs = 0", "logon_timeout_secs = 0", "burst = 0", "subscription = \"all\""] {
        assert!(conf(&format!("{MINIMAL}\n{extra}")).is_err(), "{extra}");
    }
}

#[test]
fn each_refusal_says_where_and_why() {
    let e = conf(&format!("{MINIMAL}\nsubscription = \"all\"")).unwrap_err();
    assert_eq!(e.to_string(), "feed[smbs]: `subscription` must be \"updates\" or \"snapshot\", found \"all\"");
    let e = conf(&format!("{MINIMAL}\nburst = 4294967296")).unwrap_err();
    assert_eq!(e.to_string(), "feed[smbs]: `burst` is too large");
    let e = conf(&format!("{MINIMAL}\nreset_seq = 1")).unwrap_err();
    assert_eq!(e.to_string(), "feed[smbs]: `reset_seq` must be a boolean, found integer");
    let e = conf(&MINIMAL.replace("host = \"10.0.0.1\"\n", "")).unwrap_err();
    assert_eq!(e.to_string(), "feed[smbs]: `host` is required");
}

#[test]
fn a_symbol_that_does_not_fit_the_wire_is_refused_at_parse() {
    let long = "X".repeat(jeed::SYMBOL_LEN + 1);
    let e = conf(&MINIMAL.replace("\"EUR/KRW\"", &format!("\"{long}\""))).unwrap_err();
    assert!(e.to_string().contains("longer than the wire symbol field"), "{}", e.to_string());
    let e = conf(&MINIMAL.replace("\"EUR/KRW\"", "\"\"")).unwrap_err();
    assert!(e.to_string().contains("empty"), "{}", e.to_string());
}

#[test]
fn validate_applies_the_shared_placement_rules_and_wants_symbols() {
    let c = conf(MINIMAL).unwrap();
    validate(&c).unwrap();

    let e = validate(&conf(&MINIMAL.replace("ring_slots = 1024", "ring_slots = 1000")).unwrap()).unwrap_err();
    assert!(matches!(e, RuleError::RingSlots { .. }), "{}", e.to_string());

    let e = validate(&conf(&MINIMAL.replace("symbols = [\"USD/KRW\", \"EUR/KRW\"]", "symbols = []")).unwrap())
        .unwrap_err();
    assert!(matches!(e, RuleError::NoInstruments { .. }), "{}", e.to_string());
}

#[test]
fn a_symbol_under_two_feeds_is_a_warning_not_a_refusal() {
    let second = MINIMAL
        .replace("name = \"smbs\"", "name = \"smbs-b\"")
        .replace("cores = [4]", "cores = [6]")
        .replace("jeed.test.fix", "jeed.test.fix2");
    let c = conf(&format!("{MINIMAL}\n{second}")).unwrap();
    validate(&c).unwrap();
    let w = c.warnings(false);
    assert!(
        w.iter().any(|w| w.to_string().contains("USD/KRW") && w.to_string().contains("two rings")),
        "{w:?}"
    );
    assert_eq!(w[0], Warning::NoTopology);
    assert_eq!(
        w[1],
        Warning::SymbolInTwoFeeds {
            venue: Venue::Smbs,
            symbol: "USD/KRW".into(),
            a: "smbs".into(),
            b: "smbs-b".into()
        }
    );
    assert_eq!(
        w[1].to_string(),
        "SMBS USD/KRW is listed under both \"smbs\" and \"smbs-b\"; it will be published to two rings"
    );
    assert_eq!(w.len(), 3);
    assert!(c.warnings(true).len() == 2);
}
