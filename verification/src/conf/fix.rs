//! `conf/fix.toml`: one FIX session per feed, each to one ring.
//!
//! The session's endpoint, scales and receiver settings are built from
//! these values by the receiver; the reading and the rules are here.
use vstd::prelude::*;
use vstd::string::{StringExecFns, StrSliceExecFns};
use vstd::utf8::encode_utf8;

use crate::conf::{
    ConfError, ConfFault, Health, Mode, Section, bool_opt, comma_joined, decimals_of, feed_at, feed_index, feed_label,
    finish_of, health_fits, health_of, mode_of, positive_u32_or, positive_u64_or, push_comma_joined, read_mode,
    read_report_secs, report_secs_of, str_opt, str_req, strs_req, tables_of, u16s_req, u32_or, u64_opt, u64_req,
};
use crate::toml::grammar::Doc;
use crate::conf::rules::{
    Placement, RuleError, RuleFault, check_placement, first_where, lemma_first_where_facts, lemma_first_where_found,
    lemma_first_where_none, placement_verdict, refusal_texts, topology_of, verdict_is,
};
use crate::cpu::{Mask, Topology, lists, mask_of, names};
use crate::toml::Table;
use crate::types::{Scale, Venue, scale_of_decimals, str_eq, symbol_accepts, symbol_from_bytes, venue_tag};

verus! {

/// The conf name of each FIX venue, in the order the names are listed.
pub open spec fn fix_names() -> Seq<&'static str> {
    seq!["smbs"]
}

/// The FIX venue a conf name names, if any.
pub open spec fn fix_venue(n: Seq<char>) -> Option<Venue> {
    if n == "smbs"@ { Some(Venue::Smbs) } else { None }
}

/// The venue a conf `venue = "…"` names.
pub fn venue_by_name(name: &str) -> (res: Option<Venue>)
    ensures
        res == fix_venue(name@),
{
    if str_eq(name, "smbs") {
        Some(Venue::Smbs)
    } else {
        None
    }
}

/// Every conf venue name, for the error message that lists them.
pub fn venue_names() -> (res: Vec<&'static str>)
    ensures
        res@ == fix_names(),
{
    let res = vec!["smbs"];
    assert(res@ =~= fix_names());
    res
}

/// The conf name of a FIX venue, or `"?"` for one with none.
pub fn venue_name_or(venue: Venue) -> (res: &'static str)
    ensures
        res == (if venue == Venue::Smbs { "smbs" } else { "?" }),
{
    match venue {
        Venue::Smbs => "smbs",
        _ => "?",
    }
}


/// `subscription`: what the session asks the venue for.
#[derive(Debug, Clone, Copy, PartialEq, Eq, Structural)]
pub enum SubscriptionType {
    /// One snapshot.
    Snapshot,
    /// A snapshot and every update after it.
    SnapshotPlusUpdates,
}

/// What the receiver uses when a feed leaves a knob out.
#[derive(Debug, Clone, Copy, PartialEq, Eq, Structural)]
pub struct FixDefaults {
    /// `heartbeat_secs` (108).
    pub heartbeat_secs: u32,
    /// `reset_seq` (141=Y with the Logon).
    pub reset_seq: bool,
    /// `reconnect_secs`.
    pub reconnect_secs: u64,
    /// `logon_timeout_secs`.
    pub logon_timeout_secs: u64,
    /// `burst`.
    pub burst: u32,
}

/// One `[[feed]]`: one FIX session, one thread, one ring.
#[derive(Debug, Clone, PartialEq, Eq)]
pub struct FixFeedConf {
    /// `name`: for the thread and the log.
    pub name: String,
    /// `venue`: which venue speaks this session, by conf name.
    pub venue: Venue,
    /// `mode`.
    pub mode: Mode,
    /// `cores`: the affinity set. Exactly one for a spinning feed.
    pub cores: Vec<u16>,
    /// `ring`: segment name.
    pub ring: String,
    /// `ring_slots`: a power of two.
    pub ring_slots: u64,
    /// `host`: where to connect.
    pub host: String,
    /// `port`.
    pub port: u16,
    /// `sender_comp_id` (49): us.
    pub sender_comp_id: String,
    /// `target_comp_id` (56): the venue.
    pub target_comp_id: String,
    /// `begin_string`: the FIX version string in the Logon.
    pub begin_string: String,
    /// `price_decimals`: the session's price scale.
    pub price_decimals: usize,
    /// `qty_decimals`: the session's size scale.
    pub qty_decimals: usize,
    /// `default_qty`: the size to publish for a snapshot level that carries
    /// none. `None` refuses such a level rather than inventing one.
    pub default_qty: Option<u64>,
    /// `symbols`: the instruments to request and keep.
    pub symbols: Vec<String>,
    /// `depth` (264): market depth to request. `0` is the full book.
    pub depth: u32,
    /// `subscription`.
    pub subscription: SubscriptionType,
    /// `heartbeat_secs` (108).
    pub heartbeat_secs: u32,
    /// `reset_seq`.
    pub reset_seq: bool,
    /// `reconnect_secs`: wait between connection attempts.
    pub reconnect_secs: u64,
    /// `logon_timeout_secs`: how long to wait for the venue's Logon.
    pub logon_timeout_secs: u64,
    /// `burst`: messages framed per round.
    pub burst: u32,
}

/// The whole file.
#[derive(Debug, Clone, PartialEq, Eq)]
pub struct FixConf {
    /// `[[feed]]`, in file order.
    pub feeds: Vec<FixFeedConf>,
    /// `[health]`.
    pub health: Health,
    /// `[log] report_secs`. Zero silences the report line.
    pub report_secs: u64,
}

/// A session's address, identities and version, as read.
pub struct FixSession {
    pub host: Seq<char>,
    pub port: u16,
    pub sender_comp_id: Seq<char>,
    pub target_comp_id: Seq<char>,
    pub begin_string: Seq<char>,
}

/// A session's timers and flags, as read.
pub struct FixTiming {
    pub heartbeat_secs: u32,
    pub reset_seq: bool,
    pub reconnect_secs: u64,
    pub logon_timeout_secs: u64,
    pub burst: u32,
}

/// A FIX feed, as plain values.
pub struct FixFeedModel {
    pub name: Seq<char>,
    pub venue: Venue,
    pub mode: Mode,
    pub cores: Seq<u16>,
    pub ring: Seq<char>,
    pub ring_slots: u64,
    pub session: FixSession,
    pub price_decimals: usize,
    pub qty_decimals: usize,
    pub default_qty: Option<u64>,
    pub symbols: Seq<Seq<char>>,
    pub depth: u32,
    pub subscription: SubscriptionType,
    pub timing: FixTiming,
}

/// The FIX conf, as plain values.
pub struct FixModel {
    pub feeds: Seq<FixFeedModel>,
    pub health: Health,
    pub report_secs: u64,
}

impl View for FixFeedConf {
    type V = FixFeedModel;

    open spec fn view(&self) -> FixFeedModel {
        FixFeedModel {
            name: self.name@,
            venue: self.venue,
            mode: self.mode,
            cores: self.cores@,
            ring: self.ring@,
            ring_slots: self.ring_slots,
            session: FixSession {
                host: self.host@,
                port: self.port,
                sender_comp_id: self.sender_comp_id@,
                target_comp_id: self.target_comp_id@,
                begin_string: self.begin_string@,
            },
            price_decimals: self.price_decimals,
            qty_decimals: self.qty_decimals,
            default_qty: self.default_qty,
            symbols: self.symbols@.map_values(|t: String| t@),
            depth: self.depth,
            subscription: self.subscription,
            timing: FixTiming {
                heartbeat_secs: self.heartbeat_secs,
                reset_seq: self.reset_seq,
                reconnect_secs: self.reconnect_secs,
                logon_timeout_secs: self.logon_timeout_secs,
                burst: self.burst,
            },
        }
    }
}

impl View for FixConf {
    type V = FixModel;

    open spec fn view(&self) -> FixModel {
        FixModel {
            feeds: self.feeds@.map_values(|f: FixFeedConf| f@),
            health: self.health,
            report_secs: self.report_secs,
        }
    }
}

// ---------------------------------------------------------------------------
// What a conf reads as
// ---------------------------------------------------------------------------

/// The keys a FIX `[[feed]]` may hold.
pub open spec fn fix_feed_keys() -> Seq<Seq<char>> {
    seq![
        "name"@,
        "venue"@,
        "mode"@,
        "cores"@,
        "ring"@,
        "ring_slots"@,
        "host"@,
        "port"@,
        "sender_comp_id"@,
        "target_comp_id"@,
        "begin_string"@,
        "price_decimals"@,
        "qty_decimals"@,
        "default_qty"@,
        "symbols"@,
        "depth"@,
        "subscription"@,
        "heartbeat_secs"@,
        "reset_seq"@,
        "reconnect_secs"@,
        "logon_timeout_secs"@,
        "burst"@,
    ]
}

/// The keys the top level may hold.
pub open spec fn fix_root_keys() -> Seq<Seq<char>> {
    seq!["feed"@, "health"@, "log"@]
}

/// `venue`: one of the FIX venues' conf names.
pub open spec fn fix_venue_of(at: Seq<char>, entries: Seq<(Seq<char>, Doc)>) -> Result<Venue, ConfFault> {
    match str_req(at, entries, "venue"@) {
        Err(f) => Err(f),
        Ok(t) => match fix_venue(t) {
            Some(v) => Ok(v),
            None => Err(
                ConfFault::Invalid {
                    at,
                    key: "venue"@,
                    reason: "\""@ + t + "\" is not a FIX venue; one of "@ + comma_joined(
                        fix_names().map_values(|n: &str| n@),
                    ),
                },
            ),
        },
    }
}

/// The part of a feed every conf has: venue, mode, cores, ring and its size.
pub open spec fn fix_head(at: Seq<char>, entries: Seq<(Seq<char>, Doc)>) -> Result<
    (Venue, Mode, Seq<u16>, Seq<char>, u64),
    ConfFault,
> {
    match fix_venue_of(at, entries) {
        Err(f) => Err(f),
        Ok(venue) => match mode_of(at, entries) {
            Err(f) => Err(f),
            Ok(mode) => match u16s_req(at, entries, "cores"@) {
                Err(f) => Err(f),
                Ok(cores) => match str_req(at, entries, "ring"@) {
                    Err(f) => Err(f),
                    Ok(ring) => match u64_req(at, entries, "ring_slots"@) {
                        Err(f) => Err(f),
                        Ok(slots) => Ok((venue, mode, cores, ring, slots)),
                    },
                },
            },
        },
    }
}

/// `port`: `1..=65535`.
pub open spec fn port_of(at: Seq<char>, entries: Seq<(Seq<char>, Doc)>) -> Result<u16, ConfFault> {
    match u64_req(at, entries, "port"@) {
        Err(f) => Err(f),
        Ok(n) => if 1 <= n <= 65535 {
            Ok(n as u16)
        } else {
            Err(ConfFault::Invalid { at, key: "port"@, reason: "must be 1..=65535"@ })
        },
    }
}

/// Host, port, the two identities and the version string.
pub open spec fn session_of(at: Seq<char>, entries: Seq<(Seq<char>, Doc)>) -> Result<FixSession, ConfFault> {
    match str_req(at, entries, "host"@) {
        Err(f) => Err(f),
        Ok(host) => match port_of(at, entries) {
            Err(f) => Err(f),
            Ok(port) => match str_req(at, entries, "sender_comp_id"@) {
                Err(f) => Err(f),
                Ok(sender) => match str_req(at, entries, "target_comp_id"@) {
                    Err(f) => Err(f),
                    Ok(target) => match str_opt(at, entries, "begin_string"@) {
                        Err(f) => Err(f),
                        Ok(b) => Ok(
                            FixSession {
                                host,
                                port,
                                sender_comp_id: sender,
                                target_comp_id: target,
                                begin_string: match b {
                                    Some(t) => t,
                                    None => "FIX.4.4"@,
                                },
                            },
                        ),
                    },
                },
            },
        },
    }
}

/// Why one symbol cannot stand, if it cannot.
pub open spec fn symbol_fault(t: Seq<char>) -> Option<Seq<char>> {
    if t.len() == 0 {
        Some("a symbol is empty"@)
    } else if !symbol_accepts(encode_utf8(t)) {
        Some("`"@ + t + "` is longer than the wire symbol field"@)
    } else {
        None
    }
}

/// The first symbol from `from` on that cannot stand, and why.
pub open spec fn first_symbol_fault(texts: Seq<Seq<char>>, from: int) -> Option<Seq<char>>
    decreases texts.len() - from,
{
    if from < 0 || from >= texts.len() {
        None
    } else {
        match symbol_fault(texts[from]) {
            Some(r) => Some(r),
            None => first_symbol_fault(texts, from + 1),
        }
    }
}

/// `symbols`: each non-empty and short enough for the wire.
pub open spec fn symbols_of(at: Seq<char>, entries: Seq<(Seq<char>, Doc)>) -> Result<Seq<Seq<char>>, ConfFault> {
    match strs_req(at, entries, "symbols"@) {
        Err(f) => Err(f),
        Ok(texts) => match first_symbol_fault(texts, 0) {
            None => Ok(texts),
            Some(reason) => Err(ConfFault::Invalid { at, key: "symbols"@, reason }),
        },
    }
}

/// `subscription`: `"updates"` (the default) or `"snapshot"`.
pub open spec fn subscription_of(at: Seq<char>, entries: Seq<(Seq<char>, Doc)>) -> Result<SubscriptionType, ConfFault> {
    match str_opt(at, entries, "subscription"@) {
        Err(f) => Err(f),
        Ok(None) => Ok(SubscriptionType::SnapshotPlusUpdates),
        Ok(Some(t)) => if t == "updates"@ {
            Ok(SubscriptionType::SnapshotPlusUpdates)
        } else if t == "snapshot"@ {
            Ok(SubscriptionType::Snapshot)
        } else {
            Err(
                ConfFault::Invalid {
                    at,
                    key: "subscription"@,
                    reason: "must be \"updates\" or \"snapshot\", found \""@ + t + "\""@,
                },
            )
        },
    }
}

/// The session's timers and flags, each defaulted from the receiver's.
pub open spec fn timing_of(at: Seq<char>, entries: Seq<(Seq<char>, Doc)>, d: FixDefaults) -> Result<FixTiming, ConfFault> {
    match u32_or(at, entries, "heartbeat_secs"@, d.heartbeat_secs) {
        Err(f) => Err(f),
        Ok(heartbeat_secs) => match bool_opt(at, entries, "reset_seq"@) {
            Err(f) => Err(f),
            Ok(reset) => match positive_u64_or(at, entries, "reconnect_secs"@, d.reconnect_secs) {
                Err(f) => Err(f),
                Ok(reconnect_secs) => match positive_u64_or(at, entries, "logon_timeout_secs"@, d.logon_timeout_secs) {
                    Err(f) => Err(f),
                    Ok(logon_timeout_secs) => match positive_u32_or(at, entries, "burst"@, d.burst) {
                        Err(f) => Err(f),
                        Ok(burst) => Ok(
                            FixTiming {
                                heartbeat_secs,
                                reset_seq: match reset {
                                    Some(b) => b,
                                    None => d.reset_seq,
                                },
                                reconnect_secs,
                                logon_timeout_secs,
                                burst,
                            },
                        ),
                    },
                },
            },
        },
    }
}

/// Scales, default size, symbols, depth and subscription.
pub open spec fn book_of(at: Seq<char>, entries: Seq<(Seq<char>, Doc)>) -> Result<
    (usize, usize, Option<u64>, Seq<Seq<char>>, u32, SubscriptionType),
    ConfFault,
> {
    match decimals_of(at, entries, "price_decimals"@) {
        Err(f) => Err(f),
        Ok(pd) => match decimals_of(at, entries, "qty_decimals"@) {
            Err(f) => Err(f),
            Ok(qd) => match u64_opt(at, entries, "default_qty"@) {
                Err(f) => Err(f),
                Ok(dq) => match symbols_of(at, entries) {
                    Err(f) => Err(f),
                    Ok(symbols) => match u32_or(at, entries, "depth"@, 0) {
                        Err(f) => Err(f),
                        Ok(depth) => match subscription_of(at, entries) {
                            Err(f) => Err(f),
                            Ok(sub) => Ok((pd, qd, dq, symbols, depth, sub)),
                        },
                    },
                },
            },
        },
    }
}

/// A FIX feed named `name` whose errors call it `at`.
pub open spec fn fix_feed_of(at: Seq<char>, entries: Seq<(Seq<char>, Doc)>, name: Seq<char>, d: FixDefaults) -> Result<
    FixFeedModel,
    ConfFault,
> {
    match fix_head(at, entries) {
        Err(f) => Err(f),
        Ok((venue, mode, cores, ring, ring_slots)) => match session_of(at, entries) {
            Err(f) => Err(f),
            Ok(session) => match book_of(at, entries) {
                Err(f) => Err(f),
                Ok((price_decimals, qty_decimals, default_qty, symbols, depth, subscription)) => match timing_of(
                    at,
                    entries,
                    d,
                ) {
                    Err(f) => Err(f),
                    Ok(timing) => match finish_of(at, entries, fix_feed_keys()) {
                        Err(f) => Err(f),
                        Ok(()) => Ok(
                            FixFeedModel {
                                name,
                                venue,
                                mode,
                                cores,
                                ring,
                                ring_slots,
                                session,
                                price_decimals,
                                qty_decimals,
                                default_qty,
                                symbols,
                                depth,
                                subscription,
                                timing,
                            },
                        ),
                    },
                },
            },
        },
    }
}

/// The first `k` of the `[[feed]]` tables, or the first fault.
pub open spec fn fix_feeds_of(tables: Seq<Seq<(Seq<char>, Doc)>>, k: int, d: FixDefaults) -> Result<
    Seq<FixFeedModel>,
    ConfFault,
>
    decreases k,
{
    if k <= 0 {
        Ok(Seq::empty())
    } else {
        match fix_feeds_of(tables, k - 1, d) {
            Err(f) => Err(f),
            Ok(feeds) => match str_req(feed_at(crate::text::decimal((k - 1) as nat)), tables[k - 1], "name"@) {
                Err(f) => Err(f),
                Ok(name) => match fix_feed_of(feed_at(name), tables[k - 1], name, d) {
                    Err(f) => Err(f),
                    Ok(m) => Ok(feeds.push(m)),
                },
            },
        }
    }
}

/// What the file reads as.
pub open spec fn fix_of(root: Seq<(Seq<char>, Doc)>, d: FixDefaults) -> Result<FixModel, ConfFault> {
    match tables_of(Seq::empty(), root, "feed"@) {
        Err(f) => Err(f),
        Ok(tables) => match fix_feeds_of(tables, tables.len() as int, d) {
            Err(f) => Err(f),
            Ok(feeds) => match health_of(root) {
                Err(f) => Err(f),
                Ok(health) => match report_secs_of(root) {
                    Err(f) => Err(f),
                    Ok(report_secs) => match finish_of(Seq::empty(), root, fix_root_keys()) {
                        Err(f) => Err(f),
                        Ok(()) => Ok(FixModel { feeds, health, report_secs }),
                    },
                },
            },
        },
    }
}


// ---------------------------------------------------------------------------
// Reading it
// ---------------------------------------------------------------------------

fn read_fix_venue(s: &Section) -> (res: Result<Venue, ConfError>)
    ensures
        match fix_venue_of(s.name(), s.entries()) {
            Ok(v) => res == Ok::<Venue, ConfError>(v),
            Err(f) => res matches Err(e) && e@ == f,
        },
{
    let text = match s.required_str("venue") {
        Err(e) => {
            return Err(e);
        },
        Ok(t) => t,
    };
    match venue_by_name(text) {
        Some(v) => Ok(v),
        None => {
            let mut reason = String::from_str("\"");
            reason.append(text);
            reason.append("\" is not a FIX venue; one of ");
            let names = venue_names();
            push_comma_joined(&mut reason, names.as_slice());
            Err(s.invalid("venue", reason.as_str()))
        },
    }
}

fn read_fix_head(s: &Section) -> (res: Result<(Venue, Mode, Vec<u16>, String, u64), ConfError>)
    ensures
        match fix_head(s.name(), s.entries()) {
            Ok((v, m, c, r, n)) => res matches Ok(x) && x.0 == v && x.1 == m && x.2@ == c && x.3@ == r && x.4 == n,
            Err(f) => res matches Err(e) && e@ == f,
        },
{
    let venue = match read_fix_venue(s) {
        Err(e) => {
            return Err(e);
        },
        Ok(v) => v,
    };
    let mode = match read_mode(s) {
        Err(e) => {
            return Err(e);
        },
        Ok(m) => m,
    };
    let cores = match s.required_u16s("cores") {
        Err(e) => {
            return Err(e);
        },
        Ok(c) => c,
    };
    let ring = match s.required_str("ring") {
        Err(e) => {
            return Err(e);
        },
        Ok(r) => String::from_str(r),
    };
    let ring_slots = match s.required_u64("ring_slots") {
        Err(e) => {
            return Err(e);
        },
        Ok(n) => n,
    };
    Ok((venue, mode, cores, ring, ring_slots))
}

fn read_port(s: &Section) -> (res: Result<u16, ConfError>)
    ensures
        match port_of(s.name(), s.entries()) {
            Ok(p) => res == Ok::<u16, ConfError>(p),
            Err(f) => res matches Err(e) && e@ == f,
        },
{
    match s.required_u64("port") {
        Err(e) => Err(e),
        Ok(n) => {
            if 1 <= n && n <= 65535 {
                Ok(n as u16)
            } else {
                Err(s.invalid("port", "must be 1..=65535"))
            }
        },
    }
}

fn read_session(s: &Section) -> (res: Result<(String, u16, String, String, String), ConfError>)
    ensures
        match session_of(s.name(), s.entries()) {
            Ok(m) => res matches Ok(x) && x.0@ == m.host && x.1 == m.port && x.2@ == m.sender_comp_id && x.3@
                == m.target_comp_id && x.4@ == m.begin_string,
            Err(f) => res matches Err(e) && e@ == f,
        },
{
    let host = match s.required_str("host") {
        Err(e) => {
            return Err(e);
        },
        Ok(t) => String::from_str(t),
    };
    let port = match read_port(s) {
        Err(e) => {
            return Err(e);
        },
        Ok(p) => p,
    };
    let sender = match s.required_str("sender_comp_id") {
        Err(e) => {
            return Err(e);
        },
        Ok(t) => String::from_str(t),
    };
    let target = match s.required_str("target_comp_id") {
        Err(e) => {
            return Err(e);
        },
        Ok(t) => String::from_str(t),
    };
    let begin = match s.optional_str("begin_string") {
        Err(e) => {
            return Err(e);
        },
        Ok(None) => {
            proof {
                reveal_strlit("FIX.4.4");
            }
            String::from_str("FIX.4.4")
        },
        Ok(Some(t)) => String::from_str(t),
    };
    Ok((host, port, sender, target, begin))
}

fn read_symbols(s: &Section) -> (res: Result<Vec<String>, ConfError>)
    ensures
        match symbols_of(s.name(), s.entries()) {
            Ok(ts) => res matches Ok(v) && v@.map_values(|t: String| t@) == ts,
            Err(f) => res matches Err(e) && e@ == f,
        },
{
    let texts = match s.required_strs("symbols") {
        Err(e) => {
            return Err(e);
        },
        Ok(t) => t,
    };
    let ghost ts = match strs_req(s.name(), s.entries(), "symbols"@) {
        Ok(ts) => ts,
        Err(_) => Seq::empty(),
    };
    let mut out: Vec<String> = Vec::new();
    let mut i: usize = 0;
    while i < texts.len()
        invariant
            i <= texts@.len(),
            strs_req(s.name(), s.entries(), "symbols"@) == Ok::<Seq<Seq<char>>, ConfFault>(ts),
            texts@.len() == ts.len(),
            forall|k: int| 0 <= k < ts.len() ==> #[trigger] texts@[k]@ == ts[k],
            first_symbol_fault(ts, 0) == first_symbol_fault(ts, i as int),
            out@.map_values(|t: String| t@) == ts.subrange(0, i as int),
        decreases texts@.len() - i,
    {
        let text = texts[i];
        if text.unicode_len() == 0 {
            return Err(s.invalid("symbols", "a symbol is empty"));
        }
        if symbol_from_bytes(text.as_bytes()).is_none() {
            let mut reason = String::from_str("`");
            reason.append(text);
            reason.append("` is longer than the wire symbol field");
            return Err(s.invalid("symbols", reason.as_str()));
        }
        let t = String::from_str(text);
        proof {
            assert(out@.push(t).map_values(|t: String| t@) =~= out@.map_values(|t: String| t@).push(t@));
            assert(ts.subrange(0, i + 1) =~= ts.subrange(0, i as int).push(ts[i as int]));
        }
        out.push(t);
        i += 1;
    }
    assert(ts.subrange(0, ts.len() as int) =~= ts);
    Ok(out)
}

fn read_subscription(s: &Section) -> (res: Result<SubscriptionType, ConfError>)
    ensures
        match subscription_of(s.name(), s.entries()) {
            Ok(t) => res == Ok::<SubscriptionType, ConfError>(t),
            Err(f) => res matches Err(e) && e@ == f,
        },
{
    match s.optional_str("subscription") {
        Err(e) => Err(e),
        Ok(None) => Ok(SubscriptionType::SnapshotPlusUpdates),
        Ok(Some(t)) => {
            if str_eq(t, "updates") {
                Ok(SubscriptionType::SnapshotPlusUpdates)
            } else if str_eq(t, "snapshot") {
                Ok(SubscriptionType::Snapshot)
            } else {
                let mut reason = String::from_str("must be \"updates\" or \"snapshot\", found \"");
                reason.append(t);
                reason.append("\"");
                Err(s.invalid("subscription", reason.as_str()))
            }
        },
    }
}

fn read_timing(s: &Section, d: FixDefaults) -> (res: Result<(u32, bool, u64, u64, u32), ConfError>)
    ensures
        match timing_of(s.name(), s.entries(), d) {
            Ok(m) => res == Ok::<(u32, bool, u64, u64, u32), ConfError>(
                (m.heartbeat_secs, m.reset_seq, m.reconnect_secs, m.logon_timeout_secs, m.burst),
            ),
            Err(f) => res matches Err(e) && e@ == f,
        },
{
    let heartbeat_secs = match s.u32_or("heartbeat_secs", d.heartbeat_secs) {
        Err(e) => {
            return Err(e);
        },
        Ok(n) => n,
    };
    let reset_seq = match s.optional_bool("reset_seq") {
        Err(e) => {
            return Err(e);
        },
        Ok(None) => d.reset_seq,
        Ok(Some(b)) => b,
    };
    let reconnect_secs = match s.positive_u64_or("reconnect_secs", d.reconnect_secs) {
        Err(e) => {
            return Err(e);
        },
        Ok(n) => n,
    };
    let logon_timeout_secs = match s.positive_u64_or("logon_timeout_secs", d.logon_timeout_secs) {
        Err(e) => {
            return Err(e);
        },
        Ok(n) => n,
    };
    let burst = match s.positive_u32_or("burst", d.burst) {
        Err(e) => {
            return Err(e);
        },
        Ok(n) => n,
    };
    Ok((heartbeat_secs, reset_seq, reconnect_secs, logon_timeout_secs, burst))
}

fn finish_fix_feed(s: &Section) -> (res: Result<(), ConfError>)
    ensures
        match finish_of(s.name(), s.entries(), fix_feed_keys()) {
            Ok(()) => res is Ok,
            Err(f) => res matches Err(e) && e@ == f,
        },
{
    let known: [&str; 22] = [
        "name",
        "venue",
        "mode",
        "cores",
        "ring",
        "ring_slots",
        "host",
        "port",
        "sender_comp_id",
        "target_comp_id",
        "begin_string",
        "price_decimals",
        "qty_decimals",
        "default_qty",
        "symbols",
        "depth",
        "subscription",
        "heartbeat_secs",
        "reset_seq",
        "reconnect_secs",
        "logon_timeout_secs",
        "burst",
    ];
    assert(known@.map_values(|k: &str| k@) =~= fix_feed_keys());
    s.finish(known.as_slice())
}

/// A feed named `name`.
fn read_fix_feed(s: &Section, name: String, d: FixDefaults) -> (res: Result<FixFeedConf, ConfError>)
    ensures
        match fix_feed_of(s.name(), s.entries(), name@, d) {
            Ok(m) => res matches Ok(f) && f@ == m,
            Err(f) => res matches Err(e) && e@ == f,
        },
{
    let (venue, mode, cores, ring, ring_slots) = match read_fix_head(s) {
        Err(e) => {
            return Err(e);
        },
        Ok(h) => h,
    };
    let (host, port, sender_comp_id, target_comp_id, begin_string) = match read_session(s) {
        Err(e) => {
            return Err(e);
        },
        Ok(x) => x,
    };
    let price_decimals = match s.decimals("price_decimals") {
        Err(e) => {
            return Err(e);
        },
        Ok(n) => n,
    };
    let qty_decimals = match s.decimals("qty_decimals") {
        Err(e) => {
            return Err(e);
        },
        Ok(n) => n,
    };
    let default_qty = match s.optional_u64("default_qty") {
        Err(e) => {
            return Err(e);
        },
        Ok(q) => q,
    };
    let symbols = match read_symbols(s) {
        Err(e) => {
            return Err(e);
        },
        Ok(v) => v,
    };
    let depth = match s.u32_or("depth", 0) {
        Err(e) => {
            return Err(e);
        },
        Ok(n) => n,
    };
    let subscription = match read_subscription(s) {
        Err(e) => {
            return Err(e);
        },
        Ok(t) => t,
    };
    let (heartbeat_secs, reset_seq, reconnect_secs, logon_timeout_secs, burst) = match read_timing(s, d) {
        Err(e) => {
            return Err(e);
        },
        Ok(t) => t,
    };
    match finish_fix_feed(s) {
        Err(e) => {
            return Err(e);
        },
        Ok(()) => {},
    }
    Ok(
        FixFeedConf {
            name,
            venue,
            mode,
            cores,
            ring,
            ring_slots,
            host,
            port,
            sender_comp_id,
            target_comp_id,
            begin_string,
            price_decimals,
            qty_decimals,
            default_qty,
            symbols,
            depth,
            subscription,
            heartbeat_secs,
            reset_seq,
            reconnect_secs,
            logon_timeout_secs,
            burst,
        },
    )
}


/// Once a feed has failed, later tables change nothing.
proof fn lemma_fix_feeds_stop(tables: Seq<Seq<(Seq<char>, Doc)>>, k: int, m: int, d: FixDefaults)
    requires
        0 <= k <= m,
        fix_feeds_of(tables, k, d) is Err,
    ensures
        fix_feeds_of(tables, m, d) == fix_feeds_of(tables, k, d),
    decreases m - k,
{
    if m > k {
        lemma_fix_feeds_stop(tables, k, m - 1, d);
    }
}

impl FixFeedConf {
    /// The session's price and size scales. The decimals were bounded to
    /// `0..=8` when read, which every scale admits.
    pub fn scales(&self) -> (res: (Scale, Scale))
        requires
            self.price_decimals <= 8,
            self.qty_decimals <= 8,
        ensures
            scale_of_decimals(self.price_decimals as int) == Some(res.0),
            scale_of_decimals(self.qty_decimals as int) == Some(res.1),
    {
        (Scale::from_decimals(self.price_decimals).unwrap(), Scale::from_decimals(self.qty_decimals).unwrap())
    }

    /// The affinity mask, or `None` if a core is beyond the mask's width.
    pub fn mask(&self) -> (res: Option<Mask>)
        ensures
            res is None <==> exists|j: int| 0 <= j < self.cores@.len() && self.cores@[j] >= 64,
            res matches Some(m) ==> forall|lp: int| 0 <= lp < 64 ==> (names(m, lp) <==> lists(self.cores@, lp)),
    {
        mask_of(self.cores.as_slice())
    }

    /// The part every conf's feed has, for the shared rules.
    pub fn placement(&self) -> (res: Placement<'_>)
        ensures
            res.name@ == self.name@,
            res.spin == (self.mode == Mode::Spin),
            res.cores@ == self.cores@,
            res.ring@ == self.ring@,
            res.ring_slots == self.ring_slots,
    {
        let spin = match self.mode {
            Mode::Spin => true,
            Mode::Block => false,
        };
        Placement {
            name: self.name.as_str(),
            spin,
            cores: self.cores.as_slice(),
            ring: self.ring.as_str(),
            ring_slots: self.ring_slots,
        }
    }
}

impl FixConf {
    /// Reads parsed TOML, with the receiver's own values for the knobs a
    /// feed leaves out.
    pub fn from_table(table: &Table, defaults: FixDefaults) -> (res: Result<FixConf, ConfError>)
        requires
            health_fits(table.doc_entries()),
        ensures
            match fix_of(table.doc_entries(), defaults) {
                Ok(m) => res matches Ok(c) && c@ == m,
                Err(f) => res matches Err(e) && e@ == f,
            },
    {
        let root = Section::new("", table);
        proof {
            reveal_strlit("");
            reveal_strlit("health");
        }
        assert(root.name() =~= Seq::<char>::empty());
        let tables = match root.tables("feed") {
            Err(e) => {
                return Err(e);
            },
            Ok(t) => t,
        };
        let ghost ts = match tables_of(Seq::empty(), table.doc_entries(), "feed"@) {
            Ok(ts) => ts,
            Err(_) => Seq::empty(),
        };
        let ghost whole = fix_of(table.doc_entries(), defaults);
        let ghost all = fix_feeds_of(ts, ts.len() as int, defaults);
        assert(all matches Err(f) ==> whole == Err::<FixModel, ConfFault>(f));
        let mut feeds: Vec<FixFeedConf> = Vec::new();
        assert(feeds@.map_values(|f: FixFeedConf| f@) =~= Seq::<FixFeedModel>::empty());
        let mut i: usize = 0;
        while i < tables.len()
            invariant
                whole == fix_of(table.doc_entries(), defaults),
                all == fix_feeds_of(ts, ts.len() as int, defaults),
                all matches Err(f) ==> whole == Err::<FixModel, ConfFault>(f),
                i <= tables@.len(),
                tables@.len() == ts.len(),
                forall|k: int| 0 <= k < ts.len() ==> #[trigger] tables@[k].doc_entries() == ts[k],
                fix_feeds_of(ts, i as int, defaults) == Ok::<Seq<FixFeedModel>, ConfFault>(
                    feeds@.map_values(|f: FixFeedConf| f@),
                ),
            decreases tables@.len() - i,
        {
            let t = tables[i];
            let at0 = feed_index(i);
            let s0 = Section::new(at0.as_str(), t);
            let name = match s0.required_str("name") {
                Err(e) => {
                    proof {
                        lemma_fix_feeds_stop(ts, i + 1, ts.len() as int, defaults);
                    }
                    return Err(e);
                },
                Ok(n) => n,
            };
            let at = feed_label(name);
            let s = Section::new(at.as_str(), t);
            match read_fix_feed(&s, String::from_str(name), defaults) {
                Err(e) => {
                    proof {
                        lemma_fix_feeds_stop(ts, i + 1, ts.len() as int, defaults);
                    }
                    return Err(e);
                },
                Ok(f) => {
                    proof {
                        assert(feeds@.push(f).map_values(|f: FixFeedConf| f@) =~= feeds@.map_values(
                            |f: FixFeedConf| f@,
                        ).push(f@));
                    }
                    feeds.push(f);
                },
            }
            i += 1;
        }
        let health_section = match root.optional_table("health") {
            Err(e) => {
                return Err(e);
            },
            Ok(h) => h,
        };
        let health = match Health::from_section(health_section) {
            Err(e) => {
                return Err(e);
            },
            Ok(h) => h,
        };
        let report_secs = match read_report_secs(&root) {
            Err(e) => {
                return Err(e);
            },
            Ok(n) => n,
        };
        let known: [&str; 3] = ["feed", "health", "log"];
        assert(known@.map_values(|k: &str| k@) =~= fix_root_keys());
        match root.finish(known.as_slice()) {
            Err(e) => Err(e),
            Ok(()) => Ok(FixConf { feeds, health, report_secs }),
        }
    }
}


// ---------------------------------------------------------------------------
// Its rules
// ---------------------------------------------------------------------------

/// `ps` are the feeds' placements, in order.
pub open spec fn fix_placements(ps: Seq<Placement>, feeds: Seq<FixFeedConf>) -> bool {
    &&& ps.len() == feeds.len()
    &&& forall|i: int| #![trigger ps[i]] 0 <= i < feeds.len() ==> {
        &&& ps[i].name@ == feeds[i].name@
        &&& ps[i].spin == (feeds[i].mode == Mode::Spin)
        &&& ps[i].cores@ == feeds[i].cores@
        &&& ps[i].ring@ == feeds[i].ring@
        &&& ps[i].ring_slots == feeds[i].ring_slots
    }
}

/// Feed `k` lists no symbol.
pub open spec fn lists_no_symbol(feeds: Seq<FixFeedConf>) -> spec_fn(int) -> bool {
    |k: int| feeds[k].symbols@.len() == 0
}

/// What the FIX conf's rules answer: the shared placement rules, then the
/// first feed with no symbol.
pub open spec fn fix_verdict(
    ps: Seq<Placement>,
    feeds: Seq<FixFeedConf>,
    topology: Option<Seq<u64>>,
    refusals: Seq<Option<Seq<char>>>,
) -> Result<Option<RuleFault>, ()> {
    match placement_verdict(ps, topology, refusals) {
        Ok(None) => match first_where(feeds.len() as int, 0, lists_no_symbol(feeds)) {
            Some(i) => Ok(Some(RuleFault::NoInstruments { feed: feeds[i].name@ })),
            None => Ok(None),
        },
        other => other,
    }
}

impl FixConf {
    /// Refuses a conf that would run wrong.
    ///
    /// `topology` is the box's SMT layout; without it the sibling rule is
    /// skipped. `ring_refusals[i]` is what the segment layer said of feed
    /// `i`'s ring name.
    pub fn validate(&self, topology: Option<&Topology>, ring_refusals: &[Option<String>]) -> (res: Result<(), RuleError>)
        requires
            ring_refusals@.len() == self.feeds@.len(),
            forall|ps: Seq<Placement>| fix_placements(ps, self.feeds@) ==> placement_verdict(
                ps,
                topology_of(topology),
                refusal_texts(ring_refusals@),
            ) is Ok,
        ensures
            exists|ps: Seq<Placement>| fix_placements(ps, self.feeds@) && verdict_is(
                res,
                fix_verdict(ps, self.feeds@, topology_of(topology), refusal_texts(ring_refusals@)),
            ),
    {
        let mut ps: Vec<Placement> = Vec::new();
        let mut i: usize = 0;
        while i < self.feeds.len()
            invariant
                i <= self.feeds@.len(),
                ps@.len() == i,
                forall|k: int| #![trigger ps@[k]] 0 <= k < i ==> {
                    &&& ps@[k].name@ == self.feeds@[k].name@
                    &&& ps@[k].spin == (self.feeds@[k].mode == Mode::Spin)
                    &&& ps@[k].cores@ == self.feeds@[k].cores@
                    &&& ps@[k].ring@ == self.feeds@[k].ring@
                    &&& ps@[k].ring_slots == self.feeds@[k].ring_slots
                },
            decreases self.feeds@.len() - i,
        {
            ps.push(self.feeds[i].placement());
            i += 1;
        }
        assert(fix_placements(ps@, self.feeds@));
        match check_placement(ps.as_slice(), topology, ring_refusals) {
            Err(e) => {
                assert(verdict_is(
                    Err(e),
                    fix_verdict(ps@, self.feeds@, topology_of(topology), refusal_texts(ring_refusals@)),
                ));
                return Err(e);
            },
            Ok(()) => {},
        }
        let mut k: usize = 0;
        while k < self.feeds.len()
            invariant
                k <= self.feeds@.len(),
                fix_placements(ps@, self.feeds@),
                placement_verdict(ps@, topology_of(topology), refusal_texts(ring_refusals@)) == Ok::<
                    Option<RuleFault>,
                    (),
                >(None),
                forall|m: int| #![trigger lists_no_symbol(self.feeds@)(m)] 0 <= m < k ==> !lists_no_symbol(
                    self.feeds@,
                )(m),
            decreases self.feeds@.len() - k,
        {
            if self.feeds[k].symbols.len() == 0 {
                proof {
                    lemma_first_where_found(self.feeds@.len() as int, 0, lists_no_symbol(self.feeds@), k as int);
                }
                let e = RuleError::NoInstruments { feed: String::from_str(self.feeds[k].name.as_str()) };
                assert(verdict_is(
                    Err(e),
                    fix_verdict(ps@, self.feeds@, topology_of(topology), refusal_texts(ring_refusals@)),
                ));
                return Err(e);
            }
            k += 1;
        }
        proof {
            lemma_first_where_none(self.feeds@.len() as int, 0, lists_no_symbol(self.feeds@));
        }
        assert(verdict_is(
            Ok(()),
            fix_verdict(ps@, self.feeds@, topology_of(topology), refusal_texts(ring_refusals@)),
        ));
        Ok(())
    }
}

/// What a FIX conf the rules accept guarantees: its placement is one the
/// shared rules accept (so [`law_accepted_placement`] holds of it), and
/// every feed asks for at least one symbol.
///
/// [`law_accepted_placement`]: crate::conf::rules::law_accepted_placement
pub proof fn law_accepted_fix(
    ps: Seq<Placement>,
    feeds: Seq<FixFeedConf>,
    topology: Option<Seq<u64>>,
    refusals: Seq<Option<Seq<char>>>,
)
    requires
        fix_verdict(ps, feeds, topology, refusals) == Ok::<Option<RuleFault>, ()>(None),
    ensures
        placement_verdict(ps, topology, refusals) == Ok::<Option<RuleFault>, ()>(None),
        forall|i: int| 0 <= i < feeds.len() ==> #[trigger] feeds[i].symbols@.len() > 0,
{
    lemma_first_where_facts(feeds.len() as int, 0, lists_no_symbol(feeds));
    assert forall|i: int| 0 <= i < feeds.len() implies #[trigger] feeds[i].symbols@.len() > 0 by {
        assert(!lists_no_symbol(feeds)(i));
    }
}

// ---------------------------------------------------------------------------
// Its warnings
// ---------------------------------------------------------------------------

/// What might be wrong with a conf that will still run.
#[derive(Debug, Clone, PartialEq, Eq)]
pub enum Warning {
    /// The SMT layout could not be read, so the sibling rule was not applied.
    NoTopology,
    /// One symbol under two feeds on the same venue: two sessions, two rings,
    /// one instrument.
    SymbolInTwoFeeds {
        /// The venue.
        venue: Venue,
        /// The symbol.
        symbol: String,
        /// First feed.
        a: String,
        /// Second feed.
        b: String,
    },
}

/// A warning, as plain values.
pub enum WarningModel {
    NoTopology,
    SymbolInTwoFeeds { venue: Venue, symbol: Seq<char>, a: Seq<char>, b: Seq<char> },
}

impl View for Warning {
    type V = WarningModel;

    open spec fn view(&self) -> WarningModel {
        match self {
            Warning::NoTopology => WarningModel::NoTopology,
            Warning::SymbolInTwoFeeds { venue, symbol, a, b } => WarningModel::SymbolInTwoFeeds {
                venue: *venue,
                symbol: symbol@,
                a: a@,
                b: b@,
            },
        }
    }
}

/// The symbols of a feed, as text.
pub open spec fn symbols_text(f: FixFeedConf) -> Seq<Seq<char>> {
    f.symbols@.map_values(|t: String| t@)
}

/// Earlier feed `k` is on `venue` and lists `symbol`.
pub open spec fn lists_symbol(feeds: Seq<FixFeedConf>, venue: Venue, symbol: Seq<char>) -> spec_fn(int) -> bool {
    |k: int| feeds[k].venue == venue && symbols_text(feeds[k]).contains(symbol)
}

/// The warning for symbol `j` of feed `i`, if an earlier feed on its venue
/// lists it too (the first such).
pub open spec fn symbol_warning(feeds: Seq<FixFeedConf>, i: int, j: int) -> Seq<WarningModel> {
    let f = feeds[i];
    let symbol = symbols_text(f)[j];
    match first_where(i, 0, lists_symbol(feeds, f.venue, symbol)) {
        Some(k) => seq![WarningModel::SymbolInTwoFeeds { venue: f.venue, symbol, a: feeds[k].name@, b: f.name@ }],
        None => Seq::empty(),
    }
}

/// The warnings for the first `n` symbols of feed `i`.
pub open spec fn feed_warnings(feeds: Seq<FixFeedConf>, i: int, n: int) -> Seq<WarningModel>
    decreases n,
{
    if n <= 0 {
        Seq::empty()
    } else {
        feed_warnings(feeds, i, n - 1) + symbol_warning(feeds, i, n - 1)
    }
}

/// The warnings for the first `n` feeds.
pub open spec fn feeds_warnings(feeds: Seq<FixFeedConf>, n: int) -> Seq<WarningModel>
    decreases n,
{
    if n <= 0 {
        Seq::empty()
    } else {
        feeds_warnings(feeds, n - 1) + feed_warnings(feeds, n - 1, feeds[n - 1].symbols@.len() as int)
    }
}

/// Every warning, in order: the missing topology first, then each feed's
/// symbols in file order.
pub open spec fn fix_warnings(feeds: Seq<FixFeedConf>, topology_known: bool) -> Seq<WarningModel> {
    (if topology_known {
        Seq::empty()
    } else {
        seq![WarningModel::NoTopology]
    }) + feeds_warnings(feeds, feeds.len() as int)
}

/// `symbols` holds `symbol`.
fn holds_symbol(symbols: &Vec<String>, symbol: &str) -> (res: bool)
    ensures
        res == symbols@.map_values(|t: String| t@).contains(symbol@),
{
    let ghost texts = symbols@.map_values(|t: String| t@);
    let mut k: usize = 0;
    while k < symbols.len()
        invariant
            k <= symbols@.len(),
            texts == symbols@.map_values(|t: String| t@),
            forall|m: int| 0 <= m < k ==> #[trigger] texts[m] != symbol@,
        decreases symbols@.len() - k,
    {
        if str_eq(symbols[k].as_str(), symbol) {
            assert(texts[k as int] == symbol@);
            return true;
        }
        k += 1;
    }
    false
}

/// The first feed before `i` on `venue` that lists `symbol`.
fn earlier_listing(feeds: &Vec<FixFeedConf>, i: usize, venue: Venue, symbol: &str) -> (res: Option<usize>)
    requires
        i <= feeds@.len(),
    ensures
        match first_where(i as int, 0, lists_symbol(feeds@, venue, symbol@)) {
            Some(k) => res == Some(k as usize),
            None => res is None,
        },
        res matches Some(k) ==> k < i,
{
    let mut k: usize = 0;
    while k < i
        invariant
            k <= i <= feeds@.len(),
            forall|m: int| #![trigger lists_symbol(feeds@, venue, symbol@)(m)] 0 <= m < k ==> !lists_symbol(
                feeds@,
                venue,
                symbol@,
            )(m),
        decreases i - k,
    {
        if feeds[k].venue == venue && holds_symbol(&feeds[k].symbols, symbol) {
            proof {
                lemma_first_where_found(i as int, 0, lists_symbol(feeds@, venue, symbol@), k as int);
            }
            return Some(k);
        }
        k += 1;
    }
    proof {
        lemma_first_where_none(i as int, 0, lists_symbol(feeds@, venue, symbol@));
    }
    None
}

/// Appends the warning for symbol `j` of feed `i`, if any.
fn push_symbol_warning(out: &mut Vec<Warning>, feeds: &Vec<FixFeedConf>, i: usize, j: usize)
    requires
        i < feeds@.len(),
        j < feeds@[i as int].symbols@.len(),
    ensures
        final(out)@.map_values(|w: Warning| w@) == old(out)@.map_values(|w: Warning| w@) + symbol_warning(
            feeds@,
            i as int,
            j as int,
        ),
{
    let f = &feeds[i];
    let symbol = f.symbols[j].as_str();
    assert(symbols_text(*f)[j as int] == symbol@);
    proof {
        lemma_first_where_facts(i as int, 0, lists_symbol(feeds@, f.venue, symbol@));
    }
    let ghost before = out@.map_values(|w: Warning| w@);
    match earlier_listing(feeds, i, f.venue, symbol) {
        Some(k) => {
            let w = Warning::SymbolInTwoFeeds {
                venue: f.venue,
                symbol: String::from_str(symbol),
                a: String::from_str(feeds[k].name.as_str()),
                b: String::from_str(f.name.as_str()),
            };
            assert(out@.push(w).map_values(|w: Warning| w@) =~= before.push(w@));
            out.push(w);
        },
        None => {},
    }
    assert(out@.map_values(|w: Warning| w@) =~= before + symbol_warning(feeds@, i as int, j as int));
}

impl FixConf {
    /// What might be wrong with a conf that will still run.
    /// `topology_known` says whether the SMT layout could be read.
    pub fn warnings(&self, topology_known: bool) -> (res: Vec<Warning>)
        ensures
            res@.map_values(|w: Warning| w@) == fix_warnings(self.feeds@, topology_known),
    {
        let ghost feeds = self.feeds@;
        let ghost first: Seq<WarningModel> = if topology_known {
            Seq::empty()
        } else {
            seq![WarningModel::NoTopology]
        };
        let mut out: Vec<Warning> = Vec::new();
        if !topology_known {
            out.push(Warning::NoTopology);
        }
        assert(out@.map_values(|w: Warning| w@) =~= first + feeds_warnings(feeds, 0));
        let mut i: usize = 0;
        while i < self.feeds.len()
            invariant
                feeds == self.feeds@,
                i <= feeds.len(),
                out@.map_values(|w: Warning| w@) == first + feeds_warnings(feeds, i as int),
            decreases feeds.len() - i,
        {
            let ghost head = out@.map_values(|w: Warning| w@);
            let mut j: usize = 0;
            while j < self.feeds[i].symbols.len()
                invariant
                    feeds == self.feeds@,
                    i < feeds.len(),
                    j <= feeds[i as int].symbols@.len(),
                    out@.map_values(|w: Warning| w@) == head + feed_warnings(feeds, i as int, j as int),
                decreases feeds[i as int].symbols@.len() - j,
            {
                push_symbol_warning(&mut out, &self.feeds, i, j);
                proof {
                    assert(out@.map_values(|w: Warning| w@) =~= head + feed_warnings(feeds, i as int, j + 1));
                }
                j += 1;
            }
            proof {
                assert(out@.map_values(|w: Warning| w@) =~= first + feeds_warnings(feeds, i + 1));
            }
            i += 1;
        }
        assert(out@.map_values(|w: Warning| w@) =~= fix_warnings(feeds, topology_known));
        out
    }
}

impl Warning {
    /// The warning as the log prints it.
    pub fn to_string(&self) -> (res: String)
        ensures
            res@ == warning_text(self@),
    {
        match self {
            Warning::NoTopology => String::from_str("SMT topology unavailable; the sibling-core rule was not checked"),
            Warning::SymbolInTwoFeeds { venue, symbol, a, b } => {
                let mut s = String::from_str(venue.as_str());
                s.append(" ");
                s.append(symbol.as_str());
                s.append(" is listed under both \"");
                s.append(a.as_str());
                s.append("\" and \"");
                s.append(b.as_str());
                s.append("\"; it will be published to two rings");
                s
            },
        }
    }
}

/// What a warning reads as.
pub open spec fn warning_text(w: WarningModel) -> Seq<char> {
    match w {
        WarningModel::NoTopology => "SMT topology unavailable; the sibling-core rule was not checked"@,
        WarningModel::SymbolInTwoFeeds { venue, symbol, a, b } => venue_tag(venue)@ + " "@ + symbol
            + " is listed under both \""@ + a + "\" and \""@ + b + "\"; it will be published to two rings"@,
    }
}

} // verus!
