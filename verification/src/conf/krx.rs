//! `conf/krx.toml`: the KRX handler's feeds, filter, health guards and
//! report cadence.
//!
//! A socket address is read here as the text the conf wrote; the receiver
//! parses it. So that a bad address is still reported before whatever
//! comes after it in the file, reading hands back the addresses it read, in
//! order, beside the conf or the first fault found after them.
use vstd::prelude::*;
use vstd::string::{StringExecFns, StringSliceAdditionalSpecFns};
use vstd::utf8::encode_utf8;

use crate::conf::trcodes::Code;
pub use crate::conf::Mode;
use crate::conf::{
    feed_at, feed_index, feed_label, health_fits, health_of, mode_of, read_mode, read_report_secs, report_secs_of,
    ConfError, ConfFault, Health, Section, finish_of, str_opt, str_req, strs_req, table_opt, tables_of, u16s_req,
    u64_opt, u64_req,
};
use crate::conf::rules::{
    KrxRules, Placement, first_where, holds_before, krx_verdict, lemma_first_where_facts, lemma_first_where_found,
    lemma_first_where_none, refusal_texts, topology_of, validate_krx, verdict_is,
};
use crate::conf::trcodes::TrCodeTable;

pub use crate::conf::rules::RuleError;
use crate::cpu::{Mask, Topology, lists, mask_of, names};
use crate::text::{ascii_text, push_ascii};
use crate::text::decimal;
use crate::toml::grammar::Doc;
use crate::toml::Table;

verus! {

/// What the receiver uses when a feed leaves a knob out.
#[derive(Debug, Clone, Copy, PartialEq, Eq, Structural)]
pub struct FeedDefaults {
    /// Datagrams one socket may yield per round.
    pub burst: u32,
    /// `SO_RCVBUF`.
    pub recv_buffer_bytes: u32,
}

/// One `[[feed]]`: one thread, one ring.
#[derive(Debug, Clone, PartialEq, Eq)]
pub struct FeedConf {
    /// `name`: for the thread and the log.
    pub name: String,
    /// `mode`.
    pub mode: Mode,
    /// `cores`: the affinity set. Exactly one for a spinning feed.
    pub cores: Vec<u16>,
    /// `ring`: segment name, session-local namespace.
    pub ring: String,
    /// `ring_slots`: a power of two.
    pub ring_slots: u64,
    /// `sockets`: what to join, as written.
    pub sockets: Vec<String>,
    /// `trcodes`: what to keep.
    pub trcodes: Vec<Code>,
    /// `burst`: datagrams one socket may yield per round.
    pub burst: u32,
    /// `recv_buffer_bytes`: `SO_RCVBUF`.
    pub recv_buffer_bytes: u32,
}

/// The whole file.
#[derive(Debug, Clone, PartialEq, Eq)]
pub struct KrxConf {
    /// `trcode_table`: where the generated trcode table is, if validation
    /// against it is wanted.
    pub trcode_table: Option<String>,
    /// `[[feed]]`, in file order.
    pub feeds: Vec<FeedConf>,
    /// `[filter] isin`: the allow-list of issue codes, if any.
    pub isin_list: Option<String>,
    /// `[health]`.
    pub health: Health,
    /// `[log] report_secs`: cadence of the per-feed report line. Zero
    /// silences it.
    pub report_secs: u64,
}

/// A socket address read from the conf: the feed it is under, as errors
/// name it, and the text.
#[derive(Debug, Clone, PartialEq, Eq)]
pub struct SocketText {
    pub at: String,
    pub text: String,
}

/// What reading a conf gives: every socket address read, in file order,
/// and then the conf, or the first fault found after those addresses.
#[derive(Debug)]
pub struct KrxRead {
    pub sockets: Vec<SocketText>,
    pub conf: Result<KrxConf, ConfError>,
}

/// A feed, as plain values.
pub struct FeedModel {
    pub name: Seq<char>,
    pub mode: Mode,
    pub cores: Seq<u16>,
    pub ring: Seq<char>,
    pub ring_slots: u64,
    pub sockets: Seq<Seq<char>>,
    pub trcodes: Seq<Seq<u8>>,
    pub burst: u32,
    pub recv_buffer_bytes: u32,
}

/// A conf, as plain values.
pub struct KrxModel {
    pub trcode_table: Option<Seq<char>>,
    pub feeds: Seq<FeedModel>,
    pub isin_list: Option<Seq<char>>,
    pub health: Health,
    pub report_secs: u64,
}

impl View for FeedConf {
    type V = FeedModel;

    open spec fn view(&self) -> FeedModel {
        FeedModel {
            name: self.name@,
            mode: self.mode,
            cores: self.cores@,
            ring: self.ring@,
            ring_slots: self.ring_slots,
            sockets: self.sockets@.map_values(|t: String| t@),
            trcodes: self.trcodes@.map_values(|c: Code| c@),
            burst: self.burst,
            recv_buffer_bytes: self.recv_buffer_bytes,
        }
    }
}

impl View for KrxConf {
    type V = KrxModel;

    open spec fn view(&self) -> KrxModel {
        KrxModel {
            trcode_table: match self.trcode_table {
                Some(t) => Some(t@),
                None => None,
            },
            feeds: self.feeds@.map_values(|f: FeedConf| f@),
            isin_list: match self.isin_list {
                Some(t) => Some(t@),
                None => None,
            },
            health: self.health,
            report_secs: self.report_secs,
        }
    }
}

// ---------------------------------------------------------------------------
// What a conf reads as
// ---------------------------------------------------------------------------

/// The keys a `[[feed]]` may hold.
pub open spec fn feed_keys() -> Seq<Seq<char>> {
    seq![
        "name"@,
        "mode"@,
        "cores"@,
        "ring"@,
        "ring_slots"@,
        "sockets"@,
        "trcodes"@,
        "burst"@,
        "recv_buffer_bytes"@,
    ]
}

/// The keys the top level may hold.
pub open spec fn root_keys() -> Seq<Seq<char>> {
    seq!["trcode_table"@, "feed"@, "filter"@, "health"@, "log"@]
}

/// The first of `texts` from `from` on that is not five bytes long.
pub open spec fn first_not_five(texts: Seq<Seq<char>>, from: int) -> Option<int>
    decreases texts.len() - from,
{
    if from < 0 || from >= texts.len() {
        None
    } else if encode_utf8(texts[from]).len() != 5 {
        Some(from)
    } else {
        first_not_five(texts, from + 1)
    }
}

pub open spec fn trcodes_of(at: Seq<char>, entries: Seq<(Seq<char>, Doc)>) -> Result<Seq<Seq<u8>>, ConfFault> {
    match strs_req(at, entries, "trcodes"@) {
        Err(f) => Err(f),
        Ok(texts) => match first_not_five(texts, 0) {
            None => Ok(texts.map_values(|t: Seq<char>| encode_utf8(t))),
            Some(i) => Err(
                ConfFault::Invalid { at, key: "trcodes"@, reason: "`"@ + texts[i] + "` is not a five-byte trcode"@ },
            ),
        },
    }
}

pub open spec fn burst_of(at: Seq<char>, entries: Seq<(Seq<char>, Doc)>, d: FeedDefaults) -> Result<u32, ConfFault> {
    match u64_opt(at, entries, "burst"@) {
        Err(f) => Err(f),
        Ok(None) => Ok(d.burst),
        Ok(Some(n)) => if n == 0 {
            Err(ConfFault::Invalid { at, key: "burst"@, reason: "must be at least 1"@ })
        } else if n <= u32::MAX {
            Ok(n as u32)
        } else {
            Err(ConfFault::Invalid { at, key: "burst"@, reason: "is too large"@ })
        },
    }
}

pub open spec fn recv_buffer_of(at: Seq<char>, entries: Seq<(Seq<char>, Doc)>, d: FeedDefaults) -> Result<u32, ConfFault> {
    match u64_opt(at, entries, "recv_buffer_bytes"@) {
        Err(f) => Err(f),
        Ok(None) => Ok(d.recv_buffer_bytes),
        Ok(Some(n)) => if n <= u32::MAX {
            Ok(n as u32)
        } else {
            Err(ConfFault::Invalid { at, key: "recv_buffer_bytes"@, reason: "is too large"@ })
        },
    }
}

/// The part of a feed read after its sockets: trcodes, burst, receive
/// buffer, and the typo check.
pub open spec fn feed_rest(at: Seq<char>, entries: Seq<(Seq<char>, Doc)>, d: FeedDefaults) -> Result<
    (Seq<Seq<u8>>, u32, u32),
    ConfFault,
> {
    match trcodes_of(at, entries) {
        Err(f) => Err(f),
        Ok(trcodes) => match burst_of(at, entries, d) {
            Err(f) => Err(f),
            Ok(burst) => match recv_buffer_of(at, entries, d) {
                Err(f) => Err(f),
                Ok(recv) => match finish_of(at, entries, feed_keys()) {
                    Err(f) => Err(f),
                    Ok(()) => Ok((trcodes, burst, recv)),
                },
            },
        },
    }
}

/// The part of a feed read before its sockets.
pub open spec fn feed_head(at: Seq<char>, entries: Seq<(Seq<char>, Doc)>) -> Result<
    (Mode, Seq<u16>, Seq<char>, u64),
    ConfFault,
> {
    match mode_of(at, entries) {
        Err(f) => Err(f),
        Ok(mode) => match u16s_req(at, entries, "cores"@) {
            Err(f) => Err(f),
            Ok(cores) => match str_req(at, entries, "ring"@) {
                Err(f) => Err(f),
                Ok(ring) => match u64_req(at, entries, "ring_slots"@) {
                    Err(f) => Err(f),
                    Ok(slots) => Ok((mode, cores, ring, slots)),
                },
            },
        },
    }
}

/// A feed named `name` whose section errors call `at`: the socket texts it
/// read, and the feed or the first fault.
pub open spec fn feed_of(at: Seq<char>, entries: Seq<(Seq<char>, Doc)>, name: Seq<char>, d: FeedDefaults) -> (
    Seq<Seq<char>>,
    Result<FeedModel, ConfFault>,
) {
    match feed_head(at, entries) {
        Err(f) => (Seq::empty(), Err(f)),
        Ok((mode, cores, ring, ring_slots)) => match strs_req(at, entries, "sockets"@) {
            Err(f) => (Seq::empty(), Err(f)),
            Ok(sockets) => (
                sockets,
                match feed_rest(at, entries, d) {
                    Err(f) => Err(f),
                    Ok((trcodes, burst, recv_buffer_bytes)) => Ok(
                        FeedModel { name, mode, cores, ring, ring_slots, sockets, trcodes, burst, recv_buffer_bytes },
                    ),
                },
            ),
        },
    }
}

/// The first `k` of the `[[feed]]` tables: the sockets read, each with its
/// feed, and the feeds or the first fault.
pub open spec fn feeds_of(tables: Seq<Seq<(Seq<char>, Doc)>>, k: int, d: FeedDefaults) -> (
    Seq<(Seq<char>, Seq<char>)>,
    Result<Seq<FeedModel>, ConfFault>,
)
    decreases k,
{
    if k <= 0 {
        (Seq::empty(), Ok(Seq::empty()))
    } else {
        let (sockets, before) = feeds_of(tables, k - 1, d);
        match before {
            Err(f) => (sockets, Err(f)),
            Ok(feeds) => match str_req(feed_at(decimal((k - 1) as nat)), tables[k - 1], "name"@) {
                Err(f) => (sockets, Err(f)),
                Ok(name) => {
                    let at = feed_at(name);
                    let (texts, feed) = feed_of(at, tables[k - 1], name, d);
                    (
                        sockets + texts.map_values(|t: Seq<char>| (at, t)),
                        match feed {
                            Ok(m) => Ok(feeds.push(m)),
                            Err(f) => Err(f),
                        },
                    )
                },
            },
        }
    }
}

/// Once a feed has failed, later tables change nothing.
proof fn lemma_feeds_stop(tables: Seq<Seq<(Seq<char>, Doc)>>, k: int, m: int, d: FeedDefaults)
    requires
        0 <= k <= m,
        feeds_of(tables, k, d).1 is Err,
    ensures
        feeds_of(tables, m, d) == feeds_of(tables, k, d),
    decreases m - k,
{
    if m > k {
        lemma_feeds_stop(tables, k, m - 1, d);
    }
}

/// `[filter]`: the allow-list's path, if any.
pub open spec fn filter_of(root: Seq<(Seq<char>, Doc)>) -> Result<Option<Seq<char>>, ConfFault> {
    match table_opt(Seq::empty(), root, "filter"@) {
        Err(f) => Err(f),
        Ok(None) => Ok(None),
        Ok(Some(entries)) => match str_opt("filter"@, entries, "isin"@) {
            Err(f) => Err(f),
            Ok(path) => match finish_of("filter"@, entries, seq!["isin"@]) {
                Err(f) => Err(f),
                Ok(()) => Ok(path),
            },
        },
    }
}

/// What the file reads as: the sockets read, and the conf or the first
/// fault after them.
pub open spec fn krx_of(root: Seq<(Seq<char>, Doc)>, d: FeedDefaults) -> (Seq<(Seq<char>, Seq<char>)>, Result<KrxModel, ConfFault>) {
    match str_opt(Seq::empty(), root, "trcode_table"@) {
        Err(f) => (Seq::empty(), Err(f)),
        Ok(trcode_table) => match tables_of(Seq::empty(), root, "feed"@) {
            Err(f) => (Seq::empty(), Err(f)),
            Ok(tables) => {
                let (sockets, feeds) = feeds_of(tables, tables.len() as int, d);
                (
                    sockets,
                    match feeds {
                        Err(f) => Err(f),
                        Ok(feeds) => match filter_of(root) {
                            Err(f) => Err(f),
                            Ok(isin_list) => match health_of(root) {
                                Err(f) => Err(f),
                                Ok(health) => match report_secs_of(root) {
                                    Err(f) => Err(f),
                                    Ok(report_secs) => match finish_of(Seq::empty(), root, root_keys()) {
                                        Err(f) => Err(f),
                                        Ok(()) => Ok(KrxModel { trcode_table, feeds, isin_list, health, report_secs }),
                                    },
                                },
                            },
                        },
                    },
                )
            },
        },
    }
}


// ---------------------------------------------------------------------------
// Reading it
// ---------------------------------------------------------------------------

fn read_trcodes(s: &Section) -> (res: Result<Vec<Code>, ConfError>)
    ensures
        match trcodes_of(s.name(), s.entries()) {
            Ok(codes) => res matches Ok(v) && v@.map_values(|c: Code| c@) == codes,
            Err(f) => res matches Err(e) && e@ == f,
        },
{
    let texts = match s.required_strs("trcodes") {
        Err(e) => {
            return Err(e);
        },
        Ok(t) => t,
    };
    let ghost ts = match strs_req(s.name(), s.entries(), "trcodes"@) {
        Ok(ts) => ts,
        Err(_) => Seq::empty(),
    };
    let mut codes: Vec<Code> = Vec::new();
    let mut i: usize = 0;
    while i < texts.len()
        invariant
            i <= texts@.len(),
            strs_req(s.name(), s.entries(), "trcodes"@) == Ok::<Seq<Seq<char>>, ConfFault>(ts),
            texts@.len() == ts.len(),
            forall|k: int| 0 <= k < ts.len() ==> #[trigger] texts@[k]@ == ts[k],
            first_not_five(ts, 0) == first_not_five(ts, i as int),
            codes@.len() == i,
            codes@.map_values(|c: Code| c@) == ts.subrange(0, i as int).map_values(|t: Seq<char>| encode_utf8(t)),
        decreases texts@.len() - i,
    {
        let text = texts[i];
        match crate::conf::trcodes::five_bytes(text) {
            None => {
                let mut reason = String::from_str("`");
                reason.append(text);
                reason.append("` is not a five-byte trcode");
                return Err(s.invalid("trcodes", reason.as_str()));
            },
            Some(c) => {
                proof {
                    assert(codes@.push(c).map_values(|c: Code| c@) =~= codes@.map_values(|c: Code| c@).push(c@));
                    assert(ts.subrange(0, i + 1).map_values(|t: Seq<char>| encode_utf8(t)) =~= ts.subrange(
                        0,
                        i as int,
                    ).map_values(|t: Seq<char>| encode_utf8(t)).push(encode_utf8(ts[i as int])));
                }
                codes.push(c);
            },
        }
        i += 1;
    }
    assert(ts.subrange(0, ts.len() as int) =~= ts);
    Ok(codes)
}

fn read_burst(s: &Section, d: FeedDefaults) -> (res: Result<u32, ConfError>)
    ensures
        match burst_of(s.name(), s.entries(), d) {
            Ok(n) => res == Ok::<u32, ConfError>(n),
            Err(f) => res matches Err(e) && e@ == f,
        },
{
    match s.optional_u64("burst") {
        Err(e) => Err(e),
        Ok(None) => Ok(d.burst),
        Ok(Some(n)) => {
            if n == 0 {
                Err(s.invalid("burst", "must be at least 1"))
            } else if n <= 0xFFFF_FFFF {
                Ok(n as u32)
            } else {
                Err(s.invalid("burst", "is too large"))
            }
        },
    }
}

fn read_recv_buffer(s: &Section, d: FeedDefaults) -> (res: Result<u32, ConfError>)
    ensures
        match recv_buffer_of(s.name(), s.entries(), d) {
            Ok(n) => res == Ok::<u32, ConfError>(n),
            Err(f) => res matches Err(e) && e@ == f,
        },
{
    match s.optional_u64("recv_buffer_bytes") {
        Err(e) => Err(e),
        Ok(None) => Ok(d.recv_buffer_bytes),
        Ok(Some(n)) => {
            if n <= 0xFFFF_FFFF {
                Ok(n as u32)
            } else {
                Err(s.invalid("recv_buffer_bytes", "is too large"))
            }
        },
    }
}

fn finish_feed(s: &Section) -> (res: Result<(), ConfError>)
    ensures
        match finish_of(s.name(), s.entries(), feed_keys()) {
            Ok(()) => res is Ok,
            Err(f) => res matches Err(e) && e@ == f,
        },
{
    let known: [&str; 9] = [
        "name",
        "mode",
        "cores",
        "ring",
        "ring_slots",
        "sockets",
        "trcodes",
        "burst",
        "recv_buffer_bytes",
    ];
    assert(known@.map_values(|k: &str| k@) =~= feed_keys());
    s.finish(known.as_slice())
}

/// A feed: the socket texts it read, and the feed or the first fault.
fn read_feed(s: &Section, name: String, d: FeedDefaults) -> (res: (Vec<String>, Result<FeedConf, ConfError>))
    ensures
        ({
            let (texts, feed) = feed_of(s.name(), s.entries(), name@, d);
            &&& res.0@.map_values(|t: String| t@) == texts
            &&& match feed {
                Ok(m) => res.1 matches Ok(f) && f@ == m,
                Err(f) => res.1 matches Err(e) && e@ == f,
            }
        }),
{
    let empty: Vec<String> = Vec::new();
    assert(empty@.map_values(|t: String| t@) =~= Seq::<Seq<char>>::empty());
    let mode = match read_mode(s) {
        Err(e) => {
            return (empty, Err(e));
        },
        Ok(m) => m,
    };
    let cores = match s.required_u16s("cores") {
        Err(e) => {
            return (empty, Err(e));
        },
        Ok(c) => c,
    };
    let ring = match s.required_str("ring") {
        Err(e) => {
            return (empty, Err(e));
        },
        Ok(r) => String::from_str(r),
    };
    let ring_slots = match s.required_u64("ring_slots") {
        Err(e) => {
            return (empty, Err(e));
        },
        Ok(n) => n,
    };
    let socket_texts = match s.required_strs("sockets") {
        Err(e) => {
            return (empty, Err(e));
        },
        Ok(t) => t,
    };
    let mut sockets: Vec<String> = Vec::new();
    let mut read: Vec<String> = Vec::new();
    let mut i: usize = 0;
    while i < socket_texts.len()
        invariant
            i <= socket_texts@.len(),
            sockets@.len() == i,
            read@.len() == i,
            sockets@.map_values(|t: String| t@) == socket_texts@.subrange(0, i as int).map_values(|t: &str| t@),
            read@.map_values(|t: String| t@) == socket_texts@.subrange(0, i as int).map_values(|t: &str| t@),
        decreases socket_texts@.len() - i,
    {
        let t = String::from_str(socket_texts[i]);
        let u = String::from_str(socket_texts[i]);
        proof {
            let sub = socket_texts@.subrange(0, i + 1).map_values(|t: &str| t@);
            assert(sub =~= socket_texts@.subrange(0, i as int).map_values(|t: &str| t@).push(socket_texts@[i as int]@));
            assert(sockets@.push(t).map_values(|t: String| t@) =~= sockets@.map_values(|t: String| t@).push(t@));
            assert(read@.push(u).map_values(|t: String| t@) =~= read@.map_values(|t: String| t@).push(u@));
        }
        sockets.push(t);
        read.push(u);
        i += 1;
    }
    let ghost texts = match strs_req(s.name(), s.entries(), "sockets"@) {
        Ok(ts) => ts,
        Err(_) => Seq::empty(),
    };
    assert(socket_texts@.subrange(0, socket_texts@.len() as int) =~= socket_texts@);
    assert(socket_texts@.map_values(|t: &str| t@) =~= texts);
    let trcodes = match read_trcodes(s) {
        Err(e) => {
            return (read, Err(e));
        },
        Ok(c) => c,
    };
    let burst = match read_burst(s, d) {
        Err(e) => {
            return (read, Err(e));
        },
        Ok(n) => n,
    };
    let recv_buffer_bytes = match read_recv_buffer(s, d) {
        Err(e) => {
            return (read, Err(e));
        },
        Ok(n) => n,
    };
    match finish_feed(s) {
        Err(e) => {
            return (read, Err(e));
        },
        Ok(()) => {},
    }
    let feed = FeedConf { name, mode, cores, ring, ring_slots, sockets, trcodes, burst, recv_buffer_bytes };
    (read, Ok(feed))
}


/// The sockets read under the feed `at`, in order.
fn push_sockets(out: &mut Vec<SocketText>, at: &String, texts: Vec<String>)
    ensures
        final(out)@.len() == old(out)@.len() + texts@.len(),
        forall|k: int| 0 <= k < old(out)@.len() ==> #[trigger] final(out)@[k] == old(out)@[k],
        forall|k: int|
            0 <= k < texts@.len() ==> #[trigger] final(out)@[old(out)@.len() + k].at@ == at@ && final(out)@[old(
                out,
            )@.len() + k].text@ == texts@[k]@,
{
    let mut i: usize = 0;
    while i < texts.len()
        invariant
            i <= texts@.len(),
            out@.len() == old(out)@.len() + i,
            forall|k: int| 0 <= k < old(out)@.len() ==> #[trigger] out@[k] == old(out)@[k],
            forall|k: int|
                0 <= k < i ==> #[trigger] out@[old(out)@.len() + k].at@ == at@ && out@[old(out)@.len() + k].text@
                    == texts@[k]@,
        decreases texts@.len() - i,
    {
        out.push(SocketText { at: String::from_str(at.as_str()), text: String::from_str(texts[i].as_str()) });
        i += 1;
    }
}

/// `sockets` read as the pairs of feed and text that `krx_of` lists.
pub open spec fn sockets_are(got: Seq<SocketText>, want: Seq<(Seq<char>, Seq<char>)>) -> bool {
    &&& got.len() == want.len()
    &&& forall|k: int| 0 <= k < want.len() ==> #[trigger] got[k].at@ == want[k].0 && got[k].text@ == want[k].1
}

impl FeedConf {
    /// The affinity mask, or `None` if a core is beyond the mask's width.
    pub fn mask(&self) -> (res: Option<Mask>)
        ensures
            res is None <==> exists|j: int| 0 <= j < self.cores@.len() && self.cores@[j] >= 64,
            res matches Some(m) ==> forall|lp: int| 0 <= lp < 64 ==> (names(m, lp) <==> lists(self.cores@, lp)),
    {
        mask_of(self.cores.as_slice())
    }
}

impl KrxConf {
    /// Reads parsed TOML, with the receiver's own values for the knobs a
    /// feed leaves out.
    pub fn from_table(table: &Table, defaults: FeedDefaults) -> (res: KrxRead)
        requires
            health_fits(table.doc_entries()),
        ensures
            ({
                let (sockets, conf) = krx_of(table.doc_entries(), defaults);
                &&& sockets_are(res.sockets@, sockets)
                &&& match conf {
                    Ok(m) => res.conf matches Ok(c) && c@ == m,
                    Err(f) => res.conf matches Err(e) && e@ == f,
                }
            }),
    {
        let root = Section::new("", table);
        proof {
            reveal_strlit("");
            reveal_strlit("filter");
            reveal_strlit("health");
            reveal_strlit("log");
        }
        assert(root.name() =~= Seq::<char>::empty());
        let mut sockets: Vec<SocketText> = Vec::new();
        let trcode_table = match root.optional_str("trcode_table") {
            Err(e) => {
                return KrxRead { sockets, conf: Err(e) };
            },
            Ok(None) => None,
            Ok(Some(t)) => Some(String::from_str(t)),
        };
        let tables = match root.tables("feed") {
            Err(e) => {
                return KrxRead { sockets, conf: Err(e) };
            },
            Ok(t) => t,
        };
        let ghost ts = match tables_of(Seq::empty(), table.doc_entries(), "feed"@) {
            Ok(ts) => ts,
            Err(_) => Seq::empty(),
        };
        let mut feeds: Vec<FeedConf> = Vec::new();
        assert(feeds@.map_values(|f: FeedConf| f@) =~= Seq::<FeedModel>::empty());
        let ghost whole = krx_of(table.doc_entries(), defaults);
        let ghost all = feeds_of(ts, ts.len() as int, defaults);
        assert(whole.0 == all.0);
        assert(all.1 matches Err(f) ==> whole.1 == Err::<KrxModel, ConfFault>(f));
        let mut i: usize = 0;
        while i < tables.len()
            invariant
                whole == krx_of(table.doc_entries(), defaults),
                all == feeds_of(ts, ts.len() as int, defaults),
                whole.0 == all.0,
                all.1 matches Err(f) ==> whole.1 == Err::<KrxModel, ConfFault>(f),
                i <= tables@.len(),
                tables@.len() == ts.len(),
                forall|k: int| 0 <= k < ts.len() ==> #[trigger] tables@[k].doc_entries() == ts[k],
                feeds_of(ts, i as int, defaults).1 == Ok::<Seq<FeedModel>, ConfFault>(
                    feeds@.map_values(|f: FeedConf| f@),
                ),
                sockets_are(sockets@, feeds_of(ts, i as int, defaults).0),
            decreases tables@.len() - i,
        {
            let t = tables[i];
            let at0 = feed_index(i);
            let s0 = Section::new(at0.as_str(), t);
            let name = match s0.required_str("name") {
                Err(e) => {
                    proof {
                        lemma_feeds_stop(ts, i + 1, ts.len() as int, defaults);
                    }
                    return KrxRead { sockets, conf: Err(e) };
                },
                Ok(n) => n,
            };
            let at = feed_label(name);
            let s = Section::new(at.as_str(), t);
            let ghost before = sockets@;
            let (texts, feed) = read_feed(&s, String::from_str(name), defaults);
            push_sockets(&mut sockets, &at, texts);
            proof {
                let prev = feeds_of(ts, i as int, defaults).0;
                let (ft, _) = feed_of(at@, ts[i as int], name@, defaults);
                let want = prev + ft.map_values(|x: Seq<char>| (at@, x));
                assert(feeds_of(ts, i + 1, defaults).0 == want);
                assert forall|k: int| 0 <= k < want.len() implies #[trigger] sockets@[k].at@ == want[k].0
                    && sockets@[k].text@ == want[k].1 by {
                    if k >= prev.len() {
                        let j = k - prev.len();
                        assert(sockets@[before.len() + j] == sockets@[k]);
                    } else {
                        assert(sockets@[k] == before[k]);
                    }
                }
                assert(sockets_are(sockets@, feeds_of(ts, i + 1, defaults).0));
            }
            match feed {
                Err(e) => {
                    proof {
                        lemma_feeds_stop(ts, i + 1, ts.len() as int, defaults);
                    }
                    return KrxRead { sockets, conf: Err(e) };
                },
                Ok(f) => {
                    proof {
                        assert(feeds@.push(f).map_values(|f: FeedConf| f@) =~= feeds@.map_values(|f: FeedConf| f@).push(
                            f@,
                        ));
                    }
                    feeds.push(f);
                },
            }
            i += 1;
        }
        let isin_list = match root.optional_table("filter") {
            Err(e) => {
                return KrxRead { sockets, conf: Err(e) };
            },
            Ok(None) => None,
            Ok(Some(f)) => {
                let path = match f.optional_str("isin") {
                    Err(e) => {
                        return KrxRead { sockets, conf: Err(e) };
                    },
                    Ok(None) => None,
                    Ok(Some(p)) => Some(String::from_str(p)),
                };
                let known: [&str; 1] = ["isin"];
                assert(known@.map_values(|k: &str| k@) =~= seq!["isin"@]);
                match f.finish(known.as_slice()) {
                    Err(e) => {
                        return KrxRead { sockets, conf: Err(e) };
                    },
                    Ok(()) => {},
                }
                path
            },
        };
        let health_section = match root.optional_table("health") {
            Err(e) => {
                return KrxRead { sockets, conf: Err(e) };
            },
            Ok(h) => h,
        };
        let health = match Health::from_section(health_section) {
            Err(e) => {
                return KrxRead { sockets, conf: Err(e) };
            },
            Ok(h) => h,
        };
        let report_secs = match read_report_secs(&root) {
            Err(e) => {
                return KrxRead { sockets, conf: Err(e) };
            },
            Ok(n) => n,
        };
        let known: [&str; 5] = ["trcode_table", "feed", "filter", "health", "log"];
        assert(known@.map_values(|k: &str| k@) =~= root_keys());
        match root.finish(known.as_slice()) {
            Err(e) => {
                return KrxRead { sockets, conf: Err(e) };
            },
            Ok(()) => {},
        }
        KrxRead { sockets, conf: Ok(KrxConf { trcode_table, feeds, isin_list, health, report_secs }) }
    }
}


// ---------------------------------------------------------------------------
// Its rules
// ---------------------------------------------------------------------------

/// `rules` are the feeds' rules, with `ports[i]` the port of each of feed
/// `i`'s sockets.
pub open spec fn rules_for(rules: Seq<KrxRules>, feeds: Seq<FeedConf>, ports: Seq<Vec<u16>>) -> bool {
    &&& rules.len() == feeds.len()
    &&& ports.len() == feeds.len()
    &&& forall|i: int| #![trigger rules[i]] 0 <= i < feeds.len() ==> {
        &&& rules[i].placement.name@ == feeds[i].name@
        &&& rules[i].placement.spin == (feeds[i].mode == Mode::Spin)
        &&& rules[i].placement.cores@ == feeds[i].cores@
        &&& rules[i].placement.ring@ == feeds[i].ring@
        &&& rules[i].placement.ring_slots == feeds[i].ring_slots
        &&& rules[i].ports@ == ports[i]@
        &&& rules[i].trcodes@ == feeds[i].trcodes@
    }
}

impl KrxConf {
    /// Refuses a conf that would run wrong.
    ///
    /// `topology` is the box's SMT layout; without it the sibling rule is
    /// skipped (and [`warnings`](Self::warnings) says so). `ports[i]` holds
    /// the port of each of feed `i`'s sockets, in order, and
    /// `ring_refusals[i]` what the segment layer said of its ring name.
    pub fn validate(&self, topology: Option<&Topology>, ports: &[Vec<u16>], ring_refusals: &[Option<String>]) -> (res: Result<(), RuleError>)
        requires
            ports@.len() == self.feeds@.len(),
            ring_refusals@.len() == self.feeds@.len(),
            forall|rules: Seq<KrxRules>| rules_for(rules, self.feeds@, ports@) ==> krx_verdict(
                rules,
                topology_of(topology),
                refusal_texts(ring_refusals@),
            ) is Ok,
        ensures
            exists|rules: Seq<KrxRules>| rules_for(rules, self.feeds@, ports@) && verdict_is(
                res,
                krx_verdict(rules, topology_of(topology), refusal_texts(ring_refusals@)),
            ),
    {
        let mut rules: Vec<KrxRules> = Vec::new();
        let mut i: usize = 0;
        while i < self.feeds.len()
            invariant
                i <= self.feeds@.len(),
                ports@.len() == self.feeds@.len(),
                rules@.len() == i,
                forall|k: int| #![trigger rules@[k]] 0 <= k < i ==> {
                    &&& rules@[k].placement.name@ == self.feeds@[k].name@
                    &&& rules@[k].placement.spin == (self.feeds@[k].mode == Mode::Spin)
                    &&& rules@[k].placement.cores@ == self.feeds@[k].cores@
                    &&& rules@[k].placement.ring@ == self.feeds@[k].ring@
                    &&& rules@[k].placement.ring_slots == self.feeds@[k].ring_slots
                    &&& rules@[k].ports@ == ports@[k]@
                    &&& rules@[k].trcodes@ == self.feeds@[k].trcodes@
                },
            decreases self.feeds@.len() - i,
        {
            let f = &self.feeds[i];
            let spin = match f.mode {
                Mode::Spin => true,
                Mode::Block => false,
            };
            let placement = Placement {
                name: f.name.as_str(),
                spin,
                cores: f.cores.as_slice(),
                ring: f.ring.as_str(),
                ring_slots: f.ring_slots,
            };
            rules.push(KrxRules { placement, ports: ports[i].as_slice(), trcodes: f.trcodes.as_slice() });
            i += 1;
        }
        assert(rules_for(rules@, self.feeds@, ports@));
        validate_krx(rules.as_slice(), topology, ring_refusals)
    }
}

// ---------------------------------------------------------------------------
// Its warnings
// ---------------------------------------------------------------------------

/// What might be wrong with a conf that will still run.
#[derive(Debug, Clone, PartialEq, Eq)]
pub enum Warning {
    /// The SMT layout could not be read, so the sibling rule was not applied.
    NoTopology,
    /// A trcode neither standard lists: a typo, or a product newer than the
    /// standard.
    NotInTable {
        /// Feed.
        feed: String,
        /// The code.
        code: Code,
    },
    /// A trcode this build cannot decode. It will be counted as
    /// `unknown_trcode` and never published.
    NoDecoder {
        /// Feed.
        feed: String,
        /// The code.
        code: Code,
    },
    /// A trcode under two feeds. If both feeds' sockets carry it, it is
    /// published to both rings.
    TrcodeInTwoFeeds {
        /// The code.
        code: Code,
        /// First feed.
        a: String,
        /// Second feed.
        b: String,
    },
}

/// A warning, as plain values.
pub enum WarningModel {
    NoTopology,
    NotInTable { feed: Seq<char>, code: Seq<u8> },
    NoDecoder { feed: Seq<char>, code: Seq<u8> },
    TrcodeInTwoFeeds { code: Seq<u8>, a: Seq<char>, b: Seq<char> },
}

impl View for Warning {
    type V = WarningModel;

    open spec fn view(&self) -> WarningModel {
        match self {
            Warning::NoTopology => WarningModel::NoTopology,
            Warning::NotInTable { feed, code } => WarningModel::NotInTable { feed: feed@, code: code@ },
            Warning::NoDecoder { feed, code } => WarningModel::NoDecoder { feed: feed@, code: code@ },
            Warning::TrcodeInTwoFeeds { code, a, b } => WarningModel::TrcodeInTwoFeeds { code: code@, a: a@, b: b@ },
        }
    }
}

/// Either standard names `code`.
pub open spec fn table_knows(t: TrCodeTable, code: Seq<u8>) -> bool {
    (exists|i: int| 0 <= i < t.code_entries().len() && #[trigger] t.code_entries()[i].0 == code)
        || t.channel_codes().contains(code)
}

/// Earlier feed `k` lists `code`.
pub open spec fn lists_code(feeds: Seq<FeedConf>, code: Code) -> spec_fn(int) -> bool {
    |k: int| feeds[k].trcodes@.contains(code)
}

/// The warnings for code `j` of feed `i`: not in the table, no decoder, and
/// listed by an earlier feed (the first such).
pub open spec fn code_warnings(
    feeds: Seq<FeedConf>,
    i: int,
    j: int,
    table: Option<TrCodeTable>,
    decodable: Seq<Vec<bool>>,
) -> Seq<WarningModel> {
    let f = feeds[i];
    let code = f.trcodes@[j];
    (if table matches Some(t) && !table_knows(t, code@) {
        seq![WarningModel::NotInTable { feed: f.name@, code: code@ }]
    } else {
        Seq::empty()
    }) + (if !decodable[i]@[j] {
        seq![WarningModel::NoDecoder { feed: f.name@, code: code@ }]
    } else {
        Seq::empty()
    }) + match first_where(i, 0, lists_code(feeds, code)) {
        Some(k) => seq![WarningModel::TrcodeInTwoFeeds { code: code@, a: feeds[k].name@, b: f.name@ }],
        None => Seq::empty(),
    }
}

/// The warnings for the first `n` codes of feed `i`.
pub open spec fn feed_warnings(
    feeds: Seq<FeedConf>,
    i: int,
    n: int,
    table: Option<TrCodeTable>,
    decodable: Seq<Vec<bool>>,
) -> Seq<WarningModel>
    decreases n,
{
    if n <= 0 {
        Seq::empty()
    } else {
        feed_warnings(feeds, i, n - 1, table, decodable) + code_warnings(feeds, i, n - 1, table, decodable)
    }
}

/// The warnings for the first `n` feeds, in file order.
pub open spec fn feeds_warnings(
    feeds: Seq<FeedConf>,
    n: int,
    table: Option<TrCodeTable>,
    decodable: Seq<Vec<bool>>,
) -> Seq<WarningModel>
    decreases n,
{
    if n <= 0 {
        Seq::empty()
    } else {
        feeds_warnings(feeds, n - 1, table, decodable) + feed_warnings(
            feeds,
            n - 1,
            feeds[n - 1].trcodes@.len() as int,
            table,
            decodable,
        )
    }
}

/// Every warning, in order: the missing topology first, then each feed's
/// codes in file order.
pub open spec fn warnings_of(
    feeds: Seq<FeedConf>,
    table: Option<TrCodeTable>,
    topology_known: bool,
    decodable: Seq<Vec<bool>>,
) -> Seq<WarningModel> {
    (if topology_known {
        Seq::empty()
    } else {
        seq![WarningModel::NoTopology]
    }) + feeds_warnings(feeds, feeds.len() as int, table, decodable)
}

/// The table, when there is one, by value.
pub open spec fn table_of(table: Option<&TrCodeTable>) -> Option<TrCodeTable> {
    match table {
        Some(t) => Some(*t),
        None => None,
    }
}

/// The first feed before `i` that lists `code`.
fn earlier_with(feeds: &Vec<FeedConf>, i: usize, code: Code) -> (res: Option<usize>)
    requires
        i <= feeds@.len(),
    ensures
        match first_where(i as int, 0, lists_code(feeds@, code)) {
            Some(k) => res == Some(k as usize),
            None => res is None,
        },
        res matches Some(k) ==> k < i,
{
    let mut k: usize = 0;
    while k < i
        invariant
            k <= i <= feeds@.len(),
            forall|m: int| #![trigger lists_code(feeds@, code)(m)] 0 <= m < k ==> !lists_code(feeds@, code)(m),
        decreases i - k,
    {
        let t = feeds[k].trcodes.as_slice();
        if holds_before(t, t.len(), code) {
            proof {
                assert(t@.subrange(0, t@.len() as int) =~= t@);
                lemma_first_where_found(i as int, 0, lists_code(feeds@, code), k as int);
            }
            return Some(k);
        }
        assert(t@.subrange(0, t@.len() as int) =~= t@);
        k += 1;
    }
    proof {
        lemma_first_where_none(i as int, 0, lists_code(feeds@, code));
    }
    None
}

/// Appends the warnings for code `j` of feed `i`.
fn push_code_warnings(
    out: &mut Vec<Warning>,
    feeds: &Vec<FeedConf>,
    i: usize,
    j: usize,
    table: Option<&TrCodeTable>,
    decodable: &[Vec<bool>],
)
    requires
        i < feeds@.len(),
        j < feeds@[i as int].trcodes@.len(),
        decodable@.len() == feeds@.len(),
        decodable@[i as int]@.len() == feeds@[i as int].trcodes@.len(),
    ensures
        final(out)@.map_values(|w: Warning| w@) == old(out)@.map_values(|w: Warning| w@) + code_warnings(
            feeds@,
            i as int,
            j as int,
            table_of(table),
            decodable@,
        ),
{
    let f = &feeds[i];
    let code = f.trcodes[j];
    let ghost before = out@.map_values(|w: Warning| w@);
    let ghost part1: Seq<WarningModel> = if table_of(table) matches Some(t) && !table_knows(t, code@) {
        seq![WarningModel::NotInTable { feed: f.name@, code: code@ }]
    } else {
        Seq::empty()
    };
    let ghost part2: Seq<WarningModel> = if !decodable@[i as int]@[j as int] {
        seq![WarningModel::NoDecoder { feed: f.name@, code: code@ }]
    } else {
        Seq::empty()
    };
    let ghost part3: Seq<WarningModel> = match first_where(i as int, 0, lists_code(feeds@, code)) {
        Some(k) => seq![WarningModel::TrcodeInTwoFeeds { code: code@, a: feeds@[k].name@, b: f.name@ }],
        None => Seq::empty(),
    };
    match table {
        Some(t) => {
            if !t.knows(code) {
                let w = Warning::NotInTable { feed: String::from_str(f.name.as_str()), code };
                assert(out@.push(w).map_values(|w: Warning| w@) =~= before.push(w@));
                out.push(w);
            }
        },
        None => {},
    }
    assert(out@.map_values(|w: Warning| w@) =~= before + part1);
    let ghost mid1 = out@.map_values(|w: Warning| w@);
    if !decodable[i][j] {
        let w = Warning::NoDecoder { feed: String::from_str(f.name.as_str()), code };
        assert(out@.push(w).map_values(|w: Warning| w@) =~= mid1.push(w@));
        out.push(w);
    }
    assert(out@.map_values(|w: Warning| w@) =~= mid1 + part2);
    let ghost mid2 = out@.map_values(|w: Warning| w@);
    proof {
        lemma_first_where_facts(i as int, 0, lists_code(feeds@, code));
    }
    match earlier_with(feeds, i, code) {
        Some(k) => {
            let a = String::from_str(feeds[k].name.as_str());
            let w = Warning::TrcodeInTwoFeeds { code, a, b: String::from_str(f.name.as_str()) };
            assert(out@.push(w).map_values(|w: Warning| w@) =~= mid2.push(w@));
            out.push(w);
        },
        None => {},
    }
    assert(out@.map_values(|w: Warning| w@) =~= mid2 + part3);
    assert(code_warnings(feeds@, i as int, j as int, table_of(table), decodable@) == part1 + part2 + part3);
}

impl KrxConf {
    /// What might be wrong.
    ///
    /// `table` is the standard's trcode table; without it the "not in the
    /// table" check is skipped. `topology_known` says whether the SMT layout
    /// could be read. `decodable[i][j]` says whether this build decodes
    /// code `j` of feed `i`.
    pub fn warnings(&self, table: Option<&TrCodeTable>, topology_known: bool, decodable: &[Vec<bool>]) -> (res: Vec<Warning>)
        requires
            decodable@.len() == self.feeds@.len(),
            forall|i: int| 0 <= i < self.feeds@.len() ==> #[trigger] decodable@[i]@.len() == self.feeds@[i].trcodes@.len(),
        ensures
            res@.map_values(|w: Warning| w@) == warnings_of(self.feeds@, table_of(table), topology_known, decodable@),
    {
        let ghost feeds = self.feeds@;
        let ghost tab = table_of(table);
        let mut out: Vec<Warning> = Vec::new();
        if !topology_known {
            out.push(Warning::NoTopology);
        }
        assert(out@.map_values(|w: Warning| w@) =~= (if topology_known {
            Seq::empty()
        } else {
            seq![WarningModel::NoTopology]
        }) + feeds_warnings(feeds, 0, tab, decodable@));
        let mut i: usize = 0;
        while i < self.feeds.len()
            invariant
                feeds == self.feeds@,
                tab == table_of(table),
                decodable@.len() == feeds.len(),
                forall|m: int| 0 <= m < feeds.len() ==> #[trigger] decodable@[m]@.len() == feeds[m].trcodes@.len(),
                i <= feeds.len(),
                out@.map_values(|w: Warning| w@) == (if topology_known {
                    Seq::empty()
                } else {
                    seq![WarningModel::NoTopology]
                }) + feeds_warnings(feeds, i as int, tab, decodable@),
            decreases feeds.len() - i,
        {
            let f = &self.feeds[i];
            let ghost head = out@.map_values(|w: Warning| w@);
            let mut j: usize = 0;
            while j < f.trcodes.len()
                invariant
                    feeds == self.feeds@,
                    tab == table_of(table),
                    i < feeds.len(),
                    *f == feeds[i as int],
                    decodable@.len() == feeds.len(),
                    decodable@[i as int]@.len() == f.trcodes@.len(),
                    j <= f.trcodes@.len(),
                    out@.map_values(|w: Warning| w@) == head + feed_warnings(feeds, i as int, j as int, tab, decodable@),
                decreases f.trcodes@.len() - j,
            {
                let ghost before = out@.map_values(|w: Warning| w@);
                push_code_warnings(&mut out, &self.feeds, i, j, table, decodable);
                proof {
                    assert(feed_warnings(feeds, i as int, j + 1, tab, decodable@) == feed_warnings(
                        feeds,
                        i as int,
                        j as int,
                        tab,
                        decodable@,
                    ) + code_warnings(feeds, i as int, j as int, tab, decodable@));
                    assert(out@.map_values(|w: Warning| w@) =~= head + feed_warnings(
                        feeds,
                        i as int,
                        j + 1,
                        tab,
                        decodable@,
                    ));
                }
                j += 1;
            }
            i += 1;
        }
        out
    }
}

impl Warning {
    /// The warning as the log prints it.
    pub fn to_string(&self) -> (res: String)
        ensures
            res@ == warning_text(self@),
    {
        match self {
            Warning::NoTopology => {
                String::from_str("SMT topology unavailable; the sibling-core rule was not checked")
            },
            Warning::NotInTable { feed, code } => {
                let mut s = String::from_str("feed[");
                s.append(feed.as_str());
                s.append("]: trcode ");
                push_ascii(&mut s, code.as_slice());
                s.append(" is in neither standard's table");
                s
            },
            Warning::NoDecoder { feed, code } => {
                let mut s = String::from_str("feed[");
                s.append(feed.as_str());
                s.append("]: trcode ");
                push_ascii(&mut s, code.as_slice());
                s.append(" has no decoder in this build and will never be published");
                s
            },
            Warning::TrcodeInTwoFeeds { code, a, b } => {
                let mut s = String::from_str("trcode ");
                push_ascii(&mut s, code.as_slice());
                s.append(" is listed under both \"");
                s.append(a.as_str());
                s.append("\" and \"");
                s.append(b.as_str());
                s.append("\"");
                s
            },
        }
    }
}

/// What a warning reads as.
pub open spec fn warning_text(w: WarningModel) -> Seq<char> {
    match w {
        WarningModel::NoTopology => "SMT topology unavailable; the sibling-core rule was not checked"@,
        WarningModel::NotInTable { feed, code } => "feed["@ + feed + "]: trcode "@ + ascii_text(code)
            + " is in neither standard's table"@,
        WarningModel::NoDecoder { feed, code } => "feed["@ + feed + "]: trcode "@ + ascii_text(code)
            + " has no decoder in this build and will never be published"@,
        WarningModel::TrcodeInTwoFeeds { code, a, b } => "trcode "@ + ascii_text(code) + " is listed under both \""@
            + a + "\" and \""@ + b + "\""@,
    }
}

} // verus!
