//! The placement rules every feed conf shares, and the KRX conf's own.
//!
//! A feed of any handler is placed the same way: a name, a mode, a set of
//! cores, a ring. So the rules about placement (two feeds on one core, a
//! spinning feed spread over several, a feed on a spinning feed's SMT
//! sibling, a ring that is not a power of two) are checked once, here, from
//! a [`Placement`] view of whichever conf it is. The first broken rule is
//! the answer, in a fixed order: feed by feed in file order, each feed's
//! rules in the order below, and the sibling rule last, since it needs every
//! feed's cores.
//!
//! Whether a ring name is one the OS accepts is the segment layer's
//! decision; it reaches these rules as each feed's refusal, if any.
use vstd::prelude::*;

use crate::cpu::{MAX_LOGICAL, Topology, lemma_names_ops, lists, mask_of, names, shares_core};
use crate::types::str_eq;
use crate::text::{ascii_text, decimal, push_ascii, push_decimal};
use vstd::string::StringExecFns;

verus! {

/// The part of a feed every conf has.
#[derive(Debug, Clone, Copy)]
pub struct Placement<'a> {
    /// `name`.
    pub name: &'a str,
    /// `true` for `mode = "spin"`.
    pub spin: bool,
    /// `cores`.
    pub cores: &'a [u16],
    /// `ring`.
    pub ring: &'a str,
    /// `ring_slots`.
    pub ring_slots: u64,
}

impl<'a> Placement<'a> {
    /// The affinity mask, or `None` if a core is beyond [`MAX_LOGICAL`].
    pub fn mask(&self) -> (res: Option<u64>)
        ensures
            res is None <==> exists|j: int| 0 <= j < self.cores@.len() && self.cores@[j] >= 64,
            res matches Some(m) ==> forall|lp: int| 0 <= lp < 64 ==> (names(m, lp) <==> lists(self.cores@, lp)),
    {
        mask_of(self.cores)
    }
}

/// A KRX feed as its rules read it: the placement, the UDP port of each
/// socket in order, and the trcodes in order.
#[derive(Debug, Clone, Copy)]
pub struct KrxRules<'a> {
    /// The shared part.
    pub placement: Placement<'a>,
    /// `sockets`, by port.
    pub ports: &'a [u16],
    /// `trcodes`, each its five bytes.
    pub trcodes: &'a [[u8; 5]],
}

/// A rule spanning keys or sections was broken: the conf would run wrong.
#[derive(Debug, Clone, PartialEq, Eq)]
pub enum RuleError {
    /// No `[[feed]]` at all.
    NoFeeds,
    /// A feed with an empty `name`.
    EmptyName {
        /// Position in the file, zero-based.
        index: usize,
    },
    /// Two feeds with one `name`.
    DuplicateName {
        /// The name.
        name: String,
    },
    /// A `ring` the OS would not accept as an object name.
    Ring {
        /// Feed.
        feed: String,
        /// Why not, as the segment layer put it.
        reason: String,
    },
    /// Two feeds writing one segment: the ring is single-producer.
    DuplicateRing {
        /// The segment.
        ring: String,
        /// First feed.
        a: String,
        /// Second feed.
        b: String,
    },
    /// `ring_slots` is zero or not a power of two.
    RingSlots {
        /// Feed.
        feed: String,
        /// What was asked.
        slots: u64,
    },
    /// `cores` is empty.
    NoCores {
        /// Feed.
        feed: String,
    },
    /// A spinning feed with more than one core.
    SpinOnSeveralCores {
        /// Feed.
        feed: String,
        /// How many were listed.
        cores: usize,
    },
    /// A core the box does not have.
    CoreOutOfRange {
        /// Feed.
        feed: String,
        /// The core.
        core: u16,
        /// Logical processors on the box.
        logical: usize,
    },
    /// One core in two feeds.
    CoreShared {
        /// The core.
        core: u16,
        /// First feed.
        a: String,
        /// Second feed.
        b: String,
    },
    /// A feed on the SMT sibling of a spinning feed's core.
    SiblingShared {
        /// The spinning feed.
        spinning: String,
        /// Its core.
        core: u16,
        /// The sibling.
        sibling: u16,
        /// The feed that would share the physical core.
        other: String,
    },
    /// `sockets` is empty (KRX).
    NoSockets {
        /// Feed.
        feed: String,
    },
    /// One port in two sockets: on Windows both would receive both groups
    /// (KRX).
    PortShared {
        /// The port.
        port: u16,
        /// First feed.
        a: String,
        /// Second feed.
        b: String,
    },
    /// `trcodes` is empty (KRX).
    NoTrcodes {
        /// Feed.
        feed: String,
    },
    /// One trcode twice in one feed (KRX).
    DuplicateTrcode {
        /// Feed.
        feed: String,
        /// The code.
        code: [u8; 5],
    },
    /// No instrument listed (crypto, FIX).
    NoInstruments {
        /// Feed.
        feed: String,
    },
    /// A symbol or scale the wire cannot carry (crypto).
    Instrument {
        /// Feed.
        feed: String,
        /// The symbol.
        symbol: String,
        /// Why, as the venue layer put it.
        reason: String,
    },
    /// The venue's router refused the feed's instruments (crypto).
    Router {
        /// Feed.
        feed: String,
        /// Why, as the venue layer put it.
        reason: String,
    },
}

/// A [`RuleError`] with its text fields as character sequences.
pub enum RuleFault {
    NoFeeds,
    EmptyName { index: int },
    DuplicateName { name: Seq<char> },
    Ring { feed: Seq<char>, reason: Seq<char> },
    DuplicateRing { ring: Seq<char>, a: Seq<char>, b: Seq<char> },
    RingSlots { feed: Seq<char>, slots: u64 },
    NoCores { feed: Seq<char> },
    SpinOnSeveralCores { feed: Seq<char>, cores: int },
    CoreOutOfRange { feed: Seq<char>, core: u16, logical: int },
    CoreShared { core: u16, a: Seq<char>, b: Seq<char> },
    SiblingShared { spinning: Seq<char>, core: u16, sibling: int, other: Seq<char> },
    NoSockets { feed: Seq<char> },
    PortShared { port: u16, a: Seq<char>, b: Seq<char> },
    NoTrcodes { feed: Seq<char> },
    DuplicateTrcode { feed: Seq<char>, code: Seq<u8> },
    NoInstruments { feed: Seq<char> },
    Instrument { feed: Seq<char>, symbol: Seq<char>, reason: Seq<char> },
    Router { feed: Seq<char>, reason: Seq<char> },
}

impl View for RuleError {
    type V = RuleFault;

    open spec fn view(&self) -> RuleFault {
        match self {
            RuleError::NoFeeds => RuleFault::NoFeeds,
            RuleError::EmptyName { index } => RuleFault::EmptyName { index: *index as int },
            RuleError::DuplicateName { name } => RuleFault::DuplicateName { name: name@ },
            RuleError::Ring { feed, reason } => RuleFault::Ring { feed: feed@, reason: reason@ },
            RuleError::DuplicateRing { ring, a, b } => RuleFault::DuplicateRing { ring: ring@, a: a@, b: b@ },
            RuleError::RingSlots { feed, slots } => RuleFault::RingSlots { feed: feed@, slots: *slots },
            RuleError::NoCores { feed } => RuleFault::NoCores { feed: feed@ },
            RuleError::SpinOnSeveralCores { feed, cores } => RuleFault::SpinOnSeveralCores {
                feed: feed@,
                cores: *cores as int,
            },
            RuleError::CoreOutOfRange { feed, core, logical } => RuleFault::CoreOutOfRange {
                feed: feed@,
                core: *core,
                logical: *logical as int,
            },
            RuleError::CoreShared { core, a, b } => RuleFault::CoreShared { core: *core, a: a@, b: b@ },
            RuleError::SiblingShared { spinning, core, sibling, other } => RuleFault::SiblingShared {
                spinning: spinning@,
                core: *core,
                sibling: *sibling as int,
                other: other@,
            },
            RuleError::NoSockets { feed } => RuleFault::NoSockets { feed: feed@ },
            RuleError::PortShared { port, a, b } => RuleFault::PortShared { port: *port, a: a@, b: b@ },
            RuleError::NoTrcodes { feed } => RuleFault::NoTrcodes { feed: feed@ },
            RuleError::DuplicateTrcode { feed, code } => RuleFault::DuplicateTrcode { feed: feed@, code: code@ },
            RuleError::NoInstruments { feed } => RuleFault::NoInstruments { feed: feed@ },
            RuleError::Instrument { feed, symbol, reason } => RuleFault::Instrument {
                feed: feed@,
                symbol: symbol@,
                reason: reason@,
            },
            RuleError::Router { feed, reason } => RuleFault::Router { feed: feed@, reason: reason@ },
        }
    }
}

// ---------------------------------------------------------------------------
// What the rules say
// ---------------------------------------------------------------------------

/// The first index in `from..n` where `p` holds.
pub open spec fn first_where(n: int, from: int, p: spec_fn(int) -> bool) -> Option<int>
    decreases n - from,
{
    if from >= n {
        None
    } else if p(from) {
        Some(from)
    } else {
        first_where(n, from + 1, p)
    }
}

/// Earlier feed `j` has this name.
pub open spec fn named(feeds: Seq<Placement>, name: Seq<char>) -> spec_fn(int) -> bool {
    |j: int| feeds[j].name@ == name
}

/// Earlier feed `j` writes this ring.
pub open spec fn writes_ring(feeds: Seq<Placement>, ring: Seq<char>) -> spec_fn(int) -> bool {
    |j: int| feeds[j].ring@ == ring
}

/// Earlier feed `j` uses this core.
pub open spec fn uses_core(feeds: Seq<Placement>, core: u16) -> spec_fn(int) -> bool {
    |j: int| feeds[j].cores@.contains(core)
}

/// `n` is a power of two.
pub open spec fn power_of_two(n: u64) -> bool {
    exists|k: u64| k < 64 && n == 1u64 << k
}

/// The first broken per-feed placement rule of feed `i`, given the feeds
/// before it, `logical` processors, and what the segment layer said of its
/// ring.
pub open spec fn placement_fault(feeds: Seq<Placement>, i: int, logical: int, refusal: Option<Seq<char>>) -> Option<RuleFault> {
    let f = feeds[i];
    let name = f.name@;
    if name.len() == 0 {
        Some(RuleFault::EmptyName { index: i })
    } else if first_where(i, 0, named(feeds, name)) is Some {
        Some(RuleFault::DuplicateName { name: name })
    } else if refusal is Some {
        Some(RuleFault::Ring { feed: name, reason: refusal->0 })
    } else if first_where(i, 0, writes_ring(feeds, f.ring@)) is Some {
        Some(
            RuleFault::DuplicateRing {
                ring: f.ring@,
                a: feeds[first_where(i, 0, writes_ring(feeds, f.ring@))->0].name@,
                b: name,
            },
        )
    } else if !power_of_two(f.ring_slots) {
        Some(RuleFault::RingSlots { feed: name, slots: f.ring_slots })
    } else if f.cores@.len() == 0 {
        Some(RuleFault::NoCores { feed: name })
    } else if f.spin && f.cores@.len() != 1 {
        Some(RuleFault::SpinOnSeveralCores { feed: name, cores: f.cores@.len() as int })
    } else {
        core_fault(feeds, i, logical, 0)
    }
}

/// The first of feed `i`'s cores from the `k`th on that the box does not
/// have or an earlier feed already uses.
pub open spec fn core_fault(feeds: Seq<Placement>, i: int, logical: int, k: int) -> Option<RuleFault>
    decreases feeds[i].cores@.len() - k,
{
    let f = feeds[i];
    if k < 0 || k >= f.cores@.len() {
        None
    } else {
        let core = f.cores@[k];
        if core >= logical {
            Some(RuleFault::CoreOutOfRange { feed: f.name@, core: core, logical: logical })
        } else {
            match first_where(i, 0, uses_core(feeds, core)) {
                Some(j) => Some(RuleFault::CoreShared { core: core, a: feeds[j].name@, b: f.name@ }),
                None => core_fault(feeds, i, logical, k + 1),
            }
        }
    }
}

/// Processor `q` is off limits next to spinning feed `s`: it shares a core
/// with one of `s`'s processors and is not one of them.
pub open spec fn forbidden_next_to(sib: Seq<u64>, s: Placement, q: int) -> bool {
    &&& !lists(s.cores@, q)
    &&& exists|lp: int| 0 <= lp < sib.len() && lp < 64 && lists(s.cores@, lp) && names(#[trigger] sib[lp], q)
}

/// Feed `o` uses processor `q`, which is off limits next to spinning feed
/// `s`.
pub open spec fn sits_on_sibling(sib: Seq<u64>, s: Placement, o: Placement, q: int) -> bool {
    0 <= q < 64 && lists(o.cores@, q) && forbidden_next_to(sib, s, q)
}

/// Processor `q` is one of `o`'s that is off limits next to `s`.
pub open spec fn on_sibling(sib: Seq<u64>, s: Placement, o: Placement) -> spec_fn(int) -> bool {
    |q: int| sits_on_sibling(sib, s, o, q)
}

/// A feed lists a processor no mask can name.
pub open spec fn beyond_mask(p: Placement) -> bool {
    exists|k: int| 0 <= k < p.cores@.len() && p.cores@[k] >= 64
}

/// The sibling rule for spinning feed `s` against the feeds from `o` on:
/// `Ok(None)` when none sits on its sibling, `Ok(Some(fault))` for the
/// first that does, `Err(())` when a feed whose mask cannot be formed is
/// reached first.
pub open spec fn sibling_fault_for(feeds: Seq<Placement>, sib: Seq<u64>, s: int, o: int) -> Result<Option<RuleFault>, ()>
    decreases feeds.len() - o,
{
    if o < 0 || o >= feeds.len() {
        Ok(None)
    } else if feeds[o].name@ == feeds[s].name@ {
        sibling_fault_for(feeds, sib, s, o + 1)
    } else if beyond_mask(feeds[o]) {
        Err(())
    } else {
        match first_where(64, 0, on_sibling(sib, feeds[s], feeds[o])) {
            Some(q) => Ok(
                Some(
                    RuleFault::SiblingShared {
                        spinning: feeds[s].name@,
                        core: feeds[s].cores@[0],
                        sibling: q,
                        other: feeds[o].name@,
                    },
                ),
            ),
            None => sibling_fault_for(feeds, sib, s, o + 1),
        }
    }
}

/// The sibling rule for the spinning feeds from `s` on, in file order.
pub open spec fn sibling_fault(feeds: Seq<Placement>, sib: Seq<u64>, s: int) -> Result<Option<RuleFault>, ()>
    decreases feeds.len() - s,
{
    if s < 0 || s >= feeds.len() {
        Ok(None)
    } else if !feeds[s].spin {
        sibling_fault(feeds, sib, s + 1)
    } else if beyond_mask(feeds[s]) {
        Err(())
    } else {
        match sibling_fault_for(feeds, sib, s, 0) {
            Ok(None) => sibling_fault(feeds, sib, s + 1),
            other => other,
        }
    }
}

/// Logical processors a core may name: the topology's, or all a mask can
/// name without one.
pub open spec fn logical_of(topology: Option<Seq<u64>>) -> int {
    match topology {
        Some(sib) => sib.len() as int,
        None => 64,
    }
}

/// The first feed from `i` on that breaks a per-feed placement rule.
pub open spec fn first_placement_fault(feeds: Seq<Placement>, logical: int, refusals: Seq<Option<Seq<char>>>, i: int) -> Option<RuleFault>
    decreases feeds.len() - i,
{
    if i < 0 || i >= feeds.len() {
        None
    } else {
        match placement_fault(feeds, i, logical, refusals[i]) {
            Some(f) => Some(f),
            None => first_placement_fault(feeds, logical, refusals, i + 1),
        }
    }
}

/// What the placement rules answer for `feeds` on a box with `topology`
/// (when known), given what the segment layer said of each ring: the first
/// broken rule, or `Err(())` for a layout whose masks cannot be formed when
/// the sibling rule needs them.
pub open spec fn placement_verdict(feeds: Seq<Placement>, topology: Option<Seq<u64>>, refusals: Seq<Option<Seq<char>>>) -> Result<Option<RuleFault>, ()> {
    if feeds.len() == 0 {
        Ok(Some(RuleFault::NoFeeds))
    } else {
        match first_placement_fault(feeds, logical_of(topology), refusals, 0) {
            Some(f) => Ok(Some(f)),
            None => match topology {
                None => Ok(None),
                Some(sib) => sibling_fault(feeds, sib, 0),
            },
        }
    }
}

/// The shared part of each KRX feed.
pub open spec fn placements_of(feeds: Seq<KrxRules>) -> Seq<Placement> {
    feeds.map_values(|f: KrxRules| f.placement)
}

/// Earlier KRX feed `k` has a socket on `port`.
pub open spec fn listens_on(feeds: Seq<KrxRules>, port: u16) -> spec_fn(int) -> bool {
    |k: int| feeds[k].ports@.contains(port)
}

/// The first of feed `i`'s sockets from the `j`th on whose port an earlier
/// socket already has: one of its own first, then one of an earlier feed.
pub open spec fn port_fault(feeds: Seq<KrxRules>, i: int, j: int) -> Option<RuleFault>
    decreases feeds[i].ports@.len() - j,
{
    let f = feeds[i];
    let name = f.placement.name@;
    if j < 0 || j >= f.ports@.len() {
        None
    } else {
        let port = f.ports@[j];
        if f.ports@.subrange(0, j).contains(port) {
            Some(RuleFault::PortShared { port: port, a: name, b: name })
        } else {
            match first_where(i, 0, listens_on(feeds, port)) {
                Some(k) => Some(RuleFault::PortShared { port: port, a: feeds[k].placement.name@, b: name }),
                None => port_fault(feeds, i, j + 1),
            }
        }
    }
}

/// Trcode `j` of feed `i` repeats one listed before it.
pub open spec fn repeats_trcode(f: KrxRules) -> spec_fn(int) -> bool {
    |j: int| f.trcodes@.subrange(0, j).contains(f.trcodes@[j])
}

/// The first KRX-only rule feed `i` breaks: sockets, then trcodes.
pub open spec fn krx_fault(feeds: Seq<KrxRules>, i: int) -> Option<RuleFault> {
    let f = feeds[i];
    let name = f.placement.name@;
    if f.ports@.len() == 0 {
        Some(RuleFault::NoSockets { feed: name })
    } else if port_fault(feeds, i, 0) is Some {
        port_fault(feeds, i, 0)
    } else if f.trcodes@.len() == 0 {
        Some(RuleFault::NoTrcodes { feed: name })
    } else {
        match first_where(f.trcodes@.len() as int, 0, repeats_trcode(f)) {
            Some(j) => Some(RuleFault::DuplicateTrcode { feed: name, code: f.trcodes@[j]@ }),
            None => None,
        }
    }
}

/// The first KRX feed from `i` on that breaks a per-feed rule: its
/// placement first, then its sockets and trcodes.
pub open spec fn first_krx_fault(feeds: Seq<KrxRules>, logical: int, refusals: Seq<Option<Seq<char>>>, i: int) -> Option<RuleFault>
    decreases feeds.len() - i,
{
    if i < 0 || i >= feeds.len() {
        None
    } else {
        match placement_fault(placements_of(feeds), i, logical, refusals[i]) {
            Some(f) => Some(f),
            None => match krx_fault(feeds, i) {
                Some(f) => Some(f),
                None => first_krx_fault(feeds, logical, refusals, i + 1),
            },
        }
    }
}

/// What the KRX conf's rules answer, as [`placement_verdict`] does for the
/// shared ones.
pub open spec fn krx_verdict(feeds: Seq<KrxRules>, topology: Option<Seq<u64>>, refusals: Seq<Option<Seq<char>>>) -> Result<Option<RuleFault>, ()> {
    if feeds.len() == 0 {
        Ok(Some(RuleFault::NoFeeds))
    } else {
        match first_krx_fault(feeds, logical_of(topology), refusals, 0) {
            Some(f) => Ok(Some(f)),
            None => match topology {
                None => Ok(None),
                Some(sib) => sibling_fault(placements_of(feeds), sib, 0),
            },
        }
    }
}

/// A topology, when known, as its sibling masks.
pub open spec fn topology_of(topology: Option<&Topology>) -> Option<Seq<u64>> {
    match topology {
        Some(t) => Some(t@),
        None => None,
    }
}

/// What each ring's refusal reads as.
pub open spec fn refusal_texts(refusals: Seq<Option<String>>) -> Seq<Option<Seq<char>>> {
    refusals.map_values(|r: Option<String>| match r {
        Some(s) => Some(s@),
        None => None::<Seq<char>>,
    })
}

/// The result a verdict gives.
pub open spec fn verdict_is(res: Result<(), RuleError>, verdict: Result<Option<RuleFault>, ()>) -> bool {
    match verdict {
        Ok(None) => res is Ok,
        Ok(Some(f)) => res matches Err(e) && e@ == f,
        Err(()) => false,
    }
}

// ---------------------------------------------------------------------------
// Checking them
// ---------------------------------------------------------------------------

pub proof fn lemma_first_where_found(n: int, from: int, p: spec_fn(int) -> bool, w: int)
    requires
        from <= w < n,
        p(w),
        forall|k: int| #![trigger p(k)] from <= k < w ==> !p(k),
    ensures
        first_where(n, from, p) == Some(w),
    decreases w - from,
{
    if from < w {
        lemma_first_where_found(n, from + 1, p, w);
    }
}

pub proof fn lemma_first_where_none(n: int, from: int, p: spec_fn(int) -> bool)
    requires
        forall|k: int| #![trigger p(k)] from <= k < n ==> !p(k),
    ensures
        first_where(n, from, p) is None,
    decreases n - from,
{
    if from < n {
        lemma_first_where_none(n, from + 1, p);
    }
}

pub proof fn lemma_first_where_facts(n: int, from: int, p: spec_fn(int) -> bool)
    ensures
        first_where(n, from, p) matches Some(w) ==> from <= w < n && p(w),
        first_where(n, from, p) is None ==> forall|k: int| #![trigger p(k)] from <= k < n ==> !p(k),
    decreases n - from,
{
    if from < n {
        lemma_first_where_facts(n, from + 1, p);
    }
}

/// The first feed before `i` named `name`.
fn find_named(feeds: &[Placement], i: usize, name: &str) -> (res: Option<usize>)
    requires
        i <= feeds@.len(),
    ensures
        res matches Some(j) ==> j < i && first_where(i as int, 0, named(feeds@, name@)) == Some(j as int),
        res is None ==> first_where(i as int, 0, named(feeds@, name@)) is None,
{
    let mut j: usize = 0;
    while j < i
        invariant
            i <= feeds@.len(),
            j <= i,
            forall|k: int| #![trigger named(feeds@, name@)(k)] 0 <= k < j ==> !named(feeds@, name@)(k),
        decreases i - j,
    {
        if str_eq(feeds[j].name, name) {
            proof {
                lemma_first_where_found(i as int, 0, named(feeds@, name@), j as int);
            }
            return Some(j);
        }
        j += 1;
    }
    proof {
        lemma_first_where_none(i as int, 0, named(feeds@, name@));
    }
    None
}

/// The first feed before `i` writing ring `ring`.
fn find_ring(feeds: &[Placement], i: usize, ring: &str) -> (res: Option<usize>)
    requires
        i <= feeds@.len(),
    ensures
        res matches Some(j) ==> j < i && first_where(i as int, 0, writes_ring(feeds@, ring@)) == Some(j as int),
        res is None ==> first_where(i as int, 0, writes_ring(feeds@, ring@)) is None,
{
    let mut j: usize = 0;
    while j < i
        invariant
            i <= feeds@.len(),
            j <= i,
            forall|k: int| #![trigger writes_ring(feeds@, ring@)(k)] 0 <= k < j ==> !writes_ring(feeds@, ring@)(k),
        decreases i - j,
    {
        if str_eq(feeds[j].ring, ring) {
            proof {
                lemma_first_where_found(i as int, 0, writes_ring(feeds@, ring@), j as int);
            }
            return Some(j);
        }
        j += 1;
    }
    proof {
        lemma_first_where_none(i as int, 0, writes_ring(feeds@, ring@));
    }
    None
}

/// `items` holds `x`.
fn holds_u16(items: &[u16], x: u16) -> (res: bool)
    ensures
        res == items@.contains(x),
{
    let mut j: usize = 0;
    while j < items.len()
        invariant
            j <= items@.len(),
            forall|k: int| 0 <= k < j ==> items@[k] != x,
        decreases items@.len() - j,
    {
        if items[j] == x {
            assert(items@[j as int] == x);
            return true;
        }
        j += 1;
    }
    false
}

/// The first feed before `i` using `core`.
fn find_core(feeds: &[Placement], i: usize, core: u16) -> (res: Option<usize>)
    requires
        i <= feeds@.len(),
    ensures
        res matches Some(j) ==> j < i && first_where(i as int, 0, uses_core(feeds@, core)) == Some(j as int),
        res is None ==> first_where(i as int, 0, uses_core(feeds@, core)) is None,
{
    let mut j: usize = 0;
    while j < i
        invariant
            i <= feeds@.len(),
            j <= i,
            forall|k: int| #![trigger uses_core(feeds@, core)(k)] 0 <= k < j ==> !uses_core(feeds@, core)(k),
        decreases i - j,
    {
        if holds_u16(feeds[j].cores, core) {
            proof {
                lemma_first_where_found(i as int, 0, uses_core(feeds@, core), j as int);
            }
            return Some(j);
        }
        j += 1;
    }
    proof {
        lemma_first_where_none(i as int, 0, uses_core(feeds@, core));
    }
    None
}

/// `n` is a power of two.
pub fn is_power_of_two(n: u64) -> (res: bool)
    ensures
        res == power_of_two(n),
{
    let mut k: u64 = 0;
    while k < 64
        invariant
            k <= 64,
            forall|j: u64| j < k ==> n != 1u64 << j,
        decreases 64 - k,
    {
        if n == 1u64 << k {
            return true;
        }
        k += 1;
    }
    false
}

/// A fault read back as an error.
pub open spec fn is_fault(res: Option<RuleError>, fault: Option<RuleFault>) -> bool {
    match fault {
        None => res is None,
        Some(f) => res matches Some(e) && e@ == f,
    }
}

/// The first of feed `i`'s cores from the `k`th on that breaks a rule.
fn core_fault_of(feeds: &[Placement], i: usize, logical: usize) -> (res: Option<RuleError>)
    requires
        i < feeds@.len(),
    ensures
        is_fault(res, core_fault(feeds@, i as int, logical as int, 0)),
{
    let f = feeds[i];
    let mut k: usize = 0;
    while k < f.cores.len()
        invariant
            i < feeds@.len(),
            f == feeds@[i as int],
            k <= f.cores@.len(),
            core_fault(feeds@, i as int, logical as int, 0) == core_fault(feeds@, i as int, logical as int, k as int),
        decreases f.cores@.len() - k,
    {
        let core = f.cores[k];
        if core as usize >= logical {
            return Some(RuleError::CoreOutOfRange { feed: f.name.to_owned(), core, logical });
        }
        match find_core(feeds, i, core) {
            Some(j) => {
                return Some(RuleError::CoreShared { core, a: feeds[j].name.to_owned(), b: f.name.to_owned() });
            },
            None => {},
        }
        k += 1;
    }
    None
}

/// The first per-feed placement rule feed `i` breaks.
fn placement_fault_of(feeds: &[Placement], i: usize, logical: usize, refusal: &Option<String>) -> (res: Option<RuleError>)
    requires
        i < feeds@.len(),
    ensures
        is_fault(
            res,
            placement_fault(
                feeds@,
                i as int,
                logical as int,
                match refusal {
                    Some(s) => Some(s@),
                    None => None::<Seq<char>>,
                },
            ),
        ),
{
    let f = feeds[i];
    if f.name.is_empty() {
        return Some(RuleError::EmptyName { index: i });
    }
    match find_named(feeds, i, f.name) {
        Some(j) => {
            return Some(RuleError::DuplicateName { name: f.name.to_owned() });
        },
        None => {},
    }
    match refusal {
        Some(reason) => {
            return Some(RuleError::Ring { feed: f.name.to_owned(), reason: reason.clone() });
        },
        None => {},
    }
    match find_ring(feeds, i, f.ring) {
        Some(j) => {
            return Some(RuleError::DuplicateRing { ring: f.ring.to_owned(), a: feeds[j].name.to_owned(), b: f.name.to_owned() });
        },
        None => {},
    }
    if !is_power_of_two(f.ring_slots) {
        return Some(RuleError::RingSlots { feed: f.name.to_owned(), slots: f.ring_slots });
    }
    if f.cores.len() == 0 {
        return Some(RuleError::NoCores { feed: f.name.to_owned() });
    }
    if f.spin && f.cores.len() != 1 {
        return Some(RuleError::SpinOnSeveralCores { feed: f.name.to_owned(), cores: f.cores.len() });
    }
    core_fault_of(feeds, i, logical)
}

/// The bits of `o`'s mask that `siblings_outside` forbids next to `s` are
/// the processors where `o` sits on `s`'s sibling.
proof fn lemma_overlap_bits(t: Seq<u64>, s: Placement, o: Placement, smask: u64, omask: u64, forbidden: u64)
    requires
        forall|lp: int| 0 <= lp < 64 ==> (names(smask, lp) <==> lists(s.cores@, lp)),
        forall|lp: int| 0 <= lp < 64 ==> (names(omask, lp) <==> lists(o.cores@, lp)),
        forall|q: int| 0 <= q < 64 ==> (names(forbidden, q) <==> (!names(smask, q) && shares_core(t, smask, q))),
    ensures
        forall|q: int| 0 <= q < 64 ==> (names(omask & forbidden, q) <==> #[trigger] sits_on_sibling(t, s, o, q)),
{
    lemma_names_ops();
    assert forall|q: int| 0 <= q < 64 implies (names(omask & forbidden, q) <==> #[trigger] sits_on_sibling(t, s, o, q)) by {
        if shares_core(t, smask, q) {
            let lp = choose|lp: int| 0 <= lp < t.len() && lp < 64 && names(smask, lp) && names(t[lp], q);
            assert(lists(s.cores@, lp) && names(t[lp], q));
        }
        if forbidden_next_to(t, s, q) {
            let lp = choose|lp: int| 0 <= lp < t.len() && lp < 64 && lists(s.cores@, lp) && names(#[trigger] t[lp], q);
            assert(names(smask, lp));
        }
    }
}

/// The lowest processor a non-zero mask names is its trailing-zero count,
/// and a zero mask names none.
proof fn lemma_lowest_bit(x: u64, p: spec_fn(int) -> bool)
    requires
        forall|q: int| 0 <= q < 64 ==> (names(x, q) <==> #[trigger] p(q)),
    ensures
        x == 0 ==> first_where(64, 0, p) is None,
        x != 0 ==> first_where(64, 0, p) == Some(x.trailing_zeros() as int),
{
    lemma_names_ops();
    vstd::std_specs::bits::axiom_u64_trailing_zeros(x);
    if x == 0 {
        assert forall|k: int| #![trigger p(k)] 0 <= k < 64 implies !p(k) by {
            assert(!names(0u64, k));
        }
        lemma_first_where_none(64, 0, p);
    } else {
        let tz = x.trailing_zeros() as int;
        assert(names(x, tz));
        assert forall|k: int| #![trigger p(k)] 0 <= k < tz implies !p(k) by {
            assert((x >> (k as u64)) & 1u64 == 0u64);
        }
        lemma_first_where_found(64, 0, p, tz);
    }
}

/// The sibling rule for spinning feed `s`, whose mask is `smask`.
fn sibling_fault_for_of(feeds: &[Placement], topology: &Topology, s: usize, smask: u64) -> (res: Option<RuleError>)
    requires
        s < feeds@.len(),
        feeds@[s as int].cores@.len() > 0,
        forall|lp: int| 0 <= lp < 64 ==> (names(smask, lp) <==> lists(feeds@[s as int].cores@, lp)),
        sibling_fault_for(feeds@, topology@, s as int, 0) is Ok,
    ensures
        is_fault(res, sibling_fault_for(feeds@, topology@, s as int, 0)->Ok_0),
{
    let forbidden = topology.siblings_outside(smask);
    let spinning = feeds[s];
    let mut o: usize = 0;
    while o < feeds.len()
        invariant
            s < feeds@.len(),
            spinning == feeds@[s as int],
            spinning.cores@.len() > 0,
            forall|lp: int| 0 <= lp < 64 ==> (names(smask, lp) <==> lists(spinning.cores@, lp)),
            forall|q: int| 0 <= q < 64 ==> (names(forbidden, q) <==> (!names(smask, q) && shares_core(topology@, smask, q))),
            o <= feeds@.len(),
            sibling_fault_for(feeds@, topology@, s as int, 0) == sibling_fault_for(feeds@, topology@, s as int, o as int),
            sibling_fault_for(feeds@, topology@, s as int, 0) is Ok,
        decreases feeds@.len() - o,
    {
        let other = feeds[o];
        if str_eq(other.name, spinning.name) {
            o += 1;
        } else {
            let omask = match other.mask() {
                Some(m) => m,
                None => {
                    assert(beyond_mask(other));
                    assert(false);
                    0
                },
            };
            let overlap = omask & forbidden;
            proof {
                lemma_overlap_bits(topology@, spinning, other, smask, omask, forbidden);
                lemma_lowest_bit(overlap, on_sibling(topology@, spinning, other));
            }
            if overlap != 0 {
                let tz = overlap.trailing_zeros();
                proof {
                    vstd::std_specs::bits::axiom_u64_trailing_zeros(overlap);
                }
                let sibling = tz as u16;
                return Some(
                    RuleError::SiblingShared {
                        spinning: spinning.name.to_owned(),
                        core: spinning.cores[0],
                        sibling,
                        other: other.name.to_owned(),
                    },
                );
            }
            o += 1;
        }
    }
    None
}

/// The sibling rule for every spinning feed, in file order.
fn sibling_fault_of(feeds: &[Placement], topology: &Topology) -> (res: Option<RuleError>)
    requires
        forall|s: int| 0 <= s < feeds@.len() ==> #[trigger] feeds@[s].cores@.len() > 0,
        sibling_fault(feeds@, topology@, 0) is Ok,
    ensures
        is_fault(res, sibling_fault(feeds@, topology@, 0)->Ok_0),
{
    let mut s: usize = 0;
    while s < feeds.len()
        invariant
            forall|k: int| 0 <= k < feeds@.len() ==> #[trigger] feeds@[k].cores@.len() > 0,
            s <= feeds@.len(),
            sibling_fault(feeds@, topology@, 0) == sibling_fault(feeds@, topology@, s as int),
            sibling_fault(feeds@, topology@, 0) is Ok,
        decreases feeds@.len() - s,
    {
        let spinning = feeds[s];
        if spinning.spin {
            let smask = match spinning.mask() {
                Some(m) => m,
                None => {
                    assert(beyond_mask(spinning));
                    assert(false);
                    0
                },
            };
            assert(feeds@[s as int].cores@.len() > 0);
            let found = sibling_fault_for_of(feeds, topology, s, smask);
            if found.is_some() {
                return found;
            }
        }
        s += 1;
    }
    None
}

/// Refuses a set of feeds that would run wrong on this box.
///
/// `topology` is the box's SMT layout; without it the sibling rule is
/// skipped. `ring_refusals[i]` is what the segment layer said of feed
/// `i`'s ring name: `None` when it accepts it.
pub fn check_placement(feeds: &[Placement], topology: Option<&Topology>, ring_refusals: &[Option<String>]) -> (res: Result<(), RuleError>)
    requires
        ring_refusals@.len() == feeds@.len(),
        placement_verdict(
            feeds@,
            topology_of(topology),
            refusal_texts(ring_refusals@),
        ) is Ok,
    ensures
        verdict_is(
            res,
            placement_verdict(
                feeds@,
                topology_of(topology),
                refusal_texts(ring_refusals@),
            ),
        ),
{
    if feeds.len() == 0 {
        return Err(RuleError::NoFeeds);
    }
    let ghost topo = topology_of(topology);
    let ghost texts = refusal_texts(ring_refusals@);
    let logical = match topology {
        Some(t) => t.logical(),
        None => MAX_LOGICAL,
    };
    assert(logical == logical_of(topo));
    let mut i: usize = 0;
    while i < feeds.len()
        invariant
            ring_refusals@.len() == feeds@.len(),
            texts == refusal_texts(ring_refusals@),
            topo == topology_of(topology),
            feeds@.len() > 0,
            logical == logical_of(topo),
            i <= feeds@.len(),
            first_placement_fault(feeds@, logical as int, texts, 0) == first_placement_fault(feeds@, logical as int, texts, i as int),
            forall|k: int| 0 <= k < i ==> #[trigger] placement_fault(feeds@, k, logical as int, texts[k]) is None,
        decreases feeds@.len() - i,
    {
        let found = placement_fault_of(feeds, i, logical, &ring_refusals[i]);
        assert(texts[i as int] == match ring_refusals@[i as int] {
            Some(s) => Some(s@),
            None => None::<Seq<char>>,
        });
        match found {
            Some(e) => {
                assert(first_placement_fault(feeds@, logical as int, texts, i as int) == Some(e@));
                assert(placement_verdict(feeds@, topo, texts) == Ok::<Option<RuleFault>, ()>(Some(e@)));
                return Err(e);
            },
            None => {},
        }
        i += 1;
    }
    assert forall|k: int| 0 <= k < feeds@.len() implies #[trigger] feeds@[k].cores@.len() > 0 by {
        assert(placement_fault(feeds@, k, logical as int, texts[k]) is None);
    }
    match topology {
        None => Ok(()),
        Some(t) => {
            match sibling_fault_of(feeds, t) {
                Some(e) => Err(e),
                None => Ok(()),
            }
        },
    }
}

/// The first earlier KRX feed with a socket on `port`.
fn find_port(feeds: &[KrxRules], i: usize, port: u16) -> (res: Option<usize>)
    requires
        i <= feeds@.len(),
    ensures
        res matches Some(k) ==> k < i && first_where(i as int, 0, listens_on(feeds@, port)) == Some(k as int),
        res is None ==> first_where(i as int, 0, listens_on(feeds@, port)) is None,
{
    let mut k: usize = 0;
    while k < i
        invariant
            i <= feeds@.len(),
            k <= i,
            forall|m: int| #![trigger listens_on(feeds@, port)(m)] 0 <= m < k ==> !listens_on(feeds@, port)(m),
        decreases i - k,
    {
        if holds_u16(feeds[k].ports, port) {
            proof {
                lemma_first_where_found(i as int, 0, listens_on(feeds@, port), k as int);
            }
            return Some(k);
        }
        k += 1;
    }
    proof {
        lemma_first_where_none(i as int, 0, listens_on(feeds@, port));
    }
    None
}

/// `items[..end]` holds `x`.
fn holds_u16_before(items: &[u16], end: usize, x: u16) -> (res: bool)
    requires
        end <= items@.len(),
    ensures
        res == items@.subrange(0, end as int).contains(x),
{
    let mut j: usize = 0;
    while j < end
        invariant
            end <= items@.len(),
            j <= end,
            forall|k: int| 0 <= k < j ==> items@[k] != x,
        decreases end - j,
    {
        if items[j] == x {
            assert(items@.subrange(0, end as int)[j as int] == x);
            return true;
        }
        j += 1;
    }
    assert(!items@.subrange(0, end as int).contains(x)) by {
        if items@.subrange(0, end as int).contains(x) {
            let k = choose|k: int| 0 <= k < end && items@.subrange(0, end as int)[k] == x;
            assert(items@[k] == x);
        }
    }
    false
}

/// The same five bytes.
fn same_code(a: &[u8; 5], b: &[u8; 5]) -> (res: bool)
    ensures
        res == (*a == *b),
{
    let same = a[0] == b[0] && a[1] == b[1] && a[2] == b[2] && a[3] == b[3] && a[4] == b[4];
    proof {
        broadcast use vstd::array::axiom_array_ext_equal;

        if same {
            assert(*a =~= *b);
        }
    }
    same
}

/// `items[..end]` holds `x`.
pub(crate) fn holds_before(items: &[[u8; 5]], end: usize, x: [u8; 5]) -> (res: bool)
    requires
        end <= items@.len(),
    ensures
        res == items@.subrange(0, end as int).contains(x),
{
    let mut j: usize = 0;
    while j < end
        invariant
            end <= items@.len(),
            j <= end,
            forall|k: int| 0 <= k < j ==> items@[k] != x,
        decreases end - j,
    {
        if same_code(&items[j], &x) {
            assert(items@.subrange(0, end as int)[j as int] == x);
            return true;
        }
        j += 1;
    }
    assert(!items@.subrange(0, end as int).contains(x)) by {
        if items@.subrange(0, end as int).contains(x) {
            let k = choose|k: int| 0 <= k < end && items@.subrange(0, end as int)[k] == x;
            assert(items@[k] == x);
        }
    }
    false
}

/// The first KRX-only rule feed `i` breaks.
fn krx_fault_of(feeds: &[KrxRules], i: usize) -> (res: Option<RuleError>)
    requires
        i < feeds@.len(),
    ensures
        is_fault(res, krx_fault(feeds@, i as int)),
{
    let f = feeds[i];
    let name = f.placement.name;
    if f.ports.len() == 0 {
        return Some(RuleError::NoSockets { feed: name.to_owned() });
    }
    let mut j: usize = 0;
    while j < f.ports.len()
        invariant
            i < feeds@.len(),
            f == feeds@[i as int],
            name == f.placement.name,
            j <= f.ports@.len(),
            port_fault(feeds@, i as int, 0) == port_fault(feeds@, i as int, j as int),
        decreases f.ports@.len() - j,
    {
        let port = f.ports[j];
        let own = holds_u16_before(f.ports, j, port);
        if own {
            return Some(RuleError::PortShared { port, a: name.to_owned(), b: name.to_owned() });
        }
        match find_port(feeds, i, port) {
            Some(k) => {
                return Some(RuleError::PortShared { port, a: feeds[k].placement.name.to_owned(), b: name.to_owned() });
            },
            None => {},
        }
        j += 1;
    }
    if f.trcodes.len() == 0 {
        return Some(RuleError::NoTrcodes { feed: name.to_owned() });
    }
    let mut j: usize = 0;
    while j < f.trcodes.len()
        invariant
            i < feeds@.len(),
            f == feeds@[i as int],
            name == f.placement.name,
            f.ports@.len() > 0,
            port_fault(feeds@, i as int, 0) is None,
            f.trcodes@.len() > 0,
            j <= f.trcodes@.len(),
            forall|k: int| #![trigger repeats_trcode(f)(k)] 0 <= k < j ==> !repeats_trcode(f)(k),
        decreases f.trcodes@.len() - j,
    {
        let code = f.trcodes[j];
        if holds_before(f.trcodes, j, code) {
            proof {
                lemma_first_where_found(f.trcodes@.len() as int, 0, repeats_trcode(f), j as int);
            }
            return Some(RuleError::DuplicateTrcode { feed: name.to_owned(), code });
        }
        j += 1;
    }
    proof {
        lemma_first_where_none(f.trcodes@.len() as int, 0, repeats_trcode(f));
    }
    None
}

/// Refuses a KRX conf that would run wrong: the shared placement rules and,
/// per feed after its placement, at least one socket, no port twice across
/// the conf, at least one trcode and none twice within the feed.
pub fn validate_krx(feeds: &[KrxRules], topology: Option<&Topology>, ring_refusals: &[Option<String>]) -> (res: Result<(), RuleError>)
    requires
        ring_refusals@.len() == feeds@.len(),
        krx_verdict(feeds@, topology_of(topology), refusal_texts(ring_refusals@)) is Ok,
    ensures
        verdict_is(res, krx_verdict(feeds@, topology_of(topology), refusal_texts(ring_refusals@))),
{
    if feeds.len() == 0 {
        return Err(RuleError::NoFeeds);
    }
    let ghost topo = topology_of(topology);
    let ghost texts = refusal_texts(ring_refusals@);
    let mut places: Vec<Placement> = Vec::new();
    let mut k: usize = 0;
    while k < feeds.len()
        invariant
            k <= feeds@.len(),
            places@ == placements_of(feeds@).subrange(0, k as int),
        decreases feeds@.len() - k,
    {
        places.push(feeds[k].placement);
        k += 1;
    }
    assert(places@ =~= placements_of(feeds@));
    let logical = match topology {
        Some(t) => t.logical(),
        None => MAX_LOGICAL,
    };
    let mut i: usize = 0;
    while i < feeds.len()
        invariant
            ring_refusals@.len() == feeds@.len(),
            texts == refusal_texts(ring_refusals@),
            topo == topology_of(topology),
            places@ == placements_of(feeds@),
            feeds@.len() > 0,
            logical == logical_of(topo),
            i <= feeds@.len(),
            first_krx_fault(feeds@, logical as int, texts, 0) == first_krx_fault(feeds@, logical as int, texts, i as int),
            forall|k: int| 0 <= k < i ==> #[trigger] placement_fault(places@, k, logical as int, texts[k]) is None,
        decreases feeds@.len() - i,
    {
        let found = placement_fault_of(places.as_slice(), i, logical, &ring_refusals[i]);
        assert(texts[i as int] == match ring_refusals@[i as int] {
            Some(s) => Some(s@),
            None => None::<Seq<char>>,
        });
        match found {
            Some(e) => {
                assert(first_krx_fault(feeds@, logical as int, texts, i as int) == Some(e@));
                return Err(e);
            },
            None => {},
        }
        match krx_fault_of(feeds, i) {
            Some(e) => {
                assert(first_krx_fault(feeds@, logical as int, texts, i as int) == Some(e@));
                return Err(e);
            },
            None => {},
        }
        i += 1;
    }
    assert forall|k: int| 0 <= k < places@.len() implies #[trigger] places@[k].cores@.len() > 0 by {
        assert(placement_fault(places@, k, logical as int, texts[k]) is None);
    }
    match topology {
        None => Ok(()),
        Some(t) => {
            match sibling_fault_of(places.as_slice(), t) {
                Some(e) => Err(e),
                None => Ok(()),
            }
        },
    }
}

// ---------------------------------------------------------------------------
// What an accepted layout guarantees
// ---------------------------------------------------------------------------

proof fn lemma_no_core_fault(feeds: Seq<Placement>, i: int, logical: int, k: int)
    requires
        0 <= i < feeds.len(),
        0 <= k,
        core_fault(feeds, i, logical, k) is None,
    ensures
        forall|m: int| #![trigger feeds[i].cores@[m]] k <= m < feeds[i].cores@.len() ==> feeds[i].cores@[m] < logical
            && forall|j: int| 0 <= j < i ==> !feeds[j].cores@.contains(feeds[i].cores@[m]),
    decreases feeds[i].cores@.len() - k,
{
    if k < feeds[i].cores@.len() {
        let core = feeds[i].cores@[k];
        lemma_first_where_facts(i, 0, uses_core(feeds, core));
        assert forall|j: int| 0 <= j < i implies !feeds[j].cores@.contains(core) by {
            assert(!uses_core(feeds, core)(j));
        }
        lemma_no_core_fault(feeds, i, logical, k + 1);
    }
}

proof fn lemma_no_placement_fault(feeds: Seq<Placement>, i: int, logical: int, refusal: Option<Seq<char>>)
    requires
        0 <= i < feeds.len(),
        placement_fault(feeds, i, logical, refusal) is None,
    ensures
        feeds[i].name@.len() > 0,
        refusal is None,
        power_of_two(feeds[i].ring_slots),
        feeds[i].cores@.len() > 0,
        feeds[i].spin ==> feeds[i].cores@.len() == 1,
        forall|j: int| 0 <= j < i ==> feeds[j].name@ != feeds[i].name@ && feeds[j].ring@ != feeds[i].ring@,
        forall|m: int| #![trigger feeds[i].cores@[m]] 0 <= m < feeds[i].cores@.len() ==> feeds[i].cores@[m] < logical
            && forall|j: int| 0 <= j < i ==> !feeds[j].cores@.contains(feeds[i].cores@[m]),
{
    let f = feeds[i];
    lemma_first_where_facts(i, 0, named(feeds, f.name@));
    lemma_first_where_facts(i, 0, writes_ring(feeds, f.ring@));
    assert forall|j: int| 0 <= j < i implies feeds[j].name@ != f.name@ && feeds[j].ring@ != f.ring@ by {
        assert(!named(feeds, f.name@)(j));
        assert(!writes_ring(feeds, f.ring@)(j));
    }
    lemma_no_core_fault(feeds, i, logical, 0);
}

proof fn lemma_no_first_fault(feeds: Seq<Placement>, logical: int, refusals: Seq<Option<Seq<char>>>, i: int)
    requires
        0 <= i,
        first_placement_fault(feeds, logical, refusals, i) is None,
    ensures
        forall|k: int| i <= k < feeds.len() ==> #[trigger] placement_fault(feeds, k, logical, refusals[k]) is None,
    decreases feeds.len() - i,
{
    if i < feeds.len() {
        lemma_no_first_fault(feeds, logical, refusals, i + 1);
    }
}

proof fn lemma_no_sibling_fault_for(feeds: Seq<Placement>, sib: Seq<u64>, s: int, o: int)
    requires
        0 <= o,
        sibling_fault_for(feeds, sib, s, o) == Ok::<Option<RuleFault>, ()>(None),
    ensures
        forall|p: int, q: int| #![trigger sits_on_sibling(sib, feeds[s], feeds[p], q)]
            o <= p < feeds.len() && feeds[p].name@ != feeds[s].name@ ==> !sits_on_sibling(sib, feeds[s], feeds[p], q),
    decreases feeds.len() - o,
{
    if o < feeds.len() {
        lemma_no_sibling_fault_for(feeds, sib, s, o + 1);
        if feeds[o].name@ != feeds[s].name@ {
            lemma_first_where_facts(64, 0, on_sibling(sib, feeds[s], feeds[o]));
            assert forall|q: int| !sits_on_sibling(sib, feeds[s], feeds[o], q) by {
                if 0 <= q < 64 {
                    assert(!on_sibling(sib, feeds[s], feeds[o])(q));
                }
            }
        }
    }
}

proof fn lemma_no_sibling_fault(feeds: Seq<Placement>, sib: Seq<u64>, s: int)
    requires
        0 <= s,
        sibling_fault(feeds, sib, s) == Ok::<Option<RuleFault>, ()>(None),
    ensures
        forall|t: int, p: int, q: int| #![trigger sits_on_sibling(sib, feeds[t], feeds[p], q)]
            s <= t < feeds.len() && feeds[t].spin && 0 <= p < feeds.len() && feeds[p].name@ != feeds[t].name@
                ==> !sits_on_sibling(sib, feeds[t], feeds[p], q),
    decreases feeds.len() - s,
{
    if s < feeds.len() {
        lemma_no_sibling_fault(feeds, sib, s + 1);
        if feeds[s].spin {
            lemma_no_sibling_fault_for(feeds, sib, s, 0);
        }
    }
}

/// What a layout the placement rules accept guarantees: every feed has a
/// name and a ring of its own, a ring the segment layer accepts and whose
/// size is a power of two, at least one core and exactly one if it spins,
/// and cores that exist and that no other feed uses; and, when the topology
/// is known, no feed sits on the SMT sibling of a spinning feed's core.
pub proof fn law_accepted_placement(feeds: Seq<Placement>, topology: Option<Seq<u64>>, refusals: Seq<Option<Seq<char>>>)
    requires
        refusals.len() == feeds.len(),
        placement_verdict(feeds, topology, refusals) == Ok::<Option<RuleFault>, ()>(None),
    ensures
        forall|i: int| #![trigger feeds[i]] 0 <= i < feeds.len() ==> {
            &&& feeds[i].name@.len() > 0
            &&& refusals[i] is None
            &&& power_of_two(feeds[i].ring_slots)
            &&& feeds[i].cores@.len() > 0
            &&& (feeds[i].spin ==> feeds[i].cores@.len() == 1)
        },
        forall|i: int, m: int| #![trigger feeds[i].cores@[m]] 0 <= i < feeds.len() && 0 <= m < feeds[i].cores@.len()
            ==> feeds[i].cores@[m] < logical_of(topology),
        forall|i: int, j: int| #![trigger feeds[i], feeds[j]] 0 <= i < feeds.len() && 0 <= j < feeds.len() && i != j ==> {
            &&& feeds[i].name@ != feeds[j].name@
            &&& feeds[i].ring@ != feeds[j].ring@
            &&& forall|m: int| 0 <= m < feeds[i].cores@.len() ==> !feeds[j].cores@.contains(#[trigger] feeds[i].cores@[m])
        },
        topology matches Some(sib) ==> forall|s: int, o: int, q: int| #![trigger sits_on_sibling(sib, feeds[s], feeds[o], q)]
            0 <= s < feeds.len() && feeds[s].spin && 0 <= o < feeds.len() && o != s ==> !sits_on_sibling(sib, feeds[s], feeds[o], q),
{
    let logical = logical_of(topology);
    lemma_no_first_fault(feeds, logical, refusals, 0);
    assert forall|i: int| 0 <= i < feeds.len() implies {
        &&& feeds[i].name@.len() > 0
        &&& refusals[i] is None
        &&& power_of_two(feeds[i].ring_slots)
        &&& feeds[i].cores@.len() > 0
        &&& (feeds[i].spin ==> feeds[i].cores@.len() == 1)
    } by {
        assert(placement_fault(feeds, i, logical, refusals[i]) is None);
        lemma_no_placement_fault(feeds, i, logical, refusals[i]);
    }
    assert forall|i: int, m: int| 0 <= i < feeds.len() && 0 <= m < feeds[i].cores@.len() implies #[trigger] feeds[i].cores@[m]
        < logical by {
        assert(placement_fault(feeds, i, logical, refusals[i]) is None);
        lemma_no_placement_fault(feeds, i, logical, refusals[i]);
    }
    assert forall|i: int, j: int| 0 <= i < feeds.len() && 0 <= j < feeds.len() && i != j implies {
        &&& feeds[i].name@ != feeds[j].name@
        &&& feeds[i].ring@ != feeds[j].ring@
        &&& forall|m: int| 0 <= m < feeds[i].cores@.len() ==> !feeds[j].cores@.contains(#[trigger] feeds[i].cores@[m])
    } by {
        assert(placement_fault(feeds, i, logical, refusals[i]) is None);
        assert(placement_fault(feeds, j, logical, refusals[j]) is None);
        lemma_no_placement_fault(feeds, i, logical, refusals[i]);
        lemma_no_placement_fault(feeds, j, logical, refusals[j]);
        if j < i {
        } else {
            assert forall|m: int| 0 <= m < feeds[i].cores@.len() implies !feeds[j].cores@.contains(#[trigger] feeds[i].cores@[m]) by {
                let core = feeds[i].cores@[m];
                if feeds[j].cores@.contains(core) {
                    let n = choose|n: int| 0 <= n < feeds[j].cores@.len() && feeds[j].cores@[n] == core;
                    assert(!feeds[i].cores@.contains(feeds[j].cores@[n]));
                    assert(feeds[i].cores@[m] == core);
                }
            }
        }
    }
    match topology {
        Some(sib) => {
            lemma_no_sibling_fault(feeds, sib, 0);
            assert forall|s: int, o: int, q: int| 0 <= s < feeds.len() && feeds[s].spin && 0 <= o < feeds.len() && o != s implies !#[trigger] sits_on_sibling(sib, feeds[s], feeds[o], q) by {
                assert(placement_fault(feeds, s, logical, refusals[s]) is None);
                assert(placement_fault(feeds, o, logical, refusals[o]) is None);
                lemma_no_placement_fault(feeds, s, logical, refusals[s]);
                lemma_no_placement_fault(feeds, o, logical, refusals[o]);
                assert(feeds[o].name@ != feeds[s].name@);
            }
        },
        None => {},
    }
}

proof fn lemma_no_first_krx_fault(feeds: Seq<KrxRules>, logical: int, refusals: Seq<Option<Seq<char>>>, i: int)
    requires
        0 <= i,
        first_krx_fault(feeds, logical, refusals, i) is None,
    ensures
        forall|k: int| i <= k < feeds.len() ==> #[trigger] placement_fault(placements_of(feeds), k, logical, refusals[k])
            is None && krx_fault(feeds, k) is None,
        first_placement_fault(placements_of(feeds), logical, refusals, i) is None,
    decreases feeds.len() - i,
{
    if i < feeds.len() {
        lemma_no_first_krx_fault(feeds, logical, refusals, i + 1);
    }
}

proof fn lemma_no_port_fault(feeds: Seq<KrxRules>, i: int, j: int)
    requires
        0 <= i < feeds.len(),
        0 <= j,
        port_fault(feeds, i, j) is None,
    ensures
        forall|m: int| #![trigger feeds[i].ports@[m]] j <= m < feeds[i].ports@.len() ==> !feeds[i].ports@.subrange(0, m).contains(
            feeds[i].ports@[m],
        ) && forall|k: int| 0 <= k < i ==> !feeds[k].ports@.contains(feeds[i].ports@[m]),
    decreases feeds[i].ports@.len() - j,
{
    if j < feeds[i].ports@.len() {
        let port = feeds[i].ports@[j];
        lemma_first_where_facts(i, 0, listens_on(feeds, port));
        assert forall|k: int| 0 <= k < i implies !feeds[k].ports@.contains(port) by {
            assert(!listens_on(feeds, port)(k));
        }
        lemma_no_port_fault(feeds, i, j + 1);
    }
}

/// What a KRX conf the rules accept guarantees beyond its placement: every
/// feed listens on at least one socket and keeps at least one trcode, no
/// port is listened on twice across the whole conf, and no feed lists a
/// trcode twice. Its placement is one the shared rules accept, so
/// [`law_accepted_placement`] holds of it too.
pub proof fn law_accepted_krx(feeds: Seq<KrxRules>, topology: Option<Seq<u64>>, refusals: Seq<Option<Seq<char>>>)
    requires
        refusals.len() == feeds.len(),
        krx_verdict(feeds, topology, refusals) == Ok::<Option<RuleFault>, ()>(None),
    ensures
        placement_verdict(placements_of(feeds), topology, refusals) == Ok::<Option<RuleFault>, ()>(None),
        forall|i: int| #![trigger feeds[i]] 0 <= i < feeds.len() ==> feeds[i].ports@.len() > 0
            && feeds[i].trcodes@.len() > 0,
        forall|i: int, a: int, b: int| 0 <= i < feeds.len() && 0 <= a < b < feeds[i].ports@.len()
            ==> #[trigger] feeds[i].ports@[a] != #[trigger] feeds[i].ports@[b],
        forall|k: int, i: int, a: int, b: int|
            0 <= k < i < feeds.len() && 0 <= a < feeds[k].ports@.len() && 0 <= b < feeds[i].ports@.len()
                ==> #[trigger] feeds[k].ports@[a] != #[trigger] feeds[i].ports@[b],
        forall|i: int, a: int, b: int| 0 <= i < feeds.len() && 0 <= a < b < feeds[i].trcodes@.len()
            ==> #[trigger] feeds[i].trcodes@[a] != #[trigger] feeds[i].trcodes@[b],
{
    let logical = logical_of(topology);
    lemma_no_first_krx_fault(feeds, logical, refusals, 0);
    assert forall|i: int| 0 <= i < feeds.len() implies {
        &&& feeds[i].ports@.len() > 0
        &&& feeds[i].trcodes@.len() > 0
        &&& forall|m: int| #![trigger feeds[i].ports@[m]] 0 <= m < feeds[i].ports@.len() ==> !feeds[i].ports@.subrange(
            0,
            m,
        ).contains(feeds[i].ports@[m]) && forall|k: int| 0 <= k < i ==> !feeds[k].ports@.contains(feeds[i].ports@[m])
        &&& forall|m: int| #![trigger feeds[i].trcodes@[m]] 0 <= m < feeds[i].trcodes@.len() ==> !repeats_trcode(
            feeds[i],
        )(m)
    } by {
        assert(placement_fault(placements_of(feeds), i, logical, refusals[i]) is None);
        lemma_no_port_fault(feeds, i, 0);
        lemma_first_where_facts(feeds[i].trcodes@.len() as int, 0, repeats_trcode(feeds[i]));
        assert forall|m: int| #![trigger feeds[i].trcodes@[m]] 0 <= m < feeds[i].trcodes@.len() implies !repeats_trcode(
            feeds[i],
        )(m) by {}
    }
    assert forall|i: int, a: int, b: int| 0 <= i < feeds.len() && 0 <= a < b < feeds[i].ports@.len()
        implies #[trigger] feeds[i].ports@[a] != #[trigger] feeds[i].ports@[b] by {
        assert(!feeds[i].ports@.subrange(0, b).contains(feeds[i].ports@[b]));
        assert(feeds[i].ports@.subrange(0, b)[a] == feeds[i].ports@[a]);
    }
    assert forall|k: int, i: int, a: int, b: int|
        0 <= k < i < feeds.len() && 0 <= a < feeds[k].ports@.len() && 0 <= b < feeds[i].ports@.len()
        implies #[trigger] feeds[k].ports@[a] != #[trigger] feeds[i].ports@[b] by {
        assert(!feeds[k].ports@.contains(feeds[i].ports@[b]));
    }
    assert forall|i: int, a: int, b: int| 0 <= i < feeds.len() && 0 <= a < b < feeds[i].trcodes@.len()
        implies #[trigger] feeds[i].trcodes@[a] != #[trigger] feeds[i].trcodes@[b] by {
        assert(!repeats_trcode(feeds[i])(b));
        assert(feeds[i].trcodes@.subrange(0, b)[a] == feeds[i].trcodes@[a]);
    }
}

// ---------------------------------------------------------------------------
// Saying what broke
// ---------------------------------------------------------------------------

/// What a broken rule says.
pub open spec fn rule_text(f: RuleFault) -> Seq<char> {
    match f {
        RuleFault::NoFeeds => "no [[feed]] section"@,
        RuleFault::EmptyName { index } => "feed["@ + decimal(index as nat) + "]: `name` is empty"@,
        RuleFault::DuplicateName { name } => "two feeds are named \""@ + name + "\""@,
        RuleFault::Ring { feed, reason } => "feed["@ + feed + "]: `ring`: "@ + reason,
        RuleFault::DuplicateRing { ring, a, b } => "feeds \""@ + a + "\" and \""@ + b + "\" both write ring \""@ + ring
            + "\"; a ring has one producer"@,
        RuleFault::RingSlots { feed, slots } => "feed["@ + feed + "]: `ring_slots` = "@ + decimal(slots as nat)
            + " is not a power of two"@,
        RuleFault::NoCores { feed } => "feed["@ + feed + "]: `cores` is empty"@,
        RuleFault::SpinOnSeveralCores { feed, cores } => "feed["@ + feed
            + "]: a spinning feed pins to exactly one core, not "@ + decimal(cores as nat),
        RuleFault::CoreOutOfRange { feed, core, logical } => "feed["@ + feed + "]: core "@ + decimal(core as nat)
            + " does not exist ("@ + decimal(logical as nat) + " logical processors)"@,
        RuleFault::CoreShared { core, a, b } => "feeds \""@ + a + "\" and \""@ + b + "\" both use core "@ + decimal(
            core as nat,
        ),
        RuleFault::SiblingShared { spinning, core, sibling, other } => "feed \""@ + other + "\" uses core "@
            + decimal(sibling as nat) + ", the SMT sibling of core "@ + decimal(core as nat) + " that \""@ + spinning
            + "\" spins on"@,
        RuleFault::NoSockets { feed } => "feed["@ + feed + "]: `sockets` is empty"@,
        RuleFault::PortShared { port, a, b } => "feeds \""@ + a + "\" and \""@ + b + "\" both listen on port "@
            + decimal(port as nat) + "; on Windows each socket would receive both groups"@,
        RuleFault::NoTrcodes { feed } => "feed["@ + feed + "]: `trcodes` is empty"@,
        RuleFault::DuplicateTrcode { feed, code } => "feed["@ + feed + "]: trcode "@ + ascii_text(code)
            + " is listed twice"@,
        RuleFault::NoInstruments { feed } => "feed["@ + feed + "]: no [[feed.instrument]]"@,
        RuleFault::Instrument { feed, symbol, reason } => "feed["@ + feed + "]: instrument "@ + symbol + ": "@
            + reason,
        RuleFault::Router { feed, reason } => "feed["@ + feed + "]: "@ + reason,
    }
}

impl RuleError {
    /// The broken rule as a sentence.
    pub fn to_string(&self) -> (res: String)
        ensures
            res@ == rule_text(self@),
    {
        let mut s = String::new();
        match self {
            RuleError::NoFeeds => {
                s.append("no [[feed]] section");
            },
            RuleError::EmptyName { index } => {
                s.append("feed[");
                push_decimal(&mut s, *index as u64);
                s.append("]: `name` is empty");
            },
            RuleError::DuplicateName { name } => {
                s.append("two feeds are named \"");
                s.append(name.as_str());
                s.append("\"");
            },
            RuleError::Ring { feed, reason } => {
                s.append("feed[");
                s.append(feed.as_str());
                s.append("]: `ring`: ");
                s.append(reason.as_str());
            },
            RuleError::DuplicateRing { ring, a, b } => {
                s.append("feeds \"");
                s.append(a.as_str());
                s.append("\" and \"");
                s.append(b.as_str());
                s.append("\" both write ring \"");
                s.append(ring.as_str());
                s.append("\"; a ring has one producer");
            },
            RuleError::RingSlots { feed, slots } => {
                s.append("feed[");
                s.append(feed.as_str());
                s.append("]: `ring_slots` = ");
                push_decimal(&mut s, *slots);
                s.append(" is not a power of two");
            },
            RuleError::NoCores { feed } => {
                s.append("feed[");
                s.append(feed.as_str());
                s.append("]: `cores` is empty");
            },
            RuleError::SpinOnSeveralCores { feed, cores } => {
                s.append("feed[");
                s.append(feed.as_str());
                s.append("]: a spinning feed pins to exactly one core, not ");
                push_decimal(&mut s, *cores as u64);
            },
            RuleError::CoreOutOfRange { feed, core, logical } => {
                s.append("feed[");
                s.append(feed.as_str());
                s.append("]: core ");
                push_decimal(&mut s, *core as u64);
                s.append(" does not exist (");
                push_decimal(&mut s, *logical as u64);
                s.append(" logical processors)");
            },
            RuleError::CoreShared { core, a, b } => {
                s.append("feeds \"");
                s.append(a.as_str());
                s.append("\" and \"");
                s.append(b.as_str());
                s.append("\" both use core ");
                push_decimal(&mut s, *core as u64);
            },
            RuleError::SiblingShared { spinning, core, sibling, other } => {
                s.append("feed \"");
                s.append(other.as_str());
                s.append("\" uses core ");
                push_decimal(&mut s, *sibling as u64);
                s.append(", the SMT sibling of core ");
                push_decimal(&mut s, *core as u64);
                s.append(" that \"");
                s.append(spinning.as_str());
                s.append("\" spins on");
            },
            RuleError::NoSockets { feed } => {
                s.append("feed[");
                s.append(feed.as_str());
                s.append("]: `sockets` is empty");
            },
            RuleError::PortShared { port, a, b } => {
                s.append("feeds \"");
                s.append(a.as_str());
                s.append("\" and \"");
                s.append(b.as_str());
                s.append("\" both listen on port ");
                push_decimal(&mut s, *port as u64);
                s.append("; on Windows each socket would receive both groups");
            },
            RuleError::NoTrcodes { feed } => {
                s.append("feed[");
                s.append(feed.as_str());
                s.append("]: `trcodes` is empty");
            },
            RuleError::DuplicateTrcode { feed, code } => {
                s.append("feed[");
                s.append(feed.as_str());
                s.append("]: trcode ");
                push_ascii(&mut s, code);
                s.append(" is listed twice");
            },
            RuleError::NoInstruments { feed } => {
                s.append("feed[");
                s.append(feed.as_str());
                s.append("]: no [[feed.instrument]]");
            },
            RuleError::Instrument { feed, symbol, reason } => {
                s.append("feed[");
                s.append(feed.as_str());
                s.append("]: instrument ");
                s.append(symbol.as_str());
                s.append(": ");
                s.append(reason.as_str());
            },
            RuleError::Router { feed, reason } => {
                s.append("feed[");
                s.append(feed.as_str());
                s.append("]: ");
                s.append(reason.as_str());
            },
        }
        proof {
            assert(s@ =~= rule_text(self@));
        }
        s
    }
}

} // verus!
