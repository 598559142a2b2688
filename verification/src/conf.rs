//! Deployment configuration: the typed view over a parsed TOML document.
//!
//! An unknown key is an error, not a warning: `ring_slot = 16384` next to a
//! default `ring_slots` would otherwise run with the wrong size and say
//! nothing. A guard that is absent is on, at a conservative value; turning
//! one off means writing `0`.
use vstd::prelude::*;
use vstd::string::StringExecFns;

use crate::conf::rules::{RuleError, RuleFault, rule_text};
use crate::text::{decimal, push_decimal};
use crate::types::str_eq;
use crate::toml::grammar::{Doc, Fault, doc_label, lookup};
use crate::toml::{Error, Table, Value, error_text, fault_of};

pub mod crypto;
pub mod fix;
pub mod krx;
pub mod rules;
pub mod trcodes;

pub use self::crypto::CryptoConf;
pub use self::fix::FixConf;
pub use self::krx::KrxConf;
pub use self::trcodes::TrCodeTable;

verus! {

/// The `[health]` section, shared by every feed.
#[derive(Debug, Clone, Copy, PartialEq, Eq, Structural)]
pub struct Health {
    /// Liveness record cadence. Zero disables it.
    pub heartbeat_ns: u64,
    /// Age past which a record is flagged `STALE`. Zero disables it.
    pub stale_ns: u64,
}

impl Default for Health {
    /// 100 ms heartbeat, 500 ms stale: what a conf without a `[health]`
    /// section gets.
    fn default() -> (res: Health)
        ensures
            res == (Health { heartbeat_ns: 100_000_000, stale_ns: 500_000_000 }),
    {
        Health { heartbeat_ns: 100_000_000, stale_ns: 500_000_000 }
    }
}

impl Health {
    /// Reads `[health]`, or the defaults if the section is absent.
    pub fn from_section(section: Option<Section<'_>>) -> (res: Result<Health, ConfError>)
        requires
            section matches Some(s) ==> (lookup(s.entries(), "heartbeat_ms"@) matches Some(Doc::Int(n)) ==> n
                <= u64::MAX / 1_000_000) && (lookup(s.entries(), "stale_ms"@) matches Some(Doc::Int(n)) ==> n
                <= u64::MAX / 1_000_000),
        ensures
            match section {
                None => res == Ok::<Health, ConfError>(Health { heartbeat_ns: 100_000_000, stale_ns: 500_000_000 }),
                Some(s) => match (
                    u64_opt(s.name(), s.entries(), "heartbeat_ms"@),
                    u64_opt(s.name(), s.entries(), "stale_ms"@),
                ) {
                    (Err(f), _) => res matches Err(e) && e@ == f,
                    (Ok(_), Err(f)) => res matches Err(e) && e@ == f,
                    (Ok(h), Ok(st)) => match finish_of(s.name(), s.entries(), seq!["heartbeat_ms"@, "stale_ms"@]) {
                        Err(f) => res matches Err(e) && e@ == f,
                        Ok(()) => res == Ok::<Health, ConfError>(
                            Health {
                                heartbeat_ns: match h { Some(ms) => (ms * 1_000_000) as u64, None => 100_000_000 },
                                stale_ns: match st { Some(ms) => (ms * 1_000_000) as u64, None => 500_000_000 },
                            },
                        ),
                    },
                },
            },
    {
        let s = match section {
            None => {
                return Ok(Health::default());
            },
            Some(s) => s,
        };
        proof {
            reveal_strlit("heartbeat_ms");
            reveal_strlit("stale_ms");
        }
        let heartbeat_ns = match s.optional_u64("heartbeat_ms") {
            Err(e) => {
                return Err(e);
            },
            Ok(Some(ms)) => ms * 1_000_000,
            Ok(None) => 100_000_000,
        };
        let stale_ns = match s.optional_u64("stale_ms") {
            Err(e) => {
                return Err(e);
            },
            Ok(Some(ms)) => ms * 1_000_000,
            Ok(None) => 500_000_000,
        };
        let known: [&str; 2] = ["heartbeat_ms", "stale_ms"];
        assert(known@.map_values(|k: &str| k@) =~= seq!["heartbeat_ms"@, "stale_ms"@]);
        match s.finish(known.as_slice()) {
            Err(e) => Err(e),
            Ok(()) => Ok(Health { heartbeat_ns, stale_ns }),
        }
    }
}

/// Why a conf was refused, as plain values.
pub enum ConfFault {
    Io { path: Seq<char>, reason: Seq<char> },
    Toml { path: Seq<char>, fault: Fault, line: int },
    Missing { at: Seq<char>, key: Seq<char> },
    Type { at: Seq<char>, key: Seq<char>, expected: Seq<char>, found: Seq<char> },
    Invalid { at: Seq<char>, key: Seq<char>, reason: Seq<char> },
    Unknown { at: Seq<char>, key: Seq<char> },
    Rule(RuleFault),
}

/// Why a conf was refused.
#[derive(Debug)]
pub enum ConfError {
    /// The file could not be read.
    Io {
        /// Which file.
        path: String,
        /// What the system said.
        reason: String,
    },
    /// The file is not TOML this reader accepts.
    Toml {
        /// Which file.
        path: String,
        /// Where and why.
        source: Error,
    },
    /// A required key is absent.
    Missing {
        /// Section.
        at: String,
        /// Key.
        key: &'static str,
    },
    /// A key holds the wrong kind of value.
    Type {
        /// Section.
        at: String,
        /// Key.
        key: String,
        /// What was wanted.
        expected: &'static str,
        /// What was there.
        found: &'static str,
    },
    /// A key holds a value of the right kind that still cannot be used.
    Invalid {
        /// Section.
        at: String,
        /// Key.
        key: String,
        /// Why not.
        reason: String,
    },
    /// A key this build does not know: most likely a typo.
    Unknown {
        /// Section.
        at: String,
        /// Key.
        key: String,
    },
    /// A rule that spans keys or sections was broken.
    Rule(RuleError),
}

impl View for ConfError {
    type V = ConfFault;

    open spec fn view(&self) -> ConfFault {
        match self {
            ConfError::Io { path, reason } => ConfFault::Io { path: path@, reason: reason@ },
            ConfError::Toml { path, source } => ConfFault::Toml {
                path: path@,
                fault: fault_of(source.kind),
                line: source.line as int,
            },
            ConfError::Missing { at, key } => ConfFault::Missing { at: at@, key: key@ },
            ConfError::Type { at, key, expected, found } => ConfFault::Type {
                at: at@,
                key: key@,
                expected: expected@,
                found: found@,
            },
            ConfError::Invalid { at, key, reason } => ConfFault::Invalid { at: at@, key: key@, reason: reason@ },
            ConfError::Unknown { at, key } => ConfFault::Unknown { at: at@, key: key@ },
            ConfError::Rule(r) => ConfFault::Rule(r@),
        }
    }
}

/// Where a section is, for a message: its name, or `top level` for the
/// root.
pub open spec fn place_text(at: Seq<char>) -> Seq<char> {
    if at.len() == 0 {
        "top level"@
    } else {
        at
    }
}

/// What a conf error says.
pub open spec fn conf_text(e: ConfError) -> Seq<char> {
    match e {
        ConfError::Io { path, reason } => path@ + ": "@ + reason@,
        ConfError::Toml { path, source } => path@ + ": "@ + error_text(source),
        ConfError::Missing { at, key } => place_text(at@) + ": `"@ + key@ + "` is required"@,
        ConfError::Type { at, key, expected, found } => place_text(at@) + ": `"@ + key@ + "` must be "@ + expected@
            + ", found "@ + found@,
        ConfError::Invalid { at, key, reason } => place_text(at@) + ": `"@ + key@ + "` "@ + reason@,
        ConfError::Unknown { at, key } => place_text(at@) + ": unknown key `"@ + key@ + "`"@,
        ConfError::Rule(r) => rule_text(r@),
    }
}

fn place(at: &str) -> (res: &str)
    ensures
        res@ == place_text(at@),
{
    if at.is_empty() {
        "top level"
    } else {
        at
    }
}

impl ConfError {
    /// The error as a sentence, place first.
    pub fn to_string(&self) -> (res: String)
        ensures
            res@ == conf_text(*self),
    {
        let mut s = String::new();
        match self {
            ConfError::Io { path, reason } => {
                s.append(path.as_str());
                s.append(": ");
                s.append(reason.as_str());
            },
            ConfError::Toml { path, source } => {
                s.append(path.as_str());
                s.append(": ");
                let t = source.to_string();
                s.append(t.as_str());
            },
            ConfError::Missing { at, key } => {
                s.append(place(at.as_str()));
                s.append(": `");
                s.append(key);
                s.append("` is required");
            },
            ConfError::Type { at, key, expected, found } => {
                s.append(place(at.as_str()));
                s.append(": `");
                s.append(key.as_str());
                s.append("` must be ");
                s.append(expected);
                s.append(", found ");
                s.append(found);
            },
            ConfError::Invalid { at, key, reason } => {
                s.append(place(at.as_str()));
                s.append(": `");
                s.append(key.as_str());
                s.append("` ");
                s.append(reason.as_str());
            },
            ConfError::Unknown { at, key } => {
                s.append(place(at.as_str()));
                s.append(": unknown key `");
                s.append(key.as_str());
                s.append("`");
            },
            ConfError::Rule(r) => {
                let t = r.to_string();
                s.append(t.as_str());
            },
        }
        assert(s@ =~= conf_text(*self));
        s
    }
}


/// What `Section::optional_str` reads under `key` of the section `at`.
pub open spec fn str_opt(at: Seq<char>, entries: Seq<(Seq<char>, Doc)>, key: Seq<char>) -> Result<Option<Seq<char>>, ConfFault> {
    match lookup(entries, key) {
        None => Ok(None),
        Some(Doc::Str(s)) => Ok(Some(s)),
        Some(d) => Err(ConfFault::Type { at, key, expected: "a string"@, found: doc_label(d) }),
    }
}

/// What `Section::required_str` reads.
pub open spec fn str_req(at: Seq<char>, entries: Seq<(Seq<char>, Doc)>, key: Seq<char>) -> Result<Seq<char>, ConfFault> {
    match str_opt(at, entries, key) {
        Ok(Some(s)) => Ok(s),
        Ok(None) => Err(ConfFault::Missing { at, key }),
        Err(f) => Err(f),
    }
}

/// What `Section::optional_u64` reads.
pub open spec fn u64_opt(at: Seq<char>, entries: Seq<(Seq<char>, Doc)>, key: Seq<char>) -> Result<Option<u64>, ConfFault> {
    match lookup(entries, key) {
        None => Ok(None),
        Some(Doc::Int(n)) => if n >= 0 {
            Ok(Some(n as u64))
        } else {
            Err(ConfFault::Invalid { at, key, reason: "must not be negative"@ })
        },
        Some(d) => Err(ConfFault::Type { at, key, expected: "an integer"@, found: doc_label(d) }),
    }
}

/// What `Section::required_u64` reads.
pub open spec fn u64_req(at: Seq<char>, entries: Seq<(Seq<char>, Doc)>, key: Seq<char>) -> Result<u64, ConfFault> {
    match u64_opt(at, entries, key) {
        Ok(Some(n)) => Ok(n),
        Ok(None) => Err(ConfFault::Missing { at, key }),
        Err(f) => Err(f),
    }
}

/// What `Section::optional_bool` reads.
pub open spec fn bool_opt(at: Seq<char>, entries: Seq<(Seq<char>, Doc)>, key: Seq<char>) -> Result<Option<bool>, ConfFault> {
    match lookup(entries, key) {
        None => Ok(None),
        Some(Doc::Bool(b)) => Ok(Some(b)),
        Some(d) => Err(ConfFault::Type { at, key, expected: "a boolean"@, found: doc_label(d) }),
    }
}

/// What `Section::optional_table` reads.
pub open spec fn table_opt(at: Seq<char>, entries: Seq<(Seq<char>, Doc)>, key: Seq<char>) -> Result<
    Option<Seq<(Seq<char>, Doc)>>,
    ConfFault,
> {
    match lookup(entries, key) {
        None => Ok(None),
        Some(Doc::Tab(inner, _)) => Ok(Some(inner)),
        Some(d) => Err(ConfFault::Type { at, key, expected: "a table"@, found: doc_label(d) }),
    }
}

/// What `Section::required_strs` reads.
pub open spec fn strs_req(at: Seq<char>, entries: Seq<(Seq<char>, Doc)>, key: Seq<char>) -> Result<Seq<Seq<char>>, ConfFault> {
    match lookup(entries, key) {
        None => Err(ConfFault::Missing { at, key }),
        Some(Doc::Arr(items)) => match first_not_str(items, 0) {
            None => Ok(items.map_values(|d: Doc| d->Str_0)),
            Some(i) => Err(ConfFault::Type { at, key, expected: "an array of strings"@, found: doc_label(items[i]) }),
        },
        Some(d) => Err(ConfFault::Type { at, key, expected: "an array of strings"@, found: doc_label(d) }),
    }
}

/// What `Section::required_u16s` reads.
pub open spec fn u16s_req(at: Seq<char>, entries: Seq<(Seq<char>, Doc)>, key: Seq<char>) -> Result<Seq<u16>, ConfFault> {
    match lookup(entries, key) {
        None => Err(ConfFault::Missing { at, key }),
        Some(Doc::Arr(items)) => match first_not_u16(items, 0) {
            None => Ok(items.map_values(|d: Doc| d->Int_0 as u16)),
            Some(i) => Err(
                if items[i] is Int {
                    ConfFault::Invalid { at, key, reason: "out of range"@ }
                } else {
                    ConfFault::Type { at, key, expected: "an array of integers"@, found: doc_label(items[i]) }
                },
            ),
        },
        Some(d) => Err(ConfFault::Type { at, key, expected: "an array of integers"@, found: doc_label(d) }),
    }
}

/// What `Section::tables` reads: the entries of each table.
pub open spec fn tables_of(at: Seq<char>, entries: Seq<(Seq<char>, Doc)>, key: Seq<char>) -> Result<
    Seq<Seq<(Seq<char>, Doc)>>,
    ConfFault,
> {
    match lookup(entries, key) {
        None => Ok(Seq::empty()),
        Some(Doc::Arr(items)) => match first_not_table(items, 0) {
            None => Ok(items.map_values(|d: Doc| d->Tab_0)),
            Some(i) => Err(ConfFault::Type { at, key, expected: "an array of tables"@, found: doc_label(items[i]) }),
        },
        Some(d) => Err(ConfFault::Type { at, key, expected: "an array of tables"@, found: doc_label(d) }),
    }
}

/// What `Section::finish` says of the section `at`: the first key, in file
/// order, that `known` does not list.
pub open spec fn finish_of(at: Seq<char>, entries: Seq<(Seq<char>, Doc)>, known: Seq<Seq<char>>) -> Result<(), ConfFault> {
    match unknown_from(entries, known, 0) {
        None => Ok(()),
        Some(k) => Err(ConfFault::Unknown { at, key: k }),
    }
}

pub open spec fn unknown_from(entries: Seq<(Seq<char>, Doc)>, known: Seq<Seq<char>>, from: int) -> Option<Seq<char>>
    decreases entries.len() - from,
{
    if from < 0 || from >= entries.len() {
        None
    } else if !known.contains(entries[from].0) {
        Some(entries[from].0)
    } else {
        unknown_from(entries, known, from + 1)
    }
}

proof fn lemma_unknown_from(entries: Seq<(Seq<char>, Doc)>, known: Seq<Seq<char>>, from: int)
    requires
        0 <= from,
    ensures
        unknown_from(entries, known, from) is None <==> forall|i: int| from <= i < entries.len() ==> known.contains(
            #[trigger] entries[i].0,
        ),
        unknown_from(entries, known, from) matches Some(k) ==> !known.contains(k) && exists|i: int|
            from <= i < entries.len() && #[trigger] entries[i].0 == k,
    decreases entries.len() - from,
{
    if from < entries.len() {
        lemma_unknown_from(entries, known, from + 1);
    }
}

/// An unknown key is a start-up failure: a section reads clean exactly when
/// every key it holds is one its reader knows, and otherwise the fault names
/// the section and a key it holds that the reader does not know.
pub proof fn law_unknown_key_refused(at: Seq<char>, entries: Seq<(Seq<char>, Doc)>, known: Seq<Seq<char>>)
    ensures
        finish_of(at, entries, known) is Ok <==> forall|i: int| 0 <= i < entries.len() ==> known.contains(
            #[trigger] entries[i].0,
        ),
        finish_of(at, entries, known) matches Err(f) ==> f matches ConfFault::Unknown { at: a, key } && a == at
            && !known.contains(key) && exists|i: int| 0 <= i < entries.len() && #[trigger] entries[i].0 == key,
{
    lemma_unknown_from(entries, known, 0);
}

/// A table with a name, for error messages that say where.
#[derive(Debug, Clone, Copy)]
pub struct Section<'a> {
    /// `feed[hot]`, `health`, or empty for the root.
    pub at: &'a str,
    table: &'a Table,
}

impl<'a> Section<'a> {
    /// The entries of the table.
    pub closed spec fn entries(&self) -> Seq<(Seq<char>, Doc)> {
        self.table.doc_entries()
    }

    /// The table.
    pub closed spec fn tab(&self) -> &'a Table {
        self.table
    }

    /// Where the section is.
    pub closed spec fn name(&self) -> Seq<char> {
        self.at@
    }

    /// Wraps a table under a name.
    pub fn new(at: &'a str, table: &'a Table) -> (res: Section<'a>)
        ensures
            res.name() == at@,
            res.tab() == table,
            res.entries() == table.doc_entries(),
    {
        Section { at, table }
    }

    /// The underlying table.
    pub fn table(&self) -> (res: &'a Table)
        ensures
            res == self.tab(),
            res.doc_entries() == self.entries(),
    {
        self.table
    }

    fn missing(&self, key: &'static str) -> (res: ConfError)
        ensures
            res@ == (ConfFault::Missing { at: self.name(), key: key@ }),
    {
        ConfError::Missing { at: String::from_str(self.at), key }
    }

    fn wrong_type(&self, key: &str, expected: &'static str, found: &Value) -> (res: ConfError)
        ensures
            res@ == (ConfFault::Type { at: self.name(), key: key@, expected: expected@, found: doc_label(found@) }),
    {
        ConfError::Type { at: String::from_str(self.at), key: String::from_str(key), expected, found: found.type_text() }
    }

    /// An error about `key` that is not about its type.
    pub fn invalid(&self, key: &str, reason: &str) -> (res: ConfError)
        ensures
            res@ == (ConfFault::Invalid { at: self.name(), key: key@, reason: reason@ }),
    {
        ConfError::Invalid { at: String::from_str(self.at), key: String::from_str(key), reason: String::from_str(reason) }
    }

    /// `key = "…"`, optional.
    pub fn optional_str(&self, key: &str) -> (res: Result<Option<&'a str>, ConfError>)
        ensures
            match str_opt(self.name(), self.entries(), key@) {
                Ok(None) => res matches Ok(None),
                Ok(Some(t)) => res matches Ok(Some(x)) && x@ == t,
                Err(f) => res matches Err(e) && e@ == f,
            },
    {
        match self.table.get(key) {
            None => Ok(None),
            Some(v) => match v.as_str() {
                Some(x) => Ok(Some(x)),
                None => Err(self.wrong_type(key, "a string", v)),
            },
        }
    }

    /// `key = "…"`, required.
    pub fn required_str(&self, key: &'static str) -> (res: Result<&'a str, ConfError>)
        ensures
            match str_req(self.name(), self.entries(), key@) {
                Ok(t) => res matches Ok(x) && x@ == t,
                Err(f) => res matches Err(e) && e@ == f,
            },
    {
        match self.optional_str(key) {
            Err(e) => Err(e),
            Ok(Some(x)) => Ok(x),
            Ok(None) => Err(self.missing(key)),
        }
    }

    /// `key = 123`, optional, non-negative.
    pub fn optional_u64(&self, key: &str) -> (res: Result<Option<u64>, ConfError>)
        ensures
            match u64_opt(self.name(), self.entries(), key@) {
                Ok(None) => res matches Ok(None),
                Ok(Some(n)) => res matches Ok(Some(x)) && x == n,
                Err(f) => res matches Err(e) && e@ == f,
            },
    {
        match self.table.get(key) {
            None => Ok(None),
            Some(v) => match v.as_integer() {
                Some(n) => {
                    if n >= 0 {
                        Ok(Some(n as u64))
                    } else {
                        Err(self.invalid(key, "must not be negative"))
                    }
                },
                None => Err(self.wrong_type(key, "an integer", v)),
            },
        }
    }

    /// `key = 123`, required, non-negative.
    pub fn required_u64(&self, key: &'static str) -> (res: Result<u64, ConfError>)
        ensures
            match u64_req(self.name(), self.entries(), key@) {
                Ok(n) => res matches Ok(x) && x == n,
                Err(f) => res matches Err(e) && e@ == f,
            },
    {
        match self.optional_u64(key) {
            Err(e) => Err(e),
            Ok(Some(x)) => Ok(x),
            Ok(None) => Err(self.missing(key)),
        }
    }

    /// `key = true`, optional.
    pub fn optional_bool(&self, key: &str) -> (res: Result<Option<bool>, ConfError>)
        ensures
            match bool_opt(self.name(), self.entries(), key@) {
                Ok(b) => res == Ok::<Option<bool>, ConfError>(b),
                Err(f) => res matches Err(e) && e@ == f,
            },
    {
        match self.table.get(key) {
            None => Ok(None),
            Some(v) => match v.as_bool() {
                Some(b) => Ok(Some(b)),
                None => Err(self.wrong_type(key, "a boolean", v)),
            },
        }
    }

    /// `[key]`, optional.
    pub fn optional_table(&self, key: &'a str) -> (res: Result<Option<Section<'a>>, ConfError>)
        ensures
            match table_opt(self.name(), self.entries(), key@) {
                Ok(None) => res matches Ok(None),
                Ok(Some(entries)) => res matches Ok(Some(t)) && t.name() == key@ && t.entries() == entries,
                Err(f) => res matches Err(e) && e@ == f,
            },
    {
        match self.table.get(key) {
            None => Ok(None),
            Some(v) => match v.as_table() {
                Some(t) => Ok(Some(Section::new(key, t))),
                None => Err(self.wrong_type(key, "a table", v)),
            },
        }
    }

    /// `key = ["…", "…"]`, required; whether it may be empty is the
    /// caller's rule.
    pub fn required_strs(&self, key: &'static str) -> (res: Result<Vec<&'a str>, ConfError>)
        ensures
            match strs_req(self.name(), self.entries(), key@) {
                Ok(texts) => res matches Ok(v) && v@.len() == texts.len() && forall|i: int|
                    0 <= i < texts.len() ==> #[trigger] v@[i]@ == texts[i],
                Err(f) => res matches Err(e) && e@ == f,
            },
    {
        let v = match self.table.get(key) {
            None => {
                return Err(self.missing(key));
            },
            Some(v) => v,
        };
        let items = match v.as_array() {
            None => {
                return Err(self.wrong_type(key, "an array of strings", v));
            },
            Some(items) => items,
        };
        let ghost docs = match v@ {
            Doc::Arr(d) => d,
            _ => Seq::empty(),
        };
        proof {
            crate::toml::lemma_array_view(*v);
        }
        let mut out: Vec<&'a str> = Vec::new();
        let mut i: usize = 0;
        while i < items.len()
            invariant
                i <= items@.len(),
                lookup(self.entries(), key@) == Some(Doc::Arr(docs)),
                docs.len() == items@.len(),
                forall|k: int| 0 <= k < items@.len() ==> #[trigger] docs[k] == items@[k]@,
                out@.len() == i,
                forall|k: int| 0 <= k < i ==> #[trigger] docs[k] == Doc::Str(out@[k]@),
                first_not_str(docs, 0) == first_not_str(docs, i as int),
            decreases items@.len() - i,
        {
            let item = &items[i];
            match item.as_str() {
                Some(x) => {
                    out.push(x);
                },
                None => {
                    return Err(self.wrong_type(key, "an array of strings", item));
                },
            }
            i += 1;
        }
        Ok(out)
    }

    /// `key = [1, 2, 3]`, required, each in `u16`.
    pub fn required_u16s(&self, key: &'static str) -> (res: Result<Vec<u16>, ConfError>)
        ensures
            match u16s_req(self.name(), self.entries(), key@) {
                Ok(ns) => res matches Ok(v) && v@ == ns,
                Err(f) => res matches Err(e) && e@ == f,
            },
    {
        let v = match self.table.get(key) {
            None => {
                return Err(self.missing(key));
            },
            Some(v) => v,
        };
        let items = match v.as_array() {
            None => {
                return Err(self.wrong_type(key, "an array of integers", v));
            },
            Some(items) => items,
        };
        let ghost docs = match v@ {
            Doc::Arr(d) => d,
            _ => Seq::empty(),
        };
        proof {
            crate::toml::lemma_array_view(*v);
        }
        let mut out: Vec<u16> = Vec::new();
        let mut i: usize = 0;
        while i < items.len()
            invariant
                i <= items@.len(),
                lookup(self.entries(), key@) == Some(Doc::Arr(docs)),
                docs.len() == items@.len(),
                forall|k: int| 0 <= k < items@.len() ==> #[trigger] docs[k] == items@[k]@,
                out@.len() == i,
                forall|k: int| 0 <= k < i ==> #[trigger] docs[k] == Doc::Int(out@[k] as i64),
                first_not_u16(docs, 0) == first_not_u16(docs, i as int),
            decreases items@.len() - i,
        {
            let item = &items[i];
            match item.as_integer() {
                Some(n) => {
                    if 0 <= n && n <= 65535 {
                        out.push(n as u16);
                    } else {
                        return Err(self.invalid(key, "out of range"));
                    }
                },
                None => {
                    return Err(self.wrong_type(key, "an array of integers", item));
                },
            }
            i += 1;
        }
        Ok(out)
    }

    /// `[[key]]`, zero or more.
    pub fn tables(&self, key: &str) -> (res: Result<Vec<&'a Table>, ConfError>)
        ensures
            match tables_of(self.name(), self.entries(), key@) {
                Ok(ts) => res matches Ok(v) && v@.len() == ts.len() && forall|i: int|
                    0 <= i < ts.len() ==> #[trigger] v@[i].doc_entries() == ts[i],
                Err(f) => res matches Err(e) && e@ == f,
            },
    {
        let v = match self.table.get(key) {
            None => {
                return Ok(Vec::new());
            },
            Some(v) => v,
        };
        let items = match v.as_array() {
            None => {
                return Err(self.wrong_type(key, "an array of tables", v));
            },
            Some(items) => items,
        };
        let ghost docs = match v@ {
            Doc::Arr(d) => d,
            _ => Seq::empty(),
        };
        proof {
            crate::toml::lemma_array_view(*v);
        }
        let mut out: Vec<&'a Table> = Vec::new();
        let mut i: usize = 0;
        while i < items.len()
            invariant
                i <= items@.len(),
                lookup(self.entries(), key@) == Some(Doc::Arr(docs)),
                docs.len() == items@.len(),
                forall|k: int| 0 <= k < items@.len() ==> #[trigger] docs[k] == items@[k]@,
                out@.len() == i,
                forall|k: int| 0 <= k < i ==> #[trigger] docs[k] == out@[k]@,
                first_not_table(docs, 0) == first_not_table(docs, i as int),
            decreases items@.len() - i,
        {
            let item = &items[i];
            match item.as_table() {
                Some(t) => {
                    out.push(t);
                },
                None => {
                    return Err(self.wrong_type(key, "an array of tables", item));
                },
            }
            i += 1;
        }
        Ok(out)
    }

    /// Fails on the first key, in file order, that `known` does not list:
    /// the typo check.
    pub fn finish(&self, known: &[&str]) -> (res: Result<(), ConfError>)
        ensures
            match unknown_from(self.entries(), known@.map_values(|k: &str| k@), 0) {
                None => res is Ok,
                Some(k) => res matches Err(e) && e@ == (ConfFault::Unknown { at: self.name(), key: k }),
            },
    {
        let keys = self.table.keys();
        let ghost names = known@.map_values(|k: &str| k@);
        let mut i: usize = 0;
        while i < keys.len()
            invariant
                i <= keys@.len(),
                keys@.len() == self.entries().len(),
                forall|k: int| 0 <= k < keys@.len() ==> #[trigger] keys@[k]@ == self.entries()[k].0,
                names == known@.map_values(|k: &str| k@),
                unknown_from(self.entries(), names, 0) == unknown_from(self.entries(), names, i as int),
            decreases keys@.len() - i,
        {
            let key = keys[i];
            let mut j: usize = 0;
            let mut listed = false;
            while j < known.len()
                invariant
                    j <= known@.len(),
                    names == known@.map_values(|k: &str| k@),
                    names.len() == known@.len(),
                    listed == exists|m: int| 0 <= m < j && #[trigger] names[m] == key@,
                decreases known@.len() - j,
            {
                assert(names[j as int] == known@[j as int]@);
                if crate::types::str_eq(known[j], key) {
                    listed = true;
                }
                j += 1;
            }
            if !listed {
                return Err(ConfError::Unknown { at: String::from_str(self.at), key: String::from_str(key) });
            }
            i += 1;
        }
        Ok(())
    }
}

/// The first of `items` from `from` on that is not a string.
pub open spec fn first_not_str(items: Seq<Doc>, from: int) -> Option<int>
    decreases items.len() - from,
{
    if from < 0 || from >= items.len() {
        None
    } else if !(items[from] is Str) {
        Some(from)
    } else {
        first_not_str(items, from + 1)
    }
}

/// The first of `items` from `from` on that is not an integer in `u16`.
pub open spec fn first_not_u16(items: Seq<Doc>, from: int) -> Option<int>
    decreases items.len() - from,
{
    if from < 0 || from >= items.len() {
        None
    } else if !(items[from] matches Doc::Int(n) && 0 <= n <= 65535) {
        Some(from)
    } else {
        first_not_u16(items, from + 1)
    }
}

/// The first of `items` from `from` on that is not a table.
pub open spec fn first_not_table(items: Seq<Doc>, from: int) -> Option<int>
    decreases items.len() - from,
{
    if from < 0 || from >= items.len() {
        None
    } else if !(items[from] is Tab) {
        Some(from)
    } else {
        first_not_table(items, from + 1)
    }
}


// ---------------------------------------------------------------------------
// What every feed has
// ---------------------------------------------------------------------------

/// How a feed's thread waits for datagrams.
#[derive(Debug, Clone, Copy, PartialEq, Eq, Structural)]
pub enum Mode {
    /// Polls without sleeping, on one pinned core.
    Spin,
    /// Sleeps in the poll call.
    Block,
}

/// `feed[i]`, or `feed[name]`: how errors name a feed.
pub open spec fn feed_at(label: Seq<char>) -> Seq<char> {
    "feed["@ + label + "]"@
}

/// What `mode` reads as.
pub open spec fn mode_of(at: Seq<char>, entries: Seq<(Seq<char>, Doc)>) -> Result<Mode, ConfFault> {
    match str_req(at, entries, "mode"@) {
        Err(f) => Err(f),
        Ok(t) => if t == "spin"@ {
            Ok(Mode::Spin)
        } else if t == "block"@ {
            Ok(Mode::Block)
        } else {
            Err(
                ConfFault::Invalid {
                    at,
                    key: "mode"@,
                    reason: "must be \"spin\" or \"block\", found \""@ + t + "\""@,
                },
            )
        },
    }
}

/// `feed[label]`.
pub(crate) fn feed_label(label: &str) -> (res: String)
    ensures
        res@ == feed_at(label@),
{
    let mut s = String::from_str("feed[");
    s.append(label);
    s.append("]");
    s
}

/// `feed[i]`.
pub(crate) fn feed_index(i: usize) -> (res: String)
    ensures
        res@ == feed_at(decimal(i as nat)),
{
    let mut s = String::from_str("feed[");
    push_decimal(&mut s, i as u64);
    s.append("]");
    assert(s@ =~= feed_at(decimal(i as nat)));
    s
}

/// `mode`: `"spin"` or `"block"`.
pub(crate) fn read_mode(s: &Section) -> (res: Result<Mode, ConfError>)
    ensures
        match mode_of(s.name(), s.entries()) {
            Ok(m) => res == Ok::<Mode, ConfError>(m),
            Err(f) => res matches Err(e) && e@ == f,
        },
{
    let text = match s.required_str("mode") {
        Err(e) => {
            return Err(e);
        },
        Ok(t) => t,
    };
    if str_eq(text, "spin") {
        Ok(Mode::Spin)
    } else if str_eq(text, "block") {
        Ok(Mode::Block)
    } else {
        let mut reason = String::from_str("must be \"spin\" or \"block\", found \"");
        reason.append(text);
        reason.append("\"");
        Err(s.invalid("mode", reason.as_str()))
    }
}


// ---------------------------------------------------------------------------
// Knobs every feed reads the same way
// ---------------------------------------------------------------------------

/// `key`, at least one and fitting 32 bits, or `dflt` when absent.
pub open spec fn positive_u32_or(at: Seq<char>, entries: Seq<(Seq<char>, Doc)>, key: Seq<char>, dflt: u32) -> Result<u32, ConfFault> {
    match u64_opt(at, entries, key) {
        Err(f) => Err(f),
        Ok(None) => Ok(dflt),
        Ok(Some(n)) => if n == 0 {
            Err(ConfFault::Invalid { at, key, reason: "must be at least 1"@ })
        } else if n <= u32::MAX {
            Ok(n as u32)
        } else {
            Err(ConfFault::Invalid { at, key, reason: "is too large"@ })
        },
    }
}

/// `key`, at least one, or `dflt` when absent.
pub open spec fn positive_u64_or(at: Seq<char>, entries: Seq<(Seq<char>, Doc)>, key: Seq<char>, dflt: u64) -> Result<u64, ConfFault> {
    match u64_opt(at, entries, key) {
        Err(f) => Err(f),
        Ok(None) => Ok(dflt),
        Ok(Some(n)) => if n == 0 {
            Err(ConfFault::Invalid { at, key, reason: "must be at least 1"@ })
        } else {
            Ok(n)
        },
    }
}

/// `key`, fitting 32 bits, or `dflt` when absent.
pub open spec fn u32_or(at: Seq<char>, entries: Seq<(Seq<char>, Doc)>, key: Seq<char>, dflt: u32) -> Result<u32, ConfFault> {
    match u64_opt(at, entries, key) {
        Err(f) => Err(f),
        Ok(None) => Ok(dflt),
        Ok(Some(n)) => if n <= u32::MAX {
            Ok(n as u32)
        } else {
            Err(ConfFault::Invalid { at, key, reason: "is too large"@ })
        },
    }
}

/// `key`: a count of decimals, `0..=8`, required.
pub open spec fn decimals_of(at: Seq<char>, entries: Seq<(Seq<char>, Doc)>, key: Seq<char>) -> Result<usize, ConfFault> {
    match u64_req(at, entries, key) {
        Err(f) => Err(f),
        Ok(n) => if n <= 8 {
            Ok(n as usize)
        } else {
            Err(ConfFault::Invalid { at, key, reason: "must be 0..=8"@ })
        },
    }
}

/// `names`, separated by a comma and a space.
pub open spec fn comma_joined(names: Seq<Seq<char>>) -> Seq<char>
    decreases names.len(),
{
    if names.len() == 0 {
        Seq::empty()
    } else if names.len() == 1 {
        names[0]
    } else {
        comma_joined(names.drop_last()) + ", "@ + names.last()
    }
}

impl<'a> Section<'a> {
    /// `key`, at least one and fitting 32 bits, or `dflt` when absent.
    pub fn positive_u32_or(&self, key: &str, dflt: u32) -> (res: Result<u32, ConfError>)
        ensures
            match positive_u32_or(self.name(), self.entries(), key@, dflt) {
                Ok(n) => res == Ok::<u32, ConfError>(n),
                Err(f) => res matches Err(e) && e@ == f,
            },
    {
        match self.optional_u64(key) {
            Err(e) => Err(e),
            Ok(None) => Ok(dflt),
            Ok(Some(n)) => {
                if n == 0 {
                    Err(self.invalid(key, "must be at least 1"))
                } else if n <= 0xffff_ffff {
                    Ok(n as u32)
                } else {
                    Err(self.invalid(key, "is too large"))
                }
            },
        }
    }

    /// `key`, at least one, or `dflt` when absent.
    pub fn positive_u64_or(&self, key: &str, dflt: u64) -> (res: Result<u64, ConfError>)
        ensures
            match positive_u64_or(self.name(), self.entries(), key@, dflt) {
                Ok(n) => res == Ok::<u64, ConfError>(n),
                Err(f) => res matches Err(e) && e@ == f,
            },
    {
        match self.optional_u64(key) {
            Err(e) => Err(e),
            Ok(None) => Ok(dflt),
            Ok(Some(n)) => {
                if n == 0 {
                    Err(self.invalid(key, "must be at least 1"))
                } else {
                    Ok(n)
                }
            },
        }
    }

    /// `key`, fitting 32 bits, or `dflt` when absent.
    pub fn u32_or(&self, key: &str, dflt: u32) -> (res: Result<u32, ConfError>)
        ensures
            match u32_or(self.name(), self.entries(), key@, dflt) {
                Ok(n) => res == Ok::<u32, ConfError>(n),
                Err(f) => res matches Err(e) && e@ == f,
            },
    {
        match self.optional_u64(key) {
            Err(e) => Err(e),
            Ok(None) => Ok(dflt),
            Ok(Some(n)) => {
                if n <= 0xffff_ffff {
                    Ok(n as u32)
                } else {
                    Err(self.invalid(key, "is too large"))
                }
            },
        }
    }

    /// `key`: a count of decimals, `0..=8`, required.
    pub fn decimals(&self, key: &'static str) -> (res: Result<usize, ConfError>)
        ensures
            match decimals_of(self.name(), self.entries(), key@) {
                Ok(n) => res == Ok::<usize, ConfError>(n),
                Err(f) => res matches Err(e) && e@ == f,
            },
    {
        match self.required_u64(key) {
            Err(e) => Err(e),
            Ok(n) => {
                if n <= 8 {
                    Ok(n as usize)
                } else {
                    Err(self.invalid(key, "must be 0..=8"))
                }
            },
        }
    }
}

/// Appends `names`, separated by a comma and a space.
pub(crate) fn push_comma_joined(s: &mut String, names: &[&str])
    ensures
        final(s)@ == old(s)@ + comma_joined(names@.map_values(|n: &str| n@)),
{
    let ghost ns = names@.map_values(|n: &str| n@);
    let mut i: usize = 0;
    while i < names.len()
        invariant
            i <= names@.len(),
            ns == names@.map_values(|n: &str| n@),
            s@ == old(s)@ + comma_joined(ns.subrange(0, i as int)),
        decreases names@.len() - i,
    {
        proof {
            let sub = ns.subrange(0, i + 1);
            assert(sub.drop_last() =~= ns.subrange(0, i as int));
            assert(sub.last() == names@[i as int]@);
            if i == 0 {
                assert(ns.subrange(0, 0) =~= Seq::<Seq<char>>::empty());
            }
        }
        if i > 0 {
            s.append(", ");
        }
        s.append(names[i]);
        i += 1;
    }
    assert(ns.subrange(0, ns.len() as int) =~= ns);
}


// ---------------------------------------------------------------------------
// The sections every conf has
// ---------------------------------------------------------------------------

/// `[health]`, as `Health::from_section` reads it.
pub open spec fn health_of(root: Seq<(Seq<char>, Doc)>) -> Result<Health, ConfFault> {
    match table_opt(Seq::empty(), root, "health"@) {
        Err(f) => Err(f),
        Ok(None) => Ok(Health { heartbeat_ns: 100_000_000, stale_ns: 500_000_000 }),
        Ok(Some(entries)) => match u64_opt("health"@, entries, "heartbeat_ms"@) {
            Err(f) => Err(f),
            Ok(h) => match u64_opt("health"@, entries, "stale_ms"@) {
                Err(f) => Err(f),
                Ok(s) => match finish_of("health"@, entries, seq!["heartbeat_ms"@, "stale_ms"@]) {
                    Err(f) => Err(f),
                    Ok(()) => Ok(
                        Health {
                            heartbeat_ns: match h {
                                Some(ms) => (ms * 1_000_000) as u64,
                                None => 100_000_000,
                            },
                            stale_ns: match s {
                                Some(ms) => (ms * 1_000_000) as u64,
                                None => 500_000_000,
                            },
                        },
                    ),
                },
            },
        },
    }
}

/// `[log] report_secs`, ten when absent.
pub open spec fn report_secs_of(root: Seq<(Seq<char>, Doc)>) -> Result<u64, ConfFault> {
    match table_opt(Seq::empty(), root, "log"@) {
        Err(f) => Err(f),
        Ok(None) => Ok(10),
        Ok(Some(entries)) => match u64_opt("log"@, entries, "report_secs"@) {
            Err(f) => Err(f),
            Ok(secs) => match finish_of("log"@, entries, seq!["report_secs"@]) {
                Err(f) => Err(f),
                Ok(()) => Ok(
                    match secs {
                        Some(n) => n,
                        None => 10,
                    },
                ),
            },
        },
    }
}

/// The health section's milliseconds, where it has them, fit nanoseconds.
pub open spec fn health_fits(root: Seq<(Seq<char>, Doc)>) -> bool {
    table_opt(Seq::empty(), root, "health"@) matches Ok(Some(entries)) ==> {
        &&& (lookup(entries, "heartbeat_ms"@) matches Some(Doc::Int(n)) ==> n <= u64::MAX / 1_000_000)
        &&& (lookup(entries, "stale_ms"@) matches Some(Doc::Int(n)) ==> n <= u64::MAX / 1_000_000)
    }
}


/// `[log] report_secs` of the root section.
pub(crate) fn read_report_secs(root: &Section) -> (res: Result<u64, ConfError>)
    requires
        root.name() == Seq::<char>::empty(),
    ensures
        match report_secs_of(root.entries()) {
            Ok(n) => res == Ok::<u64, ConfError>(n),
            Err(f) => res matches Err(e) && e@ == f,
        },
{
    proof {
        reveal_strlit("log");
    }
    match root.optional_table("log") {
        Err(e) => Err(e),
        Ok(None) => Ok(10),
        Ok(Some(l)) => {
            let secs = match l.optional_u64("report_secs") {
                Err(e) => {
                    return Err(e);
                },
                Ok(None) => 10,
                Ok(Some(n)) => n,
            };
            let known: [&str; 1] = ["report_secs"];
            assert(known@.map_values(|k: &str| k@) =~= seq!["report_secs"@]);
            match l.finish(known.as_slice()) {
                Err(e) => Err(e),
                Ok(()) => Ok(secs),
            }
        },
    }
}

} // verus!
