//! The generated table of every trcode the two KRX standards name.
//!
//! Only what start-up validation reads is kept: which codes exist, and
//! which interface each maps to. A code in the conf that this table does
//! not know is probably a typo and possibly a product the standard has not
//! caught up with, so the caller warns and runs.
use vstd::prelude::*;
use vstd::string::{StringExecFns, StringSliceAdditionalSpecFns};
use vstd::utf8::encode_utf8;

use crate::conf::{ConfError, ConfFault, Section};
use crate::toml::grammar::{Doc, doc_label, lookup};
use crate::toml::Table;

verus! {

/// A trcode: the five bytes that open a KRX message.
pub type Code = [u8; 5];

/// The trcode table.
#[derive(Debug, Clone, PartialEq, Eq)]
pub struct TrCodeTable {
    /// `spec_version`: the information-distribution standard the table was
    /// generated from.
    pub spec_version: String,
    /// `channel_spec_version`: the sending-channel standard.
    pub channel_spec_version: String,
    /// trcode and interface id, from `[code]`, in file order.
    codes: Vec<(Code, String)>,
    /// trcodes from `[code_by_channel]`: known, but their interface depends
    /// on which circuit they arrive on.
    by_channel: Vec<Code>,
}

/// The interface a `[code]` entry names: its `interface` string, or empty
/// when there is none or it is not a string.
pub open spec fn interface_text(d: Doc) -> Seq<char> {
    match d {
        Doc::Tab(entries, _) => match lookup(entries, "interface"@) {
            Some(Doc::Str(s)) => s,
            _ => Seq::empty(),
        },
        _ => Seq::empty(),
    }
}

/// The fault for a key of the section `at` that is not five bytes long.
pub open spec fn not_a_trcode(at: Seq<char>, key: Seq<char>) -> ConfFault {
    ConfFault::Invalid { at, key, reason: "is not a five-byte trcode"@ }
}

/// The codes and interfaces of the `[code]` entries from `from` on.
pub open spec fn code_list(entries: Seq<(Seq<char>, Doc)>, from: int) -> Result<Seq<(Seq<u8>, Seq<char>)>, ConfFault>
    decreases entries.len() - from,
{
    if from < 0 || from >= entries.len() {
        Ok(Seq::empty())
    } else if encode_utf8(entries[from].0).len() != 5 {
        Err(not_a_trcode("code"@, entries[from].0))
    } else {
        match code_list(entries, from + 1) {
            Ok(rest) => Ok(seq![(encode_utf8(entries[from].0), interface_text(entries[from].1))] + rest),
            Err(f) => Err(f),
        }
    }
}

/// The codes of the `[code_by_channel]` entries from `from` on.
pub open spec fn channel_list(entries: Seq<(Seq<char>, Doc)>, from: int) -> Result<Seq<Seq<u8>>, ConfFault>
    decreases entries.len() - from,
{
    if from < 0 || from >= entries.len() {
        Ok(Seq::empty())
    } else if encode_utf8(entries[from].0).len() != 5 {
        Err(not_a_trcode("code_by_channel"@, entries[from].0))
    } else {
        match channel_list(entries, from + 1) {
            Ok(rest) => Ok(seq![encode_utf8(entries[from].0)] + rest),
            Err(f) => Err(f),
        }
    }
}

/// What an optional string under `key` of the root reads as.
pub open spec fn root_str(root: Seq<(Seq<char>, Doc)>, key: Seq<char>) -> Result<Seq<char>, ConfFault> {
    match lookup(root, key) {
        None => Ok(Seq::empty()),
        Some(Doc::Str(s)) => Ok(s),
        Some(d) => Err(ConfFault::Type { at: Seq::empty(), key, expected: "a string"@, found: doc_label(d) }),
    }
}

/// The entries of an optional table under `key` of the root; none when it
/// is absent.
pub open spec fn root_table(root: Seq<(Seq<char>, Doc)>, key: Seq<char>) -> Result<Seq<(Seq<char>, Doc)>, ConfFault> {
    match lookup(root, key) {
        None => Ok(Seq::empty()),
        Some(Doc::Tab(entries, _)) => Ok(entries),
        Some(d) => Err(ConfFault::Type { at: Seq::empty(), key, expected: "a table"@, found: doc_label(d) }),
    }
}

/// What a trcode table reads as: its two versions, its `[code]` entries and
/// its `[code_by_channel]` codes, or the first fault.
pub open spec fn trcode_table(root: Seq<(Seq<char>, Doc)>) -> Result<
    (Seq<char>, Seq<char>, Seq<(Seq<u8>, Seq<char>)>, Seq<Seq<u8>>),
    ConfFault,
> {
    match root_str(root, "spec_version"@) {
        Err(f) => Err(f),
        Ok(version) => match root_str(root, "channel_spec_version"@) {
            Err(f) => Err(f),
            Ok(channel_version) => match root_table(root, "code"@) {
                Err(f) => Err(f),
                Ok(code) => match code_list(code, 0) {
                    Err(f) => Err(f),
                    Ok(codes) => match root_table(root, "code_by_channel"@) {
                        Err(f) => Err(f),
                        Ok(by_channel) => match channel_list(by_channel, 0) {
                            Err(f) => Err(f),
                            Ok(channels) => Ok((version, channel_version, codes, channels)),
                        },
                    },
                },
            },
        },
    }
}

/// The five bytes of `key`, if it is five bytes long.
pub(crate) fn five_bytes(key: &str) -> (res: Option<Code>)
    ensures
        encode_utf8(key@).len() == 5 ==> (res matches Some(c) && c@ == encode_utf8(key@)),
        encode_utf8(key@).len() != 5 ==> res is None,
{
    let b = key.as_bytes();
    if b.len() != 5 {
        return None;
    }
    let c: Code = [b[0], b[1], b[2], b[3], b[4]];
    assert(c@ =~= b@);
    Some(c)
}

fn same_code(a: &Code, b: &Code) -> (res: bool)
    ensures
        res == (a@ == b@),
{
    let r = a[0] == b[0] && a[1] == b[1] && a[2] == b[2] && a[3] == b[3] && a[4] == b[4];
    if r {
        assert(a@ =~= b@);
    } else {
        assert(a@ != b@) by {
            if a@ == b@ {
                assert(a@[0] == b@[0] && a@[1] == b@[1] && a@[2] == b@[2] && a@[3] == b@[3] && a@[4] == b@[4]);
            }
        }
    }
    r
}

impl TrCodeTable {
    /// The `[code]` entries: each code's bytes and its interface.
    pub closed spec fn code_entries(&self) -> Seq<(Seq<u8>, Seq<char>)> {
        self.codes@.map_values(|e: (Code, String)| (e.0@, e.1@))
    }

    /// `spec_version`.
    pub closed spec fn version(&self) -> Seq<char> {
        self.spec_version@
    }

    /// `channel_spec_version`.
    pub closed spec fn channel_version(&self) -> Seq<char> {
        self.channel_spec_version@
    }

    /// The `[code_by_channel]` codes.
    pub closed spec fn channel_codes(&self) -> Seq<Seq<u8>> {
        self.by_channel@.map_values(|c: Code| c@)
    }

    /// Reads the table from parsed TOML.
    pub fn from_table(table: &Table) -> (res: Result<TrCodeTable, ConfError>)
        ensures
            match trcode_table(table.doc_entries()) {
                Ok((version, channel_version, codes, channels)) => res matches Ok(t) && t.version() == version
                    && t.channel_version() == channel_version && t.code_entries() == codes && t.channel_codes()
                    == channels,
                Err(f) => res matches Err(e) && e@ == f,
            },
    {
        let root = Section::new("", table);
        proof {
            reveal_strlit("");
            reveal_strlit("code");
            reveal_strlit("code_by_channel");
        }
        assert(root.name() =~= Seq::<char>::empty());
        assert(root.entries() == table.doc_entries());
        let spec_version = match root.optional_str("spec_version") {
            Err(e) => {
                assert(root_str(table.doc_entries(), "spec_version"@) is Err);
                assert(trcode_table(table.doc_entries()) is Err);
                return Err(e);
            },
            Ok(None) => String::new(),
            Ok(Some(s)) => String::from_str(s),
        };
        let channel_spec_version = match root.optional_str("channel_spec_version") {
            Err(e) => {
                return Err(e);
            },
            Ok(None) => String::new(),
            Ok(Some(s)) => String::from_str(s),
        };
        let mut codes: Vec<(Code, String)> = Vec::new();
        match root.optional_table("code") {
            Err(e) => {
                return Err(e);
            },
            Ok(None) => {
                assert(codes@.map_values(|e: (Code, String)| (e.0@, e.1@)) =~= Seq::<(Seq<u8>, Seq<char>)>::empty());
            },
            Ok(Some(section)) => {
                let entries = section.table().iter();
                let ghost d = section.entries();
                let mut i: usize = 0;
                while i < entries.len()
                    invariant
                        i <= entries@.len(),
                        entries@.len() == d.len(),
                        forall|k: int| 0 <= k < d.len() ==> #[trigger] entries@[k].0@ == d[k].0 && entries@[k].1@ == d[k].1,
                        code_list(d, 0) matches Ok(all) ==> (code_list(d, i as int) matches Ok(rest) && all
                            == codes@.map_values(|e: (Code, String)| (e.0@, e.1@)) + rest),
                        code_list(d, 0) is Err ==> code_list(d, 0) == code_list(d, i as int),
                        section.name() == "code"@,
                        root_str(table.doc_entries(), "spec_version"@) == Ok::<Seq<char>, ConfFault>(spec_version@),
                        root_str(table.doc_entries(), "channel_spec_version"@) == Ok::<Seq<char>, ConfFault>(
                            channel_spec_version@,
                        ),
                        root_table(table.doc_entries(), "code"@) == Ok::<Seq<(Seq<char>, Doc)>, ConfFault>(d),
                    decreases entries@.len() - i,
                {
                    let (key, value) = entries[i];
                    let code = match five_bytes(key) {
                        None => {
                            return Err(section.invalid(key, "is not a five-byte trcode"));
                        },
                        Some(c) => c,
                    };
                    let interface = match value.as_table() {
                        Some(t) => match Section::new(key, t).optional_str("interface") {
                            Ok(Some(s)) => String::from_str(s),
                            _ => String::new(),
                        },
                        None => String::new(),
                    };
                    proof {
                        reveal_strlit("interface");
                        assert(interface@ == interface_text(d[i as int].1));
                        let before = codes@.map_values(|e: (Code, String)| (e.0@, e.1@));
                        assert(codes@.push((code, interface)).map_values(|e: (Code, String)| (e.0@, e.1@))
                            =~= before.push((code@, interface@)));
                    }
                    codes.push((code, interface));
                    i += 1;
                }
                proof {
                    let v = codes@.map_values(|e: (Code, String)| (e.0@, e.1@));
                    assert(v + Seq::<(Seq<u8>, Seq<char>)>::empty() =~= v);
                    if code_list(d, 0) is Err {
                        assert(code_list(d, i as int) is Ok);
                    }
                }
            },
        }
        let mut by_channel: Vec<Code> = Vec::new();
        match root.optional_table("code_by_channel") {
            Err(e) => {
                return Err(e);
            },
            Ok(None) => {
                assert(by_channel@.map_values(|c: Code| c@) =~= Seq::<Seq<u8>>::empty());
            },
            Ok(Some(section)) => {
                let keys = section.table().keys();
                let ghost d = section.entries();
                let mut i: usize = 0;
                while i < keys.len()
                    invariant
                        i <= keys@.len(),
                        keys@.len() == d.len(),
                        forall|k: int| 0 <= k < d.len() ==> #[trigger] keys@[k]@ == d[k].0,
                        channel_list(d, 0) matches Ok(all) ==> (channel_list(d, i as int) matches Ok(rest) && all
                            == by_channel@.map_values(|c: Code| c@) + rest),
                        channel_list(d, 0) is Err ==> channel_list(d, 0) == channel_list(d, i as int),
                        section.name() == "code_by_channel"@,
                        root_str(table.doc_entries(), "spec_version"@) == Ok::<Seq<char>, ConfFault>(spec_version@),
                        root_str(table.doc_entries(), "channel_spec_version"@) == Ok::<Seq<char>, ConfFault>(
                            channel_spec_version@,
                        ),
                        root_table(table.doc_entries(), "code"@) matches Ok(c) && code_list(c, 0) == Ok::<
                            Seq<(Seq<u8>, Seq<char>)>,
                            ConfFault,
                        >(codes@.map_values(|e: (Code, String)| (e.0@, e.1@))),
                        root_table(table.doc_entries(), "code_by_channel"@) == Ok::<Seq<(Seq<char>, Doc)>, ConfFault>(d),
                    decreases keys@.len() - i,
                {
                    let key = keys[i];
                    let code = match five_bytes(key) {
                        None => {
                            return Err(section.invalid(key, "is not a five-byte trcode"));
                        },
                        Some(c) => c,
                    };
                    proof {
                        let before = by_channel@.map_values(|c: Code| c@);
                        assert(by_channel@.push(code).map_values(|c: Code| c@) =~= before.push(code@));
                    }
                    by_channel.push(code);
                    i += 1;
                }
                proof {
                    let v = by_channel@.map_values(|c: Code| c@);
                    assert(v + Seq::<Seq<u8>>::empty() =~= v);
                    if channel_list(d, 0) is Err {
                        assert(channel_list(d, i as int) is Ok);
                    }
                }
            },
        }
        Ok(TrCodeTable { spec_version, channel_spec_version, codes, by_channel })
    }

    /// `true` if either standard names `code`.
    pub fn knows(&self, code: Code) -> (res: bool)
        ensures
            res == ((exists|i: int| 0 <= i < self.code_entries().len() && #[trigger] self.code_entries()[i].0 == code@)
                || self.channel_codes().contains(code@)),
    {
        let mut i: usize = 0;
        while i < self.codes.len()
            invariant
                i <= self.codes@.len(),
                self.code_entries().len() == self.codes@.len(),
                forall|k: int| 0 <= k < i ==> #[trigger] self.code_entries()[k].0 != code@,
            decreases self.codes@.len() - i,
        {
            assert(self.code_entries()[i as int].0 == self.codes@[i as int].0@);
            if same_code(&self.codes[i].0, &code) {
                return true;
            }
            i += 1;
        }
        let mut j: usize = 0;
        while j < self.by_channel.len()
            invariant
                j <= self.by_channel@.len(),
                self.code_entries().len() == self.codes@.len(),
                forall|k: int| 0 <= k < self.code_entries().len() ==> #[trigger] self.code_entries()[k].0 != code@,
                self.channel_codes().len() == self.by_channel@.len(),
                forall|k: int| 0 <= k < j ==> #[trigger] self.channel_codes()[k] != code@,
            decreases self.by_channel@.len() - j,
        {
            assert(self.channel_codes()[j as int] == self.by_channel@[j as int]@);
            if same_code(&self.by_channel[j], &code) {
                return true;
            }
            j += 1;
        }
        false
    }

    /// The interface id for `code`, when it is one fixed interface.
    pub fn interface_of(&self, code: Code) -> (res: Option<&str>)
        ensures
            match res {
                Some(s) => exists|i: int|
                    0 <= i < self.code_entries().len() && #[trigger] self.code_entries()[i] == (code@, s@),
                None => forall|i: int| 0 <= i < self.code_entries().len() ==> #[trigger] self.code_entries()[i].0 != code@,
            },
    {
        let mut i: usize = 0;
        while i < self.codes.len()
            invariant
                i <= self.codes@.len(),
                self.code_entries().len() == self.codes@.len(),
                forall|k: int| 0 <= k < i ==> #[trigger] self.code_entries()[k].0 != code@,
            decreases self.codes@.len() - i,
        {
            assert(self.code_entries()[i as int] == (self.codes@[i as int].0@, self.codes@[i as int].1@));
            if same_code(&self.codes[i].0, &code) {
                return Some(self.codes[i].1.as_str());
            }
            i += 1;
        }
        None
    }

    /// Codes in `[code]`.
    pub fn len(&self) -> (res: usize)
        ensures
            res == self.code_entries().len(),
    {
        self.codes.len()
    }

    /// The codes of `[code]`, in file order.
    pub fn codes(&self) -> (res: Vec<Code>)
        ensures
            res@.map_values(|c: Code| c@) == self.code_entries().map_values(|e: (Seq<u8>, Seq<char>)| e.0),
    {
        let mut out: Vec<Code> = Vec::new();
        let mut i: usize = 0;
        while i < self.codes.len()
            invariant
                i <= self.codes@.len(),
                out@.len() == i,
                forall|k: int| 0 <= k < i ==> #[trigger] out@[k]@ == self.codes@[k].0@,
            decreases self.codes@.len() - i,
        {
            out.push(self.codes[i].0);
            i += 1;
        }
        assert(out@.map_values(|c: Code| c@) =~= self.code_entries().map_values(|e: (Seq<u8>, Seq<char>)| e.0));
        out
    }

    /// `true` if `[code]` is empty.
    pub fn is_empty(&self) -> (res: bool)
        ensures
            res == (self.code_entries().len() == 0),
    {
        self.codes.len() == 0
    }
}

} // verus!
