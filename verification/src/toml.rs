//! A reader for the subset of TOML the handler's conf files are written in.
//!
//! Tables, arrays of tables, inline tables, dotted keys, basic and literal
//! strings, integers, floats, booleans, and arrays with comments and
//! newlines inside them. Multi-line strings, dates and times are refused by
//! name rather than misread.
//!
//! A [`Table`] is an ordered list of `(key, Value)` pairs: the conf's
//! `[[feed]]` order is the order feeds are started and reported in, and an
//! error that names "the second feed" means the second one in the file.
//!
//! A float is kept as the literal the file wrote, its underscores removed:
//! this reader checks that it is one and leaves reading its value to the
//! caller that wants it.
pub mod grammar;

use vstd::prelude::*;
use vstd::string::{StringExecFns, StringSliceAdditionalSpecFns};

use crate::cpu::next_byte;
use crate::text::{ascii_text, decimal, push_ascii, push_char, push_decimal};
use crate::types::str_eq;
use self::grammar::{
    Act, Doc, Fault, all_tables, doc_label, array_from, basic_at, basic_from, blank_end, comment_end, descend,
    digit_value, digits_value, document, all_digits, unsigned_part, header_at, assignment_at,
    lemma_header_bounds, lemma_assignment_bounds, escape_digits, find, float_ok, inline_from, int_in, is_alnum,
    is_bare, is_digit, is_hex, is_scalar_byte, is_scalar_value, is_ws, join_keys, key_at, key_path_at,
    key_path_from, lemma_blank_end_bounds, lemma_comment_end_bounds, lemma_escape_digits_bounds,
    lemma_find_facts, lemma_key_at_bounds, lemma_key_path_bounds, lemma_line_end_bounds, lemma_newlines_step,
    lemma_run_end_bounds, lemma_value_bounds, line_at, line_end, literal_at, literal_end, lossy_text, number_of,
    perform, put_path, run_end, scalar_at, simple_escape, statements_from, utf8_len, value_at,
    without_underscores, ws_end,
};

verus! {

/// `String::from_utf8_lossy`, made an owned `String`: the bytes read as
/// UTF-8, each invalid sequence replaced by U+FFFD. The contract only
/// names the result; what it holds for given bytes is std's to say.
#[verifier::external_body]
pub(crate) fn lossy_string(bytes: &[u8]) -> (res: String)
    ensures
        res@ == lossy_text(bytes@),
{
    String::from_utf8_lossy(bytes).into_owned()
}

/// A TOML value.
#[derive(Debug, PartialEq)]
pub enum Value {
    /// A basic or literal string.
    String(String),
    /// A decimal, hex, octal or binary integer.
    Integer(i64),
    /// A float, as written without its underscores.
    Float(String),
    /// `true` or `false`.
    Boolean(bool),
    /// `[…]`, or the accumulation of `[[…]]` headers.
    Array(Vec<Value>),
    /// `[…]` header, `{…}` inline, or the implicit parent of a dotted key.
    Table(Table),
}

/// An ordered map from key to [`Value`].
#[derive(Debug, PartialEq)]
pub struct Table {
    entries: Vec<(String, Value)>,
    /// `true` once a `[header]` or an inline `{…}` has named this table
    /// explicitly. A table that exists only because a dotted key or a deeper
    /// header passed through it may still be defined by a later header; one
    /// defined twice is an error.
    defined: bool,
}

impl Value {
    /// The string, if this is one.
    pub fn as_str(&self) -> (res: Option<&str>)
        ensures
            match self {
                Value::String(s) => res matches Some(x) && x@ == s@,
                _ => res is None,
            },
    {
        match self {
            Value::String(s) => Some(s.as_str()),
            _ => None,
        }
    }

    /// The integer, if this is one.
    pub fn as_integer(&self) -> (res: Option<i64>)
        ensures
            res == (match self {
                Value::Integer(n) => Some(*n),
                _ => None,
            }),
    {
        match self {
            Value::Integer(n) => Some(*n),
            _ => None,
        }
    }

    /// The float's literal, if this is one. An integer is not one: a conf
    /// that says `1` where `1.0` was meant should say so.
    pub fn as_float_text(&self) -> (res: Option<&str>)
        ensures
            match self {
                Value::Float(s) => res matches Some(x) && x@ == s@,
                _ => res is None,
            },
    {
        match self {
            Value::Float(s) => Some(s.as_str()),
            _ => None,
        }
    }

    /// The boolean, if this is one.
    pub fn as_bool(&self) -> (res: Option<bool>)
        ensures
            res == (match self {
                Value::Boolean(b) => Some(*b),
                _ => None,
            }),
    {
        match self {
            Value::Boolean(b) => Some(*b),
            _ => None,
        }
    }

    /// The array, if this is one.
    pub fn as_array(&self) -> (res: Option<&[Value]>)
        ensures
            match self {
                Value::Array(a) => res matches Some(x) && x@ == a@,
                _ => res is None,
            },
    {
        match self {
            Value::Array(a) => Some(a.as_slice()),
            _ => None,
        }
    }

    /// The table, if this is one.
    pub fn as_table(&self) -> (res: Option<&Table>)
        ensures
            match self {
                Value::Table(t) => res == Some(t),
                _ => res is None,
            },
    {
        match self {
            Value::Table(t) => Some(t),
            _ => None,
        }
    }

    /// What kind of value this is, for error messages.
    pub fn type_text(&self) -> (res: &'static str)
        ensures
            res@ == doc_label(self@),
    {
        match self {
            Value::String(_) => "string",
            Value::Integer(_) => "integer",
            Value::Float(_) => "float",
            Value::Boolean(_) => "boolean",
            Value::Array(_) => "array",
            Value::Table(_) => "table",
        }
    }
}

/// The values of `items`.
pub closed spec fn items_doc(items: Seq<Value>) -> Seq<Doc>
    decreases items, 0nat,
{
    Seq::new(items.len(), |i: int| if 0 <= i < items.len() { value_doc(items[i]) } else { Doc::Bool(false) })
}

/// The keys and values of `entries`.
pub closed spec fn entries_doc(entries: Seq<(String, Value)>) -> Seq<(Seq<char>, Doc)>
    decreases entries, 0nat,
{
    Seq::new(
        entries.len(),
        |i: int| if 0 <= i < entries.len() { (entries[i].0@, value_doc(entries[i].1)) } else { (Seq::empty(), Doc::Bool(false)) },
    )
}

/// What a value holds.
pub open spec fn value_doc(v: Value) -> Doc
    decreases v, 0nat,
{
    match v {
        Value::String(s) => Doc::Str(s@),
        Value::Integer(n) => Doc::Int(n),
        Value::Float(s) => Doc::Float(s@),
        Value::Boolean(b) => Doc::Bool(b),
        Value::Array(items) => Doc::Arr(items_doc(items@)),
        Value::Table(t) => table_doc(t),
    }
}

/// What a table holds.
pub open spec fn table_doc(t: Table) -> Doc
    decreases t, 1nat,
{
    Doc::Tab(t.doc_entries(), t.is_defined())
}

impl View for Value {
    type V = Doc;

    open spec fn view(&self) -> Doc {
        value_doc(*self)
    }
}

impl View for Table {
    type V = Doc;

    open spec fn view(&self) -> Doc {
        table_doc(*self)
    }
}

/// The keys of `path`.
pub open spec fn keys_of(path: Seq<String>) -> Seq<Seq<char>> {
    path.map_values(|k: String| k@)
}

/// What an array value holds is what its items hold, one for one.
pub proof fn lemma_array_view(v: Value)
    ensures
        v matches Value::Array(items) ==> v@ matches Doc::Arr(docs) && docs.len() == items@.len() && forall|k: int|
            0 <= k < items@.len() ==> #[trigger] docs[k] == items@[k]@,
{
}

proof fn lemma_items_push(items: Seq<Value>, v: Value)
    ensures
        items_doc(items.push(v)) == items_doc(items).push(value_doc(v)),
        items_doc(items).len() == items.len(),
{
    assert(items_doc(items.push(v)) =~= items_doc(items).push(value_doc(v)));
}

proof fn lemma_items_index(items: Seq<Value>, i: int)
    requires
        0 <= i < items.len(),
    ensures
        items_doc(items)[i] == value_doc(items[i]),
        items_doc(items).len() == items.len(),
{
}

proof fn lemma_items_pop(items: Seq<Value>)
    requires
        items.len() > 0,
    ensures
        items_doc(items.drop_last()) == items_doc(items).drop_last(),
        items_doc(items).last() == value_doc(items.last()),
{
    assert(items_doc(items.drop_last()) =~= items_doc(items).drop_last());
}

proof fn lemma_entries_push(entries: Seq<(String, Value)>, e: (String, Value))
    ensures
        entries_doc(entries.push(e)) == entries_doc(entries).push((e.0@, value_doc(e.1))),
        entries_doc(entries).len() == entries.len(),
{
    assert(entries_doc(entries.push(e)) =~= entries_doc(entries).push((e.0@, value_doc(e.1))));
}

proof fn lemma_entries_index(entries: Seq<(String, Value)>, i: int)
    requires
        0 <= i < entries.len(),
    ensures
        entries_doc(entries)[i] == (entries[i].0@, value_doc(entries[i].1)),
        entries_doc(entries).len() == entries.len(),
{
}

proof fn lemma_entries_replace(entries: Seq<(String, Value)>, i: int, e: (String, Value))
    requires
        0 <= i < entries.len(),
    ensures
        entries_doc(entries.remove(i).insert(i, e)) == entries_doc(entries).update(i, (e.0@, value_doc(e.1))),
{
    assert(entries_doc(entries.remove(i).insert(i, e)) =~= entries_doc(entries).update(i, (e.0@, value_doc(e.1))));
}

impl Table {
    /// The keys and values, in file order.
    pub closed spec fn doc_entries(&self) -> Seq<(Seq<char>, Doc)>
        decreases self, 0nat,
    {
        entries_doc(self.entries@)
    }

    /// Whether a header or an inline table has named this table.
    pub closed spec fn is_defined(&self) -> bool {
        self.defined
    }

    /// An empty table.
    pub fn new() -> (res: Table)
        ensures
            res.doc_entries() == Seq::<(Seq<char>, Doc)>::empty(),
            !res.is_defined(),
    {
        let res = Table { entries: Vec::new(), defined: false };
        assert(res.doc_entries() =~= Seq::<(Seq<char>, Doc)>::empty());
        res
    }

    /// An empty table that a header or an inline table names.
    fn named() -> (res: Table)
        ensures
            res@ == Doc::Tab(Seq::empty(), true),
    {
        let res = Table { entries: Vec::new(), defined: true };
        assert(res.doc_entries() =~= Seq::<(Seq<char>, Doc)>::empty());
        res
    }

    /// The index of the entry under `key`, if any.
    fn position(&self, key: &str) -> (res: Option<usize>)
        ensures
            res matches Some(i) ==> i < self.entries@.len() && find(self.doc_entries(), key@) == Some(i as int)
                && self.entries@[i as int].0@ == key@,
            res is None ==> find(self.doc_entries(), key@) is None,
            self.doc_entries().len() == self.entries@.len(),
    {
        let ghost d = self.doc_entries();
        proof {
            lemma_find_facts(d, key@);
            lemma_entries_push(self.entries@, arbitrary());
        }
        let mut i: usize = 0;
        while i < self.entries.len()
            invariant
                i <= self.entries@.len(),
                d == entries_doc(self.entries@),
                d == self.doc_entries(),
                d.len() == self.entries@.len(),
                forall|k: int| 0 <= k < i ==> d[k].0 != key@,
                find(d, key@) matches Some(j) ==> 0 <= j < d.len() && d[j].0 == key@ && forall|k: int|
                    0 <= k < j ==> d[k].0 != key@,
                find(d, key@) is None ==> forall|k: int| 0 <= k < d.len() ==> d[k].0 != key@,
            decreases self.entries@.len() - i,
        {
            proof {
                lemma_entries_index(self.entries@, i as int);
            }
            if str_eq(self.entries[i].0.as_str(), key) {
                return Some(i);
            }
            i += 1;
        }
        None
    }

    /// The value under `key`, if any.
    pub fn get(&self, key: &str) -> (res: Option<&Value>)
        ensures
            match find(self.doc_entries(), key@) {
                Some(i) => res matches Some(v) && v@ == self.doc_entries()[i].1,
                None => res is None,
            },
    {
        match self.position(key) {
            Some(i) => {
                proof {
                    lemma_entries_index(self.entries@, i as int);
                }
                Some(&self.entries[i].1)
            },
            None => None,
        }
    }

    /// `true` if `key` is present.
    pub fn contains(&self, key: &str) -> (res: bool)
        ensures
            res == find(self.doc_entries(), key@) is Some,
    {
        self.position(key).is_some()
    }

    /// The keys, in file order.
    pub fn keys(&self) -> (res: Vec<&str>)
        ensures
            res@.len() == self.doc_entries().len(),
            forall|i: int| 0 <= i < res@.len() ==> #[trigger] res@[i]@ == self.doc_entries()[i].0,
    {
        let mut out: Vec<&str> = Vec::new();
        let mut i: usize = 0;
        proof {
            lemma_entries_push(self.entries@, arbitrary());
        }
        while i < self.entries.len()
            invariant
                i <= self.entries@.len(),
                self.doc_entries() == entries_doc(self.entries@),
                self.doc_entries().len() == self.entries@.len(),
                out@.len() == i,
                forall|k: int| 0 <= k < i ==> #[trigger] out@[k]@ == self.doc_entries()[k].0,
            decreases self.entries@.len() - i,
        {
            proof {
                lemma_entries_index(self.entries@, i as int);
            }
            out.push(self.entries[i].0.as_str());
            i += 1;
        }
        out
    }

    /// The entries, in file order.
    pub fn iter(&self) -> (res: Vec<(&str, &Value)>)
        ensures
            res@.len() == self.doc_entries().len(),
            forall|i: int| 0 <= i < res@.len() ==> #[trigger] res@[i].0@ == self.doc_entries()[i].0 && res@[i].1@ == self.doc_entries()[i].1,
    {
        let mut out: Vec<(&str, &Value)> = Vec::new();
        let mut i: usize = 0;
        proof {
            lemma_entries_push(self.entries@, arbitrary());
        }
        while i < self.entries.len()
            invariant
                i <= self.entries@.len(),
                self.doc_entries() == entries_doc(self.entries@),
                self.doc_entries().len() == self.entries@.len(),
                out@.len() == i,
                forall|k: int| 0 <= k < i ==> #[trigger] out@[k].0@ == self.doc_entries()[k].0 && out@[k].1@ == self.doc_entries()[k].1,
            decreases self.entries@.len() - i,
        {
            proof {
                lemma_entries_index(self.entries@, i as int);
            }
            let e = &self.entries[i];
            out.push((e.0.as_str(), &e.1));
            i += 1;
        }
        out
    }

    /// Number of entries.
    pub fn len(&self) -> (res: usize)
        ensures
            res == self.doc_entries().len(),
    {
        proof {
            lemma_entries_push(self.entries@, arbitrary());
        }
        self.entries.len()
    }

    /// `true` if there are no entries.
    pub fn is_empty(&self) -> (res: bool)
        ensures
            res == (self.doc_entries().len() == 0),
    {
        proof {
            lemma_entries_push(self.entries@, arbitrary());
        }
        self.entries.len() == 0
    }
}

/// What went wrong.
#[derive(Debug, Clone, PartialEq, Eq)]
pub enum ErrorKind {
    /// Something else was expected here.
    Expected(&'static str),
    /// A string or an array ran to the end of its line or the file.
    Unterminated(&'static str),
    /// An escape sequence in a basic string was not one TOML defines.
    BadEscape,
    /// A number could not be read as one.
    BadNumber(String),
    /// A key was assigned twice, or a header opened the same table twice.
    Duplicate(String),
    /// A key was used as a table, or as an array of tables, and is neither.
    NotATable(String),
    /// Valid TOML this reader does not implement.
    Unsupported(&'static str),
}

/// Where in the file an [`Error`] was found, and what it was.
#[derive(Debug, Clone, PartialEq, Eq)]
pub struct Error {
    /// One-based line number.
    pub line: usize,
    /// What went wrong.
    pub kind: ErrorKind,
}

/// What an error says.
pub open spec fn error_text(e: Error) -> Seq<char> {
    "line "@ + decimal(e.line as nat) + ": "@ + match e.kind {
        ErrorKind::Expected(what) => "expected "@ + what@,
        ErrorKind::Unterminated(what) => "unterminated "@ + what@,
        ErrorKind::BadEscape => "unknown escape sequence"@,
        ErrorKind::BadNumber(s) => "not a number: `"@ + s@ + "`"@,
        ErrorKind::Duplicate(k) => "`"@ + k@ + "` is defined twice"@,
        ErrorKind::NotATable(k) => "`"@ + k@ + "` is not a table"@,
        ErrorKind::Unsupported(what) => what@ + " is not supported by this reader"@,
    }
}

/// What an error kind says, as plain values.
pub open spec fn fault_of(k: ErrorKind) -> Fault {
    match k {
        ErrorKind::Expected(what) => Fault::Expected(what@),
        ErrorKind::Unterminated(what) => Fault::Unterminated(what@),
        ErrorKind::BadEscape => Fault::BadEscape,
        ErrorKind::BadNumber(s) => Fault::BadNumber(s@),
        ErrorKind::Duplicate(k) => Fault::Duplicate(k@),
        ErrorKind::NotATable(k) => Fault::NotATable(k@),
        ErrorKind::Unsupported(what) => Fault::Unsupported(what@),
    }
}

/// `e` reports the fault `f` on its line.
pub open spec fn is_fault(e: Error, f: (Fault, int)) -> bool {
    fault_of(e.kind) == f.0 && e.line == f.1
}

impl Error {
    /// The error as a sentence, line first.
    pub fn to_string(&self) -> (res: String)
        ensures
            res@ == error_text(*self),
    {
        let mut s = String::new();
        s.append("line ");
        push_decimal(&mut s, self.line as u64);
        s.append(": ");
        match &self.kind {
            ErrorKind::Expected(what) => {
                s.append("expected ");
                s.append(what);
            },
            ErrorKind::Unterminated(what) => {
                s.append("unterminated ");
                s.append(what);
            },
            ErrorKind::BadEscape => {
                s.append("unknown escape sequence");
            },
            ErrorKind::BadNumber(t) => {
                s.append("not a number: `");
                s.append(t.as_str());
                s.append("`");
            },
            ErrorKind::Duplicate(k) => {
                s.append("`");
                s.append(k.as_str());
                s.append("` is defined twice");
            },
            ErrorKind::NotATable(k) => {
                s.append("`");
                s.append(k.as_str());
                s.append("` is not a table");
            },
            ErrorKind::Unsupported(what) => {
                s.append(what);
                s.append(" is not supported by this reader");
            },
        }
        assert(s@ =~= error_text(*self));
        s
    }
}

// ---------------------------------------------------------------------------
// Reading bytes
// ---------------------------------------------------------------------------

/// A cursor over the bytes of a document, with the line it is on.
struct Parser<'a> {
    src: &'a [u8],
    pos: usize,
    line: usize,
}

impl<'a> Parser<'a> {
    #[verifier::type_invariant]
    spec fn tracks(&self) -> bool {
        &&& self.src@.len() < usize::MAX
        &&& self.pos <= self.src@.len()
        &&& self.line == line_at(self.src@, self.pos as int)
    }

    spec fn at(&self) -> int {
        self.pos as int
    }

    spec fn text(&self) -> Seq<u8> {
        self.src@
    }

    fn start(src: &'a [u8]) -> (res: Parser<'a>)
        requires
            src@.len() < usize::MAX,
        ensures
            res.text() == src@,
            res.at() == 0,
    {
        assert(src@.subrange(0, 0) =~= Seq::<u8>::empty());
        Parser { src, pos: 0, line: 1 }
    }

    fn peek(&self) -> (res: Option<u8>)
        ensures
            res == (if self.at() < self.text().len() { Some(self.text()[self.at()]) } else { None::<u8> }),
    {
        proof {
            use_type_invariant(self);
        }
        if self.pos < self.src.len() {
            Some(self.src[self.pos])
        } else {
            None
        }
    }

    fn peek_at(&self, ahead: usize) -> (res: Option<u8>)
        ensures
            res == (if self.at() + ahead < self.text().len() {
                Some(self.text()[self.at() + ahead])
            } else {
                None::<u8>
            }),
    {
        proof {
            use_type_invariant(self);
        }
        if ahead < self.src.len() - self.pos {
            Some(self.src[self.pos + ahead])
        } else {
            None
        }
    }

    fn bump(&mut self) -> (res: Option<u8>)
        ensures
            final(self).text() == old(self).text(),
            res == (if old(self).at() < old(self).text().len() {
                Some(old(self).text()[old(self).at()])
            } else {
                None::<u8>
            }),
            final(self).at() == (if old(self).at() < old(self).text().len() { old(self).at() + 1 } else { old(self).at() }),
    {
        proof {
            use_type_invariant(&*self);
        }
        if self.pos >= self.src.len() {
            return None;
        }
        let b = self.src[self.pos];
        proof {
            lemma_newlines_step(self.src@, self.pos as int);
        }
        let line = if b == 10 { self.line + 1 } else { self.line };
        *self = Parser { src: self.src, pos: self.pos + 1, line };
        Some(b)
    }

    fn err(&self, kind: ErrorKind) -> (res: Error)
        ensures
            res.line == line_at(self.text(), self.at()),
            res.kind == kind,
    {
        proof {
            use_type_invariant(self);
        }
        Error { line: self.line, kind }
    }

    fn expect(&mut self, b: u8, what: &'static str) -> (res: Result<(), Error>)
        ensures
            final(self).text() == old(self).text(),
            old(self).at() < old(self).text().len() && old(self).text()[old(self).at()] == b ==> res is Ok
                && final(self).at() == old(self).at() + 1,
            !(old(self).at() < old(self).text().len() && old(self).text()[old(self).at()] == b) ==> (res matches Err(e)
                && is_fault(e, (Fault::Expected(what@), line_at(old(self).text(), old(self).at())))),
    {
        proof {
            use_type_invariant(&*self);
        }
        if self.peek() == Some(b) {
            self.bump();
            Ok(())
        } else {
            Err(self.err(ErrorKind::Expected(what)))
        }
    }

    /// Spaces and tabs.
    fn skip_ws(&mut self)
        ensures
            final(self).text() == old(self).text(),
            final(self).at() == ws_end(old(self).text(), old(self).at()),
    {
        proof {
            use_type_invariant(&*self);
        }
        loop
            invariant
                self.text() == old(self).text(),
                old(self).at() <= self.at() <= self.text().len(),
                ws_end(old(self).text(), old(self).at()) == ws_end(self.text(), self.at()),
            decreases self.text().len() - self.at(),
        {
            proof {
                use_type_invariant(&*self);
            }
            let ws = match self.peek() {
                Some(b) => b == 32 || b == 9,
                None => false,
            };
            if !ws {
                return;
            }
            self.bump();
        }
    }

    /// A `# …` comment up to, not including, the newline.
    fn skip_comment(&mut self)
        ensures
            final(self).text() == old(self).text(),
            final(self).at() == comment_end(old(self).text(), old(self).at()),
    {
        proof {
            use_type_invariant(&*self);
        }
        if self.peek() == Some(35) {
            loop
                invariant
                    self.text() == old(self).text(),
                    old(self).at() < self.text().len(),
                    old(self).text()[old(self).at()] == 35,
                    old(self).at() <= self.at() <= self.text().len(),
                    next_byte(self.text(), 10, old(self).at()) == next_byte(self.text(), 10, self.at()),
                decreases self.text().len() - self.at(),
            {
                proof {
                    use_type_invariant(&*self);
                }
                match self.peek() {
                    None => {
                        return;
                    },
                    Some(b) => {
                        if b == 10 {
                            return;
                        }
                        self.bump();
                    },
                }
            }
        }
    }

    /// Whitespace, comments and newlines: between statements, and inside
    /// arrays.
    fn skip_blank(&mut self)
        ensures
            final(self).text() == old(self).text(),
            final(self).at() == blank_end(old(self).text(), old(self).at()),
    {
        proof {
            use_type_invariant(&*self);
        }
        loop
            invariant
                self.text() == old(self).text(),
                0 <= self.at() <= self.text().len(),
                blank_end(old(self).text(), old(self).at()) == blank_end(self.text(), self.at()),
            decreases self.text().len() - self.at(),
        {
            proof {
                use_type_invariant(&*self);
                lemma_run_end_bounds(self.text(), self.at(), |b: u8| is_ws(b));
                lemma_comment_end_bounds(self.text(), ws_end(self.text(), self.at()));
            }
            let ghost p = self.at();
            self.skip_ws();
            self.skip_comment();
            match self.peek() {
                Some(10) => {
                    self.bump();
                },
                Some(13) => {
                    if self.peek_at(1) == Some(10) {
                        self.bump();
                        self.bump();
                    } else {
                        return;
                    }
                },
                _ => {
                    return;
                },
            }
        }
    }

    /// The rest of a statement line: whitespace, an optional comment, then a
    /// newline or the end of the file.
    fn expect_eol(&mut self) -> (res: Result<(), Error>)
        ensures
            final(self).text() == old(self).text(),
            match line_end(old(self).text(), old(self).at()) {
                Ok(q) => res is Ok && final(self).at() == q,
                Err(q) => res matches Err(e) && is_fault(e, (Fault::Expected("end of line"@), line_at(old(self).text(), q))),
            },
    {
        proof {
            use_type_invariant(&*self);
            lemma_run_end_bounds(self.text(), self.at(), |b: u8| is_ws(b));
            lemma_comment_end_bounds(self.text(), ws_end(self.text(), self.at()));
        }
        self.skip_ws();
        self.skip_comment();
        match self.peek() {
            None => Ok(()),
            Some(10) => {
                self.bump();
                Ok(())
            },
            Some(13) => {
                if self.peek_at(1) == Some(10) {
                    self.bump();
                    self.bump();
                    Ok(())
                } else {
                    Err(self.err(ErrorKind::Expected("end of line")))
                }
            },
            Some(_) => Err(self.err(ErrorKind::Expected("end of line"))),
        }
    }
}


/// `char::from_u32`: the character whose code is `code`, if `code` is a
/// Unicode scalar value.
#[verifier::external_body]
fn char_from_code(code: u32) -> (res: Option<char>)
    ensures
        is_scalar_value(code as nat) ==> res == Some(code as char),
        !is_scalar_value(code as nat) ==> res is None,
{
    char::from_u32(code)
}

/// Sixteen to the power `k`.
pub open spec fn pow16(k: nat) -> nat
    decreases k,
{
    if k == 0 {
        1
    } else {
        16 * pow16((k - 1) as nat)
    }
}

proof fn lemma_pow16_mono(a: nat, b: nat)
    requires
        a <= b,
    ensures
        1 <= pow16(a) <= pow16(b),
    decreases b,
{
    if a < b {
        lemma_pow16_mono(a, (b - 1) as nat);
    } else if a > 0 {
        lemma_pow16_mono((a - 1) as nat, (a - 1) as nat);
    }
}

proof fn lemma_pow16_step(k: nat, code: nat, d: nat, digits: nat)
    requires
        k < digits <= 8,
        code < pow16(k),
        d < 16,
    ensures
        code * 16 + d < pow16(k + 1),
        pow16(k + 1) <= 0x1_0000_0000,
{
    let p = pow16(k);
    assert(pow16(k + 1) == 16 * p);
    assert(code * 16 + d < 16 * p) by (nonlinear_arith)
        requires
            code < p,
            d < 16,
    ;
    lemma_pow16_mono(k + 1, 8);
    reveal_with_fuel(pow16, 9);
    assert(pow16(8) == 0x1_0000_0000);
}

fn bare_byte(b: u8) -> (res: bool)
    ensures
        res == is_bare(b),
{
    (48 <= b && b <= 57) || (65 <= b && b <= 90) || (97 <= b && b <= 122) || b == 95 || b == 45
}

fn alnum_byte(b: u8) -> (res: bool)
    ensures
        res == is_alnum(b),
{
    (48 <= b && b <= 57) || (65 <= b && b <= 90) || (97 <= b && b <= 122)
}

fn scalar_byte(b: u8) -> (res: bool)
    ensures
        res == is_scalar_byte(b),
{
    alnum_byte(b) || b == 43 || b == 45 || b == 95 || b == 46 || b == 58
}

/// The value of a hex digit, if `b` is one.
fn hex_value(b: u8) -> (res: Option<u32>)
    ensures
        is_hex(b) ==> res == Some(digit_value(b) as u32),
        !is_hex(b) ==> res is None,
{
    if 48 <= b && b <= 57 {
        Some((b - 48) as u32)
    } else if 97 <= b && b <= 102 {
        Some((b - 87) as u32)
    } else if 65 <= b && b <= 70 {
        Some((b - 55) as u32)
    } else {
        None
    }
}

fn escape_char(b: u8) -> (res: Option<char>)
    ensures
        res == simple_escape(b),
{
    if b == 98 {
        Some('\u{8}')
    } else if b == 116 {
        Some('\t')
    } else if b == 110 {
        Some('\n')
    } else if b == 102 {
        Some('\u{c}')
    } else if b == 114 {
        Some('\r')
    } else if b == 34 {
        Some('"')
    } else if b == 92 {
        Some('\\')
    } else {
        None
    }
}

fn utf8_width(b: u8) -> (res: usize)
    ensures
        res == utf8_len(b),
{
    if b < 0x80 {
        1
    } else if 0xC0 <= b && b <= 0xDF {
        2
    } else if 0xE0 <= b && b <= 0xEF {
        3
    } else {
        4
    }
}


fn contains_byte(s: &[u8], b: u8) -> (res: bool)
    ensures
        res == s@.contains(b),
{
    let mut i: usize = 0;
    while i < s.len()
        invariant
            i <= s@.len(),
            forall|k: int| 0 <= k < i ==> s@[k] != b,
        decreases s@.len() - i,
    {
        if s[i] == b {
            return true;
        }
        i += 1;
    }
    false
}

fn bytes_eq(a: &[u8], b: &[u8]) -> (res: bool)
    ensures
        res == (a@ == b@),
{
    if a.len() != b.len() {
        return false;
    }
    let mut i: usize = 0;
    while i < a.len()
        invariant
            a@.len() == b@.len(),
            i <= a@.len(),
            forall|k: int| 0 <= k < i ==> a@[k] == b@[k],
        decreases a@.len() - i,
    {
        if a[i] != b[i] {
            return false;
        }
        i += 1;
    }
    assert(a@ =~= b@);
    true
}

/// `s` without its underscores.
fn strip_underscores(s: &[u8]) -> (res: Vec<u8>)
    ensures
        res@ == without_underscores(s@),
{
    let mut out: Vec<u8> = Vec::new();
    let mut i: usize = 0;
    assert(s@.subrange(0, 0) =~= Seq::<u8>::empty());
    while i < s.len()
        invariant
            i <= s@.len(),
            out@ == without_underscores(s@.subrange(0, i as int)),
        decreases s@.len() - i,
    {
        assert(s@.subrange(0, i + 1).drop_last() =~= s@.subrange(0, i as int));
        if s[i] != 95 {
            out.push(s[i]);
        }
        i += 1;
    }
    assert(s@.subrange(0, s@.len() as int) =~= s@);
    out
}

/// Past the decimal digits from `from`.
fn digits_end(s: &[u8], from: usize) -> (res: usize)
    requires
        from <= s@.len(),
    ensures
        res == run_end(s@, from as int, |b: u8| is_digit(b)),
        from <= res <= s@.len(),
{
    let mut i = from;
    while i < s.len() && 48 <= s[i] && s[i] <= 57
        invariant
            from <= i <= s@.len(),
            run_end(s@, from as int, |b: u8| is_digit(b)) == run_end(s@, i as int, |b: u8| is_digit(b)),
        decreases s@.len() - i,
    {
        i += 1;
    }
    i
}

proof fn lemma_digits_prefix(s: Seq<u8>, k: int, radix: int)
    requires
        0 <= k <= s.len(),
        radix >= 2,
    ensures
        0 <= digits_value(s.subrange(0, k), radix) <= digits_value(s, radix),
    decreases s.len(),
{
    if k < s.len() {
        lemma_digits_prefix(s.drop_last(), k, radix);
        assert(s.drop_last().subrange(0, k) =~= s.subrange(0, k));
        let x = digits_value(s.drop_last(), radix);
        assert(x * radix >= x) by (nonlinear_arith)
            requires
                x >= 0,
                radix >= 2,
        ;
    } else {
        assert(s.subrange(0, k) =~= s);
        if s.len() > 0 {
            lemma_digits_prefix(s.drop_last(), 0, radix);
            let x = digits_value(s.drop_last(), radix);
            assert(x * radix >= 0) by (nonlinear_arith)
                requires
                    x >= 0,
                    radix >= 2,
            ;
        }
    }
}

/// What `i64::from_str_radix` reads from `s`.
fn int_value(s: &[u8], radix: u32) -> (res: Option<i64>)
    requires
        radix == 2 || radix == 8 || radix == 10 || radix == 16,
    ensures
        res == int_in(s@, radix as int),
{
    if s.len() == 0 {
        return None;
    }
    let signed = s[0] == 43 || s[0] == 45;
    let neg = s[0] == 45;
    let start: usize = if signed { 1 } else { 0 };
    let ghost body = unsigned_part(s@);
    assert(body =~= s@.subrange(start as int, s@.len() as int));
    if start == s.len() {
        return None;
    }
    let mut acc: u128 = 0;
    let mut k: usize = start;
    assert(body.subrange(0, 0) =~= Seq::<u8>::empty());
    while k < s.len()
        invariant
            start <= k <= s@.len(),
            body == s@.subrange(start as int, s@.len() as int),
            body == unsigned_part(s@),
            acc == digits_value(body.subrange(0, k - start), radix as int),
            acc <= 0x8000_0000_0000_0000,
            forall|j: int| 0 <= j < k - start ==> digit_value(#[trigger] body[j]) < radix,
            radix == 2 || radix == 8 || radix == 10 || radix == 16,
        decreases s@.len() - k,
    {
        let b = s[k];
        let d: u32 = if 48 <= b && b <= 57 {
            (b - 48) as u32
        } else if 97 <= b && b <= 122 {
            (b - 87) as u32
        } else if 65 <= b && b <= 90 {
            (b - 55) as u32
        } else {
            36
        };
        assert(body[k - start] == b);
        if d >= radix {
            assert(!(digit_value(body[k - start]) < radix));
            return None;
        }
        assert(body.subrange(0, k - start + 1).drop_last() =~= body.subrange(0, k - start));
        assert(acc * (radix as u128) <= 0x8000_0000_0000_0000 * 16) by (nonlinear_arith)
            requires
                acc <= 0x8000_0000_0000_0000,
                radix <= 16,
        ;
        acc = acc * (radix as u128) + (d as u128);
        if acc > 0x8000_0000_0000_0000 {
            proof {
                if all_digits(body, radix as int) {
                    lemma_digits_prefix(body, k - start + 1, radix as int);
                }
            }
            return None;
        }
        k += 1;
    }
    assert(body.subrange(0, body.len() as int) =~= body);
    if neg {
        Some((0i128 - (acc as i128)) as i64)
    } else if acc <= 0x7FFF_FFFF_FFFF_FFFF {
        Some(acc as i64)
    } else {
        None
    }
}

/// What `f64`'s `FromStr` accepts of `s`, but for infinities and NaN.
fn float_text(s: &[u8]) -> (res: bool)
    ensures
        res == float_ok(s@),
{
    let n = s.len();
    let a: usize = if n > 0 && (s[0] == 43 || s[0] == 45) { 1 } else { 0 };
    let d1 = digits_end(s, a);
    let dotted = d1 < n && s[d1] == 46;
    let e = if dotted { digits_end(s, d1 + 1) } else { d1 };
    let mantissa = d1 > a || (dotted && e > d1 + 1);
    if !mantissa {
        return false;
    }
    if e == n {
        return true;
    }
    if !(s[e] == 101 || s[e] == 69) {
        return false;
    }
    let f: usize = if e + 1 < n && (s[e + 1] == 43 || s[e + 1] == 45) { e + 2 } else { e + 1 };
    let g = digits_end(s, f);
    g > f && g == n
}

/// A number from its underscore-free text.
fn number(c: &[u8]) -> (res: Option<Value>)
    ensures
        match number_of(c@) {
            Some(d) => res matches Some(v) && v@ == d,
            None => res is None,
        },
{
    let two = c.len() >= 2 && c[0] == 48;
    let radix: u32 = if two && c[1] == 120 {
        16
    } else if two && c[1] == 111 {
        8
    } else if two && c[1] == 98 {
        2
    } else {
        0
    };
    if radix != 0 {
        assert(c@.skip(2) == c@.subrange(2, c@.len() as int));
        return match int_value(&c[2..c.len()], radix) {
            Some(n) => Some(Value::Integer(n)),
            None => None,
        };
    }
    if contains_byte(c, 46) || contains_byte(c, 101) || contains_byte(c, 69) {
        if float_text(c) {
            let mut t = String::new();
            push_ascii(&mut t, c);
            assert(t@ =~= ascii_text(c@));
            Some(Value::Float(t))
        } else {
            None
        }
    } else {
        match int_value(c, 10) {
            Some(n) => Some(Value::Integer(n)),
            None => None,
        }
    }
}

/// What a header or an assignment does to the table its path leads to.
enum Action {
    Open,
    OpenArray,
    Put(Value),
}

spec fn act_of(a: Action) -> Act {
    match a {
        Action::Open => Act::Open,
        Action::OpenArray => Act::OpenArray,
        Action::Put(v) => Act::Put(v@),
    }
}

/// The keys joined by dots.
fn join_path(keys: &[String]) -> (res: String)
    ensures
        res@ == join_keys(keys_of(keys@)),
{
    let mut out = String::new();
    let mut i: usize = 0;
    let ghost ks = keys_of(keys@);
    assert(ks.subrange(0, 0) =~= Seq::<Seq<char>>::empty());
    while i < keys.len()
        invariant
            i <= keys@.len(),
            ks == keys_of(keys@),
            ks.len() == keys@.len(),
            out@ == join_keys(ks.subrange(0, i as int)),
        decreases keys@.len() - i,
    {
        let ghost before = ks.subrange(0, i as int);
        assert(ks.subrange(0, i + 1).drop_last() =~= before);
        assert(ks.subrange(0, i + 1).last() == keys@[i as int]@);
        if i > 0 {
            out.append(".");
            proof {
                reveal_strlit(".");
            }
        } else {
            assert(out@ =~= Seq::<char>::empty());
        }
        out.append(keys[i].as_str());
        proof {
            if i == 0 {
                assert(out@ =~= ks.subrange(0, 1)[0]);
            }
        }
        i += 1;
    }
    assert(ks.subrange(0, keys@.len() as int) =~= ks);
    out
}

/// Every item is a table.
fn every_item_a_table(items: &Vec<Value>) -> (res: bool)
    ensures
        res == all_tables(items_doc(items@)),
{
    let mut i: usize = 0;
    while i < items.len()
        invariant
            i <= items@.len(),
            forall|k: int| 0 <= k < i ==> #[trigger] items_doc(items@)[k] is Tab,
        decreases items@.len() - i,
    {
        proof {
            lemma_items_index(items@, i as int);
        }
        let is_table = match &items[i] {
            Value::Table(_) => true,
            _ => false,
        };
        if !is_table {
            return false;
        }
        i += 1;
    }
    proof {
        lemma_items_push(items@, arbitrary());
    }
    true
}

/// Does `act` under the key `last` of `t`, whose header or assignment
/// names it `name`.
fn perform_at(t: &mut Table, last: &String, name: &[String], act: Action, line: usize) -> (res: Result<(), Error>)
    ensures
        match perform(old(t).doc_entries(), last@, join_keys(keys_of(name@)), act_of(act), line as int) {
            Ok(e) => res is Ok && final(t).doc_entries() == e && final(t).is_defined() == old(t).is_defined(),
            Err(f) => res matches Err(x) && is_fault(x, f),
        },
{
    let found = t.position(last.as_str());
    proof {
        lemma_entries_push(t.entries@, arbitrary());
    }
    match act {
        Action::Put(v) => match found {
            None => {
                let k = last.clone();
                proof {
                    lemma_entries_push(t.entries@, (k, v));
                }
                t.entries.push((k, v));
                Ok(())
            },
            Some(_) => Err(Error { line, kind: ErrorKind::Duplicate(join_path(name)) }),
        },
        Action::Open => match found {
            None => {
                let fresh = Table::named();
                let k = last.clone();
                proof {
                    lemma_entries_push(t.entries@, (k, Value::Table(fresh)));
                }
                t.entries.push((k, Value::Table(fresh)));
                Ok(())
            },
            Some(i) => {
                proof {
                    lemma_entries_index(t.entries@, i as int);
                }
                let ghost before = t.entries@;
                let (k, v) = t.entries.remove(i);
                match v {
                    Value::Table(mut inner) => {
                        if inner.defined {
                            t.entries.insert(i, (k, Value::Table(inner)));
                            Err(Error { line, kind: ErrorKind::Duplicate(join_path(name)) })
                        } else {
                            inner.defined = true;
                            assert(inner.doc_entries() == old(t).doc_entries()[i as int].1->Tab_0);
                            proof {
                                lemma_entries_replace(before, i as int, (k, Value::Table(inner)));
                            }
                            t.entries.insert(i, (k, Value::Table(inner)));
                            Ok(())
                        }
                    },
                    other => {
                        t.entries.insert(i, (k, other));
                        Err(Error { line, kind: ErrorKind::NotATable(join_path(name)) })
                    },
                }
            },
        },
        Action::OpenArray => match found {
            None => {
                let mut items: Vec<Value> = Vec::new();
                let fresh = Table::named();
                proof {
                    lemma_items_push(items@, Value::Table(fresh));
                    assert(items_doc(items@) =~= Seq::<Doc>::empty());
                }
                items.push(Value::Table(fresh));
                assert(items_doc(items@) =~= seq![Doc::Tab(Seq::empty(), true)]);
                let k = last.clone();
                proof {
                    lemma_entries_push(t.entries@, (k, Value::Array(items)));
                }
                t.entries.push((k, Value::Array(items)));
                Ok(())
            },
            Some(i) => {
                proof {
                    lemma_entries_index(t.entries@, i as int);
                }
                let ghost before = t.entries@;
                let (k, v) = t.entries.remove(i);
                match v {
                    Value::Array(mut items) => {
                        if every_item_a_table(&items) {
                            let fresh = Table::named();
                            proof {
                                lemma_items_push(items@, Value::Table(fresh));
                            }
                            items.push(Value::Table(fresh));
                            proof {
                                lemma_entries_replace(before, i as int, (k, Value::Array(items)));
                            }
                            t.entries.insert(i, (k, Value::Array(items)));
                            Ok(())
                        } else {
                            t.entries.insert(i, (k, Value::Array(items)));
                            Err(Error { line, kind: ErrorKind::NotATable(join_path(name)) })
                        }
                    },
                    other => {
                        t.entries.insert(i, (k, other));
                        Err(Error { line, kind: ErrorKind::NotATable(join_path(name)) })
                    },
                }
            },
        },
    }
}

/// Walks `keys` from `from` on down from `t`, making an empty table of a key
/// that is absent and stepping into the last table of an array of tables,
/// then does `act` there.
fn descend_into(
    t: &mut Table,
    keys: &[String],
    from: usize,
    last: &String,
    name: &[String],
    act: Action,
    line: usize,
) -> (res: Result<(), Error>)
    requires
        from <= keys@.len(),
    ensures
        match descend(
            old(t).doc_entries(),
            keys_of(keys@).subrange(from as int, keys@.len() as int),
            last@,
            join_keys(keys_of(name@)),
            act_of(act),
            line as int,
        ) {
            Ok(e) => res is Ok && final(t).doc_entries() == e && final(t).is_defined() == old(t).is_defined(),
            Err(f) => res matches Err(x) && is_fault(x, f),
        },
    decreases keys@.len() - from,
{
    let ghost ks = keys_of(keys@).subrange(from as int, keys@.len() as int);
    if from == keys.len() {
        assert(ks.len() == 0);
        return perform_at(t, last, name, act, line);
    }
    let key = &keys[from];
    assert(ks[0] == key@);
    assert(ks.drop_first() =~= keys_of(keys@).subrange(from + 1, keys@.len() as int));
    proof {
        lemma_entries_push(t.entries@, arbitrary());
    }
    match t.position(key.as_str()) {
        None => {
            let mut child = Table::new();
            match descend_into(&mut child, keys, from + 1, last, name, act, line) {
                Err(e) => Err(e),
                Ok(()) => {
                    let k = key.clone();
                    proof {
                        lemma_entries_push(t.entries@, (k, Value::Table(child)));
                    }
                    t.entries.push((k, Value::Table(child)));
                    Ok(())
                },
            }
        },
        Some(i) => {
            proof {
                lemma_entries_index(t.entries@, i as int);
            }
            let ghost before = t.entries@;
            let (k, v) = t.entries.remove(i);
            match v {
                Value::Table(mut inner) => {
                    let r = descend_into(&mut inner, keys, from + 1, last, name, act, line);
                    proof {
                        lemma_entries_replace(before, i as int, (k, Value::Table(inner)));
                    }
                    t.entries.insert(i, (k, Value::Table(inner)));
                    r
                },
                Value::Array(mut items) => {
                    let n = items.len();
                    let last_is_table = n > 0 && match &items[n - 1] {
                        Value::Table(_) => true,
                        _ => false,
                    };
                    proof {
                        lemma_items_push(items@, arbitrary());
                        if n > 0 {
                            lemma_items_index(items@, n - 1);
                        }
                    }
                    if last_is_table {
                        let ghost items_before = items@;
                        let lastv = items.pop().unwrap();
                        match lastv {
                            Value::Table(mut inner) => {
                                let r = descend_into(&mut inner, keys, from + 1, last, name, act, line);
                                proof {
                                    lemma_items_push(items@, Value::Table(inner));
                                    lemma_items_pop(items_before);
                                    assert(items@ == items_before.drop_last());
                                    assert(items_doc(items@.push(Value::Table(inner))) =~= items_doc(items_before).update(
                                        n - 1,
                                        value_doc(Value::Table(inner)),
                                    ));
                                }
                                items.push(Value::Table(inner));
                                proof {
                                    lemma_entries_replace(before, i as int, (k, Value::Array(items)));
                                }
                                t.entries.insert(i, (k, Value::Array(items)));
                                r
                            },
                            other => {
                                items.push(other);
                                t.entries.insert(i, (k, Value::Array(items)));
                                Err(Error { line, kind: ErrorKind::NotATable(key.clone()) })
                            },
                        }
                    } else {
                        t.entries.insert(i, (k, Value::Array(items)));
                        Err(Error { line, kind: ErrorKind::NotATable(key.clone()) })
                    }
                },
                other => {
                    t.entries.insert(i, (k, other));
                    Err(Error { line, kind: ErrorKind::NotATable(key.clone()) })
                },
            }
        },
    }
}

/// `path = value` under the header path `walked` of `t`.
fn assign(t: &mut Table, walked: &Vec<String>, path: &Vec<String>, value: Value, line: usize) -> (res: Result<(), Error>)
    requires
        path@.len() > 0,
    ensures
        match put_path(old(t).doc_entries(), keys_of(walked@), keys_of(path@), value@, line as int) {
            Ok(e) => res is Ok && final(t).doc_entries() == e && final(t).is_defined() == old(t).is_defined(),
            Err(f) => res matches Err(x) && is_fault(x, f),
        },
{
    let mut keys: Vec<String> = Vec::new();
    let mut i: usize = 0;
    while i < walked.len()
        invariant
            i <= walked@.len(),
            keys@.len() == i,
            keys_of(keys@) == keys_of(walked@).subrange(0, i as int),
        decreases walked@.len() - i,
    {
        let k = walked[i].clone();
        assert(keys_of(keys@.push(k)) =~= keys_of(walked@).subrange(0, i + 1));
        keys.push(k);
        i += 1;
    }
    assert(keys_of(walked@).subrange(0, walked@.len() as int) =~= keys_of(walked@));
    assert(keys_of(path@).subrange(0, 0) =~= Seq::<Seq<char>>::empty());
    assert(keys_of(walked@) + Seq::<Seq<char>>::empty() =~= keys_of(walked@));
    let n = path.len() - 1;
    let mut j: usize = 0;
    while j < n
        invariant
            j <= n,
            n == path@.len() - 1,
            keys@.len() == walked@.len() + j,
            keys_of(keys@) == keys_of(walked@) + keys_of(path@).subrange(0, j as int),
        decreases n - j,
    {
        let k = path[j].clone();
        assert(keys_of(keys@.push(k)) =~= keys_of(keys@).push(k@));
        assert(keys_of(walked@) + keys_of(path@).subrange(0, j + 1) =~= (keys_of(walked@) + keys_of(path@).subrange(
            0,
            j as int,
        )).push(keys_of(path@)[j as int]));
        keys.push(k);
        j += 1;
    }
    assert(keys_of(path@).drop_last() =~= keys_of(path@).subrange(0, n as int));
    assert(keys_of(keys@).subrange(0, keys@.len() as int) =~= keys_of(keys@));
    descend_into(t, keys.as_slice(), 0, &path[n], path.as_slice(), Action::Put(value), line)
}

impl<'a> Parser<'a> {
    /// The line the cursor is on.
    fn line(&self) -> (res: usize)
        ensures
            res == line_at(self.text(), self.at()),
    {
        proof {
            use_type_invariant(self);
        }
        self.line
    }

    /// Past the bytes of a bare key.
    fn skip_bare(&mut self)
        ensures
            final(self).text() == old(self).text(),
            final(self).at() == run_end(old(self).text(), old(self).at(), |b: u8| is_bare(b)),
    {
        proof {
            use_type_invariant(&*self);
        }
        loop
            invariant
                self.text() == old(self).text(),
                old(self).at() <= self.at() <= self.text().len(),
                run_end(old(self).text(), old(self).at(), |b: u8| is_bare(b)) == run_end(self.text(), self.at(), |b: u8| is_bare(b)),
            decreases self.text().len() - self.at(),
        {
            proof {
                use_type_invariant(&*self);
            }
            let more = match self.peek() {
                Some(b) => bare_byte(b),
                None => false,
            };
            if !more {
                return;
            }
            self.bump();
        }
    }

    /// Past the bytes of an unquoted value.
    fn skip_scalar(&mut self)
        ensures
            final(self).text() == old(self).text(),
            final(self).at() == run_end(old(self).text(), old(self).at(), |b: u8| is_scalar_byte(b)),
    {
        proof {
            use_type_invariant(&*self);
        }
        loop
            invariant
                self.text() == old(self).text(),
                old(self).at() <= self.at() <= self.text().len(),
                run_end(old(self).text(), old(self).at(), |b: u8| is_scalar_byte(b)) == run_end(self.text(), self.at(), |b: u8| is_scalar_byte(b)),
            decreases self.text().len() - self.at(),
        {
            proof {
                use_type_invariant(&*self);
            }
            let more = match self.peek() {
                Some(b) => scalar_byte(b),
                None => false,
            };
            if !more {
                return;
            }
            self.bump();
        }
    }

    /// `'…'`, no escapes. The opening quote is at the cursor.
    fn literal_string(&mut self) -> (res: Result<String, Error>)
        requires
            old(self).at() < old(self).text().len(),
            old(self).text()[old(self).at()] == 39,
        ensures
            final(self).text() == old(self).text(),
            match literal_at(old(self).text(), old(self).at()) {
                Ok((s, q)) => res matches Ok(x) && x@ == s && final(self).at() == q,
                Err(f) => res matches Err(e) && is_fault(e, f),
            },
    {
        self.bump();
        proof {
            use_type_invariant(&*self);
        }
        let start = self.pos;
        loop
            invariant
                self.text() == old(self).text(),
                start == old(self).at() + 1,
                start <= self.at() <= self.text().len(),
                self.text().len() < usize::MAX,
                literal_end(self.text(), start as int) == literal_end(self.text(), self.at()),
            decreases self.text().len() - self.at(),
        {
            proof {
                use_type_invariant(&*self);
            }
            match self.peek() {
                None => {
                    return Err(self.err(ErrorKind::Unterminated("string")));
                },
                Some(b) => {
                    if b == 10 {
                        return Err(self.err(ErrorKind::Unterminated("string")));
                    }
                    if b == 39 {
                        let s = lossy_string(&self.src[start..self.pos]);
                        self.bump();
                        return Ok(s);
                    }
                    self.bump();
                },
            }
        }
    }

    /// `digits` hex digits of a `\u` or `\U` escape, as a character.
    fn unicode_escape(&mut self, digits: usize) -> (res: Result<char, Error>)
        requires
            digits == 4 || digits == 8,
        ensures
            final(self).text() == old(self).text(),
            match escape_digits(old(self).text(), old(self).at(), digits as nat, 0) {
                Err(at) => res matches Err(e) && is_fault(e, (Fault::BadEscape, line_at(old(self).text(), at))),
                Ok((code, j)) => final(self).at() == j && if is_scalar_value(code) {
                    res == Ok::<char, Error>(code as char)
                } else {
                    res matches Err(e) && is_fault(e, (Fault::BadEscape, line_at(old(self).text(), j)))
                },
            },
    {
        let mut code: u32 = 0;
        let mut k: usize = 0;
        while k < digits
            invariant
                digits == 4 || digits == 8,
                k <= digits,
                self.text() == old(self).text(),
                code < pow16(k as nat),
                escape_digits(old(self).text(), old(self).at(), digits as nat, 0) == escape_digits(
                    self.text(),
                    self.at(),
                    (digits - k) as nat,
                    code as nat,
                ),
            decreases digits - k,
        {
            proof {
                use_type_invariant(&*self);
            }
            let d = match self.bump() {
                Some(b) => hex_value(b),
                None => None,
            };
            match d {
                None => {
                    return Err(self.err(ErrorKind::BadEscape));
                },
                Some(d) => {
                    proof {
                        lemma_pow16_step(k as nat, code as nat, d as nat, digits as nat);
                    }
                    code = code * 16 + d;
                },
            }
            k += 1;
        }
        match char_from_code(code) {
            Some(c) => Ok(c),
            None => Err(self.err(ErrorKind::BadEscape)),
        }
    }

    /// `"…"` with escapes. The opening quote is at the cursor.
    fn basic_string(&mut self) -> (res: Result<String, Error>)
        requires
            old(self).at() < old(self).text().len(),
            old(self).text()[old(self).at()] == 34,
        ensures
            final(self).text() == old(self).text(),
            match basic_at(old(self).text(), old(self).at()) {
                Ok((s, q)) => res matches Ok(x) && x@ == s && final(self).at() == q,
                Err(f) => res matches Err(e) && is_fault(e, f),
            },
    {
        self.bump();
        let mut out = String::new();
        loop
            invariant
                self.text() == old(self).text(),
                self.at() <= self.text().len(),
                basic_at(old(self).text(), old(self).at()) == basic_from(self.text(), self.at(), out@),
            decreases self.text().len() - self.at(),
        {
            proof {
                use_type_invariant(&*self);
            }
            let start = self.pos;
            match self.bump() {
                None => {
                    return Err(self.err(ErrorKind::Unterminated("string")));
                },
                Some(b) => {
                    if b == 10 {
                        return Err(self.err(ErrorKind::Unterminated("string")));
                    } else if b == 34 {
                        return Ok(out);
                    } else if b == 92 {
                        match self.bump() {
                            None => {
                                return Err(self.err(ErrorKind::BadEscape));
                            },
                            Some(e) => {
                                match escape_char(e) {
                                    Some(c) => {
                                        push_char(&mut out, c);
                                    },
                                    None => {
                                        if e == 117 || e == 85 {
                                            let n: usize = if e == 117 { 4 } else { 8 };
                                            proof {
                                                lemma_escape_digits_bounds(self.text(), self.at(), n as nat, 0);
                                            }
                                            match self.unicode_escape(n) {
                                                Ok(c) => {
                                                    push_char(&mut out, c);
                                                },
                                                Err(x) => {
                                                    return Err(x);
                                                },
                                            }
                                        } else {
                                            return Err(self.err(ErrorKind::BadEscape));
                                        }
                                    },
                                }
                            },
                        }
                    } else if b < 0x80 {
                        push_char(&mut out, b as char);
                    } else {
                        let n = utf8_width(b);
                        let mut k: usize = 1;
                        while k < n
                            invariant
                                self.text() == old(self).text(),
                                1 <= k <= n,
                                n == utf8_len(b),
                                b >= 0x80,
                                basic_at(old(self).text(), old(self).at()) == basic_from(self.text(), start as int, out@),
                                start < self.text().len(),
                                self.text()[start as int] == b,
                                self.at() == start + k,
                                self.at() <= self.text().len(),
                            decreases n - k,
                        {
                            if self.bump().is_none() {
                                return Err(self.err(ErrorKind::Unterminated("string")));
                            }
                            k += 1;
                        }
                        proof {
                            use_type_invariant(&*self);
                        }
                        let piece = lossy_string(&self.src[start..self.pos]);
                        out.append(piece.as_str());
                    }
                },
            }
        }
    }

    /// A bare key, a `"basic"` key or a `'literal'` key.
    fn simple_key(&mut self) -> (res: Result<String, Error>)
        ensures
            final(self).text() == old(self).text(),
            match key_at(old(self).text(), old(self).at()) {
                Ok((k, q)) => res matches Ok(x) && x@ == k && final(self).at() == q,
                Err(f) => res matches Err(e) && is_fault(e, f),
            },
    {
        proof {
            use_type_invariant(&*self);
        }
        match self.peek() {
            Some(34) => self.basic_string(),
            Some(39) => self.literal_string(),
            Some(b) => {
                if bare_byte(b) {
                    let start = self.pos;
                    self.skip_bare();
                    proof {
                        use_type_invariant(&*self);
                        lemma_run_end_bounds(self.text(), start as int, |b: u8| is_bare(b));
                    }
                    let mut s = String::new();
                    push_ascii(&mut s, &self.src[start..self.pos]);
                    Ok(s)
                } else {
                    Err(self.err(ErrorKind::Expected("a key")))
                }
            },
            None => Err(self.err(ErrorKind::Expected("a key"))),
        }
    }

    /// `a.b."c d".e`: the keys, with the cursor past the whitespace after
    /// the last.
    fn key_path(&mut self) -> (res: Result<Vec<String>, Error>)
        ensures
            final(self).text() == old(self).text(),
            match key_path_at(old(self).text(), old(self).at()) {
                Ok((keys, q)) => res matches Ok(path) && keys_of(path@) == keys && final(self).at() == q,
                Err(f) => res matches Err(e) && is_fault(e, f),
            },
    {
        let mut path: Vec<String> = Vec::new();
        assert(keys_of(path@) =~= Seq::<Seq<char>>::empty());
        proof {
            use_type_invariant(&*self);
        }
        loop
            invariant
                self.text() == old(self).text(),
                key_path_at(old(self).text(), old(self).at()) == key_path_from(self.text(), self.at(), keys_of(path@)),
                self.at() <= self.text().len(),
            decreases self.text().len() - self.at(),
        {
            proof {
                use_type_invariant(&*self);
                lemma_key_at_bounds(self.text(), self.at());
            }
            let ghost p = self.at();
            let k = match self.simple_key() {
                Ok(k) => k,
                Err(e) => {
                    return Err(e);
                },
            };
            proof {
                assert(keys_of(path@.push(k)) =~= keys_of(path@).push(k@));
                lemma_run_end_bounds(self.text(), self.at(), |b: u8| is_ws(b));
            }
            path.push(k);
            self.skip_ws();
            if self.peek() != Some(46) {
                return Ok(path);
            }
            self.bump();
            proof {
                use_type_invariant(&*self);
                lemma_run_end_bounds(self.text(), self.at(), |b: u8| is_ws(b));
            }
            self.skip_ws();
        }
    }

    /// `true`, `false`, an integer or a float: anything that is not quoted
    /// or bracketed.
    fn scalar(&mut self) -> (res: Result<Value, Error>)
        ensures
            final(self).text() == old(self).text(),
            match scalar_at(old(self).text(), old(self).at()) {
                Ok((d, q)) => res matches Ok(v) && v@ == d && final(self).at() == q,
                Err(f) => res matches Err(e) && is_fault(e, f),
            },
    {
        proof {
            use_type_invariant(&*self);
            lemma_run_end_bounds(self.text(), self.at(), |b: u8| is_scalar_byte(b));
        }
        let start = self.pos;
        self.skip_scalar();
        proof {
            use_type_invariant(&*self);
        }
        let raw = &self.src[start..self.pos];
        let true_word: [u8; 4] = [116, 114, 117, 101];
        let false_word: [u8; 5] = [102, 97, 108, 115, 101];
        let inf_word: [u8; 3] = [105, 110, 102];
        let nan_word: [u8; 3] = [110, 97, 110];
        assert(true_word@ =~= seq![116u8, 114, 117, 101]);
        assert(false_word@ =~= seq![102u8, 97, 108, 115, 101]);
        assert(inf_word@ =~= seq![105u8, 110, 102]);
        assert(nan_word@ =~= seq![110u8, 97, 110]);
        if bytes_eq(raw, true_word.as_slice()) {
            return Ok(Value::Boolean(true));
        }
        if bytes_eq(raw, false_word.as_slice()) {
            return Ok(Value::Boolean(false));
        }
        let body: &[u8] = if raw.len() > 0 && (raw[0] == 43 || raw[0] == 45) { &raw[1..raw.len()] } else { raw };
        assert(raw@.len() > 0 ==> raw@.drop_first() =~= raw@.subrange(1, raw@.len() as int));
        if bytes_eq(body, inf_word.as_slice()) || bytes_eq(body, nan_word.as_slice()) {
            return Err(self.err(ErrorKind::Unsupported("a non-finite float")));
        }
        let dash_later = raw.len() > 0 && contains_byte(&raw[1..raw.len()], 45);
        if contains_byte(raw, 58) || (dash_later && !contains_byte(raw, 101) && !contains_byte(raw, 69)) {
            return Err(self.err(ErrorKind::Unsupported("a date or time")));
        }
        let cleaned = strip_underscores(raw);
        match number(cleaned.as_slice()) {
            Some(v) => Ok(v),
            None => {
                let mut t = String::new();
                push_ascii(&mut t, raw);
                assert(t@ =~= ascii_text(raw@));
                Err(self.err(ErrorKind::BadNumber(t)))
            },
        }
    }

    /// A value at the cursor.
    fn value(&mut self) -> (res: Result<Value, Error>)
        ensures
            final(self).text() == old(self).text(),
            match value_at(old(self).text(), old(self).at()) {
                Ok((d, e)) => res matches Ok(v) && v@ == d && final(self).at() == e,
                Err(f) => res matches Err(x) && is_fault(x, f),
            },
        decreases old(self).text().len() - old(self).at(), 1nat,
    {
        proof {
            use_type_invariant(&*self);
        }
        match self.peek() {
            Some(34) => {
                if self.peek_at(1) == Some(34) && self.peek_at(2) == Some(34) {
                    return Err(self.err(ErrorKind::Unsupported("a multi-line string")));
                }
                match self.basic_string() {
                    Ok(s) => Ok(Value::String(s)),
                    Err(e) => Err(e),
                }
            },
            Some(39) => {
                if self.peek_at(1) == Some(39) && self.peek_at(2) == Some(39) {
                    return Err(self.err(ErrorKind::Unsupported("a multi-line literal string")));
                }
                match self.literal_string() {
                    Ok(s) => Ok(Value::String(s)),
                    Err(e) => Err(e),
                }
            },
            Some(91) => self.array(),
            Some(123) => self.inline_table(),
            Some(b) => {
                if b == 43 || b == 45 || alnum_byte(b) {
                    self.scalar()
                } else {
                    Err(self.err(ErrorKind::Expected("a value")))
                }
            },
            None => Err(self.err(ErrorKind::Expected("a value"))),
        }
    }

    /// `[ v, v, ]`, newlines and comments allowed anywhere inside. The
    /// opening bracket is at the cursor.
    fn array(&mut self) -> (res: Result<Value, Error>)
        requires
            old(self).at() < old(self).text().len(),
            old(self).text()[old(self).at()] == 91,
        ensures
            final(self).text() == old(self).text(),
            match array_from(old(self).text(), old(self).at() + 1, Seq::empty()) {
                Ok((d, e)) => res matches Ok(v) && v@ == d && final(self).at() == e,
                Err(f) => res matches Err(x) && is_fault(x, f),
            },
        decreases old(self).text().len() - old(self).at(), 0nat,
    {
        self.bump();
        let mut items: Vec<Value> = Vec::new();
        assert(items_doc(items@) =~= Seq::<Doc>::empty());
        loop
            invariant
                self.text() == old(self).text(),
                old(self).at() < self.at() <= self.text().len(),
                array_from(old(self).text(), old(self).at() + 1, Seq::empty()) == array_from(
                    self.text(),
                    self.at(),
                    items_doc(items@),
                ),
            decreases self.text().len() - self.at(),
        {
            proof {
                use_type_invariant(&*self);
                lemma_blank_end_bounds(self.text(), self.at());
            }
            self.skip_blank();
            match self.peek() {
                None => {
                    return Err(self.err(ErrorKind::Unterminated("array")));
                },
                Some(93) => {
                    self.bump();
                    return Ok(Value::Array(items));
                },
                _ => {},
            }
            let ghost q = self.at();
            proof {
                lemma_value_bounds(self.text(), q);
            }
            let v = match self.value() {
                Ok(v) => v,
                Err(e) => {
                    return Err(e);
                },
            };
            proof {
                lemma_items_push(items@, v);
                lemma_blank_end_bounds(self.text(), self.at());
            }
            items.push(v);
            self.skip_blank();
            match self.peek() {
                Some(44) => {
                    self.bump();
                },
                Some(93) => {
                    assert(blank_end(self.text(), self.at()) == self.at());
                },
                None => {
                    return Err(self.err(ErrorKind::Unterminated("array")));
                },
                Some(_) => {
                    return Err(self.err(ErrorKind::Expected("`,` or `]` in array")));
                },
            }
        }
    }

    /// `{ k = v, k = v }` on one line. The opening brace is at the cursor.
    #[verifier::rlimit(100)]
    fn inline_table(&mut self) -> (res: Result<Value, Error>)
        requires
            old(self).at() < old(self).text().len(),
            old(self).text()[old(self).at()] == 123,
        ensures
            final(self).text() == old(self).text(),
            match value_at(old(self).text(), old(self).at()) {
                Ok((d, e)) => res matches Ok(v) && v@ == d && final(self).at() == e,
                Err(f) => res matches Err(x) && is_fault(x, f),
            },
        decreases old(self).text().len() - old(self).at(), 0nat,
    {
        let line = self.line();
        self.bump();
        let mut table = Table::named();
        proof {
            use_type_invariant(&*self);
            lemma_run_end_bounds(self.text(), self.at(), |b: u8| is_ws(b));
        }
        self.skip_ws();
        if self.peek() == Some(125) {
            self.bump();
            return Ok(Value::Table(table));
        }
        let empty: Vec<String> = Vec::new();
        assert(keys_of(empty@) =~= Seq::<Seq<char>>::empty());
        loop
            invariant
                self.text() == old(self).text(),
                old(self).at() < self.at() <= self.text().len(),
                line == line_at(old(self).text(), old(self).at()),
                table.is_defined(),
                keys_of(empty@) == Seq::<Seq<char>>::empty(),
                value_at(old(self).text(), old(self).at()) == inline_from(
                    self.text(),
                    self.at(),
                    table.doc_entries(),
                    line as int,
                ),
            decreases self.text().len() - self.at(),
        {
            proof {
                use_type_invariant(&*self);
                lemma_run_end_bounds(self.text(), self.at(), |b: u8| is_ws(b));
            }
            self.skip_ws();
            proof {
                lemma_key_path_bounds(self.text(), self.at(), Seq::empty());
            }
            let path = match self.key_path() {
                Ok(path) => path,
                Err(e) => {
                    return Err(e);
                },
            };
            proof {
                lemma_run_end_bounds(self.text(), self.at(), |b: u8| is_ws(b));
            }
            self.skip_ws();
            match self.expect(61, "`=` in inline table") {
                Ok(()) => {},
                Err(e) => {
                    return Err(e);
                },
            }
            proof {
                lemma_run_end_bounds(self.text(), self.at(), |b: u8| is_ws(b));
            }
            self.skip_ws();
            proof {
                lemma_value_bounds(self.text(), self.at());
            }
            let value = match self.value() {
                Ok(v) => v,
                Err(e) => {
                    return Err(e);
                },
            };
            assert(Seq::<Seq<char>>::empty() + keys_of(path@).drop_last() =~= keys_of(path@).drop_last());
            match assign(&mut table, &empty, &path, value, line) {
                Ok(()) => {},
                Err(e) => {
                    return Err(e);
                },
            }
            proof {
                lemma_run_end_bounds(self.text(), self.at(), |b: u8| is_ws(b));
            }
            self.skip_ws();
            match self.bump() {
                Some(44) => {},
                Some(125) => {
                    return Ok(Value::Table(table));
                },
                _ => {
                    return Err(self.err(ErrorKind::Expected("`,` or `}` in inline table")));
                },
            }
        }
    }
}


/// A `[header]` or `[[header]]` whose bracket is at the cursor: opens its
/// table and gives its path.
fn header(p: &mut Parser, root: &mut Table) -> (res: Result<Vec<String>, Error>)
    requires
        old(p).at() < old(p).text().len(),
        old(p).text()[old(p).at()] == 91,
    ensures
        final(p).text() == old(p).text(),
        res is Ok ==> final(root).is_defined() == old(root).is_defined(),
        match header_at(old(p).text(), old(p).at(), old(root).doc_entries()) {
            Ok((e, root2, path)) => res matches Ok(v) && keys_of(v@) == path && final(p).at() == e
                && final(root).doc_entries() == root2,
            Err(f) => res matches Err(x) && is_fault(x, f),
        },
{
    let line = p.line();
    p.bump();
    let is_array = p.peek() == Some(91);
    if is_array {
        p.bump();
    }
    proof {
        use_type_invariant(&*p);
        lemma_run_end_bounds(p.text(), p.at(), |b: u8| is_ws(b));
    }
    p.skip_ws();
    proof {
        lemma_key_path_bounds(p.text(), p.at(), Seq::empty());
    }
    let path = match p.key_path() {
        Ok(path) => path,
        Err(e) => {
            return Err(e);
        },
    };
    proof {
        lemma_run_end_bounds(p.text(), p.at(), |b: u8| is_ws(b));
    }
    p.skip_ws();
    match p.expect(93, "`]` after table name") {
        Ok(()) => {},
        Err(e) => {
            return Err(e);
        },
    }
    if is_array {
        match p.expect(93, "`]]` after array-of-tables name") {
            Ok(()) => {},
            Err(e) => {
                return Err(e);
            },
        }
    }
    proof {
        lemma_line_end_bounds(p.text(), p.at());
    }
    match p.expect_eol() {
        Ok(()) => {},
        Err(e) => {
            return Err(e);
        },
    }
    let n = path.len() - 1;
    let act = if is_array { Action::OpenArray } else { Action::Open };
    let prefix = &path.as_slice()[0..n];
    assert(keys_of(prefix@).subrange(0, n as int) =~= keys_of(path@).drop_last());
    match descend_into(root, prefix, 0, &path[n], path.as_slice(), act, line) {
        Ok(()) => Ok(path),
        Err(e) => Err(e),
    }
}

/// An assignment whose key is at the cursor, under the header path
/// `current`.
#[verifier::rlimit(100)]
fn assignment(p: &mut Parser, root: &mut Table, current: &Vec<String>) -> (res: Result<(), Error>)
    requires
        old(p).at() < old(p).text().len(),
    ensures
        final(p).text() == old(p).text(),
        res is Ok ==> final(root).is_defined() == old(root).is_defined(),
        match assignment_at(old(p).text(), old(p).at(), old(root).doc_entries(), keys_of(current@)) {
            Ok((f, root2)) => res is Ok && final(p).at() == f && final(root).doc_entries() == root2,
            Err(g) => res matches Err(x) && is_fault(x, g),
        },
{
    let line = p.line();
    proof {
        lemma_key_path_bounds(p.text(), p.at(), Seq::empty());
    }
    let path = match p.key_path() {
        Ok(path) => path,
        Err(e) => {
            return Err(e);
        },
    };
    proof {
        use_type_invariant(&*p);
        lemma_run_end_bounds(p.text(), p.at(), |b: u8| is_ws(b));
    }
    p.skip_ws();
    match p.expect(61, "`=` after key") {
        Ok(()) => {},
        Err(e) => {
            return Err(e);
        },
    }
    proof {
        use_type_invariant(&*p);
        lemma_run_end_bounds(p.text(), p.at(), |b: u8| is_ws(b));
    }
    p.skip_ws();
    proof {
        lemma_value_bounds(p.text(), p.at());
    }
    let value = match p.value() {
        Ok(v) => v,
        Err(e) => {
            return Err(e);
        },
    };
    proof {
        lemma_line_end_bounds(p.text(), p.at());
    }
    match p.expect_eol() {
        Ok(()) => {},
        Err(e) => {
            return Err(e);
        },
    }
    assign(root, current, &path, value, line)
}

/// Reads a whole document.
pub fn parse(text: &str) -> (res: Result<Table, Error>)
    requires
        text.spec_bytes().len() < usize::MAX,
    ensures
        match document(text.spec_bytes()) {
            Ok(d) => res matches Ok(t) && t@ == d,
            Err(f) => res matches Err(e) && is_fault(e, f),
        },
{
    let src = text.as_bytes();
    let mut p = Parser::start(src);
    let mut root = Table::new();
    // The header in effect, as a key path from the root; empty is the root
    // itself.
    let mut current: Vec<String> = Vec::new();
    assert(keys_of(current@) =~= Seq::<Seq<char>>::empty());
    loop
        invariant
            p.text() == text.spec_bytes(),
            p.at() <= p.text().len(),
            !root.is_defined(),
            statements_from(text.spec_bytes(), 0, Seq::empty(), Seq::empty()) == statements_from(
                p.text(),
                p.at(),
                root.doc_entries(),
                keys_of(current@),
            ),
        decreases p.text().len() - p.at(),
    {
        proof {
            use_type_invariant(&p);
            lemma_blank_end_bounds(p.text(), p.at());
        }
        p.skip_blank();
        let b = match p.peek() {
            None => {
                return Ok(root);
            },
            Some(b) => b,
        };
        proof {
            lemma_header_bounds(p.text(), p.at(), root.doc_entries());
            lemma_assignment_bounds(p.text(), p.at(), root.doc_entries(), keys_of(current@));
        }
        if b == 91 {
            match header(&mut p, &mut root) {
                Ok(path) => {
                    current = path;
                },
                Err(e) => {
                    return Err(e);
                },
            }
        } else {
            match assignment(&mut p, &mut root, &current) {
                Ok(()) => {},
                Err(e) => {
                    return Err(e);
                },
            }
        }
    }
}

} // verus!
