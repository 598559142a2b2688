//! What the reader makes of a document, stated over its bytes.
//!
//! Each reading function takes the document's bytes and the position it
//! starts at, and gives either what it read and the position after it, or a
//! [`Fault`] and the line the reader reports it on.
use vstd::prelude::*;

use crate::cpu::{lemma_next_byte_bounds, next_byte};
use crate::text::ascii_text;

verus! {

/// A value of a document, as plain mathematical values.
pub enum Doc {
    Str(Seq<char>),
    Int(i64),
    Float(Seq<char>),
    Bool(bool),
    Arr(Seq<Doc>),
    /// The entries in file order, and whether a header or an inline table
    /// named the table.
    Tab(Seq<(Seq<char>, Doc)>, bool),
}

/// What kind of value `d` is, as error messages name it.
pub open spec fn doc_label(d: Doc) -> Seq<char> {
    match d {
        Doc::Str(_) => "string"@,
        Doc::Int(_) => "integer"@,
        Doc::Float(_) => "float"@,
        Doc::Bool(_) => "boolean"@,
        Doc::Arr(_) => "array"@,
        Doc::Tab(_, _) => "table"@,
    }
}

/// The value under `key` of the table `entries`, if any.
pub open spec fn lookup(entries: Seq<(Seq<char>, Doc)>, key: Seq<char>) -> Option<Doc> {
    match find(entries, key) {
        Some(i) => Some(entries[i].1),
        None => None,
    }
}

/// What went wrong, as plain values.
pub enum Fault {
    Expected(Seq<char>),
    Unterminated(Seq<char>),
    BadEscape,
    BadNumber(Seq<char>),
    Duplicate(Seq<char>),
    NotATable(Seq<char>),
    Unsupported(Seq<char>),
}

/// What a header or an assignment does to the table its path leads to.
pub enum Act {
    /// `[path]`.
    Open,
    /// `[[path]]`.
    OpenArray,
    /// `path = value`.
    Put(Doc),
}

/// What `from_utf8_lossy` makes of `bytes`.
pub uninterp spec fn lossy_text(bytes: Seq<u8>) -> Seq<char>;

// ---------------------------------------------------------------------------
// Bytes
// ---------------------------------------------------------------------------

/// Newlines among `s`.
pub open spec fn newlines(s: Seq<u8>) -> nat
    decreases s.len(),
{
    if s.len() == 0 {
        0
    } else {
        newlines(s.drop_last()) + if s.last() == 10 { 1nat } else { 0 }
    }
}

/// The one-based line byte `p` of `src` is on.
pub open spec fn line_at(src: Seq<u8>, p: int) -> int {
    (1 + newlines(src.subrange(0, p))) as int
}

pub open spec fn is_digit(b: u8) -> bool {
    48 <= b <= 57
}

pub open spec fn is_alnum(b: u8) -> bool {
    is_digit(b) || 65 <= b <= 90 || 97 <= b <= 122
}

/// A byte of a bare key.
pub open spec fn is_bare(b: u8) -> bool {
    is_alnum(b) || b == 95 || b == 45
}

/// A byte of an unquoted value: `true`, a number, or what looks like one.
pub open spec fn is_scalar_byte(b: u8) -> bool {
    is_alnum(b) || b == 43 || b == 45 || b == 95 || b == 46 || b == 58
}

/// A space or a tab.
pub open spec fn is_ws(b: u8) -> bool {
    b == 32 || b == 9
}

/// Past the bytes from `p` on that `keep` accepts.
pub open spec fn run_end(src: Seq<u8>, p: int, keep: spec_fn(u8) -> bool) -> int
    decreases src.len() - p,
{
    if p < 0 || p >= src.len() || !keep(src[p]) {
        p
    } else {
        run_end(src, p + 1, keep)
    }
}

/// Past the spaces and tabs from `p` on.
pub open spec fn ws_end(src: Seq<u8>, p: int) -> int {
    run_end(src, p, |b: u8| is_ws(b))
}

/// Past a `# …` comment at `p`, up to but not including its newline.
pub open spec fn comment_end(src: Seq<u8>, p: int) -> int {
    if 0 <= p < src.len() && src[p] == 35 {
        next_byte(src, 10, p)
    } else {
        p
    }
}

/// Past the blank lines, whitespace and comments from `p` on: what
/// separates statements, and the items of an array.
pub open spec fn blank_end(src: Seq<u8>, p: int) -> int
    decreases src.len() - p,
{
    let q = comment_end(src, ws_end(src, p));
    if p < 0 || p > src.len() || q < p {
        p
    } else if q < src.len() && src[q] == 10 {
        blank_end(src, q + 1)
    } else if q + 1 < src.len() && src[q] == 13 && src[q + 1] == 10 {
        blank_end(src, q + 2)
    } else {
        q
    }
}

/// The end of a statement line from `p`: past whitespace, an optional
/// comment and the newline, or the end of the file; or, as `Err`, where
/// something else stands.
pub open spec fn line_end(src: Seq<u8>, p: int) -> Result<int, int> {
    let q = comment_end(src, ws_end(src, p));
    if q >= src.len() {
        Ok(q)
    } else if src[q] == 10 {
        Ok(q + 1)
    } else if q + 1 < src.len() && src[q] == 13 && src[q + 1] == 10 {
        Ok(q + 2)
    } else {
        Err(q)
    }
}

// ---------------------------------------------------------------------------
// Strings and keys
// ---------------------------------------------------------------------------

/// The first `'` or newline at or after `p`, or the end.
pub open spec fn literal_end(src: Seq<u8>, p: int) -> int
    decreases src.len() - p,
{
    if p < 0 || p >= src.len() || src[p] == 39 || src[p] == 10 {
        p
    } else {
        literal_end(src, p + 1)
    }
}

/// A `'literal'` string whose opening quote is at `p`.
pub open spec fn literal_at(src: Seq<u8>, p: int) -> Result<(Seq<char>, int), (Fault, int)> {
    let q = literal_end(src, p + 1);
    if q < src.len() && src[q] == 39 {
        Ok((lossy_text(src.subrange(p + 1, q)), q + 1))
    } else {
        Err((Fault::Unterminated("string"@), line_at(src, q)))
    }
}

/// The length UTF-8 gives a sequence that starts with `b`.
pub open spec fn utf8_len(b: u8) -> int {
    if b < 0x80 {
        1
    } else if 0xC0 <= b <= 0xDF {
        2
    } else if 0xE0 <= b <= 0xEF {
        3
    } else {
        4
    }
}

pub open spec fn is_hex(b: u8) -> bool {
    is_digit(b) || 65 <= b <= 70 || 97 <= b <= 102
}

/// The value of a digit in any base up to 36; 36 for a byte that is none.
pub open spec fn digit_value(b: u8) -> int {
    if is_digit(b) {
        b - 48
    } else if 97 <= b <= 122 {
        b - 87
    } else if 65 <= b <= 90 {
        b - 55
    } else {
        36
    }
}

/// `left` more hex digits from `j`, on top of `acc`: the code and the
/// position after them, or the position the reader stands at when it finds
/// a byte that is not one.
pub open spec fn escape_digits(src: Seq<u8>, j: int, left: nat, acc: nat) -> Result<(nat, int), int>
    decreases left,
{
    if left == 0 {
        Ok((acc, j))
    } else if 0 <= j < src.len() && is_hex(src[j]) {
        escape_digits(src, j + 1, (left - 1) as nat, acc * 16 + digit_value(src[j]) as nat)
    } else if 0 <= j < src.len() {
        Err(j + 1)
    } else {
        Err(j)
    }
}

/// A Unicode scalar value: a code point that is not a surrogate.
pub open spec fn is_scalar_value(code: nat) -> bool {
    code <= 0x10FFFF && !(0xD800 <= code <= 0xDFFF)
}

/// What an escape `\x` stands for, for the escapes of one letter.
pub open spec fn simple_escape(b: u8) -> Option<char> {
    if b == 98 {
        Some('\u{8}')
    } else if b == 116 {
        Some('\t')
    } else if b == 110 {
        Some('\n')
    } else if b == 102 {
        Some('\u{c}')
    } else if b == 114 {
        Some('\r')
    } else if b == 34 {
        Some('"')
    } else if b == 92 {
        Some('\\')
    } else {
        None
    }
}

/// The rest of a `"basic"` string from `i`, after the characters `acc`.
pub open spec fn basic_from(src: Seq<u8>, i: int, acc: Seq<char>) -> Result<(Seq<char>, int), (Fault, int)>
    decreases src.len() - i,
{
    if i < 0 || i >= src.len() {
        Err((Fault::Unterminated("string"@), line_at(src, i)))
    } else if src[i] == 10 {
        Err((Fault::Unterminated("string"@), line_at(src, i + 1)))
    } else if src[i] == 34 {
        Ok((acc, i + 1))
    } else if src[i] == 92 {
        if i + 1 >= src.len() {
            Err((Fault::BadEscape, line_at(src, i + 1)))
        } else if simple_escape(src[i + 1]) is Some {
            basic_from(src, i + 2, acc.push(simple_escape(src[i + 1])->0))
        } else if src[i + 1] == 117 || src[i + 1] == 85 {
            let n: nat = if src[i + 1] == 117 { 4 } else { 8 };
            match escape_digits(src, i + 2, n, 0) {
                Err(at) => Err((Fault::BadEscape, line_at(src, at))),
                Ok((code, j)) => if is_scalar_value(code) {
                    proof {
                        lemma_escape_digits_bounds(src, i + 2, n, 0);
                    }
                    basic_from(src, j, acc.push(code as char))
                } else {
                    Err((Fault::BadEscape, line_at(src, j)))
                },
            }
        } else {
            Err((Fault::BadEscape, line_at(src, i + 2)))
        }
    } else if src[i] < 0x80 {
        basic_from(src, i + 1, acc.push(src[i] as char))
    } else if i + utf8_len(src[i]) > src.len() {
        Err((Fault::Unterminated("string"@), line_at(src, src.len() as int)))
    } else {
        basic_from(src, i + utf8_len(src[i]), acc + lossy_text(src.subrange(i, i + utf8_len(src[i]))))
    }
}

/// A `"basic"` string whose opening quote is at `p`.
pub open spec fn basic_at(src: Seq<u8>, p: int) -> Result<(Seq<char>, int), (Fault, int)> {
    basic_from(src, p + 1, Seq::empty())
}

/// A bare, `"basic"` or `'literal'` key at `p`.
pub open spec fn key_at(src: Seq<u8>, p: int) -> Result<(Seq<char>, int), (Fault, int)> {
    if 0 <= p < src.len() && src[p] == 34 {
        basic_at(src, p)
    } else if 0 <= p < src.len() && src[p] == 39 {
        literal_at(src, p)
    } else if 0 <= p < src.len() && is_bare(src[p]) {
        let q = run_end(src, p, |b: u8| is_bare(b));
        Ok((ascii_text(src.subrange(p, q)), q))
    } else {
        Err((Fault::Expected("a key"@), line_at(src, p)))
    }
}

/// A dotted key from `p`, after the keys `keys`: the keys and the position
/// past the whitespace that follows the last.
pub open spec fn key_path_from(src: Seq<u8>, p: int, keys: Seq<Seq<char>>) -> Result<(Seq<Seq<char>>, int), (Fault, int)>
    decreases src.len() - p,
{
    proof {
        lemma_key_at_bounds(src, p);
    }
    match key_at(src, p) {
        Err(e) => Err(e),
        Ok((k, q)) => {
            let r = ws_end(src, q);
            if 0 <= r < src.len() && src[r] == 46 {
                proof {
                    lemma_key_at_bounds(src, p);
                    lemma_run_end_bounds(src, q, |b: u8| is_ws(b));
                    lemma_run_end_bounds(src, r + 1, |b: u8| is_ws(b));
                }
                key_path_from(src, ws_end(src, r + 1), keys.push(k))
            } else {
                Ok((keys.push(k), r))
            }
        },
    }
}

/// A dotted key at `p`.
pub open spec fn key_path_at(src: Seq<u8>, p: int) -> Result<(Seq<Seq<char>>, int), (Fault, int)> {
    key_path_from(src, p, Seq::empty())
}

/// The keys joined by dots, as an error names them.
pub open spec fn join_keys(keys: Seq<Seq<char>>) -> Seq<char>
    decreases keys.len(),
{
    if keys.len() == 0 {
        Seq::empty()
    } else if keys.len() == 1 {
        keys[0]
    } else {
        join_keys(keys.drop_last()) + "."@ + keys.last()
    }
}

// ---------------------------------------------------------------------------
// Numbers
// ---------------------------------------------------------------------------

/// `s` without its underscores.
pub open spec fn without_underscores(s: Seq<u8>) -> Seq<u8>
    decreases s.len(),
{
    if s.len() == 0 {
        s
    } else if s.last() == 95 {
        without_underscores(s.drop_last())
    } else {
        without_underscores(s.drop_last()).push(s.last())
    }
}

/// The value of the digits `s` in base `radix`.
pub open spec fn digits_value(s: Seq<u8>, radix: int) -> int
    decreases s.len(),
{
    if s.len() == 0 {
        0
    } else {
        digits_value(s.drop_last(), radix) * radix + digit_value(s.last())
    }
}

/// Every byte of `s` is a digit of base `radix`.
pub open spec fn all_digits(s: Seq<u8>, radix: int) -> bool {
    forall|i: int| 0 <= i < s.len() ==> digit_value(#[trigger] s[i]) < radix
}

/// `s` starts with a sign.
pub open spec fn signed(s: Seq<u8>) -> bool {
    s.len() > 0 && (s[0] == 43 || s[0] == 45)
}

/// The digits of `s`, past its sign.
pub open spec fn unsigned_part(s: Seq<u8>) -> Seq<u8> {
    if signed(s) { s.drop_first() } else { s }
}

/// What `i64::from_str_radix` reads: an optional sign, then at least one
/// digit of the base, the whole in range.
pub open spec fn int_in(s: Seq<u8>, radix: int) -> Option<i64> {
    let body = unsigned_part(s);
    let magnitude = digits_value(body, radix);
    let v = if signed(s) && s[0] == 45 { -magnitude } else { magnitude };
    if body.len() == 0 || !all_digits(body, radix) {
        None
    } else if i64::MIN <= v <= i64::MAX {
        Some(v as i64)
    } else {
        None
    }
}

/// What `f64`'s `FromStr` accepts, but for infinities and NaN: an optional
/// sign, digits with at most one point and at least one digit, and an
/// optional exponent of at least one digit.
pub open spec fn float_ok(s: Seq<u8>) -> bool {
    let a: int = if s.len() > 0 && (s[0] == 43 || s[0] == 45) { 1 } else { 0 };
    let d1 = run_end(s, a, |b: u8| is_digit(b));
    let dotted = d1 < s.len() && s[d1] == 46;
    let e = if dotted { run_end(s, d1 + 1, |b: u8| is_digit(b)) } else { d1 };
    let mantissa = d1 > a || (dotted && e > d1 + 1);
    let f: int = if e + 1 < s.len() && (s[e + 1] == 43 || s[e + 1] == 45) { e + 2 } else { e + 1 };
    let g = run_end(s, f, |b: u8| is_digit(b));
    mantissa && (e == s.len() || (e < s.len() && (s[e] == 101 || s[e] == 69) && g > f && g == s.len()))
}

/// `inf` or `nan`, signed or not.
pub open spec fn is_non_finite(raw: Seq<u8>) -> bool {
    let body = if raw.len() > 0 && (raw[0] == 43 || raw[0] == 45) { raw.drop_first() } else { raw };
    body == seq![105u8, 110, 102] || body == seq![110u8, 97, 110]
}

/// Shaped like a date or a time: a `:`, or a `-` after the first byte in
/// what has no exponent.
pub open spec fn is_date_like(raw: Seq<u8>) -> bool {
    raw.contains(58) || (raw.len() > 0 && raw.drop_first().contains(45) && !raw.contains(101) && !raw.contains(69))
}

/// A number read from its underscore-free text `c`.
pub open spec fn number_of(c: Seq<u8>) -> Option<Doc> {
    let two = c.len() >= 2 && c[0] == 48;
    if two && c[1] == 120 {
        match int_in(c.skip(2), 16) { Some(n) => Some(Doc::Int(n)), None => None }
    } else if two && c[1] == 111 {
        match int_in(c.skip(2), 8) { Some(n) => Some(Doc::Int(n)), None => None }
    } else if two && c[1] == 98 {
        match int_in(c.skip(2), 2) { Some(n) => Some(Doc::Int(n)), None => None }
    } else if c.contains(46) || c.contains(101) || c.contains(69) {
        if float_ok(c) { Some(Doc::Float(ascii_text(c))) } else { None }
    } else {
        match int_in(c, 10) { Some(n) => Some(Doc::Int(n)), None => None }
    }
}

/// An unquoted value at `p`: a boolean or a number.
pub open spec fn scalar_at(src: Seq<u8>, p: int) -> Result<(Doc, int), (Fault, int)> {
    let q = run_end(src, p, |b: u8| is_scalar_byte(b));
    let raw = src.subrange(p, q);
    let line = line_at(src, q);
    if raw == seq![116u8, 114, 117, 101] {
        Ok((Doc::Bool(true), q))
    } else if raw == seq![102u8, 97, 108, 115, 101] {
        Ok((Doc::Bool(false), q))
    } else if is_non_finite(raw) {
        Err((Fault::Unsupported("a non-finite float"@), line))
    } else if is_date_like(raw) {
        Err((Fault::Unsupported("a date or time"@), line))
    } else {
        match number_of(without_underscores(raw)) {
            Some(d) => Ok((d, q)),
            None => Err((Fault::BadNumber(ascii_text(raw)), line)),
        }
    }
}

// ---------------------------------------------------------------------------
// Tables
// ---------------------------------------------------------------------------

/// The index of the first entry under `key` from `from` on.
pub open spec fn find_from(entries: Seq<(Seq<char>, Doc)>, key: Seq<char>, from: int) -> Option<int>
    decreases entries.len() - from,
{
    if from < 0 || from >= entries.len() {
        None
    } else if entries[from].0 == key {
        Some(from)
    } else {
        find_from(entries, key, from + 1)
    }
}

/// The index of the first entry under `key`.
pub open spec fn find(entries: Seq<(Seq<char>, Doc)>, key: Seq<char>) -> Option<int> {
    find_from(entries, key, 0)
}

/// Every item is a table.
pub open spec fn all_tables(items: Seq<Doc>) -> bool {
    forall|i: int| 0 <= i < items.len() ==> #[trigger] items[i] is Tab
}

/// What `act` does under the key `last` of the table `entries`, whose
/// header or assignment names it `name`.
pub open spec fn perform(
    entries: Seq<(Seq<char>, Doc)>,
    last: Seq<char>,
    name: Seq<char>,
    act: Act,
    line: int,
) -> Result<Seq<(Seq<char>, Doc)>, (Fault, int)> {
    match act {
        Act::Open => match find(entries, last) {
            None => Ok(entries.push((last, Doc::Tab(Seq::empty(), true)))),
            Some(i) => match entries[i].1 {
                Doc::Tab(inner, defined) => if defined {
                    Err((Fault::Duplicate(name), line))
                } else {
                    Ok(entries.update(i, (last, Doc::Tab(inner, true))))
                },
                _ => Err((Fault::NotATable(name), line)),
            },
        },
        Act::OpenArray => match find(entries, last) {
            None => Ok(entries.push((last, Doc::Arr(seq![Doc::Tab(Seq::empty(), true)])))),
            Some(i) => match entries[i].1 {
                Doc::Arr(items) => if all_tables(items) {
                    Ok(entries.update(i, (last, Doc::Arr(items.push(Doc::Tab(Seq::empty(), true))))))
                } else {
                    Err((Fault::NotATable(name), line))
                },
                _ => Err((Fault::NotATable(name), line)),
            },
        },
        Act::Put(v) => match find(entries, last) {
            None => Ok(entries.push((last, v))),
            Some(_) => Err((Fault::Duplicate(name), line)),
        },
    }
}

/// Walks `keys` down from the table `entries`, making an empty table of a
/// key that is absent and stepping into the last table of an array of
/// tables, then does `act` there.
pub open spec fn descend(
    entries: Seq<(Seq<char>, Doc)>,
    keys: Seq<Seq<char>>,
    last: Seq<char>,
    name: Seq<char>,
    act: Act,
    line: int,
) -> Result<Seq<(Seq<char>, Doc)>, (Fault, int)>
    decreases keys.len(),
{
    if keys.len() == 0 {
        perform(entries, last, name, act, line)
    } else {
        let key = keys[0];
        let rest = keys.drop_first();
        match find(entries, key) {
            None => match descend(Seq::empty(), rest, last, name, act, line) {
                Ok(inner) => Ok(entries.push((key, Doc::Tab(inner, false)))),
                Err(f) => Err(f),
            },
            Some(i) => match entries[i].1 {
                Doc::Tab(inner, defined) => match descend(inner, rest, last, name, act, line) {
                    Ok(inner2) => Ok(entries.update(i, (key, Doc::Tab(inner2, defined)))),
                    Err(f) => Err(f),
                },
                Doc::Arr(items) => if items.len() > 0 && items.last() is Tab {
                    match items.last() {
                        Doc::Tab(inner, defined) => match descend(inner, rest, last, name, act, line) {
                            Ok(inner2) => Ok(
                                entries.update(i, (key, Doc::Arr(items.update(items.len() - 1, Doc::Tab(inner2, defined))))),
                            ),
                            Err(f) => Err(f),
                        },
                        _ => Err((Fault::NotATable(key), line)),
                    }
                } else {
                    Err((Fault::NotATable(key), line))
                },
                _ => Err((Fault::NotATable(key), line)),
            },
        }
    }
}

/// Puts `v` under the dotted key `path` (at least one key) of the table
/// `entries`.
pub open spec fn put_path(
    entries: Seq<(Seq<char>, Doc)>,
    walked: Seq<Seq<char>>,
    path: Seq<Seq<char>>,
    v: Doc,
    line: int,
) -> Result<Seq<(Seq<char>, Doc)>, (Fault, int)> {
    descend(entries, walked + path.drop_last(), path.last(), join_keys(path), Act::Put(v), line)
}

// ---------------------------------------------------------------------------
// Values
// ---------------------------------------------------------------------------

/// A value at `p`.
pub open spec fn value_at(src: Seq<u8>, p: int) -> Result<(Doc, int), (Fault, int)>
    decreases src.len() - p, 0nat,
{
    if p < 0 || p >= src.len() {
        Err((Fault::Expected("a value"@), line_at(src, p)))
    } else if src[p] == 34 {
        if p + 2 < src.len() && src[p + 1] == 34 && src[p + 2] == 34 {
            Err((Fault::Unsupported("a multi-line string"@), line_at(src, p)))
        } else {
            match basic_at(src, p) {
                Ok((s, q)) => Ok((Doc::Str(s), q)),
                Err(e) => Err(e),
            }
        }
    } else if src[p] == 39 {
        if p + 2 < src.len() && src[p + 1] == 39 && src[p + 2] == 39 {
            Err((Fault::Unsupported("a multi-line literal string"@), line_at(src, p)))
        } else {
            match literal_at(src, p) {
                Ok((s, q)) => Ok((Doc::Str(s), q)),
                Err(e) => Err(e),
            }
        }
    } else if src[p] == 91 {
        array_from(src, p + 1, Seq::empty())
    } else if src[p] == 123 {
        let q = ws_end(src, p + 1);
        proof {
            lemma_run_end_bounds(src, p + 1, |b: u8| is_ws(b));
        }
        if q < src.len() && src[q] == 125 {
            Ok((Doc::Tab(Seq::empty(), true), q + 1))
        } else {
            inline_from(src, q, Seq::empty(), line_at(src, p))
        }
    } else if src[p] == 43 || src[p] == 45 || is_alnum(src[p]) {
        scalar_at(src, p)
    } else {
        Err((Fault::Expected("a value"@), line_at(src, p)))
    }
}

/// The rest of an array from `i`, after the items `items`.
pub open spec fn array_from(src: Seq<u8>, i: int, items: Seq<Doc>) -> Result<(Doc, int), (Fault, int)>
    decreases src.len() - i, 1nat,
{
    let q = blank_end(src, i);
    if i < 0 || q < i || q >= src.len() {
        Err((Fault::Unterminated("array"@), line_at(src, q)))
    } else if src[q] == 93 {
        Ok((Doc::Arr(items), q + 1))
    } else {
        match value_at(src, q) {
            Err(e) => Err(e),
            Ok((v, e)) => {
                let r = blank_end(src, e);
                if r >= src.len() || r < e || e <= q {
                    Err((Fault::Unterminated("array"@), line_at(src, r)))
                } else if src[r] == 44 {
                    array_from(src, r + 1, items.push(v))
                } else if src[r] == 93 {
                    Ok((Doc::Arr(items.push(v)), r + 1))
                } else {
                    Err((Fault::Expected("`,` or `]` in array"@), line_at(src, r)))
                }
            },
        }
    }
}

/// The rest of an inline table from `i`, after the entries `entries`; the
/// table opened on line `line`.
pub open spec fn inline_from(src: Seq<u8>, i: int, entries: Seq<(Seq<char>, Doc)>, line: int) -> Result<(Doc, int), (Fault, int)>
    decreases src.len() - i, 1nat,
{
    let a = ws_end(src, i);
    if i < 0 || i > src.len() {
        Err((Fault::Expected("a key"@), line_at(src, i)))
    } else {
    match key_path_at(src, a) {
        Err(e) => Err(e),
        Ok((path, b)) => {
            let c = ws_end(src, b);
            if !(0 <= c < src.len() && src[c] == 61) {
                Err((Fault::Expected("`=` in inline table"@), line_at(src, c)))
            } else {
                let d = ws_end(src, c + 1);
                proof {
                    lemma_run_end_bounds(src, i, |b: u8| is_ws(b));
                    lemma_key_path_bounds(src, a, Seq::empty());
                    lemma_run_end_bounds(src, b, |b: u8| is_ws(b));
                    lemma_run_end_bounds(src, c + 1, |b: u8| is_ws(b));
                }
                {
                    match value_at(src, d) {
                        Err(e) => Err(e),
                        Ok((v, e)) => match put_path(entries, Seq::empty(), path, v, line) {
                            Err(f) => Err(f),
                            Ok(entries2) => {
                                let g = ws_end(src, e);
                                if 0 <= g < src.len() && src[g] == 44 && e > d {
                                    proof {
                                        lemma_run_end_bounds(src, e, |b: u8| is_ws(b));
                                    }
                                    inline_from(src, g + 1, entries2, line)
                                } else if 0 <= g < src.len() && src[g] == 125 {
                                    Ok((Doc::Tab(entries2, true), g + 1))
                                } else if 0 <= g < src.len() {
                                    Err((Fault::Expected("`,` or `}` in inline table"@), line_at(src, g + 1)))
                                } else {
                                    Err((Fault::Expected("`,` or `}` in inline table"@), line_at(src, g)))
                                }
                            },
                        },
                    }
                }
            }
        },
    }
}
}

// ---------------------------------------------------------------------------
// Documents
// ---------------------------------------------------------------------------

/// A `[header]` or `[[header]]` whose bracket is at `q`, opened in the root
/// table `root`: the position after its line, the root afterwards, and the
/// header's path.
pub open spec fn header_at(src: Seq<u8>, q: int, root: Seq<(Seq<char>, Doc)>) -> Result<
    (int, Seq<(Seq<char>, Doc)>, Seq<Seq<char>>),
    (Fault, int),
> {
    let array = q + 1 < src.len() && src[q + 1] == 91;
    let a = ws_end(src, if array { q + 2 } else { q + 1 });
    match key_path_at(src, a) {
        Err(e) => Err(e),
        Ok((path, b)) => {
            let c = ws_end(src, b);
            if !(0 <= c < src.len() && src[c] == 93) {
                Err((Fault::Expected("`]` after table name"@), line_at(src, c)))
            } else if array && !(c + 1 < src.len() && src[c + 1] == 93) {
                Err((Fault::Expected("`]]` after array-of-tables name"@), line_at(src, c + 1)))
            } else {
                match line_end(src, if array { c + 2 } else { c + 1 }) {
                    Err(x) => Err((Fault::Expected("end of line"@), line_at(src, x))),
                    Ok(e) => {
                        let act = if array { Act::OpenArray } else { Act::Open };
                        match descend(root, path.drop_last(), path.last(), join_keys(path), act, line_at(src, q)) {
                            Err(f) => Err(f),
                            Ok(root2) => Ok((e, root2, path)),
                        }
                    },
                }
            }
        },
    }
}

/// An assignment whose key starts at `q`, under the header path `current`
/// of the root table `root`: the position after its line and the root
/// afterwards.
pub open spec fn assignment_at(src: Seq<u8>, q: int, root: Seq<(Seq<char>, Doc)>, current: Seq<Seq<char>>) -> Result<
    (int, Seq<(Seq<char>, Doc)>),
    (Fault, int),
> {
    match key_path_at(src, q) {
        Err(e) => Err(e),
        Ok((path, b)) => {
            let c = ws_end(src, b);
            if !(0 <= c < src.len() && src[c] == 61) {
                Err((Fault::Expected("`=` after key"@), line_at(src, c)))
            } else {
                match value_at(src, ws_end(src, c + 1)) {
                    Err(e) => Err(e),
                    Ok((v, e)) => match line_end(src, e) {
                        Err(x) => Err((Fault::Expected("end of line"@), line_at(src, x))),
                        Ok(f) => match put_path(root, current, path, v, line_at(src, q)) {
                            Err(g) => Err(g),
                            Ok(root2) => Ok((f, root2)),
                        },
                    },
                }
            }
        },
    }
}

pub proof fn lemma_header_bounds(src: Seq<u8>, q: int, root: Seq<(Seq<char>, Doc)>)
    requires
        0 <= q < src.len(),
    ensures
        header_at(src, q, root) matches Ok((e, _, path)) ==> q < e <= src.len() && path.len() > 0,
{
    let array = q + 1 < src.len() && src[q + 1] == 91;
    let a = ws_end(src, if array { q + 2 } else { q + 1 });
    lemma_run_end_bounds(src, if array { q + 2 } else { q + 1 }, |b: u8| is_ws(b));
    lemma_key_path_bounds(src, a, Seq::empty());
    if let Ok((path, b)) = key_path_at(src, a) {
        lemma_run_end_bounds(src, b, |b: u8| is_ws(b));
        let c = ws_end(src, b);
        lemma_line_end_bounds(src, if array { c + 2 } else { c + 1 });
    }
}

pub proof fn lemma_assignment_bounds(src: Seq<u8>, q: int, root: Seq<(Seq<char>, Doc)>, current: Seq<Seq<char>>)
    requires
        0 <= q < src.len(),
    ensures
        assignment_at(src, q, root, current) matches Ok((f, _)) ==> q < f <= src.len(),
{
    lemma_key_path_bounds(src, q, Seq::empty());
    if let Ok((path, b)) = key_path_at(src, q) {
        lemma_run_end_bounds(src, b, |b: u8| is_ws(b));
        let c = ws_end(src, b);
        if 0 <= c < src.len() {
            lemma_run_end_bounds(src, c + 1, |b: u8| is_ws(b));
            lemma_value_bounds(src, ws_end(src, c + 1));
            if let Ok((v, e)) = value_at(src, ws_end(src, c + 1)) {
                lemma_line_end_bounds(src, e);
            }
        }
    }
}

/// The statements of a document from `p`, into the root table `root`, under
/// the header path `current`.
pub open spec fn statements_from(
    src: Seq<u8>,
    p: int,
    root: Seq<(Seq<char>, Doc)>,
    current: Seq<Seq<char>>,
) -> Result<Seq<(Seq<char>, Doc)>, (Fault, int)>
    decreases src.len() - p,
{
    let q = blank_end(src, p);
    if p < 0 || q < p || q >= src.len() {
        Ok(root)
    } else if src[q] == 91 {
        match header_at(src, q, root) {
            Err(e) => Err(e),
            Ok((e, root2, path)) => {
                proof {
                    lemma_header_bounds(src, q, root);
                }
                statements_from(src, e, root2, path)
            },
        }
    } else {
        match assignment_at(src, q, root, current) {
            Err(e) => Err(e),
            Ok((f, root2)) => {
                proof {
                    lemma_assignment_bounds(src, q, root, current);
                }
                statements_from(src, f, root2, current)
            },
        }
    }
}

/// What a document reads as: its root table, or the first fault and its
/// line.
pub open spec fn document(src: Seq<u8>) -> Result<Doc, (Fault, int)> {
    match statements_from(src, 0, Seq::empty(), Seq::empty()) {
        Ok(root) => Ok(Doc::Tab(root, false)),
        Err(f) => Err(f),
    }
}

// ---------------------------------------------------------------------------
// Where readings end
// ---------------------------------------------------------------------------

pub proof fn lemma_run_end_bounds(src: Seq<u8>, p: int, keep: spec_fn(u8) -> bool)
    ensures
        p <= run_end(src, p, keep),
        0 <= p <= src.len() ==> run_end(src, p, keep) <= src.len(),
        0 <= p && run_end(src, p, keep) < src.len() ==> !keep(src[run_end(src, p, keep)]),
        forall|k: int| p <= k < run_end(src, p, keep) ==> keep(#[trigger] src[k]),
    decreases src.len() - p,
{
    if 0 <= p < src.len() && keep(src[p]) {
        lemma_run_end_bounds(src, p + 1, keep);
    }
}

pub proof fn lemma_comment_end_bounds(src: Seq<u8>, p: int)
    requires
        0 <= p <= src.len(),
    ensures
        p <= comment_end(src, p) <= src.len(),
        comment_end(src, p) < src.len() && p < comment_end(src, p) ==> src[comment_end(src, p)] == 10,
{
    if p < src.len() && src[p] == 35 {
        lemma_next_byte_bounds(src, 10, p);
    }
}

pub proof fn lemma_blank_end_bounds(src: Seq<u8>, p: int)
    ensures
        0 <= p <= src.len() ==> p <= blank_end(src, p) <= src.len(),
    decreases src.len() - p,
{
    if 0 <= p <= src.len() {
        lemma_run_end_bounds(src, p, |b: u8| is_ws(b));
        lemma_comment_end_bounds(src, ws_end(src, p));
        let q = comment_end(src, ws_end(src, p));
        if q < src.len() && src[q] == 10 {
            lemma_blank_end_bounds(src, q + 1);
        } else if q + 1 < src.len() && src[q] == 13 && src[q + 1] == 10 {
            lemma_blank_end_bounds(src, q + 2);
        }
    }
}

pub proof fn lemma_line_end_bounds(src: Seq<u8>, p: int)
    ensures
        0 <= p <= src.len() ==> match line_end(src, p) {
            Ok(e) => p <= e <= src.len(),
            Err(x) => p <= x < src.len(),
        },
{
    if 0 <= p <= src.len() {
        lemma_run_end_bounds(src, p, |b: u8| is_ws(b));
        lemma_comment_end_bounds(src, ws_end(src, p));
    }
}

pub proof fn lemma_newlines_step(src: Seq<u8>, p: int)
    requires
        0 <= p < src.len(),
    ensures
        newlines(src.subrange(0, p + 1)) == newlines(src.subrange(0, p)) + if src[p] == 10 { 1nat } else { 0 },
        newlines(src.subrange(0, p + 1)) <= p + 1,
    decreases p,
{
    assert(src.subrange(0, p + 1).drop_last() =~= src.subrange(0, p));
    if p > 0 {
        lemma_newlines_step(src, p - 1);
    } else {
        assert(src.subrange(0, 0).len() == 0);
    }
}

pub proof fn lemma_literal_end_bounds(src: Seq<u8>, p: int)
    ensures
        0 <= p <= src.len() ==> p <= literal_end(src, p) <= src.len(),
        0 <= p ==> forall|k: int| p <= k < literal_end(src, p) ==> #[trigger] src[k] != 39 && src[k] != 10,
    decreases src.len() - p,
{
    if 0 <= p < src.len() && src[p] != 39 && src[p] != 10 {
        lemma_literal_end_bounds(src, p + 1);
    }
}

pub proof fn lemma_escape_digits_bounds(src: Seq<u8>, j: int, left: nat, acc: nat)
    ensures
        0 <= j <= src.len() ==> match escape_digits(src, j, left, acc) {
            Ok((_, k)) => k == j + left && k <= src.len(),
            Err(at) => j <= at <= src.len(),
        },
    decreases left,
{
    if left > 0 && 0 <= j < src.len() && is_hex(src[j]) {
        lemma_escape_digits_bounds(src, j + 1, (left - 1) as nat, acc * 16 + digit_value(src[j]) as nat);
    }
}

pub proof fn lemma_basic_from_bounds(src: Seq<u8>, i: int, acc: Seq<char>)
    ensures
        basic_from(src, i, acc) matches Ok((_, e)) ==> 0 <= i < e <= src.len(),
    decreases src.len() - i,
{
    if 0 <= i < src.len() && src[i] != 10 && src[i] != 34 {
        if src[i] == 92 {
            if i + 1 < src.len() {
                if simple_escape(src[i + 1]) is Some {
                    lemma_basic_from_bounds(src, i + 2, acc.push(simple_escape(src[i + 1])->0));
                } else if src[i + 1] == 117 || src[i + 1] == 85 {
                    let n: nat = if src[i + 1] == 117 { 4 } else { 8 };
                    lemma_escape_digits_bounds(src, i + 2, n, 0);
                    if let Ok((code, j)) = escape_digits(src, i + 2, n, 0) {
                        if is_scalar_value(code) {
                            lemma_basic_from_bounds(src, j, acc.push(code as char));
                        }
                    }
                }
            }
        } else if src[i] < 0x80 {
            lemma_basic_from_bounds(src, i + 1, acc.push(src[i] as char));
        } else if i + utf8_len(src[i]) <= src.len() {
            lemma_basic_from_bounds(src, i + utf8_len(src[i]), acc + lossy_text(src.subrange(i, i + utf8_len(src[i]))));
        }
    }
}

pub proof fn lemma_key_at_bounds(src: Seq<u8>, p: int)
    ensures
        key_at(src, p) matches Ok((_, q)) ==> 0 <= p < q <= src.len(),
{
    if 0 <= p < src.len() {
        if src[p] == 34 {
            lemma_basic_from_bounds(src, p + 1, Seq::empty());
        } else if src[p] == 39 {
            lemma_literal_end_bounds(src, p + 1);
        } else if is_bare(src[p]) {
            lemma_run_end_bounds(src, p + 1, |b: u8| is_bare(b));
        }
    }
}

pub proof fn lemma_key_path_bounds(src: Seq<u8>, p: int, keys: Seq<Seq<char>>)
    ensures
        key_path_from(src, p, keys) matches Ok((path, q)) ==> 0 <= p < q <= src.len() && path.len() > keys.len(),
    decreases src.len() - p,
{
    lemma_key_at_bounds(src, p);
    if let Ok((k, q)) = key_at(src, p) {
        lemma_run_end_bounds(src, q, |b: u8| is_ws(b));
        let r = ws_end(src, q);
        if 0 <= r < src.len() && src[r] == 46 {
            lemma_run_end_bounds(src, r + 1, |b: u8| is_ws(b));
            lemma_key_path_bounds(src, ws_end(src, r + 1), keys.push(k));
        }
    }
}

pub proof fn lemma_value_bounds(src: Seq<u8>, p: int)
    ensures
        value_at(src, p) matches Ok((_, e)) ==> 0 <= p < e <= src.len(),
    decreases src.len() - p, 0nat,
{
    if 0 <= p < src.len() {
        if src[p] == 34 {
            lemma_basic_from_bounds(src, p + 1, Seq::empty());
        } else if src[p] == 39 {
            lemma_literal_end_bounds(src, p + 1);
        } else if src[p] == 91 {
            lemma_array_bounds(src, p + 1, Seq::empty());
        } else if src[p] == 123 {
            lemma_run_end_bounds(src, p + 1, |b: u8| is_ws(b));
            let q = ws_end(src, p + 1);
            if !(q < src.len() && src[q] == 125) {
                lemma_inline_bounds(src, q, Seq::empty(), line_at(src, p));
            }
        } else if src[p] == 43 || src[p] == 45 || is_alnum(src[p]) {
            lemma_run_end_bounds(src, p + 1, |b: u8| is_scalar_byte(b));
        }
    }
}

pub proof fn lemma_array_bounds(src: Seq<u8>, i: int, items: Seq<Doc>)
    ensures
        array_from(src, i, items) matches Ok((_, e)) ==> 0 <= i < e <= src.len(),
    decreases src.len() - i, 1nat,
{
    let q = blank_end(src, i);
    if 0 <= i && q >= i && q < src.len() && src[q] != 93 {
        lemma_value_bounds(src, q);
        if let Ok((v, e)) = value_at(src, q) {
            let r = blank_end(src, e);
            if r < src.len() && r >= e && e > q && src[r] == 44 {
                lemma_array_bounds(src, r + 1, items.push(v));
            }
        }
    }
}

pub proof fn lemma_inline_bounds(src: Seq<u8>, i: int, entries: Seq<(Seq<char>, Doc)>, line: int)
    ensures
        inline_from(src, i, entries, line) matches Ok((_, e)) ==> 0 <= i < e <= src.len(),
    decreases src.len() - i, 1nat,
{
    if 0 <= i <= src.len() {
        let a = ws_end(src, i);
        lemma_run_end_bounds(src, i, |b: u8| is_ws(b));
        lemma_key_path_bounds(src, a, Seq::empty());
        if let Ok((path, b)) = key_path_at(src, a) {
            let c = ws_end(src, b);
            lemma_run_end_bounds(src, b, |b: u8| is_ws(b));
            if 0 <= c < src.len() && src[c] == 61 {
                let d = ws_end(src, c + 1);
                lemma_run_end_bounds(src, c + 1, |b: u8| is_ws(b));
                lemma_value_bounds(src, d);
                if let Ok((v, e)) = value_at(src, d) {
                    if let Ok(entries2) = put_path(entries, Seq::empty(), path, v, line) {
                        let g = ws_end(src, e);
                        lemma_run_end_bounds(src, e, |b: u8| is_ws(b));
                        if 0 <= g < src.len() && src[g] == 44 && e > d {
                            lemma_inline_bounds(src, g + 1, entries2, line);
                        }
                    }
                }
            }
        }
    }
}


/// No two entries of the table share a key.
pub open spec fn keys_distinct(entries: Seq<(Seq<char>, Doc)>) -> bool {
    forall|i: int, j: int| 0 <= i < j < entries.len() ==> entries[i].0 != entries[j].0
}

/// No table in `d`, at any depth, holds a key twice.
pub open spec fn well_keyed(d: Doc) -> bool
    decreases d,
{
    match d {
        Doc::Tab(entries, _) => keys_distinct(entries) && forall|i: int|
            0 <= i < entries.len() ==> well_keyed(#[trigger] entries[i].1),
        Doc::Arr(items) => all_well_keyed(items),
        _ => true,
    }
}

/// No table in any of `items` holds a key twice.
pub open spec fn all_well_keyed(items: Seq<Doc>) -> bool
    decreases items,
{
    forall|i: int| 0 <= i < items.len() ==> well_keyed(#[trigger] items[i])
}


/// A table whose keys are distinct and whose values are well keyed.
pub open spec fn table_ok(entries: Seq<(Seq<char>, Doc)>) -> bool {
    well_keyed(Doc::Tab(entries, false))
}

pub proof fn lemma_find_from_facts(entries: Seq<(Seq<char>, Doc)>, key: Seq<char>, from: int)
    requires
        0 <= from,
    ensures
        find_from(entries, key, from) matches Some(i) ==> from <= i < entries.len() && entries[i].0 == key
            && forall|k: int| from <= k < i ==> entries[k].0 != key,
        find_from(entries, key, from) is None ==> forall|k: int| from <= k < entries.len() ==> entries[k].0 != key,
    decreases entries.len() - from,
{
    if from < entries.len() && entries[from].0 != key {
        lemma_find_from_facts(entries, key, from + 1);
    }
}

pub proof fn lemma_find_facts(entries: Seq<(Seq<char>, Doc)>, key: Seq<char>)
    ensures
        find(entries, key) matches Some(i) ==> 0 <= i < entries.len() && entries[i].0 == key
            && forall|k: int| 0 <= k < i ==> entries[k].0 != key,
        find(entries, key) is None ==> forall|k: int| 0 <= k < entries.len() ==> entries[k].0 != key,
{
    lemma_find_from_facts(entries, key, 0);
}

proof fn lemma_fresh_ok()
    ensures
        well_keyed(Doc::Tab(Seq::empty(), true)),
        well_keyed(Doc::Arr(seq![Doc::Tab(Seq::empty(), true)])),
        table_ok(Seq::empty()),
{
    let t = Doc::Tab(Seq::<(Seq<char>, Doc)>::empty(), true);
    assert(well_keyed(t));
    let a = seq![t];
    assert(a[0] == t);
    assert(all_well_keyed(a));
    assert(well_keyed(Doc::Arr(a)));
}

proof fn lemma_push_ok(entries: Seq<(Seq<char>, Doc)>, key: Seq<char>, v: Doc, defined: bool)
    requires
        table_ok(entries),
        find(entries, key) is None,
        well_keyed(v),
    ensures
        table_ok(entries.push((key, v))),
        well_keyed(Doc::Tab(entries.push((key, v)), defined)),
{
    lemma_find_facts(entries, key);
    let e2 = entries.push((key, v));
    assert forall|i: int| 0 <= i < e2.len() implies well_keyed(#[trigger] e2[i].1) by {
        if i < entries.len() {
            assert(e2[i] == entries[i]);
        }
    }
    assert(keys_distinct(e2));
}

proof fn lemma_update_ok(entries: Seq<(Seq<char>, Doc)>, i: int, v: Doc, defined: bool)
    requires
        table_ok(entries),
        0 <= i < entries.len(),
        well_keyed(v),
    ensures
        table_ok(entries.update(i, (entries[i].0, v))),
        well_keyed(Doc::Tab(entries.update(i, (entries[i].0, v)), defined)),
{
    let e2 = entries.update(i, (entries[i].0, v));
    assert forall|k: int| 0 <= k < e2.len() implies well_keyed(#[trigger] e2[k].1) by {
        if k != i {
            assert(e2[k] == entries[k]);
        }
    }
    assert forall|a: int, b: int| 0 <= a < b < e2.len() implies e2[a].0 != e2[b].0 by {
        assert(e2[a].0 == entries[a].0);
        assert(e2[b].0 == entries[b].0);
    }
}

proof fn lemma_array_update_ok(items: Seq<Doc>, v: Doc)
    requires
        well_keyed(Doc::Arr(items)),
        items.len() > 0,
        well_keyed(v),
    ensures
        well_keyed(Doc::Arr(items.update(items.len() - 1, v))),
{
    let i2 = items.update(items.len() - 1, v);
    reveal_with_fuel(well_keyed, 2);
    assert(well_keyed(Doc::Arr(items)) ==> all_well_keyed(items));
    assert forall|k: int| 0 <= k < i2.len() implies well_keyed(#[trigger] i2[k]) by {
        if k != items.len() - 1 {
            assert(i2[k] == items[k]);
            assert(well_keyed(items[k]));
        } else {
            assert(i2[k] == v);
        }
    }
}

proof fn lemma_array_push_ok(items: Seq<Doc>, v: Doc)
    requires
        well_keyed(Doc::Arr(items)),
        well_keyed(v),
    ensures
        well_keyed(Doc::Arr(items.push(v))),
{
    let i2 = items.push(v);
    reveal_with_fuel(well_keyed, 2);
    assert(well_keyed(Doc::Arr(items)) ==> all_well_keyed(items));
    assert forall|k: int| 0 <= k < i2.len() implies well_keyed(#[trigger] i2[k]) by {
        if k < items.len() {
            assert(i2[k] == items[k]);
            assert(well_keyed(items[k]));
        } else {
            assert(i2[k] == v);
        }
    }
}

pub proof fn lemma_perform_ok(entries: Seq<(Seq<char>, Doc)>, last: Seq<char>, name: Seq<char>, act: Act, line: int)
    requires
        table_ok(entries),
        act matches Act::Put(v) ==> well_keyed(v),
    ensures
        perform(entries, last, name, act, line) matches Ok(e2) ==> table_ok(e2),
{
    lemma_find_facts(entries, last);
    lemma_fresh_ok();
    match find(entries, last) {
        None => {
            match act {
                Act::Open => lemma_push_ok(entries, last, Doc::Tab(Seq::empty(), true), false),
                Act::OpenArray => lemma_push_ok(entries, last, Doc::Arr(seq![Doc::Tab(Seq::empty(), true)]), false),
                Act::Put(v) => lemma_push_ok(entries, last, v, false),
            }
        },
        Some(i) => {
            assert(well_keyed(entries[i].1));
            match act {
                Act::Open => {
                    if let Doc::Tab(inner, defined) = entries[i].1 {
                        assert(well_keyed(Doc::Tab(inner, true)));
                        lemma_update_ok(entries, i, Doc::Tab(inner, true), false);
                    }
                },
                Act::OpenArray => {
                    if let Doc::Arr(items) = entries[i].1 {
                        lemma_array_push_ok(items, Doc::Tab(Seq::empty(), true));
                        lemma_update_ok(entries, i, Doc::Arr(items.push(Doc::Tab(Seq::empty(), true))), false);
                    }
                },
                Act::Put(_) => {},
            }
        },
    }
}

pub proof fn lemma_descend_ok(
    entries: Seq<(Seq<char>, Doc)>,
    keys: Seq<Seq<char>>,
    last: Seq<char>,
    name: Seq<char>,
    act: Act,
    line: int,
)
    requires
        table_ok(entries),
        act matches Act::Put(v) ==> well_keyed(v),
    ensures
        descend(entries, keys, last, name, act, line) matches Ok(e2) ==> table_ok(e2),
    decreases keys.len(),
{
    if keys.len() == 0 {
        lemma_perform_ok(entries, last, name, act, line);
    } else {
        let key = keys[0];
        let rest = keys.drop_first();
        lemma_find_facts(entries, key);
        lemma_fresh_ok();
        match find(entries, key) {
            None => {
                lemma_descend_ok(Seq::empty(), rest, last, name, act, line);
                if let Ok(inner) = descend(Seq::empty(), rest, last, name, act, line) {
                    lemma_push_ok(entries, key, Doc::Tab(inner, false), false);
                }
            },
            Some(i) => {
                assert(well_keyed(entries[i].1));
                match entries[i].1 {
                    Doc::Tab(inner, defined) => {
                        lemma_descend_ok(inner, rest, last, name, act, line);
                        if let Ok(inner2) = descend(inner, rest, last, name, act, line) {
                            lemma_update_ok(entries, i, Doc::Tab(inner2, defined), false);
                        }
                    },
                    Doc::Arr(items) => {
                        if items.len() > 0 && items.last() is Tab {
                            if let Doc::Tab(inner, defined) = items.last() {
                                assert(all_well_keyed(items));
                                assert(well_keyed(items[items.len() - 1]));
                                lemma_descend_ok(inner, rest, last, name, act, line);
                                if let Ok(inner2) = descend(inner, rest, last, name, act, line) {
                                    lemma_array_update_ok(items, Doc::Tab(inner2, defined));
                                    lemma_update_ok(
                                        entries,
                                        i,
                                        Doc::Arr(items.update(items.len() - 1, Doc::Tab(inner2, defined))),
                                        false,
                                    );
                                }
                            }
                        }
                    },
                    _ => {},
                }
            },
        }
    }
}

pub proof fn lemma_value_ok(src: Seq<u8>, p: int)
    ensures
        value_at(src, p) matches Ok((d, _)) ==> well_keyed(d),
    decreases src.len() - p, 0nat,
{
    if 0 <= p < src.len() {
        if src[p] == 91 {
            assert(all_well_keyed(Seq::empty()));
            assert(well_keyed(Doc::Arr(Seq::empty())));
            lemma_array_ok(src, p + 1, Seq::empty());
        } else if src[p] == 123 {
            lemma_run_end_bounds(src, p + 1, |b: u8| is_ws(b));
            lemma_fresh_ok();
            let q = ws_end(src, p + 1);
            if !(q < src.len() && src[q] == 125) {
                lemma_inline_ok(src, q, Seq::empty(), line_at(src, p));
            }
        }
    }
}

pub proof fn lemma_array_ok(src: Seq<u8>, i: int, items: Seq<Doc>)
    requires
        well_keyed(Doc::Arr(items)),
    ensures
        array_from(src, i, items) matches Ok((d, _)) ==> well_keyed(d),
    decreases src.len() - i, 1nat,
{
    let q = blank_end(src, i);
    if 0 <= i && q >= i && q < src.len() && src[q] != 93 {
        lemma_value_ok(src, q);
        if let Ok((v, e)) = value_at(src, q) {
            lemma_array_push_ok(items, v);
            let r = blank_end(src, e);
            if r < src.len() && r >= e && e > q && src[r] == 44 {
                lemma_array_ok(src, r + 1, items.push(v));
            }
        }
    }
}

pub proof fn lemma_inline_ok(src: Seq<u8>, i: int, entries: Seq<(Seq<char>, Doc)>, line: int)
    requires
        table_ok(entries),
    ensures
        inline_from(src, i, entries, line) matches Ok((d, _)) ==> well_keyed(d),
    decreases src.len() - i, 1nat,
{
    if 0 <= i <= src.len() {
        let a = ws_end(src, i);
        lemma_run_end_bounds(src, i, |b: u8| is_ws(b));
        lemma_key_path_bounds(src, a, Seq::empty());
        if let Ok((path, b)) = key_path_at(src, a) {
            let c = ws_end(src, b);
            lemma_run_end_bounds(src, b, |b: u8| is_ws(b));
            if 0 <= c < src.len() && src[c] == 61 {
                let d = ws_end(src, c + 1);
                lemma_run_end_bounds(src, c + 1, |b: u8| is_ws(b));
                lemma_value_ok(src, d);
                if let Ok((v, e)) = value_at(src, d) {
                    lemma_descend_ok(entries, Seq::empty() + path.drop_last(), path.last(), join_keys(path), Act::Put(v), line);
                    if let Ok(entries2) = put_path(entries, Seq::empty(), path, v, line) {
                        assert(well_keyed(Doc::Tab(entries2, true)) == table_ok(entries2));
                        let g = ws_end(src, e);
                        lemma_run_end_bounds(src, e, |b: u8| is_ws(b));
                        if 0 <= g < src.len() && src[g] == 44 && e > d {
                            lemma_inline_ok(src, g + 1, entries2, line);
                        }
                    }
                }
            }
        }
    }
}

/// A header keeps the root well keyed.
proof fn lemma_header_ok(src: Seq<u8>, q: int, root: Seq<(Seq<char>, Doc)>)
    requires
        table_ok(root),
    ensures
        header_at(src, q, root) matches Ok((_, root2, _)) ==> table_ok(root2),
{
    let array = q + 1 < src.len() && src[q + 1] == 91;
    let a = ws_end(src, if array { q + 2 } else { q + 1 });
    if let Ok((path, b)) = key_path_at(src, a) {
        let act = if array { Act::OpenArray } else { Act::Open };
        lemma_descend_ok(root, path.drop_last(), path.last(), join_keys(path), act, line_at(src, q));
    }
}

/// An assignment keeps the root well keyed.
proof fn lemma_assignment_ok(src: Seq<u8>, q: int, root: Seq<(Seq<char>, Doc)>, current: Seq<Seq<char>>)
    requires
        table_ok(root),
    ensures
        assignment_at(src, q, root, current) matches Ok((_, root2)) ==> table_ok(root2),
{
    if let Ok((path, b)) = key_path_at(src, q) {
        let c = ws_end(src, b);
        lemma_value_ok(src, ws_end(src, c + 1));
        if let Ok((v, e)) = value_at(src, ws_end(src, c + 1)) {
            lemma_descend_ok(root, current + path.drop_last(), path.last(), join_keys(path), Act::Put(v), line_at(src, q));
        }
    }
}

pub proof fn lemma_statements_ok(src: Seq<u8>, p: int, root: Seq<(Seq<char>, Doc)>, current: Seq<Seq<char>>)
    requires
        table_ok(root),
    ensures
        statements_from(src, p, root, current) matches Ok(r) ==> table_ok(r),
    decreases src.len() - p,
{
    let q = blank_end(src, p);
    lemma_blank_end_bounds(src, p);
    if 0 <= p && q >= p && q < src.len() {
        if src[q] == 91 {
            lemma_header_ok(src, q, root);
            lemma_header_bounds(src, q, root);
            if let Ok((e, root2, path)) = header_at(src, q, root) {
                lemma_statements_ok(src, e, root2, path);
            }
        } else {
            lemma_assignment_ok(src, q, root, current);
            lemma_assignment_bounds(src, q, root, current);
            if let Ok((f, root2)) = assignment_at(src, q, root, current) {
                lemma_statements_ok(src, f, root2, current);
            }
        }
    }
}

/// No table of a document that reads, at any depth, holds a key twice: a
/// second assignment to a key, or a second header for a table, is refused
/// instead of read.
pub proof fn law_no_key_twice(src: Seq<u8>)
    ensures
        document(src) matches Ok(d) ==> well_keyed(d),
{
    lemma_fresh_ok();
    lemma_statements_ok(src, 0, Seq::empty(), Seq::empty());
}

// ---------------------------------------------------------------------------
// Key order and repeats
// ---------------------------------------------------------------------------

/// The keys of `a` begin `b`, each in its place.
pub open spec fn keeps_keys(a: Seq<(Seq<char>, Doc)>, b: Seq<(Seq<char>, Doc)>) -> bool {
    a.len() <= b.len() && forall|i: int| 0 <= i < a.len() ==> #[trigger] b[i].0 == a[i].0
}

proof fn lemma_perform_keeps(entries: Seq<(Seq<char>, Doc)>, last: Seq<char>, name: Seq<char>, act: Act, line: int)
    ensures
        perform(entries, last, name, act, line) matches Ok(e2) ==> keeps_keys(entries, e2),
{
    lemma_find_facts(entries, last);
}

proof fn lemma_descend_keeps(
    entries: Seq<(Seq<char>, Doc)>,
    keys: Seq<Seq<char>>,
    last: Seq<char>,
    name: Seq<char>,
    act: Act,
    line: int,
)
    ensures
        descend(entries, keys, last, name, act, line) matches Ok(e2) ==> keeps_keys(entries, e2),
    decreases keys.len(),
{
    if keys.len() == 0 {
        lemma_perform_keeps(entries, last, name, act, line);
    } else {
        lemma_find_facts(entries, keys[0]);
    }
}

proof fn lemma_keeps_trans(a: Seq<(Seq<char>, Doc)>, b: Seq<(Seq<char>, Doc)>, c: Seq<(Seq<char>, Doc)>)
    requires
        keeps_keys(a, b),
        keeps_keys(b, c),
    ensures
        keeps_keys(a, c),
{
    assert forall|i: int| 0 <= i < a.len() implies #[trigger] c[i].0 == a[i].0 by {
        assert(c[i].0 == b[i].0);
    }
}

proof fn lemma_statements_keep(src: Seq<u8>, p: int, root: Seq<(Seq<char>, Doc)>, current: Seq<Seq<char>>)
    ensures
        statements_from(src, p, root, current) matches Ok(r) ==> keeps_keys(root, r),
    decreases src.len() - p,
{
    let q = blank_end(src, p);
    lemma_blank_end_bounds(src, p);
    if 0 <= p && q >= p && q < src.len() {
        if src[q] == 91 {
            lemma_header_bounds(src, q, root);
            if let Ok((e, root2, path)) = header_at(src, q, root) {
                let array = q + 1 < src.len() && src[q + 1] == 91;
                let act = if array { Act::OpenArray } else { Act::Open };
                lemma_descend_keeps(root, path.drop_last(), path.last(), join_keys(path), act, line_at(src, q));
                lemma_statements_keep(src, e, root2, path);
                if let Ok(r) = statements_from(src, e, root2, path) {
                    lemma_keeps_trans(root, root2, r);
                }
            }
        } else {
            lemma_assignment_bounds(src, q, root, current);
            if let Ok((f, root2)) = assignment_at(src, q, root, current) {
                if let Ok((path, b)) = key_path_at(src, q) {
                    let c = ws_end(src, b);
                    if let Ok((v, e)) = value_at(src, ws_end(src, c + 1)) {
                        lemma_descend_keeps(root, current + path.drop_last(), path.last(), join_keys(path), Act::Put(v), line_at(src, q));
                    }
                }
                lemma_statements_keep(src, f, root2, current);
                if let Ok(r) = statements_from(src, f, root2, current) {
                    lemma_keeps_trans(root, root2, r);
                }
            }
        }
    }
}

proof fn lemma_inline_keeps(src: Seq<u8>, i: int, entries: Seq<(Seq<char>, Doc)>, line: int)
    ensures
        inline_from(src, i, entries, line) matches Ok((Doc::Tab(e2, _), _)) ==> keeps_keys(entries, e2),
    decreases src.len() - i,
{
    if 0 <= i <= src.len() {
        let a = ws_end(src, i);
        if let Ok((path, b)) = key_path_at(src, a) {
            let c = ws_end(src, b);
            if 0 <= c < src.len() && src[c] == 61 {
                let d = ws_end(src, c + 1);
                lemma_run_end_bounds(src, i, |b: u8| is_ws(b));
                lemma_key_path_bounds(src, a, Seq::empty());
                lemma_run_end_bounds(src, b, |b: u8| is_ws(b));
                lemma_run_end_bounds(src, c + 1, |b: u8| is_ws(b));
                if let Ok((v, e)) = value_at(src, d) {
                    lemma_descend_keeps(entries, path.drop_last(), path.last(), join_keys(path), Act::Put(v), line);
                    if let Ok(entries2) = put_path(entries, Seq::empty(), path, v, line) {
                        let g = ws_end(src, e);
                        lemma_run_end_bounds(src, e, |b: u8| is_ws(b));
                        if 0 <= g < src.len() && src[g] == 44 && e > d {
                            lemma_inline_keeps(src, g + 1, entries2, line);
                            if let Ok((Doc::Tab(e3, _), _)) = inline_from(src, g + 1, entries2, line) {
                                lemma_keeps_trans(entries, entries2, e3);
                            }
                        }
                    }
                }
            }
        }
    }
}

/// Reading on never moves or drops a key already read: the keys a table
/// holds keep their places and the keys defined after them come after them,
/// so a table's keys are in the order the file first defines them. So for
/// the statements of a document from any point, and for the entries of an
/// inline table.
pub proof fn law_keys_in_file_order(src: Seq<u8>, p: int, root: Seq<(Seq<char>, Doc)>, current: Seq<Seq<char>>, line: int)
    ensures
        statements_from(src, p, root, current) matches Ok(r) ==> keeps_keys(root, r),
        inline_from(src, p, root, line) matches Ok((Doc::Tab(e2, _), _)) ==> keeps_keys(root, e2),
{
    lemma_statements_keep(src, p, root, current);
    lemma_inline_keeps(src, p, root, line);
}

/// The table that walking `keys` down from the table `entries` reaches
/// without making any: through tables, and into the last table of an array
/// of tables.
pub open spec fn reached(entries: Seq<(Seq<char>, Doc)>, keys: Seq<Seq<char>>) -> Option<Seq<(Seq<char>, Doc)>>
    decreases keys.len(),
{
    if keys.len() == 0 {
        Some(entries)
    } else {
        match lookup(entries, keys[0]) {
            Some(Doc::Tab(inner, _)) => reached(inner, keys.drop_first()),
            Some(Doc::Arr(items)) => if items.len() > 0 {
                match items.last() {
                    Doc::Tab(inner, _) => reached(inner, keys.drop_first()),
                    _ => None,
                }
            } else {
                None
            },
            _ => None,
        }
    }
}

/// A repeat is refused as `Duplicate`, naming the key as written: assigning
/// a key the table it lands in holds already, whether by a statement or
/// inside an inline table, and opening with a header a table a header
/// opened already.
pub proof fn law_a_repeat_is_duplicate(
    entries: Seq<(Seq<char>, Doc)>,
    keys: Seq<Seq<char>>,
    last: Seq<char>,
    name: Seq<char>,
    v: Doc,
    line: int,
)
    requires
        reached(entries, keys) is Some,
    ensures
        find(reached(entries, keys)->0, last) is Some ==> descend(entries, keys, last, name, Act::Put(v), line)
            == Err::<Seq<(Seq<char>, Doc)>, (Fault, int)>((Fault::Duplicate(name), line)),
        lookup(reached(entries, keys)->0, last) matches Some(Doc::Tab(_, defined)) && defined ==> descend(
            entries,
            keys,
            last,
            name,
            Act::Open,
            line,
        ) == Err::<Seq<(Seq<char>, Doc)>, (Fault, int)>((Fault::Duplicate(name), line)),
    decreases keys.len(),
{
    if keys.len() > 0 {
        lemma_find_facts(entries, keys[0]);
        law_a_repeat_is_duplicate(
            match lookup(entries, keys[0]) {
                Some(Doc::Tab(inner, _)) => inner,
                Some(Doc::Arr(items)) => match items.last() {
                    Doc::Tab(inner, _) => inner,
                    _ => entries,
                },
                _ => entries,
            },
            keys.drop_first(),
            last,
            name,
            v,
            line,
        );
    }
}

// ---------------------------------------------------------------------------
// Escapes
// ---------------------------------------------------------------------------

/// In a `"basic"` string, a backslash and one of the letters TOML gives a
/// meaning stands for that character and the string goes on after the two
/// bytes: `\b` U+0008, `\t` U+0009, `\n` U+000A, `\f` U+000C, `\r` U+000D,
/// `\"` a quote and `\\` a backslash. A backslash before any other byte but
/// `u` and `U` is a bad escape.
pub proof fn law_string_escapes(src: Seq<u8>, i: int, acc: Seq<char>)
    requires
        0 <= i,
        i + 1 < src.len(),
        src[i] == 92,
    ensures
        src[i + 1] == 98 ==> basic_from(src, i, acc) == basic_from(src, i + 2, acc.push('\u{8}')),
        src[i + 1] == 116 ==> basic_from(src, i, acc) == basic_from(src, i + 2, acc.push('\u{9}')),
        src[i + 1] == 110 ==> basic_from(src, i, acc) == basic_from(src, i + 2, acc.push('\u{a}')),
        src[i + 1] == 102 ==> basic_from(src, i, acc) == basic_from(src, i + 2, acc.push('\u{c}')),
        src[i + 1] == 114 ==> basic_from(src, i, acc) == basic_from(src, i + 2, acc.push('\u{d}')),
        src[i + 1] == 34 ==> basic_from(src, i, acc) == basic_from(src, i + 2, acc.push('\u{22}')),
        src[i + 1] == 92 ==> basic_from(src, i, acc) == basic_from(src, i + 2, acc.push('\u{5c}')),
        !(src[i + 1] == 98 || src[i + 1] == 116 || src[i + 1] == 110 || src[i + 1] == 102 || src[i + 1] == 114
            || src[i + 1] == 34 || src[i + 1] == 92 || src[i + 1] == 117 || src[i + 1] == 85) ==> basic_from(src, i, acc)
            == Err::<(Seq<char>, int), (Fault, int)>((Fault::BadEscape, line_at(src, i + 2))),
{
}

} // verus!
