//! The end-of-replay report: what a capture held and what the pipeline made
//! of it, as text.
//!
//! The counts come from the replay; the trcodes and the decoder's
//! objections come as the text they print as.
use vstd::prelude::*;
use vstd::string::{StrSliceExecFns, StringExecFns};

use crate::log::{Timestamp, timestamp_text};
use crate::pcap::PacketTally;
use crate::text::{decimal, push_char, push_decimal};

verus! {

/// What the pipeline counted.
#[derive(Debug, Clone, Copy, PartialEq, Eq)]
pub struct PipelineCounts {
    pub received: u64,
    pub published: u64,
    pub filtered: u64,
    pub filtered_trcode: u64,
    pub filtered_isin: u64,
    pub dropped: u64,
    pub too_short: u64,
    pub unknown_trcode: u64,
    pub wrong_length: u64,
    pub decode_failed: u64,
}

/// Messages the decoder refused with one objection.
#[derive(Debug, Clone, PartialEq, Eq)]
pub struct RefusedRow {
    /// How many.
    pub count: u64,
    /// The objection, as it prints.
    pub error: String,
    /// The first such message's leading bytes.
    pub head: Vec<u8>,
}

/// One trcode's line.
#[derive(Debug, Clone, PartialEq, Eq)]
pub struct CodeRow {
    /// The trcode, as it prints.
    pub code: String,
    pub received: u64,
    /// Datagram lengths seen, with counts.
    pub lengths: Vec<(u64, u64)>,
    pub bad_end: u64,
    pub published: u64,
    pub filtered: u64,
    pub filtered_isin: u64,
    pub unknown: u64,
    pub wrong_length: u64,
    pub failed: u64,
    /// What the decoder refused, by objection.
    pub failures: Vec<RefusedRow>,
}

/// One multicast group and port.
#[derive(Debug, Clone, PartialEq, Eq)]
pub struct PortRow {
    pub group: [u8; 4],
    pub port: u16,
    pub received: u64,
    /// Each trcode seen there, as it prints, with its count.
    pub codes: Vec<(String, u64)>,
}

// ---------------------------------------------------------------------------
// What the report says
// ---------------------------------------------------------------------------

pub open spec fn spaces(n: int) -> Seq<char> {
    Seq::new(if n > 0 { n as nat } else { 0 }, |i: int| ' ')
}

/// `s` right-aligned in `w` columns.
pub open spec fn pad_left(s: Seq<char>, w: int) -> Seq<char> {
    spaces(w - s.len()) + s
}

/// `s` left-aligned in `w` columns.
pub open spec fn pad_right(s: Seq<char>, w: int) -> Seq<char> {
    s + spaces(w - s.len())
}

pub open spec fn num(n: u64) -> Seq<char> {
    decimal(n as nat)
}

/// The indices `0..n` of `counts` in the order of a stable sort by count,
/// largest first.
pub open spec fn order_desc(counts: Seq<u64>, n: int) -> Seq<int>
    decreases n,
{
    if n <= 0 {
        Seq::empty()
    } else {
        insert_desc(order_desc(counts, n - 1), counts, n - 1)
    }
}

/// Where `i` goes in `order`: after every index whose count is at least
/// its own.
pub open spec fn insert_desc(order: Seq<int>, counts: Seq<u64>, i: int) -> Seq<int> {
    let p = first_below(order, counts, counts[i], 0);
    order.subrange(0, p).push(i) + order.subrange(p, order.len() as int)
}

/// The first position from `from` on whose count is below `c`, or the end.
pub open spec fn first_below(order: Seq<int>, counts: Seq<u64>, c: u64, from: int) -> int
    decreases order.len() - from,
{
    if from < 0 || from >= order.len() {
        order.len() as int
    } else if counts[order[from]] < c {
        from
    } else {
        first_below(order, counts, c, from + 1)
    }
}

pub open spec fn first_counts(pairs: Seq<(u64, u64)>) -> Seq<u64> {
    pairs.map_values(|p: (u64, u64)| p.1)
}

pub open spec fn second_counts(pairs: Seq<(String, u64)>) -> Seq<u64> {
    pairs.map_values(|p: (String, u64)| p.1)
}

/// The lengths column: each length with its count, most seen first; a
/// lone length without its count.
pub open spec fn lengths_text(lengths: Seq<(u64, u64)>) -> Seq<char> {
    let order = order_desc(first_counts(lengths), lengths.len() as int);
    if lengths.len() == 1 {
        num(lengths[0].0)
    } else {
        joined_lengths(lengths, order, order.len() as int)
    }
}

pub open spec fn joined_lengths(lengths: Seq<(u64, u64)>, order: Seq<int>, k: int) -> Seq<char>
    decreases k,
{
    if k <= 0 {
        Seq::empty()
    } else {
        let item = num(lengths[order[k - 1]].0) + "×"@ + num(lengths[order[k - 1]].1);
        if k == 1 {
            item
        } else {
            joined_lengths(lengths, order, k - 1) + " "@ + item
        }
    }
}

/// The codes of a port, most seen first, each as `code:count`.
pub open spec fn port_codes_text(codes: Seq<(String, u64)>) -> Seq<char> {
    joined_codes(codes, order_desc(second_counts(codes), codes.len() as int), codes.len() as int)
}

pub open spec fn joined_codes(codes: Seq<(String, u64)>, order: Seq<int>, k: int) -> Seq<char>
    decreases k,
{
    if k <= 0 {
        Seq::empty()
    } else {
        let item = codes[order[k - 1]].0@ + ":"@ + num(codes[order[k - 1]].1);
        if k == 1 {
            item
        } else {
            joined_codes(codes, order, k - 1) + " "@ + item
        }
    }
}

/// The ten columns of the code table.
pub open spec fn columns(c: Seq<Seq<char>>) -> Seq<char> {
    pad_right(c[0], 7) + " "@ + pad_left(c[1], 11) + " "@ + pad_right(c[2], 20) + " "@ + pad_left(c[3], 8) + " "@
        + pad_left(c[4], 11) + " "@ + pad_left(c[5], 11) + " "@ + pad_left(c[6], 9) + " "@ + pad_left(c[7], 8) + " "@
        + pad_left(c[8], 8) + " "@ + pad_left(c[9], 9)
}

pub open spec fn table_header() -> Seq<char> {
    columns(
        seq![
            "trcode"@,
            "recv"@,
            "len"@,
            "end!=FF"@,
            "published"@,
            "filtered"@,
            "isin-out"@,
            "unknown"@,
            "wronglen"@,
            "fail"@,
        ],
    )
}

pub open spec fn code_line(r: CodeRow) -> Seq<char> {
    columns(
        seq![
            r.code@,
            num(r.received),
            lengths_text(r.lengths@),
            num(r.bad_end),
            num(r.published),
            num(r.filtered),
            num(r.filtered_isin),
            num(r.unknown),
            num(r.wrong_length),
            num(r.failed),
        ],
    )
}

/// Leading bytes in quotes, each printable ASCII byte as itself and any
/// other as `.`.
pub open spec fn head_text(head: Seq<u8>) -> Seq<char> {
    "\""@ + head.map_values(|b: u8| if 0x20 <= b < 0x7f { b as char } else { '.' }) + "\""@
}

pub open spec fn refused_line(code: Seq<char>, f: RefusedRow) -> Seq<char> {
    code + " ×"@ + num(f.count) + ": "@ + f.error@ + " · "@ + head_text(f.head@)
}

/// The refused lines of the codes before `k`, each with its newline.
pub open spec fn refused_lines(codes: Seq<CodeRow>, k: int) -> Seq<char>
    decreases k,
{
    if k <= 0 {
        Seq::empty()
    } else {
        refused_lines(codes, k - 1) + refused_of(codes[k - 1], codes[k - 1].failures@.len() as int)
    }
}

pub open spec fn refused_of(r: CodeRow, k: int) -> Seq<char>
    decreases k,
{
    if k <= 0 {
        Seq::empty()
    } else {
        refused_of(r, k - 1) + refused_line(r.code@, r.failures@[k - 1]) + "\n"@
    }
}

pub open spec fn port_line(r: PortRow) -> Seq<char> {
    num(r.group[0] as u64) + "."@ + num(r.group[1] as u64) + "."@ + num(r.group[2] as u64) + "."@ + num(
        r.group[3] as u64,
    ) + ":"@ + pad_right(num(r.port as u64), 5) + " "@ + pad_left(num(r.received), 11) + "  "@ + port_codes_text(
        r.codes@,
    )
}

pub open spec fn code_lines(codes: Seq<CodeRow>, k: int) -> Seq<char>
    decreases k,
{
    if k <= 0 {
        Seq::empty()
    } else {
        code_lines(codes, k - 1) + code_line(codes[k - 1]) + "\n"@
    }
}

pub open spec fn port_lines(ports: Seq<PortRow>, k: int) -> Seq<char>
    decreases k,
{
    if k <= 0 {
        Seq::empty()
    } else {
        port_lines(ports, k - 1) + port_line(ports[k - 1]) + "\n"@
    }
}

pub open spec fn capture_line(p: PacketTally) -> Seq<char> {
    "capture: "@ + num(p.packets) + " packets · "@ + num(p.datagrams) + " datagrams · "@ + num(p.bytes) + " bytes · "@
        + timestamp_text(p.first_ns) + " → "@ + timestamp_text(p.last_ns)
}

pub open spec fn skipped_line(p: PacketTally) -> Seq<char> {
    "skipped: not-ipv4 "@ + num(p.not_ipv4) + " · not-udp "@ + num(p.not_udp) + " · fragment "@ + num(p.fragments)
        + " · short "@ + num(p.short) + " · truncated "@ + num(p.truncated)
}

pub open spec fn pipeline_line(s: PipelineCounts) -> Seq<char> {
    "pipeline: recv "@ + num(s.received) + " · pub "@ + num(s.published) + " · filtered "@ + num(s.filtered)
        + " (trcode "@ + num(s.filtered_trcode) + " isin "@ + num(s.filtered_isin) + ") · dropped "@ + num(s.dropped)
        + " (short "@ + num(s.too_short) + " unknown "@ + num(s.unknown_trcode) + " len "@ + num(s.wrong_length)
        + " fail "@ + num(s.decode_failed) + ")"@
}

/// The three summary lines, a blank line, and the code table's header.
pub open spec fn summary_text(p: PacketTally, s: PipelineCounts) -> Seq<char> {
    capture_line(p) + "\n"@ + skipped_line(p) + "\n"@ + pipeline_line(s) + "\n"@ + "\n"@ + table_header() + "\n"@
}

/// The refused messages under their title, if there were any.
pub open spec fn refused_text(codes: Seq<CodeRow>) -> Seq<char> {
    let refused = refused_lines(codes, codes.len() as int);
    if refused.len() > 0 {
        "\n"@ + "refused:\n"@ + refused
    } else {
        Seq::empty()
    }
}

/// The ports under their title.
pub open spec fn ports_text(ports: Seq<PortRow>) -> Seq<char> {
    "\n"@ + "ports:\n"@ + port_lines(ports, ports.len() as int)
}

/// The whole report: the summary, one line per trcode, the refused
/// messages if there were any, and the ports.
pub open spec fn report_text(p: PacketTally, s: PipelineCounts, codes: Seq<CodeRow>, ports: Seq<PortRow>) -> Seq<char> {
    summary_text(p, s) + code_lines(codes, codes.len() as int) + refused_text(codes) + ports_text(ports)
}


/// `order` lists each of `0..n` once.
pub open spec fn lists_each_once(order: Seq<int>, n: int) -> bool {
    &&& order.len() == n
    &&& forall|k: int| 0 <= k < order.len() ==> 0 <= #[trigger] order[k] < n
    &&& forall|a: int, b: int| 0 <= a < b < order.len() ==> order[a] != order[b]
}

/// Counts never rise along `order`, and indices of equal counts keep their
/// own order.
pub open spec fn stable_desc(order: Seq<int>, counts: Seq<u64>) -> bool {
    &&& forall|a: int, b: int| 0 <= a < b < order.len() ==> counts[order[a]] >= counts[order[b]]
    &&& forall|a: int, b: int| 0 <= a < b < order.len() && counts[order[a]] == counts[order[b]] ==> order[a] < order[b]
}

proof fn lemma_first_below(order: Seq<int>, counts: Seq<u64>, c: u64, from: int)
    requires
        0 <= from <= order.len(),
    ensures
        from <= first_below(order, counts, c, from) <= order.len(),
        forall|k: int| from <= k < first_below(order, counts, c, from) ==> counts[#[trigger] order[k]] >= c,
        first_below(order, counts, c, from) < order.len() ==> counts[order[first_below(order, counts, c, from)]] < c,
    decreases order.len() - from,
{
    if from < order.len() && counts[order[from]] >= c {
        lemma_first_below(order, counts, c, from + 1);
    }
}

/// Ports list their codes, and a code its lengths, most seen first; of two
/// seen as often, the one met first stays first; and nothing is lost or
/// repeated.
pub proof fn law_most_seen_first(counts: Seq<u64>, n: int)
    requires
        0 <= n <= counts.len(),
    ensures
        lists_each_once(order_desc(counts, n), n),
        stable_desc(order_desc(counts, n), counts),
    decreases n,
{
    if n > 0 {
        law_most_seen_first(counts, n - 1);
        let order = order_desc(counts, n - 1);
        let i = n - 1;
        let c = counts[i];
        lemma_first_below(order, counts, c, 0);
        let p = first_below(order, counts, c, 0);
        let r = order_desc(counts, n);
        assert(r == order.subrange(0, p).push(i) + order.subrange(p, order.len() as int));
        assert(r.len() == n);
        assert forall|k: int| 0 <= k < r.len() implies 0 <= #[trigger] r[k] < n by {
            if k < p {
                assert(r[k] == order[k]);
            } else if k > p {
                assert(r[k] == order[k - 1]);
            }
        }
        assert forall|a: int, b: int| 0 <= a < b < r.len() implies r[a] != r[b] by {
            if b == p {
                assert(r[a] == order[a]);
            } else if a == p {
                assert(r[b] == order[b - 1]);
            } else {
                let a2 = if a < p { a } else { a - 1 };
                let b2 = if b < p { b } else { b - 1 };
                assert(r[a] == order[a2]);
                assert(r[b] == order[b2]);
            }
        }
        assert forall|a: int, b: int| 0 <= a < b < r.len() implies counts[r[a]] >= counts[r[b]] by {
            if b == p {
                assert(r[a] == order[a]);
            } else if a == p {
                assert(r[b] == order[b - 1]);
                if b - 1 > p {
                    assert(counts[order[p]] >= counts[order[b - 1]]);
                }
            } else {
                let a2 = if a < p { a } else { a - 1 };
                let b2 = if b < p { b } else { b - 1 };
                assert(r[a] == order[a2]);
                assert(r[b] == order[b2]);
                if a < p && b > p {
                    if b2 > p {
                        assert(counts[order[p]] >= counts[order[b2]]);
                    }
                }
            }
        }
        assert forall|a: int, b: int|
            0 <= a < b < r.len() && counts[r[a]] == counts[r[b]] implies r[a] < r[b] by {
            if b == p {
                assert(r[a] == order[a]);
            } else if a == p {
                assert(r[b] == order[b - 1]);
                if b - 1 > p {
                    assert(counts[order[p]] >= counts[order[b - 1]]);
                }
            } else {
                let a2 = if a < p { a } else { a - 1 };
                let b2 = if b < p { b } else { b - 1 };
                assert(r[a] == order[a2]);
                assert(r[b] == order[b2]);
            }
        }
    }
}

// ---------------------------------------------------------------------------
// Writing it
// ---------------------------------------------------------------------------

fn push_spaces(s: &mut String, n: usize)
    ensures
        final(s)@ == old(s)@ + spaces(n as int),
{
    let mut i: usize = 0;
    while i < n
        invariant
            i <= n,
            s@ == old(s)@ + spaces(i as int),
        decreases n - i,
    {
        push_char(s, ' ');
        proof {
            assert(spaces(i + 1) =~= spaces(i as int).push(' '));
        }
        i += 1;
    }
}

/// Appends `t` right-aligned in `w` columns.
fn push_left(s: &mut String, t: &str, w: usize)
    ensures
        final(s)@ == old(s)@ + pad_left(t@, w as int),
{
    let n = t.unicode_len();
    if n < w {
        push_spaces(s, w - n);
    } else {
        assert(spaces(w - t@.len()) =~= Seq::<char>::empty());
    }
    s.append(t);
    assert(s@ =~= old(s)@ + pad_left(t@, w as int));
}

/// Appends `t` left-aligned in `w` columns.
fn push_right(s: &mut String, t: &str, w: usize)
    ensures
        final(s)@ == old(s)@ + pad_right(t@, w as int),
{
    s.append(t);
    let n = t.unicode_len();
    if n < w {
        push_spaces(s, w - n);
    } else {
        assert(spaces(w - t@.len()) =~= Seq::<char>::empty());
    }
    assert(s@ =~= old(s)@ + pad_right(t@, w as int));
}

fn number(n: u64) -> (res: String)
    ensures
        res@ == num(n),
{
    let mut t = String::new();
    push_decimal(&mut t, n);
    assert(t@ =~= num(n));
    t
}

/// The indices of `counts` in the order of a stable sort by count, largest
/// first.
pub fn order_by_count(counts: &[u64]) -> (res: Vec<usize>)
    ensures
        res@.len() == counts@.len(),
        order_desc(counts@, counts@.len() as int).len() == counts@.len(),
        forall|k: int| 0 <= k < res@.len() ==> #[trigger] res@[k] as int == order_desc(counts@, counts@.len() as int)[k],
        forall|k: int| 0 <= k < res@.len() ==> #[trigger] res@[k] < counts@.len(),
{
    let mut order: Vec<usize> = Vec::new();
    let mut i: usize = 0;
    while i < counts.len()
        invariant
            i <= counts@.len(),
            order@.len() == i,
            order@.map_values(|x: usize| x as int) == order_desc(counts@, i as int),
            order_desc(counts@, i as int).len() == i,
            forall|k: int| 0 <= k < i ==> #[trigger] order@[k] < i,
        decreases counts@.len() - i,
    {
        let ghost before = order@.map_values(|x: usize| x as int);
        let mut p: usize = 0;
        while p < order.len() && counts[order[p]] >= counts[i]
            invariant
                p <= order@.len(),
                i < counts@.len(),
                order@.len() == i,
                forall|k: int| 0 <= k < i ==> #[trigger] order@[k] < i,
                before == order@.map_values(|x: usize| x as int),
                first_below(before, counts@, counts@[i as int], 0) == first_below(
                    before,
                    counts@,
                    counts@[i as int],
                    p as int,
                ),
            decreases order@.len() - p,
        {
            p += 1;
        }
        assert(first_below(before, counts@, counts@[i as int], p as int) == p as int);
        let ghost prev = order@;
        order.insert(p, i);
        proof {
            let after = order@.map_values(|x: usize| x as int);
            assert(after =~= before.subrange(0, p as int).push(i as int) + before.subrange(p as int, before.len() as int));
            assert forall|k: int| 0 <= k < i + 1 implies #[trigger] order@[k] < i + 1 by {
                if k < p {
                    assert(order@[k] == prev[k]);
                } else if k > p {
                    assert(order@[k] == prev[k - 1]);
                }
            }
        }
        i += 1;
    }
    order
}

/// Appends the ten columns of the code table.
#[verifier::rlimit(50)]
fn push_columns(s: &mut String, c: &Vec<String>)
    requires
        c@.len() == 10,
    ensures
        final(s)@ == old(s)@ + columns(c@.map_values(|x: String| x@)),
{
    let ghost v = c@.map_values(|x: String| x@);
    push_right(s, c[0].as_str(), 7);
    s.append(" ");
    push_left(s, c[1].as_str(), 11);
    s.append(" ");
    push_right(s, c[2].as_str(), 20);
    s.append(" ");
    push_left(s, c[3].as_str(), 8);
    s.append(" ");
    push_left(s, c[4].as_str(), 11);
    s.append(" ");
    push_left(s, c[5].as_str(), 11);
    s.append(" ");
    push_left(s, c[6].as_str(), 9);
    s.append(" ");
    push_left(s, c[7].as_str(), 8);
    s.append(" ");
    push_left(s, c[8].as_str(), 8);
    s.append(" ");
    push_left(s, c[9].as_str(), 9);
    assert(s@ =~= old(s)@ + columns(v));
}

fn lengths_column(lengths: &Vec<(u64, u64)>) -> (res: String)
    ensures
        res@ == lengths_text(lengths@),
{
    let mut s = String::new();
    let mut counts: Vec<u64> = Vec::new();
    let mut i: usize = 0;
    while i < lengths.len()
        invariant
            i <= lengths@.len(),
            counts@ == first_counts(lengths@).subrange(0, i as int),
        decreases lengths@.len() - i,
    {
        counts.push(lengths[i].1);
        assert(counts@ =~= first_counts(lengths@).subrange(0, i + 1));
        i += 1;
    }
    assert(counts@ =~= first_counts(lengths@));
    if lengths.len() == 1 {
        push_decimal(&mut s, lengths[0].0);
        assert(s@ =~= lengths_text(lengths@));
        return s;
    }
    let order = order_by_count(counts.as_slice());
    let ghost ord = order_desc(first_counts(lengths@), lengths@.len() as int);
    let mut k: usize = 0;
    assert(s@ =~= joined_lengths(lengths@, ord, 0));
    while k < order.len()
        invariant
            k <= order@.len(),
            order@.len() == lengths@.len(),
            ord.len() == lengths@.len(),
            forall|j: int| 0 <= j < order@.len() ==> #[trigger] order@[j] as int == ord[j],
            forall|j: int| 0 <= j < order@.len() ==> #[trigger] order@[j] < lengths@.len(),
            s@ == joined_lengths(lengths@, ord, k as int),
        decreases order@.len() - k,
    {
        if k > 0 {
            s.append(" ");
        }
        let idx = order[k];
        push_decimal(&mut s, lengths[idx].0);
        s.append("×");
        push_decimal(&mut s, lengths[idx].1);
        proof {
            reveal_strlit(" ");
            assert(ord[k as int] == idx as int);
        }
        assert(s@ =~= joined_lengths(lengths@, ord, k + 1));
        k += 1;
    }
    s
}

fn port_codes_column(codes: &Vec<(String, u64)>) -> (res: String)
    ensures
        res@ == port_codes_text(codes@),
{
    let mut s = String::new();
    let mut counts: Vec<u64> = Vec::new();
    let mut i: usize = 0;
    while i < codes.len()
        invariant
            i <= codes@.len(),
            counts@ == second_counts(codes@).subrange(0, i as int),
        decreases codes@.len() - i,
    {
        counts.push(codes[i].1);
        assert(counts@ =~= second_counts(codes@).subrange(0, i + 1));
        i += 1;
    }
    assert(counts@ =~= second_counts(codes@));
    let order = order_by_count(counts.as_slice());
    let ghost ord = order_desc(second_counts(codes@), codes@.len() as int);
    let mut k: usize = 0;
    assert(s@ =~= joined_codes(codes@, ord, 0));
    while k < order.len()
        invariant
            k <= order@.len(),
            order@.len() == codes@.len(),
            ord.len() == codes@.len(),
            forall|j: int| 0 <= j < order@.len() ==> #[trigger] order@[j] as int == ord[j],
            forall|j: int| 0 <= j < order@.len() ==> #[trigger] order@[j] < codes@.len(),
            s@ == joined_codes(codes@, ord, k as int),
        decreases order@.len() - k,
    {
        if k > 0 {
            s.append(" ");
        }
        let idx = order[k];
        s.append(codes[idx].0.as_str());
        s.append(":");
        push_decimal(&mut s, codes[idx].1);
        proof {
            reveal_strlit(" ");
            assert(ord[k as int] == idx as int);
        }
        assert(s@ =~= joined_codes(codes@, ord, k + 1));
        k += 1;
    }
    s
}

fn push_code_line(s: &mut String, r: &CodeRow)
    ensures
        final(s)@ == old(s)@ + code_line(*r),
{
    let mut c: Vec<String> = Vec::new();
    c.push(r.code.clone());
    c.push(number(r.received));
    c.push(lengths_column(&r.lengths));
    c.push(number(r.bad_end));
    c.push(number(r.published));
    c.push(number(r.filtered));
    c.push(number(r.filtered_isin));
    c.push(number(r.unknown));
    c.push(number(r.wrong_length));
    c.push(number(r.failed));
    push_columns(s, &c);
    assert(c@.map_values(|x: String| x@) =~= seq![
        r.code@,
        num(r.received),
        lengths_text(r.lengths@),
        num(r.bad_end),
        num(r.published),
        num(r.filtered),
        num(r.filtered_isin),
        num(r.unknown),
        num(r.wrong_length),
        num(r.failed),
    ]);
}

fn push_head(s: &mut String, head: &Vec<u8>)
    ensures
        final(s)@ == old(s)@ + head_text(head@),
{
    s.append("\"");
    let ghost start = s@;
    let ghost shown = head@.map_values(|b: u8| if 0x20 <= b < 0x7f { b as char } else { '.' });
    let mut i: usize = 0;
    while i < head.len()
        invariant
            i <= head@.len(),
            shown == head@.map_values(|b: u8| if 0x20 <= b < 0x7f { b as char } else { '.' }),
            s@ == start + shown.subrange(0, i as int),
        decreases head@.len() - i,
    {
        let b = head[i];
        let c = if 0x20 <= b && b < 0x7f { b as char } else { '.' };
        push_char(s, c);
        assert(shown.subrange(0, i + 1) =~= shown.subrange(0, i as int).push(c));
        i += 1;
    }
    s.append("\"");
    assert(s@ =~= old(s)@ + head_text(head@));
}

fn push_refused_of(s: &mut String, r: &CodeRow)
    ensures
        final(s)@ == old(s)@ + refused_of(*r, r.failures@.len() as int),
{
    let mut k: usize = 0;
    while k < r.failures.len()
        invariant
            k <= r.failures@.len(),
            s@ == old(s)@ + refused_of(*r, k as int),
        decreases r.failures@.len() - k,
    {
        let f = &r.failures[k];
        s.append(r.code.as_str());
        s.append(" ×");
        push_decimal(s, f.count);
        s.append(": ");
        s.append(f.error.as_str());
        s.append(" · ");
        push_head(s, &f.head);
        s.append("\n");
        assert(s@ =~= old(s)@ + refused_of(*r, k + 1));
        k += 1;
    }
}

fn push_port_line(s: &mut String, r: &PortRow)
    ensures
        final(s)@ == old(s)@ + port_line(*r),
{
    push_decimal(s, r.group[0] as u64);
    s.append(".");
    push_decimal(s, r.group[1] as u64);
    s.append(".");
    push_decimal(s, r.group[2] as u64);
    s.append(".");
    push_decimal(s, r.group[3] as u64);
    s.append(":");
    let port = number(r.port as u64);
    push_right(s, port.as_str(), 5);
    s.append(" ");
    let received = number(r.received);
    push_left(s, received.as_str(), 11);
    s.append("  ");
    let codes = port_codes_column(&r.codes);
    s.append(codes.as_str());
    assert(s@ =~= old(s)@ + port_line(*r));
}

fn push_capture(s: &mut String, capture: &PacketTally)
    ensures
        final(s)@ == old(s)@ + capture_line(*capture) + "\n"@,
{
    s.append("capture: ");
    push_decimal(s, capture.packets);
    s.append(" packets · ");
    push_decimal(s, capture.datagrams);
    s.append(" datagrams · ");
    push_decimal(s, capture.bytes);
    s.append(" bytes · ");
    let first = Timestamp(capture.first_ns).to_string();
    s.append(first.as_str());
    s.append(" → ");
    let last = Timestamp(capture.last_ns).to_string();
    s.append(last.as_str());
    s.append("\n");
    assert(s@ =~= old(s)@ + capture_line(*capture) + "\n"@);
}

fn push_skipped(s: &mut String, capture: &PacketTally)
    ensures
        final(s)@ == old(s)@ + skipped_line(*capture) + "\n"@,
{
    s.append("skipped: not-ipv4 ");
    push_decimal(s, capture.not_ipv4);
    s.append(" · not-udp ");
    push_decimal(s, capture.not_udp);
    s.append(" · fragment ");
    push_decimal(s, capture.fragments);
    s.append(" · short ");
    push_decimal(s, capture.short);
    s.append(" · truncated ");
    push_decimal(s, capture.truncated);
    s.append("\n");
    assert(s@ =~= old(s)@ + skipped_line(*capture) + "\n"@);
}

fn push_pipeline(s: &mut String, pipeline: &PipelineCounts)
    ensures
        final(s)@ == old(s)@ + pipeline_line(*pipeline) + "\n"@,
{
    s.append("pipeline: recv ");
    push_decimal(s, pipeline.received);
    s.append(" · pub ");
    push_decimal(s, pipeline.published);
    s.append(" · filtered ");
    push_decimal(s, pipeline.filtered);
    s.append(" (trcode ");
    push_decimal(s, pipeline.filtered_trcode);
    s.append(" isin ");
    push_decimal(s, pipeline.filtered_isin);
    s.append(") · dropped ");
    push_decimal(s, pipeline.dropped);
    s.append(" (short ");
    push_decimal(s, pipeline.too_short);
    s.append(" unknown ");
    push_decimal(s, pipeline.unknown_trcode);
    s.append(" len ");
    push_decimal(s, pipeline.wrong_length);
    s.append(" fail ");
    push_decimal(s, pipeline.decode_failed);
    s.append(")");
    s.append("\n");
    assert(s@ =~= old(s)@ + pipeline_line(*pipeline) + "\n"@);
}

fn push_table_header(s: &mut String)
    ensures
        final(s)@ == old(s)@ + table_header() + "\n"@,
{
    let mut header: Vec<String> = Vec::new();
    header.push(String::from_str("trcode"));
    header.push(String::from_str("recv"));
    header.push(String::from_str("len"));
    header.push(String::from_str("end!=FF"));
    header.push(String::from_str("published"));
    header.push(String::from_str("filtered"));
    header.push(String::from_str("isin-out"));
    header.push(String::from_str("unknown"));
    header.push(String::from_str("wronglen"));
    header.push(String::from_str("fail"));
    assert(header@.map_values(|x: String| x@) =~= seq![
        "trcode"@,
        "recv"@,
        "len"@,
        "end!=FF"@,
        "published"@,
        "filtered"@,
        "isin-out"@,
        "unknown"@,
        "wronglen"@,
        "fail"@,
    ]);
    push_columns(s, &header);
    s.append("\n");
    assert(s@ =~= old(s)@ + table_header() + "\n"@);
}

fn push_code_lines(s: &mut String, codes: &Vec<CodeRow>)
    ensures
        final(s)@ == old(s)@ + code_lines(codes@, codes@.len() as int),
{
    let mut i: usize = 0;
    while i < codes.len()
        invariant
            i <= codes@.len(),
            s@ == old(s)@ + code_lines(codes@, i as int),
        decreases codes@.len() - i,
    {
        push_code_line(s, &codes[i]);
        s.append("\n");
        assert(s@ =~= old(s)@ + code_lines(codes@, i + 1));
        i += 1;
    }
}

fn refused_block(codes: &Vec<CodeRow>) -> (res: String)
    ensures
        res@ == refused_lines(codes@, codes@.len() as int),
{
    let mut refused = String::new();
    let mut j: usize = 0;
    assert(refused@ =~= refused_lines(codes@, 0));
    while j < codes.len()
        invariant
            j <= codes@.len(),
            refused@ == refused_lines(codes@, j as int),
        decreases codes@.len() - j,
    {
        push_refused_of(&mut refused, &codes[j]);
        assert(refused@ =~= refused_lines(codes@, j + 1));
        j += 1;
    }
    refused
}

fn push_port_lines(s: &mut String, ports: &Vec<PortRow>)
    ensures
        final(s)@ == old(s)@ + port_lines(ports@, ports@.len() as int),
{
    let mut k: usize = 0;
    while k < ports.len()
        invariant
            k <= ports@.len(),
            s@ == old(s)@ + port_lines(ports@, k as int),
        decreases ports@.len() - k,
    {
        push_port_line(s, &ports[k]);
        s.append("\n");
        assert(s@ =~= old(s)@ + port_lines(ports@, k + 1));
        k += 1;
    }
}

fn summary(capture: &PacketTally, pipeline: &PipelineCounts) -> (res: String)
    ensures
        res@ == summary_text(*capture, *pipeline),
{
    let mut s = String::new();
    push_capture(&mut s, capture);
    let ghost a = s@;
    push_skipped(&mut s, capture);
    let ghost b = s@;
    push_pipeline(&mut s, pipeline);
    let ghost c = s@;
    s.append("\n");
    let ghost d = s@;
    push_table_header(&mut s);
    assert(s@ =~= summary_text(*capture, *pipeline));
    s
}

fn refused_part(codes: &Vec<CodeRow>) -> (res: String)
    ensures
        res@ == refused_text(codes@),
{
    let refused = refused_block(codes);
    let mut s = String::new();
    if refused.unicode_len() > 0 {
        s.append("\n");
        s.append("refused:\n");
        s.append(refused.as_str());
    }
    assert(s@ =~= refused_text(codes@));
    s
}

fn ports_part(ports: &Vec<PortRow>) -> (res: String)
    ensures
        res@ == ports_text(ports@),
{
    let mut s = String::new();
    s.append("\n");
    s.append("ports:\n");
    let ghost title = s@;
    push_port_lines(&mut s, ports);
    assert(s@ =~= ports_text(ports@));
    s
}

/// The report of a replay: the capture's counts, the pipeline's, one line
/// per trcode in the order given, the refused messages, and one line per
/// group and port in the order given.
pub fn report(capture: &PacketTally, pipeline: &PipelineCounts, codes: &Vec<CodeRow>, ports: &Vec<PortRow>) -> (res: String)
    ensures
        res@ == report_text(*capture, *pipeline, codes@, ports@),
{
    let mut s = summary(capture, pipeline);
    push_code_lines(&mut s, codes);
    let refused = refused_part(codes);
    s.append(refused.as_str());
    let tail = ports_part(ports);
    s.append(tail.as_str());
    s
}

} // verus!
