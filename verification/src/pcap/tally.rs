//! What one trcode did during a replay: how many arrived, at which lengths,
//! with which ending, and what the pipeline made of each, with the first few
//! distinct objections kept with the head of the message that drew them.
//!
//! The pipeline's verdict comes as an [`Outcome`]; an objection comes as the
//! text it prints as, which is also what tells two objections apart.
use vstd::prelude::*;

use vstd::string::StringExecFns;

use crate::pcap::report::{CodeRow, RefusedRow};
use crate::types::str_eq;

verus! {

/// Bytes of a refused message's head that the report shows.
pub const FAILURE_HEAD: usize = 64;

/// Distinct objections kept per trcode.
pub const FAILURES_KEPT: usize = 8;

/// What the pipeline made of one message.
#[derive(Debug, Clone, PartialEq, Eq)]
pub enum Outcome {
    /// Decoded and published.
    Published,
    /// A trcode the filter does not keep.
    FilteredTrCode,
    /// An issue the filter does not keep.
    FilteredIsin,
    /// A trcode no decoder knows.
    UnknownTrCode,
    /// A length the trcode's layout does not have.
    WrongLength,
    /// The decoder refused it, with this objection.
    Failed(String),
    /// Too short to carry a trcode.
    TooShort,
}

/// A kept objection, as plain values: count, objection, head.
pub open spec fn refusal_view(f: RefusedRow) -> (u64, Seq<char>, Seq<u8>) {
    (f.count, f.error@, f.head@)
}

/// The first of `lengths` from `i` on that counts length `len`.
pub open spec fn length_slot(lengths: Seq<(u64, u64)>, len: u64, i: int) -> Option<int>
    decreases lengths.len() - i,
{
    if i < 0 || i >= lengths.len() {
        None
    } else if lengths[i].0 == len {
        Some(i)
    } else {
        length_slot(lengths, len, i + 1)
    }
}

/// The lengths seen, after one more message of length `len`: its count goes
/// up, or it joins the list with a count of one.
pub open spec fn with_length(lengths: Seq<(u64, u64)>, len: u64) -> Seq<(u64, u64)> {
    match length_slot(lengths, len, 0) {
        Some(i) => lengths.update(i, (len, (lengths[i].1 + 1) as u64)),
        None => lengths.push((len, 1)),
    }
}

/// The first kept objection from `i` on that reads `error`.
pub open spec fn refusal_slot(fs: Seq<(u64, Seq<char>, Seq<u8>)>, error: Seq<char>, i: int) -> Option<int>
    decreases fs.len() - i,
{
    if i < 0 || i >= fs.len() {
        None
    } else if fs[i].1 == error {
        Some(i)
    } else {
        refusal_slot(fs, error, i + 1)
    }
}

/// The objections kept, after one more message refused with `error`: an
/// objection already kept counts it; a new one is kept, with the message's
/// head, while there is room.
pub open spec fn with_refusal(fs: Seq<(u64, Seq<char>, Seq<u8>)>, error: Seq<char>, payload: Seq<u8>) -> Seq<
    (u64, Seq<char>, Seq<u8>),
> {
    match refusal_slot(fs, error, 0) {
        Some(i) => fs.update(i, ((fs[i].0 + 1) as u64, fs[i].1, fs[i].2)),
        None => if fs.len() < FAILURES_KEPT {
            fs.push((1, error, payload.take(if payload.len() < FAILURE_HEAD { payload.len() as int } else { FAILURE_HEAD as int })))
        } else {
            fs
        },
    }
}

/// No count of `r` is at its limit, so one more message can be counted.
pub open spec fn has_room(r: CodeRow) -> bool {
    &&& r.received < u64::MAX
    &&& r.bad_end < u64::MAX
    &&& r.published < u64::MAX
    &&& r.filtered < u64::MAX
    &&& r.filtered_isin < u64::MAX
    &&& r.unknown < u64::MAX
    &&& r.wrong_length < u64::MAX
    &&& r.failed < u64::MAX
    &&& forall|i: int| 0 <= i < r.lengths@.len() ==> #[trigger] r.lengths@[i].1 < u64::MAX
    &&& forall|i: int| 0 <= i < r.failures@.len() ==> #[trigger] r.failures@[i].count < u64::MAX
}

/// `r` after one more message of length `len`, ending with the end keyword
/// or not, that the pipeline answered with `outcome`.
pub open spec fn counted(r: CodeRow, len: u64, ends_right: bool, outcome: Outcome, payload: Seq<u8>, s: CodeRow) -> bool {
    &&& s.code@ == r.code@
    &&& s.received == r.received + 1
    &&& s.lengths@ == with_length(r.lengths@, len)
    &&& s.bad_end == r.bad_end + if ends_right { 0int } else { 1int }
    &&& s.published == r.published + if outcome is Published { 1int } else { 0int }
    &&& s.filtered == r.filtered + if outcome is FilteredTrCode { 1int } else { 0int }
    &&& s.filtered_isin == r.filtered_isin + if outcome is FilteredIsin { 1int } else { 0int }
    &&& s.unknown == r.unknown + if outcome is UnknownTrCode { 1int } else { 0int }
    &&& s.wrong_length == r.wrong_length + if outcome is WrongLength { 1int } else { 0int }
    &&& s.failed == r.failed + if outcome is Failed { 1int } else { 0int }
    &&& s.failures@.map_values(|f: RefusedRow| refusal_view(f)) == match outcome {
        Outcome::Failed(e) => with_refusal(r.failures@.map_values(|f: RefusedRow| refusal_view(f)), e@, payload),
        _ => r.failures@.map_values(|f: RefusedRow| refusal_view(f)),
    }
}

impl CodeRow {
    /// A trcode not seen yet.
    pub fn new(code: String) -> (res: CodeRow)
        ensures
            res.code@ == code@,
            res.received == 0,
            res.lengths@.len() == 0,
            res.bad_end == 0,
            res.published == 0,
            res.filtered == 0,
            res.filtered_isin == 0,
            res.unknown == 0,
            res.wrong_length == 0,
            res.failed == 0,
            res.failures@.len() == 0,
    {
        CodeRow {
            code,
            received: 0,
            lengths: Vec::new(),
            bad_end: 0,
            published: 0,
            filtered: 0,
            filtered_isin: 0,
            unknown: 0,
            wrong_length: 0,
            failed: 0,
            failures: Vec::new(),
        }
    }

    /// `true` when one more message can be counted: no count is at its
    /// limit.
    pub fn has_room(&self) -> (res: bool)
        ensures
            res == has_room(*self),
    {
        let m = u64::MAX;
        if !(self.received < m && self.bad_end < m && self.published < m && self.filtered < m
            && self.filtered_isin < m && self.unknown < m && self.wrong_length < m && self.failed < m) {
            return false;
        }
        let mut i: usize = 0;
        while i < self.lengths.len()
            invariant
                m == u64::MAX,
                i <= self.lengths@.len(),
                forall|k: int| 0 <= k < i ==> #[trigger] self.lengths@[k].1 < u64::MAX,
            decreases self.lengths@.len() - i,
        {
            if self.lengths[i].1 == m {
                return false;
            }
            i += 1;
        }
        let mut j: usize = 0;
        while j < self.failures.len()
            invariant
                m == u64::MAX,
                self.received < m && self.bad_end < m && self.published < m && self.filtered < m
                    && self.filtered_isin < m && self.unknown < m && self.wrong_length < m && self.failed < m,
                forall|k: int| 0 <= k < self.lengths@.len() ==> #[trigger] self.lengths@[k].1 < u64::MAX,
                j <= self.failures@.len(),
                forall|k: int| 0 <= k < j ==> #[trigger] self.failures@[k].count < u64::MAX,
            decreases self.failures@.len() - j,
        {
            if self.failures[j].count == m {
                return false;
            }
            j += 1;
        }
        true
    }

    fn saw_length(&mut self, len: u64)
        requires
            forall|i: int| 0 <= i < old(self).lengths@.len() ==> #[trigger] old(self).lengths@[i].1 < u64::MAX,
        ensures
            final(self).lengths@ == with_length(old(self).lengths@, len),
            final(self).code == old(self).code,
            final(self).failures == old(self).failures,
            final(self).received == old(self).received,
            final(self).bad_end == old(self).bad_end,
            final(self).published == old(self).published,
            final(self).filtered == old(self).filtered,
            final(self).filtered_isin == old(self).filtered_isin,
            final(self).unknown == old(self).unknown,
            final(self).wrong_length == old(self).wrong_length,
            final(self).failed == old(self).failed,
    {
        let mut i: usize = 0;
        while i < self.lengths.len()
            invariant
                i <= self.lengths@.len(),
                *self == *old(self),
                forall|k: int| 0 <= k < self.lengths@.len() ==> #[trigger] self.lengths@[k].1 < u64::MAX,
                length_slot(self.lengths@, len, 0) == length_slot(self.lengths@, len, i as int),
            decreases self.lengths@.len() - i,
        {
            if self.lengths[i].0 == len {
                let n = self.lengths[i].1 + 1;
                self.lengths.set(i, (len, n));
                return;
            }
            i += 1;
        }
        self.lengths.push((len, 1));
    }

    fn refused(&mut self, error: &String, payload: &[u8])
        requires
            forall|i: int| 0 <= i < old(self).failures@.len() ==> #[trigger] old(self).failures@[i].count < u64::MAX,
        ensures
            final(self).failures@.map_values(|f: RefusedRow| refusal_view(f)) == with_refusal(
                old(self).failures@.map_values(|f: RefusedRow| refusal_view(f)),
                error@,
                payload@,
            ),
            final(self).code == old(self).code,
            final(self).lengths == old(self).lengths,
            final(self).received == old(self).received,
            final(self).bad_end == old(self).bad_end,
            final(self).published == old(self).published,
            final(self).filtered == old(self).filtered,
            final(self).filtered_isin == old(self).filtered_isin,
            final(self).unknown == old(self).unknown,
            final(self).wrong_length == old(self).wrong_length,
            final(self).failed == old(self).failed,
    {
        let ghost before = self.failures@.map_values(|f: RefusedRow| refusal_view(f));
        let mut i: usize = 0;
        while i < self.failures.len()
            invariant
                i <= self.failures@.len(),
                *self == *old(self),
                forall|k: int| 0 <= k < self.failures@.len() ==> #[trigger] self.failures@[k].count < u64::MAX,
                before == self.failures@.map_values(|f: RefusedRow| refusal_view(f)),
                refusal_slot(before, error@, 0) == refusal_slot(before, error@, i as int),
            decreases self.failures@.len() - i,
        {
            if str_eq(self.failures[i].error.as_str(), error.as_str()) {
                let old_row = &self.failures[i];
                let row = RefusedRow {
                    count: old_row.count + 1,
                    error: String::from_str(old_row.error.as_str()),
                    head: payload_head(old_row.head.as_slice(), old_row.head.len()),
                };
                assert(old_row.head@.take(old_row.head@.len() as int) =~= old_row.head@);
                self.failures.set(i, row);
                proof {
                    assert(self.failures@.map_values(|f: RefusedRow| refusal_view(f)) =~= before.update(
                        i as int,
                        ((before[i as int].0 + 1) as u64, before[i as int].1, before[i as int].2),
                    ));
                }
                return;
            }
            i += 1;
        }
        if self.failures.len() < FAILURES_KEPT {
            let n = if payload.len() < FAILURE_HEAD {
                payload.len()
            } else {
                FAILURE_HEAD
            };
            let head = payload_head(payload, n);
            let row = RefusedRow { count: 1, error: String::from_str(error.as_str()), head };
            self.failures.push(row);
            proof {
                assert(self.failures@.map_values(|f: RefusedRow| refusal_view(f)) =~= before.push(
                    (1u64, error@, payload@.take(n as int)),
                ));
            }
        }
    }

    /// Counts one more message of length `len`, ending with the end keyword
    /// or not, that the pipeline answered with `outcome`; `payload` is the
    /// message, whose head is kept when its objection is new.
    pub fn count(&mut self, len: u64, ends_right: bool, outcome: &Outcome, payload: &[u8])
        requires
            has_room(*old(self)),
        ensures
            counted(*old(self), len, ends_right, *outcome, payload@, *final(self)),
    {
        self.received = self.received + 1;
        self.saw_length(len);
        if !ends_right {
            self.bad_end = self.bad_end + 1;
        }
        match outcome {
            Outcome::Published => {
                self.published = self.published + 1;
            },
            Outcome::FilteredTrCode => {
                self.filtered = self.filtered + 1;
            },
            Outcome::FilteredIsin => {
                self.filtered_isin = self.filtered_isin + 1;
            },
            Outcome::UnknownTrCode => {
                self.unknown = self.unknown + 1;
            },
            Outcome::WrongLength => {
                self.wrong_length = self.wrong_length + 1;
            },
            Outcome::Failed(e) => {
                self.failed = self.failed + 1;
                self.refused(e, payload);
            },
            Outcome::TooShort => {},
        }
    }
}

/// The first `n` bytes of `payload`.
fn payload_head(payload: &[u8], n: usize) -> (res: Vec<u8>)
    requires
        n <= payload@.len(),
    ensures
        res@ == payload@.take(n as int),
{
    let mut out: Vec<u8> = Vec::new();
    let mut k: usize = 0;
    while k < n
        invariant
            k <= n <= payload@.len(),
            out@ == payload@.take(k as int),
        decreases n - k,
    {
        out.push(payload[k]);
        assert(payload@.take(k + 1) =~= payload@.take(k as int).push(payload@[k as int]));
        k += 1;
    }
    out
}

} // verus!
