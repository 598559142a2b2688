//! Core masks and the SMT topology a placement has to respect.
//!
//! Masks are `u64`, one bit per logical processor, so processors 64 and up
//! cannot be named. Pinning itself is an OS call; what is decided here is
//! which mask a conf asks for, that an empty mask never reaches the OS, and
//! which processors share a physical core with a spinning thread.
use vstd::prelude::*;
use vstd::string::StringExecFns;

use crate::codec::{
    get_u16, get_u32, get_u64, holds_u16, holds_u32, holds_u64, lemma_u16_at, lemma_u32_at, lemma_u64_at, u16_at, u32_at,
    u64_at,
};
use crate::text::{decimal, push_decimal};

verus! {

/// Highest logical processor a mask can name, plus one.
pub const MAX_LOGICAL: usize = 64;

/// One bit per logical processor.
pub type Mask = u64;

/// Processor `lp` is named by `mask`.
pub open spec fn names(mask: u64, lp: int) -> bool {
    0 <= lp < 64 && (mask >> (lp as u64)) & 1u64 == 1u64
}

/// Some entry of `cores` is `lp`.
pub open spec fn lists(cores: Seq<u16>, lp: int) -> bool {
    exists|j: int| 0 <= j < cores.len() && cores[j] as int == lp
}

/// Bit facts about masks, each in terms of [`names`].
pub proof fn lemma_names_ops()
    ensures
        forall|lp: int| !#[trigger] names(0u64, lp),
        forall|a: u64, b: u64, lp: int|
            #[trigger] names(a | b, lp) <==> (names(a, lp) || names(b, lp)),
        forall|a: u64, b: u64, lp: int|
            #[trigger] names(a & b, lp) <==> (names(a, lp) && names(b, lp)),
        forall|a: u64, lp: int| 0 <= lp < 64 ==> (#[trigger] names(!a, lp) <==> !names(a, lp)),
        forall|c: u64, lp: int| c < 64 ==> (#[trigger] names(1u64 << c, lp) <==> lp == c as int),
        forall|a: u64, c: u64| c < 64 ==> ((#[trigger] (a & (1u64 << c)) != 0u64) <==> names(a, c as int)),
        forall|a: u64, b: u64| #[trigger] ((a & !b) & b) == 0u64,
{
    assert(forall|a: u64, c: u64| #![trigger (a & (1u64 << c))]
        c < 64 ==> ((a & (1u64 << c)) != 0u64 <==> (a >> c) & 1u64 == 1u64)) by (bit_vector);
    assert(forall|a: u64, b: u64| #[trigger] ((a & !b) & b) == 0u64) by (bit_vector);
    assert(forall|k: u64| #![trigger (0u64 >> k)] (0u64 >> k) & 1u64 != 1u64) by (bit_vector);
    assert(forall|a: u64, b: u64, k: u64| #![trigger ((a | b) >> k)]
        ((a | b) >> k) & 1u64 == 1u64 <==> ((a >> k) & 1u64 == 1u64 || (b >> k) & 1u64 == 1u64))
        by (bit_vector);
    assert(forall|a: u64, b: u64, k: u64| #![trigger ((a & b) >> k)]
        ((a & b) >> k) & 1u64 == 1u64 <==> ((a >> k) & 1u64 == 1u64 && (b >> k) & 1u64 == 1u64))
        by (bit_vector);
    assert(forall|a: u64, k: u64| #![trigger ((!a) >> k)]
        k < 64 ==> (((!a) >> k) & 1u64 == 1u64 <==> (a >> k) & 1u64 != 1u64)) by (bit_vector);
    assert(forall|c: u64, k: u64| #![trigger ((1u64 << c) >> k)]
        c < 64 && k < 64 ==> (((1u64 << c) >> k) & 1u64 == 1u64 <==> k == c)) by (bit_vector);
    assert forall|c: u64, lp: int| c < 64 implies (#[trigger] names(1u64 << c, lp) <==> lp == c as int) by {
        if 0 <= lp < 64 {
            assert(((1u64 << c) >> (lp as u64)) & 1u64 == 1u64 <==> (lp as u64) == c);
        }
    }
}

/// The mask naming `cores`, or `None` if any of them is out of range.
pub fn mask_of(cores: &[u16]) -> (res: Option<Mask>)
    ensures
        res is None <==> exists|j: int| 0 <= j < cores@.len() && cores@[j] >= 64,
        res matches Some(m) ==> forall|lp: int| 0 <= lp < 64 ==> (names(m, lp) <==> lists(cores@, lp)),
{
    proof {
        lemma_names_ops();
    }
    let mut mask: u64 = 0;
    let mut i: usize = 0;
    while i < cores.len()
        invariant
            0 <= i <= cores@.len(),
            forall|j: int| 0 <= j < i ==> cores@[j] < 64,
            forall|lp: int| 0 <= lp < 64 ==> (names(mask, lp) <==> lists(cores@.subrange(0, i as int), lp)),
        decreases cores@.len() - i,
    {
        let c = cores[i];
        if c as usize >= MAX_LOGICAL {
            return None;
        }
        let ghost before = mask;
        let shift: u64 = c as u64;
        mask = mask | (1u64 << shift);
        proof {
            lemma_names_ops();
            let s0 = cores@.subrange(0, i as int);
            let s1 = cores@.subrange(0, i + 1);
            assert forall|lp: int| 0 <= lp < 64 implies (names(mask, lp) <==> lists(s1, lp)) by {
                assert(names(mask, lp) <==> (names(before, lp) || names(1u64 << shift, lp)));
                if lists(s0, lp) {
                    let j = choose|j: int| 0 <= j < s0.len() && s0[j] as int == lp;
                    assert(s1[j] == s0[j]);
                }
                if lists(s1, lp) {
                    let j = choose|j: int| 0 <= j < s1.len() && s1[j] as int == lp;
                    if j < i {
                        assert(s0[j] == s1[j]);
                    }
                }
                assert(s1[i as int] == c);
            }
        }
        i += 1;
    }
    assert(cores@.subrange(0, cores@.len() as int) =~= cores@);
    Some(mask)
}

/// Why a pin or a topology query failed.
#[derive(Debug, Clone, Copy, PartialEq, Eq)]
pub enum CpuError {
    /// A mask with no bits set.
    EmptyMask,
    /// The OS reported no processors, which it never does.
    NoProcessors,
    /// A processor beyond [`MAX_LOGICAL`], or in a processor group other than
    /// the first.
    BeyondMask,
    /// An OS call failed.
    Os {
        /// The call, by its platform name.
        call: &'static str,
        /// The OS error code.
        code: u32,
    },
}

/// Confines the calling thread to the processors in `mask`, through
/// `os_pin`, the platform's affinity call.
///
/// An empty mask is refused here and never reaches the OS; any other mask is
/// handed to `os_pin` unchanged, and its answer is the answer.
pub fn pin_current_thread<F: FnOnce(Mask) -> Result<(), CpuError>>(mask: Mask, os_pin: F) -> (res: Result<(), CpuError>)
    requires
        mask != 0 ==> call_requires(os_pin, (mask,)),
    ensures
        mask == 0 ==> res == Err::<(), CpuError>(CpuError::EmptyMask),
        mask != 0 ==> call_ensures(os_pin, (mask,), res),
{
    if mask == 0 {
        return Err(CpuError::EmptyMask);
    }
    os_pin(mask)
}

/// Which logical processors share a physical core.
#[derive(Debug, Clone, PartialEq, Eq)]
pub struct Topology {
    /// `siblings[i]` is the mask of every logical processor on the same core
    /// as `i`, including `i` itself.
    siblings: Vec<Mask>,
}

impl View for Topology {
    type V = Seq<Mask>;

    /// The sibling mask of each logical processor, in processor order.
    closed spec fn view(&self) -> Seq<Mask> {
        self.siblings@
    }
}

/// What detecting a topology answers for what the OS query returned: its
/// error, `NoProcessors` for an empty list, else the list itself.
pub open spec fn detected(read: Result<Vec<Mask>, CpuError>, res: Result<Topology, CpuError>) -> bool {
    match read {
        Err(e) => res == Err::<Topology, CpuError>(e),
        Ok(v) => if v@.len() == 0 {
            res == Err::<Topology, CpuError>(CpuError::NoProcessors)
        } else {
            res matches Ok(t) && t@ == v@
        },
    }
}

/// Processors of `sib` (up to the first 64) that share a core with one in
/// `mask`, counting each processor in `mask` itself.
pub open spec fn shares_core(sib: Seq<Mask>, mask: u64, q: int) -> bool {
    exists|lp: int| 0 <= lp < sib.len() && lp < 64 && names(mask, lp) && names(sib[lp], q)
}

impl Topology {
    /// Asks the OS, through `read_siblings`: one sibling mask per logical
    /// processor, in processor order.
    pub fn detect<F: FnOnce() -> Result<Vec<Mask>, CpuError>>(read_siblings: F) -> (res: Result<Self, CpuError>)
        requires
            call_requires(read_siblings, ()),
        ensures
            exists|read: Result<Vec<Mask>, CpuError>| call_ensures(read_siblings, (), read) && detected(read, res),
    {
        let read = read_siblings();
        let ghost got = read;
        let res = Self::from_read(read);
        assert(call_ensures(read_siblings, (), got) && detected(got, res));
        res
    }

    /// The topology an OS query's answer describes: its error, `NoProcessors`
    /// for an empty list, else one processor per sibling mask.
    pub fn from_read(read: Result<Vec<Mask>, CpuError>) -> (res: Result<Self, CpuError>)
        ensures
            detected(read, res),
    {
        match read {
            Err(e) => Err(e),
            Ok(siblings) => {
                if siblings.len() == 0 {
                    Err(CpuError::NoProcessors)
                } else {
                    Ok(Topology { siblings })
                }
            },
        }
    }

    /// A topology stated rather than detected: for validating a conf against
    /// the box it will run on rather than the one it is read on.
    pub fn from_siblings(siblings: Vec<Mask>) -> (res: Self)
        ensures
            res@ == siblings@,
    {
        Topology { siblings }
    }

    /// Number of logical processors.
    pub fn logical(&self) -> (res: usize)
        ensures
            res == self@.len(),
    {
        self.siblings.len()
    }

    /// Mask of the processors sharing a core with `lp`, `lp` included; `None`
    /// if `lp` is not a processor this topology knows.
    pub fn siblings_of(&self, lp: usize) -> (res: Option<Mask>)
        ensures
            res == (if lp < self@.len() { Some(self@[lp as int]) } else { None::<Mask> }),
    {
        if lp < self.siblings.len() {
            Some(self.siblings[lp])
        } else {
            None
        }
    }

    /// Mask of every processor sharing a core with any processor in `mask`,
    /// excluding the processors in `mask` themselves. Processors of `mask`
    /// beyond this topology are ignored.
    pub fn siblings_outside(&self, mask: Mask) -> (res: Mask)
        ensures
            forall|q: int| 0 <= q < 64 ==> (names(res, q) <==> (!names(mask, q) && shares_core(self@, mask, q))),
            res & mask == 0,
    {
        proof {
            lemma_names_ops();
        }
        let n = if self.siblings.len() < MAX_LOGICAL { self.siblings.len() } else { MAX_LOGICAL };
        let mut out: u64 = 0;
        let mut lp: usize = 0;
        while lp < n
            invariant
                n <= self.siblings@.len(),
                n <= 64,
                n == self.siblings@.len() || n == 64,
                0 <= lp <= n,
                forall|q: int| 0 <= q < 64 ==> (names(out, q) <==> exists|k: int|
                    0 <= k < lp && names(mask, k) && names(#[trigger] self.siblings@[k], q)),
            decreases n - lp,
        {
            proof {
                lemma_names_ops();
            }
            let ghost before = out;
            let bit: u64 = 1u64 << (lp as u64);
            if mask & bit != 0 {
                let s = self.siblings[lp];
                out = out | s;
                proof {
                    assert(names(mask, lp as int));
                    assert forall|q: int| 0 <= q < 64 implies (names(out, q) <==> exists|k: int|
                        0 <= k < lp + 1 && names(mask, k) && names(#[trigger] self.siblings@[k], q)) by {
                        if names(s, q) {
                            assert(names(mask, lp as int) && names(self.siblings@[lp as int], q));
                        }
                    }
                }
            } else {
                proof {
                    assert(!names(mask, lp as int));
                    assert forall|q: int| 0 <= q < 64 implies (names(out, q) <==> exists|k: int|
                        0 <= k < lp + 1 && names(mask, k) && names(#[trigger] self.siblings@[k], q)) by {
                        if exists|k: int| 0 <= k < lp + 1 && names(mask, k) && names(#[trigger] self.siblings@[k], q) {
                            let k = choose|k: int| 0 <= k < lp + 1 && names(mask, k) && names(#[trigger] self.siblings@[k], q);
                            assert(k != lp);
                        }
                    }
                }
            }
            lp += 1;
        }
        let res = out & !mask;
        proof {
            assert forall|q: int| 0 <= q < 64 implies (names(res, q) <==> (!names(mask, q) && shares_core(self@, mask, q))) by {
                if shares_core(self@, mask, q) {
                    let k = choose|k: int| 0 <= k < self@.len() && k < 64 && names(mask, k) && names(self@[k], q);
                    assert(names(mask, k) ==> 0 <= k < 64);
                    assert(k < n);
                }
            }
            assert((out & !mask) & mask == 0u64);
        }
        res
    }
}

// ---------------------------------------------------------------------------
// Core records
// ---------------------------------------------------------------------------

/// `sib` lengthened with zero masks to at least `n` entries.
pub open spec fn grown(sib: Seq<Mask>, n: int) -> Seq<Mask> {
    if sib.len() >= n {
        sib
    } else {
        sib + Seq::new((n - sib.len()) as nat, |i: int| 0u64)
    }
}

/// `sib` once every processor from `lp` up to 63 that `mask` names has
/// `mask` as its sibling mask, the list growing with zeros to reach it.
pub open spec fn spread(sib: Seq<Mask>, mask: u64, lp: int) -> Seq<Mask>
    decreases 64 - lp,
{
    if lp < 0 || lp >= 64 {
        sib
    } else {
        let next = if names(mask, lp) { grown(sib, lp + 1).update(lp, mask) } else { sib };
        spread(next, mask, lp + 1)
    }
}

/// `sib` once the processor-group entries from `g` on, of the core record
/// `size` bytes long at `pos` that lists `groups` of them, are spread into
/// it. Entries are 16 bytes from offset 32 of the record: the mask, then the
/// group. One reaching past the record ends the list; one for a group other
/// than the first is passed over.
pub open spec fn spread_groups(buf: Seq<u8>, pos: int, size: int, groups: int, g: int, sib: Seq<Mask>) -> Seq<Mask>
    decreases groups - g,
{
    if g < 0 || g >= groups {
        sib
    } else {
        let at = pos + 32 + 16 * g;
        if at + 16 > pos + size {
            sib
        } else {
            let next = if u16_at(buf, at + 8) != 0 { sib } else { spread(sib, u64_at(buf, at), 0) };
            spread_groups(buf, pos, size, groups, g + 1, next)
        }
    }
}

/// `sib` once the records from `pos` on are read. A record is at least 32
/// bytes: its relationship (`u32`), its size in bytes (`u32`), and at offset
/// 30 its entry count (`u16`). The walk ends where fewer than 32 bytes are
/// left or a size is under 32 or reaches past the buffer; only records of
/// relationship 0, a processor core, are spread.
pub open spec fn core_records(buf: Seq<u8>, pos: int, sib: Seq<Mask>) -> Seq<Mask>
    decreases buf.len() - pos,
{
    if pos < 0 || pos + 32 > buf.len() {
        sib
    } else {
        let size = u32_at(buf, pos + 4) as int;
        if size < 32 || pos + size > buf.len() {
            sib
        } else {
            let next = if u32_at(buf, pos) == 0 {
                spread_groups(buf, pos, size, u16_at(buf, pos + 30) as int, 0, sib)
            } else {
                sib
            };
            core_records(buf, pos + size, next)
        }
    }
}

/// The sibling masks a `RelationProcessorCore` answer describes, one per
/// logical processor, or `NoProcessors` where some processor below the
/// highest one named was left without a mask.
pub open spec fn core_record_siblings(buf: Seq<u8>) -> Result<Seq<Mask>, CpuError> {
    let sib = core_records(buf, 0, Seq::empty());
    if sib.contains(0u64) {
        Err(CpuError::NoProcessors)
    } else {
        Ok(sib)
    }
}

/// `read` is what the records `buf` describe.
pub open spec fn answers_records(buf: Seq<u8>, read: Result<Vec<Mask>, CpuError>) -> bool {
    match core_record_siblings(buf) {
        Ok(s) => read matches Ok(v) && v@ == s,
        Err(e) => read == Err::<Vec<Mask>, CpuError>(e),
    }
}

/// Gives each processor `mask` names the mask as its sibling mask.
fn spread_mask(sib: &mut Vec<Mask>, mask: Mask)
    ensures
        final(sib)@ == spread(old(sib)@, mask, 0),
{
    let ghost start = sib@;
    let mut lp: usize = 0;
    while lp < MAX_LOGICAL
        invariant
            0 <= lp <= 64,
            spread(start, mask, 0) == spread(sib@, mask, lp as int),
        decreases 64 - lp,
    {
        proof {
            lemma_names_ops();
        }
        let ghost before = sib@;
        let bit: u64 = 1u64 << (lp as u64);
        if mask & bit != 0 {
            while sib.len() <= lp
                invariant
                    lp < 64,
                    before.len() <= sib@.len(),
                    sib@.len() <= lp + 1 || sib@.len() == before.len(),
                    sib@ == before + Seq::new((sib@.len() - before.len()) as nat, |i: int| 0u64),
                decreases lp + 1 - sib@.len(),
            {
                let ghost was = sib@;
                sib.push(0);
                assert(sib@ =~= before + Seq::new((sib@.len() - before.len()) as nat, |i: int| 0u64)) by {
                    assert(was =~= before + Seq::new((was.len() - before.len()) as nat, |i: int| 0u64));
                }
            }
            assert(sib@ =~= grown(before, lp + 1)) by {
                if before.len() >= lp + 1 {
                    assert(sib@ =~= before);
                }
            }
            sib.set(lp, mask);
            assert(names(mask, lp as int));
        } else {
            assert(!names(mask, lp as int));
        }
        lp += 1;
    }
}

/// The sibling mask of each logical processor described by a
/// `RelationProcessorCore` answer of `GetLogicalProcessorInformationEx`:
/// records walked from the start, each core record's group-0 masks given to
/// every processor they name; `NoProcessors` where a processor is left
/// without a mask.
pub fn siblings_of_core_records(buf: &[u8]) -> (res: Result<Vec<Mask>, CpuError>)
    ensures
        answers_records(buf@, res),
{
    let mut sib: Vec<Mask> = Vec::new();
    let mut pos: usize = 0;
    while buf.len() - pos >= 32
        invariant
            pos <= buf@.len(),
            core_records(buf@, 0, Seq::empty()) == core_records(buf@, pos as int, sib@),
        ensures
            core_records(buf@, 0, Seq::empty()) == sib@,
        decreases buf@.len() - pos,
    {
        let relationship = get_u32(buf, pos);
        let size32 = get_u32(buf, pos + 4);
        proof {
            lemma_u32_at(buf@, pos as int, relationship);
            lemma_u32_at(buf@, pos + 4, size32);
        }
        let size = size32 as usize;
        assert(buf@.len() == buf.len());
        if size < 32 || size > buf.len() - pos {
            break;
        }
        if relationship == 0 {
            let groups = get_u16(buf, pos + 30);
            proof {
                lemma_u16_at(buf@, pos + 30, groups);
            }
            let ghost first = sib@;
            let mut g: usize = 0;
            while g < groups as usize
                invariant
                    pos + size <= buf@.len(),
                    buf@.len() <= usize::MAX,
                    size >= 32,
                    g <= groups,
                    groups <= 65535,
                    spread_groups(buf@, pos as int, size as int, groups as int, 0, first)
                        == spread_groups(buf@, pos as int, size as int, groups as int, g as int, sib@),
                ensures
                    spread_groups(buf@, pos as int, size as int, groups as int, 0, first) == sib@,
                decreases groups - g,
            {
                let off = 32 + 16 * g;
                if off + 16 > size {
                    break;
                }
                let at = pos + off;
                let mask = get_u64(buf, at);
                let group = get_u16(buf, at + 8);
                proof {
                    lemma_u64_at(buf@, at as int, mask);
                    lemma_u16_at(buf@, at + 8, group);
                }
                if group == 0 {
                    spread_mask(&mut sib, mask);
                }
                g += 1;
            }
        }
        pos += size;
    }
    let mut i: usize = 0;
    while i < sib.len()
        invariant
            core_records(buf@, 0, Seq::empty()) == sib@,
            forall|j: int| 0 <= j < i ==> sib@[j] != 0u64,
        decreases sib@.len() - i,
    {
        if sib[i] == 0 {
            assert(sib@.contains(0u64)) by {
                assert(sib@[i as int] == 0u64);
            }
            return Err(CpuError::NoProcessors);
        }
        i += 1;
    }
    assert(!sib@.contains(0u64));
    Ok(sib)
}

/// `x` as four bytes, least significant first.
pub open spec fn le32_bytes(x: u32) -> Seq<u8> {
    seq![(x & 0xff) as u8, ((x >> 8u32) & 0xff) as u8, ((x >> 16u32) & 0xff) as u8, ((x >> 24u32) & 0xff) as u8]
}

/// `x` as two bytes, least significant first.
pub open spec fn le16_bytes(x: u16) -> Seq<u8> {
    seq![(x & 0xff) as u8, ((x >> 8u16) & 0xff) as u8]
}

/// `x` as eight bytes, least significant first.
pub open spec fn le64_bytes(x: u64) -> Seq<u8> {
    seq![
        (x & 0xff) as u8,
        ((x >> 8u64) & 0xff) as u8,
        ((x >> 16u64) & 0xff) as u8,
        ((x >> 24u64) & 0xff) as u8,
        ((x >> 32u64) & 0xff) as u8,
        ((x >> 40u64) & 0xff) as u8,
        ((x >> 48u64) & 0xff) as u8,
        ((x >> 56u64) & 0xff) as u8,
    ]
}

/// The `RelationProcessorCore` record of one core whose processors, all in
/// group 0, are `mask`: 48 bytes, one group entry.
pub open spec fn core_record(mask: u64) -> Seq<u8> {
    le32_bytes(0) + le32_bytes(48) + Seq::new(22, |i: int| 0u8) + le16_bytes(1) + le64_bytes(mask) + le16_bytes(0)
        + Seq::new(6, |i: int| 0u8)
}

/// The records of `cores`, one after another.
pub open spec fn core_records_of(cores: Seq<u64>) -> Seq<u8>
    decreases cores.len(),
{
    if cores.len() == 0 {
        Seq::empty()
    } else {
        core_record(cores[0]) + core_records_of(cores.drop_first())
    }
}

/// `sib` once each of `cores` in turn is spread into it.
pub open spec fn spread_all(sib: Seq<Mask>, cores: Seq<u64>) -> Seq<Mask>
    decreases cores.len(),
{
    if cores.len() == 0 {
        sib
    } else {
        spread_all(spread(sib, cores[0], 0), cores.drop_first())
    }
}

proof fn lemma_u32_some(s: Seq<u8>, at: int)
    requires
        0 <= at,
        at + 4 <= s.len(),
    ensures
        holds_u32(s, at, u32_at(s, at)),
{
    let b0 = s[at];
    let b1 = s[at + 1];
    let b2 = s[at + 2];
    let b3 = s[at + 3];
    let x: u32 = (b0 as u32) | ((b1 as u32) << 8u32) | ((b2 as u32) << 16u32) | ((b3 as u32) << 24u32);
    assert(b0 == (x & 0xff) as u8 && b1 == ((x >> 8u32) & 0xff) as u8 && b2 == ((x >> 16u32) & 0xff) as u8 && b3 == ((x
        >> 24u32) & 0xff) as u8) by (bit_vector)
        requires
            x == (b0 as u32) | ((b1 as u32) << 8u32) | ((b2 as u32) << 16u32) | ((b3 as u32) << 24u32),
    ;
    assert(holds_u32(s, at, x));
}

proof fn lemma_u16_some(s: Seq<u8>, at: int)
    requires
        0 <= at,
        at + 2 <= s.len(),
    ensures
        holds_u16(s, at, u16_at(s, at)),
{
    let b0 = s[at];
    let b1 = s[at + 1];
    let x: u16 = (b0 as u16) | ((b1 as u16) << 8u16);
    assert(b0 == (x & 0xff) as u8 && b1 == ((x >> 8u16) & 0xff) as u8) by (bit_vector)
        requires
            x == (b0 as u16) | ((b1 as u16) << 8u16),
    ;
    assert(holds_u16(s, at, x));
}

proof fn lemma_u64_some(s: Seq<u8>, at: int)
    requires
        0 <= at,
        at + 8 <= s.len(),
    ensures
        holds_u64(s, at, u64_at(s, at)),
{
    let b0 = s[at];
    let b1 = s[at + 1];
    let b2 = s[at + 2];
    let b3 = s[at + 3];
    let b4 = s[at + 4];
    let b5 = s[at + 5];
    let b6 = s[at + 6];
    let b7 = s[at + 7];
    let x: u64 = (b0 as u64) | ((b1 as u64) << 8u64) | ((b2 as u64) << 16u64) | ((b3 as u64) << 24u64) | ((b4 as u64)
        << 32u64) | ((b5 as u64) << 40u64) | ((b6 as u64) << 48u64) | ((b7 as u64) << 56u64);
    assert(b0 == (x & 0xff) as u8 && b1 == ((x >> 8u64) & 0xff) as u8 && b2 == ((x >> 16u64) & 0xff) as u8 && b3 == ((x
        >> 24u64) & 0xff) as u8 && b4 == ((x >> 32u64) & 0xff) as u8 && b5 == ((x >> 40u64) & 0xff) as u8 && b6 == ((x
        >> 48u64) & 0xff) as u8 && b7 == ((x >> 56u64) & 0xff) as u8) by (bit_vector)
        requires
            x == (b0 as u64) | ((b1 as u64) << 8u64) | ((b2 as u64) << 16u64) | ((b3 as u64) << 24u64) | ((b4 as u64)
                << 32u64) | ((b5 as u64) << 40u64) | ((b6 as u64) << 48u64) | ((b7 as u64) << 56u64),
    ;
    assert(holds_u64(s, at, x));
}

proof fn lemma_values_shift(a: Seq<u8>, b: Seq<u8>, p: int)
    requires
        0 <= p,
    ensures
        p + 4 <= b.len() ==> u32_at(a + b, a.len() + p) == u32_at(b, p),
        p + 2 <= b.len() ==> u16_at(a + b, a.len() + p) == u16_at(b, p),
        p + 8 <= b.len() ==> u64_at(a + b, a.len() + p) == u64_at(b, p),
{
    let c = a + b;
    let q = a.len() + p;
    if p + 4 <= b.len() {
        lemma_u32_some(b, p);
        let x = u32_at(b, p);
        assert(c[q] == b[p] && c[q + 1] == b[p + 1] && c[q + 2] == b[p + 2] && c[q + 3] == b[p + 3]);
        assert(holds_u32(c, q, x));
        lemma_u32_at(c, q, x);
    }
    if p + 2 <= b.len() {
        lemma_u16_some(b, p);
        let x = u16_at(b, p);
        assert(c[q] == b[p] && c[q + 1] == b[p + 1]);
        assert(holds_u16(c, q, x));
        lemma_u16_at(c, q, x);
    }
    if p + 8 <= b.len() {
        lemma_u64_some(b, p);
        let x = u64_at(b, p);
        assert(c[q] == b[p] && c[q + 1] == b[p + 1] && c[q + 2] == b[p + 2] && c[q + 3] == b[p + 3]);
        assert(c[q + 4] == b[p + 4] && c[q + 5] == b[p + 5] && c[q + 6] == b[p + 6] && c[q + 7] == b[p + 7]);
        assert(holds_u64(c, q, x));
        lemma_u64_at(c, q, x);
    }
}

proof fn lemma_spread_groups_shift(a: Seq<u8>, b: Seq<u8>, p: int, size: int, groups: int, g: int, sib: Seq<Mask>)
    requires
        0 <= p,
        p + size <= b.len(),
    ensures
        spread_groups(a + b, a.len() + p, size, groups, g, sib) == spread_groups(b, p, size, groups, g, sib),
    decreases groups - g,
{
    if 0 <= g < groups {
        let at = p + 32 + 16 * g;
        if at + 16 <= p + size {
            lemma_values_shift(a, b, at + 8);
            lemma_values_shift(a, b, at);
            assert(a.len() + p + 32 + 16 * g == a.len() + at);
            let next = if u16_at(b, at + 8) != 0 { sib } else { spread(sib, u64_at(b, at), 0) };
            lemma_spread_groups_shift(a, b, p, size, groups, g + 1, next);
        }
    }
}

proof fn lemma_core_records_shift(a: Seq<u8>, b: Seq<u8>, p: int, sib: Seq<Mask>)
    requires
        0 <= p,
    ensures
        core_records(a + b, a.len() + p, sib) == core_records(b, p, sib),
    decreases b.len() - p,
{
    if p + 32 <= b.len() {
        lemma_values_shift(a, b, p + 4);
        lemma_values_shift(a, b, p);
        lemma_values_shift(a, b, p + 30);
        let size = u32_at(b, p + 4) as int;
        if size >= 32 && p + size <= b.len() {
            let next = if u32_at(b, p) == 0 {
                lemma_spread_groups_shift(a, b, p, size, u16_at(b, p + 30) as int, 0, sib);
                spread_groups(b, p, size, u16_at(b, p + 30) as int, 0, sib)
            } else {
                sib
            };
            lemma_core_records_shift(a, b, p + size, next);
        }
    }
}

proof fn lemma_bytes_hold(s: Seq<u8>, at: int)
    requires
        0 <= at,
    ensures
        at + 4 <= s.len() ==> forall|x: u32| s.subrange(at, at + 4) == le32_bytes(x) ==> #[trigger] holds_u32(s, at, x),
        at + 2 <= s.len() ==> forall|x: u16| s.subrange(at, at + 2) == le16_bytes(x) ==> #[trigger] holds_u16(s, at, x),
        at + 8 <= s.len() ==> forall|x: u64| s.subrange(at, at + 8) == le64_bytes(x) ==> #[trigger] holds_u64(s, at, x),
{
    if at + 4 <= s.len() {
        assert forall|x: u32| s.subrange(at, at + 4) == le32_bytes(x) implies #[trigger] holds_u32(s, at, x) by {
            assert(s[at] == s.subrange(at, at + 4)[0] && s[at + 1] == s.subrange(at, at + 4)[1]);
            assert(s[at + 2] == s.subrange(at, at + 4)[2] && s[at + 3] == s.subrange(at, at + 4)[3]);
        }
    }
    if at + 2 <= s.len() {
        assert forall|x: u16| s.subrange(at, at + 2) == le16_bytes(x) implies #[trigger] holds_u16(s, at, x) by {
            assert(s[at] == s.subrange(at, at + 2)[0] && s[at + 1] == s.subrange(at, at + 2)[1]);
        }
    }
    if at + 8 <= s.len() {
        assert forall|x: u64| s.subrange(at, at + 8) == le64_bytes(x) implies #[trigger] holds_u64(s, at, x) by {
            let t = s.subrange(at, at + 8);
            assert(s[at] == t[0] && s[at + 1] == t[1] && s[at + 2] == t[2] && s[at + 3] == t[3]);
            assert(s[at + 4] == t[4] && s[at + 5] == t[5] && s[at + 6] == t[6] && s[at + 7] == t[7]);
        }
    }
}

proof fn lemma_core_record_read(m: u64, rest: Seq<u8>, sib: Seq<Mask>)
    ensures
        core_records(core_record(m) + rest, 0, sib) == core_records(rest, 0, spread(sib, m, 0)),
{
    let r = core_record(m);
    let buf = r + rest;
    assert(r.len() == 48);
    lemma_bytes_hold(buf, 0);
    lemma_bytes_hold(buf, 4);
    lemma_bytes_hold(buf, 30);
    lemma_bytes_hold(buf, 32);
    lemma_bytes_hold(buf, 40);
    assert(buf.subrange(0, 4) =~= le32_bytes(0));
    assert(buf.subrange(4, 8) =~= le32_bytes(48));
    assert(buf.subrange(30, 32) =~= le16_bytes(1));
    assert(buf.subrange(32, 40) =~= le64_bytes(m));
    assert(buf.subrange(40, 42) =~= le16_bytes(0));
    lemma_u32_at(buf, 0, 0);
    lemma_u32_at(buf, 4, 48);
    lemma_u16_at(buf, 30, 1);
    lemma_u64_at(buf, 32, m);
    lemma_u16_at(buf, 40, 0);
    let next = spread(sib, m, 0);
    assert(spread_groups(buf, 0, 48, 1, 0, sib) == next) by {
        assert(spread_groups(buf, 0, 48, 1, 1, next) == next);
    }
    lemma_core_records_shift(r, rest, 0, next);
}

proof fn lemma_core_records_of(cores: Seq<u64>, sib: Seq<Mask>)
    ensures
        core_records(core_records_of(cores), 0, sib) == spread_all(sib, cores),
    decreases cores.len(),
{
    if cores.len() > 0 {
        lemma_core_record_read(cores[0], core_records_of(cores.drop_first()), sib);
        lemma_core_records_of(cores.drop_first(), spread(sib, cores[0], 0));
    }
}

/// What `sib` holds at `q`, reading zero past its end.
pub open spec fn at_or_zero(sib: Seq<Mask>, q: int) -> Mask {
    if 0 <= q < sib.len() { sib[q] } else { 0 }
}

proof fn lemma_spread(sib: Seq<Mask>, m: u64, lp: int)
    requires
        0 <= lp <= 64,
    ensures
        spread(sib, m, lp).len() >= sib.len(),
        forall|q: int| lp <= q && #[trigger] names(m, q) ==> q < spread(sib, m, lp).len() && spread(sib, m, lp)[q] == m,
        forall|q: int|
            0 <= q < spread(sib, m, lp).len() && !(lp <= q && names(m, q)) ==> #[trigger] spread(sib, m, lp)[q]
                == at_or_zero(sib, q),
        spread(sib, m, lp).len() == sib.len() || (spread(sib, m, lp).len() - 1 >= lp && names(
            m,
            spread(sib, m, lp).len() - 1,
        )),
    decreases 64 - lp,
{
    if lp < 64 {
        let next = if names(m, lp) { grown(sib, lp + 1).update(lp, m) } else { sib };
        lemma_spread(next, m, lp + 1);
        let t = spread(next, m, lp + 1);
        if names(m, lp) {
            let g = grown(sib, lp + 1);
            assert(g.len() >= lp + 1 && g.len() >= sib.len());
            assert(forall|q: int| 0 <= q < g.len() ==> #[trigger] g[q] == at_or_zero(sib, q));
            assert(g.len() == sib.len() || g.len() == lp + 1);
        }
        assert forall|q: int| 0 <= q < t.len() && !(lp <= q && names(m, q)) implies #[trigger] t[q] == at_or_zero(sib, q) by {
            assert(!(lp + 1 <= q && names(m, q)));
            assert(t[q] == at_or_zero(next, q));
        }
    } else {
        assert forall|q: int| lp <= q && #[trigger] names(m, q) implies q < spread(sib, m, lp).len() && spread(sib, m, lp)[q]
            == m by {
            assert(!names(m, q));
        }
    }
}

/// No processor is named by two of `cores`.
pub open spec fn disjoint_cores(cores: Seq<u64>) -> bool {
    forall|k1: int, k2: int, q: int|
        0 <= k1 < k2 < cores.len() ==> !(#[trigger] names(cores[k1], q) && #[trigger] names(cores[k2], q))
}

/// Some one of `cores` names `q`.
pub open spec fn some_core_names(cores: Seq<u64>, q: int) -> bool {
    exists|k: int| 0 <= k < cores.len() && #[trigger] names(cores[k], q)
}

proof fn lemma_spread_all(sib: Seq<Mask>, cores: Seq<u64>)
    requires
        disjoint_cores(cores),
    ensures
        spread_all(sib, cores).len() >= sib.len(),
        forall|k: int, q: int|
            0 <= k < cores.len() && #[trigger] names(cores[k], q) ==> q < spread_all(sib, cores).len()
                && spread_all(sib, cores)[q] == cores[k],
        forall|q: int|
            0 <= q < spread_all(sib, cores).len() && !some_core_names(cores, q) ==> #[trigger] spread_all(sib, cores)[q]
                == at_or_zero(sib, q),
        spread_all(sib, cores).len() == sib.len() || some_core_names(cores, spread_all(sib, cores).len() - 1),
    decreases cores.len(),
{
    if cores.len() > 0 {
        let c0 = cores[0];
        let tail = cores.drop_first();
        let sib1 = spread(sib, c0, 0);
        lemma_spread(sib, c0, 0);
        assert(disjoint_cores(tail)) by {
            assert forall|k1: int, k2: int, q: int| 0 <= k1 < k2 < tail.len() implies !(#[trigger] names(tail[k1], q)
                && #[trigger] names(tail[k2], q)) by {
                assert(tail[k1] == cores[k1 + 1] && tail[k2] == cores[k2 + 1]);
            }
        }
        lemma_spread_all(sib1, tail);
        let t = spread_all(sib1, tail);
        assert forall|k: int, q: int| 0 <= k < cores.len() && #[trigger] names(cores[k], q) implies q < t.len() && t[q]
            == cores[k] by {
            if k > 0 {
                assert(tail[k - 1] == cores[k]);
            } else {
                if some_core_names(tail, q) {
                    let j = choose|j: int| 0 <= j < tail.len() && #[trigger] names(tail[j], q);
                    assert(tail[j] == cores[j + 1]);
                    assert(false);
                }
            }
        }
        assert forall|q: int| 0 <= q < t.len() && !some_core_names(cores, q) implies #[trigger] t[q] == at_or_zero(sib, q) by {
            if some_core_names(tail, q) {
                let j = choose|j: int| 0 <= j < tail.len() && #[trigger] names(tail[j], q);
                assert(tail[j] == cores[j + 1]);
                assert(some_core_names(cores, q));
            }
            assert(!names(cores[0], q));
            assert(t[q] == at_or_zero(sib1, q));
        }
        if t.len() != sib.len() {
            if t.len() != sib1.len() {
                let j = choose|j: int| 0 <= j < tail.len() && #[trigger] names(tail[j], t.len() - 1);
                assert(tail[j] == cores[j + 1]);
                assert(names(cores[j + 1], t.len() - 1));
            } else {
                assert(names(cores[0], t.len() - 1));
            }
        }
    }
}

/// The records of a box's cores give each logical processor the mask of
/// its own core: where `cores` name each of the processors `0..n` exactly
/// once and no other, the walk answers one mask per processor, the mask of
/// the core that names it; so each processor's mask holds the processor and
/// is the mask of every processor it names.
pub proof fn law_each_processor_gets_its_core(cores: Seq<u64>, n: int)
    requires
        0 < n <= 64,
        disjoint_cores(cores),
        forall|q: int| 0 <= q < n ==> some_core_names(cores, q),
        forall|k: int, q: int| 0 <= k < cores.len() && #[trigger] names(cores[k], q) ==> q < n,
    ensures
        core_record_siblings(core_records_of(cores)) matches Ok(sib) && sib.len() == n && (forall|k: int, q: int|
            0 <= k < cores.len() && #[trigger] names(cores[k], q) ==> sib[q] == cores[k]) && (forall|q: int, o: int|
            0 <= q < n && #[trigger] names(sib[q], o) ==> names(sib[q], q) && 0 <= o < n && sib[o] == sib[q]),
{
    lemma_core_records_of(cores, Seq::empty());
    lemma_spread_all(Seq::empty(), cores);
    lemma_names_ops();
    let s = spread_all(Seq::empty(), cores);
    assert(some_core_names(cores, n - 1));
    let j = choose|j: int| 0 <= j < cores.len() && #[trigger] names(cores[j], n - 1);
    assert(n - 1 < s.len());
    if s.len() != 0 {
        let k = choose|k: int| 0 <= k < cores.len() && #[trigger] names(cores[k], s.len() - 1);
        assert(s.len() - 1 < n);
    }
    assert(s.len() == n);
    assert(!s.contains(0u64)) by {
        if s.contains(0u64) {
            let q = choose|q: int| 0 <= q < s.len() && s[q] == 0u64;
            assert(some_core_names(cores, q));
            let k = choose|k: int| 0 <= k < cores.len() && #[trigger] names(cores[k], q);
            assert(s[q] == cores[k]);
            assert(!names(0u64, q));
        }
    }
    assert forall|q: int, o: int| 0 <= q < n && #[trigger] names(s[q], o) implies names(s[q], q) && 0 <= o < n && s[o]
        == s[q] by {
        assert(some_core_names(cores, q));
        let k = choose|k: int| 0 <= k < cores.len() && #[trigger] names(cores[k], q);
        assert(s[q] == cores[k]);
        assert(names(cores[k], o));
    }
}

/// At most 64 entries, each zero or naming its own processor.
pub open spec fn self_named(sib: Seq<Mask>) -> bool {
    sib.len() <= 64 && forall|q: int| 0 <= q < sib.len() ==> #[trigger] sib[q] == 0u64 || names(sib[q], q)
}

proof fn lemma_spread_self_named(sib: Seq<Mask>, m: u64, lp: int)
    requires
        self_named(sib),
        0 <= lp <= 64,
    ensures
        self_named(spread(sib, m, lp)),
    decreases 64 - lp,
{
    if lp < 64 {
        if names(m, lp) {
            let g = grown(sib, lp + 1);
            let next = g.update(lp, m);
            assert(forall|q: int| 0 <= q < g.len() ==> #[trigger] g[q] == at_or_zero(sib, q));
            assert(self_named(next)) by {
                assert forall|q: int| 0 <= q < next.len() implies #[trigger] next[q] == 0u64 || names(next[q], q) by {
                    if q != lp {
                        assert(next[q] == g[q]);
                    }
                }
            }
            lemma_spread_self_named(next, m, lp + 1);
        } else {
            lemma_spread_self_named(sib, m, lp + 1);
        }
    }
}

proof fn lemma_groups_self_named(buf: Seq<u8>, pos: int, size: int, groups: int, g: int, sib: Seq<Mask>)
    requires
        self_named(sib),
    ensures
        self_named(spread_groups(buf, pos, size, groups, g, sib)),
    decreases groups - g,
{
    if 0 <= g < groups {
        let at = pos + 32 + 16 * g;
        if at + 16 <= pos + size {
            let next = if u16_at(buf, at + 8) != 0 { sib } else { spread(sib, u64_at(buf, at), 0) };
            if u16_at(buf, at + 8) == 0 {
                lemma_spread_self_named(sib, u64_at(buf, at), 0);
            }
            lemma_groups_self_named(buf, pos, size, groups, g + 1, next);
        }
    }
}

proof fn lemma_records_self_named(buf: Seq<u8>, pos: int, sib: Seq<Mask>)
    requires
        self_named(sib),
    ensures
        self_named(core_records(buf, pos, sib)),
    decreases buf.len() - pos,
{
    if 0 <= pos && pos + 32 <= buf.len() {
        let size = u32_at(buf, pos + 4) as int;
        if size >= 32 && pos + size <= buf.len() {
            let next = if u32_at(buf, pos) == 0 {
                lemma_groups_self_named(buf, pos, size, u16_at(buf, pos + 30) as int, 0, sib);
                spread_groups(buf, pos, size, u16_at(buf, pos + 30) as int, 0, sib)
            } else {
                sib
            };
            lemma_records_self_named(buf, pos + size, next);
        }
    }
}

/// A topology made from what core records describe has between 1 and 64
/// logical processors, and each processor is in its own sibling mask:
/// whatever the records, an answer that leaves a processor without a mask
/// is refused, and so is one naming no processor at all.
pub proof fn law_records_topology_names_itself(
    buf: Seq<u8>,
    read: Result<Vec<Mask>, CpuError>,
    res: Result<Topology, CpuError>,
)
    requires
        answers_records(buf, read),
        detected(read, res),
    ensures
        res matches Ok(t) ==> 1 <= t@.len() <= 64 && forall|q: int| 0 <= q < t@.len() ==> names(#[trigger] t@[q], q),
{
    lemma_records_self_named(buf, 0, Seq::empty());
    let sib = core_records(buf, 0, Seq::empty());
    if let Ok(t) = res {
        assert forall|q: int| 0 <= q < t@.len() implies names(#[trigger] t@[q], q) by {
            assert(sib[q] == 0u64 || names(sib[q], q));
            if sib[q] == 0u64 {
                assert(sib.contains(0u64));
            }
        }
    }
}

// ---------------------------------------------------------------------------
// Processor lists
// ---------------------------------------------------------------------------

/// A whitespace byte: tab, line feed, vertical tab, form feed, carriage
/// return or space.
pub open spec fn is_space(b: u8) -> bool {
    b == 32 || (9 <= b && b <= 13)
}

/// `s` without its leading whitespace.
pub open spec fn trim_start(s: Seq<u8>) -> Seq<u8>
    decreases s.len(),
{
    if s.len() > 0 && is_space(s[0]) {
        trim_start(s.drop_first())
    } else {
        s
    }
}

/// `s` without its trailing whitespace.
pub open spec fn trim_end(s: Seq<u8>) -> Seq<u8>
    decreases s.len(),
{
    if s.len() > 0 && is_space(s.last()) {
        trim_end(s.drop_last())
    } else {
        s
    }
}

/// `s` without whitespace at either end.
pub open spec fn trim(s: Seq<u8>) -> Seq<u8> {
    trim_end(trim_start(s))
}

/// The value of a run of decimal digits.
pub open spec fn digits_value(d: Seq<u8>) -> nat
    decreases d.len(),
{
    if d.len() == 0 {
        0
    } else {
        digits_value(d.drop_last()) * 10 + (d.last() - 48) as nat
    }
}

/// Every byte is a decimal digit.
pub open spec fn all_digits(d: Seq<u8>) -> bool {
    forall|i: int| 0 <= i < d.len() ==> 48 <= #[trigger] d[i] <= 57
}

/// `t` read as a `usize` the way Rust reads one: an optional `+`, then one
/// or more decimal digits, no larger than `usize::MAX`.
pub open spec fn usize_of(t: Seq<u8>) -> Option<nat> {
    let d = if t.len() > 0 && t[0] == 43 { t.drop_first() } else { t };
    if d.len() > 0 && all_digits(d) && digits_value(d) <= usize::MAX {
        Some(digits_value(d))
    } else {
        None
    }
}

/// The first index from `from` on where `s` holds byte `b`, or its length.
pub open spec fn next_byte(s: Seq<u8>, b: u8, from: int) -> int
    decreases s.len() - from,
{
    if from >= s.len() {
        s.len() as int
    } else if s[from] == b {
        from
    } else {
        next_byte(s, b, from + 1)
    }
}

pub proof fn lemma_next_byte_bounds(s: Seq<u8>, b: u8, from: int)
    requires
        0 <= from <= s.len(),
    ensures
        from <= next_byte(s, b, from) <= s.len(),
        next_byte(s, b, from) < s.len() ==> s[next_byte(s, b, from)] == b,
        forall|k: int| from <= k < next_byte(s, b, from) ==> s[k] != b,
    decreases s.len() - from,
{
    if from < s.len() && s[from] != b {
        lemma_next_byte_bounds(s, b, from + 1);
    }
}

/// One comma-separated part of a processor list: `None` when it is not a
/// number or a `lo-hi` range of numbers, `Some(None)` when it is blank, else
/// its bounds.
pub open spec fn list_part(p: Seq<u8>) -> Option<Option<(nat, nat)>> {
    let t = trim(p);
    if t.len() == 0 {
        Some(None)
    } else {
        let k = next_byte(t, 45, 0);
        let (lo, hi) = if k < t.len() {
            (usize_of(t.subrange(0, k)), usize_of(t.subrange(k + 1, t.len() as int)))
        } else {
            (usize_of(t), usize_of(t))
        };
        match (lo, hi) {
            (Some(a), Some(b)) => Some(Some((a, b))),
            _ => None,
        }
    }
}

/// The processors the list `s` names from byte `from` on, or why it names
/// none: the first part that is not a number or range refuses it as
/// `NoProcessors`, one that reaches past the mask as `BeyondMask`.
pub open spec fn listed(s: Seq<u8>, from: int) -> Result<Set<int>, CpuError>
    decreases s.len() - from,
{
    if from < 0 || from > s.len() {
        Ok(Set::empty())
    } else {
        let end = next_byte(s, 44, from);
        proof {
            lemma_next_byte_bounds(s, 44, from);
        }
        let rest = if end >= s.len() { Ok(Set::empty()) } else { listed(s, end + 1) };
        match list_part(s.subrange(from, end)) {
            None => Err(CpuError::NoProcessors),
            Some(None) => rest,
            Some(Some((lo, hi))) => if lo <= hi && hi >= 64 {
                Err(CpuError::BeyondMask)
            } else {
                match rest {
                    Err(e) => Err(e),
                    Ok(set) => Ok(set.union(Set::new(|q: int| lo <= q <= hi))),
                }
            },
        }
    }
}

proof fn lemma_trim_start_step(s: Seq<u8>, a: int, end: int)
    requires
        0 <= a < end <= s.len(),
        is_space(s[a]),
    ensures
        trim_start(s.subrange(a, end)) == trim_start(s.subrange(a + 1, end)),
{
    assert(s.subrange(a, end).drop_first() =~= s.subrange(a + 1, end));
}

proof fn lemma_trim_end_step(s: Seq<u8>, a: int, b: int)
    requires
        0 <= a < b <= s.len(),
        is_space(s[b - 1]),
    ensures
        trim_end(s.subrange(a, b)) == trim_end(s.subrange(a, b - 1)),
{
    assert(s.subrange(a, b).drop_last() =~= s.subrange(a, b - 1));
}

/// Where `s[from..end]` is once trimmed.
fn trim_bounds(s: &[u8], from: usize, end: usize) -> (res: (usize, usize))
    requires
        from <= end <= s@.len(),
    ensures
        from <= res.0 <= res.1 <= end,
        s@.subrange(res.0 as int, res.1 as int) == trim(s@.subrange(from as int, end as int)),
{
    let mut a = from;
    while a < end && (s[a] == 32 || (9 <= s[a] && s[a] <= 13))
        invariant
            from <= a <= end <= s@.len(),
            trim_start(s@.subrange(from as int, end as int)) == trim_start(s@.subrange(a as int, end as int)),
        decreases end - a,
    {
        proof {
            lemma_trim_start_step(s@, a as int, end as int);
        }
        a += 1;
    }
    assert(trim_start(s@.subrange(a as int, end as int)) == s@.subrange(a as int, end as int));
    let mut b = end;
    while b > a && (s[b - 1] == 32 || (9 <= s[b - 1] && s[b - 1] <= 13))
        invariant
            from <= a <= b <= end <= s@.len(),
            trim_end(s@.subrange(a as int, end as int)) == trim_end(s@.subrange(a as int, b as int)),
        decreases b - a,
    {
        proof {
            lemma_trim_end_step(s@, a as int, b as int);
        }
        b -= 1;
    }
    assert(trim_end(s@.subrange(a as int, b as int)) == s@.subrange(a as int, b as int));
    (a, b)
}

proof fn lemma_digits_step(s: Seq<u8>, a: int, k: int)
    requires
        0 <= a <= k < s.len(),
    ensures
        digits_value(s.subrange(a, k + 1)) == digits_value(s.subrange(a, k)) * 10 + (s[k] - 48) as nat,
{
    assert(s.subrange(a, k + 1).drop_last() =~= s.subrange(a, k));
}

proof fn lemma_digits_grow(d: Seq<u8>, k: int)
    requires
        0 <= k <= d.len(),
        all_digits(d),
    ensures
        digits_value(d) >= digits_value(d.subrange(0, k)),
    decreases d.len() - k,
{
    if k < d.len() {
        let e = d.subrange(0, k + 1);
        assert(e.drop_last() =~= d.subrange(0, k));
        assert(all_digits(e));
        lemma_digits_grow(d, k + 1);
        assert(48 <= e.last() <= 57);
        assert(digits_value(e) >= digits_value(d.subrange(0, k))) by (nonlinear_arith)
            requires
                digits_value(e) == digits_value(d.subrange(0, k)) * 10 + (e.last() - 48) as nat,
        ;
    } else {
        assert(d.subrange(0, k) =~= d);
    }
}

/// `s[a..b]` read as a `usize`.
fn parse_usize(s: &[u8], a: usize, b: usize) -> (res: Option<usize>)
    requires
        a <= b <= s@.len(),
    ensures
        match usize_of(s@.subrange(a as int, b as int)) {
            Some(v) => res == Some(v as usize),
            None => res is None,
        },
{
    let ghost t = s@.subrange(a as int, b as int);
    let mut start = a;
    if a < b && s[a] == 43 {
        start = a + 1;
    }
    let ghost d = s@.subrange(start as int, b as int);
    assert(d =~= (if t.len() > 0 && t[0] == 43 { t.drop_first() } else { t }));
    assert(usize_of(t) == (if d.len() > 0 && all_digits(d) && digits_value(d) <= usize::MAX {
        Some(digits_value(d))
    } else {
        None
    }));
    if start == b {
        return None;
    }
    let mut v: usize = 0;
    let mut k = start;
    while k < b
        invariant
            a <= start <= k <= b <= s@.len(),
            d == s@.subrange(start as int, b as int),
            usize_of(s@.subrange(a as int, b as int)) == (if d.len() > 0 && all_digits(d) && digits_value(d) <= usize::MAX {
                Some(digits_value(d))
            } else {
                None
            }),
            all_digits(s@.subrange(start as int, k as int)),
            v == digits_value(s@.subrange(start as int, k as int)),
        decreases b - k,
    {
        let c = s[k];
        if c < 48 || c > 57 {
            assert(!all_digits(d)) by {
                assert(d[k - start] == c);
            }
            return None;
        }
        let digit = (c - 48) as usize;
        proof {
            lemma_digits_step(s@, start as int, k as int);
            assert(all_digits(s@.subrange(start as int, k + 1)));
        }
        if v > (usize::MAX - digit) / 10 {
            proof {
                assert(digits_value(s@.subrange(start as int, k + 1)) > usize::MAX) by (nonlinear_arith)
                    requires
                        v > (usize::MAX - digit) / 10,
                        digits_value(s@.subrange(start as int, k + 1)) == v * 10 + digit,
                        digit <= 9,
                ;
                if all_digits(d) {
                    assert(d.subrange(0, k + 1 - start) =~= s@.subrange(start as int, k + 1));
                    lemma_digits_grow(d, k + 1 - start);
                }
            }
            return None;
        }
        v = v * 10 + digit;
        k += 1;
    }
    Some(v)
}

/// The first index from `from` on where `s` holds `b`, or `end`.
fn find_byte(s: &[u8], b: u8, from: usize, end: usize) -> (res: usize)
    requires
        from <= end <= s@.len(),
    ensures
        res == from + next_byte(s@.subrange(from as int, end as int), b, 0),
{
    let ghost t = s@.subrange(from as int, end as int);
    let mut k = from;
    while k < end && s[k] != b
        invariant
            from <= k <= end <= s@.len(),
            t == s@.subrange(from as int, end as int),
            next_byte(t, b, 0) == next_byte(t, b, k - from),
        decreases end - k,
    {
        assert(t[k - from] == s@[k as int]);
        k += 1;
    }
    k
}

/// A processor list as sysfs writes one, `0-1,4,6-7`, read as a mask.
///
/// Parts are separated by commas; each is trimmed of whitespace, and a
/// blank one names nothing. A part that is not a number or a `lo-hi` range
/// is refused as `NoProcessors`, a range reaching processor 64 or beyond as
/// `BeyondMask`; a range whose `lo` is above its `hi` names nothing.
pub fn parse_list(s: &[u8]) -> (res: Result<Mask, CpuError>)
    ensures
        match listed(s@, 0) {
            Err(e) => res == Err::<Mask, CpuError>(e),
            Ok(set) => res matches Ok(m) && forall|q: int| 0 <= q < 64 ==> (names(m, q) <==> set.contains(q)),
        },
{
    let mut mask: u64 = 0;
    let ghost mut acc: Set<int> = Set::empty();
    let mut from: usize = 0;
    proof {
        lemma_names_ops();
        lemma_union_empty(listed(s@, 0));
    }
    loop
        invariant
            from <= s@.len(),
            forall|q: int| 0 <= q < 64 ==> (names(mask, q) <==> acc.contains(q)),
            listed(s@, 0) == with_listed(listed(s@, from as int), acc),
        decreases s@.len() - from,
    {
        proof {
            lemma_next_byte_bounds(s@, 44, from as int);
            lemma_next_byte_shift(s@, 44, from as int);
        }
        let end = find_byte(s, 44, from, s.len());
        assert(s@.subrange(from as int, s@.len() as int) == s@.subrange(from as int, s@.len() as int));
        assert(end == next_byte(s@, 44, from as int));
        let (a, b) = trim_bounds(s, from, end);
        let ghost part = s@.subrange(from as int, end as int);
        let ghost t = trim(part);
        let ghost mut add: Set<int> = Set::empty();
        if a < b {
            proof {
                lemma_next_byte_bounds(s@.subrange(a as int, b as int), 45, 0);
            }
            let dash = find_byte(s, 45, a, b);
            let (lo, hi) = if dash < b {
                (parse_usize(s, a, dash), parse_usize(s, dash + 1, b))
            } else {
                (parse_usize(s, a, b), parse_usize(s, a, b))
            };
            proof {
                assert(s@.subrange(a as int, b as int) == t);
                if dash < b {
                    assert(t.subrange(0, dash - a) =~= s@.subrange(a as int, dash as int));
                    assert(t.subrange(dash - a + 1, t.len() as int) =~= s@.subrange(dash + 1, b as int));
                }
            }
            match (lo, hi) {
                (Some(lo), Some(hi)) => {
                    assert(list_part(part) == Some(Some((lo as nat, hi as nat))));
                    if lo <= hi && hi >= MAX_LOGICAL {
                        return Err(CpuError::BeyondMask);
                    }
                    let ghost before = mask;
                    let mut lp = lo;
                    while lp <= hi
                        invariant
                            lo <= lp,
                            lo <= hi ==> lp <= hi + 1,
                            lo > hi ==> lp == lo,
                            hi < 64 || lo > hi,
                            forall|q: int| 0 <= q < 64 ==> (names(mask, q) <==> (names(before, q) || (lo <= q < lp))),
                        decreases hi + 1 - lp,
                    {
                        proof {
                            lemma_names_ops();
                        }
                        let shift = lp as u64;
                        mask = mask | (1u64 << shift);
                        lp += 1;
                    }
                    proof {
                        add = Set::new(|q: int| lo <= q <= hi);
                        assert forall|q: int| 0 <= q < 64 implies (names(mask, q) <==> acc.union(add).contains(q)) by {
                            assert(names(before, q) <==> acc.contains(q));
                        }
                    }
                },
                _ => {
                    assert(list_part(part) is None);
                    return Err(CpuError::NoProcessors);
                },
            }
        } else {
            assert(t.len() == 0);
        }
        proof {
            lemma_listed_step(s@, from as int, acc, add);
            acc = acc.union(add);
        }
        if end >= s.len() {
            return Ok(mask);
        }
        from = end + 1;
    }
}

/// What the list gives once the processors in `acc` are added to it.
pub open spec fn with_listed(r: Result<Set<int>, CpuError>, acc: Set<int>) -> Result<Set<int>, CpuError> {
    match r {
        Err(e) => Err(e),
        Ok(set) => Ok(set.union(acc)),
    }
}

proof fn lemma_union_empty(r: Result<Set<int>, CpuError>)
    ensures
        with_listed(r, Set::empty()) == r,
{
    match r {
        Ok(set) => {
            assert(set.union(Set::empty()) =~= set);
        },
        Err(_) => {},
    }
}

proof fn lemma_listed_step(s: Seq<u8>, from: int, acc: Set<int>, add: Set<int>)
    requires
        0 <= from <= s.len(),
        list_part(s.subrange(from, next_byte(s, 44, from))) matches Some(p) && (p matches Some((lo, hi)) ==> !(lo <= hi
            && hi >= 64) && add == Set::new(|q: int| lo <= q <= hi)) && (p is None ==> add == Set::<int>::empty()),
    ensures
        with_listed(listed(s, from), acc) == (if next_byte(s, 44, from) >= s.len() {
            Ok(acc.union(add))
        } else {
            with_listed(listed(s, next_byte(s, 44, from) + 1), acc.union(add))
        }),
{
    lemma_next_byte_bounds(s, 44, from);
    let end = next_byte(s, 44, from);
    let rest = if end >= s.len() { Ok(Set::<int>::empty()) } else { listed(s, end + 1) };
    match rest {
        Ok(set) => {
            assert(set.union(add).union(acc) =~= set.union(acc.union(add)));
            assert(Set::<int>::empty().union(add).union(acc) =~= acc.union(add));
            assert(set.union(acc) =~= set.union(acc.union(Set::<int>::empty())));
        },
        Err(_) => {},
    }
    assert(acc.union(Set::<int>::empty()) =~= acc);
    assert(Set::<int>::empty().union(acc) =~= acc);
}

proof fn lemma_next_byte_shift(s: Seq<u8>, b: u8, from: int)
    requires
        0 <= from <= s.len(),
    ensures
        from + next_byte(s.subrange(from, s.len() as int), b, 0) == next_byte(s, b, from),
{
    lemma_next_byte_shift_at(s, b, from, from);
}

proof fn lemma_next_byte_shift_at(s: Seq<u8>, b: u8, from: int, k: int)
    requires
        0 <= from <= k <= s.len(),
    ensures
        from + next_byte(s.subrange(from, s.len() as int), b, k - from) == next_byte(s, b, k),
    decreases s.len() - k,
{
    if k < s.len() {
        assert(s.subrange(from, s.len() as int)[k - from] == s[k]);
        if s[k] != b {
            lemma_next_byte_shift_at(s, b, from, k + 1);
        }
    }
}

/// What a pin or topology error says.
pub open spec fn cpu_error_text(e: CpuError) -> Seq<char> {
    match e {
        CpuError::EmptyMask => "affinity mask names no processor"@,
        CpuError::NoProcessors => "the OS reported no processors"@,
        CpuError::BeyondMask => "a processor beyond 64 cannot be named"@,
        CpuError::Os { call, code } => call@ + " failed with code "@ + decimal(code as nat),
    }
}

impl CpuError {
    /// The error as a sentence.
    pub fn to_string(&self) -> (res: String)
        ensures
            res@ == cpu_error_text(*self),
    {
        let mut s = String::new();
        match *self {
            CpuError::EmptyMask => s.append("affinity mask names no processor"),
            CpuError::NoProcessors => s.append("the OS reported no processors"),
            CpuError::BeyondMask => s.append("a processor beyond 64 cannot be named"),
            CpuError::Os { call, code } => {
                s.append(call);
                s.append(" failed with code ");
                push_decimal(&mut s, code as u64);
            },
        }
        proof {
            assert(s@ =~= cpu_error_text(*self));
        }
        s
    }
}

} // verus!
