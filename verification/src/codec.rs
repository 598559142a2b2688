//! Little-endian placement of integers and byte arrays inside a byte image.
//!
//! A field "holds" at an offset when the bytes there are the field's
//! little-endian encoding. Every wire struct's image is stated field by field
//! in these terms, and because each encoding is one-to-one the image pins the
//! value down exactly (see the `lemma_*_unique` proofs).
use vstd::prelude::*;

verus! {

/// The eight bytes at `at` are `x`, least significant first.
pub open spec fn holds_u64(s: Seq<u8>, at: int, x: u64) -> bool {
    &&& 0 <= at
    &&& at + 8 <= s.len()
    &&& s[at] == (x & 0xff) as u8
    &&& s[at + 1] == ((x >> 8u64) & 0xff) as u8
    &&& s[at + 2] == ((x >> 16u64) & 0xff) as u8
    &&& s[at + 3] == ((x >> 24u64) & 0xff) as u8
    &&& s[at + 4] == ((x >> 32u64) & 0xff) as u8
    &&& s[at + 5] == ((x >> 40u64) & 0xff) as u8
    &&& s[at + 6] == ((x >> 48u64) & 0xff) as u8
    &&& s[at + 7] == ((x >> 56u64) & 0xff) as u8
}

/// The four bytes at `at` are `x`, least significant first.
pub open spec fn holds_u32(s: Seq<u8>, at: int, x: u32) -> bool {
    &&& 0 <= at
    &&& at + 4 <= s.len()
    &&& s[at] == (x & 0xff) as u8
    &&& s[at + 1] == ((x >> 8u32) & 0xff) as u8
    &&& s[at + 2] == ((x >> 16u32) & 0xff) as u8
    &&& s[at + 3] == ((x >> 24u32) & 0xff) as u8
}

/// The two bytes at `at` are `x`, least significant first.
pub open spec fn holds_u16(s: Seq<u8>, at: int, x: u16) -> bool {
    &&& 0 <= at
    &&& at + 2 <= s.len()
    &&& s[at] == (x & 0xff) as u8
    &&& s[at + 1] == ((x >> 8u16) & 0xff) as u8
}

/// The byte at `at` is `x`.
pub open spec fn holds_u8(s: Seq<u8>, at: int, x: u8) -> bool {
    &&& 0 <= at < s.len()
    &&& s[at] == x
}

/// The eight bytes at `at` are the two's-complement image of `x`.
pub open spec fn holds_i64(s: Seq<u8>, at: int, x: i64) -> bool {
    holds_u64(s, at, x as u64)
}

/// The four bytes at `at` are the two's-complement image of `x`.
pub open spec fn holds_i32(s: Seq<u8>, at: int, x: i32) -> bool {
    holds_u32(s, at, x as u32)
}

/// The bytes at `at` are `b`, in order.
pub open spec fn holds_bytes(s: Seq<u8>, at: int, b: Seq<u8>) -> bool {
    &&& 0 <= at
    &&& at + b.len() <= s.len()
    &&& forall|k: int| 0 <= k < b.len() ==> #[trigger] s[at + k] == b[k]
}

/// `t` agrees with `s` everywhere outside `[at, at + n)`.
pub open spec fn same_outside(s: Seq<u8>, t: Seq<u8>, at: int, n: int) -> bool {
    &&& s.len() == t.len()
    &&& forall|i: int| 0 <= i < s.len() && !(at <= i < at + n) ==> #[trigger] t[i] == s[i]
}

/// Only one `u64` has a given eight-byte image.
pub proof fn lemma_u64_unique(s: Seq<u8>, at: int, x: u64, y: u64)
    requires
        holds_u64(s, at, x),
        holds_u64(s, at, y),
    ensures
        x == y,
{
    assert(((x & 0xff) as u8 == (y & 0xff) as u8 && ((x >> 8u64) & 0xff) as u8 == ((y >> 8u64)
        & 0xff) as u8 && ((x >> 16u64) & 0xff) as u8 == ((y >> 16u64) & 0xff) as u8 && ((x
        >> 24u64) & 0xff) as u8 == ((y >> 24u64) & 0xff) as u8 && ((x >> 32u64) & 0xff) as u8
        == ((y >> 32u64) & 0xff) as u8 && ((x >> 40u64) & 0xff) as u8 == ((y >> 40u64) & 0xff) as u8
        && ((x >> 48u64) & 0xff) as u8 == ((y >> 48u64) & 0xff) as u8 && ((x >> 56u64) & 0xff) as u8
        == ((y >> 56u64) & 0xff) as u8) ==> x == y) by (bit_vector);
}

/// Only one `u32` has a given four-byte image.
pub proof fn lemma_u32_unique(s: Seq<u8>, at: int, x: u32, y: u32)
    requires
        holds_u32(s, at, x),
        holds_u32(s, at, y),
    ensures
        x == y,
{
    assert(((x & 0xff) as u8 == (y & 0xff) as u8 && ((x >> 8u32) & 0xff) as u8 == ((y >> 8u32)
        & 0xff) as u8 && ((x >> 16u32) & 0xff) as u8 == ((y >> 16u32) & 0xff) as u8 && ((x
        >> 24u32) & 0xff) as u8 == ((y >> 24u32) & 0xff) as u8) ==> x == y) by (bit_vector);
}

/// Only one `u16` has a given two-byte image.
pub proof fn lemma_u16_unique(s: Seq<u8>, at: int, x: u16, y: u16)
    requires
        holds_u16(s, at, x),
        holds_u16(s, at, y),
    ensures
        x == y,
{
    assert(((x & 0xff) as u8 == (y & 0xff) as u8 && ((x >> 8u16) & 0xff) as u8 == ((y >> 8u16)
        & 0xff) as u8) ==> x == y) by (bit_vector);
}

/// Only one `i64` has a given eight-byte image.
pub proof fn lemma_i64_unique(s: Seq<u8>, at: int, x: i64, y: i64)
    requires
        holds_i64(s, at, x),
        holds_i64(s, at, y),
    ensures
        x == y,
{
    lemma_u64_unique(s, at, x as u64, y as u64);
    assert((x as u64 == y as u64) ==> x == y) by (bit_vector);
}

/// Only one `i32` has a given four-byte image.
pub proof fn lemma_i32_unique(s: Seq<u8>, at: int, x: i32, y: i32)
    requires
        holds_i32(s, at, x),
        holds_i32(s, at, y),
    ensures
        x == y,
{
    lemma_u32_unique(s, at, x as u32, y as u32);
    assert((x as u32 == y as u32) ==> x == y) by (bit_vector);
}

/// Only one byte sequence of a given length has a given image.
pub proof fn lemma_bytes_unique(s: Seq<u8>, at: int, x: Seq<u8>, y: Seq<u8>)
    requires
        holds_bytes(s, at, x),
        holds_bytes(s, at, y),
        x.len() == y.len(),
    ensures
        x == y,
{
    assert forall|k: int| 0 <= k < x.len() implies x[k] == y[k] by {
        assert(s[at + k] == x[k]);
        assert(s[at + k] == y[k]);
    }
    assert(x =~= y);
}


/// Writes `x` at `at`, little-endian.
pub fn put_u64<const N: usize>(buf: &mut [u8; N], at: usize, x: u64)
    requires
        at + 8 <= N,
    ensures
        holds_u64(final(buf)@, at as int, x),
        same_outside(old(buf)@, final(buf)@, at as int, 8),
{
    buf[at] = (x & 0xff) as u8;
    buf[at + 1] = ((x >> 8u64) & 0xff) as u8;
    buf[at + 2] = ((x >> 16u64) & 0xff) as u8;
    buf[at + 3] = ((x >> 24u64) & 0xff) as u8;
    buf[at + 4] = ((x >> 32u64) & 0xff) as u8;
    buf[at + 5] = ((x >> 40u64) & 0xff) as u8;
    buf[at + 6] = ((x >> 48u64) & 0xff) as u8;
    buf[at + 7] = ((x >> 56u64) & 0xff) as u8;
}

/// Writes `x` at `at`, little-endian.
pub fn put_u32<const N: usize>(buf: &mut [u8; N], at: usize, x: u32)
    requires
        at + 4 <= N,
    ensures
        holds_u32(final(buf)@, at as int, x),
        same_outside(old(buf)@, final(buf)@, at as int, 4),
{
    buf[at] = (x & 0xff) as u8;
    buf[at + 1] = ((x >> 8u32) & 0xff) as u8;
    buf[at + 2] = ((x >> 16u32) & 0xff) as u8;
    buf[at + 3] = ((x >> 24u32) & 0xff) as u8;
}

/// Writes `x` at `at`, little-endian.
pub fn put_u16<const N: usize>(buf: &mut [u8; N], at: usize, x: u16)
    requires
        at + 2 <= N,
    ensures
        holds_u16(final(buf)@, at as int, x),
        same_outside(old(buf)@, final(buf)@, at as int, 2),
{
    buf[at] = (x & 0xff) as u8;
    buf[at + 1] = ((x >> 8u16) & 0xff) as u8;
}

/// Writes `x` at `at`.
pub fn put_u8<const N: usize>(buf: &mut [u8; N], at: usize, x: u8)
    requires
        at < N,
    ensures
        holds_u8(final(buf)@, at as int, x),
        same_outside(old(buf)@, final(buf)@, at as int, 1),
{
    buf[at] = x;
}

/// Writes `x` at `at` as its two's-complement image.
pub fn put_i64<const N: usize>(buf: &mut [u8; N], at: usize, x: i64)
    requires
        at + 8 <= N,
    ensures
        holds_i64(final(buf)@, at as int, x),
        same_outside(old(buf)@, final(buf)@, at as int, 8),
{
    put_u64(buf, at, x as u64);
}

/// Writes `x` at `at` as its two's-complement image.
pub fn put_i32<const N: usize>(buf: &mut [u8; N], at: usize, x: i32)
    requires
        at + 4 <= N,
    ensures
        holds_i32(final(buf)@, at as int, x),
        same_outside(old(buf)@, final(buf)@, at as int, 4),
{
    put_u32(buf, at, x as u32);
}

/// Copies `b` to `at`.
pub fn put_bytes<const N: usize>(buf: &mut [u8; N], at: usize, b: &[u8])
    requires
        at + b@.len() <= N,
    ensures
        holds_bytes(final(buf)@, at as int, b@),
        same_outside(old(buf)@, final(buf)@, at as int, b@.len() as int),
{
    let mut k: usize = 0;
    while k < b.len()
        invariant
            at + b@.len() <= N,
            0 <= k <= b@.len(),
            buf@.len() == N,
            forall|j: int| 0 <= j < k ==> #[trigger] buf@[at + j] == b@[j],
            same_outside(old(buf)@, buf@, at as int, b@.len() as int),
        decreases b@.len() - k,
    {
        buf[at + k] = b[k];
        k += 1;
    }
    assert forall|j: int| 0 <= j < b@.len() implies #[trigger] buf@[at + j] == b@[j] by {}
}

/// The little-endian `u64` at `at`, where eight bytes are there.
pub open spec fn u64_at(s: Seq<u8>, at: int) -> u64 {
    choose|x: u64| holds_u64(s, at, x)
}

/// The little-endian `u32` at `at`, where four bytes are there.
pub open spec fn u32_at(s: Seq<u8>, at: int) -> u32 {
    choose|x: u32| holds_u32(s, at, x)
}

/// The little-endian `u16` at `at`, where two bytes are there.
pub open spec fn u16_at(s: Seq<u8>, at: int) -> u16 {
    choose|x: u16| holds_u16(s, at, x)
}

/// A `u64` image names the value [`u64_at`] reads.
pub proof fn lemma_u64_at(s: Seq<u8>, at: int, x: u64)
    requires
        holds_u64(s, at, x),
    ensures
        u64_at(s, at) == x,
{
    lemma_u64_unique(s, at, u64_at(s, at), x);
}

/// A `u32` image names the value [`u32_at`] reads.
pub proof fn lemma_u32_at(s: Seq<u8>, at: int, x: u32)
    requires
        holds_u32(s, at, x),
    ensures
        u32_at(s, at) == x,
{
    lemma_u32_unique(s, at, u32_at(s, at), x);
}

/// A `u16` image names the value [`u16_at`] reads.
pub proof fn lemma_u16_at(s: Seq<u8>, at: int, x: u16)
    requires
        holds_u16(s, at, x),
    ensures
        u16_at(s, at) == x,
{
    lemma_u16_unique(s, at, u16_at(s, at), x);
}

/// Reads the little-endian `u64` at `at`.
pub fn get_u64(s: &[u8], at: usize) -> (res: u64)
    requires
        at + 8 <= s@.len(),
    ensures
        holds_u64(s@, at as int, res),
{
    let b0 = s[at] as u64;
    let b1 = s[at + 1] as u64;
    let b2 = s[at + 2] as u64;
    let b3 = s[at + 3] as u64;
    let b4 = s[at + 4] as u64;
    let b5 = s[at + 5] as u64;
    let b6 = s[at + 6] as u64;
    let b7 = s[at + 7] as u64;
    let x = b0 | b1 << 8u64 | b2 << 16u64 | b3 << 24u64 | b4 << 32u64 | b5 << 40u64 | b6 << 48u64
        | b7 << 56u64;
    assert((b0 < 256 && b1 < 256 && b2 < 256 && b3 < 256 && b4 < 256 && b5 < 256 && b6 < 256 && b7
        < 256 && x == (b0 | b1 << 8u64 | b2 << 16u64 | b3 << 24u64 | b4 << 32u64 | b5 << 40u64 | b6
        << 48u64 | b7 << 56u64)) ==> (b0 == (x & 0xff) && b1 == ((x >> 8u64) & 0xff) && b2 == ((x
        >> 16u64) & 0xff) && b3 == ((x >> 24u64) & 0xff) && b4 == ((x >> 32u64) & 0xff) && b5 == ((x
        >> 40u64) & 0xff) && b6 == ((x >> 48u64) & 0xff) && b7 == ((x >> 56u64) & 0xff)))
        by (bit_vector);
    x
}

/// Reads the little-endian `u32` at `at`.
pub fn get_u32(s: &[u8], at: usize) -> (res: u32)
    requires
        at + 4 <= s@.len(),
    ensures
        holds_u32(s@, at as int, res),
{
    let b0 = s[at] as u32;
    let b1 = s[at + 1] as u32;
    let b2 = s[at + 2] as u32;
    let b3 = s[at + 3] as u32;
    let x = b0 | b1 << 8u32 | b2 << 16u32 | b3 << 24u32;
    assert((b0 < 256 && b1 < 256 && b2 < 256 && b3 < 256 && x == (b0 | b1 << 8u32 | b2 << 16u32
        | b3 << 24u32)) ==> (b0 == (x & 0xff) && b1 == ((x >> 8u32) & 0xff) && b2 == ((x >> 16u32)
        & 0xff) && b3 == ((x >> 24u32) & 0xff))) by (bit_vector);
    x
}

/// Reads the little-endian `u16` at `at`.
pub fn get_u16(s: &[u8], at: usize) -> (res: u16)
    requires
        at + 2 <= s@.len(),
    ensures
        holds_u16(s@, at as int, res),
{
    let b0 = s[at] as u16;
    let b1 = s[at + 1] as u16;
    let x = b0 | b1 << 8u16;
    assert((b0 < 256 && b1 < 256 && x == (b0 | b1 << 8u16)) ==> (b0 == (x & 0xff) && b1 == ((x
        >> 8u16) & 0xff))) by (bit_vector);
    x
}

/// Reads the byte at `at`.
pub fn get_u8(s: &[u8], at: usize) -> (res: u8)
    requires
        at < s@.len(),
    ensures
        holds_u8(s@, at as int, res),
{
    s[at]
}

/// Reads the two's-complement `i64` at `at`.
pub fn get_i64(s: &[u8], at: usize) -> (res: i64)
    requires
        at + 8 <= s@.len(),
    ensures
        holds_i64(s@, at as int, res),
{
    let u = get_u64(s, at);
    let x = u as i64;
    assert((x == u as i64) ==> x as u64 == u) by (bit_vector);
    x
}

/// Reads the two's-complement `i32` at `at`.
pub fn get_i32(s: &[u8], at: usize) -> (res: i32)
    requires
        at + 4 <= s@.len(),
    ensures
        holds_i32(s@, at as int, res),
{
    let u = get_u32(s, at);
    let x = u as i32;
    assert((x == u as i32) ==> x as u32 == u) by (bit_vector);
    x
}

/// Reads the `N` bytes at `at`.
pub fn get_bytes<const N: usize>(s: &[u8], at: usize) -> (res: [u8; N])
    requires
        at + N <= s@.len(),
    ensures
        holds_bytes(s@, at as int, res@),
{
    let mut out = [0u8; N];
    let mut k: usize = 0;
    let n = s.len();
    while k < N
        invariant
            n == s@.len(),
            at + N <= s@.len(),
            0 <= k <= N,
            out@.len() == N,
            forall|j: int| 0 <= j < k ==> out@[j] == #[trigger] s@[at + j],
        decreases N - k,
    {
        out[k] = s[at + k];
        k += 1;
    }
    out
}

} // verus!
