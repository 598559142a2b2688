//! The producer's boot identity.
//!
//! A consumer that stayed attached across a handler restart notices it by the
//! segment header's `boot_id` changing, so the only property that matters is
//! that two runs do not share one, and that none is zero: zero is what an
//! uninitialised header reads as. The identity is the wall clock, the process
//! id and a per-process counter passed through a 64-bit mixer; reading those
//! three is the caller's part.
use vstd::prelude::*;

verus! {

/// splitmix64's finaliser.
pub open spec fn mixed(x: u64) -> u64 {
    let x1 = x ^ (x >> 30u64);
    let x2 = x1.wrapping_mul(0xbf58_476d_1ce4_e5b9u64);
    let x3 = x2 ^ (x2 >> 27u64);
    let x4 = x3.wrapping_mul(0x94d0_49bb_1331_11ebu64);
    x4 ^ (x4 >> 31u64)
}

/// `x` rotated left by `k` bits, `0 < k < 64`.
pub open spec fn rotated(x: u64, k: u64) -> u64 {
    (x << k) | (x >> (64 - k) as u64)
}

/// The identity a run with clock reading `ns`, process id `pid` and
/// counter value `n` takes: the mixed value, with zero replaced by one.
pub open spec fn identity_of(ns: u64, pid: u32, n: u64) -> u64 {
    let id = mixed(ns ^ rotated(pid as u64, 32) ^ rotated(n, 48));
    if id == 0 { 1 } else { id }
}

/// splitmix64's finaliser.
pub fn mix(x: u64) -> (res: u64)
    ensures
        res == mixed(x),
{
    let mut x = x;
    x = x ^ (x >> 30);
    x = x.wrapping_mul(0xbf58_476d_1ce4_e5b9);
    x = x ^ (x >> 27);
    x = x.wrapping_mul(0x94d0_49bb_1331_11eb);
    x ^ (x >> 31)
}

/// The identity for clock reading `ns`, process id `pid` and the
/// process's `n`th call: never zero.
pub fn boot_identity(ns: u64, pid: u32, n: u64) -> (id: u64)
    ensures
        id == identity_of(ns, pid, n),
        id != 0,
{
    let p = pid as u64;
    let id = mix(ns ^ ((p << 32) | (p >> 32)) ^ ((n << 48) | (n >> 16)));
    if id == 0 { 1 } else { id }
}

} // verus!
