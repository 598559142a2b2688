//! The run identity.

use jeed::boot::{boot_identity, mix};

#[test]
fn the_mixer_is_splitmix64s_finaliser() {
    assert_eq!(mix(0), 0);
    assert_eq!(mix(1), 0x5692161d100b05e5);
}

#[test]
fn never_zero() {
    for n in 0..1000u64 {
        assert_ne!(boot_identity(n, 1, n), 0);
    }
    assert_ne!(boot_identity(0, 0, 0), 0, "the one input that mixes to zero is bumped to one");
    assert_eq!(boot_identity(0, 0, 0), 1);
}

#[test]
fn consecutive_runs_do_not_collide() {
    let ids: std::collections::HashSet<u64> = (0..10_000u64).map(|n| boot_identity(1_700_000_000_000_000_000, 4242, n)).collect();
    assert_eq!(ids.len(), 10_000);
}
