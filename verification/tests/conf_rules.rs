//! The placement rules every conf shares, and the KRX conf's own.

use jeed::conf::rules::{KrxRules, Placement, RuleError, check_placement, is_power_of_two, validate_krx};
use jeed::cpu::Topology;

fn feed<'a>(name: &'a str, spin: bool, cores: &'a [u16], ring: &'a str) -> Placement<'a> {
    Placement { name, spin, cores, ring, ring_slots: 64 }
}

/// Every ring name accepted by the segment layer.
fn accepted(n: usize) -> Vec<Option<String>> {
    vec![None; n]
}

/// Four logical processors: (0,1) share a core, (2,3) share a core.
fn two_cores_smt() -> Topology {
    Topology::from_siblings(vec![0b0011, 0b0011, 0b1100, 0b1100])
}

#[test]
fn a_clean_layout_passes_with_and_without_topology() {
    let feeds = [feed("hot", true, &[2], "jeed.test.hot"), feed("cold", false, &[0, 1], "jeed.test.cold")];
    check_placement(&feeds, None, &accepted(2)).unwrap();
    check_placement(&feeds, Some(&two_cores_smt()), &accepted(2)).unwrap();
}

#[test]
fn nothing_and_nameless_are_refused_first() {
    assert_eq!(check_placement(&[], None, &[]), Err(RuleError::NoFeeds));
    assert_eq!(check_placement(&[feed("", true, &[0], "jeed.test.x")], None, &accepted(1)), Err(RuleError::EmptyName { index: 0 }));
    let feeds = [feed("a", false, &[0], "jeed.test.a"), feed("a", false, &[1], "jeed.test.b")];
    assert_eq!(check_placement(&feeds, None, &accepted(2)), Err(RuleError::DuplicateName { name: "a".into() }));
}

#[test]
fn rings_are_one_producer_each_and_a_power_of_two() {
    let feeds = [feed("a", false, &[0], "jeed.test.r"), feed("b", false, &[1], "jeed.test.r")];
    assert_eq!(
        check_placement(&feeds, None, &accepted(2)),
        Err(RuleError::DuplicateRing { ring: "jeed.test.r".into(), a: "a".into(), b: "b".into() })
    );
    let odd = Placement { ring_slots: 48, ..feed("a", false, &[0], "jeed.test.a") };
    assert_eq!(check_placement(&[odd], None, &accepted(1)), Err(RuleError::RingSlots { feed: "a".into(), slots: 48 }));
    // A ring name the segment layer refuses is refused under its feed.
    let bad = feed("a", false, &[0], "");
    let refused = vec![Some("the name is empty".to_string())];
    assert!(matches!(check_placement(&[bad], None, &refused), Err(RuleError::Ring { feed, .. }) if feed == "a"));
}

#[test]
fn cores_are_exclusive_and_a_spinner_has_exactly_one() {
    assert_eq!(check_placement(&[feed("a", false, &[], "jeed.test.a")], None, &accepted(1)), Err(RuleError::NoCores { feed: "a".into() }));
    assert_eq!(
        check_placement(&[feed("a", true, &[0, 1], "jeed.test.a")], None, &accepted(1)),
        Err(RuleError::SpinOnSeveralCores { feed: "a".into(), cores: 2 })
    );
    let feeds = [feed("a", false, &[0, 1], "jeed.test.a"), feed("b", false, &[1], "jeed.test.b")];
    assert_eq!(check_placement(&feeds, None, &accepted(2)), Err(RuleError::CoreShared { core: 1, a: "a".into(), b: "b".into() }));
    assert_eq!(
        check_placement(&[feed("a", false, &[4], "jeed.test.a")], Some(&two_cores_smt()), &accepted(1)),
        Err(RuleError::CoreOutOfRange { feed: "a".into(), core: 4, logical: 4 })
    );
    assert_eq!(
        check_placement(&[feed("a", false, &[64], "jeed.test.a")], None, &accepted(1)),
        Err(RuleError::CoreOutOfRange { feed: "a".into(), core: 64, logical: 64 })
    );
}

#[test]
fn a_spinners_smt_sibling_is_off_limits_only_when_the_topology_is_known() {
    let feeds = [feed("hot", true, &[2], "jeed.test.hot"), feed("cold", false, &[3], "jeed.test.cold")];
    check_placement(&feeds, None, &accepted(2)).unwrap();
    assert_eq!(
        check_placement(&feeds, Some(&two_cores_smt()), &accepted(2)),
        Err(RuleError::SiblingShared { spinning: "hot".into(), core: 2, sibling: 3, other: "cold".into() })
    );
    // Two blocking feeds may share a physical core.
    let feeds = [feed("a", false, &[2], "jeed.test.a"), feed("b", false, &[3], "jeed.test.b")];
    check_placement(&feeds, Some(&two_cores_smt()), &accepted(2)).unwrap();
}

#[test]
fn the_lowest_shared_sibling_is_named() {
    // A spinner on 0 of an (0,2,3) core: the cold feed on 3 and 2 is caught on 2.
    let topo = Topology::from_siblings(vec![0b1101, 0b0010, 0b1101, 0b1101]);
    let feeds = [feed("hot", true, &[0], "jeed.test.hot"), feed("cold", false, &[3, 2], "jeed.test.cold")];
    assert_eq!(
        check_placement(&feeds, Some(&topo), &accepted(2)),
        Err(RuleError::SiblingShared { spinning: "hot".into(), core: 0, sibling: 2, other: "cold".into() })
    );
}

#[test]
fn powers_of_two_are_the_only_ring_sizes() {
    assert!(is_power_of_two(1));
    assert!(is_power_of_two(65_536));
    assert!(is_power_of_two(1 << 63));
    assert!(!is_power_of_two(0));
    assert!(!is_power_of_two(48));
    assert!(!is_power_of_two(u64::MAX));
}

fn krx<'a>(placement: Placement<'a>, ports: &'a [u16], trcodes: &'a [[u8; 5]]) -> KrxRules<'a> {
    KrxRules { placement, ports, trcodes }
}

#[test]
fn krx_rules_refuse_a_port_used_twice() {
    let codes = [*b"B601F"];
    let feeds = [
        krx(feed("hot", true, &[2], "jeed.test.hot"), &[10302], &codes),
        krx(feed("cold", false, &[0], "jeed.test.cold"), &[10303, 10302], &codes),
    ];
    assert_eq!(
        validate_krx(&feeds, None, &accepted(2)),
        Err(RuleError::PortShared { port: 10302, a: "hot".into(), b: "cold".into() })
    );
    let feeds = [krx(feed("hot", true, &[2], "jeed.test.hot"), &[10302, 10302], &codes)];
    assert_eq!(
        validate_krx(&feeds, None, &accepted(1)),
        Err(RuleError::PortShared { port: 10302, a: "hot".into(), b: "hot".into() })
    );
}

#[test]
fn krx_rules_want_trcodes_each_once() {
    let feeds = [krx(feed("hot", true, &[2], "jeed.test.hot"), &[10302], &[])];
    assert_eq!(validate_krx(&feeds, None, &accepted(1)), Err(RuleError::NoTrcodes { feed: "hot".into() }));
    let codes = [*b"B601F", *b"G701F", *b"B601F"];
    let feeds = [krx(feed("hot", true, &[2], "jeed.test.hot"), &[10302], &codes)];
    assert_eq!(
        validate_krx(&feeds, None, &accepted(1)),
        Err(RuleError::DuplicateTrcode { feed: "hot".into(), code: *b"B601F" })
    );
    let feeds = [krx(feed("hot", true, &[2], "jeed.test.hot"), &[], &codes)];
    assert_eq!(validate_krx(&feeds, None, &accepted(1)), Err(RuleError::NoSockets { feed: "hot".into() }));
}

#[test]
fn a_krx_feed_is_placed_before_its_sockets_are_read() {
    let codes = [*b"B601F"];
    let feeds = [
        krx(feed("hot", true, &[2], "jeed.test.hot"), &[10302], &codes),
        krx(feed("cold", false, &[2], "jeed.test.cold"), &[10302], &codes),
    ];
    assert_eq!(validate_krx(&feeds, None, &accepted(2)), Err(RuleError::CoreShared { core: 2, a: "hot".into(), b: "cold".into() }));
    let feeds = [
        krx(feed("hot", true, &[2], "jeed.test.hot"), &[10302], &codes),
        krx(feed("cold", false, &[3], "jeed.test.cold"), &[10303], &codes),
    ];
    validate_krx(&feeds, None, &accepted(2)).unwrap();
    assert_eq!(
        validate_krx(&feeds, Some(&two_cores_smt()), &accepted(2)),
        Err(RuleError::SiblingShared { spinning: "hot".into(), core: 2, sibling: 3, other: "cold".into() })
    );
}

#[test]
fn messages_read_as_sentences() {
    assert_eq!(RuleError::NoInstruments { feed: "x".into() }.to_string(), "feed[x]: no [[feed.instrument]]");
    assert_eq!(
        RuleError::SiblingShared { spinning: "hot".into(), core: 2, sibling: 3, other: "cold".into() }.to_string(),
        "feed \"cold\" uses core 3, the SMT sibling of core 2 that \"hot\" spins on"
    );
    assert_eq!(
        RuleError::DuplicateTrcode { feed: "hot".into(), code: *b"B601F" }.to_string(),
        "feed[hot]: trcode B601F is listed twice"
    );
    assert_eq!(RuleError::RingSlots { feed: "a".into(), slots: 48 }.to_string(), "feed[a]: `ring_slots` = 48 is not a power of two");
}
