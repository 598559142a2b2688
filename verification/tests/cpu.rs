//! Core masks, the pin request, and the SMT layout.

use jeed::cpu::{
    CpuError, MAX_LOGICAL, Topology, mask_of, parse_list, pin_current_thread, siblings_of_core_records,
};

#[test]
fn a_mask_is_one_bit_per_core() {
    assert_eq!(mask_of(&[]), Some(0));
    assert_eq!(mask_of(&[2]), Some(0b100));
    assert_eq!(mask_of(&[4, 5, 6, 7]), Some(0xF0));
    assert_eq!(mask_of(&[0, 63]), Some(1 | 1 << 63));
    assert_eq!(mask_of(&[64]), None, "beyond a u64");
    assert_eq!(mask_of(&[1, 64]), None);
}

#[test]
fn an_empty_mask_is_refused_before_any_syscall() {
    let os_pin = |_: u64| -> Result<(), CpuError> { panic!("an empty mask must not reach the OS") };
    assert_eq!(pin_current_thread(0, os_pin), Err(CpuError::EmptyMask));
}

#[test]
fn a_non_empty_mask_is_handed_to_the_os_as_it_is() {
    let os_pin = |mask: u64| -> Result<(), CpuError> {
        assert_eq!(mask, 0b100);
        Err(CpuError::Os { call: "sched_setaffinity", code: 22 })
    };
    assert_eq!(pin_current_thread(0b100, os_pin), Err(CpuError::Os { call: "sched_setaffinity", code: 22 }));
    assert_eq!(pin_current_thread(1, |_: u64| -> Result<(), CpuError> { Ok(()) }), Ok(()));
}

#[test]
fn the_detected_topology_is_consistent() {
    // What a box with four cores of two hyperthreads each reports.
    let reported = vec![0b1_0001, 0b10_0010, 0b100_0100, 0b1000_1000, 0b1_0001, 0b10_0010, 0b100_0100, 0b1000_1000];
    let topo = Topology::detect(move || Ok(reported)).unwrap();
    let n = topo.logical();
    assert!(n >= 1);
    assert!(n <= MAX_LOGICAL);
    assert_eq!(topo.siblings_of(n), None);
    for lp in 0..n {
        let mask = topo.siblings_of(lp).unwrap();
        assert_ne!(mask & (1 << lp), 0, "processor {lp} is its own sibling");
        for other in 0..n {
            if mask & (1 << other) != 0 {
                assert_eq!(topo.siblings_of(other), Some(mask), "{lp} and {other} disagree");
            }
        }
    }
}

#[test]
fn an_os_that_reports_nothing_or_fails_gives_no_topology() {
    assert_eq!(Topology::detect(|| Ok(Vec::new())), Err(CpuError::NoProcessors));
    assert_eq!(Topology::detect(|| Err(CpuError::BeyondMask)), Err(CpuError::BeyondMask));
}

#[test]
fn siblings_outside_names_only_the_other_half_of_each_core() {
    // (0,1) (2,3) (4,5) SMT pairs.
    let topo = Topology::from_siblings(vec![0b11, 0b11, 0b1100, 0b1100, 0b11_0000, 0b11_0000]);
    assert_eq!(topo.logical(), 6);
    assert_eq!(topo.siblings_outside(0b100), 0b1000, "core 2's sibling is 3");
    assert_eq!(topo.siblings_outside(0b1100), 0, "both halves already taken");
    assert_eq!(topo.siblings_outside(0b1 | 0b1_0000), 0b10 | 0b10_0000);
    assert_eq!(topo.siblings_outside(0), 0);
    // A bit beyond the topology is ignored, not a panic.
    assert_eq!(topo.siblings_outside(1 << 40), 0);
}

#[test]
fn a_sysfs_list_reads_as_its_mask() {
    assert_eq!(parse_list(b"0-1,4,6-7"), Ok(0b1101_0011));
    assert_eq!(parse_list(b" 2,10\n"), Ok(1 << 2 | 1 << 10));
    assert_eq!(parse_list(b""), Ok(0));
    assert_eq!(parse_list(b"3,,5"), Ok(0b10_1000));
    assert_eq!(parse_list(b"+3"), Ok(0b1000));
    assert_eq!(parse_list(b"5-3"), Ok(0), "a range that runs backwards names nothing");
    assert_eq!(parse_list(b"0-63"), Ok(u64::MAX));
    assert_eq!(parse_list(b"60-70"), Err(CpuError::BeyondMask));
    assert_eq!(parse_list(b"64"), Err(CpuError::BeyondMask));
    assert_eq!(parse_list(b"a"), Err(CpuError::NoProcessors));
    assert_eq!(parse_list(b"1 - 2"), Err(CpuError::NoProcessors));
    assert_eq!(parse_list(b"99999999999999999999999"), Err(CpuError::NoProcessors));
    assert_eq!(parse_list(b"x,64"), Err(CpuError::NoProcessors), "the first bad part is the answer");
}

#[test]
fn a_topology_read_from_sysfs_lists() {
    let lists: [&[u8]; 4] = [b"0,2\n", b"1,3\n", b"0,2\n", b"1,3\n"];
    let topo = Topology::detect(|| lists.iter().map(|l| parse_list(l)).collect()).unwrap();
    assert_eq!(topo.logical(), 4);
    assert_eq!(topo.siblings_outside(0b1), 0b100);
}

#[test]
fn cpu_errors_read_as_sentences() {
    assert_eq!(CpuError::EmptyMask.to_string(), "affinity mask names no processor");
    assert_eq!(CpuError::BeyondMask.to_string(), "a processor beyond 64 cannot be named");
    assert_eq!(CpuError::Os { call: "sched_setaffinity", code: 22 }.to_string(), "sched_setaffinity failed with code 22");
}

/// One `SYSTEM_LOGICAL_PROCESSOR_INFORMATION_EX` record: relationship, then
/// one 16-byte group entry per `(mask, group)`.
fn record(relationship: u32, entries: &[(u64, u16)]) -> Vec<u8> {
    let size = 32 + 16 * entries.len();
    let mut r = Vec::new();
    r.extend_from_slice(&relationship.to_le_bytes());
    r.extend_from_slice(&(size as u32).to_le_bytes());
    r.extend_from_slice(&[0u8; 22]);
    r.extend_from_slice(&(entries.len() as u16).to_le_bytes());
    for &(mask, group) in entries {
        r.extend_from_slice(&mask.to_le_bytes());
        r.extend_from_slice(&group.to_le_bytes());
        r.extend_from_slice(&[0u8; 6]);
    }
    r
}

#[test]
fn core_records_give_each_processor_its_core_mask() {
    let mut buf = record(0, &[(0b0011, 0)]);
    buf.extend(record(0, &[(0b1100, 0)]));
    assert_eq!(siblings_of_core_records(&buf), Ok(vec![0b0011, 0b0011, 0b1100, 0b1100]));
    let topo = Topology::from_read(siblings_of_core_records(&buf)).unwrap();
    assert_eq!(topo.logical(), 4);
    assert_eq!(topo.siblings_outside(0b0001), 0b0010);
}

#[test]
fn core_records_skip_other_groups_and_relationships() {
    let mut buf = record(0, &[(0b01, 0), (0b1111, 1)]);
    buf.extend(record(2, &[(0b1111_0000, 0)]));
    buf.extend(record(0, &[(0b10, 0)]));
    assert_eq!(siblings_of_core_records(&buf), Ok(vec![0b01, 0b10]));
}

#[test]
fn core_records_stop_at_a_cut_or_a_short_size() {
    let mut buf = record(0, &[(0b01, 0)]);
    let second = record(0, &[(0b10, 0)]);
    buf.extend_from_slice(&second[..40]);
    assert_eq!(siblings_of_core_records(&buf), Ok(vec![0b01]), "a record past the end is not read");

    let mut short = record(0, &[(0b01, 0)]);
    short[4..8].copy_from_slice(&16u32.to_le_bytes());
    assert_eq!(siblings_of_core_records(&short), Ok(vec![]), "a size under 32 ends the walk");
    assert_eq!(Topology::from_read(siblings_of_core_records(&short)), Err(CpuError::NoProcessors));
}

#[test]
fn an_entry_past_its_record_ends_the_record() {
    let mut buf = record(0, &[(0b01, 0)]);
    buf[30..32].copy_from_slice(&2u16.to_le_bytes());
    assert_eq!(siblings_of_core_records(&buf), Ok(vec![0b01]));
}

#[test]
fn a_processor_left_without_a_core_is_refused() {
    let buf = record(0, &[(0b100, 0)]);
    assert_eq!(siblings_of_core_records(&buf), Err(CpuError::NoProcessors));
    assert_eq!(siblings_of_core_records(&[]), Ok(vec![]));
}

#[test]
fn from_read_passes_errors_on_and_refuses_an_empty_list() {
    assert_eq!(Topology::from_read(Err(CpuError::BeyondMask)), Err(CpuError::BeyondMask));
    assert_eq!(Topology::from_read(Ok(vec![])), Err(CpuError::NoProcessors));
    assert_eq!(Topology::from_read(Ok(vec![1, 2])).unwrap().siblings_of(1), Some(2));
}
