//! The end-of-replay report, line by line.

use jeed::pcap::PacketTally;
use jeed::pcap::report::{CodeRow, PipelineCounts, PortRow, RefusedRow, order_by_count, report};

fn capture() -> PacketTally {
    PacketTally {
        packets: 3,
        datagrams: 2,
        truncated: 0,
        not_ipv4: 0,
        not_udp: 0,
        fragments: 0,
        short: 1,
        bytes: 100,
        first_ns: 0,
        last_ns: 1_500_000_000,
    }
}

fn pipeline() -> PipelineCounts {
    PipelineCounts {
        received: 2,
        published: 1,
        filtered: 0,
        filtered_trcode: 0,
        filtered_isin: 0,
        dropped: 1,
        too_short: 0,
        unknown_trcode: 0,
        wrong_length: 0,
        decode_failed: 1,
    }
}

fn row(lengths: Vec<(u64, u64)>, failures: Vec<RefusedRow>) -> CodeRow {
    CodeRow {
        code: "B601F".to_string(),
        received: 4,
        lengths,
        bad_end: 0,
        published: 3,
        filtered: 0,
        filtered_isin: 0,
        unknown: 0,
        wrong_length: 0,
        failed: 1,
        failures,
    }
}

fn header() -> String {
    format!(
        "{:<7} {:>11} {:<20} {:>8} {:>11} {:>11} {:>9} {:>8} {:>8} {:>9}",
        "trcode", "recv", "len", "end!=FF", "published", "filtered", "isin-out", "unknown", "wronglen", "fail"
    )
}

#[test]
fn the_report_reads_as_the_replay_prints_it() {
    let codes = vec![row(
        vec![(96, 1), (120, 3)],
        vec![RefusedRow { count: 1, error: "bad length".to_string(), head: b"B6\x01F".to_vec() }],
    )];
    let ports = vec![PortRow {
        group: [233, 38, 231, 92],
        port: 10302,
        received: 2,
        codes: vec![("B601F".to_string(), 1), ("G701F".to_string(), 3)],
    }];
    let text = report(&capture(), &pipeline(), &codes, &ports);
    let line = format!(
        "{:<7} {:>11} {:<20} {:>8} {:>11} {:>11} {:>9} {:>8} {:>8} {:>9}",
        "B601F", 4, "120×3 96×1", 0, 3, 0, 0, 0, 0, 1
    );
    let port = format!("{}.{}.{}.{}:{:<5} {:>11}  {}", 233, 38, 231, 92, 10302, 2, "G701F:3 B601F:1");
    let expected = [
        "capture: 3 packets · 2 datagrams · 100 bytes · 1970-01-01T00:00:00.000Z → 1970-01-01T00:00:01.500Z".to_string(),
        "skipped: not-ipv4 0 · not-udp 0 · fragment 0 · short 1 · truncated 0".to_string(),
        "pipeline: recv 2 · pub 1 · filtered 0 (trcode 0 isin 0) · dropped 1 (short 0 unknown 0 len 0 fail 1)".to_string(),
        String::new(),
        header(),
        line,
        String::new(),
        "refused:".to_string(),
        "B601F ×1: bad length · \"B6.F\"".to_string(),
        String::new(),
        "ports:".to_string(),
        port,
    ]
    .join("\n")
        + "\n";
    assert_eq!(text, expected);
}

#[test]
fn a_lone_length_prints_without_its_count_and_nothing_refused_prints_no_title() {
    let codes = vec![row(vec![(96, 4)], Vec::new())];
    let text = report(&capture(), &pipeline(), &codes, &Vec::new());
    assert!(!text.contains("refused:"));
    let line = format!(
        "{:<7} {:>11} {:<20} {:>8} {:>11} {:>11} {:>9} {:>8} {:>8} {:>9}",
        "B601F", 4, "96", 0, 3, 0, 0, 0, 0, 1
    );
    assert!(text.contains(&format!("\n{line}\n")));
    assert!(text.ends_with("\nports:\n"));
}

#[test]
fn counts_order_most_seen_first_and_keep_ties_in_place() {
    assert_eq!(order_by_count(&[1, 3, 2, 3]), [1, 3, 2, 0]);
    assert_eq!(order_by_count(&[]), Vec::<usize>::new());
    assert_eq!(order_by_count(&[5, 5, 5]), [0, 1, 2]);
}
