//! What a feed thread decides between rounds.

use jeed::feed::{Cadence, LinkWatch, LogonWatch, log_refusal, path_head};

const SECOND: u64 = 1_000_000_000;

#[test]
fn a_blocking_thread_checks_the_clock_every_round_and_reports_once_a_period() {
    let mut c = Cadence::new(100, 10 * SECOND);
    assert!(c.round(10 * SECOND, false));
    assert!(!c.due(100 + 9 * SECOND, 10 * SECOND), "not yet");
    assert!(c.due(100 + 10 * SECOND, 10 * SECOND), "a period after the start");
    assert!(!c.due(100 + 15 * SECOND, 10 * SECOND), "the next is a period after the report");
    assert!(c.due(100 + 20 * SECOND, 10 * SECOND));
}

#[test]
fn a_spinning_thread_reads_the_clock_every_256th_round() {
    let mut c = Cadence::new(0, SECOND);
    let reads: Vec<bool> = (0..512).map(|_| c.round(SECOND, true)).collect();
    assert_eq!(reads.iter().filter(|r| **r).count(), 2);
    assert!(reads[255] && reads[511]);
}

#[test]
fn a_silenced_report_never_reads_the_clock() {
    let mut c = Cadence::new(0, 0);
    assert!((0..1000).all(|_| !c.round(0, false)));
}

#[test]
fn the_report_time_saturates_at_the_end_of_the_clock() {
    let mut c = Cadence::new(u64::MAX - 1, 10 * SECOND);
    assert!(!c.due(u64::MAX - 1, 10 * SECOND));
    assert!(c.due(u64::MAX, 10 * SECOND));
}

#[test]
fn a_fix_session_subscribes_once_per_logon() {
    let mut w = LogonWatch::new();
    assert!(!w.after_round(0, false));
    assert!(!w.after_round(1, false), "logging on, not yet logged on");
    assert!(w.after_round(1, true), "the first logon");
    assert!(!w.after_round(1, true), "already subscribed");
    assert!(w.after_round(2, true), "a logon after a reconnect");
}

#[test]
fn a_crypto_link_fetches_a_ticket_before_each_connect_that_needs_one() {
    let mut w = LinkWatch::new(true);
    assert!(w.ticket_wanted(true));
    assert!(!w.ticket_wanted(false), "only while the link is down");
    assert!(w.ticket_time(0));
    w.ticket_failed(100, 5 * SECOND);
    assert!(!w.ticket_time(100 + SECOND), "waits a reconnect period");
    assert!(w.ticket_time(100 + 5 * SECOND));
    w.ticket_fetched();
    assert!(!w.ticket_wanted(true));

    assert!(w.after_round(0, 1), "connected: subscribe and fetch the start books");
    assert!(!w.after_round(0, 1));
    assert!(!w.after_round(1, 1), "a drop");
    assert!(w.ticket_wanted(true), "a drop makes the ticket due again");
    assert!(w.after_round(1, 2), "reconnected");
}

#[test]
fn a_venue_without_tickets_never_wants_one() {
    let mut w = LinkWatch::new(false);
    assert!(!w.ticket_wanted(true));
    assert!(!w.after_round(1, 0));
    assert!(!w.ticket_wanted(true));
}

#[test]
fn refusals_are_logged_in_full_then_one_in_a_thousand() {
    let logged: Vec<u64> = (1..=3000).filter(|n| log_refusal(*n)).collect();
    assert_eq!(logged, [1, 2, 3, 4, 5, 1000, 2000, 3000]);
}

#[test]
fn a_path_is_logged_without_its_query() {
    assert_eq!(path_head("/endpoint?token=abc"), "/endpoint");
    assert_eq!(path_head("/endpoint"), "/endpoint");
    assert_eq!(path_head("?x"), "");
    assert_eq!(path_head(""), "");
    assert_eq!(path_head("/é/ü?q"), "/é/ü");
}
