//! The conf names of the crypto and FIX venues.

use jeed::Venue;
use jeed::conf::{Health, crypto, fix};

#[test]
fn every_venue_name_round_trips() {
    for name in crypto::venue_names() {
        let venue = crypto::venue_by_name(name).unwrap();
        assert_eq!(crypto::venue_name(venue), Some(name));
    }
    assert_eq!(crypto::venue_names().len(), 12);
    assert_eq!(crypto::venue_by_name("Binance-Spot"), None, "names are case-sensitive");
    assert_eq!(crypto::venue_name(Venue::Krx), None);
}

#[test]
fn the_fix_venue_is_named_smbs() {
    assert_eq!(fix::venue_by_name("smbs"), Some(Venue::Smbs));
    assert_eq!(fix::venue_by_name("krx"), None);
    assert_eq!(fix::venue_names(), vec!["smbs"]);
    assert_eq!(fix::venue_name_or(Venue::Smbs), "smbs");
    assert_eq!(fix::venue_name_or(Venue::Upbit), "?");
}

#[test]
fn health_default_is_a_100ms_heartbeat_and_500ms_stale() {
    let h = Health::default();
    assert_eq!(h.heartbeat_ns, 100_000_000);
    assert_eq!(h.stale_ns, 500_000_000);
}
