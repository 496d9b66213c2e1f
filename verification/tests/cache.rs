use queue_alert::client::{CacheRead, CachedClient, ParkEntry, ParkRides, FRESH_WINDOW_MS};
use queue_alert::model::{RideStatus, RideTime};

fn snapshot_for(url: &str) -> Vec<ParkRides> {
    vec![ParkRides {
        url: url.to_owned(),
        rides: vec![RideTime { name: "Millennium Force".to_owned(), status: RideStatus::Wait(45) }],
    }]
}

#[test]
fn fresh_cache_serves_rides_without_upstream() {
    let mut c = CachedClient::new();
    let url = "https://queue-times.com/en-US/parks/50/queue_times".to_owned();
    c.finish_refresh(snapshot_for(&url), 1_000);
    match c.get_ride_times(&url, 1_000 + FRESH_WINDOW_MS - 1) {
        CacheRead::Fresh(rides) => {
            assert_eq!(rides.len(), 1);
            assert_eq!(rides[0].name, "Millennium Force");
            assert_eq!(rides[0].status, RideStatus::Wait(45));
        }
        other => panic!("expected a fresh read, got {:?}", other),
    }
}

#[test]
fn stale_cache_sends_caller_upstream() {
    let mut c = CachedClient::new();
    let url = "u".to_owned();
    assert!(matches!(c.get_ride_times(&url, 0), CacheRead::Expired));
    c.finish_refresh(snapshot_for(&url), 1_000);
    assert!(matches!(c.get_ride_times(&url, 1_000 + FRESH_WINDOW_MS), CacheRead::Expired));
}

#[test]
fn unknown_park_is_a_caller_error_not_a_miss() {
    let mut c = CachedClient::new();
    let url = "u".to_owned();
    c.finish_refresh(snapshot_for(&url), 1_000);
    let other = "v".to_owned();
    assert!(matches!(c.get_ride_times(&other, 1_000), CacheRead::UnknownPark));
}

#[test]
fn refresh_guard_admits_one_claim_until_released() {
    let mut c = CachedClient::new();
    assert!(c.try_begin_refresh());
    assert!(!c.try_begin_refresh());
    assert!(!c.try_begin_refresh());
    c.abort_refresh();
    assert!(c.try_begin_refresh());
    c.finish_refresh(Vec::new(), 5);
    assert!(c.try_begin_refresh());
}

#[test]
fn aborted_refresh_leaves_clock_untouched() {
    let mut c = CachedClient::new();
    let url = "u".to_owned();
    c.finish_refresh(snapshot_for(&url), 1_000);
    assert!(c.try_begin_refresh());
    c.abort_refresh();
    assert!(matches!(c.get_ride_times(&url, 1_000), CacheRead::Fresh(_)));
}

#[test]
fn catalog_fills_once_and_never_expires() {
    let mut c = CachedClient::new();
    assert!(c.get_park_urls().is_none());
    c.install_catalog(vec![ParkEntry {
        name: "Cedar Point".to_owned(),
        url: "https://queue-times.com/en-US/parks/50/queue_times".to_owned(),
    }]);
    let parks = c.get_park_urls().unwrap();
    assert_eq!(parks.len(), 1);
    assert_eq!(parks[0].name, "Cedar Point");
    let name = "Cedar Point".to_owned();
    assert_eq!(
        c.lookup_park_url(&name).unwrap(),
        "https://queue-times.com/en-US/parks/50/queue_times"
    );
    let missing = "Nowhere".to_owned();
    assert!(c.lookup_park_url(&missing).is_none());
}
