use queue_alert::dispatch::{matched_rides, ride_matches};
use queue_alert::model;
use queue_alert::models;
use queue_alert::models::RideConfig;

fn cfg(name: &str, alert_on: models::RideStatus) -> RideConfig {
    RideConfig { ride_name: name.to_owned(), alert_on }
}

fn ride(name: &str, status: model::RideStatus) -> model::RideTime {
    model::RideTime { name: name.to_owned(), status }
}

#[test]
fn wait_rule_matches_iff_at_most_threshold() {
    assert!(ride_matches(models::RideStatus::Wait(30), model::RideStatus::Wait(20)));
    assert!(ride_matches(models::RideStatus::Wait(30), model::RideStatus::Wait(30)));
    assert!(!ride_matches(models::RideStatus::Wait(30), model::RideStatus::Wait(45)));
    assert!(!ride_matches(models::RideStatus::Wait(30), model::RideStatus::Open));
    assert!(!ride_matches(models::RideStatus::Wait(30), model::RideStatus::Closed));
    // A zero threshold is taken literally: only a reported zero wait matches.
    assert!(ride_matches(models::RideStatus::Wait(0), model::RideStatus::Wait(0)));
    assert!(!ride_matches(models::RideStatus::Wait(0), model::RideStatus::Wait(1)));
}

#[test]
fn open_rule_matches_everything_but_closed() {
    assert!(ride_matches(models::RideStatus::Open, model::RideStatus::Open));
    assert!(ride_matches(models::RideStatus::Open, model::RideStatus::Wait(0)));
    assert!(ride_matches(models::RideStatus::Open, model::RideStatus::Wait(500)));
    assert!(!ride_matches(models::RideStatus::Open, model::RideStatus::Closed));
}

#[test]
fn closed_rule_matches_only_closed() {
    assert!(ride_matches(models::RideStatus::Closed, model::RideStatus::Closed));
    assert!(!ride_matches(models::RideStatus::Closed, model::RideStatus::Open));
    assert!(!ride_matches(models::RideStatus::Closed, model::RideStatus::Wait(0)));
}

#[test]
fn matched_rides_filters_by_name_and_rule() {
    let configs = vec![
        cfg("Millennium Force", models::RideStatus::Wait(30)),
        cfg("Raptor", models::RideStatus::Closed),
        cfg("Steel Vengeance", models::RideStatus::Open),
    ];
    let rides = vec![
        ride("Millennium Force", model::RideStatus::Wait(20)),
        ride("Raptor", model::RideStatus::Open),
        ride("Steel Vengeance", model::RideStatus::Wait(90)),
        ride("Gemini", model::RideStatus::Open),
    ];
    let kept = matched_rides(&configs, &rides);
    assert_eq!(kept.len(), 2);
    assert_eq!(kept[0].name, "Millennium Force");
    assert_eq!(kept[0].status, model::RideStatus::Wait(20));
    assert_eq!(kept[1].name, "Steel Vengeance");
    assert_eq!(kept[1].status, model::RideStatus::Wait(90));
}

#[test]
fn matched_rides_uses_first_rule_with_same_name() {
    let configs = vec![
        cfg("Gemini", models::RideStatus::Closed),
        cfg("Gemini", models::RideStatus::Open),
    ];
    let rides = vec![ride("Gemini", model::RideStatus::Open)];
    let kept = matched_rides(&configs, &rides);
    assert!(kept.is_empty());
}
