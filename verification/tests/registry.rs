use queue_alert::error::Error;
use queue_alert::models::{Registration, RideConfig, RideStatus};
use queue_alert::registration::{
    DurableStore, RegistrationRepository, StoredConfig, StoredRegistration, StoredRideAlert,
};

fn reg(endpoint: &str, park: &str, rides: Vec<(&str, RideStatus)>) -> Registration {
    Registration {
        endpoint: endpoint.to_owned(),
        raw_subscription: format!("{{\"endpoint\":\"{}\"}}", endpoint),
        park: park.to_owned(),
        rides: rides
            .into_iter()
            .map(|(n, a)| RideConfig { ride_name: n.to_owned(), alert_on: a })
            .collect(),
    }
}

#[test]
fn register_twice_is_idempotent() {
    let mut repo = RegistrationRepository::new();
    let r = reg("https://push.example/e1", "Cedar Point", vec![
        ("Millennium Force", RideStatus::Wait(30)),
    ]);
    repo.add_or_update_registration(r.clone());
    repo.add_or_update_registration(r);
    assert_eq!(repo.get_current_user_count(), 1);
    let snap = repo.snapshot();
    assert_eq!(snap.len(), 1);
    assert_eq!(snap[0].endpoint, "https://push.example/e1");
    assert_eq!(snap[0].park, "Cedar Point");
    assert_eq!(snap[0].rides.len(), 1);
    assert_eq!(snap[0].rides[0].ride_name, "Millennium Force");
    assert_eq!(snap[0].rides[0].alert_on, RideStatus::Wait(30));
}

#[test]
fn second_write_replaces_rule_set() {
    let mut repo = RegistrationRepository::new();
    repo.add_or_update_registration(reg("e1", "Cedar Point", vec![
        ("Millennium Force", RideStatus::Wait(30)),
        ("Raptor", RideStatus::Open),
    ]));
    repo.add_or_update_registration(reg("e1", "La Ronde", vec![
        ("Goliath", RideStatus::Closed),
    ]));
    assert_eq!(repo.get_current_user_count(), 1);
    let snap = repo.snapshot();
    assert_eq!(snap[0].park, "La Ronde");
    assert_eq!(snap[0].rides.len(), 1);
    assert_eq!(snap[0].rides[0].ride_name, "Goliath");
    assert_eq!(snap[0].rides[0].alert_on, RideStatus::Closed);
}

#[test]
fn remove_registration_reports_existence() {
    let mut repo = RegistrationRepository::new();
    repo.add_or_update_registration(reg("e1", "Cedar Point", vec![]));
    repo.add_or_update_registration(reg("e2", "La Ronde", vec![]));
    let e1 = "e1".to_owned();
    assert!(repo.endpoint_is_registered(&e1));
    assert!(repo.remove_registration(&e1));
    assert!(!repo.endpoint_is_registered(&e1));
    assert!(!repo.remove_registration(&e1));
    assert_eq!(repo.get_current_user_count(), 1);
}

#[test]
fn recovery_round_trips_the_index() {
    let mut repo = RegistrationRepository::new();
    repo.add_or_update_registration(reg("e1", "Cedar Point", vec![
        ("Millennium Force", RideStatus::Wait(30)),
        ("Raptor", RideStatus::Open),
    ]));
    repo.add_or_update_registration(reg("e2", "La Ronde", vec![
        ("Goliath", RideStatus::Closed),
    ]));
    repo.add_or_update_registration(reg("e3", "Blackpool Pleasure Beach", vec![]));

    let recovered = RegistrationRepository::init(&repo.store).unwrap();
    assert_eq!(recovered.get_current_user_count(), 3);
    let before = repo.snapshot();
    let after = recovered.snapshot();
    assert_eq!(before.len(), after.len());
    for i in 0..before.len() {
        assert_eq!(before[i].endpoint, after[i].endpoint);
        assert_eq!(before[i].raw_subscription, after[i].raw_subscription);
        assert_eq!(before[i].park, after[i].park);
        assert_eq!(before[i].rides.len(), after[i].rides.len());
        for j in 0..before[i].rides.len() {
            assert_eq!(before[i].rides[j].ride_name, after[i].rides[j].ride_name);
            assert_eq!(before[i].rides[j].alert_on, after[i].rides[j].alert_on);
        }
    }
}

#[test]
fn recovery_tolerates_empty_store() {
    let store = DurableStore {
        registrations: Vec::new(),
        configs: Vec::new(),
        ride_alerts: Vec::new(),
    };
    let repo = RegistrationRepository::init(&store).unwrap();
    assert_eq!(repo.get_current_user_count(), 0);
}

#[test]
fn recovery_fails_on_unknown_alert_kind() {
    let store = DurableStore {
        registrations: vec![StoredRegistration {
            endpoint: "e1".to_owned(),
            raw_subscription: "{}".to_owned(),
            created_date: "2021-01-01".to_owned(),
        }],
        configs: vec![StoredConfig { endpoint: "e1".to_owned(), park: "Cedar Point".to_owned() }],
        ride_alerts: vec![StoredRideAlert {
            endpoint: "e1".to_owned(),
            ride_name: "Raptor".to_owned(),
            alert_kind: "sometimes".to_owned(),
            wait_threshold: None,
        }],
    };
    assert_eq!(RegistrationRepository::init(&store).unwrap_err(), Error::UnknownAlertKind);
}

#[test]
fn recovery_fails_on_missing_park_row() {
    let store = DurableStore {
        registrations: vec![StoredRegistration {
            endpoint: "e1".to_owned(),
            raw_subscription: "{}".to_owned(),
            created_date: "2021-01-01".to_owned(),
        }],
        configs: Vec::new(),
        ride_alerts: Vec::new(),
    };
    assert_eq!(RegistrationRepository::init(&store).unwrap_err(), Error::MissingParkRow);
}

#[test]
fn recovery_fails_on_wait_rule_without_threshold() {
    let store = DurableStore {
        registrations: vec![StoredRegistration {
            endpoint: "e1".to_owned(),
            raw_subscription: "{}".to_owned(),
            created_date: "2021-01-01".to_owned(),
        }],
        configs: vec![StoredConfig { endpoint: "e1".to_owned(), park: "Cedar Point".to_owned() }],
        ride_alerts: vec![StoredRideAlert {
            endpoint: "e1".to_owned(),
            ride_name: "Raptor".to_owned(),
            alert_kind: "wait".to_owned(),
            wait_threshold: None,
        }],
    };
    assert_eq!(
        RegistrationRepository::init(&store).unwrap_err(),
        Error::MissingWaitThreshold
    );
}
