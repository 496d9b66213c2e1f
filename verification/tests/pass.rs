use queue_alert::client::ParkEntry;
use queue_alert::dispatch::{should_run_pass, DispatchPass, PassStep, SendOutcome};
use queue_alert::model;
use queue_alert::models::{Registration, RideConfig, RideStatus};
use queue_alert::registration::RegistrationRepository;

fn cedar_point_catalog() -> Vec<ParkEntry> {
    vec![ParkEntry {
        name: "Cedar Point".to_owned(),
        url: "https://queue-times.com/en-US/parks/50/queue_times".to_owned(),
    }]
}

fn reg(endpoint: &str, park: &str, rides: Vec<(&str, RideStatus)>) -> Registration {
    Registration {
        endpoint: endpoint.to_owned(),
        raw_subscription: "{}".to_owned(),
        park: park.to_owned(),
        rides: rides
            .into_iter()
            .map(|(n, a)| RideConfig { ride_name: n.to_owned(), alert_on: a })
            .collect(),
    }
}

fn decode_payload(payload: &str) -> String {
    let packed =
        base64::Engine::decode(&base64::engine::general_purpose::STANDARD, payload).unwrap();
    let mut decoder = flate2::read::GzDecoder::new(&*packed);
    let mut out = String::new();
    std::io::Read::read_to_string(&mut decoder, &mut out).unwrap();
    out
}

#[test]
fn empty_registry_skips_the_pass_entirely() {
    assert!(!should_run_pass(0));
    assert!(should_run_pass(3));
    let mut pass = DispatchPass::new(Vec::new(), cedar_point_catalog());
    match pass.step() {
        PassStep::Removals { endpoints } => assert!(endpoints.is_empty()),
        other => panic!("expected the pass to finish at once, got {:?}", other),
    }
}

#[test]
fn unknown_park_is_skipped_and_logged_only() {
    let snapshot = vec![reg("e1", "Atlantis", vec![("Kraken", RideStatus::Open)])];
    let mut pass = DispatchPass::new(snapshot, cedar_point_catalog());
    assert!(matches!(pass.step(), PassStep::SkippedUnknownPark));
    match pass.step() {
        PassStep::Removals { endpoints } => assert!(endpoints.is_empty()),
        other => panic!("expected the pass to finish, got {:?}", other),
    }
}

#[test]
fn wait_threshold_holds_back_then_sends_after_refresh() {
    let snapshot = vec![reg("e1", "Cedar Point", vec![
        ("Millennium Force", RideStatus::Wait(30)),
    ])];

    // First pass: the reported wait is above the threshold; nothing is sent.
    let mut pass = DispatchPass::new(snapshot.clone(), cedar_point_catalog());
    let url = match pass.step() {
        PassStep::FetchRides { park_url } => park_url,
        other => panic!("expected a fetch, got {:?}", other),
    };
    assert_eq!(url, "https://queue-times.com/en-US/parks/50/queue_times");
    let first = vec![model::RideTime {
        name: "Millennium Force".to_owned(),
        status: model::RideStatus::Wait(45),
    }];
    assert!(matches!(pass.on_rides(Some(first)), PassStep::SkippedNoMatch));
    assert!(matches!(pass.step(), PassStep::Removals { .. }));

    // Second pass, after a refresh: the wait has dropped to the
    // threshold's reach; the ride is in the payload.
    let mut pass = DispatchPass::new(snapshot, cedar_point_catalog());
    assert!(matches!(pass.step(), PassStep::FetchRides { .. }));
    let second = vec![model::RideTime {
        name: "Millennium Force".to_owned(),
        status: model::RideStatus::Wait(20),
    }];
    match pass.on_rides(Some(second)) {
        PassStep::Send { endpoint, payload } => {
            assert_eq!(endpoint, "e1");
            assert_eq!(
                decode_payload(&payload),
                "[{\"name\":\"Millennium Force\",\"status\":{\"Wait\":20}}]"
            );
        }
        other => panic!("expected a delivery, got {:?}", other),
    }
    pass.on_send(SendOutcome::Sent);
    match pass.step() {
        PassStep::Removals { endpoints } => assert!(endpoints.is_empty()),
        other => panic!("expected the pass to finish, got {:?}", other),
    }
}

#[test]
fn failed_fetch_skips_only_that_registration() {
    let snapshot = vec![
        reg("e1", "Cedar Point", vec![("Millennium Force", RideStatus::Open)]),
        reg("e2", "Cedar Point", vec![("Raptor", RideStatus::Open)]),
    ];
    let mut pass = DispatchPass::new(snapshot, cedar_point_catalog());
    assert!(matches!(pass.step(), PassStep::FetchRides { .. }));
    assert!(matches!(pass.on_rides(None), PassStep::SkippedFetchFailed));
    assert!(matches!(pass.step(), PassStep::FetchRides { .. }));
    let rides = vec![model::RideTime {
        name: "Raptor".to_owned(),
        status: model::RideStatus::Open,
    }];
    assert!(matches!(pass.on_rides(Some(rides)), PassStep::Send { .. }));
    pass.on_send(SendOutcome::Sent);
    assert!(matches!(pass.step(), PassStep::Removals { .. }));
}

#[test]
fn endpoint_gone_is_batched_and_removed_after_the_pass() {
    let mut repo = RegistrationRepository::new();
    repo.add_or_update_registration(reg("e1", "Cedar Point", vec![("Raptor", RideStatus::Open)]));
    repo.add_or_update_registration(reg("e2", "Cedar Point", vec![("Raptor", RideStatus::Open)]));
    repo.add_or_update_registration(reg("e3", "Cedar Point", vec![("Raptor", RideStatus::Open)]));
    assert_eq!(repo.get_current_user_count(), 3);

    let rides = || {
        vec![model::RideTime { name: "Raptor".to_owned(), status: model::RideStatus::Open }]
    };
    let mut pass = DispatchPass::new(repo.snapshot(), cedar_point_catalog());
    for outcome in [SendOutcome::Sent, SendOutcome::EndpointGone, SendOutcome::Sent] {
        assert!(matches!(pass.step(), PassStep::FetchRides { .. }));
        assert!(matches!(pass.on_rides(Some(rides())), PassStep::Send { .. }));
        pass.on_send(outcome);
    }
    let endpoints = match pass.step() {
        PassStep::Removals { endpoints } => endpoints,
        other => panic!("expected the pass to finish, got {:?}", other),
    };
    assert_eq!(endpoints, vec!["e2".to_owned()]);
    for e in &endpoints {
        assert!(repo.remove_registration(e));
    }
    assert_eq!(repo.get_current_user_count(), 2);
    let e2 = "e2".to_owned();
    assert!(!repo.endpoint_is_registered(&e2));
    let next_snapshot = repo.snapshot();
    assert!(next_snapshot.iter().all(|r| r.endpoint != "e2"));
}

#[test]
fn too_large_payload_changes_nothing() {
    let mut repo = RegistrationRepository::new();
    repo.add_or_update_registration(reg("e1", "Cedar Point", vec![("Raptor", RideStatus::Open)]));
    let rides = vec![model::RideTime {
        name: "Raptor".to_owned(),
        status: model::RideStatus::Open,
    }];
    let mut pass = DispatchPass::new(repo.snapshot(), cedar_point_catalog());
    assert!(matches!(pass.step(), PassStep::FetchRides { .. }));
    assert!(matches!(pass.on_rides(Some(rides)), PassStep::Send { .. }));
    pass.on_send(SendOutcome::TooLarge);
    let endpoints = match pass.step() {
        PassStep::Removals { endpoints } => endpoints,
        other => panic!("expected the pass to finish, got {:?}", other),
    };
    assert!(endpoints.is_empty());
    assert_eq!(repo.get_current_user_count(), 1);
    let snap = repo.snapshot();
    assert_eq!(snap[0].endpoint, "e1");
    assert_eq!(snap[0].park, "Cedar Point");
    assert_eq!(snap[0].rides.len(), 1);
    assert_eq!(snap[0].rides[0].ride_name, "Raptor");
}
