use queue_alert::model::{RideStatus, RideTime};
use queue_alert::payload::{build_payload, ride_times_to_json};

fn closed_ride(name: &str) -> RideTime {
    RideTime { name: name.to_owned(), status: RideStatus::Closed }
}

fn cedar_point_rides() -> Vec<RideTime> {
    let closed = [
        "Blue Streak", "Cedar Creek Mine Ride", "Corkscrew", "GateKeeper", "Gemini",
        "Iron Dragon", "Magnum XL-200", "Maverick", "Millennium Force", "Pipe Scream",
        "Raptor", "Rougarou", "Steel Vengeance", "Top Thrill Dragster", "Valravn",
        "Wicked Twister", "Wilderness Run", "Woodstock Express", "4x4's", "Antique Cars",
        "Cadillac Cars", "Charlie Brown's Wind-Up", "Flying Ace Balloon Race", "Giant Wheel",
        "Midway Carousel", "Peanuts 500", "Peanuts Road Rally", "Snoopy's Deep Sea Divers",
        "Snoopy's Express Railroad", "Tilt-A-Whirl", "Woodstock's Whirlybirds", "Dune Buggies",
        "Helicopters", "Joe Cool's Dodgem School", "Motorcycles", "Police Cars",
        "Rock, Spin, and Turn", "Roto Whip", "Sky Fighters", "Snoopy's Space Race",
        "Space Age", "Cedar Downs Racing Derby", "Dodgem", "Matterhorn", "MaXair", "Monster",
        "Power Tower", "Scrambler", "Skyhawk", "SlingShot", "Super Himalaya", "Thunder Canyon",
        "Tiki Twirl", "Troika",
    ];
    let mut rides: Vec<RideTime> = closed.iter().map(|n| closed_ride(n)).collect();
    rides.push(RideTime { name: "Fisherman's Fury".to_owned(), status: RideStatus::Open });
    rides
}

fn get_content() -> String {
    let rides = cedar_point_rides();
    let mut out = String::from("[");
    for (i, r) in rides.iter().enumerate() {
        if i > 0 {
            out.push(',');
        }
        let status = match r.status {
            RideStatus::Open => "\"Open\"".to_owned(),
            RideStatus::Closed => "\"Closed\"".to_owned(),
            RideStatus::Wait(t) => format!("{{\"Wait\":{}}}", t),
        };
        out.push_str(&format!("{{\"name\":\"{}\",\"status\":{}}}", r.name, status));
    }
    out.push(']');
    out
}

#[test]
fn test_compress_base64() {
    let rides = cedar_point_rides();
    let content = build_payload(&rides);

    println!("encoded: {}", content);

    assert!(content.as_bytes().len() < 4000);
    let un_based =
        base64::Engine::decode(&base64::engine::general_purpose::STANDARD, &content).unwrap();

    let mut decoder = flate2::read::GzDecoder::new(&*un_based);
    assert!(decoder.header().is_some());

    let mut new_content = String::new();
    std::io::Read::read_to_string(&mut decoder, &mut new_content).unwrap();

    assert_eq!(new_content, get_content());
}

#[test]
fn json_writer_matches_the_wire_format() {
    let rides = vec![
        RideTime { name: "Millennium Force".to_owned(), status: RideStatus::Wait(20) },
        closed_ride("Raptor"),
        RideTime { name: "Steel Vengeance".to_owned(), status: RideStatus::Open },
    ];
    let json = ride_times_to_json(&rides);
    assert_eq!(
        String::from_utf8(json).unwrap(),
        "[{\"name\":\"Millennium Force\",\"status\":{\"Wait\":20}},\
         {\"name\":\"Raptor\",\"status\":\"Closed\"},\
         {\"name\":\"Steel Vengeance\",\"status\":\"Open\"}]"
    );
}

#[test]
fn json_writer_escapes_names() {
    let rides = vec![RideTime {
        name: "A\"B\\C\nD".to_owned(),
        status: RideStatus::Wait(0),
    }];
    let json = ride_times_to_json(&rides);
    assert_eq!(
        String::from_utf8(json).unwrap(),
        "[{\"name\":\"A\\\"B\\\\C\\nD\",\"status\":{\"Wait\":0}}]"
    );
}

#[test]
fn empty_ride_list_serializes_to_an_empty_array() {
    let json = ride_times_to_json(&Vec::new());
    assert_eq!(String::from_utf8(json).unwrap(), "[]");
}
