use queue_alert::error::ParseError;
use queue_alert::model::RideStatus;
use queue_alert::parser::{parse_park_page, FrontPageParser, GenericParkParser, ParkParser};

#[test]
fn park_page_parses_names_and_statuses() {
    let html = "<nav class=\"panel\">\
        <a><span>Millennium Force</span><span>45 mins</span></a>\
        <a><span>Raptor</span><span>Closed</span></a>\
        <a><span>Steel Vengeance</span><span>Open</span></a>\
        </nav>";
    let rides = parse_park_page(html).unwrap();
    assert_eq!(rides.len(), 3);
    assert_eq!(rides[0].name, "Millennium Force");
    assert_eq!(rides[0].status, RideStatus::Wait(45));
    assert_eq!(rides[1].name, "Raptor");
    assert_eq!(rides[1].status, RideStatus::Closed);
    assert_eq!(rides[2].name, "Steel Vengeance");
    assert_eq!(rides[2].status, RideStatus::Open);
}

#[test]
fn park_parser_trait_exposes_the_same_parse() {
    let html = "<nav class=\"panel\"><a><span>Gemini</span><span>5 mins</span></a></nav>";
    let parser = GenericParkParser::new();
    let rides = parser.get_ride_times(html).unwrap();
    assert_eq!(rides.len(), 1);
    assert_eq!(rides[0].name, "Gemini");
    assert_eq!(rides[0].status, RideStatus::Wait(5));
}

#[test]
fn stray_name_spans_are_skipped() {
    // A span followed by another name rather than a status (a show, or
    // a ride with a missing time) is skipped; parsing resynchronizes.
    let html = "<nav class=\"panel\">\
        <a><span>Some Show</span></a>\
        <a><span>Raptor</span><span>Open</span></a>\
        </nav>";
    let rides = parse_park_page(html).unwrap();
    assert_eq!(rides.len(), 1);
    assert_eq!(rides[0].name, "Raptor");
    assert_eq!(rides[0].status, RideStatus::Open);
}

#[test]
fn negative_waits_are_taken_by_absolute_value() {
    let html = "<nav class=\"panel\"><a><span>Gemini</span><span>-2 mins</span></a></nav>";
    let rides = parse_park_page(html).unwrap();
    assert_eq!(rides[0].status, RideStatus::Wait(2));
}

#[test]
fn unreadable_wait_time_is_a_parse_fault() {
    let html = "<nav class=\"panel\"><a><span>Gemini</span><span>soon mins</span></a></nav>";
    match parse_park_page(html) {
        Err(ParseError::WaitTimeParse(t)) => assert_eq!(t, "soon mins"),
        other => panic!("expected a wait-time parse fault, got {:?}", other),
    }
}

#[test]
fn front_page_yields_absolute_park_urls() {
    let html = "<div>\
        <a class=\"panel-block\" href=\"/en-US/parks/50\">Cedar Point</a>\
        <a class=\"panel-block\" href=\"/en-US/parks/48\">La Ronde</a>\
        </div>";
    let parser = FrontPageParser::new();
    let parks = parser.get_park_urls(html).unwrap();
    assert_eq!(parks.len(), 2);
    let cedar = parks.iter().find(|p| p.name == "Cedar Point").unwrap();
    assert_eq!(cedar.url, "https://queue-times.com/en-US/parks/50/queue_times");
    let laronde = parks.iter().find(|p| p.name == "La Ronde").unwrap();
    assert_eq!(laronde.url, "https://queue-times.com/en-US/parks/48/queue_times");
}

#[test]
fn later_front_page_block_wins_for_a_repeated_name() {
    let html = "<div>\
        <a class=\"panel-block\" href=\"/en-US/parks/50\">Cedar Point</a>\
        <a class=\"panel-block\" href=\"/en-US/parks/99\">Cedar Point</a>\
        </div>";
    let parser = FrontPageParser::new();
    let parks = parser.get_park_urls(html).unwrap();
    let mut cache = queue_alert::client::CachedClient::new();
    cache.install_catalog(parks);
    let name = "Cedar Point".to_owned();
    assert_eq!(
        cache.lookup_park_url(&name).unwrap(),
        "https://queue-times.com/en-US/parks/99/queue_times"
    );
}

#[test]
fn front_page_block_without_href_is_a_fault() {
    let html = "<div><a class=\"panel-block\">Cedar Point</a></div>";
    let parser = FrontPageParser::new();
    assert!(matches!(parser.get_park_urls(html), Err(ParseError::HrefMissing)));
}
