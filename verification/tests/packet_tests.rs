use traintime::rt_data::{build_traintime_packets, build_traintime_packets_at};
use traintime::static_data::StaticData;
use traintime::text::decimal_text;
use traintime::traintime_packet::{feed_entity_to_packet, feed_entity_to_packet_at};
use traintime::types::gtfs::{RouteID, Stop, StopID, StopTime, Trip, TripID};
use traintime::types::gtfs_rt::{FeedEntity, StopTimeEvent, StopTimeUpdate, TripDescriptor, TripUpdate};

fn static_data() -> StaticData {
    let stops = vec![
        Stop { stop_id: StopID("F16N".into()), stop_name: "East Broadway".into(), parent_station: "F16".into() },
        Stop { stop_id: StopID("F16S".into()), stop_name: "East Broadway".into(), parent_station: "F16".into() },
        Stop { stop_id: StopID("F18N".into()), stop_name: "York St".into(), parent_station: "F18".into() },
        Stop { stop_id: StopID("F14N".into()), stop_name: "2 Av".into(), parent_station: "F14".into() },
    ];
    let trips = vec![Trip { route_id: RouteID("F".into()), trip_id: TripID("t1".into()) }];
    let stop_times = vec![StopTime { trip_id: TripID("t1".into()), stop_id: StopID("F16N".into()) }];
    StaticData::build_from_static_data(stops, trips, stop_times)
}

fn event(time: Option<i64>, delay: Option<i32>) -> StopTimeEvent {
    StopTimeEvent { delay, time }
}

fn update(stop: &str, arrival: Option<StopTimeEvent>, departure: Option<StopTimeEvent>) -> StopTimeUpdate {
    StopTimeUpdate { stop_id: Some(stop.to_string()), arrival, departure }
}

fn entity(route: Option<&str>, updates: Vec<StopTimeUpdate>) -> FeedEntity {
    FeedEntity {
        trip_update: Some(TripUpdate {
            trip: TripDescriptor { route_id: route.map(|r| r.to_string()) },
            stop_time_update: updates,
        }),
    }
}

fn relevant() -> Vec<StopID> {
    vec![StopID("F16N".into()), StopID("F16S".into())]
}

const NOW: i64 = 1_000_000;

#[test]
fn packet_for_first_relevant_update() {
    let e = entity(
        Some("F"),
        vec![
            update("F18N", Some(event(Some(NOW + 60), None)), None),
            update("F16N", Some(event(Some(NOW + 300), Some(45))), None),
            update("F16S", Some(event(Some(NOW + 900), None)), None),
            update("F14N", Some(event(Some(NOW + 1200), None)), None),
        ],
    );
    let p = feed_entity_to_packet_at(&e, &static_data(), &relevant(), NOW).unwrap();
    assert_eq!(p.route_id(), "F");
    assert_eq!(p.stop_id(), "F16N");
    assert_eq!(p.trip_headsign(), "2 Av");
    assert_eq!(p.mins_until_arrival(), 5);
    assert_eq!(p.delay(), Some(45));
}

#[test]
fn minutes_round_toward_zero() {
    let e = entity(Some("F"), vec![update("F16N", Some(event(Some(NOW + 119), None)), None)]);
    let p = feed_entity_to_packet_at(&e, &static_data(), &relevant(), NOW).unwrap();
    assert_eq!(p.mins_until_arrival(), 1);
    assert_eq!(p.trip_headsign(), "East Broadway");
    // 30 seconds late still counts as 0 minutes
    let e = entity(Some("F"), vec![update("F16N", Some(event(Some(NOW - 30), None)), None)]);
    let p = feed_entity_to_packet_at(&e, &static_data(), &relevant(), NOW).unwrap();
    assert_eq!(p.mins_until_arrival(), 0);
}

#[test]
fn arrival_a_minute_in_the_past_gives_no_packet() {
    let e = entity(Some("F"), vec![update("F16N", Some(event(Some(NOW - 60), None)), None)]);
    assert!(feed_entity_to_packet_at(&e, &static_data(), &relevant(), NOW).is_none());
}

#[test]
fn departure_time_used_when_arrival_has_no_time() {
    let e = entity(
        Some("F"),
        vec![update("F16S", Some(event(None, Some(7))), Some(event(Some(NOW + 600), None)))],
    );
    let p = feed_entity_to_packet_at(&e, &static_data(), &relevant(), NOW).unwrap();
    assert_eq!(p.mins_until_arrival(), 10);
    assert_eq!(p.delay(), Some(7));
}

#[test]
fn no_arrival_gives_no_packet_even_with_departure() {
    let e = entity(Some("F"), vec![update("F16N", None, Some(event(Some(NOW + 600), None)))]);
    assert!(feed_entity_to_packet_at(&e, &static_data(), &relevant(), NOW).is_none());
}

#[test]
fn missing_pieces_give_no_packet() {
    let data = static_data();
    // no trip update
    assert!(feed_entity_to_packet_at(&FeedEntity { trip_update: None }, &data, &relevant(), NOW).is_none());
    // no relevant stop
    let e = entity(Some("F"), vec![update("F18N", Some(event(Some(NOW + 600), None)), None)]);
    assert!(feed_entity_to_packet_at(&e, &data, &relevant(), NOW).is_none());
    // no route
    let e = entity(None, vec![update("F16N", Some(event(Some(NOW + 600), None)), None)]);
    assert!(feed_entity_to_packet_at(&e, &data, &relevant(), NOW).is_none());
    // last stop unknown to the lookup
    let e = entity(
        Some("F"),
        vec![
            update("F16N", Some(event(Some(NOW + 600), None)), None),
            update("Z99", Some(event(Some(NOW + 900), None)), None),
        ],
    );
    assert!(feed_entity_to_packet_at(&e, &data, &relevant(), NOW).is_none());
    // no time at all
    let e = entity(Some("F"), vec![update("F16N", Some(event(None, None)), None)]);
    assert!(feed_entity_to_packet_at(&e, &data, &relevant(), NOW).is_none());
}

#[test]
fn packet_text_matches_display_format() {
    let e = entity(Some("F"), vec![update("F16N", Some(event(Some(NOW + 300), None)), None)]);
    let p = feed_entity_to_packet_at(&e, &static_data(), &relevant(), NOW).unwrap();
    assert_eq!(p.to_string(), "Line: F to East Broadway\nMinutes Until Arrival: 5,\nDelay: 0\n");
    let e = entity(Some("A"), vec![update("F16S", Some(event(Some(NOW + 7260), Some(-120))), None)]);
    let p = feed_entity_to_packet_at(&e, &static_data(), &relevant(), NOW).unwrap();
    assert_eq!(p.to_string(), "Line: A to East Broadway\nMinutes Until Arrival: 121,\nDelay: -120\n");
}

#[test]
fn decimal_text_writes_integers() {
    assert_eq!(decimal_text(0), "0");
    assert_eq!(decimal_text(7), "7");
    assert_eq!(decimal_text(1234567890), "1234567890");
    assert_eq!(decimal_text(-45), "-45");
    assert_eq!(decimal_text(i64::MAX), i64::MAX.to_string());
    assert_eq!(decimal_text(i64::MIN), i64::MIN.to_string());
}

#[test]
fn packets_of_a_feed_keep_entity_order() {
    let data = static_data();
    let entities = vec![
        entity(Some("F"), vec![update("F16N", Some(event(Some(NOW + 600), None)), None)]),
        FeedEntity { trip_update: None },
        entity(Some("A"), vec![update("F16S", Some(event(Some(NOW + 120), None)), None)]),
        entity(Some("G"), vec![update("F18N", Some(event(Some(NOW + 120), None)), None)]),
    ];
    let packets = build_traintime_packets_at(&entities, &data, "East Broadway", NOW);
    assert_eq!(packets.len(), 2);
    assert_eq!(packets[0].route_id(), "F");
    assert_eq!(packets[0].mins_until_arrival(), 10);
    assert_eq!(packets[1].route_id(), "A");
    assert_eq!(packets[1].mins_until_arrival(), 2);
    assert!(build_traintime_packets_at(&entities, &data, "Nowhere", NOW).is_empty());
}

#[test]
fn packets_use_the_system_clock() {
    let now = std::time::SystemTime::now()
        .duration_since(std::time::UNIX_EPOCH)
        .unwrap()
        .as_secs() as i64;
    let data = static_data();
    let e = entity(Some("F"), vec![update("F16N", Some(event(Some(now + 600), None)), None)]);
    let p = feed_entity_to_packet(&e, &data, &relevant()).unwrap();
    assert!(p.mins_until_arrival() == 10 || p.mins_until_arrival() == 9);
    let packets = build_traintime_packets(&vec![e], &data, "East Broadway");
    assert_eq!(packets.len(), 1);
    assert!(packets[0].mins_until_arrival() >= 9);
    let past = entity(Some("F"), vec![update("F16N", Some(event(Some(now - 3600), None)), None)]);
    assert!(feed_entity_to_packet(&past, &data, &relevant()).is_none());
}
