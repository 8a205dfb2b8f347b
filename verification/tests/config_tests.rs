use traintime::config::{
    accumulate_entities_routes, determine_if_endpoint_is_relevant, SelectedStationConfig,
    SupportedTransitSystem, TraintimeSystemConfig,
};
use traintime::rt_data::{self, rt_fetch_targets};
use traintime::types::gtfs::{RouteID, Stop, StopID, StopTime, Trip, TripID};
use traintime::types::gtfs_rt::{FeedEntity, TripDescriptor, TripUpdate};
use traintime::types::static_data::StaticData;

fn trip_entity(route: Option<&str>) -> FeedEntity {
    FeedEntity {
        trip_update: Some(TripUpdate {
            trip: TripDescriptor { route_id: route.map(|r| r.to_string()) },
            stop_time_update: Vec::new(),
        }),
    }
}

fn feed() -> Vec<FeedEntity> {
    vec![
        trip_entity(Some("A")),
        FeedEntity { trip_update: None },
        trip_entity(Some("C")),
        trip_entity(None),
        trip_entity(Some("A")),
        trip_entity(Some("E")),
        trip_entity(Some("C")),
    ]
}

fn routes(names: &[&str]) -> Vec<RouteID> {
    names.iter().map(|n| RouteID(n.to_string())).collect()
}

#[test]
fn accumulated_routes_are_distinct_in_first_mention_order() {
    assert_eq!(rt_data::accumulate_entities_routes(feed()), vec!["A", "C", "E"]);
    let ids: Vec<String> = accumulate_entities_routes(feed()).into_iter().map(|r| r.0).collect();
    assert_eq!(ids, vec!["A", "C", "E"]);
    assert!(rt_data::accumulate_entities_routes(Vec::new()).is_empty());
    assert!(rt_data::accumulate_entities_routes(vec![trip_entity(None)]).is_empty());
}

#[test]
fn endpoint_is_relevant_when_it_carries_a_station_route() {
    let endpoint = "https://example.org/feed-ace".to_string();
    assert_eq!(
        determine_if_endpoint_is_relevant(&endpoint, &feed(), &routes(&["F", "E"])),
        Some(endpoint.clone())
    );
    assert_eq!(determine_if_endpoint_is_relevant(&endpoint, &feed(), &routes(&["F", "M"])), None);
    assert_eq!(determine_if_endpoint_is_relevant(&endpoint, &Vec::new(), &routes(&["A"])), None);
    assert_eq!(determine_if_endpoint_is_relevant(&endpoint, &feed(), &Vec::new()), None);
}

#[test]
fn relevant_endpoints_keep_feed_order() {
    let feeds = vec![
        ("ace".to_string(), feed()),
        ("bdfm".to_string(), vec![trip_entity(Some("F")), trip_entity(Some("M"))]),
        ("g".to_string(), vec![trip_entity(Some("G"))]),
        ("l".to_string(), Vec::new()),
    ];
    let chosen = SelectedStationConfig::relevant_endpoints_of_feeds(&feeds, &routes(&["F", "A"]));
    assert_eq!(chosen, vec!["ace", "bdfm"]);
    let chosen = SelectedStationConfig::relevant_endpoints_of_feeds(&feeds, &routes(&["G"]));
    assert_eq!(chosen, vec!["g"]);
    assert!(SelectedStationConfig::relevant_endpoints_of_feeds(&feeds, &routes(&["Z"])).is_empty());
}

#[test]
fn new_station_config_is_empty() {
    let config = SelectedStationConfig::new();
    assert!(config.station_name.is_empty());
    assert!(config.relevant_endpoints.is_empty());
    let config: SelectedStationConfig = Default::default();
    assert!(config.station_name.is_empty());
    assert!(config.relevant_endpoints.is_empty());
}

#[test]
fn relevant_routes_of_a_station() {
    let stops = vec![Stop {
        stop_id: StopID("F16N".into()),
        stop_name: "East Broadway".into(),
        parent_station: "F16".into(),
    }];
    let trips = vec![
        Trip { route_id: RouteID("F".into()), trip_id: TripID("t1".into()) },
        Trip { route_id: RouteID("M".into()), trip_id: TripID("t2".into()) },
    ];
    let stop_times = vec![
        StopTime { trip_id: TripID("t2".into()), stop_id: StopID("F16N".into()) },
        StopTime { trip_id: TripID("t1".into()), stop_id: StopID("F16N".into()) },
    ];
    let data = StaticData::build_from_static_data(stops, trips, stop_times);
    let station = "East Broadway".to_string();
    let got: Vec<String> = SelectedStationConfig::get_relevant_routes(&station, &data)
        .into_iter()
        .map(|r| r.0)
        .collect();
    assert_eq!(got, vec!["M", "F"]);
}

#[test]
fn fetch_waits_until_endpoints_are_known() {
    let mut config = SelectedStationConfig::new();
    config.station_name = "East Broadway".to_string();
    assert!(rt_fetch_targets(&config).is_none());
    config.relevant_endpoints = vec!["e1".to_string(), "e2".to_string()];
    let (station, endpoints) = rt_fetch_targets(&config).unwrap();
    assert_eq!(station, "East Broadway");
    assert_eq!(endpoints, vec!["e1", "e2"]);
}

#[test]
fn config_sources_name_their_endpoints() {
    let nyc = TraintimeSystemConfig::config_source(SupportedTransitSystem::NycSubway);
    assert!(nyc.starts_with("gtfs_static_endpoint:"));
    assert!(nyc.contains("gtfs_rt_endpoints:"));
    assert!(nyc.contains("nyct%2Fgtfs-ace"));
    let boston = TraintimeSystemConfig::config_source(SupportedTransitSystem::BostonTransit);
    assert!(boston.contains("https://cdn.mbta.com/MBTA_GTFS.zip"));
    assert!(boston.contains("TripUpdates.pb"));
}
