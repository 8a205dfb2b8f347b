use traintime::static_data as old_static;
use traintime::types::gtfs::{RouteID, Stop, StopID, StopTime, Trip, TripID};
use traintime::types::static_data::{build_route_lookup, build_stop_lookup, StaticData};

fn stop(id: &str, name: &str, parent: &str) -> Stop {
    Stop {
        stop_id: StopID(id.to_string()),
        stop_name: name.to_string(),
        parent_station: parent.to_string(),
    }
}

fn trip(route: &str, trip: &str) -> Trip {
    Trip {
        route_id: RouteID(route.to_string()),
        trip_id: TripID(trip.to_string()),
    }
}

fn stop_time(trip: &str, stop: &str) -> StopTime {
    StopTime {
        trip_id: TripID(trip.to_string()),
        stop_id: StopID(stop.to_string()),
    }
}

fn route_names(routes: &Vec<RouteID>) -> Vec<String> {
    routes.iter().map(|r| r.0.clone()).collect()
}

fn sorted_ids(ids: Vec<StopID>) -> Vec<String> {
    let mut v: Vec<String> = ids.into_iter().map(|s| s.0).collect();
    v.sort();
    v
}

fn sample_stops() -> Vec<Stop> {
    vec![
        stop("F16", "East Broadway", ""),
        stop("F16N", "East Broadway", "F16"),
        stop("F16S", "East Broadway", "F16"),
        stop("F15", "Delancey St", ""),
        stop("F15N", "Delancey St", "F15"),
    ]
}

fn sample_trips() -> Vec<Trip> {
    vec![trip("F", "t1"), trip("F", "t2"), trip("M", "t3")]
}

fn sample_stop_times() -> Vec<StopTime> {
    vec![
        stop_time("t1", "F16N"),
        stop_time("t2", "F16N"),
        stop_time("t3", "F16N"),
        stop_time("t1", "F15N"),
        stop_time("t9", "F15N"),
    ]
}

#[test]
fn stop_lookup_keeps_only_stops_with_parent_station() {
    let lookup = build_stop_lookup(sample_stops());
    assert_eq!(lookup.len(), 3);
    assert_eq!(lookup.get("F16N").map(|s| s.as_str()), Some("East Broadway"));
    assert_eq!(lookup.get("F16S").map(|s| s.as_str()), Some("East Broadway"));
    assert_eq!(lookup.get("F15N").map(|s| s.as_str()), Some("Delancey St"));
    assert!(lookup.get("F16").is_none());
    assert!(lookup.get("F15").is_none());
}

#[test]
fn stop_lookup_later_row_overrides_earlier() {
    let lookup = build_stop_lookup(vec![stop("A1", "Old Name", "A"), stop("A1", "New Name", "A")]);
    assert_eq!(lookup.len(), 1);
    assert_eq!(lookup.get("A1").map(|s| s.as_str()), Some("New Name"));
}

#[test]
fn stop_lookup_of_no_stops_is_empty() {
    let lookup = build_stop_lookup(Vec::new());
    assert_eq!(lookup.len(), 0);
}

#[test]
fn route_lookup_lists_distinct_routes_in_first_seen_order() {
    let stop_lookup = build_stop_lookup(sample_stops());
    let routes = build_route_lookup(sample_stop_times(), sample_trips(), &stop_lookup);
    assert_eq!(routes.len(), 2);
    assert_eq!(route_names(routes.get("East Broadway").unwrap()), vec!["F", "M"]);
    // trip t9 has no route: it is skipped
    assert_eq!(route_names(routes.get("Delancey St").unwrap()), vec!["F"]);
}

#[test]
fn route_lookup_skips_stops_without_station() {
    let stop_lookup = build_stop_lookup(sample_stops());
    let mut times = sample_stop_times();
    times.push(stop_time("t1", "UNKNOWN"));
    let routes = build_route_lookup(times, sample_trips(), &stop_lookup);
    assert_eq!(routes.len(), 2);
    assert!(routes.get("UNKNOWN").is_none());
}

#[test]
fn route_lookup_station_with_two_platforms_takes_one_platform() {
    let stop_lookup = build_stop_lookup(sample_stops());
    let times = vec![stop_time("t1", "F16N"), stop_time("t3", "F16S")];
    let routes = build_route_lookup(times, sample_trips(), &stop_lookup);
    let got = route_names(routes.get("East Broadway").unwrap());
    assert!(got == vec!["F"] || got == vec!["M"]);
}

#[test]
fn relevant_stops_are_the_platforms_of_the_station() {
    let data = StaticData::build_from_static_data(sample_stops(), sample_trips(), sample_stop_times());
    assert_eq!(sorted_ids(data.get_relevant_stops_to_station("East Broadway")), vec!["F16N", "F16S"]);
    assert_eq!(sorted_ids(data.get_relevant_stops_to_station("Delancey St")), vec!["F15N"]);
    assert!(data.get_relevant_stops_to_station("Nowhere").is_empty());
    assert!(data.get_relevant_stops_to_station("East broadway").is_empty());
}

#[test]
fn new_static_data_is_empty() {
    let data = StaticData::new();
    assert_eq!(data.stop_lookup.len(), 0);
    assert_eq!(data.route_lookup.len(), 0);
    assert!(data.get_relevant_stops_to_station("East Broadway").is_empty());
}

#[test]
fn every_routed_station_has_relevant_stops() {
    let data = StaticData::build_from_static_data(sample_stops(), sample_trips(), sample_stop_times());
    for i in 0..data.route_lookup.len() {
        let station = data.route_lookup.key_at(i);
        assert!(!data.get_relevant_stops_to_station(station).is_empty());
        let routes = route_names(data.route_lookup.value_at(i));
        let mut dedup = routes.clone();
        dedup.sort();
        dedup.dedup();
        assert_eq!(dedup.len(), routes.len());
    }
}

#[test]
fn strict_pipeline_checks_every_stop_is_known() {
    let stop_lookup = old_static::build_stop_lookup(sample_stops());
    assert!(old_static::all_stops_known(&sample_stop_times(), &stop_lookup));
    let mut times = sample_stop_times();
    times.push(stop_time("t1", "F16"));
    assert!(!old_static::all_stops_known(&times, &stop_lookup));
}

#[test]
fn strict_pipeline_builds_same_lookups() {
    let data = old_static::build_from_static_data(sample_stops(), sample_trips(), sample_stop_times());
    assert_eq!(data.stop_lookup.len(), 3);
    assert_eq!(route_names(data.route_lookup.get("East Broadway").unwrap()), vec!["F", "M"]);
    assert_eq!(route_names(data.route_lookup.get("Delancey St").unwrap()), vec!["F"]);
    let routes = old_static::build_route_lookup(
        sample_stop_times(),
        sample_trips(),
        &old_static::build_stop_lookup(sample_stops()),
    );
    assert_eq!(routes.len(), 2);
}
