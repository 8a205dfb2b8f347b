//! The static-data pipeline that fails on a stop time whose stop has no
//! station: every stop of `stop_times.txt` must be a stop of the stop lookup.
use crate::lookup::LookupTable;
use crate::types::gtfs::{self, RouteID, StationName};
use crate::types::static_data::{
    self as lookups, is_route_lookup, serves, stop_lookup_spec, stop_of_station,
};
use vstd::prelude::*;

verus! {

/// stop id -> station name, and station name -> routes.
pub type StaticData = lookups::StaticData;

/// Every row of `stop_times` is at a stop that `stop_lookup` knows.
pub open spec fn stops_known(
    stop_times: Seq<gtfs::StopTime>,
    stop_lookup: Map<Seq<char>, Seq<char>>,
) -> bool {
    forall|i: int| 0 <= i < stop_times.len() ==> #[trigger] stop_lookup.contains_key(stop_times[i].stop_id@)
}

/// Whether every row of `stop_times` is at a stop that `stop_lookup` knows.
pub fn all_stops_known(stop_times: &Vec<gtfs::StopTime>, stop_lookup: &LookupTable<StationName>) -> (known: bool)
    requires
        stop_lookup.wf(),
    ensures
        known == stops_known(stop_times@, stop_lookup@),
{
    let mut i: usize = 0;
    while i < stop_times.len()
        invariant
            i <= stop_times.len(),
            stop_lookup.wf(),
            forall|j: int| 0 <= j < i ==> #[trigger] stop_lookup@.contains_key(stop_times@[j].stop_id@),
        decreases stop_times.len() - i,
    {
        if !stop_lookup.contains_key(stop_times[i].stop_id.0.as_str()) {
            assert(!stop_lookup@.contains_key(stop_times@[i as int].stop_id@));
            return false;
        }
        i += 1;
    }
    true
}

/// Builds the stop lookup: every stop that has a parent station, mapped to
/// its name.
pub fn build_stop_lookup(stops: Vec<gtfs::Stop>) -> (lookup: LookupTable<StationName>)
    ensures
        lookup.wf(),
        lookup@ == stop_lookup_spec(stops@),
{
    lookups::build_stop_lookup(stops)
}

/// Builds the route lookup when every stop of `stop_times` has a station:
/// then every such station is a key, mapped to the routes of one of its
/// stops.
pub fn build_route_lookup(
    stop_times: Vec<gtfs::StopTime>,
    trips: Vec<gtfs::Trip>,
    stop_lookup: &LookupTable<StationName>,
) -> (route_lookup: LookupTable<Vec<RouteID>>)
    requires
        stop_lookup.wf(),
        stops_known(stop_times@, stop_lookup@),
    ensures
        route_lookup.wf(),
        is_route_lookup(route_lookup@, stop_times@, trips@, stop_lookup@),
        forall|i: int|
            0 <= i < stop_times@.len() ==> #[trigger] route_lookup@.contains_key(
                stop_lookup@[stop_times@[i].stop_id@],
            ),
{
    let ghost times = stop_times@;
    let route_lookup = lookups::build_route_lookup(stop_times, trips, stop_lookup);
    assert forall|i: int| 0 <= i < times.len() implies #[trigger] route_lookup@.contains_key(
        stop_lookup@[times[i].stop_id@],
    ) by {
        assert(stop_lookup@.contains_key(times[i].stop_id@));
        assert(serves(times, times[i].stop_id@));
        assert(stop_of_station(times, stop_lookup@, times[i].stop_id@, stop_lookup@[times[i].stop_id@]));
    }
    route_lookup
}

/// Builds both lookups from the rows of `stops.txt`, `trips.txt` and
/// `stop_times.txt`, when every stop of `stop_times` is a stop with a parent
/// station.
pub fn build_from_static_data(
    stops: Vec<gtfs::Stop>,
    trips: Vec<gtfs::Trip>,
    stop_times: Vec<gtfs::StopTime>,
) -> (data: StaticData)
    requires
        stops_known(stop_times@, stop_lookup_spec(stops@)),
    ensures
        data.wf(),
        data.stop_lookup@ == stop_lookup_spec(stops@),
        is_route_lookup(data.route_lookup@, stop_times@, trips@, stop_lookup_spec(stops@)),
{
    let stop_lookup = build_stop_lookup(stops);
    let route_lookup = build_route_lookup(stop_times, trips, &stop_lookup);
    StaticData { stop_lookup, route_lookup }
}

} // verus!
