//! Lookup tables built from the static GTFS tables: which station a stop
//! belongs to, and which routes serve a station.
use crate::dedup::{contains_route, dedup_first, lemma_dedup_first};
use crate::lookup::LookupTable;
use crate::text::str_equal;
use crate::types::gtfs::{self, RouteID, StationName, StopID, TripID};
use vstd::prelude::*;

verus! {

/// stop id -> station name, as building it from `stops` gives it: every stop
/// with a parent station, a later row overriding an earlier one.
pub open spec fn stop_lookup_spec(stops: Seq<gtfs::Stop>) -> Map<Seq<char>, Seq<char>>
    decreases stops.len(),
{
    if stops.len() == 0 {
        Map::empty()
    } else {
        let prev = stop_lookup_spec(stops.drop_last());
        let s = stops.last();
        if s.parent_station@.len() > 0 {
            prev.insert(s.stop_id@, s.stop_name@)
        } else {
            prev
        }
    }
}

/// trip id -> route id, a later row overriding an earlier one.
pub open spec fn trip_routes_spec(trips: Seq<gtfs::Trip>) -> Map<Seq<char>, Seq<char>>
    decreases trips.len(),
{
    if trips.len() == 0 {
        Map::empty()
    } else {
        trip_routes_spec(trips.drop_last()).insert(trips.last().trip_id@, trips.last().route_id@)
    }
}

/// The trip ids of the rows of `stop_times` at `stop`, in row order.
pub open spec fn trips_at_stop(stop_times: Seq<gtfs::StopTime>, stop: Seq<char>) -> Seq<Seq<char>>
    decreases stop_times.len(),
{
    if stop_times.len() == 0 {
        Seq::empty()
    } else {
        let prev = trips_at_stop(stop_times.drop_last(), stop);
        if stop_times.last().stop_id@ == stop {
            prev.push(stop_times.last().trip_id@)
        } else {
            prev
        }
    }
}

/// The routes of the trips in `trip_ids` that `trip_routes` knows, in order.
pub open spec fn routes_of_trips(
    trip_ids: Seq<Seq<char>>,
    trip_routes: Map<Seq<char>, Seq<char>>,
) -> Seq<Seq<char>>
    decreases trip_ids.len(),
{
    if trip_ids.len() == 0 {
        Seq::empty()
    } else {
        let prev = routes_of_trips(trip_ids.drop_last(), trip_routes);
        if trip_routes.contains_key(trip_ids.last()) {
            prev.push(trip_routes[trip_ids.last()])
        } else {
            prev
        }
    }
}

/// The routes whose trips stop at `stop`, each once, in the order in which
/// `stop_times` first reaches them.
pub open spec fn routes_at_stop(
    stop_times: Seq<gtfs::StopTime>,
    trips: Seq<gtfs::Trip>,
    stop: Seq<char>,
) -> Seq<Seq<char>> {
    dedup_first(routes_of_trips(trips_at_stop(stop_times, stop), trip_routes_spec(trips)))
}

/// Whether some row of `stop_times` is at `stop`.
pub open spec fn serves(stop_times: Seq<gtfs::StopTime>, stop: Seq<char>) -> bool {
    exists|i: int| 0 <= i < stop_times.len() && #[trigger] stop_times[i].stop_id@ == stop
}

/// `stop` is a stop of `stop_times` that `stop_lookup` places at `station`.
pub open spec fn stop_of_station(
    stop_times: Seq<gtfs::StopTime>,
    stop_lookup: Map<Seq<char>, Seq<char>>,
    stop: Seq<char>,
    station: Seq<char>,
) -> bool {
    &&& serves(stop_times, stop)
    &&& stop_lookup.contains_key(stop)
    &&& stop_lookup[stop] == station
}

/// What a route lookup built from `stop_times`, `trips` and `stop_lookup`
/// holds: a station for every stop of `stop_times` that `stop_lookup` knows,
/// and under each station the routes of one of its stops.
pub open spec fn is_route_lookup(
    route_lookup: Map<Seq<char>, Seq<Seq<char>>>,
    stop_times: Seq<gtfs::StopTime>,
    trips: Seq<gtfs::Trip>,
    stop_lookup: Map<Seq<char>, Seq<char>>,
) -> bool {
    &&& forall|station: Seq<char>| #[trigger]
        route_lookup.contains_key(station) <==> exists|stop: Seq<char>|
            stop_of_station(stop_times, stop_lookup, stop, station)
    &&& forall|station: Seq<char>| #[trigger]
        route_lookup.contains_key(station) ==> exists|stop: Seq<char>|
            stop_of_station(stop_times, stop_lookup, stop, station) && route_lookup[station]
                == routes_at_stop(stop_times, trips, stop)
}

/// A stop is served exactly when it has trips.
pub proof fn lemma_serves_iff_trips(stop_times: Seq<gtfs::StopTime>, stop: Seq<char>)
    ensures
        serves(stop_times, stop) <==> trips_at_stop(stop_times, stop).len() > 0,
    decreases stop_times.len(),
{
    if stop_times.len() > 0 {
        let prev = stop_times.drop_last();
        lemma_serves_iff_trips(prev, stop);
        if serves(stop_times, stop) && stop_times.last().stop_id@ != stop {
            let i: int = choose|i: int| 0 <= i < stop_times.len() && #[trigger] stop_times[i].stop_id@ == stop;
            assert(prev[i].stop_id@ == stop);
        }
        if serves(prev, stop) {
            let i: int = choose|i: int| 0 <= i < prev.len() && #[trigger] prev[i].stop_id@ == stop;
            assert(stop_times[i].stop_id@ == stop);
        }
        if stop_times.last().stop_id@ == stop {
            assert(stop_times[stop_times.len() - 1].stop_id@ == stop);
        }
    }
}

/// A stop is a key of the stop lookup exactly when some row of `stops` has
/// that id and a parent station.
pub proof fn law_stop_lookup_keys(stops: Seq<gtfs::Stop>, stop: Seq<char>)
    ensures
        stop_lookup_spec(stops).contains_key(stop) <==> exists|i: int|
            0 <= i < stops.len() && #[trigger] stops[i].stop_id@ == stop
                && stops[i].parent_station@.len() > 0,
    decreases stops.len(),
{
    if stops.len() > 0 {
        let prev = stops.drop_last();
        law_stop_lookup_keys(prev, stop);
        if exists|i: int|
            0 <= i < prev.len() && #[trigger] prev[i].stop_id@ == stop
                && prev[i].parent_station@.len() > 0 {
            let i: int = choose|i: int|
                0 <= i < prev.len() && #[trigger] prev[i].stop_id@ == stop
                    && prev[i].parent_station@.len() > 0;
            assert(stops[i].stop_id@ == stop);
        }
        if exists|i: int|
            0 <= i < stops.len() && #[trigger] stops[i].stop_id@ == stop
                && stops[i].parent_station@.len() > 0 {
            let i: int = choose|i: int|
                0 <= i < stops.len() && #[trigger] stops[i].stop_id@ == stop
                    && stops[i].parent_station@.len() > 0;
            if i < prev.len() {
                assert(prev[i].stop_id@ == stop);
            }
        }
    }
}

/// A route of `routes_of_trips` is the route of one of the trips.
proof fn lemma_routes_of_trips_source(
    trip_ids: Seq<Seq<char>>,
    trip_routes: Map<Seq<char>, Seq<char>>,
    route: Seq<char>,
)
    requires
        routes_of_trips(trip_ids, trip_routes).contains(route),
    ensures
        exists|trip: Seq<char>| #[trigger]
            trip_ids.contains(trip) && trip_routes.contains_key(trip) && trip_routes[trip] == route,
    decreases trip_ids.len(),
{
    let prev = routes_of_trips(trip_ids.drop_last(), trip_routes);
    let last = trip_ids.last();
    if trip_routes.contains_key(last) && trip_routes[last] == route {
        assert(trip_ids[trip_ids.len() - 1] == last);
        assert(trip_ids.contains(last));
    } else {
        if trip_routes.contains_key(last) {
            let k: int = choose|k: int| 0 <= k < prev.push(trip_routes[last]).len() && prev.push(trip_routes[last])[k] == route;
            assert(prev[k] == route);
        }
        assert(prev.contains(route));
        lemma_routes_of_trips_source(trip_ids.drop_last(), trip_routes, route);
        let trip = choose|trip: Seq<char>| #[trigger]
            trip_ids.drop_last().contains(trip) && trip_routes.contains_key(trip) && trip_routes[trip] == route;
        let k: int = choose|k: int| 0 <= k < trip_ids.drop_last().len() && trip_ids.drop_last()[k] == trip;
        assert(trip_ids[k] == trip);
        assert(trip_ids.contains(trip));
    }
}

/// Every station of a route lookup has at least one stop in the stop lookup,
/// so asking for the stops of a station that has routes never comes back
/// empty.
pub proof fn law_routed_station_has_stops(
    route_lookup: Map<Seq<char>, Seq<Seq<char>>>,
    stop_times: Seq<gtfs::StopTime>,
    trips: Seq<gtfs::Trip>,
    stop_lookup: Map<Seq<char>, Seq<char>>,
    station: Seq<char>,
)
    requires
        is_route_lookup(route_lookup, stop_times, trips, stop_lookup),
        route_lookup.contains_key(station),
    ensures
        exists|stop: Seq<char>| stop_lookup.contains_key(stop) && stop_lookup[stop] == station,
{
    let stop = choose|stop: Seq<char>| stop_of_station(stop_times, stop_lookup, stop, station);
    assert(stop_lookup.contains_key(stop) && stop_lookup[stop] == station);
}

/// The routes listed for a station are listed once each, and each is the
/// route of a trip that stops at one of the station's stops.
pub proof fn law_station_routes_are_distinct_and_serve_it(
    route_lookup: Map<Seq<char>, Seq<Seq<char>>>,
    stop_times: Seq<gtfs::StopTime>,
    trips: Seq<gtfs::Trip>,
    stop_lookup: Map<Seq<char>, Seq<char>>,
    station: Seq<char>,
)
    requires
        is_route_lookup(route_lookup, stop_times, trips, stop_lookup),
        route_lookup.contains_key(station),
    ensures
        route_lookup[station].no_duplicates(),
        forall|route: Seq<char>| #[trigger]
            route_lookup[station].contains(route) ==> exists|stop: Seq<char>, trip: Seq<char>|
                stop_of_station(stop_times, stop_lookup, stop, station) && #[trigger] trips_at_stop(
                    stop_times,
                    stop,
                ).contains(trip) && trip_routes_spec(trips).contains_key(trip)
                    && trip_routes_spec(trips)[trip] == route,
{
    let stop = choose|stop: Seq<char>|
        stop_of_station(stop_times, stop_lookup, stop, station) && route_lookup[station]
            == routes_at_stop(stop_times, trips, stop);
    let routes = routes_of_trips(trips_at_stop(stop_times, stop), trip_routes_spec(trips));
    lemma_dedup_first(routes);
    assert forall|route: Seq<char>| #[trigger]
        route_lookup[station].contains(route) implies exists|stop: Seq<char>, trip: Seq<char>|
            stop_of_station(stop_times, stop_lookup, stop, station) && #[trigger] trips_at_stop(
                stop_times,
                stop,
            ).contains(trip) && trip_routes_spec(trips).contains_key(trip)
                && trip_routes_spec(trips)[trip] == route by {
        assert(routes.contains(route));
        lemma_routes_of_trips_source(trips_at_stop(stop_times, stop), trip_routes_spec(trips), route);
        let trip = choose|trip: Seq<char>| #[trigger]
            trips_at_stop(stop_times, stop).contains(trip) && trip_routes_spec(trips).contains_key(trip)
                && trip_routes_spec(trips)[trip] == route;
        assert(stop_of_station(stop_times, stop_lookup, stop, station) && trips_at_stop(
            stop_times,
            stop,
        ).contains(trip) && trip_routes_spec(trips).contains_key(trip)
            && trip_routes_spec(trips)[trip] == route);
    }
}

/// A stop of the stop lookup is named after the last row of `stops` with
/// that id and a parent station.
pub proof fn law_stop_lookup_names(stops: Seq<gtfs::Stop>, stop: Seq<char>)
    ensures
        stop_lookup_spec(stops).contains_key(stop) ==> exists|j: int|
            0 <= j < stops.len() && #[trigger] stops[j].stop_id@ == stop
                && stops[j].parent_station@.len() > 0 && stop_lookup_spec(stops)[stop]
                == stops[j].stop_name@ && forall|k: int|
                j < k < stops.len() ==> !(#[trigger] stops[k].stop_id@ == stop
                    && stops[k].parent_station@.len() > 0),
    decreases stops.len(),
{
    if stops.len() > 0 {
        let prev = stops.drop_last();
        law_stop_lookup_names(prev, stop);
        let n: int = stops.len() - 1;
        if stops[n].stop_id@ == stop && stops[n].parent_station@.len() > 0 {
            assert(stops.last() == stops[n]);
        } else if stop_lookup_spec(prev).contains_key(stop) {
            let j: int = choose|j: int|
                0 <= j < prev.len() && #[trigger] prev[j].stop_id@ == stop
                    && prev[j].parent_station@.len() > 0 && stop_lookup_spec(prev)[stop]
                    == prev[j].stop_name@ && forall|k: int|
                    j < k < prev.len() ==> !(#[trigger] prev[k].stop_id@ == stop
                        && prev[k].parent_station@.len() > 0);
            assert(stops[j] == prev[j]);
            assert forall|k: int| j < k < stops.len() implies !(#[trigger] stops[k].stop_id@ == stop
                && stops[k].parent_station@.len() > 0) by {
                if k < n {
                    assert(stops[k] == prev[k]);
                }
            }
        }
    }
}

/// A trip is in `trips_at_stop` exactly when a row of `stop_times` puts it
/// at that stop.
pub proof fn law_trips_at_stop_rows(stop_times: Seq<gtfs::StopTime>, stop: Seq<char>, trip: Seq<char>)
    ensures
        trips_at_stop(stop_times, stop).contains(trip) <==> exists|i: int|
            0 <= i < stop_times.len() && #[trigger] stop_times[i].stop_id@ == stop
                && stop_times[i].trip_id@ == trip,
    decreases stop_times.len(),
{
    if stop_times.len() > 0 {
        let prev_rows = stop_times.drop_last();
        law_trips_at_stop_rows(prev_rows, stop, trip);
        let prev = trips_at_stop(prev_rows, stop);
        let all = trips_at_stop(stop_times, stop);
        if all.contains(trip) {
            let k: int = choose|k: int| 0 <= k < all.len() && all[k] == trip;
            if k < prev.len() {
                assert(prev[k] == trip);
                assert(prev.contains(trip));
                let i: int = choose|i: int|
                    0 <= i < prev_rows.len() && #[trigger] prev_rows[i].stop_id@ == stop
                        && prev_rows[i].trip_id@ == trip;
                assert(stop_times[i] == prev_rows[i]);
            } else {
                assert(stop_times[stop_times.len() - 1].stop_id@ == stop);
            }
        }
        if exists|i: int|
            0 <= i < stop_times.len() && #[trigger] stop_times[i].stop_id@ == stop
                && stop_times[i].trip_id@ == trip {
            let i: int = choose|i: int|
                0 <= i < stop_times.len() && #[trigger] stop_times[i].stop_id@ == stop
                    && stop_times[i].trip_id@ == trip;
            if i < prev_rows.len() {
                assert(prev_rows[i].stop_id@ == stop);
                assert(prev.contains(trip));
                let k: int = choose|k: int| 0 <= k < prev.len() && prev[k] == trip;
                assert(all[k] == trip);
            } else {
                assert(all[all.len() - 1] == trip);
            }
        }
    }
}

/// The trip map knows a trip exactly when `trips` has a row for it, and maps
/// it to the route of the last such row.
pub proof fn law_trip_routes_rows(trips: Seq<gtfs::Trip>, trip: Seq<char>)
    ensures
        trip_routes_spec(trips).contains_key(trip) <==> exists|j: int|
            0 <= j < trips.len() && #[trigger] trips[j].trip_id@ == trip,
        trip_routes_spec(trips).contains_key(trip) ==> exists|j: int|
            0 <= j < trips.len() && #[trigger] trips[j].trip_id@ == trip && trip_routes_spec(
                trips,
            )[trip] == trips[j].route_id@ && forall|k: int|
                j < k < trips.len() ==> #[trigger] trips[k].trip_id@ != trip,
    decreases trips.len(),
{
    if trips.len() > 0 {
        let prev = trips.drop_last();
        law_trip_routes_rows(prev, trip);
        let n: int = trips.len() - 1;
        if trips[n].trip_id@ == trip {
            assert(trips.last() == trips[n]);
        } else {
            if exists|j: int| 0 <= j < trips.len() && #[trigger] trips[j].trip_id@ == trip {
                let j: int = choose|j: int| 0 <= j < trips.len() && #[trigger] trips[j].trip_id@ == trip;
                assert(prev[j].trip_id@ == trip);
            }
            if trip_routes_spec(prev).contains_key(trip) {
                let j: int = choose|j: int|
                    0 <= j < prev.len() && #[trigger] prev[j].trip_id@ == trip && trip_routes_spec(
                        prev,
                    )[trip] == prev[j].route_id@ && forall|k: int|
                        j < k < prev.len() ==> #[trigger] prev[k].trip_id@ != trip;
                assert(trips[j] == prev[j]);
                assert forall|k: int| j < k < trips.len() implies #[trigger] trips[k].trip_id@ != trip by {
                    if k < n {
                        assert(trips[k] == prev[k]);
                    }
                }
            }
        }
    }
}

/// A trip of `trip_ids` that `trip_routes` knows has its route in
/// `routes_of_trips`.
proof fn lemma_routes_of_trips_complete(
    trip_ids: Seq<Seq<char>>,
    trip_routes: Map<Seq<char>, Seq<char>>,
    trip: Seq<char>,
)
    requires
        trip_ids.contains(trip),
        trip_routes.contains_key(trip),
    ensures
        routes_of_trips(trip_ids, trip_routes).contains(trip_routes[trip]),
    decreases trip_ids.len(),
{
    let prev_ids = trip_ids.drop_last();
    let prev = routes_of_trips(prev_ids, trip_routes);
    let all = routes_of_trips(trip_ids, trip_routes);
    if trip_ids.last() == trip {
        assert(all[all.len() - 1] == trip_routes[trip]);
    } else {
        let k: int = choose|k: int| 0 <= k < trip_ids.len() && trip_ids[k] == trip;
        assert(prev_ids[k] == trip);
        lemma_routes_of_trips_complete(prev_ids, trip_routes, trip);
        let m: int = choose|m: int| 0 <= m < prev.len() && prev[m] == trip_routes[trip];
        assert(all[m] == trip_routes[trip]);
    }
}

/// The routes of a station are complete: for the stop that gives them,
/// every row of `stop_times` at that stop whose trip has a known route puts
/// that route in the list.
pub proof fn law_route_lookup_is_complete(
    route_lookup: Map<Seq<char>, Seq<Seq<char>>>,
    stop_times: Seq<gtfs::StopTime>,
    trips: Seq<gtfs::Trip>,
    stop_lookup: Map<Seq<char>, Seq<char>>,
    station: Seq<char>,
)
    requires
        is_route_lookup(route_lookup, stop_times, trips, stop_lookup),
        route_lookup.contains_key(station),
    ensures
        exists|stop: Seq<char>|
            #[trigger] stop_of_station(stop_times, stop_lookup, stop, station) && forall|i: int|
                0 <= i < stop_times.len() && #[trigger] stop_times[i].stop_id@ == stop
                    && trip_routes_spec(trips).contains_key(stop_times[i].trip_id@)
                    ==> route_lookup[station].contains(
                    trip_routes_spec(trips)[stop_times[i].trip_id@],
                ),
{
    let stop = choose|stop: Seq<char>|
        stop_of_station(stop_times, stop_lookup, stop, station) && route_lookup[station]
            == routes_at_stop(stop_times, trips, stop);
    let tm = trip_routes_spec(trips);
    let routes = routes_of_trips(trips_at_stop(stop_times, stop), tm);
    lemma_dedup_first(routes);
    assert forall|i: int|
        0 <= i < stop_times.len() && #[trigger] stop_times[i].stop_id@ == stop && tm.contains_key(
            stop_times[i].trip_id@,
        ) implies route_lookup[station].contains(tm[stop_times[i].trip_id@]) by {
        law_trips_at_stop_rows(stop_times, stop, stop_times[i].trip_id@);
        lemma_routes_of_trips_complete(trips_at_stop(stop_times, stop), tm, stop_times[i].trip_id@);
    }
}

pub struct StaticData {
    /// stop id -> station name
    pub stop_lookup: LookupTable<StationName>,
    /// station name -> routes that serve it
    pub route_lookup: LookupTable<Vec<RouteID>>,
}

impl StaticData {
    /// Both tables are well formed.
    pub open spec fn wf(&self) -> bool {
        self.stop_lookup.wf() && self.route_lookup.wf()
    }

    /// Static data with no stops and no routes.
    pub fn new() -> (data: Self)
        ensures
            data.wf(),
            data.stop_lookup@ == Map::<Seq<char>, Seq<char>>::empty(),
            data.route_lookup@ == Map::<Seq<char>, Seq<Seq<char>>>::empty(),
    {
        StaticData { stop_lookup: LookupTable::new(), route_lookup: LookupTable::new() }
    }

    /// Builds both lookups from the rows of `stops.txt`, `trips.txt` and
    /// `stop_times.txt`.
    pub fn build_from_static_data(
        stops: Vec<gtfs::Stop>,
        trips: Vec<gtfs::Trip>,
        stop_times: Vec<gtfs::StopTime>,
    ) -> (data: Self)
        ensures
            data.wf(),
            data.stop_lookup@ == stop_lookup_spec(stops@),
            is_route_lookup(data.route_lookup@, stop_times@, trips@, stop_lookup_spec(stops@)),
    {
        let stop_lookup = build_stop_lookup(stops);
        let route_lookup = build_route_lookup(stop_times, trips, &stop_lookup);
        StaticData { stop_lookup, route_lookup }
    }

    /// The stops that belong to the station named `target_stop_name`, each
    /// once, in no promised order.
    pub fn get_relevant_stops_to_station(&self, target_stop_name: &str) -> (stops: Vec<StopID>)
        requires
            self.wf(),
        ensures
            stops.deep_view().no_duplicates(),
            forall|stop: Seq<char>| #[trigger]
                stops.deep_view().contains(stop) <==> self.stop_lookup@.contains_key(stop)
                    && self.stop_lookup@[stop] == target_stop_name@,
    {
        proof {
            self.stop_lookup.lemma_key_order();
        }
        let ghost order = self.stop_lookup.key_order();
        let mut out: Vec<StopID> = Vec::new();
        let mut i: usize = 0;
        while i < self.stop_lookup.len()
            invariant
                self.wf(),
                order == self.stop_lookup.key_order(),
                order.no_duplicates(),
                i <= order.len(),
                out.deep_view().no_duplicates(),
                forall|stop: Seq<char>| #[trigger]
                    out.deep_view().contains(stop) <==> exists|j: int|
                        0 <= j < i && order[j] == stop && self.stop_lookup@[stop]
                            == target_stop_name@,
            decreases order.len() - i,
        {
            let name = self.stop_lookup.value_at(i);
            if str_equal(name.as_str(), target_stop_name) {
                let key = self.stop_lookup.key_at(i);
                let ghost prev = out.deep_view();
                out.push(StopID(key.clone()));
                assert(out.deep_view() =~= prev.push(order[i as int]));
                assert(!prev.contains(order[i as int])) by {
                    if prev.contains(order[i as int]) {
                        let j: int = choose|j: int|
                            0 <= j < i && order[j] == order[i as int] && self.stop_lookup@[order[i as int]]
                                == target_stop_name@;
                    }
                }
                assert forall|stop: Seq<char>| #[trigger]
                    out.deep_view().contains(stop) <==> exists|j: int|
                        0 <= j < i + 1 && order[j] == stop && self.stop_lookup@[stop]
                            == target_stop_name@ by {
                    if stop == order[i as int] {
                        assert(out.deep_view()[prev.len() as int] == stop);
                    }
                    if prev.contains(stop) {
                        let k: int = choose|k: int| 0 <= k < prev.len() && prev[k] == stop;
                        assert(out.deep_view()[k] == stop);
                    }
                    if out.deep_view().contains(stop) && stop != order[i as int] {
                        let k: int = choose|k: int| 0 <= k < out.deep_view().len() && out.deep_view()[k] == stop;
                        assert(prev[k] == stop);
                    }
                }
            } else {
                assert forall|stop: Seq<char>| #[trigger]
                    out.deep_view().contains(stop) <==> exists|j: int|
                        0 <= j < i + 1 && order[j] == stop && self.stop_lookup@[stop]
                            == target_stop_name@ by {
                    if exists|j: int|
                        0 <= j < i + 1 && order[j] == stop && self.stop_lookup@[stop]
                            == target_stop_name@ {
                        let j: int = choose|j: int|
                            0 <= j < i + 1 && order[j] == stop && self.stop_lookup@[stop]
                                == target_stop_name@;
                        if j == i {
                            assert(self.stop_lookup@[order[i as int]] == name@);
                        }
                    }
                }
            }
            i += 1;
        }
        assert forall|stop: Seq<char>| #[trigger]
            out.deep_view().contains(stop) <==> self.stop_lookup@.contains_key(stop)
                && self.stop_lookup@[stop] == target_stop_name@ by {
            if self.stop_lookup@.contains_key(stop) && self.stop_lookup@[stop] == target_stop_name@ {
                assert(order.contains(stop));
                let j: int = choose|j: int| 0 <= j < order.len() && order[j] == stop;
            }
        }
        out
    }
}

/// Builds the stop lookup: every stop that has a parent station, mapped to
/// its name.
pub fn build_stop_lookup(stops: Vec<gtfs::Stop>) -> (lookup: LookupTable<StationName>)
    ensures
        lookup.wf(),
        lookup@ == stop_lookup_spec(stops@),
{
    let mut lookup: LookupTable<StationName> = LookupTable::new();
    let mut i: usize = 0;
    while i < stops.len()
        invariant
            i <= stops.len(),
            lookup.wf(),
            lookup@ == stop_lookup_spec(stops@.take(i as int)),
        decreases stops.len() - i,
    {
        assert(stops@.take(i + 1).drop_last() =~= stops@.take(i as int));
        let stop = &stops[i];
        if !stop.parent_station.as_str().is_empty() {
            lookup.insert(stop.stop_id.0.clone(), stop.stop_name.clone());
        }
        i += 1;
    }
    assert(stops@.take(stops.len() as int) =~= stops@);
    lookup
}

/// The routes of `trip_ids`, each once, in order of first appearance.
fn unique_routes(trip_ids: &Vec<TripID>, trips_map: &LookupTable<RouteID>) -> (routes: Vec<RouteID>)
    requires
        trips_map.wf(),
    ensures
        routes.deep_view() == dedup_first(routes_of_trips(trip_ids.deep_view(), trips_map@)),
{
    let ghost ids = trip_ids.deep_view();
    let mut routes: Vec<RouteID> = Vec::new();
    let mut i: usize = 0;
    while i < trip_ids.len()
        invariant
            trips_map.wf(),
            ids == trip_ids.deep_view(),
            i <= trip_ids.len(),
            routes.deep_view() == dedup_first(routes_of_trips(ids.take(i as int), trips_map@)),
        decreases trip_ids.len() - i,
    {
        assert(ids.take(i + 1).drop_last() =~= ids.take(i as int));
        assert(ids.take(i + 1).last() == trip_ids[i as int]@);
        let ghost before = routes_of_trips(ids.take(i as int), trips_map@);
        match trips_map.get(trip_ids[i].0.as_str()) {
            Some(route) => {
                assert(routes_of_trips(ids.take(i + 1), trips_map@) == before.push(route@));
                assert(before.push(route@).drop_last() =~= before);
                if !contains_route(&routes, &route.0) {
                    let ghost prev = routes.deep_view();
                    routes.push(RouteID(route.0.clone()));
                    assert(routes.deep_view() =~= prev.push(route@));
                }
            },
            None => {
                assert(routes_of_trips(ids.take(i + 1), trips_map@) == before);
            },
        }
        i += 1;
    }
    assert(ids.take(trip_ids.len() as int) =~= ids);
    routes
}

/// Builds the route lookup: for every stop of `stop_times` that `stop_lookup`
/// knows, its station mapped to the routes whose trips stop there. Where a
/// station has several such stops, one of them gives the routes.
pub fn build_route_lookup(
    stop_times: Vec<gtfs::StopTime>,
    trips: Vec<gtfs::Trip>,
    stop_lookup: &LookupTable<StationName>,
) -> (route_lookup: LookupTable<Vec<RouteID>>)
    requires
        stop_lookup.wf(),
    ensures
        route_lookup.wf(),
        is_route_lookup(route_lookup@, stop_times@, trips@, stop_lookup@),
{
    // stop id -> the trips that stop there, in row order
    let mut stops_map: LookupTable<Vec<TripID>> = LookupTable::new();
    let mut i: usize = 0;
    while i < stop_times.len()
        invariant
            i <= stop_times.len(),
            stops_map.wf(),
            forall|stop: Seq<char>| #[trigger]
                stops_map@.contains_key(stop) <==> trips_at_stop(stop_times@.take(i as int), stop).len()
                    > 0,
            forall|stop: Seq<char>| #[trigger]
                stops_map@.contains_key(stop) ==> stops_map@[stop] == trips_at_stop(
                    stop_times@.take(i as int),
                    stop,
                ),
        decreases stop_times.len() - i,
    {
        let ghost prev_times = stop_times@.take(i as int);
        assert(stop_times@.take(i + 1).drop_last() =~= prev_times);
        let ghost old_map = stops_map@;
        let row = &stop_times[i];
        stops_map.push_to(row.stop_id.0.clone(), TripID(row.trip_id.0.clone()));
        assert forall|stop: Seq<char>| #[trigger]
            stops_map@.contains_key(stop) <==> trips_at_stop(stop_times@.take(i + 1), stop).len()
                > 0 by {
            if stop != row.stop_id@ {
                assert(trips_at_stop(stop_times@.take(i + 1), stop) == trips_at_stop(prev_times, stop));
            }
        }
        i += 1;
    }
    assert(stop_times@.take(stop_times.len() as int) =~= stop_times@);

    // trip id -> route id
    let mut trips_map: LookupTable<RouteID> = LookupTable::new();
    let mut t: usize = 0;
    while t < trips.len()
        invariant
            t <= trips.len(),
            trips_map.wf(),
            trips_map@ == trip_routes_spec(trips@.take(t as int)),
        decreases trips.len() - t,
    {
        assert(trips@.take(t + 1).drop_last() =~= trips@.take(t as int));
        let trip = &trips[t];
        trips_map.insert(trip.trip_id.0.clone(), RouteID(trip.route_id.0.clone()));
        t += 1;
    }
    assert(trips@.take(trips.len() as int) =~= trips@);

    // station name -> routes of one of its stops
    proof {
        stops_map.lemma_key_order();
    }
    let ghost order = stops_map.key_order();
    let mut route_lookup: LookupTable<Vec<RouteID>> = LookupTable::new();
    let mut j: usize = 0;
    while j < stops_map.len()
        invariant
            stops_map.wf(),
            trips_map.wf(),
            stop_lookup.wf(),
            route_lookup.wf(),
            order == stops_map.key_order(),
            trips_map@ == trip_routes_spec(trips@),
            forall|stop: Seq<char>| #[trigger]
                stops_map@.contains_key(stop) ==> stops_map@[stop] == trips_at_stop(stop_times@, stop),
            forall|stop: Seq<char>| #[trigger]
                stops_map@.contains_key(stop) <==> trips_at_stop(stop_times@, stop).len() > 0,
            forall|k: int| 0 <= k < order.len() ==> #[trigger] stops_map@.contains_key(order[k]),
            j <= order.len(),
            forall|station: Seq<char>| #[trigger]
                route_lookup@.contains_key(station) <==> exists|k: int|
                    0 <= k < j && stop_lookup@.contains_key(#[trigger] order[k])
                        && stop_lookup@[order[k]] == station,
            forall|station: Seq<char>| #[trigger]
                route_lookup@.contains_key(station) ==> exists|k: int|
                    0 <= k < j && stop_lookup@.contains_key(#[trigger] order[k])
                        && stop_lookup@[order[k]] == station && route_lookup@[station]
                        == routes_at_stop(stop_times@, trips@, order[k]),
        decreases order.len() - j,
    {
        let stop_id = stops_map.key_at(j);
        match stop_lookup.get(stop_id.as_str()) {
            Some(station) => {
                let trip_ids = stops_map.value_at(j);
                let routes = unique_routes(trip_ids, &trips_map);
                assert(routes.deep_view() == routes_at_stop(stop_times@, trips@, order[j as int]));
                let ghost old_lookup = route_lookup@;
                route_lookup.insert(station.clone(), routes);
                assert forall|s: Seq<char>| #[trigger]
                    route_lookup@.contains_key(s) <==> exists|k: int|
                        0 <= k < j + 1 && stop_lookup@.contains_key(#[trigger] order[k])
                            && stop_lookup@[order[k]] == s by {
                    if s == station@ {
                        assert(stop_lookup@.contains_key(order[j as int]));
                    } else if route_lookup@.contains_key(s) {
                        assert(old_lookup.contains_key(s));
                    } else if exists|k: int|
                        0 <= k < j + 1 && stop_lookup@.contains_key(#[trigger] order[k])
                            && stop_lookup@[order[k]] == s {
                        let k: int = choose|k: int|
                            0 <= k < j + 1 && stop_lookup@.contains_key(#[trigger] order[k])
                                && stop_lookup@[order[k]] == s;
                        assert(k < j);
                        assert(old_lookup.contains_key(s));
                    }
                }
                assert forall|s: Seq<char>| #[trigger]
                    route_lookup@.contains_key(s) implies exists|k: int|
                        0 <= k < j + 1 && stop_lookup@.contains_key(#[trigger] order[k])
                            && stop_lookup@[order[k]] == s && route_lookup@[s]
                            == routes_at_stop(stop_times@, trips@, order[k]) by {
                    if s == station@ {
                        assert(stop_lookup@.contains_key(order[j as int]));
                    } else {
                        assert(old_lookup.contains_key(s));
                        let k: int = choose|k: int|
                            0 <= k < j && stop_lookup@.contains_key(#[trigger] order[k])
                                && stop_lookup@[order[k]] == s && old_lookup[s]
                                == routes_at_stop(stop_times@, trips@, order[k]);
                    }
                }
            },
            None => {
                assert forall|s: Seq<char>| #[trigger]
                    route_lookup@.contains_key(s) <==> exists|k: int|
                        0 <= k < j + 1 && stop_lookup@.contains_key(#[trigger] order[k])
                            && stop_lookup@[order[k]] == s by {
                    if exists|k: int|
                        0 <= k < j + 1 && stop_lookup@.contains_key(#[trigger] order[k])
                            && stop_lookup@[order[k]] == s {
                        let k: int = choose|k: int|
                            0 <= k < j + 1 && stop_lookup@.contains_key(#[trigger] order[k])
                                && stop_lookup@[order[k]] == s;
                        assert(k != j);
                    }
                }
            },
        }
        j += 1;
    }
    // relate the stops of `order` to the stops of `stop_times`
    assert forall|station: Seq<char>| #[trigger]
        route_lookup@.contains_key(station) <==> exists|stop: Seq<char>|
            stop_of_station(stop_times@, stop_lookup@, stop, station) by {
        if route_lookup@.contains_key(station) {
            let k: int = choose|k: int|
                0 <= k < order.len() && stop_lookup@.contains_key(#[trigger] order[k])
                    && stop_lookup@[order[k]] == station;
            assert(stops_map@.contains_key(order[k]));
            assert(trips_at_stop(stop_times@, order[k]).len() > 0);
            lemma_serves_iff_trips(stop_times@, order[k]);
            assert(serves(stop_times@, order[k]));
            assert(stop_of_station(stop_times@, stop_lookup@, order[k], station));
        }
        if exists|stop: Seq<char>| stop_of_station(stop_times@, stop_lookup@, stop, station) {
            let stop = choose|stop: Seq<char>| stop_of_station(stop_times@, stop_lookup@, stop, station);
            lemma_serves_iff_trips(stop_times@, stop);
            assert(stops_map@.contains_key(stop));
            assert(order.contains(stop));
            let k: int = choose|k: int| 0 <= k < order.len() && order[k] == stop;
            assert(stop_lookup@.contains_key(order[k]));
        }
    }
    assert forall|station: Seq<char>| #[trigger]
        route_lookup@.contains_key(station) implies exists|stop: Seq<char>|
            stop_of_station(stop_times@, stop_lookup@, stop, station) && route_lookup@[station]
                == routes_at_stop(stop_times@, trips@, stop) by {
        let k: int = choose|k: int|
            0 <= k < order.len() && stop_lookup@.contains_key(#[trigger] order[k])
                && stop_lookup@[order[k]] == station && route_lookup@[station]
                == routes_at_stop(stop_times@, trips@, order[k]);
        assert(stops_map@.contains_key(order[k]));
        assert(trips_at_stop(stop_times@, order[k]).len() > 0);
        lemma_serves_iff_trips(stop_times@, order[k]);
        assert(stop_of_station(stop_times@, stop_lookup@, order[k], station));
    }
    route_lookup
}

} // verus!
