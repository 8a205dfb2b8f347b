//! Which transit system is followed, and which station and realtime
//! endpoints are selected.
use crate::dedup::{contains_route, lemma_dedup_first};
use crate::rt_data::{entity_route_list, entity_routes};
use crate::static_data::StaticData;
use crate::types::gtfs::{self, RouteID, StationName};
use crate::types::gtfs_rt::FeedEntity;
use vstd::prelude::*;

verus! {

/// The transit systems whose configuration the library carries.
pub enum SupportedTransitSystem {
    NycSubway,
    BostonTransit,
}

/// Where a transit system publishes its static and realtime GTFS data.
pub struct TraintimeSystemConfig {
    pub gtfs_static_endpoint: String,
    pub gtfs_rt_endpoints: Vec<String>,
}

/// The YAML configuration of the New York City subway.
pub open spec fn nyc_subway_config() -> Seq<char> {
    "gtfs_static_endpoint: \"https://rrgtfsfeeds.s3.amazonaws.com/gtfs_subway.zip\"\ngtfs_rt_endpoints:\n  - \"https://api-endpoint.mta.info/Dataservice/mtagtfsfeeds/nyct%2Fgtfs-ace\"\n  - \"https://api-endpoint.mta.info/Dataservice/mtagtfsfeeds/nyct%2Fgtfs-bdfm\"\n  - \"https://api-endpoint.mta.info/Dataservice/mtagtfsfeeds/nyct%2Fgtfs-g\"\n  - \"https://api-endpoint.mta.info/Dataservice/mtagtfsfeeds/nyct%2Fgtfs-jz\"\n  - \"https://api-endpoint.mta.info/Dataservice/mtagtfsfeeds/nyct%2Fgtfs-nqrw\"\n  - \"https://api-endpoint.mta.info/Dataservice/mtagtfsfeeds/nyct%2Fgtfs-l\"\n  - \"https://api-endpoint.mta.info/Dataservice/mtagtfsfeeds/nyct%2Fgtfs\"\n  - \"https://api-endpoint.mta.info/Dataservice/mtagtfsfeeds/nyct%2Fgtfs-si\"\n"@
}

/// The YAML configuration of Boston's transit system.
pub open spec fn boston_transit_config() -> Seq<char> {
    "gtfs_static_endpoint: \"https://cdn.mbta.com/MBTA_GTFS.zip\"\ngtfs_rt_endpoints:\n  - \"https://cdn.mbta.com/realtime/TripUpdates.pb\"\n"@
}

impl TraintimeSystemConfig {
    /// The YAML text of the configuration of `system`.
    pub fn config_source(system: SupportedTransitSystem) -> (text: &'static str)
        ensures
            text@ == match system {
                SupportedTransitSystem::NycSubway => nyc_subway_config(),
                SupportedTransitSystem::BostonTransit => boston_transit_config(),
            },
    {
        match system {
            SupportedTransitSystem::NycSubway => "gtfs_static_endpoint: \"https://rrgtfsfeeds.s3.amazonaws.com/gtfs_subway.zip\"\ngtfs_rt_endpoints:\n  - \"https://api-endpoint.mta.info/Dataservice/mtagtfsfeeds/nyct%2Fgtfs-ace\"\n  - \"https://api-endpoint.mta.info/Dataservice/mtagtfsfeeds/nyct%2Fgtfs-bdfm\"\n  - \"https://api-endpoint.mta.info/Dataservice/mtagtfsfeeds/nyct%2Fgtfs-g\"\n  - \"https://api-endpoint.mta.info/Dataservice/mtagtfsfeeds/nyct%2Fgtfs-jz\"\n  - \"https://api-endpoint.mta.info/Dataservice/mtagtfsfeeds/nyct%2Fgtfs-nqrw\"\n  - \"https://api-endpoint.mta.info/Dataservice/mtagtfsfeeds/nyct%2Fgtfs-l\"\n  - \"https://api-endpoint.mta.info/Dataservice/mtagtfsfeeds/nyct%2Fgtfs\"\n  - \"https://api-endpoint.mta.info/Dataservice/mtagtfsfeeds/nyct%2Fgtfs-si\"\n",
            SupportedTransitSystem::BostonTransit => "gtfs_static_endpoint: \"https://cdn.mbta.com/MBTA_GTFS.zip\"\ngtfs_rt_endpoints:\n  - \"https://cdn.mbta.com/realtime/TripUpdates.pb\"\n",
        }
    }
}

/// The station followed, and the realtime endpoints that carry its routes.
pub struct SelectedStationConfig {
    pub station_name: StationName,
    pub relevant_endpoints: Vec<String>,
}

/// Whether the routes of `entities` and `relevant_routes` share a route.
pub open spec fn shares_route(entities: Seq<FeedEntity>, relevant_routes: Seq<Seq<char>>) -> bool {
    exists|route: Seq<char>| #[trigger]
        entity_routes(entities).contains(route) && relevant_routes.contains(route)
}

/// The endpoints of `feeds` whose entities share a route with
/// `relevant_routes`, in order.
pub open spec fn relevant_feed_endpoints(
    feeds: Seq<(String, Vec<FeedEntity>)>,
    relevant_routes: Seq<Seq<char>>,
) -> Seq<Seq<char>>
    decreases feeds.len(),
{
    if feeds.len() == 0 {
        Seq::empty()
    } else {
        let prev = relevant_feed_endpoints(feeds.drop_last(), relevant_routes);
        if shares_route(feeds.last().1@, relevant_routes) {
            prev.push(feeds.last().0@)
        } else {
            prev
        }
    }
}

impl SelectedStationConfig {
    /// No station selected yet, and no endpoints.
    pub fn new() -> (config: Self)
        ensures
            config.station_name@ == Seq::<char>::empty(),
            config.relevant_endpoints@ == Seq::<String>::empty(),
    {
        SelectedStationConfig { station_name: String::new(), relevant_endpoints: Vec::new() }
    }

    /// The routes that run through the station `station_name`.
    pub fn get_relevant_routes(station_name: &StationName, static_data: &StaticData) -> (routes: Vec<
        RouteID,
    >)
        requires
            static_data.wf(),
            static_data.route_lookup@.contains_key(station_name@),
        ensures
            routes.deep_view() == static_data.route_lookup@[station_name@],
    {
        let stored = static_data.route_lookup.get(station_name.as_str()).unwrap();
        let mut routes: Vec<RouteID> = Vec::new();
        let mut i: usize = 0;
        while i < stored.len()
            invariant
                i <= stored.len(),
                routes.deep_view() == stored.deep_view().take(i as int),
            decreases stored.len() - i,
        {
            let ghost prev = routes.deep_view();
            routes.push(RouteID(stored[i].0.clone()));
            assert(routes.deep_view() =~= prev.push(stored.deep_view()[i as int]));
            assert(stored.deep_view().take(i + 1) =~= prev.push(stored.deep_view()[i as int]));
            i += 1;
        }
        assert(stored.deep_view().take(i as int) =~= stored.deep_view());
        routes
    }

    /// The endpoints of `feeds` (each endpoint with the entities it served)
    /// that carry a route of `relevant_routes`, in order.
    pub fn relevant_endpoints_of_feeds(
        feeds: &Vec<(String, Vec<FeedEntity>)>,
        relevant_routes: &Vec<RouteID>,
    ) -> (endpoints: Vec<String>)
        ensures
            endpoints.deep_view() == relevant_feed_endpoints(feeds@, relevant_routes.deep_view()),
    {
        let mut endpoints: Vec<String> = Vec::new();
        let mut i: usize = 0;
        while i < feeds.len()
            invariant
                i <= feeds.len(),
                endpoints.deep_view() == relevant_feed_endpoints(
                    feeds@.take(i as int),
                    relevant_routes.deep_view(),
                ),
            decreases feeds.len() - i,
        {
            assert(feeds@.take(i + 1).drop_last() =~= feeds@.take(i as int));
            let ghost before = endpoints.deep_view();
            let feed = &feeds[i];
            match determine_if_endpoint_is_relevant(&feed.0, &feed.1, relevant_routes) {
                Some(endpoint) => {
                    endpoints.push(endpoint);
                    assert(endpoints.deep_view() =~= before.push(feeds@[i as int].0@));
                },
                None => {},
            }
            i += 1;
        }
        assert(feeds@.take(feeds.len() as int) =~= feeds@);
        endpoints
    }
}

impl Default for SelectedStationConfig {
    fn default() -> (config: Self)
        ensures
            config.station_name@ == Seq::<char>::empty(),
            config.relevant_endpoints@ == Seq::<String>::empty(),
    {
        Self::new()
    }
}

/// `endpoint`, when the routes of `entities` (what it served) share a route
/// with `relevant_routes`.
pub fn determine_if_endpoint_is_relevant(
    endpoint: &String,
    entities: &Vec<FeedEntity>,
    relevant_routes: &Vec<RouteID>,
) -> (relevant: Option<String>)
    ensures
        relevant is Some <==> shares_route(entities@, relevant_routes.deep_view()),
        relevant matches Some(e) ==> e@ == endpoint@,
{
    let routes = entity_route_list(entities);
    proof {
        lemma_dedup_first(entity_routes(entities@));
    }
    let mut i: usize = 0;
    while i < routes.len()
        invariant
            i <= routes.len(),
            routes.deep_view() == crate::dedup::dedup_first(entity_routes(entities@)),
            forall|j: int| 0 <= j < i ==> !relevant_routes.deep_view().contains(#[trigger] routes.deep_view()[j]),
        decreases routes.len() - i,
    {
        if contains_route(relevant_routes, &routes[i]) {
            assert(routes.deep_view().contains(routes.deep_view()[i as int]));
            proof {
                lemma_dedup_first(entity_routes(entities@));
            }
            assert(entity_routes(entities@).contains(routes.deep_view()[i as int]));
            return Some(endpoint.clone());
        }
        i += 1;
    }
    assert(!shares_route(entities@, relevant_routes.deep_view())) by {
        if shares_route(entities@, relevant_routes.deep_view()) {
            let route = choose|route: Seq<char>| #[trigger]
                entity_routes(entities@).contains(route) && relevant_routes.deep_view().contains(route);
            assert(routes.deep_view().contains(route));
            let j: int = choose|j: int| 0 <= j < routes.deep_view().len() && routes.deep_view()[j] == route;
        }
    }
    None
}

/// The routes that `entities` mention, each once, in order of first mention.
pub fn accumulate_entities_routes(entities: Vec<FeedEntity>) -> (routes: Vec<gtfs::RouteID>)
    ensures
        routes.deep_view() == crate::dedup::dedup_first(entity_routes(entities@)),
{
    let names = entity_route_list(&entities);
    let mut routes: Vec<RouteID> = Vec::new();
    let mut i: usize = 0;
    while i < names.len()
        invariant
            i <= names.len(),
            routes.deep_view() == names.deep_view().take(i as int),
        decreases names.len() - i,
    {
        let ghost prev = routes.deep_view();
        routes.push(RouteID(names[i].clone()));
        assert(routes.deep_view() =~= prev.push(names.deep_view()[i as int]));
        assert(names.deep_view().take(i + 1) =~= prev.push(names.deep_view()[i as int]));
        i += 1;
    }
    assert(names.deep_view().take(i as int) =~= names.deep_view());
    routes
}

/// An endpoint is selected exactly when one of the feeds it served shares a
/// route with the station's routes.
pub proof fn law_selected_endpoints_carry_station_routes(
    feeds: Seq<(String, Vec<FeedEntity>)>,
    relevant_routes: Seq<Seq<char>>,
    endpoint: Seq<char>,
)
    ensures
        relevant_feed_endpoints(feeds, relevant_routes).contains(endpoint) <==> exists|i: int|
            0 <= i < feeds.len() && #[trigger] feeds[i].0@ == endpoint && shares_route(
                feeds[i].1@,
                relevant_routes,
            ),
    decreases feeds.len(),
{
    if feeds.len() > 0 {
        let prev_feeds = feeds.drop_last();
        let prev = relevant_feed_endpoints(prev_feeds, relevant_routes);
        law_selected_endpoints_carry_station_routes(prev_feeds, relevant_routes, endpoint);
        let last = feeds.last();
        let chosen = relevant_feed_endpoints(feeds, relevant_routes);
        if chosen.contains(endpoint) {
            if prev.contains(endpoint) {
                let i: int = choose|i: int|
                    0 <= i < prev_feeds.len() && #[trigger] prev_feeds[i].0@ == endpoint && shares_route(
                        prev_feeds[i].1@,
                        relevant_routes,
                    );
                assert(feeds[i].0@ == endpoint);
            } else {
                assert(shares_route(last.1@, relevant_routes));
                let k: int = choose|k: int| 0 <= k < chosen.len() && chosen[k] == endpoint;
                assert(k == prev.len());
                assert(feeds[feeds.len() - 1].0@ == endpoint);
            }
        }
        if exists|i: int|
            0 <= i < feeds.len() && #[trigger] feeds[i].0@ == endpoint && shares_route(
                feeds[i].1@,
                relevant_routes,
            ) {
            let i: int = choose|i: int|
                0 <= i < feeds.len() && #[trigger] feeds[i].0@ == endpoint && shares_route(
                    feeds[i].1@,
                    relevant_routes,
                );
            if i < prev_feeds.len() {
                assert(prev_feeds[i].0@ == endpoint);
                assert(prev.contains(endpoint));
                let k: int = choose|k: int| 0 <= k < prev.len() && prev[k] == endpoint;
                if shares_route(last.1@, relevant_routes) {
                    assert(chosen[k] == endpoint);
                }
            } else {
                assert(chosen[prev.len() as int] == endpoint);
            }
        }
    }
}

} // verus!
