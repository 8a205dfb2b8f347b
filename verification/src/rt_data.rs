//! Realtime data: which routes a feed mentions, when to fetch, and the
//! packets of a fetched feed.
use crate::config::SelectedStationConfig;
use crate::dedup::{contains_string, dedup_first, lemma_dedup_first};
use crate::static_data::StaticData;
use crate::traintime_packet::{
    current_unix_time, feed_entity_to_packet_at, packet_for, PacketView, TraintimePacket,
};
use crate::types::gtfs_rt::FeedEntity;
use vstd::prelude::*;

verus! {

/// The route of each entity that has a trip update naming a route, in order.
pub open spec fn entity_routes(entities: Seq<FeedEntity>) -> Seq<Seq<char>>
    decreases entities.len(),
{
    if entities.len() == 0 {
        Seq::empty()
    } else {
        let prev = entity_routes(entities.drop_last());
        match entities.last().trip_update {
            Some(update) => match update.trip.route_id {
                Some(route) => prev.push(route@),
                None => prev,
            },
            None => prev,
        }
    }
}

/// The stops that `stop_lookup` places at `station`.
pub open spec fn station_stops(stop_lookup: Map<Seq<char>, Seq<char>>, station: Seq<char>) -> Set<
    Seq<char>,
> {
    Set::new(|stop: Seq<char>| stop_lookup.contains_key(stop) && stop_lookup[stop] == station)
}

/// The packets of `entities` in order, skipping the entities that give none.
pub open spec fn packets_for(
    entities: Seq<FeedEntity>,
    stop_lookup: Map<Seq<char>, Seq<char>>,
    relevant: Set<Seq<char>>,
    now: int,
) -> Seq<PacketView>
    decreases entities.len(),
{
    if entities.len() == 0 {
        Seq::empty()
    } else {
        let prev = packets_for(entities.drop_last(), stop_lookup, relevant, now);
        match packet_for(entities.last(), stop_lookup, relevant, now) {
            Some(p) => prev.push(p),
            None => prev,
        }
    }
}

/// The routes that `entities` mention, each once, in order of first mention.
pub fn accumulate_entities_routes(entities: Vec<FeedEntity>) -> (routes: Vec<String>)
    ensures
        routes.deep_view() == dedup_first(entity_routes(entities@)),
{
    entity_route_list(&entities)
}

/// The routes that `entities` mention, each once, in order of first mention.
pub fn entity_route_list(entities: &Vec<FeedEntity>) -> (routes: Vec<String>)
    ensures
        routes.deep_view() == dedup_first(entity_routes(entities@)),
{
    let mut routes: Vec<String> = Vec::new();
    let mut i: usize = 0;
    while i < entities.len()
        invariant
            i <= entities.len(),
            routes.deep_view() == dedup_first(entity_routes(entities@.take(i as int))),
        decreases entities.len() - i,
    {
        assert(entities@.take(i + 1).drop_last() =~= entities@.take(i as int));
        let ghost before = entity_routes(entities@.take(i as int));
        if let Some(update) = &entities[i].trip_update {
            if let Some(route) = &update.trip.route_id {
                assert(entity_routes(entities@.take(i + 1)) == before.push(route@));
                assert(before.push(route@).drop_last() =~= before);
                if !contains_string(&routes, route) {
                    let ghost prev = routes.deep_view();
                    routes.push(route.clone());
                    assert(routes.deep_view() =~= prev.push(route@));
                }
            }
        }
        i += 1;
    }
    assert(entities@.take(entities.len() as int) =~= entities@);
    routes
}

/// What the realtime loop does next with a station configuration: fetch the
/// relevant endpoints for the station, or, when there are none yet, wait
/// for the next tick.
pub fn rt_fetch_targets(config: &SelectedStationConfig) -> (targets: Option<(String, Vec<String>)>)
    ensures
        config.relevant_endpoints@.len() == 0 ==> targets is None,
        config.relevant_endpoints@.len() > 0 ==> (targets matches Some((station, endpoints)) && station@
            == config.station_name@ && endpoints.deep_view() == config.relevant_endpoints.deep_view()),
{
    if config.relevant_endpoints.len() == 0 {
        None
    } else {
        let mut endpoints: Vec<String> = Vec::new();
        let mut i: usize = 0;
        while i < config.relevant_endpoints.len()
            invariant
                i <= config.relevant_endpoints.len(),
                endpoints.deep_view() == config.relevant_endpoints.deep_view().take(i as int),
            decreases config.relevant_endpoints.len() - i,
        {
            let ghost prev = endpoints.deep_view();
            endpoints.push(config.relevant_endpoints[i].clone());
            assert(endpoints.deep_view() =~= prev.push(config.relevant_endpoints.deep_view()[i as int]));
            assert(config.relevant_endpoints.deep_view().take(i + 1) =~= prev.push(
                config.relevant_endpoints.deep_view()[i as int],
            ));
            i += 1;
        }
        assert(config.relevant_endpoints.deep_view().take(i as int) =~= config.relevant_endpoints.deep_view());
        Some((config.station_name.clone(), endpoints))
    }
}

/// The packets of `entities` at time `now` for the station named
/// `station_name`, in entity order.
pub fn build_traintime_packets_at(
    entities: &Vec<FeedEntity>,
    static_data: &StaticData,
    station_name: &str,
    now: i64,
) -> (packets: Vec<TraintimePacket>)
    requires
        static_data.wf(),
    ensures
        packets@.map_values(|p: TraintimePacket| p@) == packets_for(
            entities@,
            static_data.stop_lookup@,
            station_stops(static_data.stop_lookup@, station_name@),
            now as int,
        ),
{
    let relevant_stop_ids = static_data.get_relevant_stops_to_station(station_name);
    let ghost relevant = station_stops(static_data.stop_lookup@, station_name@);
    assert(relevant_stop_ids.deep_view().to_set() =~= relevant);
    let mut packets: Vec<TraintimePacket> = Vec::new();
    let mut i: usize = 0;
    while i < entities.len()
        invariant
            static_data.wf(),
            i <= entities.len(),
            relevant_stop_ids.deep_view().to_set() == relevant,
            packets@.map_values(|p: TraintimePacket| p@) == packets_for(
                entities@.take(i as int),
                static_data.stop_lookup@,
                relevant,
                now as int,
            ),
        decreases entities.len() - i,
    {
        assert(entities@.take(i + 1).drop_last() =~= entities@.take(i as int));
        assert(entities@.take(i + 1).last() == entities@[i as int]);
        let ghost before = packets@.map_values(|p: TraintimePacket| p@);
        match feed_entity_to_packet_at(&entities[i], static_data, &relevant_stop_ids, now) {
            Some(p) => {
                let ghost pv = p@;
                packets.push(p);
                assert(packets@.map_values(|p: TraintimePacket| p@) =~= before.push(pv));
            },
            None => {},
        }
        i += 1;
    }
    assert(entities@.take(entities.len() as int) =~= entities@);
    packets
}

/// The packets of `entities` at the present time (read once from the system
/// clock) for the station named `station_name`, in entity order.
pub fn build_traintime_packets(
    entities: &Vec<FeedEntity>,
    static_data: &StaticData,
    station_name: &str,
) -> (packets: Vec<TraintimePacket>)
    requires
        static_data.wf(),
    ensures
        exists|now: i64|
            packets@.map_values(|p: TraintimePacket| p@) == packets_for(
                entities@,
                static_data.stop_lookup@,
                station_stops(static_data.stop_lookup@, station_name@),
                now as int,
            ),
{
    let now: i64 = current_unix_time();
    let packets = build_traintime_packets_at(entities, static_data, station_name, now);
    assert(packets@.map_values(|p: TraintimePacket| p@) == packets_for(
        entities@,
        static_data.stop_lookup@,
        station_stops(static_data.stop_lookup@, station_name@),
        now as int,
    ));
    packets
}

/// The routes gathered from a feed are each named once, and they are
/// exactly the routes that the feed's trip updates name.
pub proof fn law_accumulated_routes_are_distinct(entities: Seq<FeedEntity>)
    ensures
        dedup_first(entity_routes(entities)).no_duplicates(),
        forall|route: Seq<char>| #[trigger]
            dedup_first(entity_routes(entities)).contains(route) <==> entity_routes(
                entities,
            ).contains(route),
{
    lemma_dedup_first(entity_routes(entities));
}

/// Every entity that gives a packet adds its packet at the end of the list,
/// and an entity that gives none adds nothing, whatever came before.
pub proof fn law_each_entity_packet_is_listed(
    entities: Seq<FeedEntity>,
    entity: FeedEntity,
    stop_lookup: Map<Seq<char>, Seq<char>>,
    relevant: Set<Seq<char>>,
    now: int,
)
    ensures
        packets_for(entities.push(entity), stop_lookup, relevant, now) == match packet_for(
            entity,
            stop_lookup,
            relevant,
            now,
        ) {
            Some(p) => packets_for(entities, stop_lookup, relevant, now).push(p),
            None => packets_for(entities, stop_lookup, relevant, now),
        },
{
    assert(entities.push(entity).drop_last() =~= entities);
}

/// The packet list holds the packet of every entity that gives one, and
/// nothing else; it is never longer than the feed.
pub proof fn law_packets_are_the_entities_packets(
    entities: Seq<FeedEntity>,
    stop_lookup: Map<Seq<char>, Seq<char>>,
    relevant: Set<Seq<char>>,
    now: int,
)
    ensures
        packets_for(entities, stop_lookup, relevant, now).len() <= entities.len(),
        forall|i: int|
            0 <= i < entities.len() ==> (#[trigger] packet_for(entities[i], stop_lookup, relevant, now)
                matches Some(p) ==> packets_for(entities, stop_lookup, relevant, now).contains(p)),
        forall|p: PacketView| #[trigger]
            packets_for(entities, stop_lookup, relevant, now).contains(p) ==> exists|i: int|
                0 <= i < entities.len() && packet_for(entities[i], stop_lookup, relevant, now)
                    == Some(p),
    decreases entities.len(),
{
    if entities.len() > 0 {
        let prev_es = entities.drop_last();
        let prev = packets_for(prev_es, stop_lookup, relevant, now);
        let all = packets_for(entities, stop_lookup, relevant, now);
        law_packets_are_the_entities_packets(prev_es, stop_lookup, relevant, now);
        assert forall|i: int|
            0 <= i < entities.len() implies (#[trigger] packet_for(entities[i], stop_lookup, relevant, now)
                matches Some(p) ==> all.contains(p)) by {
            if let Some(p) = packet_for(entities[i], stop_lookup, relevant, now) {
                if i < prev_es.len() {
                    assert(prev_es[i] == entities[i]);
                    assert(prev.contains(p));
                    let k: int = choose|k: int| 0 <= k < prev.len() && prev[k] == p;
                    assert(all[k] == p);
                } else {
                    assert(all[all.len() - 1] == p);
                }
            }
        }
        assert forall|p: PacketView| #[trigger] all.contains(p) implies exists|i: int|
            0 <= i < entities.len() && packet_for(entities[i], stop_lookup, relevant, now)
                == Some(p) by {
            let k: int = choose|k: int| 0 <= k < all.len() && all[k] == p;
            if k < prev.len() {
                assert(prev[k] == p);
                assert(prev.contains(p));
                let i: int = choose|i: int|
                    0 <= i < prev_es.len() && packet_for(prev_es[i], stop_lookup, relevant, now)
                        == Some(p);
                assert(entities[i] == prev_es[i]);
            } else {
                assert(packet_for(entities[entities.len() - 1], stop_lookup, relevant, now) == Some(p));
            }
        }
    }
}

/// The route of an entity, when it has a trip update that names one.
pub open spec fn route_of(entity: FeedEntity) -> Option<Seq<char>> {
    match entity.trip_update {
        Some(update) => match update.trip.route_id {
            Some(route) => Some(route@),
            None => None,
        },
        None => None,
    }
}

/// The gathered routes are exactly the routes that some entity of the feed
/// names, however long the feed is; a route named by a later entity is
/// added at the end unless it was named before.
pub proof fn law_every_entity_route_is_gathered(entities: Seq<FeedEntity>, entity: FeedEntity)
    ensures
        forall|route: Seq<char>| #[trigger]
            dedup_first(entity_routes(entities)).contains(route) <==> exists|i: int|
                0 <= i < entities.len() && #[trigger] route_of(entities[i]) == Some(route),
        entity_routes(entities.push(entity)) == match route_of(entity) {
            Some(route) => entity_routes(entities).push(route),
            None => entity_routes(entities),
        },
{
    assert(entities.push(entity).drop_last() =~= entities);
    lemma_dedup_first(entity_routes(entities));
    lemma_entity_routes_source(entities);
}

/// A route is in `entity_routes` exactly when some entity names it.
proof fn lemma_entity_routes_source(entities: Seq<FeedEntity>)
    ensures
        forall|route: Seq<char>| #[trigger]
            entity_routes(entities).contains(route) <==> exists|i: int|
                0 <= i < entities.len() && #[trigger] route_of(entities[i]) == Some(route),
    decreases entities.len(),
{
    if entities.len() > 0 {
        let prev_es = entities.drop_last();
        lemma_entity_routes_source(prev_es);
        let prev = entity_routes(prev_es);
        let all = entity_routes(entities);
        assert forall|route: Seq<char>| #[trigger]
            all.contains(route) <==> exists|i: int|
                0 <= i < entities.len() && #[trigger] route_of(entities[i]) == Some(route) by {
            if all.contains(route) {
                let k: int = choose|k: int| 0 <= k < all.len() && all[k] == route;
                if k < prev.len() {
                    assert(prev[k] == route);
                    assert(prev.contains(route));
                    let i: int = choose|i: int|
                        0 <= i < prev_es.len() && #[trigger] route_of(prev_es[i]) == Some(route);
                    assert(entities[i] == prev_es[i]);
                } else {
                    assert(route_of(entities[entities.len() - 1]) == Some(route));
                }
            }
            if exists|i: int| 0 <= i < entities.len() && #[trigger] route_of(entities[i]) == Some(route) {
                let i: int = choose|i: int|
                    0 <= i < entities.len() && #[trigger] route_of(entities[i]) == Some(route);
                if i < prev_es.len() {
                    assert(route_of(prev_es[i]) == Some(route));
                    assert(prev.contains(route));
                    let k: int = choose|k: int| 0 <= k < prev.len() && prev[k] == route;
                    assert(all[k] == route);
                } else {
                    assert(all[all.len() - 1] == route);
                }
            }
        }
    }
}

} // verus!
