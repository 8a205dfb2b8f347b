//! Arrival packets: the next arrival of a realtime trip at the selected
//! station, ready to display.
use crate::static_data::StaticData;
use crate::text::{decimal, decimal_text};
use crate::types::gtfs::StopID;
use crate::types::gtfs_rt::{FeedEntity, StopTimeUpdate};
use vstd::prelude::*;
use vstd::string::StringExecFns;

verus! {

pub struct TraintimePacket {
    route_id: String,
    stop_id: String,
    trip_headsign: String,
    mins_until_arrival: i64,
    delay: Option<i32>,
}

/// The abstract value of a packet: route, stop, headsign, whole minutes until
/// arrival, and delay.
pub type PacketView = (Seq<char>, Seq<char>, Seq<char>, int, Option<i32>);

impl View for TraintimePacket {
    type V = PacketView;

    closed spec fn view(&self) -> PacketView {
        (
            self.route_id@,
            self.stop_id@,
            self.trip_headsign@,
            self.mins_until_arrival as int,
            self.delay,
        )
    }
}

/// Whether `update` names a stop and that stop is one of `relevant`.
pub open spec fn is_relevant_update(update: StopTimeUpdate, relevant: Set<Seq<char>>) -> bool {
    match update.stop_id {
        Some(id) => relevant.contains(id@),
        None => false,
    }
}

/// `i` is the first position of `updates` whose update is relevant.
pub open spec fn is_first_relevant(
    updates: Seq<StopTimeUpdate>,
    relevant: Set<Seq<char>>,
    i: int,
) -> bool {
    &&& 0 <= i < updates.len()
    &&& is_relevant_update(updates[i], relevant)
    &&& forall|j: int| 0 <= j < i ==> !is_relevant_update(#[trigger] updates[j], relevant)
}

/// The arrival time of an update, or else its departure time.
pub open spec fn event_time(update: StopTimeUpdate) -> Option<i64> {
    match update.arrival {
        Some(a) if a.time is Some => a.time,
        _ => match update.departure {
            Some(d) => d.time,
            None => None,
        },
    }
}

/// `x / 60`, rounded toward zero.
pub open spec fn minutes_toward_zero(x: int) -> int {
    if x >= 0 {
        x / 60
    } else {
        -((-x) / 60)
    }
}

/// The packet that `entity` gives at time `now` (seconds since the Unix
/// epoch) for a station whose stops are `relevant`: the first update at a
/// relevant stop, its arrival (or else departure) time in whole minutes from
/// `now` rounded toward zero, the trip's route, and as headsign the station of
/// the trip's last stop. There is none when any of these is missing, when
/// that update has no arrival, or when the arrival is a minute or more in the
/// past.
pub open spec fn packet_for(
    entity: FeedEntity,
    stop_lookup: Map<Seq<char>, Seq<char>>,
    relevant: Set<Seq<char>>,
    now: int,
) -> Option<PacketView> {
    match entity.trip_update {
        None => None,
        Some(trip_update) => {
            let updates = trip_update.stop_time_update@;
            if !exists|i: int| is_first_relevant(updates, relevant, i) {
                None
            } else {
                let i: int = choose|i: int| is_first_relevant(updates, relevant, i);
                let next = updates[i];
                match event_time(next) {
                    None => None,
                    Some(time) => {
                        let mins = minutes_toward_zero(time - now);
                        if mins < 0 {
                            None
                        } else {
                            match (trip_update.trip.route_id, updates.last().stop_id, next.arrival) {
                                (Some(route), Some(last_stop), Some(arrival)) => {
                                    if stop_lookup.contains_key(last_stop@) {
                                        Some(
                                            (
                                                route@,
                                                next.stop_id.unwrap()@,
                                                stop_lookup[last_stop@],
                                                mins,
                                                arrival.delay,
                                            ),
                                        )
                                    } else {
                                        None
                                    }
                                },
                                _ => None,
                            }
                        }
                    },
                }
            }
        },
    }
}

/// Calls `SystemTime::now().duration_since(UNIX_EPOCH)`: `Ok` of the whole
/// seconds since the Unix epoch on the system clock, or, when the clock
/// reads earlier, `Err` of the whole seconds before it (taken from the
/// error's `duration()`). Nothing is promised of the value, which is the time.
#[verifier::external_body]
fn unix_time_now() -> (secs: Result<u64, u64>) {
    match std::time::SystemTime::now().duration_since(std::time::UNIX_EPOCH) {
        Ok(d) => Ok(d.as_secs()),
        Err(e) => Err(e.duration().as_secs()),
    }
}

/// The present time as seconds since the Unix epoch, negative before it.
/// A reading after the epoch that does not fit an `i64` wraps, as an `as`
/// cast does; one that far before it is held at `i64::MIN`.
pub(crate) fn current_unix_time() -> (now: i64) {
    match unix_time_now() {
        Ok(secs) => #[verifier::truncate] (secs as i64),
        Err(before) => if before <= 0x7fff_ffff_ffff_ffff {
            -(before as i64)
        } else {
            i64::MIN
        },
    }
}

/// Whether `ids` holds the stop id `id`.
fn contains_stop(ids: &Vec<StopID>, id: &String) -> (found: bool)
    ensures
        found == ids.deep_view().contains(id@),
{
    let mut i: usize = 0;
    while i < ids.len()
        invariant
            i <= ids.len(),
            forall|j: int| 0 <= j < i ==> ids.deep_view()[j] != id@,
        decreases ids.len() - i,
    {
        if ids[i].0 == *id {
            assert(ids.deep_view()[i as int] == id@);
            return true;
        }
        i += 1;
    }
    false
}

/// How a packet reads on the display; a missing delay reads as 0.
pub open spec fn packet_text(p: PacketView) -> Seq<char> {
    "Line: "@ + p.0 + " to "@ + p.2 + "\nMinutes Until Arrival: "@ + decimal(p.3) + ",\nDelay: "@
        + decimal(
        match p.4 {
            Some(d) => d as int,
            None => 0,
        },
    ) + "\n"@
}

impl TraintimePacket {
    /// The packet as the display shows it.
    pub fn to_string(&self) -> (text: String)
        ensures
            text@ == packet_text(self@),
    {
        let delay: i32 = match self.delay {
            Some(d) => d,
            None => 0,
        };
        let mut text = String::from_str("Line: ");
        text.append(self.route_id.as_str());
        text.append(" to ");
        text.append(self.trip_headsign.as_str());
        text.append("\nMinutes Until Arrival: ");
        text.append(decimal_text(self.mins_until_arrival).as_str());
        text.append(",\nDelay: ");
        text.append(decimal_text(delay as i64).as_str());
        text.append("\n");
        text
    }

    pub fn route_id(&self) -> (r: &String)
        ensures
            r@ == self@.0,
    {
        &self.route_id
    }

    pub fn stop_id(&self) -> (r: &String)
        ensures
            r@ == self@.1,
    {
        &self.stop_id
    }

    pub fn trip_headsign(&self) -> (r: &String)
        ensures
            r@ == self@.2,
    {
        &self.trip_headsign
    }

    pub fn mins_until_arrival(&self) -> (r: i64)
        ensures
            r == self@.3,
    {
        self.mins_until_arrival
    }

    pub fn delay(&self) -> (r: Option<i32>)
        ensures
            r == self@.4,
    {
        self.delay
    }
}

/// The packet of `entity` at time `now`, for a station whose stops are
/// `relevant_stop_ids`.
pub fn feed_entity_to_packet_at(
    entity: &FeedEntity,
    static_data: &StaticData,
    relevant_stop_ids: &Vec<StopID>,
    now: i64,
) -> (packet: Option<TraintimePacket>)
    requires
        static_data.wf(),
    ensures
        match packet {
            Some(p) => packet_for(
                *entity,
                static_data.stop_lookup@,
                relevant_stop_ids.deep_view().to_set(),
                now as int,
            ) == Some(p@),
            None => packet_for(
                *entity,
                static_data.stop_lookup@,
                relevant_stop_ids.deep_view().to_set(),
                now as int,
            ) is None,
        },
{
    let ghost relevant = relevant_stop_ids.deep_view().to_set();
    let trip_update = match &entity.trip_update {
        Some(t) => t,
        None => return None,
    };
    let updates = &trip_update.stop_time_update;
    // the first update at a relevant stop
    let mut i: usize = 0;
    let mut found = false;
    while i < updates.len()
        invariant_except_break
            !found,
        invariant
            i <= updates.len(),
            relevant == relevant_stop_ids.deep_view().to_set(),
            forall|j: int| 0 <= j < i ==> !is_relevant_update(#[trigger] updates@[j], relevant),
        ensures
            forall|j: int| 0 <= j < i ==> !is_relevant_update(#[trigger] updates@[j], relevant),
            found ==> i < updates.len() && is_relevant_update(updates@[i as int], relevant),
            !found ==> i == updates.len(),
        decreases updates.len() - i,
    {
        let relevant_here = match &updates[i].stop_id {
            Some(id) => contains_stop(relevant_stop_ids, id),
            None => false,
        };
        if relevant_here {
            found = true;
            assert(is_relevant_update(updates@[i as int], relevant));
            break;
        }
        i += 1;
    }
    if !found {
        assert(!exists|k: int| is_first_relevant(updates@, relevant, k)) by {
            if exists|k: int| is_first_relevant(updates@, relevant, k) {
                let k: int = choose|k: int| is_first_relevant(updates@, relevant, k);
                assert(!is_relevant_update(updates@[k], relevant));
            }
        }
        return None;
    }
    assert(is_first_relevant(updates@, relevant, i as int));
    assert(forall|k: int| is_first_relevant(updates@, relevant, k) ==> k == i) by {
        assert forall|k: int| is_first_relevant(updates@, relevant, k) implies k == i by {
            if k < i {
                assert(!is_relevant_update(updates@[k], relevant));
            } else if k > i {
                assert(!is_relevant_update(updates@[i as int], relevant));
            }
        }
    }
    let next = &updates[i];
    let arrival_time: i64 = match next.arrival {
        Some(a) if a.time.is_some() => a.time.unwrap(),
        _ => match next.departure {
            Some(d) => match d.time {
                Some(t) => t,
                None => return None,
            },
            None => return None,
        },
    };
    let diff: i128 = arrival_time as i128 - now as i128;
    if diff < 0 {
        let back: i128 = (-diff) / 60;
        if back > 0 {
            assert(minutes_toward_zero(diff as int) < 0);
            return None;
        }
        assert(minutes_toward_zero(diff as int) == 0);
    }
    let mins: i64 = if diff >= 0 {
        let q: i128 = diff / 60;
        assert(0 <= q <= diff) by (nonlinear_arith)
            requires
                q == diff / 60,
                diff >= 0,
        ;
        q as i64
    } else {
        0
    };
    assert(mins as int == minutes_toward_zero(diff as int));
    let route_id = match &trip_update.trip.route_id {
        Some(r) => r.clone(),
        None => return None,
    };
    let stop_id = match &next.stop_id {
        Some(s) => s.clone(),
        None => return None,
    };
    let last = &updates[updates.len() - 1];
    let last_stop = match &last.stop_id {
        Some(s) => s,
        None => return None,
    };
    let trip_headsign = match static_data.stop_lookup.get(last_stop.as_str()) {
        Some(name) => name.clone(),
        None => return None,
    };
    let delay = match next.arrival {
        Some(a) => a.delay,
        None => return None,
    };
    Some(TraintimePacket { route_id, stop_id, trip_headsign, mins_until_arrival: mins, delay })
}

/// The packet of `entity` at the present time (read from the system clock),
/// for a station whose stops are `relevant_stop_ids`.
pub fn feed_entity_to_packet(
    entity: &FeedEntity,
    static_data: &StaticData,
    relevant_stop_ids: &Vec<StopID>,
) -> (packet: Option<TraintimePacket>)
    requires
        static_data.wf(),
    ensures
        exists|now: i64|
            match packet {
                Some(p) => packet_for(
                    *entity,
                    static_data.stop_lookup@,
                    relevant_stop_ids.deep_view().to_set(),
                    now as int,
                ) == Some(p@),
                None => packet_for(
                    *entity,
                    static_data.stop_lookup@,
                    relevant_stop_ids.deep_view().to_set(),
                    now as int,
                ) is None,
            },
{
    let now: i64 = current_unix_time();
    let packet = feed_entity_to_packet_at(entity, static_data, relevant_stop_ids, now);
    assert(match packet {
        Some(p) => packet_for(
            *entity,
            static_data.stop_lookup@,
            relevant_stop_ids.deep_view().to_set(),
            now as int,
        ) == Some(p@),
        None => packet_for(
            *entity,
            static_data.stop_lookup@,
            relevant_stop_ids.deep_view().to_set(),
            now as int,
        ) is None,
    });
    packet
}

/// The text of a packet names its route and its headsign in full: it reads
/// `Line: `, then exactly the route id, then ` to `, then exactly the
/// headsign, then `\nMinutes Until Arrival: ` and the minutes in decimal,
/// and it ends with a line break.
pub proof fn law_packet_text_names_route_and_headsign(p: PacketView)
    ensures
        ({
            let t = packet_text(p);
            let r = p.0.len() as int;
            let h = p.2.len() as int;
            &&& t.subrange(0, 6) == "Line: "@
            &&& t.subrange(6, 6 + r) == p.0
            &&& t.subrange(6 + r, 10 + r) == " to "@
            &&& t.subrange(10 + r, 10 + r + h) == p.2
            &&& t.subrange(10 + r + h, 34 + r + h) == "\nMinutes Until Arrival: "@
            &&& t.subrange(34 + r + h, 34 + r + h + decimal(p.3).len()) == decimal(p.3)
            &&& t.last() == '\n'
        }),
{
    reveal_strlit("Line: ");
    reveal_strlit(" to ");
    reveal_strlit("\nMinutes Until Arrival: ");
    reveal_strlit(",\nDelay: ");
    reveal_strlit("\n");
    let t = packet_text(p);
    let r = p.0.len() as int;
    let h = p.2.len() as int;
    let a = "Line: "@;
    let b = a + p.0;
    let c = b + " to "@;
    let d = c + p.2;
    let e = d + "\nMinutes Until Arrival: "@;
    let f = e + decimal(p.3);
    assert(t.subrange(0, 6) =~= a);
    assert(t.subrange(6, 6 + r) =~= p.0);
    assert(t.subrange(6 + r, 10 + r) =~= " to "@);
    assert(t.subrange(10 + r, 10 + r + h) =~= p.2);
    assert(t.subrange(10 + r + h, 34 + r + h) =~= "\nMinutes Until Arrival: "@);
    assert(t.subrange(34 + r + h, 34 + r + h + decimal(p.3).len()) =~= decimal(p.3));
}

/// A packet is never for an arrival in the past, is for one of the relevant
/// stops, and its headsign is the name of a stop that the lookup knows.
pub proof fn law_packet_is_upcoming_at_relevant_stop(
    entity: FeedEntity,
    stop_lookup: Map<Seq<char>, Seq<char>>,
    relevant: Set<Seq<char>>,
    now: int,
)
    ensures
        packet_for(entity, stop_lookup, relevant, now) matches Some(p) ==> {
            &&& p.3 >= 0
            &&& relevant.contains(p.1)
            &&& exists|stop: Seq<char>| stop_lookup.contains_key(stop) && stop_lookup[stop] == p.2
        },
{
    if let Some(p) = packet_for(entity, stop_lookup, relevant, now) {
        let trip_update = entity.trip_update.unwrap();
        let updates = trip_update.stop_time_update@;
        let i: int = choose|i: int| is_first_relevant(updates, relevant, i);
        let last_stop = updates.last().stop_id.unwrap();
        assert(stop_lookup.contains_key(last_stop@) && stop_lookup[last_stop@] == p.2);
    }
}

} // verus!
