//! The parts of a decoded GTFS-realtime feed that the library reads.
use vstd::prelude::*;

verus! {

/// Arrival or departure information of one stop of a trip.
#[derive(Debug, Clone, Copy)]
pub struct StopTimeEvent {
    /// Delay in seconds, when the feed gives one.
    pub delay: Option<i32>,
    /// The event time as seconds since the Unix epoch, when the feed gives one.
    pub time: Option<i64>,
}

/// The realtime update of one stop of a trip.
#[derive(Debug)]
pub struct StopTimeUpdate {
    pub stop_id: Option<String>,
    pub arrival: Option<StopTimeEvent>,
    pub departure: Option<StopTimeEvent>,
}

/// Which trip an update is about.
#[derive(Debug)]
pub struct TripDescriptor {
    pub route_id: Option<String>,
}

/// The realtime update of one trip.
#[derive(Debug)]
pub struct TripUpdate {
    pub trip: TripDescriptor,
    pub stop_time_update: Vec<StopTimeUpdate>,
}

/// One entity of a realtime feed.
#[derive(Debug)]
pub struct FeedEntity {
    pub trip_update: Option<TripUpdate>,
}

} // verus!
