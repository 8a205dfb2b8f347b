//! Rows of the static GTFS tables that the lookups are built from.
use vstd::prelude::*;

verus! {

/// The name of a station, as the `stop_name` column gives it.
pub type StationName = String;

/// A route identifier (`route_id`).
#[derive(Debug, Clone)]
pub struct RouteID(pub String);

/// A trip identifier (`trip_id`).
#[derive(Debug, Clone)]
pub struct TripID(pub String);

/// A stop identifier (`stop_id`).
#[derive(Debug, Clone)]
pub struct StopID(pub String);

impl View for RouteID {
    type V = Seq<char>;

    open spec fn view(&self) -> Seq<char> {
        self.0@
    }
}

impl DeepView for RouteID {
    type V = Seq<char>;

    open spec fn deep_view(&self) -> Seq<char> {
        self.0@
    }
}

impl View for TripID {
    type V = Seq<char>;

    open spec fn view(&self) -> Seq<char> {
        self.0@
    }
}

impl DeepView for TripID {
    type V = Seq<char>;

    open spec fn deep_view(&self) -> Seq<char> {
        self.0@
    }
}

impl View for StopID {
    type V = Seq<char>;

    open spec fn view(&self) -> Seq<char> {
        self.0@
    }
}

impl DeepView for StopID {
    type V = Seq<char>;

    open spec fn deep_view(&self) -> Seq<char> {
        self.0@
    }
}

/// A row of `stops.txt`.
#[derive(Debug)]
pub struct Stop {
    pub stop_id: StopID,
    pub stop_name: String,
    pub parent_station: String,
}

/// A row of `trips.txt`.
#[derive(Debug)]
pub struct Trip {
    pub route_id: RouteID,
    pub trip_id: TripID,
}

/// A row of `stop_times.txt`.
#[derive(Debug)]
pub struct StopTime {
    pub trip_id: TripID,
    pub stop_id: StopID,
}

} // verus!
