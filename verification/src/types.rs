//! Data types of the static GTFS tables and of realtime GTFS feeds, and the
//! lookup tables built from the static tables.
pub mod gtfs;
pub mod gtfs_rt;
pub mod static_data;
