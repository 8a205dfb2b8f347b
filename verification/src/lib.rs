//! Verified core of a GTFS train-time display: static GTFS lookups, realtime
//! feed selection and arrival packets.
pub mod config;
pub mod dedup;
pub mod lookup;
pub mod rt_data;
pub mod static_data;
pub mod static_funcs;
pub mod text;
pub mod traintime_packet;
pub mod types;
