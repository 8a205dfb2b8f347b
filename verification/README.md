# traintime

A train-time display for GTFS transit systems. It follows one station: from
the static GTFS feed it learns which stops belong to the station and which
routes serve it, picks the realtime feeds that carry those routes, and turns
their trip updates into arrival packets ("Line: F to Jamaica-179 St, Minutes
Until Arrival: 4, Delay: 0").

## Layout

- `src/` — the library, verified with Verus.
  - `lookup.rs` — string-keyed lookup table with insertion order, viewed as a `Map`.
  - `types/gtfs.rs`, `types/gtfs_rt.rs` — static GTFS rows and the realtime
    feed entities the library reads.
  - `types/static_data.rs` — the stop lookup (stop id → station) and the route
    lookup (station → routes), their specifications and laws.
  - `static_data.rs` — the strict build, for feeds in which every stop time is
    at a stop with a station.
  - `static_funcs.rs` — reading the tables out of the feed's ZIP archive, and
    the etag state machine of the static fetch loop.
  - `traintime_packet.rs` — the packet of one realtime entity, and its text.
  - `rt_data.rs`, `config.rs` — routes of a feed, endpoint selection, packets
    of a feed, the configured transit systems.
- `app/` — the program: HTTP fetches, YAML and CSV parsing, protobuf
  decoding and the tokio tasks that tie them together.
- `tests/` — tests of the library on concrete data.
