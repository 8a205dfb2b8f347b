use std::io::Write;
use traintime::static_funcs::{extract_static_tables, StaticFetchAction, StaticFetchEvent, StaticFetchState};

fn archive(files: &[(&str, &str)]) -> Vec<u8> {
    let mut buffer = std::io::Cursor::new(Vec::new());
    {
        let mut writer = zip::ZipWriter::new(&mut buffer);
        for (name, contents) in files {
            writer.start_file(*name, zip::write::SimpleFileOptions::default()).unwrap();
            writer.write_all(contents.as_bytes()).unwrap();
        }
        writer.finish().unwrap();
    }
    buffer.into_inner()
}

#[test]
fn static_tables_are_read_from_the_archive() {
    let bytes = archive(&[
        ("agency.txt", "agency_id\nMTA\n"),
        ("stops.txt", "stop_id,stop_name,parent_station\nF16N,East Broadway,F16\n"),
        ("trips.txt", "route_id,trip_id\nF,t1\n"),
        ("stop_times.txt", "trip_id,stop_id\nt1,F16N\n"),
    ]);
    let tables = extract_static_tables(&bytes).unwrap();
    assert_eq!(tables.stops, b"stop_id,stop_name,parent_station\nF16N,East Broadway,F16\n".to_vec());
    assert_eq!(tables.trips, b"route_id,trip_id\nF,t1\n".to_vec());
    assert_eq!(tables.stop_times, b"trip_id,stop_id\nt1,F16N\n".to_vec());
}

#[test]
fn missing_table_or_bad_archive_gives_none() {
    let bytes = archive(&[("stops.txt", "a"), ("trips.txt", "b")]);
    assert!(extract_static_tables(&bytes).is_none());
    assert!(extract_static_tables(b"not a zip archive").is_none());
    assert!(extract_static_tables(&[]).is_none());
}

#[test]
fn same_etag_is_skipped_the_second_time() {
    let mut state = StaticFetchState::new();
    let etag = b"\"abc123\"".to_vec();
    assert_eq!(state.on_fetch(StaticFetchEvent::Fetched { etag: Some(etag.clone()) }), StaticFetchAction::Publish);
    assert_eq!(state.on_fetch(StaticFetchEvent::Fetched { etag: Some(etag.clone()) }), StaticFetchAction::SkipUnchanged);
    assert_eq!(state.on_fetch(StaticFetchEvent::Fetched { etag: Some(b"\"def\"".to_vec()) }), StaticFetchAction::Publish);
    assert_eq!(state.on_fetch(StaticFetchEvent::Fetched { etag: Some(etag) }), StaticFetchAction::Publish);
}

#[test]
fn initial_etag_is_none_text() {
    let mut state = StaticFetchState::new();
    assert_eq!(state.on_fetch(StaticFetchEvent::Fetched { etag: Some(b"none".to_vec()) }), StaticFetchAction::SkipUnchanged);
}

#[test]
fn feed_without_etag_is_always_published() {
    let mut state = StaticFetchState::new();
    assert_eq!(state.on_fetch(StaticFetchEvent::Fetched { etag: None }), StaticFetchAction::Publish);
    assert_eq!(state.on_fetch(StaticFetchEvent::Fetched { etag: None }), StaticFetchAction::Publish);
}

#[test]
fn failed_fetch_is_reported_and_changes_nothing() {
    let mut state = StaticFetchState::new();
    let etag = b"v1".to_vec();
    assert_eq!(state.on_fetch(StaticFetchEvent::Fetched { etag: Some(etag.clone()) }), StaticFetchAction::Publish);
    assert_eq!(state.on_fetch(StaticFetchEvent::FetchFailed), StaticFetchAction::ReportError);
    assert_eq!(state.on_fetch(StaticFetchEvent::Fetched { etag: Some(etag) }), StaticFetchAction::SkipUnchanged);
}
