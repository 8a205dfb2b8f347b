//! Static GTFS data: when a freshly fetched feed is taken up, and which files
//! of the feed's archive are read.
use vstd::prelude::*;

verus! {

/// The contents of the file called `name` in the ZIP archive `archive`, or
/// none when `archive` is not a readable ZIP archive holding such a file.
pub uninterp spec fn zip_entry(archive: Seq<u8>, name: Seq<char>) -> Option<Seq<u8>>;

/// Calls `zip::ZipArchive::new`, `ZipArchive::by_name` and reads the entry to
/// its end: the contents of the file `name` in the archive `archive`, or none
/// when one of these steps reports an error. The contents are named, not
/// described: how a ZIP archive is decoded is the zip crate's.
#[verifier::external_body]
fn read_zip_entry(archive: &[u8], name: &str) -> (contents: Option<Vec<u8>>)
    ensures
        match contents {
            Some(c) => zip_entry(archive@, name@) == Some(c@),
            None => zip_entry(archive@, name@) is None,
        },
{
    let mut zip = match zip::ZipArchive::new(std::io::Cursor::new(archive)) {
        Ok(z) => z,
        Err(_) => return None,
    };
    let mut file = match zip.by_name(name) {
        Ok(f) => f,
        Err(_) => return None,
    };
    let mut contents: Vec<u8> = Vec::new();
    match std::io::Read::read_to_end(&mut file, &mut contents) {
        Ok(_) => Some(contents),
        Err(_) => None,
    }
}

/// The three tables of a static GTFS feed that the lookups are built from,
/// as CSV text.
pub struct StaticTables {
    pub stops: Vec<u8>,
    pub trips: Vec<u8>,
    pub stop_times: Vec<u8>,
}

/// `stops.txt`, `trips.txt` and `stop_times.txt` of the static feed
/// `archive`, or none when one of them cannot be read.
pub fn extract_static_tables(archive: &[u8]) -> (tables: Option<StaticTables>)
    ensures
        tables is Some <==> zip_entry(archive@, "stops.txt"@) is Some && zip_entry(
            archive@,
            "trips.txt"@,
        ) is Some && zip_entry(archive@, "stop_times.txt"@) is Some,
        tables matches Some(t) ==> {
            &&& zip_entry(archive@, "stops.txt"@) == Some(t.stops@)
            &&& zip_entry(archive@, "trips.txt"@) == Some(t.trips@)
            &&& zip_entry(archive@, "stop_times.txt"@) == Some(t.stop_times@)
        },
{
    let stops = match read_zip_entry(archive, "stops.txt") {
        Some(c) => c,
        None => return None,
    };
    let trips = match read_zip_entry(archive, "trips.txt") {
        Some(c) => c,
        None => return None,
    };
    let stop_times = match read_zip_entry(archive, "stop_times.txt") {
        Some(c) => c,
        None => return None,
    };
    Some(StaticTables { stops, trips, stop_times })
}

/// What the outcome of one fetch of the static feed was.
pub enum StaticFetchEvent {
    /// The feed was fetched; `etag` is its `etag` header, when it has one.
    Fetched { etag: Option<Vec<u8>> },
    /// The fetch failed.
    FetchFailed,
}

/// What to do after a fetch of the static feed.
#[derive(PartialEq, Eq, Structural, Debug, Clone, Copy)]
pub enum StaticFetchAction {
    /// The feed is the one already taken up: leave the static data as it is.
    SkipUnchanged,
    /// Parse the fetched feed and publish the static data built from it.
    Publish,
    /// Report the error and wait for the next fetch.
    ReportError,
}

/// The `etag` value that the fetch loop starts from: the ASCII text `none`.
pub open spec fn initial_etag() -> Seq<u8> {
    seq![110u8, 111u8, 110u8, 101u8]
}

/// The etag remembered and the action taken after `event`, when the etag
/// last taken up was `last`.
pub open spec fn fetch_step(last: Seq<u8>, event: StaticFetchEvent) -> (Seq<u8>, StaticFetchAction) {
    match event {
        StaticFetchEvent::FetchFailed => (last, StaticFetchAction::ReportError),
        StaticFetchEvent::Fetched { etag: None } => (last, StaticFetchAction::Publish),
        StaticFetchEvent::Fetched { etag: Some(e) } => if e@ == last {
            (last, StaticFetchAction::SkipUnchanged)
        } else {
            (e@, StaticFetchAction::Publish)
        },
    }
}

/// Whether two byte strings are equal.
fn bytes_equal(a: &Vec<u8>, b: &Vec<u8>) -> (same: bool)
    ensures
        same == (a@ == b@),
{
    if a.len() != b.len() {
        return false;
    }
    let mut i: usize = 0;
    while i < a.len()
        invariant
            a.len() == b.len(),
            i <= a.len(),
            forall|j: int| 0 <= j < i ==> a@[j] == b@[j],
        decreases a.len() - i,
    {
        if a[i] != b[i] {
            return false;
        }
        i += 1;
    }
    assert(a@ =~= b@);
    true
}

/// The state of the static fetch loop: the etag of the feed last taken up.
pub struct StaticFetchState {
    last_etag: Vec<u8>,
}

impl StaticFetchState {
    /// The etag of the feed last taken up.
    pub closed spec fn last_etag(&self) -> Seq<u8> {
        self.last_etag@
    }

    /// The state before the first fetch.
    pub fn new() -> (state: Self)
        ensures
            state.last_etag() == initial_etag(),
    {
        let mut last_etag: Vec<u8> = Vec::new();
        last_etag.push(110);
        last_etag.push(111);
        last_etag.push(110);
        last_etag.push(101);
        assert(last_etag@ =~= initial_etag());
        StaticFetchState { last_etag }
    }

    /// Takes in the outcome of one fetch and says what to do with it.
    pub fn on_fetch(&mut self, event: StaticFetchEvent) -> (action: StaticFetchAction)
        ensures
            (final(self).last_etag(), action) == fetch_step(old(self).last_etag(), event),
    {
        match event {
            StaticFetchEvent::FetchFailed => StaticFetchAction::ReportError,
            StaticFetchEvent::Fetched { etag: None } => StaticFetchAction::Publish,
            StaticFetchEvent::Fetched { etag: Some(e) } => {
                if bytes_equal(&self.last_etag, &e) {
                    StaticFetchAction::SkipUnchanged
                } else {
                    self.last_etag = e;
                    StaticFetchAction::Publish
                }
            },
        }
    }
}

/// A feed whose etag was just taken up is skipped when it comes again.
pub proof fn law_same_etag_is_skipped(last: Seq<u8>, etag: Vec<u8>)
    ensures
        ({
            let (after, _) = fetch_step(last, StaticFetchEvent::Fetched { etag: Some(etag) });
            fetch_step(after, StaticFetchEvent::Fetched { etag: Some(etag) }) == (
                etag@,
                StaticFetchAction::SkipUnchanged,
            )
        }),
{
}

/// A failed fetch changes nothing but asks for the error to be reported.
pub proof fn law_failed_fetch_keeps_state(last: Seq<u8>)
    ensures
        fetch_step(last, StaticFetchEvent::FetchFailed) == (last, StaticFetchAction::ReportError),
{
}

/// The remembered etag is always the etag of the last fetch that had one: a
/// fetch without an etag, and a failed fetch, leave it as it was, and a fetch
/// with an etag remembers that etag whether or not it is new.
pub proof fn law_remembered_etag_is_last_seen(last: Seq<u8>, event: StaticFetchEvent)
    ensures
        fetch_step(last, event).0 == match event {
            StaticFetchEvent::Fetched { etag: Some(e) } => e@,
            _ => last,
        },
        event matches StaticFetchEvent::Fetched { etag: None } ==> fetch_step(last, event).1
            == StaticFetchAction::Publish,
        fetch_step(last, event).1 == StaticFetchAction::SkipUnchanged <==> (
        event matches StaticFetchEvent::Fetched { etag: Some(e) } && e@ == last),
{
}

/// A fetch without an etag between two fetches with the same etag does not
/// make the second one publish again.
pub proof fn law_etag_survives_etag_less_fetch(last: Seq<u8>, etag: Vec<u8>)
    ensures
        ({
            let (after_first, _) = fetch_step(last, StaticFetchEvent::Fetched { etag: Some(etag) });
            let (after_none, _) = fetch_step(after_first, StaticFetchEvent::Fetched { etag: None });
            fetch_step(after_none, StaticFetchEvent::Fetched { etag: Some(etag) }).1
                == StaticFetchAction::SkipUnchanged
        }),
{
}

} // verus!
