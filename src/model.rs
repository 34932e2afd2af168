use vstd::prelude::*;

verus! {

/// What a library holds: films or television series.
#[derive(Clone, Copy, Debug, PartialEq, Eq, Structural)]
pub enum MediaType {
    Movie,
    Series,
}

/// A library: a root directory whose files are catalogued as one media type.
pub struct Library {
    pub id: i32,
    pub location: String,
    pub media_type: MediaType,
}

/// The technical facts that probing a file yielded.
pub struct ProbeFacts {
    pub quality: Option<String>,
    pub codec: Option<String>,
    pub container: Option<String>,
    pub audio: Option<String>,
    pub original_resolution: Option<String>,
    pub duration: Option<i32>,
    pub corrupt: bool,
}

/// What the file name parser read out of a file name.
pub struct ParsedName {
    pub title: String,
    pub year: Option<i32>,
    pub season: Option<i32>,
    pub episode: Option<i32>,
}

/// A technical record: one physical file of a library.
/// It is an orphan while `media_id` is `None`.
pub struct MediaFile {
    pub id: usize,
    pub library_id: i32,
    pub media_id: Option<usize>,
    pub target_file: String,
    pub raw_name: String,
    pub raw_year: Option<i32>,
    pub season: Option<i32>,
    pub episode: Option<i32>,
    pub probe: ProbeFacts,
}

/// The fields of a canonical media record before it is stored.
pub struct InsertableMedia {
    pub library_id: i32,
    pub name: String,
    pub description: Option<String>,
    pub rating: Option<i32>,
    pub year: Option<i32>,
    pub added: String,
    pub poster_path: Option<String>,
    pub backdrop_path: Option<String>,
    pub media_type: MediaType,
}

/// A canonical media record, shared by every file of one title.
pub struct Media {
    pub id: usize,
    pub data: InsertableMedia,
}

/// A genre; its name is unique in a store.
pub struct Genre {
    pub id: usize,
    pub name: String,
}

/// The pairing of a genre with a canonical media record.
#[derive(Clone, Copy, Debug, PartialEq, Eq, Structural)]
pub struct GenreLink {
    pub genre_id: usize,
    pub media_id: usize,
}

/// The best candidate that the metadata provider returned for a title.
/// `rating` is the integer part of the provider's average score.
pub struct QueryResult {
    pub title: Option<String>,
    pub overview: Option<String>,
    pub release_date: Option<String>,
    pub rating: Option<i32>,
    pub poster_path: Option<String>,
    pub backdrop_path: Option<String>,
    pub genres: Vec<String>,
}

/// The kind of a published event.
#[derive(Clone, Copy, Debug, PartialEq, Eq, Structural)]
pub enum PushEventType {
    EventNewCard,
}

/// An event for the clients of a library, sent on the topic it carries.
pub struct Event {
    pub topic: String,
    pub id: usize,
    pub event_type: PushEventType,
}

/// A directory entry that discovery found, with the facts that probing it
/// gave (`None` where it gave none, or where it was not probed).
pub struct DiscoveredFile {
    pub path: String,
    pub file_name: String,
    pub probe: Option<ProbeFacts>,
}

/// The provider query owed to one orphan.
pub struct OrphanQuery {
    pub file_id: usize,
    pub title: String,
    pub year: Option<i32>,
    pub is_series: bool,
}

/// What the provider answered for one orphan.
pub struct OrphanMatch {
    pub file_id: usize,
    pub result: Option<QueryResult>,
}

/// How a registration ended when it did its work.
#[derive(Clone, Copy, Debug, PartialEq, Eq, Structural)]
pub enum Mounted {
    AlreadyKnown,
    Registered(usize),
}

/// Why a file was skipped.
#[derive(Clone, Copy, Debug, PartialEq, Eq, Structural)]
pub enum RegistrationError {
    ProbeError,
    ParseError,
}

/// Why an orphan was left unmatched.
#[derive(Clone, Copy, Debug, PartialEq, Eq, Structural)]
pub enum ReconcileError {
    ProviderMiss,
    MissingTitle,
    SeriesUnsupported,
    UnknownRecord,
    NotOrphan,
}

} // verus!
