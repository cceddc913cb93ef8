//! The records that the engine stores and reports, each with the
//! mathematical view that the contracts speak of.

use vstd::prelude::*;

verus! {

/// Pixel dimensions of a decoded image header.
#[derive(Debug, Clone, Copy, PartialEq, Eq, Structural)]
pub struct Dimensions {
    pub width: u32,
    pub height: u32,
}

/// A point in time as whole seconds since the Unix epoch (negative before
/// it) and the nanoseconds that follow.
#[derive(Debug, Clone, Copy, PartialEq, Eq, Structural)]
pub struct Timestamp {
    pub secs: i64,
    pub nanos: u32,
}

/// Whether `a` lies strictly before `b`.
pub open spec fn earlier(a: Timestamp, b: Timestamp) -> bool {
    a.secs < b.secs || (a.secs == b.secs && a.nanos < b.nanos)
}

/// Whether `a` lies strictly before `b`.
pub fn is_earlier(a: Timestamp, b: Timestamp) -> (r: bool)
    ensures
        r == earlier(a, b),
{
    a.secs < b.secs || (a.secs == b.secs && a.nanos < b.nanos)
}

/// The cheap fingerprint of a folder: how many eligible files it holds and
/// the wrapping sum of their modification times.
#[derive(Debug, Clone, Copy, PartialEq, Eq, Structural)]
pub struct FolderSnapshot {
    pub file_count: usize,
    pub agg_mtime: i64,
}

/// One indexed file.
#[derive(Debug, Clone)]
pub struct FileMeta {
    pub id: String,
    pub path: String,
    pub name: String,
    pub size: i64,
    /// Modification time as RFC 3339 text.
    pub modified: String,
    /// Creation time as RFC 3339 text.
    pub created: String,
    pub file_type: String,
    pub dimensions: Option<Dimensions>,
    pub thumbnail_path: Option<String>,
    pub tags: Vec<String>,
    pub albums: Vec<String>,
    pub rating: Option<i32>,
    /// Modification time in whole seconds since the epoch, zero where it
    /// is missing or lies before the epoch; this is what change detection
    /// compares.
    pub modified_sec: i64,
    /// The time that `modified` was written from, to the nanosecond; this
    /// is what ordering by recency compares.
    pub modified_at: Timestamp,
}

/// What a `FileMeta` holds, as plain mathematical values.
#[verifier::ext_equal]
pub struct FileMetaView {
    pub id: Seq<char>,
    pub path: Seq<char>,
    pub name: Seq<char>,
    pub size: int,
    pub modified: Seq<char>,
    pub created: Seq<char>,
    pub file_type: Seq<char>,
    pub dimensions: Option<Dimensions>,
    pub thumbnail_path: Option<Seq<char>>,
    pub tags: Seq<Seq<char>>,
    pub albums: Seq<Seq<char>>,
    pub rating: Option<i32>,
    pub modified_sec: int,
    pub modified_at: Timestamp,
}

/// The text of an optional string.
pub open spec fn opt_text(o: Option<String>) -> Option<Seq<char>> {
    match o {
        Some(s) => Some(s@),
        None => None,
    }
}

/// The texts of a list of strings.
pub open spec fn texts(v: Seq<String>) -> Seq<Seq<char>> {
    Seq::new(v.len(), |i: int| v[i]@)
}

impl View for FileMeta {
    type V = FileMetaView;

    open spec fn view(&self) -> FileMetaView {
        FileMetaView {
            id: self.id@,
            path: self.path@,
            name: self.name@,
            size: self.size as int,
            modified: self.modified@,
            created: self.created@,
            file_type: self.file_type@,
            dimensions: self.dimensions,
            thumbnail_path: opt_text(self.thumbnail_path),
            tags: texts(self.tags@),
            albums: texts(self.albums@),
            rating: self.rating,
            modified_sec: self.modified_sec as int,
            modified_at: self.modified_at,
        }
    }
}

/// A copy of an optional string.
pub fn copy_opt_text(o: &Option<String>) -> (r: Option<String>)
    ensures
        opt_text(r) == opt_text(*o),
{
    match o {
        Some(s) => Some(s.clone()),
        None => None,
    }
}

/// A copy of a list of strings.
pub fn copy_texts(v: &Vec<String>) -> (r: Vec<String>)
    ensures
        texts(r@) == texts(v@),
{
    let mut r: Vec<String> = Vec::new();
    let mut i: usize = 0;
    while i < v.len()
        invariant
            i <= v.len(),
            r.len() == i,
            forall|k: int| 0 <= k < i ==> r@[k]@ == v@[k]@,
        decreases v.len() - i,
    {
        r.push(v[i].clone());
        i = i + 1;
    }
    assert(texts(r@) =~= texts(v@));
    r
}

impl FileMeta {
    /// A copy that holds the same values.
    pub fn duplicate(&self) -> (r: FileMeta)
        ensures
            r@ == self@,
    {
        FileMeta {
            id: self.id.clone(),
            path: self.path.clone(),
            name: self.name.clone(),
            size: self.size,
            modified: self.modified.clone(),
            created: self.created.clone(),
            file_type: self.file_type.clone(),
            dimensions: self.dimensions,
            thumbnail_path: copy_opt_text(&self.thumbnail_path),
            tags: copy_texts(&self.tags),
            albums: copy_texts(&self.albums),
            rating: self.rating,
            modified_sec: self.modified_sec,
            modified_at: self.modified_at,
        }
    }
}

/// The views of a list of records.
pub open spec fn views(v: Seq<FileMeta>) -> Seq<FileMetaView> {
    Seq::new(v.len(), |i: int| v[i]@)
}

/// Physical resolution of an image.
#[derive(Debug, Clone)]
pub struct Resolution {
    pub x: u32,
    pub y: u32,
    pub unit: String,
}

/// A user-defined album.
#[derive(Debug, Clone)]
pub struct Album {
    pub id: String,
    pub name: String,
    pub description: Option<String>,
    pub cover_image: Option<String>,
    pub created: String,
    pub modified: String,
    pub file_count: usize,
}

/// A user-defined tag.
#[derive(Debug, Clone)]
pub struct Tag {
    pub id: String,
    pub name: String,
    pub color: Option<String>,
    pub created: String,
}

/// Application settings.
#[derive(Debug, Clone)]
pub struct AppSettings {
    pub theme: String,
    pub thumbnail_size: i32,
    pub default_folder: Option<String>,
    pub cache_location: Option<String>,
}

impl Default for AppSettings {
    /// The settings of a fresh installation: the dark theme and
    /// thumbnails of 200 pixels.
    fn default() -> (s: AppSettings)
        ensures
            s.theme@ == "dark"@,
            s.thumbnail_size == 200,
            s.default_folder is None,
            s.cache_location is None,
    {
        AppSettings {
            theme: "dark".to_string(),
            thumbnail_size: 200,
            default_folder: None,
            cache_location: None,
        }
    }
}

/// A range of dates, both ends as text.
#[derive(Debug, Clone)]
pub struct DateRange {
    pub start: String,
    pub end: String,
}

/// A range of file sizes in bytes.
#[derive(Debug, Clone)]
pub struct SizeRange {
    pub min: i64,
    pub max: i64,
}

/// A structured search request.
#[derive(Debug, Clone)]
pub struct SearchQuery {
    pub query: Option<String>,
    pub file_types: Option<Vec<String>>,
    pub date_range: Option<DateRange>,
    pub size_range: Option<SizeRange>,
    pub tags: Option<Vec<String>>,
    pub albums: Option<Vec<String>>,
    pub rating: Option<i32>,
}

/// The totals of an indexing run.
#[derive(Debug, Clone)]
pub struct IndexResult {
    pub total_files: usize,
    pub indexed_files: usize,
    pub skipped_files: usize,
    pub errors: Vec<String>,
}

/// A progress report.
#[derive(Debug, Clone)]
pub struct ProgressUpdate {
    pub current: usize,
    pub total: usize,
    pub message: String,
}

/// A stored thumbnail rendition.
#[derive(Debug, Clone)]
pub struct ThumbnailInfo {
    pub id: i64,
    pub file_id: i64,
    pub size: i32,
    pub path: String,
}

/// A crop rectangle.
#[derive(Debug, Clone)]
pub struct CropOperation {
    pub x: i32,
    pub y: i32,
    pub width: i32,
    pub height: i32,
}

/// `uuid::Uuid::new_v4`, rendered by its `to_string`: a random identifier
/// in the hyphenated form, which is 36 characters long. Nothing else is
/// claimed of it; two calls may return anything.
#[verifier::external_body]
pub(crate) fn fresh_id() -> (id: String)
    ensures
        id@.len() == 36,
{
    uuid::Uuid::new_v4().to_string()
}

/// The RFC 3339 text of a UTC time given as seconds since the epoch and
/// nanoseconds, as chrono writes it; `None` where chrono has no date for
/// these numbers.
pub uninterp spec fn rfc3339_text(secs: int, nanos: int) -> Option<Seq<char>>;

/// `chrono::DateTime::from_timestamp`, followed by `to_rfc3339` on the
/// date it made: the RFC 3339 text of the UTC time, or `None` where the
/// seconds are out of chrono's range or the nanoseconds are invalid. The
/// text itself is only named.
#[verifier::external_body]
pub(crate) fn rfc3339_utc(secs: i64, nanos: u32) -> (text: Option<String>)
    ensures
        opt_text(text) == rfc3339_text(secs as int, nanos as int),
{
    match chrono::DateTime::from_timestamp(secs, nanos) {
        Some(date) => Some(date.to_rfc3339()),
        None => None,
    }
}

/// `chrono::Utc::now`, taken apart by its `timestamp` and
/// `timestamp_subsec_nanos`: the current time. Which time that is depends
/// on the clock and is not claimed. What is claimed is that chrono has a
/// date for it: `now` makes its date with `from_timestamp` from these very
/// numbers, and the two accessors give them back.
#[verifier::external_body]
pub(crate) fn now_timestamp() -> (now: Timestamp)
    ensures
        rfc3339_text(now.secs as int, now.nanos as int) is Some,
{
    let now = chrono::Utc::now();
    Timestamp { secs: now.timestamp(), nanos: now.timestamp_subsec_nanos() }
}

impl Album {
    /// A new, empty album under a fresh identifier, created and modified
    /// at the current time.
    pub fn new(name: String, description: Option<String>) -> (album: Album)
        ensures
            album.name == name,
            album.description == description,
            album.cover_image is None,
            album.file_count == 0,
            album.created@ == album.modified@,
            album.id@.len() == 36,
    {
        let at = now_timestamp();
        let now = match rfc3339_utc(at.secs, at.nanos) {
            Some(text) => text,
            None => String::new(),
        };
        Album {
            id: fresh_id(),
            name,
            description,
            cover_image: None,
            created: now.clone(),
            modified: now,
            file_count: 0,
        }
    }
}

} // verus!
