//! The shallow scanner, the deep processor and the folder snapshot.
//!
//! Reading a directory is the caller's business: it hands over what the
//! file system said of each entry as `DirEntryFacts`. Everything that is
//! decided or computed from those facts is here.

use crate::models::{
    fresh_id, now_timestamp, opt_text, rfc3339_text, rfc3339_utc, Dimensions, FileMeta,
    FileMetaView, FolderSnapshot, Timestamp,
};
use crate::text::{lowercase_of, str_eq, to_lowercase};
use vstd::prelude::*;

verus! {

/// What the file system reports of a file without opening it.
#[derive(Debug, Clone, Copy, PartialEq, Eq, Structural)]
pub struct EntryMetadata {
    /// Length in bytes.
    pub size: u64,
    /// Modification time, where the platform has one.
    pub modified: Option<Timestamp>,
    /// Creation time, where the platform has one.
    pub created: Option<Timestamp>,
}

/// One directory entry as the caller found it.
#[derive(Debug, Clone)]
pub struct DirEntryFacts {
    /// The entry's path as text.
    pub path: String,
    /// The final component of the path, where it is valid text.
    pub file_name: Option<String>,
    /// The extension of the final component, where it has one that is
    /// valid text; letter case as found.
    pub extension: Option<String>,
    /// Whether the entry is a regular file.
    pub is_file: bool,
    /// The file's metadata; `None` where reading it failed.
    pub metadata: Option<EntryMetadata>,
    /// Pixel dimensions from a header probe, where one was made and
    /// succeeded. The shallow scanner never looks at them.
    pub dimensions: Option<Dimensions>,
}

/// The plain values of a `DirEntryFacts`.
#[verifier::ext_equal]
pub struct FactsView {
    pub path: Seq<char>,
    pub file_name: Option<Seq<char>>,
    pub extension: Option<Seq<char>>,
    pub is_file: bool,
    pub metadata: Option<EntryMetadata>,
    pub dimensions: Option<Dimensions>,
}

impl View for DirEntryFacts {
    type V = FactsView;

    open spec fn view(&self) -> FactsView {
        FactsView {
            path: self.path@,
            file_name: opt_text(self.file_name),
            extension: opt_text(self.extension),
            is_file: self.is_file,
            metadata: self.metadata,
            dimensions: self.dimensions,
        }
    }
}

/// The views of a list of entries.
pub open spec fn facts_views(v: Seq<DirEntryFacts>) -> Seq<FactsView> {
    Seq::new(v.len(), |i: int| v[i]@)
}

/// The cheap facts of one eligible file.
#[derive(Debug, Clone)]
pub struct ShallowMeta {
    pub path: String,
    pub name: String,
    pub size: i64,
    pub modified_sec: i64,
    pub created_sec: i64,
    pub ext: String,
}

/// The plain values of a `ShallowMeta`.
#[verifier::ext_equal]
pub struct ShallowView {
    pub path: Seq<char>,
    pub name: Seq<char>,
    pub size: i64,
    pub modified_sec: i64,
    pub created_sec: i64,
    pub ext: Seq<char>,
}

impl View for ShallowMeta {
    type V = ShallowView;

    open spec fn view(&self) -> ShallowView {
        ShallowView {
            path: self.path@,
            name: self.name@,
            size: self.size,
            modified_sec: self.modified_sec,
            created_sec: self.created_sec,
            ext: self.ext@,
        }
    }
}

/// The views of a list of shallow facts.
pub open spec fn shallow_views(v: Seq<ShallowMeta>) -> Seq<ShallowView> {
    Seq::new(v.len(), |i: int| v[i]@)
}

impl ShallowMeta {
    /// A copy that holds the same values.
    pub fn duplicate(&self) -> (r: ShallowMeta)
        ensures
            r@ == self@,
    {
        ShallowMeta {
            path: self.path.clone(),
            name: self.name.clone(),
            size: self.size,
            modified_sec: self.modified_sec,
            created_sec: self.created_sec,
            ext: self.ext.clone(),
        }
    }
}

/// Why a file could not be taken in.
#[derive(Debug, Clone, Copy, PartialEq, Eq, Structural)]
pub enum FileError {
    /// The file's metadata could not be read.
    Unreadable,
    /// One of the file's times cannot be written as a calendar date.
    TimeOutOfRange,
}

/// Why a scan was given up: the position of the first entry that failed,
/// and what was wrong with it.
#[derive(Debug, Clone, Copy, PartialEq, Eq, Structural)]
pub struct ScanError {
    pub index: usize,
    pub cause: FileError,
}

/// The lower-case extensions of the image files that the engine indexes.
pub open spec fn supported_extension(ext: Seq<char>) -> bool {
    ||| ext == "jpg"@
    ||| ext == "jpeg"@
    ||| ext == "png"@
    ||| ext == "gif"@
    ||| ext == "bmp"@
    ||| ext == "webp"@
    ||| ext == "tiff"@
    ||| ext == "tif"@
    ||| ext == "ico"@
}

/// The extension by which an entry is judged: what the path gave, or the
/// empty text, in lower case.
pub open spec fn extension_key(extension: Option<Seq<char>>) -> Seq<char> {
    match extension {
        Some(e) => lowercase_of(e),
        None => lowercase_of(Seq::empty()),
    }
}

/// The name under which an entry is listed.
pub open spec fn display_name(file_name: Option<Seq<char>>) -> Seq<char> {
    match file_name {
        Some(n) => n,
        None => "unknown"@,
    }
}

/// Whole seconds since the epoch; zero where the time is missing or lies
/// before the epoch.
pub open spec fn epoch_seconds(t: Option<Timestamp>) -> i64 {
    match t {
        Some(ts) => if ts.secs >= 0 {
            ts.secs
        } else {
            0
        },
        None => 0,
    }
}

/// A length in bytes as a signed 64-bit number, in two's complement.
pub open spec fn wrap_size(len: u64) -> i64 {
    if len <= i64::MAX {
        len as i64
    } else {
        (len - 0x1_0000_0000_0000_0000) as i64
    }
}

/// Whether the shallow scanner lists an entry: a regular file with a
/// supported extension.
pub open spec fn eligible(e: FactsView) -> bool {
    e.is_file && supported_extension(extension_key(e.extension))
}

/// The shallow facts of an entry with metadata `m`.
pub open spec fn shallow_of(e: FactsView, m: EntryMetadata) -> ShallowView {
    ShallowView {
        path: e.path,
        name: display_name(e.file_name),
        size: wrap_size(m.size),
        modified_sec: epoch_seconds(m.modified),
        created_sec: epoch_seconds(m.created),
        ext: extension_key(e.extension),
    }
}

/// Whether the scanner has to give up at entry `i`: it is eligible and
/// its metadata could not be read.
pub open spec fn unreadable_at(entries: Seq<FactsView>, i: int) -> bool {
    0 <= i < entries.len() && eligible(entries[i]) && entries[i].metadata is None
}

/// What a shallow scan lists: the shallow facts of the eligible entries,
/// in the order of the entries.
pub open spec fn shallow_list(entries: Seq<FactsView>) -> Seq<ShallowView>
    decreases entries.len(),
{
    if entries.len() == 0 {
        Seq::empty()
    } else {
        let rest = shallow_list(entries.drop_last());
        let e = entries.last();
        if eligible(e) && e.metadata is Some {
            rest.push(shallow_of(e, e.metadata->0))
        } else {
            rest
        }
    }
}

/// Whether `ext`, already in lower case, is on the list of supported
/// image extensions.
pub fn is_supported_extension(ext: &str) -> (r: bool)
    ensures
        r == supported_extension(ext@),
{
    str_eq(ext, "jpg") || str_eq(ext, "jpeg") || str_eq(ext, "png") || str_eq(ext, "gif")
        || str_eq(ext, "bmp") || str_eq(ext, "webp") || str_eq(ext, "tiff") || str_eq(ext, "tif")
        || str_eq(ext, "ico")
}

/// The lower-case extension of an entry.
pub fn extension_of(facts: &DirEntryFacts) -> (ext: String)
    ensures
        ext@ == extension_key(facts@.extension),
{
    match &facts.extension {
        Some(e) => to_lowercase(e.as_str()),
        None => {
            proof {
                reveal_strlit("");
                assert(""@ =~= Seq::<char>::empty());
            }
            to_lowercase("")
        },
    }
}

fn name_of(facts: &DirEntryFacts) -> (name: String)
    ensures
        name@ == display_name(facts@.file_name),
{
    match &facts.file_name {
        Some(n) => n.clone(),
        None => "unknown".to_string(),
    }
}

/// Whole seconds since the epoch, as `epoch_seconds` says.
pub fn seconds_of(t: Option<Timestamp>) -> (s: i64)
    ensures
        s == epoch_seconds(t),
{
    match t {
        Some(ts) => if ts.secs >= 0 {
            ts.secs
        } else {
            0
        },
        None => 0,
    }
}

/// A length in bytes as a signed number, as `wrap_size` says.
pub fn size_of(len: u64) -> (s: i64)
    ensures
        s == wrap_size(len),
{
    if len <= 0x7fff_ffff_ffff_ffff {
        len as i64
    } else {
        let low: u64 = len - 0x8000_0000_0000_0000;
        (low as i64) + i64::MIN
    }
}

/// Lists the eligible entries of one directory level with their cheap
/// facts, in the order given. The scan fails at the first eligible entry
/// whose metadata could not be read.
pub fn scan_directory_shallow(entries: &Vec<DirEntryFacts>) -> (r: Result<
    Vec<ShallowMeta>,
    ScanError,
>)
    ensures
        match r {
            Ok(files) => {
                &&& forall|i: int| !unreadable_at(facts_views(entries@), i)
                &&& shallow_views(files@) == shallow_list(facts_views(entries@))
            },
            Err(e) => {
                &&& e.cause == FileError::Unreadable
                &&& unreadable_at(facts_views(entries@), e.index as int)
                &&& forall|i: int| 0 <= i < e.index ==> !unreadable_at(facts_views(entries@), i)
            },
        },
{
    let ghost all = facts_views(entries@);
    let mut files: Vec<ShallowMeta> = Vec::new();
    let mut i: usize = 0;
    assert(all.take(0) =~= Seq::<FactsView>::empty());
    while i < entries.len()
        invariant
            i <= entries.len(),
            all == facts_views(entries@),
            forall|k: int| 0 <= k < i ==> !unreadable_at(all, k),
            files.len() == shallow_list(all.take(i as int)).len(),
            forall|k: int|
                0 <= k < files.len() ==> (#[trigger] files@[k])@ == shallow_list(
                    all.take(i as int),
                )[k],
        decreases entries.len() - i,
    {
        let entry = &entries[i];
        assert(all.take(i + 1).drop_last() =~= all.take(i as int));
        assert(all.take(i + 1).last() == entry@);
        assert(all[i as int] == entry@);
        if entry.is_file {
            let ext = extension_of(entry);
            if is_supported_extension(ext.as_str()) {
                match entry.metadata {
                    Some(m) => {
                        files.push(
                            ShallowMeta {
                                path: entry.path.clone(),
                                name: name_of(entry),
                                size: size_of(m.size),
                                modified_sec: seconds_of(m.modified),
                                created_sec: seconds_of(m.created),
                                ext,
                            },
                        );
                    },
                    None => {
                        return Err(ScanError { index: i, cause: FileError::Unreadable });
                    },
                }
            }
        }
        i = i + 1;
    }
    assert(all.take(all.len() as int) =~= all);
    assert(shallow_views(files@) =~= shallow_list(all));
    Ok(files)
}

/// Whether a time that a record must show can be written down: a missing
/// time always can (the current time stands in for it).
pub open spec fn writable(t: Option<Timestamp>) -> bool {
    match t {
        Some(ts) => rfc3339_text(ts.secs as int, ts.nanos as int) is Some,
        None => true,
    }
}

/// Whether `text` may stand for the time `t` in a record: the RFC 3339
/// text of `t`, or any text where `t` is missing.
pub open spec fn writes(text: Seq<char>, t: Option<Timestamp>) -> bool {
    match t {
        Some(ts) => rfc3339_text(ts.secs as int, ts.nanos as int) == Some(text),
        None => true,
    }
}

/// The record of an entry with metadata `m`, under the identifier given,
/// with `modified_at` as the time it was modified at and with the texts of
/// its times.
pub open spec fn record_of(
    e: FactsView,
    m: EntryMetadata,
    id: Seq<char>,
    modified_at: Timestamp,
    modified: Seq<char>,
    created: Seq<char>,
) -> FileMetaView {
    FileMetaView {
        id,
        path: e.path,
        name: display_name(e.file_name),
        size: wrap_size(m.size) as int,
        modified,
        created,
        file_type: extension_key(e.extension),
        dimensions: e.dimensions,
        thumbnail_path: None,
        tags: Seq::empty(),
        albums: Seq::empty(),
        rating: None,
        modified_sec: epoch_seconds(m.modified) as int,
        modified_at,
    }
}

/// Builds the record of an entry from its facts, a minted identifier, the
/// time it was modified at and the texts of its times.
pub fn assemble_record(
    facts: &DirEntryFacts,
    meta: EntryMetadata,
    id: String,
    modified_at: Timestamp,
    modified: String,
    created: String,
) -> (file: FileMeta)
    ensures
        file@ == record_of(facts@, meta, id@, modified_at, modified@, created@),
{
    let file = FileMeta {
        id,
        path: facts.path.clone(),
        name: name_of(facts),
        size: size_of(meta.size),
        modified,
        created,
        file_type: extension_of(facts),
        dimensions: facts.dimensions,
        thumbnail_path: None,
        tags: Vec::new(),
        albums: Vec::new(),
        rating: None,
        modified_sec: seconds_of(meta.modified),
        modified_at,
    };
    assert(file@.tags =~= Seq::<Seq<char>>::empty());
    assert(file@.albums =~= Seq::<Seq<char>>::empty());
    file
}

/// The time that stands for `t` in a record: `t` itself, or the current
/// time where `t` is missing. The current time can always be written down.
fn time_of(t: Option<Timestamp>) -> (at: Timestamp)
    ensures
        t is Some ==> at == t->0,
        t is None ==> rfc3339_text(at.secs as int, at.nanos as int) is Some,
{
    match t {
        Some(ts) => ts,
        None => now_timestamp(),
    }
}

/// Whether deep processing of an entry yields a record.
pub open spec fn processable(e: FactsView) -> bool {
    &&& supported_extension(extension_key(e.extension))
    &&& e.metadata is Some
    &&& writable(e.metadata->0.modified)
    &&& writable(e.metadata->0.created)
}

/// What deep processing of an entry fails with, if it fails.
pub open spec fn process_failure(e: FactsView) -> Option<FileError> {
    if !supported_extension(extension_key(e.extension)) {
        None
    } else if e.metadata is None {
        Some(FileError::Unreadable)
    } else if !writable(e.metadata->0.modified) || !writable(e.metadata->0.created) {
        Some(FileError::TimeOutOfRange)
    } else {
        None
    }
}

/// Whether `file` is a record that deep processing may return for `e`.
/// Every field follows from the facts, but for the identifier, which is
/// minted and 36 characters long, and for a time that the file system did
/// not give, for which the current time stands. The `modified` text is
/// written from `modified_at`, and that is the file's modification time
/// where it has one.
pub open spec fn is_record_of(file: FileMetaView, e: FactsView) -> bool {
    &&& e.metadata is Some
    &&& file == record_of(
        e,
        e.metadata->0,
        file.id,
        file.modified_at,
        file.modified,
        file.created,
    )
    &&& file.id.len() == 36
    &&& e.metadata->0.modified is Some ==> file.modified_at == e.metadata->0.modified->0
    &&& rfc3339_text(file.modified_at.secs as int, file.modified_at.nanos as int) == Some(
        file.modified,
    )
    &&& writes(file.created, e.metadata->0.created)
}

/// Deep processing of one entry. An unsupported extension gives no
/// record; unreadable metadata or a time that cannot be written down is
/// an error; otherwise the record comes under a fresh identifier.
pub fn process_file(facts: &DirEntryFacts) -> (r: Result<Option<FileMeta>, FileError>)
    ensures
        match r {
            Ok(Some(file)) => processable(facts@) && is_record_of(file@, facts@),
            Ok(None) => !supported_extension(extension_key(facts@.extension)),
            Err(e) => process_failure(facts@) == Some(e),
        },
{
    let ext = extension_of(facts);
    if !is_supported_extension(ext.as_str()) {
        return Ok(None);
    }
    let meta = match facts.metadata {
        Some(m) => m,
        None => {
            return Err(FileError::Unreadable);
        },
    };
    let modified_at = time_of(meta.modified);
    let modified = match rfc3339_utc(modified_at.secs, modified_at.nanos) {
        Some(t) => t,
        None => {
            return Err(FileError::TimeOutOfRange);
        },
    };
    let created_at = time_of(meta.created);
    let created = match rfc3339_utc(created_at.secs, created_at.nanos) {
        Some(t) => t,
        None => {
            return Err(FileError::TimeOutOfRange);
        },
    };
    Ok(Some(assemble_record(facts, meta, fresh_id(), modified_at, modified, created)))
}

/// What a deep scan lists, given the records that processing made: one
/// record for each regular file that was processable, in order.
pub open spec fn deep_listed(entries: Seq<FactsView>) -> Seq<FactsView>
    decreases entries.len(),
{
    if entries.len() == 0 {
        Seq::empty()
    } else {
        let rest = deep_listed(entries.drop_last());
        let e = entries.last();
        if e.is_file && processable(e) {
            rest.push(e)
        } else {
            rest
        }
    }
}

/// Whether a deep scan has to give up at entry `i`.
pub open spec fn deep_failure_at(entries: Seq<FactsView>, i: int) -> bool {
    0 <= i < entries.len() && entries[i].is_file && process_failure(entries[i]) is Some
}

/// Deep processing of every regular file of one directory level, in the
/// order given. The scan fails at the first file whose processing fails.
pub fn scan_directory(entries: &Vec<DirEntryFacts>) -> (r: Result<Vec<FileMeta>, ScanError>)
    ensures
        match r {
            Ok(files) => {
                &&& forall|i: int| !deep_failure_at(facts_views(entries@), i)
                &&& files.len() == deep_listed(facts_views(entries@)).len()
                &&& forall|k: int|
                    0 <= k < files.len() ==> is_record_of(
                        (#[trigger] files@[k])@,
                        deep_listed(facts_views(entries@))[k],
                    )
            },
            Err(e) => {
                &&& deep_failure_at(facts_views(entries@), e.index as int)
                &&& process_failure(facts_views(entries@)[e.index as int]) == Some(e.cause)
                &&& forall|i: int| 0 <= i < e.index ==> !deep_failure_at(facts_views(entries@), i)
            },
        },
{
    let ghost all = facts_views(entries@);
    let mut files: Vec<FileMeta> = Vec::new();
    let mut i: usize = 0;
    assert(all.take(0) =~= Seq::<FactsView>::empty());
    while i < entries.len()
        invariant
            i <= entries.len(),
            all == facts_views(entries@),
            forall|k: int| 0 <= k < i ==> !deep_failure_at(all, k),
            files.len() == deep_listed(all.take(i as int)).len(),
            forall|k: int|
                0 <= k < files.len() ==> is_record_of(
                    (#[trigger] files@[k])@,
                    deep_listed(all.take(i as int))[k],
                ),
        decreases entries.len() - i,
    {
        let entry = &entries[i];
        assert(all.take(i + 1).drop_last() =~= all.take(i as int));
        assert(all.take(i + 1).last() == entry@);
        assert(all[i as int] == entry@);
        if entry.is_file {
            match process_file(entry) {
                Ok(Some(file)) => {
                    files.push(file);
                },
                Ok(None) => {},
                Err(cause) => {
                    return Err(ScanError { index: i, cause });
                },
            }
        }
        i = i + 1;
    }
    assert(all.take(all.len() as int) =~= all);
    Ok(files)
}

/// The sum of the modification times of `list` in wrapping 64-bit
/// arithmetic.
pub open spec fn wrapping_total(list: Seq<ShallowView>) -> i64
    decreases list.len(),
{
    if list.len() == 0 {
        0
    } else {
        wrapping_total(list.drop_last()).wrapping_add(list.last().modified_sec)
    }
}

/// The fingerprint of a folder whose shallow scan gave `list`.
pub open spec fn snapshot_of(list: Seq<ShallowView>) -> FolderSnapshot {
    FolderSnapshot { file_count: list.len() as usize, agg_mtime: wrapping_total(list) }
}

/// The fingerprint of a folder: how many files its shallow scan listed,
/// and the wrapping sum of their modification times.
pub fn compute_folder_snapshot(shallow: &Vec<ShallowMeta>) -> (snapshot: FolderSnapshot)
    ensures
        snapshot == snapshot_of(shallow_views(shallow@)),
{
    let ghost all = shallow_views(shallow@);
    let mut agg: i64 = 0;
    let mut i: usize = 0;
    assert(all.take(0) =~= Seq::<ShallowView>::empty());
    while i < shallow.len()
        invariant
            i <= shallow.len(),
            all == shallow_views(shallow@),
            agg == wrapping_total(all.take(i as int)),
        decreases shallow.len() - i,
    {
        assert(all.take(i + 1).drop_last() =~= all.take(i as int));
        assert(all.take(i + 1).last() == shallow@[i as int]@);
        agg = agg.wrapping_add(shallow[i].modified_sec);
        i = i + 1;
    }
    assert(all.take(all.len() as int) =~= all);
    FolderSnapshot { file_count: shallow.len(), agg_mtime: agg }
}

/// The sum of the modification times of `list` as a mathematical integer.
pub open spec fn plain_total(list: Seq<ShallowView>) -> int
    decreases list.len(),
{
    if list.len() == 0 {
        0
    } else {
        plain_total(list.drop_last()) + list.last().modified_sec
    }
}

/// The signed 64-bit number that is congruent to `n` modulo two to the 64.
pub open spec fn wrap64(n: int) -> int {
    (n + 0x8000_0000_0000_0000) % 0x1_0000_0000_0000_0000 - 0x8000_0000_0000_0000
}

/// The wrapping sum is the plain sum, reduced once at the end.
pub proof fn lemma_wrapping_total(list: Seq<ShallowView>)
    ensures
        wrapping_total(list) == wrap64(plain_total(list)),
    decreases list.len(),
{
    if list.len() > 0 {
        lemma_wrapping_total(list.drop_last());
        let a = plain_total(list.drop_last());
        let b = list.last().modified_sec as int;
        let m = 0x1_0000_0000_0000_0000int;
        let h = 0x8000_0000_0000_0000int;
        let x = wrap64(a);
        assert(-h <= x < h);
        assert((a + h) % m == x + h);
        let q = (a + h) / m;
        assert(a + h == q * m + (x + h)) by {
            vstd::arithmetic::div_mod::lemma_fundamental_div_mod(a + h, m);
        }
        let y = i64::wrapping_add(x as i64, b as i64) as int;
        let k: int = if x + b > i64::MAX {
            -1
        } else if x + b < i64::MIN {
            1
        } else {
            0
        };
        assert(y == x + b + k * m);
        assert(a + b + h == (q - k) * m + (y + h)) by (nonlinear_arith)
            requires
                a + h == q * m + (x + h),
                y == x + b + k * m,
        ;
        assert(0 <= y + h < m);
        vstd::arithmetic::div_mod::lemma_fundamental_div_mod_converse(a + b + h, m, q - k, y + h);
    }
}

/// Taking one file out of a list lowers the plain sum by that file's
/// modification time.
proof fn lemma_total_remove(list: Seq<ShallowView>, j: int)
    requires
        0 <= j < list.len(),
    ensures
        plain_total(list) == plain_total(list.remove(j)) + list[j].modified_sec,
    decreases list.len(),
{
    if j == list.len() - 1 {
        assert(list.remove(j) =~= list.drop_last());
    } else {
        lemma_total_remove(list.drop_last(), j);
        assert(list.remove(j).drop_last() =~= list.drop_last().remove(j));
        assert(list.remove(j).last() == list.last());
    }
}

/// Lists that hold the same files, in whatever order, have the same plain
/// sum.
proof fn lemma_total_permutation(a: Seq<ShallowView>, b: Seq<ShallowView>)
    requires
        a.to_multiset() == b.to_multiset(),
    ensures
        plain_total(a) == plain_total(b),
        a.len() == b.len(),
    decreases a.len(),
{
    a.to_multiset_ensures();
    b.to_multiset_ensures();
    if a.len() > 0 {
        let x = a.last();
        assert(a[a.len() - 1] == x);
        assert(a.contains(x));
        assert(a.to_multiset().count(x) > 0);
        assert(b.to_multiset().count(x) > 0);
        assert(b.contains(x));
        let j = choose|j: int| 0 <= j < b.len() && b[j] == x;
        assert(a.remove(a.len() - 1) =~= a.drop_last());
        lemma_total_permutation(a.drop_last(), b.remove(j));
        lemma_total_remove(b, j);
    }
}

/// The fingerprint does not depend on the order in which the file system
/// listed the files: two scans that found the same files give the same
/// snapshot.
pub proof fn lemma_snapshot_order_independent(a: Seq<ShallowView>, b: Seq<ShallowView>)
    requires
        a.to_multiset() == b.to_multiset(),
    ensures
        snapshot_of(a) == snapshot_of(b),
{
    lemma_total_permutation(a, b);
    lemma_wrapping_total(a);
    lemma_wrapping_total(b);
}

/// An empty folder has the snapshot `(0, 0)`.
pub proof fn lemma_snapshot_empty()
    ensures
        snapshot_of(Seq::<ShallowView>::empty()) == (FolderSnapshot {
            file_count: 0,
            agg_mtime: 0,
        }),
{
}

} // verus!
