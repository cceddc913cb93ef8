//! The command surface: what each request of the user interface does to
//! the catalog and what it answers, once the caller has done the reading
//! and writing that the request involves.

use crate::catalog::{
    by_recency, folder_used, has_id, id_index, id_path_pairs, in_folder, matching,
    naturally_sorted, outside_folder, page, records, upsert_files, upsert_refused, CatalogView,
    EntryView,
};
use crate::database::{pair_texts, CatalogError, Database};
use crate::models::{
    opt_text, texts, views, AppSettings, FileMeta, FileMetaView, FolderSnapshot, IndexResult,
};
use crate::sync::{SyncEvent, SyncOutput, SyncRun};
use crate::sync_model::{fresh_run, last_folder_key, norm_key, step_spec, EventView, StepView};
use crate::text::{str_eq, to_lowercase};
use crate::thumbnail::{
    remove_thumbnails_for_paths, thumbnail_file_name, thumbnail_name, thumbnail_names,
    DEFAULT_THUMBNAIL_SIZE,
};
use crate::watcher::WatchRegistry;
use vstd::prelude::*;
use vstd::string::*;

verus! {

/// How many records a search returns at most.
pub const SEARCH_LIMIT: usize = 100;

/// Why a command failed.
#[derive(Debug, Clone, Copy, PartialEq, Eq, Structural)]
pub enum CommandError {
    /// The folder that was named does not exist.
    FolderNotFound,
    /// No record carries the identifier that was asked for.
    FileNotFound,
    /// The catalog refused a record.
    Catalog(CatalogError),
}

/// What the library remembers across sessions.
#[derive(Debug, Clone)]
pub struct LibraryState {
    pub last_selected_folder: Option<String>,
    pub indexed_folders: Vec<String>,
}

/// A search request.
#[derive(Debug, Clone)]
pub struct SearchQuery {
    pub query: Option<String>,
}

/// What `get_thumbnail` resolved: the source to render and the name of
/// its cache file.
#[derive(Debug, Clone)]
pub struct ThumbnailRequest {
    pub source_path: String,
    pub cache_name: String,
}

/// Prepares the catalog at start-up. There is nothing to prepare: a store
/// is complete from `Database::new` on, and whoever keeps it durable loads
/// it where it is kept.
pub fn initialize_persistent_db() {
}

/// The path that `raw` is stored and compared under: its canonical form
/// where the file system gave one, in lower case where the policy folds
/// case.
pub open spec fn normal_form(canonical: Option<Seq<char>>, raw: Seq<char>, fold_case: bool) -> Seq<
    char,
> {
    norm_key(
        fold_case,
        match canonical {
            Some(c) => c,
            None => raw,
        },
    )
}

/// Normalizes a path. `canonical` is what canonicalization gave, if it
/// succeeded; `fold_case` says whether the file system ignores letter
/// case.
pub fn normalize_path(canonical: Option<String>, raw: &str, fold_case: bool) -> (path: String)
    ensures
        path@ == normal_form(opt_text(canonical), raw@, fold_case),
{
    let chosen = match canonical {
        Some(c) => c,
        None => String::from_str(raw),
    };
    if fold_case {
        to_lowercase(chosen.as_str())
    } else {
        chosen
    }
}

/// The current settings: those of a fresh installation.
pub fn get_settings() -> (settings: AppSettings)
    ensures
        settings.theme@ == "dark"@,
        settings.thumbnail_size == 200,
        settings.default_folder is None,
        settings.cache_location is None,
{
    AppSettings::default()
}

/// The catalog's files after the first `n` records of `list` were
/// upserted under `folder`, one after the other.
pub open spec fn upsert_first(
    files: Seq<EntryView>,
    list: Seq<FileMetaView>,
    folder: Seq<char>,
    n: nat,
) -> Seq<EntryView>
    decreases n,
{
    if n == 0 {
        files
    } else {
        upsert_files(
            upsert_first(files, list, folder, (n - 1) as nat),
            list[n - 1],
            folder,
        )
    }
}

/// Whether the catalog accepts each of the first `n` records of `list` in
/// turn.
pub open spec fn accepts_first(
    files: Seq<EntryView>,
    list: Seq<FileMetaView>,
    folder: Seq<char>,
    n: nat,
) -> bool {
    forall|k: nat|
        k < n ==> !upsert_refused(#[trigger] upsert_first(files, list, folder, k), list[k as int])
}

/// Full, non-incremental indexing of a folder from the records of a deep
/// scan. `root_exists` is what the caller's look at the disk gave: a
/// folder that does not exist is not found, and nothing is changed, not
/// even cleared. Otherwise the folder's records and snapshot are dropped,
/// each record is upserted in order, and the folder is remembered as the
/// last one selected. The first record that the catalog refuses ends the
/// command; what was stored before it stays.
pub fn index_folder(db: &mut Database, root: &str, root_exists: bool, files: &Vec<FileMeta>) -> (r:
    Result<IndexResult, CommandError>)
    requires
        old(db).wf(),
    ensures
        final(db).wf(),
        !root_exists ==> r == Err::<IndexResult, CommandError>(CommandError::FolderNotFound)
            && final(db)@ == old(db)@,
        root_exists ==> final(db)@.snapshots == old(db)@.snapshots.remove(root@),
        root_exists ==> match r {
            Ok(result) => {
                &&& accepts_first(
                    outside_folder(old(db)@.files, root@),
                    views(files@),
                    root@,
                    files.len() as nat,
                )
                &&& final(db)@.files == upsert_first(
                    outside_folder(old(db)@.files, root@),
                    views(files@),
                    root@,
                    files.len() as nat,
                )
                &&& final(db)@.settings == old(db)@.settings.insert(last_folder_key(), root@)
                &&& result.total_files == files.len()
                &&& result.indexed_files == files.len()
                &&& result.skipped_files == 0
                &&& result.errors@.len() == 0
            },
            Err(e) => {
                &&& e == CommandError::Catalog(CatalogError::DuplicateId)
                &&& final(db)@.settings == old(db)@.settings
                &&& exists|n: nat|
                    n < files.len() && accepts_first(
                        outside_folder(old(db)@.files, root@),
                        views(files@),
                        root@,
                        n,
                    ) && upsert_refused(
                        #[trigger] upsert_first(
                            outside_folder(old(db)@.files, root@),
                            views(files@),
                            root@,
                            n,
                        ),
                        views(files@)[n as int],
                    ) && final(db)@.files == upsert_first(
                        outside_folder(old(db)@.files, root@),
                        views(files@),
                        root@,
                        n,
                    )
            },
        },
{
    if !root_exists {
        return Err(CommandError::FolderNotFound);
    }
    db.clear_folder(root);
    let ghost base = db@.files;
    let ghost list = views(files@);
    let mut i: usize = 0;
    while i < files.len()
        invariant
            i <= files.len(),
            root_exists,
            db.wf(),
            list == views(files@),
            base == outside_folder(old(db)@.files, root@),
            db@.snapshots == old(db)@.snapshots.remove(root@),
            db@.settings == old(db)@.settings,
            db@.files == upsert_first(base, list, root@, i as nat),
            accepts_first(base, list, root@, i as nat),
        decreases files.len() - i,
    {
        assert(list[i as int] == files@[i as int]@);
        match db.add_file(&files[i], root) {
            Ok(()) => {},
            Err(e) => {
                return Err(CommandError::Catalog(e));
            },
        }
        i = i + 1;
    }
    db.set_setting("last_selected_folder", root);
    Ok(
        IndexResult {
            total_files: files.len(),
            indexed_files: files.len(),
            skipped_files: 0,
            errors: Vec::new(),
        },
    )
}

/// Begins a synchronization run of `root`. `root_exists` is what the
/// caller's look at the disk gave: a folder that does not exist is not
/// found, before any scan and with nothing changed. Otherwise the run
/// stands at the snapshot check and asks for the first scan.
pub fn index_folder_streaming(
    db: &mut Database,
    root: String,
    root_exists: bool,
    fold_case: bool,
) -> (r: Result<(SyncRun, SyncOutput), CommandError>)
    requires
        old(db).wf(),
    ensures
        final(db).wf(),
        r is Err <==> !root_exists,
        r is Err ==> r->Err_0 == CommandError::FolderNotFound && final(db)@ == old(db)@,
        r is Ok ==> r->Ok_0.0.wf() && (StepView {
            run: r->Ok_0.0@,
            catalog: final(db)@,
            out: r->Ok_0.1@,
        }) == step_spec(fresh_run(root@, fold_case), old(db)@, EventView::Start),
{
    if !root_exists {
        return Err(CommandError::FolderNotFound);
    }
    let mut run = SyncRun::new(root, fold_case);
    let out = run.step(db, SyncEvent::Start);
    Ok((run, out))
}

/// The page of records that `get_files` answers with: of one folder if
/// one is named, of the whole catalog otherwise; most recently modified
/// first.
pub open spec fn listed(
    catalog: CatalogView,
    folder: Option<Seq<char>>,
    offset: int,
    limit: int,
) -> Seq<FileMetaView> {
    match folder {
        Some(f) => page(by_recency(records(in_folder(catalog.files, f))), offset, limit),
        None => page(by_recency(records(catalog.files)), offset, limit),
    }
}

/// One page of records, optionally of one folder.
pub fn get_files(db: &Database, folder_path: Option<String>, offset: usize, limit: usize) -> (r:
    Vec<FileMeta>)
    ensures
        views(r@) == listed(db@, opt_text(folder_path), offset as int, limit as int),
{
    match folder_path {
        Some(folder) => db.get_files_for_folder(folder.as_str(), offset, limit),
        None => db.get_files(offset, limit),
    }
}

/// Whether any record is indexed under `folder_path`.
pub fn is_folder_indexed(db: &Database, folder_path: &str) -> (r: bool)
    ensures
        r == folder_used(db@.files, folder_path@),
{
    let folders = db.get_indexed_folders();
    let mut i: usize = 0;
    while i < folders.len()
        invariant
            i <= folders.len(),
            texts(folders@).contains(folder_path@) <==> folder_used(db@.files, folder_path@),
            forall|k: int| 0 <= k < i ==> (#[trigger] folders@[k])@ != folder_path@,
        decreases folders.len() - i,
    {
        if str_eq(folders[i].as_str(), folder_path) {
            assert(texts(folders@)[i as int] == folder_path@);
            assert(texts(folders@).contains(folder_path@));
            return true;
        }
        i = i + 1;
    }
    proof {
        if texts(folders@).contains(folder_path@) {
            let k = choose|k: int|
                0 <= k < texts(folders@).len() && texts(folders@)[k] == folder_path@;
            assert(folders@[k]@ == folder_path@);
        }
    }
    false
}

/// The indexed folders, each once, in natural order.
pub fn get_indexed_folders(db: &Database) -> (r: Vec<String>)
    ensures
        naturally_sorted(texts(r@)),
        forall|f: Seq<char>| texts(r@).contains(f) <==> folder_used(db@.files, f),
{
    db.get_indexed_folders()
}

/// The folder that was selected last, and the indexed folders.
pub fn get_library_state(db: &Database) -> (state: LibraryState)
    requires
        db.wf(),
    ensures
        state.last_selected_folder is Some <==> db@.settings.contains_key(last_folder_key()),
        state.last_selected_folder is Some ==> state.last_selected_folder->0@
            == db@.settings[last_folder_key()],
        naturally_sorted(texts(state.indexed_folders@)),
        forall|f: Seq<char>|
            texts(state.indexed_folders@).contains(f) <==> folder_used(db@.files, f),
{
    LibraryState {
        last_selected_folder: db.get_setting("last_selected_folder"),
        indexed_folders: db.get_indexed_folders(),
    }
}

/// The settings after the last selected folder was updated: a named
/// folder is remembered, no folder changes nothing.
pub open spec fn with_last_folder(
    settings: Map<Seq<char>, Seq<char>>,
    folder: Option<Seq<char>>,
) -> Map<Seq<char>, Seq<char>> {
    match folder {
        Some(f) => settings.insert(last_folder_key(), f),
        None => settings,
    }
}

/// Remembers `folder` as the last one selected, if one is given.
pub fn update_last_selected_folder(db: &mut Database, folder: Option<String>)
    requires
        old(db).wf(),
    ensures
        final(db).wf(),
        final(db)@.files == old(db)@.files,
        final(db)@.snapshots == old(db)@.snapshots,
        final(db)@.settings == with_last_folder(old(db)@.settings, opt_text(folder)),
{
    match folder {
        Some(f) => {
            db.set_setting("last_selected_folder", f.as_str());
        },
        None => {},
    }
}

/// Resolves a request for the thumbnail of the file `file_id` at `size`:
/// the source path from the catalog and the name of the cache file.
pub fn get_thumbnail(db: &Database, file_id: &str, size: u32) -> (r: Result<
    ThumbnailRequest,
    CommandError,
>)
    requires
        db.wf(),
    ensures
        r is Ok <==> has_id(db@.files, file_id@),
        r is Err ==> r->Err_0 == CommandError::FileNotFound,
        r is Ok ==> {
            let path = db@.files[id_index(db@.files, file_id@)].file.path;
            r->Ok_0.source_path@ == path && r->Ok_0.cache_name@ == thumbnail_name(path, size)
        },
{
    match db.get_file(file_id) {
        Some(file) => {
            let cache_name = thumbnail_file_name(file.path.as_str(), size);
            Ok(ThumbnailRequest { source_path: file.path, cache_name })
        },
        None => Err(CommandError::FileNotFound),
    }
}

/// What a search answers: nothing for a missing or empty query, else the
/// first `SEARCH_LIMIT` matching records in catalog order.
pub open spec fn search_result(catalog: CatalogView, query: Option<Seq<char>>) -> Seq<
    FileMetaView,
> {
    match query {
        Some(q) => if q.len() == 0 {
            Seq::empty()
        } else {
            page(matching(catalog.files, q), 0, SEARCH_LIMIT as int)
        },
        None => Seq::empty(),
    }
}

/// Searches names and paths for the query, ASCII letter case ignored.
pub fn search_files(db: &Database, query: SearchQuery) -> (r: Vec<FileMeta>)
    ensures
        views(r@) == search_result(db@, opt_text(query.query)),
{
    match query.query {
        Some(q) => {
            if q.as_str().unicode_len() == 0 {
                let r: Vec<FileMeta> = Vec::new();
                assert(views(r@) =~= Seq::<FileMetaView>::empty());
                r
            } else {
                db.search(q.as_str(), SEARCH_LIMIT)
            }
        },
        None => {
            let r: Vec<FileMeta> = Vec::new();
            assert(views(r@) =~= Seq::<FileMetaView>::empty());
            r
        },
    }
}

/// Clears the catalog entirely. The caller removes the thumbnail cache.
pub fn reset_library(db: &mut Database)
    ensures
        final(db).wf(),
        final(db)@.files == Seq::<EntryView>::empty(),
        final(db)@.snapshots == Map::<Seq<char>, FolderSnapshot>::empty(),
        final(db)@.settings == Map::<Seq<char>, Seq<char>>::empty(),
{
    db.clear_library()
}

/// The paths of a list of entries.
pub open spec fn paths_of(files: Seq<EntryView>) -> Seq<Seq<char>> {
    Seq::new(files.len(), |i: int| files[i].file.path)
}

/// Clears one folder: its records and its snapshot leave the catalog.
/// Returns the cache files of the records that left, for the caller to
/// delete.
pub fn reset_folder(db: &mut Database, folder_path: &str) -> (names: Vec<String>)
    requires
        old(db).wf(),
    ensures
        final(db).wf(),
        final(db)@.files == outside_folder(old(db)@.files, folder_path@),
        final(db)@.snapshots == old(db)@.snapshots.remove(folder_path@),
        final(db)@.settings == old(db)@.settings,
        texts(names@) == thumbnail_names(
            paths_of(in_folder(old(db)@.files, folder_path@)),
            DEFAULT_THUMBNAIL_SIZE,
        ),
{
    let pairs = db.get_all_file_paths_in_folder(folder_path);
    let ghost here = in_folder(db@.files, folder_path@);
    let mut paths: Vec<String> = Vec::new();
    let mut i: usize = 0;
    assert(pair_texts(pairs@).len() == id_path_pairs(here).len());
    while i < pairs.len()
        invariant
            i <= pairs.len(),
            pairs.len() == here.len(),
            pair_texts(pairs@) == id_path_pairs(here),
            paths.len() == i,
            forall|k: int| 0 <= k < i ==> (#[trigger] paths@[k])@ == here[k].file.path,
        decreases pairs.len() - i,
    {
        assert(pair_texts(pairs@)[i as int].1 == pairs@[i as int].1@);
        assert(id_path_pairs(here)[i as int].1 == here[i as int].file.path);
        paths.push(pairs[i].1.clone());
        i = i + 1;
    }
    assert(texts(paths@) =~= paths_of(here));
    db.clear_folder(folder_path);
    remove_thumbnails_for_paths(&paths, DEFAULT_THUMBNAIL_SIZE)
}

/// Registers `folder_path` as watched and returns whether it was not
/// watched before; a second request for a watched folder changes nothing.
/// Whoever starts the watcher looks with `WatchRegistry::is_watching`
/// first and registers the folder once its watcher runs, so that a start
/// that failed leaves the folder unwatched.
pub fn watch_folder(registry: &mut WatchRegistry, folder_path: &str) -> (started: bool)
    requires
        old(registry).wf(),
    ensures
        final(registry).wf(),
        started == !old(registry).watched().contains(folder_path@),
        final(registry).watched() == old(registry).watched().insert(folder_path@),
{
    registry.subscribe(folder_path)
}

} // verus!
