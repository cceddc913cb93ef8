//! The synchronization engine: one run of the state machine that
//! `crate::sync_model` defines, over the catalog store.
//!
//! The caller starts a run, performs the action that each step asks for
//! (a scan, deep processing, a thumbnail, making the catalog durable) and
//! hands the outcome back as the next event.

use crate::catalog::{lemma_upsert, stored_form, CatalogView};
use crate::database::Database;
use crate::indexer::{
    compute_folder_snapshot, shallow_views, FileError, ShallowMeta, ShallowView,
};
use crate::models::{opt_text, texts, views, FileMeta, FileMetaView, FolderSnapshot};
use crate::sync_laws::lemma_changed_len;
use crate::sync_model::{
    changed, checked_message, continue_reconciling, continue_thumbnails, doomed_thumbnails,
    fresh_run, known_unchanged, next_bare, norm_key, on_diff_scan, on_processed, on_snapshot_scan,
    on_thumbnail, plain, progress_after, remove_all, same_file, scan_has, step_spec, summary_of,
    vanished, ActionView, EventView, OutputView, RunView, StepView, SyncPhase, SyncSummary,
    BATCH_SIZE, PROGRESS_INTERVAL,
};
use crate::text::{decimal_string, str_eq, to_lowercase};
use crate::thumbnail::{
    thumbnail_file_name, thumbnail_name, ThumbnailFailure, DEFAULT_THUMBNAIL_SIZE,
};
use vstd::prelude::*;
use vstd::string::*;

verus! {

/// What may happen to a run.
#[derive(Debug)]
pub enum SyncEvent {
    /// The caller asks the run to begin.
    Start,
    /// The shallow scan that was asked for.
    Scanned(Vec<ShallowMeta>),
    /// Outside work failed in a way that ends the run.
    Failed,
    /// The outside work that was asked for is done.
    Done,
    /// How deep processing of the file asked for ended: with its record,
    /// with nothing, or with a failure.
    Processed(Result<Option<FileMeta>, FileError>),
    /// How ensuring the thumbnail asked for ended: with its cache path, or
    /// with a failure.
    Thumbnail(Result<String, ThumbnailFailure>),
}

impl View for SyncEvent {
    type V = EventView;

    open spec fn view(&self) -> EventView {
        match *self {
            SyncEvent::Start => EventView::Start,
            SyncEvent::Scanned(scan) => EventView::Scanned(shallow_views(scan@)),
            SyncEvent::Failed => EventView::Failed,
            SyncEvent::Done => EventView::Done,
            SyncEvent::Processed(outcome) => EventView::Processed(
                match outcome {
                    Ok(Some(f)) => Ok(Some(f@)),
                    Ok(None) => Ok(None),
                    Err(e) => Err(e),
                },
            ),
            SyncEvent::Thumbnail(outcome) => EventView::Thumbnail(
                match outcome {
                    Ok(path) => Ok(path@),
                    Err(e) => Err(e),
                },
            ),
        }
    }
}

/// What the caller is to do next.
#[derive(Debug)]
pub enum SyncAction {
    /// Run the shallow scanner on the folder.
    Scan,
    /// Delete these cache files, as far as that succeeds.
    InvalidateThumbnails(Vec<String>),
    /// Run the deep processor on this path.
    Process(String),
    /// Ensure the thumbnail of this path at this size.
    EnsureThumbnail(String, u32),
    /// Make the catalog durable.
    Persist,
    /// The run is over; these are its totals.
    Finish(SyncSummary),
    /// The run is over; it failed.
    Fail,
    /// The event does not fit the phase; nothing changed.
    Rejected,
}

impl View for SyncAction {
    type V = ActionView;

    open spec fn view(&self) -> ActionView {
        match *self {
            SyncAction::Scan => ActionView::Scan,
            SyncAction::InvalidateThumbnails(names) => ActionView::InvalidateThumbnails(
                texts(names@),
            ),
            SyncAction::Process(path) => ActionView::Process(path@),
            SyncAction::EnsureThumbnail(path, size) => ActionView::EnsureThumbnail(path@, size),
            SyncAction::Persist => ActionView::Persist,
            SyncAction::Finish(summary) => ActionView::Finish(summary),
            SyncAction::Fail => ActionView::Fail,
            SyncAction::Rejected => ActionView::Rejected,
        }
    }
}

/// The answer to an event.
#[derive(Debug)]
pub struct SyncOutput {
    pub action: SyncAction,
    /// A progress message for the user, if one is due.
    pub progress: Option<String>,
    /// Changed records to show, if a batch is due.
    pub batch: Vec<FileMeta>,
}

impl View for SyncOutput {
    type V = OutputView;

    open spec fn view(&self) -> OutputView {
        OutputView {
            action: self.action@,
            progress: opt_text(self.progress),
            batch: views(self.batch@),
        }
    }
}

/// One synchronization run of one folder.
#[derive(Debug)]
pub struct SyncRun {
    phase: SyncPhase,
    folder: String,
    fold_case: bool,
    snapshot: FolderSnapshot,
    scanned: usize,
    candidates: Vec<ShallowMeta>,
    cursor: usize,
    upserted: Vec<FileMeta>,
    emitted: usize,
    deleted: usize,
    invalidating: bool,
}

impl View for SyncRun {
    type V = RunView;

    closed spec fn view(&self) -> RunView {
        RunView {
            phase: self.phase,
            folder: self.folder@,
            fold_case: self.fold_case,
            snapshot: self.snapshot,
            scanned: self.scanned as nat,
            candidates: shallow_views(self.candidates@),
            cursor: self.cursor as nat,
            upserted: views(self.upserted@),
            emitted: self.emitted as nat,
            deleted: self.deleted as nat,
            invalidating: self.invalidating,
        }
    }
}

/// What holds of a run between steps.
pub open spec fn run_wf(run: RunView) -> bool {
    &&& run.candidates.len() <= run.scanned
    &&& run.upserted.len() <= run.candidates.len()
    &&& run.phase == SyncPhase::Reconciling ==> run.upserted.len() <= run.cursor
        <= run.candidates.len()
    &&& run.phase == SyncPhase::ThumbnailPass ==> run.emitted <= run.cursor < run.upserted.len()
}

fn normalized(fold_case: bool, path: &str) -> (key: String)
    ensures
        key@ == norm_key(fold_case, path@),
{
    if fold_case {
        to_lowercase(path)
    } else {
        String::from_str(path)
    }
}

fn checked_text(n: usize) -> (text: String)
    ensures
        text@ == checked_message(n as nat),
{
    let mut text = String::from_str("Checked ");
    text.append(decimal_string(n as u64).as_str());
    text.append(" files...");
    text
}

fn progress_text(n: usize) -> (text: Option<String>)
    ensures
        opt_text(text) == progress_after(n as nat),
{
    if n % PROGRESS_INTERVAL == 0 {
        Some(checked_text(n))
    } else {
        None
    }
}

/// The keys of the scan's paths.
fn scan_keys(scan: &Vec<ShallowMeta>, fold_case: bool) -> (keys: Vec<String>)
    ensures
        keys.len() == scan.len(),
        forall|i: int|
            0 <= i < scan.len() ==> (#[trigger] keys@[i])@ == norm_key(
                fold_case,
                scan@[i].path@,
            ),
{
    let mut keys: Vec<String> = Vec::new();
    let mut i: usize = 0;
    while i < scan.len()
        invariant
            i <= scan.len(),
            keys.len() == i,
            forall|k: int|
                0 <= k < i ==> (#[trigger] keys@[k])@ == norm_key(fold_case, scan@[k].path@),
        decreases scan.len() - i,
    {
        keys.push(normalized(fold_case, scan[i].path.as_str()));
        i = i + 1;
    }
    keys
}

/// The keys of the records' paths.
fn record_keys(list: &Vec<FileMeta>, fold_case: bool) -> (keys: Vec<String>)
    ensures
        keys.len() == list.len(),
        forall|i: int|
            0 <= i < list.len() ==> (#[trigger] keys@[i])@ == norm_key(
                fold_case,
                list@[i].path@,
            ),
{
    let mut keys: Vec<String> = Vec::new();
    let mut i: usize = 0;
    while i < list.len()
        invariant
            i <= list.len(),
            keys.len() == i,
            forall|k: int|
                0 <= k < i ==> (#[trigger] keys@[k])@ == norm_key(fold_case, list@[k].path@),
        decreases list.len() - i,
    {
        keys.push(normalized(fold_case, list[i].path.as_str()));
        i = i + 1;
    }
    keys
}

fn key_listed(keys: &Vec<String>, key: &str) -> (r: bool)
    ensures
        r == exists|i: int| 0 <= i < keys.len() && (#[trigger] keys@[i])@ == key@,
{
    let mut i: usize = 0;
    while i < keys.len()
        invariant
            i <= keys.len(),
            forall|k: int| 0 <= k < i ==> (#[trigger] keys@[k])@ != key@,
        decreases keys.len() - i,
    {
        if str_eq(keys[i].as_str(), key) {
            return true;
        }
        i = i + 1;
    }
    false
}

/// The records of `existing` whose path the scan no longer lists.
fn find_vanished(existing: &Vec<FileMeta>, scan: &Vec<ShallowMeta>, fold_case: bool) -> (doomed:
    Vec<FileMeta>)
    ensures
        views(doomed@) == vanished(views(existing@), shallow_views(scan@), fold_case),
{
    let ghost all = views(existing@);
    let ghost listed = shallow_views(scan@);
    let keys = scan_keys(scan, fold_case);
    let mut doomed: Vec<FileMeta> = Vec::new();
    let mut j: usize = 0;
    assert(all.take(0) =~= Seq::<FileMetaView>::empty());
    while j < existing.len()
        invariant
            j <= existing.len(),
            all == views(existing@),
            listed == shallow_views(scan@),
            keys.len() == scan.len(),
            forall|i: int|
                0 <= i < scan.len() ==> (#[trigger] keys@[i])@ == norm_key(
                    fold_case,
                    scan@[i].path@,
                ),
            doomed.len() == vanished(all.take(j as int), listed, fold_case).len(),
            forall|k: int|
                0 <= k < doomed.len() ==> (#[trigger] doomed@[k])@ == vanished(
                    all.take(j as int),
                    listed,
                    fold_case,
                )[k],
        decreases existing.len() - j,
    {
        assert(all.take(j + 1).drop_last() =~= all.take(j as int));
        assert(all.take(j + 1).last() == existing@[j as int]@);
        let key = normalized(fold_case, existing[j].path.as_str());
        let found = key_listed(&keys, key.as_str());
        proof {
            let path = existing@[j as int]@.path;
            if found {
                let i = choose|i: int| 0 <= i < keys.len() && (#[trigger] keys@[i])@ == key@;
                assert(norm_key(fold_case, listed[i].path) == norm_key(fold_case, path));
            }
            if scan_has(listed, fold_case, path) {
                let i = choose|i: int|
                    0 <= i < listed.len() && norm_key(fold_case, (#[trigger] listed[i]).path)
                        == norm_key(fold_case, path);
                assert(keys@[i]@ == key@);
            }
            assert(found == scan_has(listed, fold_case, path));
        }
        if !found {
            doomed.push(existing[j].duplicate());
        }
        j = j + 1;
    }
    assert(all.take(all.len() as int) =~= all);
    assert(views(doomed@) =~= vanished(all, listed, fold_case));
    doomed
}

/// Whether some record of `existing` is the file `s` as the scan found
/// it.
fn is_known_unchanged(
    existing: &Vec<FileMeta>,
    keys: &Vec<String>,
    fold_case: bool,
    s: &ShallowMeta,
) -> (r: bool)
    requires
        keys.len() == existing.len(),
        forall|i: int|
            0 <= i < existing.len() ==> (#[trigger] keys@[i])@ == norm_key(
                fold_case,
                existing@[i].path@,
            ),
    ensures
        r == known_unchanged(views(existing@), fold_case, s@),
{
    let key = normalized(fold_case, s.path.as_str());
    let ghost all = views(existing@);
    let mut j: usize = 0;
    while j < existing.len()
        invariant
            j <= existing.len(),
            all == views(existing@),
            keys.len() == existing.len(),
            key@ == norm_key(fold_case, s@.path),
            forall|i: int|
                0 <= i < existing.len() ==> (#[trigger] keys@[i])@ == norm_key(
                    fold_case,
                    existing@[i].path@,
                ),
            forall|k: int| 0 <= k < j ==> !same_file(fold_case, #[trigger] all[k], s@),
        decreases existing.len() - j,
    {
        assert(all[j as int] == existing@[j as int]@);
        if str_eq(keys[j].as_str(), key.as_str()) && existing[j].size == s.size
            && existing[j].modified_sec == s.modified_sec {
            assert(same_file(fold_case, all[j as int], s@));
            return true;
        }
        j = j + 1;
    }
    false
}

/// The files of the scan that are new or changed.
fn find_changed(existing: &Vec<FileMeta>, scan: Vec<ShallowMeta>, fold_case: bool) -> (candidates:
    Vec<ShallowMeta>)
    ensures
        shallow_views(candidates@) == changed(views(existing@), shallow_views(scan@), fold_case),
{
    let ghost listed = shallow_views(scan@);
    let ghost all = views(existing@);
    let keys = record_keys(existing, fold_case);
    let mut candidates: Vec<ShallowMeta> = Vec::new();
    assert(listed.take(0) =~= Seq::<ShallowView>::empty());
    for s in it: scan
        invariant
            shallow_views(it.seq()) == listed,
            all == views(existing@),
            keys.len() == existing.len(),
            forall|i: int|
                0 <= i < existing.len() ==> (#[trigger] keys@[i])@ == norm_key(
                    fold_case,
                    existing@[i].path@,
                ),
            candidates.len() == changed(all, listed.take(it.index() as int), fold_case).len(),
            forall|k: int|
                0 <= k < candidates.len() ==> (#[trigger] candidates@[k])@ == changed(
                    all,
                    listed.take(it.index() as int),
                    fold_case,
                )[k],
    {
        assert(listed.take(it.index() + 1).drop_last() =~= listed.take(it.index() as int));
        assert(listed.take(it.index() + 1).last() == s@);
        if !is_known_unchanged(existing, &keys, fold_case, &s) {
            candidates.push(s);
        }
    }
    assert(listed.take(listed.len() as int) =~= listed);
    assert(shallow_views(candidates@) =~= changed(all, listed, fold_case));
    candidates
}

/// Copies of `list[from..to]`.
fn copy_range(list: &Vec<FileMeta>, from: usize, to: usize) -> (r: Vec<FileMeta>)
    requires
        from <= to <= list.len(),
    ensures
        views(r@) == views(list@).subrange(from as int, to as int),
{
    let mut r: Vec<FileMeta> = Vec::new();
    let mut i: usize = from;
    while i < to
        invariant
            from <= i <= to <= list.len(),
            r.len() == i - from,
            forall|k: int| 0 <= k < r.len() ==> (#[trigger] r@[k])@ == list@[from + k]@,
        decreases to - i,
    {
        r.push(list[i].duplicate());
        i = i + 1;
    }
    assert(views(r@) =~= views(list@).subrange(from as int, to as int));
    r
}

impl SyncRun {
    /// What holds of a run between steps.
    pub open spec fn wf(&self) -> bool {
        run_wf(self@)
    }

    /// A run of `folder` that has not started. With `fold_case`, paths
    /// are compared in lower case.
    pub fn new(folder: String, fold_case: bool) -> (run: SyncRun)
        ensures
            run.wf(),
            run@ == fresh_run(folder@, fold_case),
    {
        let run = SyncRun {
            phase: SyncPhase::Idle,
            folder,
            fold_case,
            snapshot: FolderSnapshot { file_count: 0, agg_mtime: 0 },
            scanned: 0,
            candidates: Vec::new(),
            cursor: 0,
            upserted: Vec::new(),
            emitted: 0,
            deleted: 0,
            invalidating: false,
        };
        assert(run@.candidates =~= Seq::<ShallowView>::empty());
        assert(run@.upserted =~= Seq::<FileMetaView>::empty());
        run
    }

    /// Where the run stands.
    pub fn phase(&self) -> (phase: SyncPhase)
        ensures
            phase == self@.phase,
    {
        self.phase
    }

    /// The folder that the run synchronizes.
    pub fn folder(&self) -> (folder: &String)
        ensures
            folder@ == self@.folder,
    {
        &self.folder
    }

    fn summary(&self) -> (s: SyncSummary)
        requires
            self.wf(),
        ensures
            s == summary_of(self@),
    {
        SyncSummary {
            total: self.scanned,
            upserted: self.upserted.len(),
            deleted: self.deleted,
            unchanged: self.scanned - self.candidates.len(),
        }
    }

    fn go_on_with_thumbnails(&mut self, db: &mut Database, progress: Option<String>) -> (out:
        SyncOutput)
        requires
            old(db).wf(),
            old(self)@.emitted <= old(self)@.cursor <= old(self)@.upserted.len(),
            old(self)@.upserted.len() <= old(self)@.candidates.len() <= old(self)@.scanned,
        ensures
            final(db).wf(),
            final(self).wf(),
            (StepView { run: final(self)@, catalog: final(db)@, out: out@ }) == continue_thumbnails(
                old(self)@,
                old(db)@,
                opt_text(progress),
            ),
    {
        let ghost run0 = self@;
        let ghost cat0 = db@;
        let mut at: usize = self.cursor;
        while at < self.upserted.len() && self.upserted[at].thumbnail_path.is_some()
            invariant
                self.cursor <= at <= self.upserted.len(),
                self@ == run0,
                next_bare(run0.upserted, run0.cursor) == next_bare(run0.upserted, at as nat),
            decreases self.upserted.len() - at,
        {
            assert(run0.upserted[at as int] == self.upserted@[at as int]@);
            at = at + 1;
        }
        proof {
            if at < self.upserted.len() {
                assert(run0.upserted[at as int] == self.upserted@[at as int]@);
            }
            assert(next_bare(run0.upserted, run0.cursor) == at);
        }
        if at < self.upserted.len() {
            let due = at - self.emitted >= BATCH_SIZE;
            let batch = if due {
                copy_range(&self.upserted, self.emitted, at)
            } else {
                Vec::new()
            };
            let path = self.upserted[at].path.clone();
            self.phase = SyncPhase::ThumbnailPass;
            self.cursor = at;
            if due {
                self.emitted = at;
            }
            let out = SyncOutput {
                action: SyncAction::EnsureThumbnail(path, DEFAULT_THUMBNAIL_SIZE),
                progress,
                batch,
            };
            proof {
                let want = continue_thumbnails(run0, cat0, opt_text(progress));
                assert(self@ =~= want.run);
                assert(out@ =~= want.out);
            }
            out
        } else {
            let batch = copy_range(&self.upserted, self.emitted, at);
            db.save_snapshot(
                self.folder.as_str(),
                self.snapshot.file_count,
                self.snapshot.agg_mtime,
            );
            db.set_setting("last_selected_folder", self.folder.as_str());
            self.phase = SyncPhase::Persisting;
            self.cursor = at;
            self.emitted = at;
            let out = SyncOutput { action: SyncAction::Persist, progress, batch };
            proof {
                let want = continue_thumbnails(run0, cat0, opt_text(progress));
                assert(self@ =~= want.run);
                assert(out@ =~= want.out);
                assert(db@ =~= want.catalog);
            }
            out
        }
    }

    fn go_on_reconciling(&mut self, db: &mut Database, progress: Option<String>) -> (out:
        SyncOutput)
        requires
            old(db).wf(),
            old(self)@.upserted.len() <= old(self)@.cursor <= old(self)@.candidates.len(),
            old(self)@.candidates.len() <= old(self)@.scanned,
        ensures
            final(db).wf(),
            final(self).wf(),
            (StepView { run: final(self)@, catalog: final(db)@, out: out@ })
                == continue_reconciling(old(self)@, old(db)@, opt_text(progress)),
    {
        let ghost run0 = self@;
        let ghost cat0 = db@;
        if self.cursor < self.candidates.len() {
            let path = self.candidates[self.cursor].path.clone();
            self.phase = SyncPhase::Reconciling;
            let out = SyncOutput { action: SyncAction::Process(path), progress, batch: Vec::new() };
            proof {
                let want = continue_reconciling(run0, cat0, opt_text(progress));
                assert(run0.candidates[run0.cursor as int]
                    == self.candidates@[self.cursor as int]@);
                assert(self@ =~= want.run);
                assert(out@ =~= want.out);
            }
            out
        } else {
            self.cursor = 0;
            self.emitted = 0;
            self.go_on_with_thumbnails(db, progress)
        }
    }

    fn rejected(&self) -> (out: SyncOutput)
        ensures
            out@ == plain(ActionView::Rejected),
    {
        let out = SyncOutput { action: SyncAction::Rejected, progress: None, batch: Vec::new() };
        assert(out@ =~= plain(ActionView::Rejected));
        out
    }

    fn fail(&mut self) -> (out: SyncOutput)
        requires
            old(self).wf(),
        ensures
            final(self).wf(),
            final(self)@ == (RunView { phase: SyncPhase::Failed, ..old(self)@ }),
            out@ == plain(ActionView::Fail),
    {
        self.phase = SyncPhase::Failed;
        let out = SyncOutput { action: SyncAction::Fail, progress: None, batch: Vec::new() };
        assert(out@ =~= plain(ActionView::Fail));
        out
    }

    fn snapshot_scanned(&mut self, db: &Database, scan: Vec<ShallowMeta>) -> (out: SyncOutput)
        requires
            old(self).wf(),
            db.wf(),
        ensures
            final(self).wf(),
            (StepView { run: final(self)@, catalog: db@, out: out@ }) == on_snapshot_scan(
                old(self)@,
                db@,
                shallow_views(scan@),
            ),
    {
        let ghost run0 = self@;
        let snapshot = compute_folder_snapshot(&scan);
        let unchanged = match db.get_snapshot(self.folder.as_str()) {
            Some((count, agg)) => count == snapshot.file_count && agg == snapshot.agg_mtime,
            None => false,
        };
        self.snapshot = snapshot;
        if unchanged {
            self.phase = SyncPhase::ShortCircuit;
            self.scanned = scan.len();
            self.candidates = Vec::new();
            self.upserted = Vec::new();
            let out = SyncOutput {
                action: SyncAction::Finish(
                    SyncSummary {
                        total: scan.len(),
                        upserted: 0,
                        deleted: 0,
                        unchanged: scan.len(),
                    },
                ),
                progress: None,
                batch: Vec::new(),
            };
            proof {
                let want = on_snapshot_scan(run0, db@, shallow_views(scan@));
                assert(self@ =~= want.run);
                assert(out@ =~= want.out);
            }
            out
        } else {
            self.phase = SyncPhase::Diffing;
            let out = SyncOutput {
                action: SyncAction::Scan,
                progress: Some(String::from_str("Scanning for image files...")),
                batch: Vec::new(),
            };
            proof {
                let want = on_snapshot_scan(run0, db@, shallow_views(scan@));
                assert(self@ =~= want.run);
                assert(out@ =~= want.out);
            }
            out
        }
    }

    fn diff_scanned(&mut self, db: &mut Database, scan: Vec<ShallowMeta>) -> (out: SyncOutput)
        requires
            old(self).wf(),
            old(db).wf(),
        ensures
            final(self).wf(),
            final(db).wf(),
            (StepView { run: final(self)@, catalog: final(db)@, out: out@ }) == on_diff_scan(
                old(self)@,
                old(db)@,
                shallow_views(scan@),
            ),
    {
        let ghost run0 = self@;
        let ghost cat0 = db@;
        let ghost listed = shallow_views(scan@);
        let existing = db.files_in_folder(self.folder.as_str());
        let doomed = find_vanished(&existing, &scan, self.fold_case);
        let ghost gone = views(doomed@);
        let scanned = scan.len();
        let candidates = find_changed(&existing, scan, self.fold_case);
        proof {
            lemma_changed_len(views(existing@), listed, self.fold_case);
        }
        let mut names: Vec<String> = Vec::new();
        let mut i: usize = 0;
        assert(gone.take(0) =~= Seq::<FileMetaView>::empty());
        while i < doomed.len()
            invariant
                i <= doomed.len(),
                gone == views(doomed@),
                db.wf(),
                db@.snapshots == cat0.snapshots,
                db@.settings == cat0.settings,
                db@.files == remove_all(cat0.files, gone.take(i as int)),
                names.len() == i,
                forall|k: int|
                    0 <= k < i ==> (#[trigger] names@[k])@ == thumbnail_name(
                        gone[k].path,
                        DEFAULT_THUMBNAIL_SIZE,
                    ),
            decreases doomed.len() - i,
        {
            assert(gone.take(i + 1).drop_last() =~= gone.take(i as int));
            assert(gone.take(i + 1).last() == doomed@[i as int]@);
            db.remove_file(doomed[i].id.as_str());
            names.push(thumbnail_file_name(doomed[i].path.as_str(), DEFAULT_THUMBNAIL_SIZE));
            i = i + 1;
        }
        assert(gone.take(gone.len() as int) =~= gone);
        assert(texts(names@) =~= doomed_thumbnails(gone));
        self.phase = SyncPhase::Reconciling;
        self.scanned = scanned;
        self.candidates = candidates;
        self.cursor = 0;
        self.upserted = Vec::new();
        self.emitted = 0;
        self.deleted = doomed.len();
        self.invalidating = false;
        proof {
            assert(self@.upserted =~= Seq::<FileMetaView>::empty());
        }
        if doomed.len() > 0 {
            self.invalidating = true;
            let out = SyncOutput {
                action: SyncAction::InvalidateThumbnails(names),
                progress: None,
                batch: Vec::new(),
            };
            proof {
                let want = on_diff_scan(run0, cat0, listed);
                assert(self@ =~= want.run);
                assert(db@ =~= want.catalog);
                assert(out@ =~= want.out);
            }
            out
        } else {
            proof {
                assert(db@ =~= (CatalogView {
                    files: remove_all(cat0.files, gone),
                    ..cat0
                }));
            }
            self.go_on_reconciling(db, None)
        }
    }

    fn processed(&mut self, db: &mut Database, file: Option<FileMeta>) -> (out: SyncOutput)
        requires
            old(self).wf(),
            old(db).wf(),
            old(self)@.phase == SyncPhase::Reconciling,
            old(self)@.cursor < old(self)@.candidates.len(),
        ensures
            final(self).wf(),
            final(db).wf(),
            (StepView { run: final(self)@, catalog: final(db)@, out: out@ }) == on_processed(
                old(self)@,
                old(db)@,
                match file {
                    Some(f) => Some(f@),
                    None => None,
                },
            ),
    {
        let ghost run0 = self@;
        let ghost cat0 = db@;
        proof {
            db.lemma_wf();
        }
        let progress = progress_text(self.cursor + 1);
        match file {
            None => {
                self.cursor = self.cursor + 1;
                self.go_on_reconciling(db, progress)
            },
            Some(f) => {
                match db.add_file(&f, self.folder.as_str()) {
                    Err(_) => self.fail(),
                    Ok(()) => {
                        let stored = match db.get_file_by_path(f.path.as_str()) {
                            Some(s) => s,
                            None => f,
                        };
                        proof {
                            lemma_upsert(cat0.files, f@, run0.folder);
                            assert(stored@ == stored_form(cat0.files, f@));
                        }
                        self.upserted.push(stored);
                        self.cursor = self.cursor + 1;
                        proof {
                            assert(self@.upserted =~= run0.upserted.push(
                                stored_form(cat0.files, f@),
                            ));
                        }
                        self.go_on_reconciling(db, progress)
                    },
                }
            },
        }
    }

    fn thumbnail_made(&mut self, db: &mut Database, path: Option<String>) -> (out: SyncOutput)
        requires
            old(self).wf(),
            old(db).wf(),
            old(self)@.phase == SyncPhase::ThumbnailPass,
        ensures
            final(self).wf(),
            final(db).wf(),
            (StepView { run: final(self)@, catalog: final(db)@, out: out@ }) == on_thumbnail(
                old(self)@,
                old(db)@,
                opt_text(path),
            ),
    {
        let ghost run0 = self@;
        let ghost cat0 = db@;
        proof {
            db.lemma_wf();
        }
        match path {
            None => {
                self.cursor = self.cursor + 1;
                self.go_on_with_thumbnails(db, None)
            },
            Some(p) => {
                let mut record = self.upserted[self.cursor].duplicate();
                record.thumbnail_path = Some(p);
                proof {
                    assert(record@ =~= (FileMetaView {
                        thumbnail_path: Some(p@),
                        ..run0.upserted[run0.cursor as int]
                    }));
                }
                match db.add_file(&record, self.folder.as_str()) {
                    Err(_) => self.fail(),
                    Ok(()) => {
                        let stored = match db.get_file_by_path(record.path.as_str()) {
                            Some(s) => s,
                            None => record,
                        };
                        proof {
                            lemma_upsert(cat0.files, record@, run0.folder);
                        }
                        self.upserted.set(self.cursor, stored);
                        self.cursor = self.cursor + 1;
                        proof {
                            assert(self@.upserted =~= run0.upserted.update(
                                run0.cursor as int,
                                stored_form(cat0.files, record@),
                            ));
                        }
                        self.go_on_with_thumbnails(db, None)
                    },
                }
            },
        }
    }

    /// Answers `event`: changes the run and the catalog as the transition
    /// function says, and returns the next action with the message and
    /// the records that are due.
    pub fn step(&mut self, db: &mut Database, event: SyncEvent) -> (out: SyncOutput)
        requires
            old(self).wf(),
            old(db).wf(),
        ensures
            final(self).wf(),
            final(db).wf(),
            (StepView { run: final(self)@, catalog: final(db)@, out: out@ }) == step_spec(
                old(self)@,
                old(db)@,
                event@,
            ),
    {
        match event {
            SyncEvent::Start => {
                if self.phase == SyncPhase::Idle {
                    self.phase = SyncPhase::SnapshotCheck;
                    let out = SyncOutput {
                        action: SyncAction::Scan,
                        progress: Some(String::from_str("Checking folder snapshot...")),
                        batch: Vec::new(),
                    };
                    proof {
                        let want = step_spec(old(self)@, old(db)@, event@);
                        assert(out@ =~= want.out);
                    }
                    out
                } else {
                    self.rejected()
                }
            },
            SyncEvent::Scanned(scan) => {
                if self.phase == SyncPhase::SnapshotCheck {
                    self.snapshot_scanned(db, scan)
                } else if self.phase == SyncPhase::Diffing {
                    self.diff_scanned(db, scan)
                } else {
                    self.rejected()
                }
            },
            SyncEvent::Failed => {
                if self.phase == SyncPhase::ShortCircuit || self.phase == SyncPhase::Completed
                    || self.phase == SyncPhase::Failed || self.phase == SyncPhase::Idle {
                    self.rejected()
                } else {
                    self.fail()
                }
            },
            SyncEvent::Done => {
                if self.phase == SyncPhase::Reconciling && self.invalidating {
                    self.invalidating = false;
                    self.go_on_reconciling(db, None)
                } else if self.phase == SyncPhase::Persisting {
                    let summary = self.summary();
                    self.phase = SyncPhase::Completed;
                    let out = SyncOutput {
                        action: SyncAction::Finish(summary),
                        progress: None,
                        batch: Vec::new(),
                    };
                    proof {
                        let want = step_spec(old(self)@, old(db)@, event@);
                        assert(out@ =~= want.out);
                    }
                    out
                } else {
                    self.rejected()
                }
            },
            SyncEvent::Processed(outcome) => {
                if self.phase == SyncPhase::Reconciling && !self.invalidating && self.cursor
                    < self.candidates.len() {
                    let file = match outcome {
                        Ok(file) => file,
                        Err(_) => None,
                    };
                    self.processed(db, file)
                } else {
                    self.rejected()
                }
            },
            SyncEvent::Thumbnail(outcome) => {
                if self.phase == SyncPhase::ThumbnailPass && self.cursor < self.upserted.len() {
                    let path = match outcome {
                        Ok(path) => Some(path),
                        Err(_) => None,
                    };
                    self.thumbnail_made(db, path)
                } else {
                    self.rejected()
                }
            },
        }
    }
}

} // verus!
