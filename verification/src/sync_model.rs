//! The synchronization engine as a mathematical state machine: what one
//! run knows, what may happen to it, and what it does then.
//!
//! A run goes through `Idle`, `SnapshotCheck`, then `ShortCircuit` or
//! `Diffing`, `Reconciling`, `ThumbnailPass`, `Persisting` and
//! `Completed`. The engine itself does no outside work: each step answers
//! an event with the next action for the caller to perform.

use crate::catalog::{
    in_folder, records, remove_id, stored_form, upsert_files, upsert_refused, CatalogView,
    EntryView,
};
use crate::indexer::{snapshot_of, FileError, ShallowView};
use crate::models::{FileMetaView, FolderSnapshot};
use crate::text::{decimal_digits, lowercase_of};
use crate::thumbnail::{thumbnail_name, ThumbnailFailure, DEFAULT_THUMBNAIL_SIZE};
use vstd::prelude::*;

verus! {

/// Where a run stands.
#[derive(Debug, Clone, Copy, PartialEq, Eq, Structural)]
pub enum SyncPhase {
    /// Not started.
    Idle,
    /// Waiting for the scan from which the snapshot is computed.
    SnapshotCheck,
    /// Ended at once: the snapshot equals the persisted one.
    ShortCircuit,
    /// Waiting for the scan that is compared with the catalog.
    Diffing,
    /// Deletions are applied; changed files are processed one by one.
    Reconciling,
    /// Thumbnails are ensured for the records that lack one.
    ThumbnailPass,
    /// The new snapshot is in the catalog; the caller makes it durable.
    Persisting,
    /// Ended with totals.
    Completed,
    /// Ended by a fatal failure.
    Failed,
}

/// The totals of a run.
#[derive(Debug, Clone, Copy, PartialEq, Eq, Structural)]
pub struct SyncSummary {
    /// Files that the scan listed.
    pub total: usize,
    /// Records stored or refreshed.
    pub upserted: usize,
    /// Records deleted.
    pub deleted: usize,
    /// Files that were left untouched because nothing had changed.
    pub unchanged: usize,
}

/// How many records are handed to the caller at once.
pub const BATCH_SIZE: usize = 10;

/// After how many processed files a progress message is due.
pub const PROGRESS_INTERVAL: usize = 50;

/// The key under which the last synchronized folder is remembered.
pub open spec fn last_folder_key() -> Seq<char> {
    "last_selected_folder"@
}

/// What a run knows.
#[verifier::ext_equal]
pub struct RunView {
    pub phase: SyncPhase,
    pub folder: Seq<char>,
    pub fold_case: bool,
    pub snapshot: FolderSnapshot,
    pub scanned: nat,
    pub candidates: Seq<ShallowView>,
    pub cursor: nat,
    pub upserted: Seq<FileMetaView>,
    pub emitted: nat,
    pub deleted: nat,
    /// Whether the run waits for the invalidation of thumbnails.
    pub invalidating: bool,
}

/// A run that has not started.
pub open spec fn fresh_run(folder: Seq<char>, fold_case: bool) -> RunView {
    RunView {
        phase: SyncPhase::Idle,
        folder,
        fold_case,
        snapshot: FolderSnapshot { file_count: 0, agg_mtime: 0 },
        scanned: 0,
        candidates: Seq::empty(),
        cursor: 0,
        upserted: Seq::empty(),
        emitted: 0,
        deleted: 0,
        invalidating: false,
    }
}

/// What may happen to a run.
#[verifier::ext_equal]
pub enum EventView {
    /// The caller asks the run to begin.
    Start,
    /// The shallow scan that was asked for.
    Scanned(Seq<ShallowView>),
    /// Outside work failed in a way that ends the run.
    Failed,
    /// The outside work that was asked for is done.
    Done,
    /// How deep processing of the file asked for ended: with its record,
    /// with nothing, or with a failure.
    Processed(Result<Option<FileMetaView>, FileError>),
    /// How ensuring the thumbnail asked for ended: with its cache path, or
    /// with a failure.
    Thumbnail(Result<Seq<char>, ThumbnailFailure>),
}

/// The record that deep processing gave. A failure to process one file is
/// passed over like a file without a record; it does not end the run.
pub open spec fn processed_record(
    outcome: Result<Option<FileMetaView>, FileError>,
) -> Option<FileMetaView> {
    match outcome {
        Ok(file) => file,
        Err(_) => None,
    }
}

/// The cache path that ensuring a thumbnail gave. A failure leaves the
/// record without a thumbnail; it does not end the run.
pub open spec fn made_thumbnail(outcome: Result<Seq<char>, ThumbnailFailure>) -> Option<
    Seq<char>,
> {
    match outcome {
        Ok(path) => Some(path),
        Err(_) => None,
    }
}

/// What the caller is to do next.
#[verifier::ext_equal]
pub enum ActionView {
    /// Run the shallow scanner on the folder.
    Scan,
    /// Delete these cache files, as far as that succeeds.
    InvalidateThumbnails(Seq<Seq<char>>),
    /// Run the deep processor on this path.
    Process(Seq<char>),
    /// Ensure the thumbnail of this path at this size.
    EnsureThumbnail(Seq<char>, u32),
    /// Make the catalog durable.
    Persist,
    /// The run is over; these are its totals.
    Finish(SyncSummary),
    /// The run is over; it failed.
    Fail,
    /// The event does not fit the phase; nothing changed.
    Rejected,
}

/// The answer to an event.
#[verifier::ext_equal]
pub struct OutputView {
    pub action: ActionView,
    /// A progress message for the user, if one is due.
    pub progress: Option<Seq<char>>,
    /// Changed records to show, if a batch is due.
    pub batch: Seq<FileMetaView>,
}

/// A step's result: the run and the catalog after it, and the answer.
#[verifier::ext_equal]
pub struct StepView {
    pub run: RunView,
    pub catalog: CatalogView,
    pub out: OutputView,
}

/// The form of a path by which scan and catalog are compared.
pub open spec fn norm_key(fold_case: bool, path: Seq<char>) -> Seq<char> {
    if fold_case {
        lowercase_of(path)
    } else {
        path
    }
}

/// Whether the scan lists a file under `path`.
pub open spec fn scan_has(scan: Seq<ShallowView>, fold_case: bool, path: Seq<char>) -> bool {
    exists|i: int|
        0 <= i < scan.len() && norm_key(fold_case, (#[trigger] scan[i]).path) == norm_key(
            fold_case,
            path,
        )
}

/// The records whose path the scan no longer lists, in catalog order.
pub open spec fn vanished(
    existing: Seq<FileMetaView>,
    scan: Seq<ShallowView>,
    fold_case: bool,
) -> Seq<FileMetaView>
    decreases existing.len(),
{
    if existing.len() == 0 {
        Seq::empty()
    } else {
        let rest = vanished(existing.drop_last(), scan, fold_case);
        if scan_has(scan, fold_case, existing.last().path) {
            rest
        } else {
            rest.push(existing.last())
        }
    }
}

/// Whether the record `e` is the file `s` as the scan found it: the same
/// path, the same size and the same modification time.
pub open spec fn same_file(fold_case: bool, e: FileMetaView, s: ShallowView) -> bool {
    &&& norm_key(fold_case, e.path) == norm_key(fold_case, s.path)
    &&& e.size == s.size
    &&& e.modified_sec == s.modified_sec
}

/// Whether the catalog holds the file `s` as the scan found it.
pub open spec fn known_unchanged(
    existing: Seq<FileMetaView>,
    fold_case: bool,
    s: ShallowView,
) -> bool {
    exists|j: int| 0 <= j < existing.len() && same_file(fold_case, #[trigger] existing[j], s)
}

/// The files of the scan that are new or changed, in scan order.
pub open spec fn changed(
    existing: Seq<FileMetaView>,
    scan: Seq<ShallowView>,
    fold_case: bool,
) -> Seq<ShallowView>
    decreases scan.len(),
{
    if scan.len() == 0 {
        Seq::empty()
    } else {
        let rest = changed(existing, scan.drop_last(), fold_case);
        if known_unchanged(existing, fold_case, scan.last()) {
            rest
        } else {
            rest.push(scan.last())
        }
    }
}

/// The catalog's files after the records `doomed` were removed by their
/// identifiers, one after the other.
pub open spec fn remove_all(files: Seq<EntryView>, doomed: Seq<FileMetaView>) -> Seq<EntryView>
    decreases doomed.len(),
{
    if doomed.len() == 0 {
        files
    } else {
        remove_id(remove_all(files, doomed.drop_last()), doomed.last().id)
    }
}

/// The cache files of the records `doomed` at the default size.
pub open spec fn doomed_thumbnails(doomed: Seq<FileMetaView>) -> Seq<Seq<char>> {
    Seq::new(doomed.len(), |i: int| thumbnail_name(doomed[i].path, DEFAULT_THUMBNAIL_SIZE))
}

/// The message that reports how many files were checked.
pub open spec fn checked_message(n: nat) -> Seq<char> {
    "Checked "@ + decimal_digits(n) + " files..."@
}

/// The progress message that is due once `n` files were processed.
pub open spec fn progress_after(n: nat) -> Option<Seq<char>> {
    if n % (PROGRESS_INTERVAL as nat) == 0 {
        Some(checked_message(n))
    } else {
        None
    }
}

/// An answer without message or records.
pub open spec fn plain(action: ActionView) -> OutputView {
    OutputView { action, progress: None, batch: Seq::empty() }
}

/// The totals of a run as it stands.
pub open spec fn summary_of(run: RunView) -> SyncSummary {
    SyncSummary {
        total: run.scanned as usize,
        upserted: run.upserted.len() as usize,
        deleted: run.deleted as usize,
        unchanged: (run.scanned - run.candidates.len()) as usize,
    }
}

/// The first place at or after `from` whose record lacks a thumbnail, or
/// the length of the list.
pub open spec fn next_bare(list: Seq<FileMetaView>, from: nat) -> nat
    decreases list.len() - from,
{
    if from >= list.len() {
        list.len()
    } else if list[from as int].thumbnail_path is None {
        from
    } else {
        next_bare(list, from + 1)
    }
}

/// The catalog with the run's snapshot and folder written into it.
pub open spec fn persisted(run: RunView, catalog: CatalogView) -> CatalogView {
    CatalogView {
        files: catalog.files,
        snapshots: catalog.snapshots.insert(run.folder, run.snapshot),
        settings: catalog.settings.insert(last_folder_key(), run.folder),
    }
}

/// Goes on with the thumbnail pass from `run.cursor`: asks for the next
/// missing thumbnail, or, when none is missing, writes snapshot and
/// folder into the catalog and asks the caller to make it durable. A
/// batch of records is handed out when at least `BATCH_SIZE` are waiting,
/// and in any case at the end of the pass.
pub open spec fn continue_thumbnails(
    run: RunView,
    catalog: CatalogView,
    progress: Option<Seq<char>>,
) -> StepView {
    let at = next_bare(run.upserted, run.cursor);
    let waiting = run.upserted.subrange(run.emitted as int, at as int);
    if at < run.upserted.len() {
        let due = at - run.emitted >= BATCH_SIZE;
        StepView {
            run: RunView {
                phase: SyncPhase::ThumbnailPass,
                cursor: at,
                emitted: if due {
                    at
                } else {
                    run.emitted
                },
                ..run
            },
            catalog,
            out: OutputView {
                action: ActionView::EnsureThumbnail(
                    run.upserted[at as int].path,
                    DEFAULT_THUMBNAIL_SIZE,
                ),
                progress,
                batch: if due {
                    waiting
                } else {
                    Seq::empty()
                },
            },
        }
    } else {
        StepView {
            run: RunView { phase: SyncPhase::Persisting, cursor: at, emitted: at, ..run },
            catalog: persisted(run, catalog),
            out: OutputView { action: ActionView::Persist, progress, batch: waiting },
        }
    }
}

/// Goes on with reconciling from `run.cursor`: asks for the next changed
/// file to be processed, or, when none is left, begins the thumbnail
/// pass.
pub open spec fn continue_reconciling(
    run: RunView,
    catalog: CatalogView,
    progress: Option<Seq<char>>,
) -> StepView {
    if run.cursor < run.candidates.len() {
        StepView {
            run: RunView { phase: SyncPhase::Reconciling, ..run },
            catalog,
            out: OutputView {
                action: ActionView::Process(run.candidates[run.cursor as int].path),
                progress,
                batch: Seq::empty(),
            },
        }
    } else {
        continue_thumbnails(RunView { cursor: 0, emitted: 0, ..run }, catalog, progress)
    }
}

/// The answer to the scan that the snapshot is computed from: a snapshot
/// equal to the persisted one ends the run with nothing changed, any
/// other asks for the scan to compare.
pub open spec fn on_snapshot_scan(
    run: RunView,
    catalog: CatalogView,
    scan: Seq<ShallowView>,
) -> StepView {
    let snapshot = snapshot_of(scan);
    if catalog.snapshots.contains_key(run.folder) && catalog.snapshots[run.folder] == snapshot {
        StepView {
            run: RunView {
                phase: SyncPhase::ShortCircuit,
                snapshot,
                scanned: scan.len(),
                candidates: Seq::empty(),
                upserted: Seq::empty(),
                ..run
            },
            catalog,
            out: plain(
                ActionView::Finish(
                    SyncSummary {
                        total: scan.len() as usize,
                        upserted: 0,
                        deleted: 0,
                        unchanged: scan.len() as usize,
                    },
                ),
            ),
        }
    } else {
        StepView {
            run: RunView { phase: SyncPhase::Diffing, snapshot, ..run },
            catalog,
            out: OutputView {
                action: ActionView::Scan,
                progress: Some("Scanning for image files..."@),
                batch: Seq::empty(),
            },
        }
    }
}

/// The answer to the scan that is compared with the catalog: the records
/// of vanished files are deleted at once and their thumbnails are to be
/// invalidated; the new and changed files wait to be processed.
pub open spec fn on_diff_scan(
    run: RunView,
    catalog: CatalogView,
    scan: Seq<ShallowView>,
) -> StepView {
    let existing = records(in_folder(catalog.files, run.folder));
    let doomed = vanished(existing, scan, run.fold_case);
    let after = CatalogView { files: remove_all(catalog.files, doomed), ..catalog };
    let next = RunView {
        phase: SyncPhase::Reconciling,
        scanned: scan.len(),
        candidates: changed(existing, scan, run.fold_case),
        cursor: 0,
        upserted: Seq::empty(),
        emitted: 0,
        deleted: doomed.len(),
        invalidating: false,
        ..run
    };
    if doomed.len() > 0 {
        StepView {
            run: RunView { invalidating: true, ..next },
            catalog: after,
            out: plain(ActionView::InvalidateThumbnails(doomed_thumbnails(doomed))),
        }
    } else {
        continue_reconciling(next, after, None)
    }
}

/// The answer to a processed file: its record is upserted under the
/// run's folder, a file without a record is passed over, and a record that
/// the catalog refuses ends the run.
pub open spec fn on_processed(
    run: RunView,
    catalog: CatalogView,
    file: Option<FileMetaView>,
) -> StepView {
    let moved = RunView { cursor: run.cursor + 1, ..run };
    let progress = progress_after(run.cursor + 1);
    match file {
        None => continue_reconciling(moved, catalog, progress),
        Some(f) => {
            if upsert_refused(catalog.files, f) {
                StepView {
                    run: RunView { phase: SyncPhase::Failed, ..run },
                    catalog,
                    out: plain(ActionView::Fail),
                }
            } else {
                continue_reconciling(
                    RunView { upserted: run.upserted.push(stored_form(catalog.files, f)), ..moved },
                    CatalogView { files: upsert_files(catalog.files, f, run.folder), ..catalog },
                    progress,
                )
            }
        },
    }
}

/// The answer to a thumbnail: its path is attached to the record it was
/// made for and stored; a missing thumbnail leaves the record as it is.
pub open spec fn on_thumbnail(
    run: RunView,
    catalog: CatalogView,
    path: Option<Seq<char>>,
) -> StepView {
    let moved = RunView { cursor: run.cursor + 1, ..run };
    match path {
        None => continue_thumbnails(moved, catalog, None),
        Some(p) => {
            let record = FileMetaView {
                thumbnail_path: Some(p),
                ..run.upserted[run.cursor as int]
            };
            if upsert_refused(catalog.files, record) {
                StepView {
                    run: RunView { phase: SyncPhase::Failed, ..run },
                    catalog,
                    out: plain(ActionView::Fail),
                }
            } else {
                continue_thumbnails(
                    RunView {
                        upserted: run.upserted.update(
                            run.cursor as int,
                            stored_form(catalog.files, record),
                        ),
                        ..moved
                    },
                    CatalogView {
                        files: upsert_files(catalog.files, record, run.folder),
                        ..catalog
                    },
                    None,
                )
            }
        },
    }
}

/// Whether a run is over.
pub open spec fn ended(phase: SyncPhase) -> bool {
    phase == SyncPhase::ShortCircuit || phase == SyncPhase::Completed || phase == SyncPhase::Failed
}

/// The engine's transition function: the run and the catalog after
/// `event`, and the answer to it. An event that does not fit the phase
/// changes nothing and is answered with `Rejected`.
pub open spec fn step_spec(run: RunView, catalog: CatalogView, event: EventView) -> StepView {
    let rejected = StepView { run, catalog, out: plain(ActionView::Rejected) };
    match event {
        EventView::Start => {
            if run.phase == SyncPhase::Idle {
                StepView {
                    run: RunView { phase: SyncPhase::SnapshotCheck, ..run },
                    catalog,
                    out: OutputView {
                        action: ActionView::Scan,
                        progress: Some("Checking folder snapshot..."@),
                        batch: Seq::empty(),
                    },
                }
            } else {
                rejected
            }
        },
        EventView::Scanned(scan) => {
            if run.phase == SyncPhase::SnapshotCheck {
                on_snapshot_scan(run, catalog, scan)
            } else if run.phase == SyncPhase::Diffing {
                on_diff_scan(run, catalog, scan)
            } else {
                rejected
            }
        },
        EventView::Failed => {
            if ended(run.phase) || run.phase == SyncPhase::Idle {
                rejected
            } else {
                StepView {
                    run: RunView { phase: SyncPhase::Failed, ..run },
                    catalog,
                    out: plain(ActionView::Fail),
                }
            }
        },
        EventView::Done => {
            if run.phase == SyncPhase::Reconciling && run.invalidating {
                continue_reconciling(RunView { invalidating: false, ..run }, catalog, None)
            } else if run.phase == SyncPhase::Persisting {
                StepView {
                    run: RunView { phase: SyncPhase::Completed, ..run },
                    catalog,
                    out: plain(ActionView::Finish(summary_of(run))),
                }
            } else {
                rejected
            }
        },
        EventView::Processed(outcome) => {
            if run.phase == SyncPhase::Reconciling && !run.invalidating && run.cursor
                < run.candidates.len() {
                on_processed(run, catalog, processed_record(outcome))
            } else {
                rejected
            }
        },
        EventView::Thumbnail(outcome) => {
            if run.phase == SyncPhase::ThumbnailPass && run.cursor < run.upserted.len() {
                on_thumbnail(run, catalog, made_thumbnail(outcome))
            } else {
                rejected
            }
        },
    }
}

} // verus!
