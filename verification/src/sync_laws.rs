//! What holds of every synchronization run: unchanged files are left
//! alone, vanished files are deleted exactly once, and a second run over
//! an unchanged folder ends at the snapshot check.

use crate::catalog::{
    files_wf, has_id, has_path, id_index, in_folder, lemma_by_folder, lemma_id_index,
    lemma_remove_wf, records, remove_id, CatalogView, EntryView,
};
use crate::indexer::{snapshot_of, ShallowView};
use crate::models::{FileMetaView, FolderSnapshot};
use crate::sync_model::{
    changed, doomed_thumbnails, fresh_run, known_unchanged, remove_all, scan_has, step_spec,
    vanished, ActionView, EventView, RunView, SyncPhase, SyncSummary,
};
use crate::thumbnail::{thumbnail_name, DEFAULT_THUMBNAIL_SIZE};
use vstd::prelude::*;

verus! {

/// No more files are new or changed than the scan lists.
pub proof fn lemma_changed_len(existing: Seq<FileMetaView>, scan: Seq<ShallowView>, fold_case: bool)
    ensures
        changed(existing, scan, fold_case).len() <= scan.len(),
    decreases scan.len(),
{
    if scan.len() > 0 {
        lemma_changed_len(existing, scan.drop_last(), fold_case);
    }
}

/// The files to process are files of the scan that the catalog does not
/// hold unchanged, and every such file is among them. A file whose size
/// and modification time the catalog already holds is therefore never
/// processed again.
pub proof fn lemma_changed(existing: Seq<FileMetaView>, scan: Seq<ShallowView>, fold_case: bool)
    ensures
        forall|k: int|
            0 <= k < changed(existing, scan, fold_case).len() ==> scan.contains(
                #[trigger] changed(existing, scan, fold_case)[k],
            ) && !known_unchanged(existing, fold_case, changed(existing, scan, fold_case)[k]),
        forall|i: int|
            0 <= i < scan.len() && !known_unchanged(existing, fold_case, #[trigger] scan[i])
                ==> changed(existing, scan, fold_case).contains(scan[i]),
        forall|i: int|
            0 <= i < scan.len() && known_unchanged(existing, fold_case, #[trigger] scan[i])
                ==> !changed(existing, scan, fold_case).contains(scan[i]),
    decreases scan.len(),
{
    let all = changed(existing, scan, fold_case);
    if scan.len() > 0 {
        let front = scan.drop_last();
        let rest = changed(existing, front, fold_case);
        lemma_changed(existing, front, fold_case);
        assert forall|k: int| 0 <= k < all.len() implies scan.contains(#[trigger] all[k])
            && !known_unchanged(existing, fold_case, all[k]) by {
            if k < rest.len() {
                assert(all[k] == rest[k]);
                let j = choose|j: int| 0 <= j < front.len() && front[j] == rest[k];
                assert(scan[j] == all[k]);
            } else {
                assert(scan[scan.len() - 1] == all[k]);
            }
        }
        assert forall|i: int|
            0 <= i < scan.len() && !known_unchanged(
                existing,
                fold_case,
                #[trigger] scan[i],
            ) implies all.contains(scan[i]) by {
            if i < scan.len() - 1 {
                assert(front[i] == scan[i]);
                let j = choose|j: int| 0 <= j < rest.len() && rest[j] == front[i];
                assert(all[j] == scan[i]);
            } else {
                assert(all[all.len() - 1] == scan[i]);
            }
        }
        assert forall|i: int|
            0 <= i < scan.len() && known_unchanged(
                existing,
                fold_case,
                #[trigger] scan[i],
            ) implies !all.contains(scan[i]) by {
            if all.contains(scan[i]) {
                let k = choose|k: int| 0 <= k < all.len() && all[k] == scan[i];
                assert(!known_unchanged(existing, fold_case, all[k]));
            }
        }
    }
}

/// The records to delete are records of the folder whose path the scan
/// does not list, every such record is among them, and none of them
/// occurs twice if none did in the catalog.
pub proof fn lemma_vanished(existing: Seq<FileMetaView>, scan: Seq<ShallowView>, fold_case: bool)
    ensures
        vanished(existing, scan, fold_case).len() <= existing.len(),
        forall|k: int|
            0 <= k < vanished(existing, scan, fold_case).len() ==> existing.contains(
                #[trigger] vanished(existing, scan, fold_case)[k],
            ) && !scan_has(scan, fold_case, vanished(existing, scan, fold_case)[k].path),
        forall|j: int|
            0 <= j < existing.len() && !scan_has(scan, fold_case, (#[trigger] existing[j]).path)
                ==> vanished(existing, scan, fold_case).contains(existing[j]),
        distinct_records(existing) ==> distinct_records(vanished(existing, scan, fold_case)),
    decreases existing.len(),
{
    let all = vanished(existing, scan, fold_case);
    if existing.len() > 0 {
        let front = existing.drop_last();
        let rest = vanished(front, scan, fold_case);
        lemma_vanished(front, scan, fold_case);
        assert forall|k: int| 0 <= k < all.len() implies existing.contains(#[trigger] all[k])
            && !scan_has(scan, fold_case, all[k].path) by {
            if k < rest.len() {
                assert(all[k] == rest[k]);
                let j = choose|j: int| 0 <= j < front.len() && front[j] == rest[k];
                assert(existing[j] == all[k]);
            } else {
                assert(existing[existing.len() - 1] == all[k]);
            }
        }
        assert forall|j: int|
            0 <= j < existing.len() && !scan_has(
                scan,
                fold_case,
                (#[trigger] existing[j]).path,
            ) implies all.contains(existing[j]) by {
            if j < existing.len() - 1 {
                assert(front[j] == existing[j]);
                let k = choose|k: int| 0 <= k < rest.len() && rest[k] == front[j];
                assert(all[k] == existing[j]);
            } else {
                assert(all[all.len() - 1] == existing[j]);
            }
        }
        if distinct_records(existing) {
            assert(distinct_records(front)) by {
                assert forall|a: int, b: int| 0 <= a < b < front.len() implies (
                #[trigger] front[a]).path != (#[trigger] front[b]).path && front[a].id
                    != front[b].id by {
                    assert(front[a] == existing[a]);
                    assert(front[b] == existing[b]);
                }
            }
            assert forall|a: int, b: int| 0 <= a < b < all.len() implies (#[trigger] all[a]).path
                != (#[trigger] all[b]).path && all[a].id != all[b].id by {
                assert(all[a] == rest[a]);
                if b < rest.len() {
                    assert(all[b] == rest[b]);
                } else {
                    let j = choose|j: int| 0 <= j < front.len() && front[j] == rest[a];
                    assert(existing[j] == rest[a]);
                    assert(existing[existing.len() - 1] == all[b]);
                }
            }
        }
    }
}

/// No two records of the list share a path or an identifier.
pub open spec fn distinct_records(list: Seq<FileMetaView>) -> bool {
    forall|i: int, j: int|
        0 <= i < j < list.len() ==> (#[trigger] list[i]).path != (#[trigger] list[j]).path
            && list[i].id != list[j].id
}

/// The records of a well-formed list of entries are distinct.
pub proof fn lemma_records_distinct(files: Seq<EntryView>)
    requires
        files_wf(files),
    ensures
        distinct_records(records(files)),
{
    let list = records(files);
    assert forall|i: int, j: int| 0 <= i < j < list.len() implies (#[trigger] list[i]).path != (
    #[trigger] list[j]).path && list[i].id != list[j].id by {
        assert(list[i] == files[i].file);
        assert(list[j] == files[j].file);
    }
}

/// Removing by identifier takes out the entry that carries it and no
/// other.
pub proof fn lemma_remove_id(files: Seq<EntryView>, id: Seq<char>)
    requires
        files_wf(files),
    ensures
        files_wf(remove_id(files, id)),
        !has_id(remove_id(files, id), id),
        forall|x: EntryView|
            #![trigger remove_id(files, id).contains(x)]
            remove_id(files, id).contains(x) <==> files.contains(x) && x.file.id != id,
        remove_id(files, id).len() == files.len() - if has_id(files, id) {
            1int
        } else {
            0int
        },
{
    let after = remove_id(files, id);
    if has_id(files, id) {
        let i = id_index(files, id);
        lemma_id_index(files, i);
        lemma_remove_wf(files, i);
        assert forall|x: EntryView| after.contains(x) implies files.contains(x) && x.file.id
            != id by {
            let k = choose|k: int| 0 <= k < after.len() && after[k] == x;
            let k0 = if k < i {
                k
            } else {
                k + 1
            };
            assert(files[k0] == x);
            if k0 < i {
                assert(files[k0].file.id != files[i].file.id);
            } else {
                assert(files[i].file.id != files[k0].file.id);
            }
        }
        assert forall|x: EntryView| files.contains(x) && x.file.id != id implies after.contains(
            x,
        ) by {
            let k0 = choose|k: int| 0 <= k < files.len() && files[k] == x;
            let k = if k0 < i {
                k0
            } else {
                k0 - 1
            };
            assert(after[k] == x);
        }
        if has_id(after, id) {
            let k = choose|k: int| 0 <= k < after.len() && after[k].file.id == id;
            assert(after.contains(after[k]));
        }
    } else {
        assert forall|x: EntryView| files.contains(x) implies x.file.id != id by {
            let k = choose|k: int| 0 <= k < files.len() && files[k] == x;
            assert(files[k].file.id != id);
        }
    }
}

/// Removing a list of records takes out the entries that carry their
/// identifiers and no other.
pub proof fn lemma_remove_all(files: Seq<EntryView>, doomed: Seq<FileMetaView>)
    requires
        files_wf(files),
    ensures
        files_wf(remove_all(files, doomed)),
        forall|x: EntryView|
            #![trigger remove_all(files, doomed).contains(x)]
            remove_all(files, doomed).contains(x) <==> files.contains(x) && !carried(
                doomed,
                x.file.id,
            ),
    decreases doomed.len(),
{
    if doomed.len() > 0 {
        let front = doomed.drop_last();
        let last = doomed.last();
        let mid = remove_all(files, front);
        lemma_remove_all(files, front);
        lemma_remove_id(mid, last.id);
        let after = remove_all(files, doomed);
        assert forall|id: Seq<char>| carried(doomed, id) <==> carried(front, id) || id
            == last.id by {
            if carried(doomed, id) {
                let k = choose|k: int| 0 <= k < doomed.len() && (#[trigger] doomed[k]).id == id;
                if k < front.len() {
                    assert(front[k].id == id);
                }
            }
            if carried(front, id) {
                let k = choose|k: int| 0 <= k < front.len() && (#[trigger] front[k]).id == id;
                assert(doomed[k].id == id);
            }
            if id == last.id {
                assert(doomed[doomed.len() - 1].id == id);
            }
        }
        assert forall|x: EntryView| after.contains(x) <==> files.contains(x) && !carried(
            doomed,
            x.file.id,
        ) by {
            assert(carried(doomed, x.file.id) <==> carried(front, x.file.id) || x.file.id
                == last.id);
            assert(after.contains(x) <==> mid.contains(x) && x.file.id != last.id);
            assert(mid.contains(x) <==> files.contains(x) && !carried(front, x.file.id));
        }
    }
}

/// Whether one of the records carries the identifier `id`.
pub open spec fn carried(list: Seq<FileMetaView>, id: Seq<char>) -> bool {
    exists|k: int| 0 <= k < list.len() && (#[trigger] list[k]).id == id
}

/// A file that was removed from disk: its record is among the records to
/// delete exactly once, so exactly one thumbnail invalidation is asked for
/// it, and after the deletions the catalog holds no record under its
/// path.
pub proof fn lemma_removed_file_deleted_once(
    files: Seq<EntryView>,
    folder: Seq<char>,
    scan: Seq<ShallowView>,
    fold_case: bool,
    path: Seq<char>,
)
    requires
        files_wf(files),
        has_path(in_folder(files, folder), path),
        !scan_has(scan, fold_case, path),
    ensures
        ({
            let doomed = vanished(records(in_folder(files, folder)), scan, fold_case);
            &&& exists|k: int|
                0 <= k < doomed.len() && (#[trigger] doomed[k]).path == path && doomed_thumbnails(
                    doomed,
                )[k] == thumbnail_name(path, DEFAULT_THUMBNAIL_SIZE) && forall|m: int|
                    0 <= m < doomed.len() && (#[trigger] doomed[m]).path == path ==> m == k
            &&& has_path(files, path)
            &&& !has_path(remove_all(files, doomed), path)
        }),
{
    let here = in_folder(files, folder);
    let existing = records(here);
    let doomed = vanished(existing, scan, fold_case);
    lemma_by_folder(files, folder, true);
    lemma_records_distinct(here);
    lemma_vanished(existing, scan, fold_case);
    lemma_remove_all(files, doomed);
    let j = choose|j: int| 0 <= j < here.len() && here[j].file.path == path;
    assert(existing[j] == here[j].file);
    assert(doomed.contains(existing[j]));
    let k = choose|k: int| 0 <= k < doomed.len() && doomed[k] == existing[j];
    assert forall|m: int| 0 <= m < doomed.len() && (#[trigger] doomed[m]).path == path implies m
        == k by {
        if m < k {
            assert(doomed[m].path != doomed[k].path);
        } else if k < m {
            assert(doomed[k].path != doomed[m].path);
        }
    }
    assert(files.contains(here[j]));
    let f = choose|f: int| 0 <= f < files.len() && files[f] == here[j];
    assert(files[f].file.path == path);
    let after = remove_all(files, doomed);
    if has_path(after, path) {
        let a = choose|a: int| 0 <= a < after.len() && after[a].file.path == path;
        assert(after.contains(after[a]));
        assert(files.contains(after[a]));
        let b = choose|b: int| 0 <= b < files.len() && files[b] == after[a];
        if b < f {
            assert(files[b].file.path != files[f].file.path);
        } else if f < b {
            assert(files[f].file.path != files[b].file.path);
        }
        assert(after[a] == here[j]);
        assert(doomed[k].id == after[a].file.id);
        assert(carried(doomed, after[a].file.id));
    }
}

/// The run and the catalog after a sequence of events.
#[verifier::opaque]
pub open spec fn after_events(run: RunView, catalog: CatalogView, events: Seq<EventView>) -> (
    RunView,
    CatalogView,
)
    decreases events.len(),
{
    if events.len() == 0 {
        (run, catalog)
    } else {
        let before = after_events(run, catalog, events.drop_last());
        let step = step_spec(before.0, before.1, events.last());
        (step.run, step.catalog)
    }
}

/// Whether a new run of `folder` that finds the scan `scan` ends at the
/// snapshot check, leaves the catalog as it is, and reports no record
/// stored and none deleted.
#[verifier::opaque]
pub open spec fn ends_at_snapshot_check(
    folder: Seq<char>,
    fold_case: bool,
    catalog: CatalogView,
    scan: Seq<ShallowView>,
) -> bool {
    let begun = step_spec(fresh_run(folder, fold_case), catalog, EventView::Start);
    let second = step_spec(begun.run, begun.catalog, EventView::Scanned(scan));
    &&& second.run.phase == SyncPhase::ShortCircuit
    &&& second.catalog == catalog
    &&& second.out.action == ActionView::Finish(
        SyncSummary {
            total: scan.len() as usize,
            upserted: 0,
            deleted: 0,
            unchanged: scan.len() as usize,
        },
    )
}

/// What a run that computed the snapshot `snapshot` keeps true: it holds
/// on to that snapshot while it works, and once it has persisted or has
/// ended without a failure, the catalog holds the snapshot for the folder.
pub open spec fn keeps_snapshot(
    run: RunView,
    catalog: CatalogView,
    folder: Seq<char>,
    snapshot: FolderSnapshot,
) -> bool {
    &&& run.folder == folder
    &&& run.phase != SyncPhase::Idle
    &&& run.phase != SyncPhase::SnapshotCheck
    &&& run.phase == SyncPhase::Diffing || run.phase == SyncPhase::Reconciling || run.phase
        == SyncPhase::ThumbnailPass ==> run.snapshot == snapshot
    &&& run.phase == SyncPhase::Persisting || run.phase == SyncPhase::Completed || run.phase
        == SyncPhase::ShortCircuit ==> catalog.snapshots.contains_key(folder)
        && catalog.snapshots[folder] == snapshot
}

/// A step keeps what `keeps_snapshot` says.
pub proof fn lemma_step_keeps_snapshot(
    run: RunView,
    catalog: CatalogView,
    event: EventView,
    folder: Seq<char>,
    snapshot: FolderSnapshot,
)
    requires
        keeps_snapshot(run, catalog, folder, snapshot),
    ensures
        keeps_snapshot(
            step_spec(run, catalog, event).run,
            step_spec(run, catalog, event).catalog,
            folder,
            snapshot,
        ),
{
}

/// Any sequence of events keeps what `keeps_snapshot` says.
pub proof fn lemma_events_keep_snapshot(
    run: RunView,
    catalog: CatalogView,
    events: Seq<EventView>,
    folder: Seq<char>,
    snapshot: FolderSnapshot,
)
    requires
        keeps_snapshot(run, catalog, folder, snapshot),
    ensures
        keeps_snapshot(
            after_events(run, catalog, events).0,
            after_events(run, catalog, events).1,
            folder,
            snapshot,
        ),
    decreases events.len(),
{
    reveal(after_events);
    if events.len() > 0 {
        lemma_events_keep_snapshot(run, catalog, events.drop_last(), folder, snapshot);
        let before = after_events(run, catalog, events.drop_last());
        lemma_step_keeps_snapshot(before.0, before.1, events.last(), folder, snapshot);
    }
}

/// A run over a folder whose snapshot equals the persisted one ends at
/// the snapshot check: the catalog stays as it is, and the totals report
/// no record stored and none deleted.
pub proof fn lemma_unchanged_folder_short_circuits(
    run: RunView,
    catalog: CatalogView,
    scan: Seq<ShallowView>,
)
    requires
        run.phase == SyncPhase::SnapshotCheck,
        catalog.snapshots.contains_key(run.folder),
        catalog.snapshots[run.folder] == snapshot_of(scan),
    ensures
        step_spec(run, catalog, EventView::Scanned(scan)).run.phase == SyncPhase::ShortCircuit,
        step_spec(run, catalog, EventView::Scanned(scan)).catalog == catalog,
        step_spec(run, catalog, EventView::Scanned(scan)).out.action == ActionView::Finish(
            SyncSummary {
                total: scan.len() as usize,
                upserted: 0,
                deleted: 0,
                unchanged: scan.len() as usize,
            },
        ),
{
}

/// Idempotence. Let a run of `folder` begin with the scan `scan` and go
/// on through any further events until it has completed or ended at the
/// snapshot check. Then a second run that finds the same scan ends at the
/// snapshot check, changes nothing in the catalog, and reports no record
/// stored and none deleted.
pub proof fn lemma_second_run_changes_nothing(
    folder: Seq<char>,
    fold_case: bool,
    catalog: CatalogView,
    scan: Seq<ShallowView>,
    rest: Seq<EventView>,
)
    ensures
        ({
            let first = after_events(
                fresh_run(folder, fold_case),
                catalog,
                seq![EventView::Start, EventView::Scanned(scan)] + rest,
            );
            first.0.phase == SyncPhase::Completed || first.0.phase == SyncPhase::ShortCircuit
                ==> ends_at_snapshot_check(folder, fold_case, first.1, scan)
        }),
{
    let start = fresh_run(folder, fold_case);
    let head = seq![EventView::Start, EventView::Scanned(scan)];
    let begun = after_events(start, catalog, head);
    lemma_first_events(folder, fold_case, catalog, scan);
    lemma_append_events(start, catalog, head, rest);
    lemma_events_keep_snapshot(begun.0, begun.1, rest, folder, snapshot_of(scan));
    let first = after_events(start, catalog, head + rest);
    if first.0.phase == SyncPhase::Completed || first.0.phase == SyncPhase::ShortCircuit {
        lemma_restart(folder, fold_case, first.1, scan);
    }
}

/// After its first two events a run has computed its snapshot.
proof fn lemma_first_events(
    folder: Seq<char>,
    fold_case: bool,
    catalog: CatalogView,
    scan: Seq<ShallowView>,
)
    ensures
        keeps_snapshot(
            after_events(
                fresh_run(folder, fold_case),
                catalog,
                seq![EventView::Start, EventView::Scanned(scan)],
            ).0,
            after_events(
                fresh_run(folder, fold_case),
                catalog,
                seq![EventView::Start, EventView::Scanned(scan)],
            ).1,
            folder,
            snapshot_of(scan),
        ),
{
    reveal_with_fuel(after_events, 3);
    let start = fresh_run(folder, fold_case);
    let head = seq![EventView::Start, EventView::Scanned(scan)];
    let one = step_spec(start, catalog, EventView::Start);
    let two = step_spec(one.run, one.catalog, EventView::Scanned(scan));
    assert(head.drop_last() =~= seq![EventView::Start]);
    assert(head.drop_last().drop_last() =~= Seq::<EventView>::empty());
    assert(head.last() == EventView::Scanned(scan));
    assert(head.drop_last().last() == EventView::Start);
    assert(after_events(start, catalog, head.drop_last().drop_last()) == (start, catalog));
    assert(after_events(start, catalog, head.drop_last()) == (one.run, one.catalog));
    assert(after_events(start, catalog, head) == (two.run, two.catalog));
}

/// A new run over a catalog that holds the snapshot of `scan` for the
/// folder ends at the snapshot check.
pub proof fn lemma_restart(
    folder: Seq<char>,
    fold_case: bool,
    catalog: CatalogView,
    scan: Seq<ShallowView>,
)
    requires
        catalog.snapshots.contains_key(folder),
        catalog.snapshots[folder] == snapshot_of(scan),
    ensures
        ends_at_snapshot_check(folder, fold_case, catalog, scan),
{
    reveal(ends_at_snapshot_check);
    let begun = step_spec(fresh_run(folder, fold_case), catalog, EventView::Start);
    lemma_unchanged_folder_short_circuits(begun.run, begun.catalog, scan);
}

/// Events that follow one another can be taken in two parts.
pub proof fn lemma_append_events(
    run: RunView,
    catalog: CatalogView,
    head: Seq<EventView>,
    rest: Seq<EventView>,
)
    ensures
        after_events(run, catalog, head + rest) == after_events(
            after_events(run, catalog, head).0,
            after_events(run, catalog, head).1,
            rest,
        ),
    decreases rest.len(),
{
    reveal(after_events);
    if rest.len() == 0 {
        assert(head + rest =~= head);
    } else {
        lemma_append_events(run, catalog, head, rest.drop_last());
        assert((head + rest).drop_last() =~= head + rest.drop_last());
        assert((head + rest).last() == rest.last());
    }
}

/// The events of a run that finds nothing in its folder and nothing of it
/// in the catalog.
pub open spec fn empty_folder_events() -> Seq<EventView> {
    seq![
        EventView::Start,
        EventView::Scanned(Seq::empty()),
        EventView::Scanned(Seq::empty()),
        EventView::Done,
    ]
}

/// An empty folder indexes to nothing: a run over a folder without files,
/// of which the catalog holds no record, leaves the catalog's files as
/// they are and ends with the snapshot `(0, 0)` persisted for the folder.
pub proof fn lemma_empty_folder(folder: Seq<char>, fold_case: bool, catalog: CatalogView)
    requires
        in_folder(catalog.files, folder).len() == 0,
    ensures
        ({
            let end = after_events(fresh_run(folder, fold_case), catalog, empty_folder_events());
            &&& end.0.phase == SyncPhase::Completed || end.0.phase == SyncPhase::ShortCircuit
            &&& end.0.upserted.len() == 0
            &&& end.1.files == catalog.files
            &&& end.1.snapshots.contains_key(folder)
            &&& end.1.snapshots[folder] == (FolderSnapshot { file_count: 0, agg_mtime: 0 })
        }),
{
    let none = Seq::<ShallowView>::empty();
    let events = empty_folder_events();
    let e3 = events.drop_last();
    let e2 = e3.drop_last();
    let e1 = e2.drop_last();
    let e0 = e1.drop_last();
    assert(e0.len() == 0);
    assert(e1.last() == EventView::Start);
    assert(e2.last() == EventView::Scanned(none));
    assert(e3.last() == EventView::Scanned(none));
    assert(events.last() == EventView::Done);
    let start = fresh_run(folder, fold_case);
    let s1 = step_spec(start, catalog, EventView::Start);
    let s2 = step_spec(s1.run, s1.catalog, EventView::Scanned(none));
    let s3 = step_spec(s2.run, s2.catalog, EventView::Scanned(none));
    let s4 = step_spec(s3.run, s3.catalog, EventView::Done);
    assert(after_events(start, catalog, e0) == (start, catalog)) by {
        reveal(after_events);
    }
    assert(after_events(start, catalog, e1) == (s1.run, s1.catalog)) by {
        reveal(after_events);
    }
    assert(after_events(start, catalog, e2) == (s2.run, s2.catalog)) by {
        reveal(after_events);
    }
    assert(after_events(start, catalog, e3) == (s3.run, s3.catalog)) by {
        reveal(after_events);
    }
    assert(after_events(start, catalog, events) == (s4.run, s4.catalog)) by {
        reveal(after_events);
    }
    assert(s1.run.phase == SyncPhase::SnapshotCheck && s1.catalog == catalog);
    assert(snapshot_of(none) == (FolderSnapshot { file_count: 0, agg_mtime: 0 }));
    if s2.run.phase == SyncPhase::ShortCircuit {
        assert(s2.catalog == catalog);
        assert(s3.run == s2.run && s3.catalog == s2.catalog);
        assert(s4.run == s3.run && s4.catalog == s3.catalog);
    } else {
        assert(s2.run.phase == SyncPhase::Diffing && s2.catalog == catalog);
        assert(s2.run.snapshot == snapshot_of(none));
        let existing = records(in_folder(catalog.files, folder));
        assert(existing.len() == 0);
        assert(vanished(existing, none, fold_case).len() == 0);
        assert(changed(existing, none, fold_case).len() == 0);
        assert(remove_all(catalog.files, vanished(existing, none, fold_case)) == catalog.files);
        assert(s3.run.phase == SyncPhase::Persisting);
        assert(s3.catalog.files == catalog.files);
        assert(s3.run.upserted.len() == 0);
    }
}

} // verus!
