use local_gallery::database::Database;
use local_gallery::indexer::{
    compute_folder_snapshot, process_file, scan_directory_shallow, DirEntryFacts, EntryMetadata,
    FileError,
};
use local_gallery::models::{FileMeta, Timestamp};
use local_gallery::sync::{SyncAction, SyncEvent, SyncOutput, SyncRun};
use local_gallery::sync_model::{SyncPhase, SyncSummary, BATCH_SIZE, PROGRESS_INTERVAL};
use local_gallery::thumbnail::{thumbnail_file_name, ThumbnailFailure};

/// A file of the pretended folder: path, size, modification time.
type Disk = Vec<(String, u64, i64)>;

fn disk(files: &[(&str, u64, i64)]) -> Disk {
    files.iter().map(|(p, s, t)| (p.to_string(), *s, *t)).collect()
}

fn facts(file: &(String, u64, i64)) -> DirEntryFacts {
    let name = file.0.rsplit('/').next().unwrap().to_string();
    let extension = name.rsplit_once('.').map(|(_, e)| e.to_string());
    DirEntryFacts {
        path: file.0.clone(),
        file_name: Some(name),
        extension,
        is_file: true,
        metadata: Some(EntryMetadata {
            size: file.1,
            modified: Some(Timestamp { secs: file.2, nanos: 0 }),
            created: Some(Timestamp { secs: 0, nanos: 0 }),
        }),
        dimensions: None,
    }
}

/// What a run did, as the caller saw it.
struct Trace {
    summary: Option<SyncSummary>,
    scans: usize,
    processed: Vec<String>,
    thumbnails: Vec<String>,
    invalidated: Vec<String>,
    progress: Vec<String>,
    batches: Vec<Vec<String>>,
    persisted: usize,
}

/// Performs the actions that a run asks for against the pretended folder.
fn drive(db: &mut Database, folder: &str, files: &Disk) -> Trace {
    let mut trace = Trace {
        summary: None,
        scans: 0,
        processed: Vec::new(),
        thumbnails: Vec::new(),
        invalidated: Vec::new(),
        progress: Vec::new(),
        batches: Vec::new(),
        persisted: 0,
    };
    let mut run = SyncRun::new(folder.to_string(), true);
    let mut event = SyncEvent::Start;
    loop {
        let out: SyncOutput = run.step(db, event);
        if let Some(message) = out.progress {
            trace.progress.push(message);
        }
        if !out.batch.is_empty() {
            trace.batches.push(out.batch.iter().map(|f| f.path.clone()).collect());
        }
        event = match out.action {
            SyncAction::Scan => {
                trace.scans += 1;
                let entries: Vec<DirEntryFacts> = files.iter().map(facts).collect();
                SyncEvent::Scanned(scan_directory_shallow(&entries).unwrap())
            }
            SyncAction::InvalidateThumbnails(names) => {
                trace.invalidated.extend(names);
                SyncEvent::Done
            }
            SyncAction::Process(path) => {
                trace.processed.push(path.clone());
                let file = files.iter().find(|f| f.0 == path).unwrap();
                SyncEvent::Processed(process_file(&facts(file)))
            }
            SyncAction::EnsureThumbnail(path, size) => {
                trace.thumbnails.push(path.clone());
                SyncEvent::Thumbnail(Ok(format!("/cache/{}", thumbnail_file_name(&path, size))))
            }
            SyncAction::Persist => {
                trace.persisted += 1;
                SyncEvent::Done
            }
            SyncAction::Finish(summary) => {
                trace.summary = Some(summary);
                return trace;
            }
            SyncAction::Fail => panic!("the run failed"),
            SyncAction::Rejected => panic!("the run rejected an event"),
        };
    }
}

fn paths(files: &Vec<FileMeta>) -> Vec<String> {
    let mut list: Vec<String> = files.iter().map(|f| f.path.clone()).collect();
    list.sort();
    list
}

#[test]
fn fresh_index_of_two_files() {
    let mut db = Database::new();
    let files = disk(&[("/p/a.jpg", 100, 1), ("/p/b.png", 200, 2)]);
    let trace = drive(&mut db, "/p", &files);
    assert_eq!(
        trace.summary,
        Some(SyncSummary { total: 2, upserted: 2, deleted: 0, unchanged: 0 })
    );
    assert_eq!(db.file_count(), 2);
    assert_eq!(paths(&db.files_in_folder("/p")), vec!["/p/a.jpg", "/p/b.png"]);
    assert_eq!(db.get_snapshot("/p"), Some((2, 3)));
    assert_eq!(db.get_setting("last_selected_folder"), Some("/p".to_string()));
    assert_eq!(trace.scans, 2);
    assert_eq!(trace.processed, vec!["/p/a.jpg", "/p/b.png"]);
    assert_eq!(trace.thumbnails, vec!["/p/a.jpg", "/p/b.png"]);
    assert!(trace.invalidated.is_empty());
    assert_eq!(trace.persisted, 1);
    let a = db.get_file_by_path("/p/a.jpg").unwrap();
    assert_eq!(a.size, 100);
    assert_eq!(a.modified_sec, 1);
    assert_eq!(
        a.thumbnail_path,
        Some(format!("/cache/{}", thumbnail_file_name("/p/a.jpg", 300)))
    );
}

#[test]
fn deleted_file_leaves_the_catalog() {
    let mut db = Database::new();
    drive(&mut db, "/p", &disk(&[("/p/a.jpg", 100, 1), ("/p/b.png", 200, 2)]));
    let a_before = db.get_file_by_path("/p/a.jpg").unwrap();
    let trace = drive(&mut db, "/p", &disk(&[("/p/a.jpg", 100, 1)]));
    assert_eq!(
        trace.summary,
        Some(SyncSummary { total: 1, upserted: 0, deleted: 1, unchanged: 1 })
    );
    assert_eq!(db.file_count(), 1);
    assert!(db.get_file_by_path("/p/b.png").is_none());
    assert_eq!(trace.invalidated, vec![thumbnail_file_name("/p/b.png", 300)]);
    assert!(trace.processed.is_empty());
    assert!(trace.thumbnails.is_empty());
    assert_eq!(db.get_snapshot("/p"), Some((1, 1)));
    let a_after = db.get_file_by_path("/p/a.jpg").unwrap();
    assert_eq!(a_after.id, a_before.id);
    assert_eq!(a_after.modified, a_before.modified);
}

#[test]
fn modified_file_keeps_its_identifier() {
    let mut db = Database::new();
    drive(&mut db, "/p", &disk(&[("/p/a.jpg", 100, 1), ("/p/b.png", 200, 2)]));
    let before = db.get_file_by_path("/p/a.jpg").unwrap();
    let b_before = db.get_file_by_path("/p/b.png").unwrap();
    let trace = drive(&mut db, "/p", &disk(&[("/p/a.jpg", 100, 50), ("/p/b.png", 200, 2)]));
    assert_eq!(
        trace.summary,
        Some(SyncSummary { total: 2, upserted: 1, deleted: 0, unchanged: 1 })
    );
    assert_eq!(trace.processed, vec!["/p/a.jpg"]);
    let after = db.get_file_by_path("/p/a.jpg").unwrap();
    assert_eq!(after.id, before.id);
    assert_eq!(after.size, 100);
    assert_eq!(after.modified_sec, 50);
    assert_eq!(before.modified, "1970-01-01T00:00:01+00:00");
    assert_eq!(after.modified, "1970-01-01T00:00:50+00:00");
    assert_eq!(db.file_count(), 2);
    assert_eq!(db.get_snapshot("/p"), Some((2, 52)));
    let b_after = db.get_file_by_path("/p/b.png").unwrap();
    assert_eq!(b_after.id, b_before.id);
    assert_eq!(b_after.modified, b_before.modified);
}

#[test]
fn second_run_on_unchanged_folder_short_circuits() {
    let mut db = Database::new();
    let files = disk(&[("/p/a.jpg", 100, 1), ("/p/b.png", 200, 2)]);
    drive(&mut db, "/p", &files);
    let ids_before: Vec<String> = db.get_files(0, 10).iter().map(|f| f.id.clone()).collect();
    let trace = drive(&mut db, "/p", &files);
    assert_eq!(
        trace.summary,
        Some(SyncSummary { total: 2, upserted: 0, deleted: 0, unchanged: 2 })
    );
    assert_eq!(trace.scans, 1);
    assert!(trace.processed.is_empty());
    assert!(trace.thumbnails.is_empty());
    assert!(trace.invalidated.is_empty());
    assert_eq!(trace.persisted, 0);
    let ids_after: Vec<String> = db.get_files(0, 10).iter().map(|f| f.id.clone()).collect();
    assert_eq!(ids_before, ids_after);
}

#[test]
fn empty_folder_indexes_to_nothing() {
    let mut db = Database::new();
    let trace = drive(&mut db, "/p", &Vec::new());
    assert_eq!(
        trace.summary,
        Some(SyncSummary { total: 0, upserted: 0, deleted: 0, unchanged: 0 })
    );
    assert_eq!(db.file_count(), 0);
    assert_eq!(db.get_snapshot("/p"), Some((0, 0)));
    let again = drive(&mut db, "/p", &Vec::new());
    assert_eq!(again.scans, 1);
    assert_eq!(
        again.summary,
        Some(SyncSummary { total: 0, upserted: 0, deleted: 0, unchanged: 0 })
    );
}

#[test]
fn a_changed_size_is_found_by_the_diff() {
    let mut db = Database::new();
    drive(&mut db, "/p", &disk(&[("/p/a.jpg", 100, 1), ("/p/b.jpg", 7, 1)]));
    let trace = drive(
        &mut db,
        "/p",
        &disk(&[("/p/a.jpg", 101, 1), ("/p/b.jpg", 7, 1), ("/p/c.jpg", 3, 4)]),
    );
    assert_eq!(trace.processed, vec!["/p/a.jpg", "/p/c.jpg"]);
    assert_eq!(
        trace.summary,
        Some(SyncSummary { total: 3, upserted: 2, deleted: 0, unchanged: 1 })
    );
    assert_eq!(db.get_file_by_path("/p/a.jpg").unwrap().size, 101);
}

#[test]
fn the_snapshot_does_not_see_a_size_change() {
    let mut db = Database::new();
    drive(&mut db, "/p", &disk(&[("/p/a.jpg", 100, 1), ("/p/b.jpg", 7, 1)]));
    let trace = drive(&mut db, "/p", &disk(&[("/p/a.jpg", 101, 1), ("/p/b.jpg", 7, 1)]));
    assert_eq!(trace.scans, 1);
    assert!(trace.processed.is_empty());
    assert_eq!(db.get_file_by_path("/p/a.jpg").unwrap().size, 100);
}

#[test]
fn other_folders_are_left_alone() {
    let mut db = Database::new();
    drive(&mut db, "/q", &disk(&[("/q/x.jpg", 1, 1)]));
    drive(&mut db, "/p", &disk(&[("/p/a.jpg", 100, 1)]));
    let trace = drive(&mut db, "/p", &disk(&[("/p/c.jpg", 5, 9)]));
    assert_eq!(
        trace.summary,
        Some(SyncSummary { total: 1, upserted: 1, deleted: 1, unchanged: 0 })
    );
    assert_eq!(paths(&db.files_in_folder("/q")), vec!["/q/x.jpg"]);
    assert_eq!(paths(&db.files_in_folder("/p")), vec!["/p/c.jpg"]);
    assert_eq!(db.get_snapshot("/q"), Some((1, 1)));
    assert_eq!(db.get_indexed_folders(), vec!["/p", "/q"]);
}

#[test]
fn paths_are_compared_without_case_when_folding() {
    let mut db = Database::new();
    drive(&mut db, "/p", &disk(&[("/p/a.jpg", 100, 1)]));
    let trace = drive(&mut db, "/p", &disk(&[("/p/A.JPG", 100, 1), ("/p/b.jpg", 1, 1)]));
    assert_eq!(trace.processed, vec!["/p/b.jpg"]);
    assert!(trace.invalidated.is_empty());
    assert_eq!(
        trace.summary,
        Some(SyncSummary { total: 2, upserted: 1, deleted: 0, unchanged: 1 })
    );
}

#[test]
fn paths_are_compared_exactly_without_folding() {
    let mut db = Database::new();
    let mut run = SyncRun::new("/p".to_string(), false);
    let old = FileMeta {
        id: "1".to_string(),
        path: "/p/a.jpg".to_string(),
        name: "a.jpg".to_string(),
        size: 100,
        modified: "m".to_string(),
        created: "c".to_string(),
        file_type: "jpg".to_string(),
        dimensions: None,
        thumbnail_path: Some("/cache/t.jpg".to_string()),
        tags: Vec::new(),
        albums: Vec::new(),
        rating: None,
        modified_sec: 1,
        modified_at: Timestamp { secs: 1, nanos: 0 },
    };
    db.add_file(&old, "/p").unwrap();
    let entries = vec![facts(&("/p/A.JPG".to_string(), 100, 1))];
    let scan = scan_directory_shallow(&entries).unwrap();
    assert!(matches!(run.step(&mut db, SyncEvent::Start).action, SyncAction::Scan));
    assert!(matches!(
        run.step(&mut db, SyncEvent::Scanned(scan.clone())).action,
        SyncAction::Scan
    ));
    match run.step(&mut db, SyncEvent::Scanned(scan)).action {
        SyncAction::InvalidateThumbnails(names) => {
            assert_eq!(names, vec![thumbnail_file_name("/p/a.jpg", 300)]);
        }
        other => panic!("unexpected action {:?}", other),
    }
    assert_eq!(db.file_count(), 0);
    match run.step(&mut db, SyncEvent::Done).action {
        SyncAction::Process(path) => assert_eq!(path, "/p/A.JPG"),
        other => panic!("unexpected action {:?}", other),
    }
}

#[test]
fn phases_follow_the_state_machine() {
    let mut db = Database::new();
    let files = disk(&[("/p/a.jpg", 100, 1)]);
    let entries: Vec<DirEntryFacts> = files.iter().map(facts).collect();
    let scan = scan_directory_shallow(&entries).unwrap();
    let mut run = SyncRun::new("/p".to_string(), true);
    assert_eq!(run.phase(), SyncPhase::Idle);
    assert_eq!(run.folder(), "/p");
    let out = run.step(&mut db, SyncEvent::Start);
    assert!(matches!(out.action, SyncAction::Scan));
    assert_eq!(out.progress, Some("Checking folder snapshot...".to_string()));
    assert_eq!(run.phase(), SyncPhase::SnapshotCheck);
    let out = run.step(&mut db, SyncEvent::Scanned(scan.clone()));
    assert!(matches!(out.action, SyncAction::Scan));
    assert_eq!(out.progress, Some("Scanning for image files...".to_string()));
    assert_eq!(run.phase(), SyncPhase::Diffing);
    let out = run.step(&mut db, SyncEvent::Scanned(scan));
    assert!(matches!(out.action, SyncAction::Process(_)));
    assert_eq!(run.phase(), SyncPhase::Reconciling);
    let record = process_file(&entries[0]);
    let out = run.step(&mut db, SyncEvent::Processed(record));
    assert!(matches!(out.action, SyncAction::EnsureThumbnail(_, 300)));
    assert_eq!(run.phase(), SyncPhase::ThumbnailPass);
    assert_eq!(db.file_count(), 1);
    assert_eq!(db.get_snapshot("/p"), None);
    let out = run.step(&mut db, SyncEvent::Thumbnail(Err(ThumbnailFailure)));
    assert!(matches!(out.action, SyncAction::Persist));
    assert_eq!(out.batch.len(), 1);
    assert_eq!(out.batch[0].path, "/p/a.jpg");
    assert_eq!(run.phase(), SyncPhase::Persisting);
    assert_eq!(db.get_snapshot("/p"), Some((1, 1)));
    assert_eq!(db.get_file_by_path("/p/a.jpg").unwrap().thumbnail_path, None);
    let out = run.step(&mut db, SyncEvent::Done);
    assert!(matches!(
        out.action,
        SyncAction::Finish(SyncSummary { total: 1, upserted: 1, deleted: 0, unchanged: 0 })
    ));
    assert_eq!(run.phase(), SyncPhase::Completed);
}

#[test]
fn events_that_do_not_fit_are_rejected() {
    let mut db = Database::new();
    let mut run = SyncRun::new("/p".to_string(), true);
    assert!(matches!(run.step(&mut db, SyncEvent::Done).action, SyncAction::Rejected));
    assert!(matches!(run.step(&mut db, SyncEvent::Failed).action, SyncAction::Rejected));
    assert!(matches!(
        run.step(&mut db, SyncEvent::Scanned(Vec::new())).action,
        SyncAction::Rejected
    ));
    assert!(matches!(
        run.step(&mut db, SyncEvent::Processed(Ok(None))).action,
        SyncAction::Rejected
    ));
    assert!(matches!(
        run.step(&mut db, SyncEvent::Thumbnail(Err(ThumbnailFailure))).action,
        SyncAction::Rejected
    ));
    assert_eq!(run.phase(), SyncPhase::Idle);
    assert!(matches!(run.step(&mut db, SyncEvent::Start).action, SyncAction::Scan));
    assert!(matches!(run.step(&mut db, SyncEvent::Start).action, SyncAction::Rejected));
    assert_eq!(run.phase(), SyncPhase::SnapshotCheck);
}

#[test]
fn a_fatal_failure_ends_the_run() {
    let mut db = Database::new();
    let mut run = SyncRun::new("/p".to_string(), true);
    run.step(&mut db, SyncEvent::Start);
    assert!(matches!(run.step(&mut db, SyncEvent::Failed).action, SyncAction::Fail));
    assert_eq!(run.phase(), SyncPhase::Failed);
    assert!(matches!(run.step(&mut db, SyncEvent::Start).action, SyncAction::Rejected));
    assert!(matches!(run.step(&mut db, SyncEvent::Failed).action, SyncAction::Rejected));
    assert_eq!(db.file_count(), 0);
}

#[test]
fn a_file_that_cannot_be_processed_is_skipped() {
    let mut db = Database::new();
    let files = disk(&[("/p/a.jpg", 100, 1), ("/p/b.jpg", 200, 2)]);
    let entries: Vec<DirEntryFacts> = files.iter().map(facts).collect();
    let scan = scan_directory_shallow(&entries).unwrap();
    let mut run = SyncRun::new("/p".to_string(), true);
    run.step(&mut db, SyncEvent::Start);
    run.step(&mut db, SyncEvent::Scanned(scan.clone()));
    run.step(&mut db, SyncEvent::Scanned(scan));
    let out = run.step(&mut db, SyncEvent::Processed(Ok(None)));
    match out.action {
        SyncAction::Process(path) => assert_eq!(path, "/p/b.jpg"),
        other => panic!("unexpected action {:?}", other),
    }
    let out = run.step(&mut db, SyncEvent::Processed(process_file(&entries[1])));
    assert!(matches!(out.action, SyncAction::EnsureThumbnail(_, _)));
    let out = run.step(&mut db, SyncEvent::Thumbnail(Ok("/cache/b".to_string())));
    assert!(matches!(out.action, SyncAction::Persist));
    let out = run.step(&mut db, SyncEvent::Done);
    assert!(matches!(
        out.action,
        SyncAction::Finish(SyncSummary { total: 2, upserted: 1, deleted: 0, unchanged: 0 })
    ));
    assert_eq!(paths(&db.files_in_folder("/p")), vec!["/p/b.jpg"]);
}

#[test]
fn a_record_with_a_thumbnail_needs_none() {
    let mut db = Database::new();
    let files = disk(&[("/p/a.jpg", 100, 1)]);
    let entries: Vec<DirEntryFacts> = files.iter().map(facts).collect();
    let scan = scan_directory_shallow(&entries).unwrap();
    let mut run = SyncRun::new("/p".to_string(), true);
    run.step(&mut db, SyncEvent::Start);
    run.step(&mut db, SyncEvent::Scanned(scan.clone()));
    run.step(&mut db, SyncEvent::Scanned(scan));
    let mut record = process_file(&entries[0]).unwrap().unwrap();
    record.thumbnail_path = Some("/cache/ready.jpg".to_string());
    let out = run.step(&mut db, SyncEvent::Processed(Ok(Some(record))));
    assert!(matches!(out.action, SyncAction::Persist));
    assert_eq!(out.batch.len(), 1);
    assert_eq!(out.batch[0].thumbnail_path, Some("/cache/ready.jpg".to_string()));
}

#[test]
fn a_refused_record_fails_the_run() {
    let mut db = Database::new();
    let files = disk(&[("/p/a.jpg", 100, 1), ("/p/b.jpg", 200, 2)]);
    let entries: Vec<DirEntryFacts> = files.iter().map(facts).collect();
    let scan = scan_directory_shallow(&entries).unwrap();
    let mut run = SyncRun::new("/p".to_string(), true);
    run.step(&mut db, SyncEvent::Start);
    run.step(&mut db, SyncEvent::Scanned(scan.clone()));
    run.step(&mut db, SyncEvent::Scanned(scan));
    let first = process_file(&entries[0]).unwrap().unwrap();
    let mut second = process_file(&entries[1]).unwrap().unwrap();
    second.id = first.id.clone();
    run.step(&mut db, SyncEvent::Processed(Ok(Some(first))));
    let out = run.step(&mut db, SyncEvent::Processed(Ok(Some(second))));
    assert!(matches!(out.action, SyncAction::Fail));
    assert_eq!(run.phase(), SyncPhase::Failed);
    assert_eq!(db.file_count(), 1);
}

#[test]
fn progress_is_reported_every_fifty_files() {
    let mut db = Database::new();
    let files: Disk = (0..120).map(|i| (format!("/p/{:03}.jpg", i), 10, i as i64)).collect();
    let trace = drive(&mut db, "/p", &files);
    assert_eq!(PROGRESS_INTERVAL, 50);
    assert_eq!(
        trace.progress,
        vec![
            "Checking folder snapshot...",
            "Scanning for image files...",
            "Checked 50 files...",
            "Checked 100 files...",
        ]
    );
    assert_eq!(
        trace.summary,
        Some(SyncSummary { total: 120, upserted: 120, deleted: 0, unchanged: 0 })
    );
}

#[test]
fn changed_records_are_handed_out_in_batches() {
    let mut db = Database::new();
    let files: Disk = (0..25).map(|i| (format!("/p/{:03}.jpg", i), 10, i as i64)).collect();
    let trace = drive(&mut db, "/p", &files);
    assert_eq!(BATCH_SIZE, 10);
    let sizes: Vec<usize> = trace.batches.iter().map(|b| b.len()).collect();
    assert_eq!(sizes, vec![10, 10, 5]);
    let all: Vec<String> = trace.batches.concat();
    let expected: Vec<String> = files.iter().map(|f| f.0.clone()).collect();
    assert_eq!(all, expected);
}

#[test]
fn snapshot_of_the_scan_is_what_is_persisted() {
    let mut db = Database::new();
    let files = disk(&[("/p/a.jpg", 1, 1_700_000_000), ("/p/b.jpg", 1, 1_600_000_000)]);
    drive(&mut db, "/p", &files);
    let entries: Vec<DirEntryFacts> = files.iter().map(facts).collect();
    let snapshot = compute_folder_snapshot(&scan_directory_shallow(&entries).unwrap());
    assert_eq!(db.get_snapshot("/p"), Some((snapshot.file_count, snapshot.agg_mtime)));
    assert_eq!(snapshot.agg_mtime, 3_300_000_000);
}

#[test]
fn a_failed_processing_or_thumbnail_does_not_end_the_run() {
    let mut db = Database::new();
    let files = disk(&[("/p/a.jpg", 100, 1), ("/p/b.jpg", 200, 2), ("/p/c.jpg", 300, 3)]);
    let entries: Vec<DirEntryFacts> = files.iter().map(facts).collect();
    let scan = scan_directory_shallow(&entries).unwrap();
    let mut run = SyncRun::new("/p".to_string(), true);
    run.step(&mut db, SyncEvent::Start);
    run.step(&mut db, SyncEvent::Scanned(scan.clone()));
    run.step(&mut db, SyncEvent::Scanned(scan));
    let out = run.step(&mut db, SyncEvent::Processed(Err(FileError::Unreadable)));
    match out.action {
        SyncAction::Process(path) => assert_eq!(path, "/p/b.jpg"),
        other => panic!("unexpected action {:?}", other),
    }
    assert_eq!(run.phase(), SyncPhase::Reconciling);
    let out = run.step(&mut db, SyncEvent::Processed(Err(FileError::TimeOutOfRange)));
    assert!(matches!(out.action, SyncAction::Process(_)));
    let out = run.step(&mut db, SyncEvent::Processed(process_file(&entries[2])));
    assert!(matches!(out.action, SyncAction::EnsureThumbnail(_, 300)));
    let out = run.step(&mut db, SyncEvent::Thumbnail(Err(ThumbnailFailure)));
    assert!(matches!(out.action, SyncAction::Persist));
    let out = run.step(&mut db, SyncEvent::Done);
    assert!(matches!(
        out.action,
        SyncAction::Finish(SyncSummary { total: 3, upserted: 1, deleted: 0, unchanged: 0 })
    ));
    assert_eq!(paths(&db.files_in_folder("/p")), vec!["/p/c.jpg"]);
    assert_eq!(db.get_file_by_path("/p/c.jpg").unwrap().thumbnail_path, None);
}
