use local_gallery::database::{CatalogError, Database};
use local_gallery::models::{FileMeta, Timestamp};
use local_gallery::watcher::{
    apply_watch_remove, apply_watch_upsert, watch_action, WatchAction, WatchEventKind,
    WatchRegistry,
};

fn record(id: &str, path: &str) -> FileMeta {
    FileMeta {
        id: id.to_string(),
        path: path.to_string(),
        name: "n".to_string(),
        size: 1,
        modified: "m".to_string(),
        created: "c".to_string(),
        file_type: "jpg".to_string(),
        dimensions: None,
        thumbnail_path: None,
        tags: Vec::new(),
        albums: Vec::new(),
        rating: None,
        modified_sec: 1,
        modified_at: Timestamp { secs: 1, nanos: 0 },
    }
}

fn ext(e: &str) -> Option<String> {
    Some(e.to_string())
}

#[test]
fn access_events_are_ignored() {
    assert_eq!(watch_action(WatchEventKind::Access, &ext("jpg")), WatchAction::Ignore);
    assert_eq!(watch_action(WatchEventKind::Other, &ext("jpg")), WatchAction::Ignore);
}

#[test]
fn created_and_modified_images_are_upserted() {
    assert_eq!(watch_action(WatchEventKind::Create, &ext("jpg")), WatchAction::Upsert);
    assert_eq!(watch_action(WatchEventKind::Modify, &ext("PNG")), WatchAction::Upsert);
    assert_eq!(watch_action(WatchEventKind::Create, &ext("tiff")), WatchAction::Upsert);
    assert_eq!(watch_action(WatchEventKind::Modify, &ext("ico")), WatchAction::Upsert);
}

#[test]
fn removed_images_are_removed() {
    assert_eq!(watch_action(WatchEventKind::Remove, &ext("gif")), WatchAction::Remove);
    assert_eq!(watch_action(WatchEventKind::Remove, &ext("WebP")), WatchAction::Remove);
}

#[test]
fn other_file_types_are_ignored() {
    assert_eq!(watch_action(WatchEventKind::Create, &ext("txt")), WatchAction::Ignore);
    assert_eq!(watch_action(WatchEventKind::Modify, &None), WatchAction::Ignore);
    assert_eq!(watch_action(WatchEventKind::Remove, &ext("db")), WatchAction::Ignore);
    assert_eq!(watch_action(WatchEventKind::Remove, &ext("")), WatchAction::Ignore);
}

#[test]
fn watch_upsert_attaches_the_thumbnail() {
    let mut db = Database::new();
    let done = apply_watch_upsert(
        &mut db,
        "/p",
        record("1", "/p/a.jpg"),
        Some("/cache/t.jpg".to_string()),
    );
    assert_eq!(done, Ok(()));
    let stored = db.get_file("1").unwrap();
    assert_eq!(stored.thumbnail_path, Some("/cache/t.jpg".to_string()));
    assert_eq!(db.files_in_folder("/p").len(), 1);
}

#[test]
fn watch_upsert_without_thumbnail_keeps_the_record_as_it_is() {
    let mut db = Database::new();
    let mut with_old = record("1", "/p/a.jpg");
    with_old.thumbnail_path = Some("/cache/old.jpg".to_string());
    assert_eq!(apply_watch_upsert(&mut db, "/p", with_old, None), Ok(()));
    assert_eq!(db.get_file("1").unwrap().thumbnail_path, Some("/cache/old.jpg".to_string()));
    assert_eq!(apply_watch_upsert(&mut db, "/p", record("2", "/p/b.jpg"), None), Ok(()));
    assert_eq!(db.get_file("2").unwrap().thumbnail_path, None);
}

#[test]
fn watch_upsert_of_a_known_path_keeps_its_identifier() {
    let mut db = Database::new();
    apply_watch_upsert(&mut db, "/p", record("1", "/p/a.jpg"), None).unwrap();
    let mut newer = record("2", "/p/a.jpg");
    newer.size = 99;
    apply_watch_upsert(&mut db, "/p", newer, None).unwrap();
    assert_eq!(db.file_count(), 1);
    assert_eq!(db.get_file("1").unwrap().size, 99);
}

#[test]
fn watch_upsert_reports_a_refused_record() {
    let mut db = Database::new();
    apply_watch_upsert(&mut db, "/p", record("1", "/p/a.jpg"), None).unwrap();
    assert_eq!(
        apply_watch_upsert(&mut db, "/p", record("1", "/p/b.jpg"), None),
        Err(CatalogError::DuplicateId)
    );
    assert_eq!(db.file_count(), 1);
}

#[test]
fn watch_remove_deletes_by_path() {
    let mut db = Database::new();
    apply_watch_upsert(&mut db, "/p", record("1", "/p/a.jpg"), None).unwrap();
    apply_watch_upsert(&mut db, "/p", record("2", "/p/b.jpg"), None).unwrap();
    apply_watch_remove(&mut db, "/p/a.jpg");
    assert!(db.get_file("1").is_none());
    assert!(db.get_file("2").is_some());
    apply_watch_remove(&mut db, "/p/a.jpg");
    assert_eq!(db.file_count(), 1);
}

#[test]
fn subscribing_twice_starts_one_watcher() {
    let mut registry = WatchRegistry::new();
    assert!(!registry.is_watching("/p"));
    assert!(registry.subscribe("/p"));
    assert!(registry.is_watching("/p"));
    assert!(!registry.subscribe("/p"));
    assert!(registry.is_watching("/p"));
    assert!(registry.subscribe("/q"));
    assert!(!registry.subscribe("/q"));
    assert!(!registry.is_watching("/P"));
}
