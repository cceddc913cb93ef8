use local_gallery::database::Database;
use local_gallery::models::{FileMeta, Timestamp};
use local_gallery::textmap::TextMap;

fn record(id: &str, path: &str) -> FileMeta {
    FileMeta {
        id: id.to_string(),
        path: path.to_string(),
        name: "n".to_string(),
        size: 1,
        modified: "m".to_string(),
        created: "c".to_string(),
        file_type: "jpg".to_string(),
        dimensions: None,
        thumbnail_path: None,
        tags: vec!["sea".to_string()],
        albums: vec!["2021".to_string(), "trips".to_string()],
        rating: Some(4),
        modified_sec: 1,
        modified_at: Timestamp { secs: 1, nanos: 0 },
    }
}

#[test]
fn text_map_stores_and_replaces() {
    let mut map: TextMap<u32> = TextMap::new();
    assert_eq!(map.get("a"), None);
    map.put("a".to_string(), 1);
    map.put("b".to_string(), 2);
    assert_eq!(map.get("a"), Some(&1));
    assert_eq!(map.get("b"), Some(&2));
    map.put("a".to_string(), 3);
    assert_eq!(map.get("a"), Some(&3));
    assert_eq!(map.keys(), vec!["a", "b"]);
}

#[test]
fn text_map_removes_and_clears() {
    let mut map: TextMap<u32> = TextMap::new();
    map.put("a".to_string(), 1);
    map.put("b".to_string(), 2);
    map.put("c".to_string(), 3);
    map.remove("b");
    assert_eq!(map.get("b"), None);
    assert_eq!(map.get("c"), Some(&3));
    assert_eq!(map.keys(), vec!["a", "c"]);
    map.remove("zzz");
    assert_eq!(map.keys().len(), 2);
    map.clear();
    assert!(map.keys().is_empty());
    assert_eq!(map.get("a"), None);
}

#[test]
fn text_map_keys_are_exact_texts() {
    let mut map: TextMap<u32> = TextMap::new();
    map.put("Key".to_string(), 1);
    assert_eq!(map.get("key"), None);
    assert_eq!(map.get("Key "), None);
    assert_eq!(map.get(""), None);
    map.put(String::new(), 9);
    assert_eq!(map.get(""), Some(&9));
}

#[test]
fn store_lists_what_it_holds() {
    let mut db = Database::new();
    db.add_file(&record("1", "/p/a.jpg"), "/p").unwrap();
    db.add_file(&record("2", "/q/b.jpg"), "/q").unwrap();
    db.save_snapshot("/q", 1, 1);
    db.save_snapshot("/p", 1, 1);
    db.set_setting("theme", "dark");
    db.set_setting("last_selected_folder", "/q");
    let entries = db.all_entries();
    assert_eq!(entries.len(), 2);
    assert_eq!(entries[0].file.id, "1");
    assert_eq!(entries[0].folder, "/p");
    assert_eq!(entries[1].file.path, "/q/b.jpg");
    assert_eq!(entries[1].folder, "/q");
    assert_eq!(db.snapshot_folders(), vec!["/q", "/p"]);
    assert_eq!(db.setting_keys(), vec!["theme", "last_selected_folder"]);
}

#[test]
fn copies_hold_the_same_values() {
    let first = record("1", "/p/a.jpg");
    let copy = first.duplicate();
    assert_eq!(copy.id, first.id);
    assert_eq!(copy.path, first.path);
    assert_eq!(copy.tags, vec!["sea"]);
    assert_eq!(copy.albums, vec!["2021", "trips"]);
    assert_eq!(copy.rating, Some(4));
    let mut db = Database::new();
    db.add_file(&first, "/p").unwrap();
    let stored = db.get_file("1").unwrap();
    assert_eq!(stored.tags, first.tags);
    assert_eq!(stored.albums, first.albums);
    assert_eq!(stored.rating, Some(4));
}
