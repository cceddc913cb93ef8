use local_gallery::models::Timestamp;
use local_gallery::thumbnail::{
    remove_thumbnails_for_paths, thumbnail_action, thumbnail_file_name, CacheProbe,
    ThumbnailAction, DEFAULT_THUMBNAIL_SIZE, THUMBNAIL_QUALITY,
};

fn at(secs: i64, nanos: u32) -> Option<Timestamp> {
    Some(Timestamp { secs, nanos })
}

#[test]
fn cache_name_is_hash_prefix_size_and_extension() {
    assert_eq!(thumbnail_file_name("abc", 300), "ba7816bf8f01cfea_300.jpg");
    assert_eq!(thumbnail_file_name("", 64), "e3b0c44298fc1c14_64.jpg");
}

#[test]
fn cache_name_is_the_same_for_the_same_request() {
    let first = thumbnail_file_name("/photos/a.jpg", 300);
    let second = thumbnail_file_name("/photos/a.jpg", 300);
    assert_eq!(first, second);
    assert_eq!(first.len(), 16 + 1 + 3 + 4);
}

#[test]
fn cache_name_depends_on_path_and_size() {
    assert_ne!(
        thumbnail_file_name("/photos/a.jpg", 300),
        thumbnail_file_name("/photos/b.jpg", 300)
    );
    assert_ne!(
        thumbnail_file_name("/photos/a.jpg", 300),
        thumbnail_file_name("/photos/a.jpg", 200)
    );
}

#[test]
fn defaults_are_fixed() {
    assert_eq!(DEFAULT_THUMBNAIL_SIZE, 300);
    assert_eq!(THUMBNAIL_QUALITY, 70);
}

#[test]
fn missing_rendition_is_regenerated() {
    let probe = CacheProbe { exists: false, source_modified: at(10, 0), cached_modified: None };
    assert_eq!(thumbnail_action(probe), ThumbnailAction::Regenerate);
    let odd = CacheProbe { exists: false, source_modified: at(10, 0), cached_modified: at(20, 0) };
    assert_eq!(thumbnail_action(odd), ThumbnailAction::Regenerate);
}

#[test]
fn fresh_rendition_is_reused() {
    let newer = CacheProbe { exists: true, source_modified: at(10, 0), cached_modified: at(11, 0) };
    assert_eq!(thumbnail_action(newer), ThumbnailAction::Reuse);
    let equal = CacheProbe { exists: true, source_modified: at(10, 5), cached_modified: at(10, 5) };
    assert_eq!(thumbnail_action(equal), ThumbnailAction::Reuse);
    let by_nanos =
        CacheProbe { exists: true, source_modified: at(10, 5), cached_modified: at(10, 6) };
    assert_eq!(thumbnail_action(by_nanos), ThumbnailAction::Reuse);
}

#[test]
fn stale_rendition_is_regenerated() {
    let older =
        CacheProbe { exists: true, source_modified: at(10, 0), cached_modified: at(9, 999) };
    assert_eq!(thumbnail_action(older), ThumbnailAction::Regenerate);
    let by_nanos =
        CacheProbe { exists: true, source_modified: at(10, 6), cached_modified: at(10, 5) };
    assert_eq!(thumbnail_action(by_nanos), ThumbnailAction::Regenerate);
}

#[test]
fn unreadable_times_lead_to_regeneration() {
    let no_source = CacheProbe { exists: true, source_modified: None, cached_modified: at(9, 0) };
    assert_eq!(thumbnail_action(no_source), ThumbnailAction::Regenerate);
    let no_cache = CacheProbe { exists: true, source_modified: at(9, 0), cached_modified: None };
    assert_eq!(thumbnail_action(no_cache), ThumbnailAction::Regenerate);
}

#[test]
fn second_request_without_source_change_is_a_cache_hit() {
    let source = at(1_700_000_000, 0);
    let first = CacheProbe { exists: false, source_modified: source, cached_modified: None };
    assert_eq!(thumbnail_action(first), ThumbnailAction::Regenerate);
    let written = at(1_700_000_500, 0);
    let second = CacheProbe { exists: true, source_modified: source, cached_modified: written };
    assert_eq!(thumbnail_action(second), ThumbnailAction::Reuse);
    let third = CacheProbe { exists: true, source_modified: source, cached_modified: written };
    assert_eq!(thumbnail_action(third), ThumbnailAction::Reuse);
}

#[test]
fn invalidation_names_one_cache_file_per_path() {
    let paths = vec!["abc".to_string(), "/photos/b.png".to_string(), "abc".to_string()];
    let names = remove_thumbnails_for_paths(&paths, 300);
    assert_eq!(names.len(), 3);
    assert_eq!(names[0], "ba7816bf8f01cfea_300.jpg");
    assert_eq!(names[1], thumbnail_file_name("/photos/b.png", 300));
    assert_eq!(names[2], names[0]);
    assert_eq!(remove_thumbnails_for_paths(&Vec::new(), 300), Vec::<String>::new());
}
