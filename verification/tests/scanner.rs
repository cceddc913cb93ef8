use local_gallery::indexer::{
    assemble_record, extension_of, is_supported_extension, process_file, scan_directory,
    scan_directory_shallow, seconds_of, size_of, DirEntryFacts, EntryMetadata, FileError,
};
use local_gallery::models::{Dimensions, Timestamp};

fn meta(size: u64, modified: i64) -> Option<EntryMetadata> {
    Some(EntryMetadata {
        size,
        modified: Some(Timestamp { secs: modified, nanos: 0 }),
        created: Some(Timestamp { secs: modified - 10, nanos: 0 }),
    })
}

fn file(
    path: &str,
    name: &str,
    ext: Option<&str>,
    metadata: Option<EntryMetadata>,
) -> DirEntryFacts {
    DirEntryFacts {
        path: path.to_string(),
        file_name: Some(name.to_string()),
        extension: ext.map(|e| e.to_string()),
        is_file: true,
        metadata,
        dimensions: None,
    }
}

fn directory(path: &str) -> DirEntryFacts {
    DirEntryFacts {
        path: path.to_string(),
        file_name: None,
        extension: None,
        is_file: false,
        metadata: None,
        dimensions: None,
    }
}

#[test]
fn supported_extensions_are_the_image_types() {
    for ext in ["jpg", "jpeg", "png", "gif", "bmp", "webp", "tiff", "tif", "ico"] {
        assert!(is_supported_extension(ext), "{}", ext);
    }
    for ext in ["", "txt", "JPG", "jpg ", "svg", "mp4", "jp"] {
        assert!(!is_supported_extension(ext), "{}", ext);
    }
}

#[test]
fn extension_is_judged_in_lower_case() {
    assert_eq!(extension_of(&file("/p/A.JPG", "A.JPG", Some("JPG"), None)), "jpg");
    assert_eq!(extension_of(&file("/p/a.Png", "a.Png", Some("Png"), None)), "png");
    assert_eq!(extension_of(&file("/p/a", "a", None, None)), "");
}

#[test]
fn shallow_scan_lists_images_only() {
    let entries = vec![
        directory("/p"),
        file("/p/a.jpg", "a.jpg", Some("jpg"), meta(100, 1)),
        file("/p/notes.txt", "notes.txt", Some("txt"), meta(5, 9)),
        file("/p/B.PNG", "B.PNG", Some("PNG"), meta(200, 2)),
        file("/p/noext", "noext", None, meta(1, 1)),
    ];
    let listed = scan_directory_shallow(&entries).unwrap();
    assert_eq!(listed.len(), 2);
    assert_eq!(listed[0].path, "/p/a.jpg");
    assert_eq!(listed[0].name, "a.jpg");
    assert_eq!(listed[0].size, 100);
    assert_eq!(listed[0].modified_sec, 1);
    assert_eq!(listed[0].created_sec, 0);
    assert_eq!(listed[0].ext, "jpg");
    assert_eq!(listed[1].path, "/p/B.PNG");
    assert_eq!(listed[1].ext, "png");
    assert_eq!(listed[1].size, 200);
    assert_eq!(listed[1].modified_sec, 2);
}

#[test]
fn shallow_scan_of_empty_folder_is_empty() {
    assert_eq!(scan_directory_shallow(&Vec::new()).unwrap().len(), 0);
    assert_eq!(scan_directory_shallow(&vec![directory("/p")]).unwrap().len(), 0);
}

#[test]
fn shallow_scan_skips_directories_named_like_images() {
    let mut dir = directory("/p/album.jpg");
    dir.extension = Some("jpg".to_string());
    assert_eq!(scan_directory_shallow(&vec![dir]).unwrap().len(), 0);
}

#[test]
fn shallow_scan_fails_at_first_unreadable_image() {
    let entries = vec![
        file("/p/a.jpg", "a.jpg", Some("jpg"), meta(100, 1)),
        file("/p/notes.txt", "notes.txt", Some("txt"), None),
        file("/p/b.png", "b.png", Some("png"), None),
        file("/p/c.png", "c.png", Some("png"), None),
    ];
    let error = scan_directory_shallow(&entries).unwrap_err();
    assert_eq!(error.index, 2);
    assert_eq!(error.cause, FileError::Unreadable);
}

#[test]
fn unreadable_files_of_other_types_do_not_matter() {
    let entries = vec![
        file("/p/notes.txt", "notes.txt", Some("txt"), None),
        file("/p/a.jpg", "a.jpg", Some("jpg"), meta(100, 1)),
    ];
    assert_eq!(scan_directory_shallow(&entries).unwrap().len(), 1);
}

#[test]
fn missing_name_is_listed_as_unknown() {
    let mut entry = file("/p/a.jpg", "a.jpg", Some("jpg"), meta(1, 1));
    entry.file_name = None;
    let listed = scan_directory_shallow(&vec![entry]).unwrap();
    assert_eq!(listed[0].name, "unknown");
}

#[test]
fn times_before_the_epoch_or_missing_count_as_zero() {
    assert_eq!(seconds_of(None), 0);
    assert_eq!(seconds_of(Some(Timestamp { secs: -5, nanos: 1 })), 0);
    assert_eq!(seconds_of(Some(Timestamp { secs: 0, nanos: 0 })), 0);
    assert_eq!(seconds_of(Some(Timestamp { secs: 1_700_000_000, nanos: 999 })), 1_700_000_000);
}

#[test]
fn sizes_wrap_like_a_signed_cast() {
    assert_eq!(size_of(0), 0);
    assert_eq!(size_of(100), 100);
    assert_eq!(size_of(i64::MAX as u64), i64::MAX);
    assert_eq!(size_of(i64::MAX as u64 + 1), i64::MIN);
    assert_eq!(size_of(u64::MAX), -1);
}

#[test]
fn deep_processing_builds_the_record() {
    let mut entry = file(
        "/p/Beach.JPG",
        "Beach.JPG",
        Some("JPG"),
        Some(EntryMetadata {
            size: 2048,
            modified: Some(Timestamp { secs: 1_431_648_000, nanos: 0 }),
            created: Some(Timestamp { secs: 0, nanos: 0 }),
        }),
    );
    entry.dimensions = Some(Dimensions { width: 640, height: 480 });
    let record = process_file(&entry).unwrap().unwrap();
    assert_eq!(record.path, "/p/Beach.JPG");
    assert_eq!(record.name, "Beach.JPG");
    assert_eq!(record.size, 2048);
    assert_eq!(record.modified, "2015-05-15T00:00:00+00:00");
    assert_eq!(record.created, "1970-01-01T00:00:00+00:00");
    assert_eq!(record.modified_sec, 1_431_648_000);
    assert_eq!(record.modified_at, Timestamp { secs: 1_431_648_000, nanos: 0 });
    assert_eq!(record.file_type, "jpg");
    assert_eq!(record.dimensions, Some(Dimensions { width: 640, height: 480 }));
    assert_eq!(record.thumbnail_path, None);
    assert!(record.tags.is_empty());
    assert!(record.albums.is_empty());
    assert_eq!(record.rating, None);
    assert_eq!(record.id.len(), 36);
}

#[test]
fn deep_processing_mints_a_new_identifier_each_time() {
    let entry = file("/p/a.jpg", "a.jpg", Some("jpg"), meta(1, 1));
    let first = process_file(&entry).unwrap().unwrap();
    let second = process_file(&entry).unwrap().unwrap();
    assert_ne!(first.id, second.id);
}

#[test]
fn deep_processing_without_dimensions_still_gives_a_record() {
    let entry = file("/p/broken.png", "broken.png", Some("png"), meta(10, 5));
    let record = process_file(&entry).unwrap().unwrap();
    assert_eq!(record.dimensions, None);
    assert_eq!(record.path, "/p/broken.png");
}

#[test]
fn deep_processing_gives_nothing_for_other_types() {
    let entry = file("/p/notes.txt", "notes.txt", Some("txt"), meta(10, 5));
    assert!(process_file(&entry).unwrap().is_none());
    let unreadable = file("/p/notes.txt", "notes.txt", Some("txt"), None);
    assert!(process_file(&unreadable).unwrap().is_none());
}

#[test]
fn deep_processing_fails_on_unreadable_metadata() {
    let entry = file("/p/a.jpg", "a.jpg", Some("jpg"), None);
    assert_eq!(process_file(&entry).unwrap_err(), FileError::Unreadable);
}

#[test]
fn deep_processing_fails_on_a_time_without_a_date() {
    let entry = file(
        "/p/a.jpg",
        "a.jpg",
        Some("jpg"),
        Some(EntryMetadata {
            size: 1,
            modified: Some(Timestamp { secs: i64::MAX, nanos: 0 }),
            created: None,
        }),
    );
    assert_eq!(process_file(&entry).unwrap_err(), FileError::TimeOutOfRange);
    let bad_nanos = file(
        "/p/a.jpg",
        "a.jpg",
        Some("jpg"),
        Some(EntryMetadata {
            size: 1,
            modified: Some(Timestamp { secs: 0, nanos: 0 }),
            created: Some(Timestamp { secs: 0, nanos: 2_000_000_000 }),
        }),
    );
    assert_eq!(process_file(&bad_nanos).unwrap_err(), FileError::TimeOutOfRange);
}

#[test]
fn missing_times_are_replaced_by_the_current_time() {
    let entry = file(
        "/p/a.jpg",
        "a.jpg",
        Some("jpg"),
        Some(EntryMetadata { size: 1, modified: None, created: None }),
    );
    let record = process_file(&entry).unwrap().unwrap();
    assert_eq!(record.modified_sec, 0);
    assert!(!record.modified.is_empty());
    assert!(!record.created.is_empty());
}

#[test]
fn assembled_record_takes_identifier_and_times_as_given() {
    let entry = file("/p/a.gif", "a.gif", Some("GIF"), meta(77, 123));
    let record = assemble_record(
        &entry,
        entry.metadata.unwrap(),
        "id-1".to_string(),
        Timestamp { secs: 123, nanos: 456 },
        "m".to_string(),
        "c".to_string(),
    );
    assert_eq!(record.id, "id-1");
    assert_eq!(record.modified, "m");
    assert_eq!(record.created, "c");
    assert_eq!(record.file_type, "gif");
    assert_eq!(record.size, 77);
    assert_eq!(record.modified_sec, 123);
    assert_eq!(record.modified_at, Timestamp { secs: 123, nanos: 456 });
}

#[test]
fn deep_scan_processes_regular_files_in_order() {
    let entries = vec![
        directory("/p"),
        file("/p/a.jpg", "a.jpg", Some("jpg"), meta(100, 1)),
        file("/p/notes.txt", "notes.txt", Some("txt"), meta(5, 9)),
        file("/p/b.png", "b.png", Some("png"), meta(200, 2)),
    ];
    let records = scan_directory(&entries).unwrap();
    assert_eq!(records.len(), 2);
    assert_eq!(records[0].path, "/p/a.jpg");
    assert_eq!(records[1].path, "/p/b.png");
    assert_eq!(records[1].size, 200);
}

#[test]
fn deep_scan_fails_at_first_failing_file() {
    let entries = vec![
        file("/p/a.jpg", "a.jpg", Some("jpg"), meta(100, 1)),
        file("/p/b.png", "b.png", Some("png"), None),
    ];
    let error = scan_directory(&entries).unwrap_err();
    assert_eq!(error.index, 1);
    assert_eq!(error.cause, FileError::Unreadable);
}

#[test]
fn the_record_keeps_the_time_its_text_was_written_from() {
    let entry = file(
        "/p/a.jpg",
        "a.jpg",
        Some("jpg"),
        Some(EntryMetadata {
            size: 1,
            modified: Some(Timestamp { secs: 1_431_648_000, nanos: 250_000_000 }),
            created: None,
        }),
    );
    let record = process_file(&entry).unwrap().unwrap();
    assert_eq!(record.modified_at, Timestamp { secs: 1_431_648_000, nanos: 250_000_000 });
    assert_eq!(record.modified, "2015-05-15T00:00:00.250+00:00");
    assert_eq!(record.modified_sec, 1_431_648_000);
}

#[test]
fn a_time_before_the_epoch_is_kept_for_ordering() {
    let entry = file(
        "/p/a.jpg",
        "a.jpg",
        Some("jpg"),
        Some(EntryMetadata {
            size: 1,
            modified: Some(Timestamp { secs: -86_400, nanos: 0 }),
            created: None,
        }),
    );
    let record = process_file(&entry).unwrap().unwrap();
    assert_eq!(record.modified_at, Timestamp { secs: -86_400, nanos: 0 });
    assert_eq!(record.modified, "1969-12-31T00:00:00+00:00");
    assert_eq!(record.modified_sec, 0);
}

#[test]
fn a_missing_time_is_ordered_as_the_current_time() {
    let entry = file(
        "/p/a.jpg",
        "a.jpg",
        Some("jpg"),
        Some(EntryMetadata { size: 1, modified: None, created: None }),
    );
    let record = process_file(&entry).unwrap().unwrap();
    assert!(record.modified_at.secs > 1_600_000_000);
    assert!(record.modified.starts_with("20"));
}
