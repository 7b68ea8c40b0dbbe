use nothing::file_entry::FileEntry;
use nothing::index::{estimate_footprint, last_segment, FileIndex};
use nothing::persistence::{
    decode_bookmark, encode_bookmark, get_bookmark_path, get_index_path, get_nothing_dir,
    restore_index, snapshot_entries,
};
use nothing::timestamp::Timestamp;
use nothing::usn_monitor::{
    create_file_entry_from_path, process_filesystem_event, ChangeEvent, PathMetadata,
};

fn entry(name: &str, path: &str, is_directory: bool, file_id: u64) -> FileEntry {
    FileEntry::new(
        name.to_string(),
        path.to_string(),
        is_directory,
        file_id,
        5,
        if is_directory { 0 } else { 100 },
        None,
        None,
        None,
    )
}

fn counts_hold(index: &FileIndex) {
    let dirs = index.entries().iter().filter(|e| e.is_directory).count();
    assert_eq!(index.directory_count(), dirs);
    assert_eq!(index.file_count() + index.directory_count(), index.len());
    assert_eq!(index.is_empty(), index.len() == 0);
}

#[test]
fn counts_follow_adds_and_removes() {
    let mut index = FileIndex::with_capacity(4);
    counts_hold(&index);
    index.add_entry(entry("a", "C:\\a", true, 1));
    index.add_entry(entry("b.txt", "C:\\a\\b.txt", false, 2));
    index.add_entry(entry("c", "C:\\c", true, 3));
    index.add_entry(entry("d.txt", "C:\\d.txt", false, 4));
    counts_hold(&index);
    assert_eq!(index.directory_count(), 2);
    assert_eq!(index.file_count(), 2);
    index.remove(1);
    counts_hold(&index);
    assert_eq!(index.directory_count(), 1);
    index.remove(99);
    assert_eq!(index.len(), 3);
    index.remove_by_path("C:\\d.txt");
    counts_hold(&index);
    assert_eq!(index.file_count(), 1);
    index.remove_by_path("C:\\c");
    index.remove_by_path("C:\\nowhere");
    counts_hold(&index);
    assert_eq!(index.len(), 1);
    assert_eq!(index.entries()[0].name, "b.txt");
    index.remove(2);
    counts_hold(&index);
    assert!(index.is_empty());
    index.reserve(10);
    assert!(index.is_empty());
}

#[test]
fn removal_takes_the_first_of_equals() {
    let mut index = FileIndex::new();
    index.add_entry(entry("one", "C:\\same", false, 7));
    index.add_entry(entry("two", "C:\\same", true, 7));
    index.remove_by_path("C:\\same");
    assert_eq!(index.len(), 1);
    assert_eq!(index.entries()[0].name, "two");
    assert_eq!(index.directory_count(), 1);
    index.add_entry(entry("three", "C:\\other", false, 7));
    index.remove(7);
    assert_eq!(index.entries()[0].name, "three");
    assert_eq!(index.directory_count(), 0);
}

#[test]
fn updates_change_the_first_entry_found() {
    let mut index = FileIndex::new();
    index.add_entry(entry("a.txt", "C:\\a.txt", false, 1));
    index.add_entry(entry("b.txt", "C:\\b.txt", false, 2));
    index.add_entry(entry("b2.txt", "C:\\b.txt", false, 2));
    index.update_size(2, 4096);
    assert_eq!(index.entries()[1].size, 4096);
    assert_eq!(index.entries()[2].size, 100);
    let t = Timestamp { secs: 1_700_000_000, nanos: 5 };
    index.update_modified(1, t);
    assert_eq!(index.entries()[0].modified, Some(t));
    index.update_path(2, "D:\\moved\\renamed.txt".to_string());
    assert_eq!(index.entries()[1].path, "D:\\moved\\renamed.txt");
    assert_eq!(index.entries()[1].name, "renamed.txt");
    index.update_path(1, "plain".to_string());
    assert_eq!(index.entries()[0].name, "plain");
    index.update_path(1, "C:\\dir\\".to_string());
    assert_eq!(index.entries()[0].name, "");
    index.update_size(42, 1);
    index.update_metadata_by_path("C:\\b.txt", 9, Some(86_400));
    assert_eq!(index.entries()[2].size, 9);
    assert_eq!(index.entries()[2].modified, Some(Timestamp { secs: 86_400, nanos: 0 }));
    index.update_metadata_by_path("C:\\b.txt", 10, None);
    assert_eq!(index.entries()[2].size, 10);
    assert_eq!(index.entries()[2].modified, Some(Timestamp { secs: 86_400, nanos: 0 }));
    index.update_metadata_by_path("C:\\b.txt", 11, Some(i64::MAX));
    assert_eq!(index.entries()[2].modified, None);
    counts_hold(&index);
    assert_eq!(last_segment("a\\b\\c"), "c");
}

#[test]
fn memory_estimate_covers_the_contents() {
    let mut index = FileIndex::new();
    let empty = index.memory_usage();
    index.add_entry(entry("name", "C:\\some\\path", false, 1));
    let used = index.memory_usage();
    assert!(used >= std::mem::size_of::<FileEntry>() + "name".len() + "C:\\some\\path".len());
    assert!(used > empty);
    assert_eq!(empty, std::mem::size_of::<Vec<FileEntry>>());
    assert!(used < usize::MAX);
    assert_eq!(estimate_footprint(24, 10, 100, 50), 1074);
    assert_eq!(estimate_footprint(1, usize::MAX, 2, 0), usize::MAX);
    assert_eq!(estimate_footprint(usize::MAX, 0, 0, 1), usize::MAX);
}

fn metadata(is_directory: bool, len: u64) -> PathMetadata {
    PathMetadata {
        is_directory,
        len,
        modified: Some(1_700_000_000),
        created: None,
        accessed: Some(-1),
    }
}

#[test]
fn reported_entries_have_no_record_numbers() {
    let e = create_file_entry_from_path(
        "C:\\new\\file.bin".to_string(),
        "file.bin".to_string(),
        &metadata(false, 512),
    );
    assert_eq!(e.name, "file.bin");
    assert_eq!(e.path, "C:\\new\\file.bin");
    assert_eq!(e.file_id, 0);
    assert_eq!(e.parent_id, 0);
    assert_eq!(e.size, 512);
    assert_eq!(e.modified, Some(Timestamp { secs: 1_700_000_000, nanos: 0 }));
    assert_eq!(e.created, None);
    assert_eq!(e.accessed, Some(Timestamp { secs: -1, nanos: 0 }));
    let d = create_file_entry_from_path("C:\\d".to_string(), "d".to_string(), &metadata(true, 4096));
    assert!(d.is_directory);
    assert_eq!(d.size, 0);
}

#[test]
fn create_then_remove_leaves_the_index_as_it_was() {
    let mut index = FileIndex::new();
    index.add_entry(entry("keep", "C:\\keep", true, 1));
    process_filesystem_event(
        ChangeEvent::Created {
            path: "C:\\tmp.txt".to_string(),
            name: "tmp.txt".to_string(),
            metadata: metadata(false, 3),
        },
        &mut index,
    );
    assert_eq!(index.len(), 2);
    assert_eq!(index.file_count(), 1);
    process_filesystem_event(ChangeEvent::Removed { path: "C:\\tmp.txt".to_string() }, &mut index);
    assert_eq!(index.len(), 1);
    assert_eq!(index.entries()[0].path, "C:\\keep");
    assert_eq!(index.file_count(), 0);
    assert_eq!(index.directory_count(), 1);
}

#[test]
fn modification_updates_size_and_time() {
    let mut index = FileIndex::new();
    index.add_entry(entry("f", "C:\\f", false, 1));
    process_filesystem_event(
        ChangeEvent::Modified { path: "C:\\f".to_string(), len: 2048, modified: Some(60) },
        &mut index,
    );
    assert_eq!(index.entries()[0].size, 2048);
    assert_eq!(index.entries()[0].modified, Some(Timestamp { secs: 60, nanos: 0 }));
    process_filesystem_event(
        ChangeEvent::Modified { path: "C:\\missing".to_string(), len: 1, modified: None },
        &mut index,
    );
    assert_eq!(index.len(), 1);
    assert_eq!(index.entries()[0].size, 2048);
}

#[test]
fn snapshot_restores_every_field() {
    let mut index = FileIndex::new();
    let t = Timestamp { secs: 1_704_067_200, nanos: 999 };
    index.add_entry(FileEntry::new(
        "test_file.txt".to_string(),
        "C:\\Test\\test_file.txt".to_string(),
        false,
        12345,
        0,
        1024,
        Some(t),
        Some(t),
        None,
    ));
    index.add_entry(entry("Test", "C:\\Test", true, 9));
    let restored = restore_index(snapshot_entries(&index));
    assert_eq!(restored.file_count(), index.file_count());
    assert_eq!(restored.directory_count(), 1);
    assert_eq!(restored.len(), 2);
    for (a, b) in restored.entries().iter().zip(index.entries().iter()) {
        assert_eq!(a.name, b.name);
        assert_eq!(a.path, b.path);
        assert_eq!(a.is_directory, b.is_directory);
        assert_eq!(a.file_id, b.file_id);
        assert_eq!(a.parent_id, b.parent_id);
        assert_eq!(a.size, b.size);
        assert_eq!(a.modified, b.modified);
        assert_eq!(a.created, b.created);
        assert_eq!(a.accessed, b.accessed);
    }
    let rebuilt = FileIndex::from_entries(vec![entry("d", "C:\\d", true, 1), entry("f", "C:\\f", false, 2)]);
    assert_eq!(rebuilt.directory_count(), 1);
    assert_eq!(rebuilt.file_count(), 1);
}

#[test]
fn snapshot_and_bookmark_places() {
    assert_eq!(get_nothing_dir("ann"), "C:\\Users\\ann\\.nothing");
    assert_eq!(get_index_path("C:\\Users\\ann\\.nothing", 'D'), "C:\\Users\\ann\\.nothing\\index_D.bin");
    assert_eq!(get_bookmark_path("dir", 'C'), "dir\\bookmark_C.dat");
}

#[test]
fn bookmark_bytes() {
    assert_eq!(encode_bookmark(0x0102_0304_0506_0708), vec![8, 7, 6, 5, 4, 3, 2, 1]);
    assert_eq!(decode_bookmark(&[8, 7, 6, 5, 4, 3, 2, 1]), Some(0x0102_0304_0506_0708));
    assert_eq!(decode_bookmark(&encode_bookmark(u64::MAX)), Some(u64::MAX));
    assert_eq!(decode_bookmark(&[1, 2, 3]), None);
    assert_eq!(decode_bookmark(&[0; 9]), None);
}
