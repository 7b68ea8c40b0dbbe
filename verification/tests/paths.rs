use nothing::index::FileIndex;
use nothing::mft_reader::MftReader;
use nothing::mft_reader_ntfs::{
    filetime_to_datetime, get_best_file_name, get_file_size, get_timestamps, process_ntfs_file,
    volume_device_path, MftReaderNtfs, NameSpace, RecordAttribute, TableCursor,
};
use nothing::path_resolution::{
    build_path, collect_directories, index_records, is_reserved_name, join_child,
    resolve_directories, root_path, DirRecord, ParentPathMap, RecordTimes, ScanMode, TimesRead,
    VolumeRecord,
};
use nothing::timestamp::Timestamp;

fn dir(id: u64, name: &str, parent_id: u64) -> DirRecord {
    DirRecord { id, name: name.to_string(), parent_id }
}

fn record(id: u64, name: &str, parent_id: u64, is_directory: bool) -> VolumeRecord {
    VolumeRecord {
        record_id: id,
        name: name.to_string(),
        parent_id,
        is_directory,
        size: 77,
        times: TimesRead::Known(RecordTimes {
            created: 116_444_736_000_000_000,
            modified: 116_444_736_010_000_001,
            accessed: 5,
        }),
    }
}

#[test]
fn resolves_children_listed_before_parents() {
    let dirs = vec![
        dir(40, "deep", 30),
        dir(30, "lib", 20),
        dir(20, "src", 10),
        dir(10, "Apps", 5),
    ];
    let map = resolve_directories('C', &dirs);
    assert_eq!(map.len(), 5);
    assert_eq!(map.get(5).unwrap(), "C:\\");
    assert_eq!(map.get(10).unwrap(), "C:\\Apps");
    assert_eq!(map.get(20).unwrap(), "C:\\Apps\\src");
    assert_eq!(map.get(30).unwrap(), "C:\\Apps\\src\\lib");
    assert_eq!(map.get(40).unwrap(), "C:\\Apps\\src\\lib\\deep");
}

#[test]
fn resolves_every_order_of_a_small_tree() {
    let names = [(10u64, "a", 5u64), (11, "b", 10), (12, "c", 11), (13, "d", 10)];
    let orders: [[usize; 4]; 6] = [
        [0, 1, 2, 3],
        [3, 2, 1, 0],
        [2, 0, 3, 1],
        [1, 3, 0, 2],
        [2, 1, 0, 3],
        [3, 0, 2, 1],
    ];
    for order in orders.iter() {
        let dirs: Vec<DirRecord> =
            order.iter().map(|&i| dir(names[i].0, names[i].1, names[i].2)).collect();
        let map = resolve_directories('D', &dirs);
        assert_eq!(map.get(10).unwrap(), "D:\\a");
        assert_eq!(map.get(11).unwrap(), "D:\\a\\b");
        assert_eq!(map.get(12).unwrap(), "D:\\a\\b\\c");
        assert_eq!(map.get(13).unwrap(), "D:\\a\\d");
    }
}

#[test]
fn parent_cycle_stays_unresolved() {
    let dirs = vec![dir(10, "x", 11), dir(11, "y", 10), dir(12, "ok", 5), dir(13, "orphan", 99)];
    let map = resolve_directories('C', &dirs);
    assert!(!map.contains(10));
    assert!(!map.contains(11));
    assert!(!map.contains(13));
    assert_eq!(map.get(12).unwrap(), "C:\\ok");
    assert_eq!(map.len(), 2);
}

#[test]
fn chain_deeper_than_the_cap_in_reverse_order_falls_back() {
    let mut dirs = Vec::new();
    for i in (0..12u64).rev() {
        let parent = if i == 0 { 5 } else { 100 + i - 1 };
        dirs.push(dir(100 + i, &format!("d{}", i), parent));
    }
    let map = resolve_directories('C', &dirs);
    assert!(map.contains(100));
    assert!(map.contains(109));
    assert!(!map.contains(110));
    assert!(!map.contains(111));
    assert_eq!(
        map.get(109).unwrap(),
        "C:\\d0\\d1\\d2\\d3\\d4\\d5\\d6\\d7\\d8\\d9"
    );
    assert_eq!(build_path('C', "file.txt", 111, &map), "C:\\file.txt");
}

#[test]
fn deep_chain_in_parent_first_order_resolves_in_full() {
    let mut dirs = Vec::new();
    let mut expected = String::from("C:");
    for i in 0..40u64 {
        let parent = if i == 0 { 5 } else { 100 + i - 1 };
        dirs.push(dir(100 + i, &format!("d{}", i), parent));
        expected.push_str(&format!("\\d{}", i));
    }
    let map = resolve_directories('C', &dirs);
    assert_eq!(map.len(), 41);
    assert_eq!(map.get(139).unwrap(), &expected);
}

#[test]
fn first_record_of_a_number_wins() {
    let dirs = vec![dir(10, "first", 5), dir(10, "second", 5)];
    let map = resolve_directories('C', &dirs);
    assert_eq!(map.get(10).unwrap(), "C:\\first");
}

#[test]
fn reserved_names() {
    assert!(is_reserved_name("$MFT"));
    assert!(is_reserved_name("$"));
    assert!(is_reserved_name("."));
    assert!(is_reserved_name(".."));
    assert!(!is_reserved_name("..."));
    assert!(!is_reserved_name(".git"));
    assert!(!is_reserved_name(""));
    assert!(!is_reserved_name("a$"));
}

#[test]
fn joins_and_roots() {
    assert_eq!(root_path('E'), "E:\\");
    assert_eq!(join_child("C:\\", "a"), "C:\\a");
    assert_eq!(join_child("C:\\a", "b"), "C:\\a\\b");
    assert_eq!(join_child("", "b"), "\\b");
    assert_eq!(volume_device_path('C'), "\\\\.\\C:");
}

#[test]
fn build_path_cases() {
    let mut map = ParentPathMap::new();
    map.insert(5, "C:\\".to_string());
    map.insert(10, "C:\\Apps".to_string());
    assert_eq!(build_path('C', "f", 5, &map), "C:\\f");
    assert_eq!(build_path('C', "f", 0, &map), "C:\\f");
    assert_eq!(build_path('C', "f", 10, &map), "C:\\Apps\\f");
    assert_eq!(build_path('C', "f", 11, &map), "C:\\f");
}

#[test]
fn collects_only_unreserved_directories() {
    let records = vec![
        record(5, ".", 5, true),
        record(6, "$Extend", 5, true),
        record(10, "Apps", 5, true),
        record(11, "a.txt", 10, false),
    ];
    let dirs = collect_directories(&records);
    assert_eq!(dirs.len(), 1);
    assert_eq!(dirs[0].id, 10);
    assert_eq!(dirs[0].name, "Apps");
    assert_eq!(dirs[0].parent_id, 5);
}

#[test]
fn fast_scan_keeps_names_and_paths_only() {
    let records = vec![
        record(11, "a.txt", 10, false),
        record(6, "$Extend", 5, true),
        record(10, "Apps", 5, true),
        record(12, "loose.txt", 77, false),
    ];
    let reader = MftReader::new('c').unwrap();
    assert_eq!(reader.drive_letter(), 'C');
    let mut index = FileIndex::new();
    reader.scan_into_index(&records, &mut index);
    assert_eq!(index.len(), 3);
    assert_eq!(index.directory_count(), 1);
    assert_eq!(index.file_count(), 2);
    let e = index.entries();
    assert_eq!(e[0].name, "a.txt");
    assert_eq!(e[0].path, "C:\\Apps\\a.txt");
    assert_eq!(e[0].file_id, 11);
    assert_eq!(e[0].parent_id, 10);
    assert_eq!(e[0].size, 0);
    assert_eq!(e[0].modified, None);
    assert_eq!(e[0].created, None);
    assert_eq!(e[0].accessed, None);
    assert_eq!(e[1].path, "C:\\Apps");
    assert!(e[1].is_directory);
    assert_eq!(e[2].path, "C:\\loose.txt");
}

#[test]
fn full_scan_reads_sizes_and_times() {
    let records = vec![record(10, "Apps", 5, true), record(11, "a.txt", 10, false)];
    let reader = MftReaderNtfs::new('Z').unwrap();
    let mut index = FileIndex::new();
    reader.scan_into_index(&records, &mut index);
    let e = index.entries();
    assert_eq!(e[0].size, 0);
    assert_eq!(e[1].size, 77);
    assert_eq!(e[1].path, "Z:\\Apps\\a.txt");
    assert_eq!(e[1].created, Some(Timestamp { secs: 0, nanos: 0 }));
    assert_eq!(e[1].modified, Some(Timestamp { secs: 1, nanos: 100 }));
    assert_eq!(e[1].accessed, None);
}

#[test]
fn scan_appends_to_what_the_index_holds() {
    let mut index = FileIndex::new();
    index_records('C', &vec![record(10, "one", 5, false)], ScanMode::Fast, &mut index);
    index_records('D', &vec![record(10, "two", 5, true)], ScanMode::Fast, &mut index);
    assert_eq!(index.len(), 2);
    assert_eq!(index.entries()[0].path, "C:\\one");
    assert_eq!(index.entries()[1].path, "D:\\two");
    assert_eq!(index.directory_count(), 1);
}

#[test]
fn drive_letters_are_checked() {
    assert!(MftReader::new('1').is_err());
    assert!(MftReader::new('é').is_err());
    assert!(MftReaderNtfs::new(' ').is_err());
    assert_eq!(MftReader::new('x').unwrap().drive_letter(), 'X');
    assert_eq!(MftReaderNtfs::new('Q').unwrap().drive_letter(), 'Q');
    assert_eq!(
        MftReader::new('?').unwrap_err().message(),
        "Invalid drive letter: ?"
    );
    let reader = MftReaderNtfs::new('c').unwrap();
    let mut map = ParentPathMap::new();
    map.insert(9, "C:\\p".to_string());
    assert_eq!(reader.build_path_arc("n", 9, &map), "C:\\p\\n");
    assert_eq!(reader.build_path_recursive("n", 8, &map), "C:\\n");
    assert_eq!(MftReader::new('c').unwrap().build_path_arc("n", 9, &map), "C:\\p\\n");
}

#[test]
fn filetime_conversion() {
    assert_eq!(filetime_to_datetime(0), None);
    assert_eq!(filetime_to_datetime(116_444_735_999_999_999), None);
    assert_eq!(
        filetime_to_datetime(116_444_736_000_000_000),
        Some(Timestamp { secs: 0, nanos: 0 })
    );
    assert_eq!(
        filetime_to_datetime(133_485_408_000_000_000 + 1_234_567),
        Some(Timestamp { secs: 1_704_067_200, nanos: 123_456_700 })
    );
    let last = filetime_to_datetime(u64::MAX).unwrap();
    assert_eq!(last.secs, 1_833_029_933_770);
    assert_eq!(last.nanos, 955_161_500);
}

fn name(namespace: NameSpace, text: &str, parent_id: u64) -> RecordAttribute {
    RecordAttribute::FileName { namespace, name: text.to_string(), parent_id }
}

#[test]
fn long_name_is_preferred() {
    let attrs = vec![
        RecordAttribute::Other,
        name(NameSpace::Dos, "LONGFI~1.TXT", 10),
        name(NameSpace::Win32, "long file name.txt", 10),
        name(NameSpace::Posix, "posix", 10),
    ];
    assert_eq!(get_best_file_name(&attrs, true), Some(2));
    assert_eq!(get_best_file_name(&attrs, false), Some(2));
    let short_only = vec![name(NameSpace::Dos, "A.TXT", 10), name(NameSpace::Posix, "a.txt", 10)];
    assert_eq!(get_best_file_name(&short_only, true), Some(0));
    assert_eq!(get_best_file_name(&short_only, false), None);
    let both = vec![name(NameSpace::Win32AndDos, "a", 1), name(NameSpace::Win32, "b", 1)];
    assert_eq!(get_best_file_name(&both, true), Some(0));
    assert_eq!(get_best_file_name(&vec![RecordAttribute::Other], true), None);
}

#[test]
fn decodes_a_record_from_its_attributes() {
    let times = RecordTimes { created: 1, modified: 2, accessed: 3 };
    let attrs = vec![
        RecordAttribute::StandardInformation { times },
        name(NameSpace::Win32, "report.pdf", 42),
        RecordAttribute::Data { length: 1234 },
        RecordAttribute::Data { length: 99 },
    ];
    assert_eq!(get_file_size(&attrs), 1234);
    assert_eq!(get_file_size(&vec![RecordAttribute::Other]), 0);
    assert!(matches!(get_timestamps(&attrs, false), TimesRead::Known(t) if t.modified == 2));
    assert!(matches!(get_timestamps(&vec![RecordAttribute::Other], true), TimesRead::Absent));
    assert!(matches!(get_timestamps(&vec![RecordAttribute::Other], false), TimesRead::Unreadable));
    let record = process_ntfs_file(7, false, &attrs, true).unwrap();
    assert_eq!(record.record_id, 7);
    assert_eq!(record.name, "report.pdf");
    assert_eq!(record.parent_id, 42);
    assert_eq!(record.size, 1234);
    assert!(matches!(record.times, TimesRead::Known(t) if t.accessed == 3));
    assert!(process_ntfs_file(7, false, &vec![RecordAttribute::Data { length: 1 }], true).is_none());
    let no_times = vec![name(NameSpace::Win32, "n", 5)];
    assert!(matches!(
        process_ntfs_file(7, true, &no_times, false).unwrap().times,
        TimesRead::Unreadable
    ));
    assert!(matches!(process_ntfs_file(7, true, &no_times, true).unwrap().times, TimesRead::Absent));
}

#[test]
fn a_directory_with_unreadable_times_still_resolves_its_children() {
    let mut parent = record(10, "Apps", 5, true);
    parent.times = TimesRead::Unreadable;
    let mut child = record(11, "a.txt", 10, false);
    child.times = TimesRead::Absent;
    let records = vec![parent, child];
    let mut full = FileIndex::new();
    index_records('C', &records, ScanMode::FullMetadata, &mut full);
    assert_eq!(full.len(), 1);
    assert_eq!(full.entries()[0].path, "C:\\Apps\\a.txt");
    assert_eq!(full.entries()[0].size, 77);
    assert_eq!(full.entries()[0].modified, None);
    let mut fast = FileIndex::new();
    index_records('C', &records, ScanMode::Fast, &mut fast);
    assert_eq!(fast.len(), 2);
}

#[test]
fn table_ends_after_a_run_of_missing_records() {
    let mut cursor = TableCursor::new();
    assert!(cursor.advance(true));
    assert!(cursor.advance(false));
    assert!(cursor.advance(true));
    assert_eq!(cursor.found, 2);
    assert_eq!(cursor.consecutive_errors, 0);
    for _ in 0..999 {
        assert!(cursor.advance(false));
    }
    assert!(!cursor.finished());
    assert!(!cursor.advance(false));
    assert!(cursor.finished());
    assert_eq!(cursor.next_record, 1003);
    assert_eq!(cursor.found, 2);
}

#[test]
fn directories_on_a_cycle_are_indexed_under_the_root() {
    let records = vec![
        record(10, "a", 11, true),
        record(11, "b", 10, true),
        record(11, "b2", 10, true),
        record(12, "in_a.txt", 10, false),
        record(13, "self", 13, true),
        record(14, "in_self.txt", 13, false),
    ];
    for mode in [ScanMode::Fast, ScanMode::FullMetadata] {
        let mut index = FileIndex::new();
        index_records('C', &records, mode, &mut index);
        let paths: Vec<&str> = index.entries().iter().map(|e| e.path.as_str()).collect();
        assert_eq!(
            paths,
            vec!["C:\\a", "C:\\b", "C:\\b2", "C:\\in_a.txt", "C:\\self", "C:\\in_self.txt"]
        );
    }
}

#[test]
fn the_order_of_the_records_does_not_matter() {
    let make = || {
        vec![
            record(10, "Apps", 5, true),
            record(20, "src", 10, true),
            record(30, "gui", 20, true),
            record(31, "app.rs", 30, false),
            record(21, "main.rs", 20, false),
            record(11, "README.md", 10, false),
            record(6, "$Extend", 5, true),
        ]
    };
    let orders: [[usize; 7]; 4] =
        [[0, 1, 2, 3, 4, 5, 6], [6, 5, 4, 3, 2, 1, 0], [3, 2, 6, 1, 5, 0, 4], [4, 0, 3, 6, 1, 5, 2]];
    let mut seen: Vec<Vec<(u64, String, u64, bool)>> = Vec::new();
    for order in orders.iter() {
        let mut all: Vec<Option<VolumeRecord>> = make().into_iter().map(Some).collect();
        let records: Vec<VolumeRecord> = order.iter().map(|&i| all[i].take().unwrap()).collect();
        let reader = MftReader::new('C').unwrap();
        let mut index = FileIndex::new();
        reader.scan_into_index(&records, &mut index);
        let mut entries: Vec<(u64, String, u64, bool)> = index
            .entries()
            .iter()
            .map(|e| {
                assert_eq!(e.size, 0);
                assert!(e.modified.is_none() && e.created.is_none() && e.accessed.is_none());
                (e.file_id, e.path.clone(), e.parent_id, e.is_directory)
            })
            .collect();
        entries.sort();
        seen.push(entries);
    }
    assert_eq!(seen[0].len(), 6);
    assert_eq!(seen[0][5].1, "C:\\Apps\\src\\gui\\app.rs");
    for other in seen.iter() {
        assert_eq!(other, &seen[0]);
    }
}

#[test]
fn an_undecodable_attribute_fails_only_what_reads_it() {
    let times = RecordTimes { created: 1, modified: 2, accessed: 3 };
    let bad_times_first = vec![
        RecordAttribute::UnreadableInformation,
        name(NameSpace::Win32, "docs", 5),
        RecordAttribute::StandardInformation { times },
    ];
    let record = process_ntfs_file(9, true, &bad_times_first, true).unwrap();
    assert_eq!(record.name, "docs");
    assert_eq!(record.parent_id, 5);
    assert!(matches!(record.times, TimesRead::Unreadable));
    assert_eq!(get_best_file_name(&bad_times_first, true), Some(1));

    let bad_name_first = vec![
        RecordAttribute::StandardInformation { times },
        RecordAttribute::UnreadableName,
        name(NameSpace::Win32, "docs", 5),
    ];
    assert_eq!(get_best_file_name(&bad_name_first, true), None);
    assert!(process_ntfs_file(9, true, &bad_name_first, true).is_none());
    assert!(matches!(get_timestamps(&bad_name_first, true), TimesRead::Known(t) if t.created == 1));

    let bad_name_after = vec![
        name(NameSpace::Dos, "DOCS", 5),
        name(NameSpace::Win32, "docs", 5),
        RecordAttribute::UnreadableName,
    ];
    assert_eq!(get_best_file_name(&bad_name_after, true), Some(1));
    let short_then_bad = vec![name(NameSpace::Dos, "DOCS", 5), RecordAttribute::UnreadableName];
    assert_eq!(get_best_file_name(&short_then_bad, true), None);
    let good_then_bad_times = vec![
        RecordAttribute::StandardInformation { times },
        RecordAttribute::UnreadableInformation,
    ];
    assert!(matches!(get_timestamps(&good_then_bad_times, true), TimesRead::Known(_)));
}
