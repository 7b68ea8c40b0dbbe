use nothing::error::NothingError;
use nothing::export::{csv_header, csv_row, escape_csv_field};
use nothing::file_entry::FileEntry;
use nothing::filters::SearchFilters;
use nothing::gui::app::{
    apply_preset, arrow_selection, is_double_click, navigate_results, FilterPreset, SearchSession,
    SortColumn, SortOrder,
};
use nothing::index::FileIndex;
use nothing::gui::theme::AppTheme;
use nothing::history::{get_history_path, SearchHistory, MAX_HISTORY};
use nothing::metrics::{format_duration, SearchMetrics};
use nothing::multi_drive::{
    cloud_file_entry, get_all_drives, index_cloud_storage_folder, is_cloud_storage_path,
    provider_of_lowercase, CloudProvider, DriveType, WalkedFile,
};
use nothing::search::SearchResult;
use nothing::sector_aligned_reader::{SectorAlignedReader, SeekTarget, BUFFER_SIZE, SECTOR_SIZE};
use nothing::text::{
    contains, count_char, find_char, from_chars, is_whitespace, push_decimal, same_chars,
    split_words, to_chars, trim,
};
use nothing::timestamp::Timestamp;

#[test]
fn stale_search_results_are_not_shown() {
    let mut session = SearchSession::new();
    let first = session.query_changed();
    let second = session.query_changed();
    let third = session.query_changed();
    assert_eq!((first, second, third), (1, 2, 3));
    assert!(!session.begin_search(first));
    assert!(!session.begin_search(second));
    assert!(session.begin_search(third));
    assert!(session.searching);
    assert!(session.complete_search(third));
    assert_eq!(session.shown, Some(3));
    assert!(!session.searching);
    assert!(!session.complete_search(first));
    assert!(!session.complete_search(second));
    assert_eq!(session.shown, Some(3));
    assert_eq!(session.search_id, 3);
    let mut wrapping = SearchSession { search_id: u64::MAX, searching: false, shown: None };
    assert_eq!(wrapping.query_changed(), 0);
}

#[test]
fn column_choice_and_selection() {
    let mut order = SortOrder::new();
    assert_eq!(order, SortOrder { column: SortColumn::Name, ascending: true });
    order.choose_column(SortColumn::Name);
    assert!(!order.ascending);
    order.choose_column(SortColumn::Size);
    assert_eq!(order, SortOrder { column: SortColumn::Size, ascending: true });
    assert_eq!(navigate_results(None, 1, 0), None);
    assert_eq!(navigate_results(Some(3), 1, 0), Some(3));
    assert_eq!(navigate_results(None, 1, 5), Some(0));
    assert_eq!(navigate_results(None, -1, 5), Some(4));
    assert_eq!(navigate_results(None, 0, 5), Some(4));
    assert_eq!(navigate_results(Some(2), 1, 5), Some(3));
    assert_eq!(navigate_results(Some(4), 1, 5), Some(4));
    assert_eq!(navigate_results(Some(0), -1, 5), Some(0));
    assert_eq!(navigate_results(Some(2), i32::MIN, 5), Some(0));
    assert_eq!(navigate_results(Some(usize::MAX), i32::MAX, 5), Some(4));
    assert!(is_double_click(Some((2, 1000)), 2, 1299));
    assert!(!is_double_click(Some((2, 1000)), 2, 1300));
    assert!(!is_double_click(Some((2, 1000)), 3, 1001));
    assert!(!is_double_click(None, 2, 0));
    assert!(is_double_click(Some((2, 1000)), 2, 999));
}

#[test]
fn presets_set_the_filters() {
    let now = Timestamp { secs: 1_000_000_000, nanos: 1 };
    let mut f = SearchFilters::new();
    f.modified_before = Some(now);
    apply_preset(&mut f, FilterPreset::ModifiedLast7Days, now);
    assert_eq!(f.modified_after, Some(Timestamp { secs: 1_000_000_000 - 7 * 86_400, nanos: 1 }));
    assert_eq!(f.modified_before, None);
    apply_preset(&mut f, FilterPreset::ModifiedLastYear, now);
    assert_eq!(f.modified_after, Some(Timestamp { secs: 1_000_000_000 - 365 * 86_400, nanos: 1 }));
    apply_preset(&mut f, FilterPreset::SizeSmall, now);
    assert_eq!((f.min_size, f.max_size), (None, Some(1_048_576)));
    apply_preset(&mut f, FilterPreset::SizeMedium, now);
    assert_eq!((f.min_size, f.max_size), (Some(1_048_576), Some(104_857_600)));
    apply_preset(&mut f, FilterPreset::SizeLarge, now);
    assert_eq!((f.min_size, f.max_size), (Some(104_857_600), None));
    apply_preset(&mut f, FilterPreset::TypeDirs, now);
    assert_eq!(f.is_directory, Some(true));
    apply_preset(&mut f, FilterPreset::TypeFiles, now);
    assert_eq!(f.is_directory, Some(false));
    apply_preset(&mut f, FilterPreset::ExtSpreadsheets, now);
    assert_eq!(f.extensions, vec!["xlsx", "xls", "csv", "ods"]);
    apply_preset(&mut f, FilterPreset::ExtCode, now);
    assert_eq!(f.extensions.len(), 12);
    assert_eq!(f.extensions[4], "java");
    assert_eq!(f.min_size, Some(104_857_600));
}

#[test]
fn themes() {
    assert_eq!(AppTheme::default(), AppTheme::Dark);
    assert_eq!(AppTheme::Dark.name(), "Dark");
    assert_eq!(AppTheme::Light.name(), "Light");
    assert_eq!(AppTheme::Dark.icon(), "☀️");
    assert_eq!(AppTheme::Light.icon(), "🌙");
}

#[test]
fn history_keeps_the_newest_hundred() {
    let mut history = SearchHistory::new();
    for i in 0..105 {
        history.add(&format!("  query {}  ", i));
    }
    assert_eq!(history.queries().len(), MAX_HISTORY);
    assert_eq!(history.queries()[0], "query 5");
    assert_eq!(history.queries()[99], "query 104");
    history.add("   ");
    history.add("");
    assert_eq!(history.queries().len(), 100);
    history.add("query 50");
    assert_eq!(history.queries().len(), 100);
    assert_eq!(history.queries()[99], "query 50");
    assert_eq!(history.queries()[45], "query 51");
    assert_eq!(history.previous("x"), Some("query 50".to_string()));
    assert_eq!(history.current_position(), Some(99));
    history.reset_position();
    assert_eq!(history.current_position(), None);
    assert_eq!(history.next(), None);
    history.clear();
    assert!(history.queries().is_empty());
    assert_eq!(history.previous(""), None);
    assert_eq!(get_history_path("ann"), "C:\\Users\\ann\\.nothing\\history.json");
}

#[test]
fn metrics_and_durations() {
    let mut metrics = SearchMetrics::default();
    assert_eq!(metrics.average_search_time(), 0);
    assert_eq!(metrics.average_matches(), 0);
    assert_eq!(metrics.success_rate(), 0);
    metrics.record_search(7, 0);
    metrics.record_search(8, 3);
    metrics.record_search(9, 2);
    assert_eq!(metrics.average_search_time(), 8);
    assert_eq!(metrics.average_matches(), 1666);
    assert_eq!(metrics.success_rate(), 666);
    assert_eq!(metrics.total_search_time, 24);
    metrics.reset();
    assert_eq!(metrics, SearchMetrics::new());
    assert_eq!(format_duration(0), "0s");
    assert_eq!(format_duration(59), "59s");
    assert_eq!(format_duration(60), "1m 0s");
    assert_eq!(format_duration(3599), "59m 59s");
    assert_eq!(format_duration(3600), "1h 0m");
    assert_eq!(format_duration(7325), "2h 2m");
}

#[test]
fn drives_and_cloud_folders() {
    assert_eq!(DriveType::from_code(3), DriveType::Fixed);
    assert_eq!(DriveType::from_code(2), DriveType::Removable);
    assert_eq!(DriveType::from_code(4), DriveType::Network);
    assert_eq!(DriveType::from_code(5), DriveType::CDRom);
    assert_eq!(DriveType::from_code(6), DriveType::RamDisk);
    assert_eq!(DriveType::from_code(0), DriveType::Unknown);
    assert_eq!(DriveType::from_code(1), DriveType::Unknown);
    assert!(DriveType::Fixed.is_scanned());
    assert!(!DriveType::Network.is_scanned());
    assert_eq!(is_cloud_storage_path("C:\\Users\\a\\Google Drive\\x"), Some(CloudProvider::GoogleDrive));
    assert_eq!(is_cloud_storage_path("G:\\GOOGLEDRIVE"), Some(CloudProvider::GoogleDrive));
    assert_eq!(is_cloud_storage_path("D:\\Dropbox\\OneDrive"), Some(CloudProvider::Dropbox));
    assert_eq!(is_cloud_storage_path("C:\\Users\\a\\OneDrive - Personal"), Some(CloudProvider::OneDrive));
    assert_eq!(is_cloud_storage_path("C:\\Users\\a\\Documents"), None);
    assert_eq!(provider_of_lowercase("C:\\Dropbox"), None);
    let mut present = vec![false; 26];
    present[2] = true;
    present[3] = true;
    present[25] = true;
    assert_eq!(get_all_drives(&present), vec!['C', 'D', 'Z']);
    assert_eq!(get_all_drives(&vec![true]), vec!['A']);
    assert_eq!(get_all_drives(&vec![true; 40]).len(), 26);
    assert!(get_all_drives(&vec![]).is_empty());
}

#[test]
fn error_messages() {
    assert_eq!(
        NothingError::InsufficientPrivileges.message(),
        "Insufficient privileges. Please run as Administrator.\nRight-click PowerShell and select 'Run as Administrator'"
    );
    assert_eq!(NothingError::DriveNotFound('Q').message(), "Drive Q:\\ not found");
    assert_eq!(NothingError::VolumeAccessError("denied".to_string()).message(), "Volume access error: denied");
    assert_eq!(NothingError::MftParseError("bad".to_string()).message(), "MFT parsing error: bad");
    assert_eq!(NothingError::IoError("eof".to_string()).message(), "I/O error: eof");
}

#[test]
fn export_lines() {
    assert_eq!(
        csv_header(),
        "Name,Path,Type,Size (bytes),Size (formatted),Modified,Created,Accessed,Score"
    );
    let result = SearchResult {
        entry: FileEntry::new(
            "a,b.txt".to_string(),
            "C:\\dir\\a,b.txt".to_string(),
            false,
            1,
            2,
            1536,
            Some(Timestamp { secs: 1_704_067_200 + 3_661, nanos: 5 }),
            None,
            Some(Timestamp { secs: 0, nanos: 0 }),
        ),
        score: 84,
    };
    assert_eq!(
        csv_row(&result),
        "\"a,b.txt\",\"C:\\dir\\a,b.txt\",File,1536,1.5 KB,2024-01-01 01:01:01,,1970-01-01 00:00:00,84"
    );
    let copy = result.clone();
    assert_eq!(copy.score, 84);
    assert_eq!(copy.entry.path, result.entry.path);
    let dir = SearchResult {
        entry: FileEntry::new("d".to_string(), "C:\\d".to_string(), true, 1, 2, 0, None, None, None),
        score: 0,
    };
    assert_eq!(csv_row(&dir), "d,C:\\d,Directory,0,0 B,,,,0");
    assert_eq!(escape_csv_field("line\nbreak"), "\"line\nbreak\"");
    assert_eq!(escape_csv_field("\""), "\"\"\"\"");
    assert_eq!(escape_csv_field(""), "");
}

#[test]
fn reads_are_served_from_whole_sectors() {
    let device: Vec<u8> = (0..20_000u32).map(|i| (i % 251) as u8).collect();
    let mut reader = SectorAlignedReader::new();
    let mut reads: Vec<(u64, usize)> = Vec::new();
    let mut serve = |reader: &mut SectorAlignedReader, want: usize| -> Vec<u8> {
        if reader.needs_fill() {
            let at = reader.fill_position();
            assert_eq!(at % SECTOR_SIZE as u64, 0);
            assert!(at <= reader.position());
            let from = (at as usize).min(device.len());
            let to = (from + BUFFER_SIZE).min(device.len());
            reads.push((at, BUFFER_SIZE));
            reader.complete_fill(&device[from..to]);
        }
        let mut out = Vec::new();
        let count = reader.read(&mut out, want);
        assert_eq!(count, out.len());
        out
    };
    assert_eq!(serve(&mut reader, 3), vec![0, 1, 2]);
    assert_eq!(reader.position(), 3);
    assert_eq!(reader.seek(SeekTarget::Start(1000)), Some(1000));
    assert_eq!(serve(&mut reader, 4), device[1000..1004].to_vec());
    assert_eq!(reader.seek(SeekTarget::Current(9000)), Some(10_004));
    let got = serve(&mut reader, 10_000);
    assert_eq!(got, device[10_004..17_920].to_vec());
    assert_eq!(serve(&mut reader, 5), device[17_920..17_925].to_vec());
    assert_eq!(
        reader.seek(SeekTarget::End { offset: -2, device_len: device.len() as u64 }),
        Some(19_998)
    );
    assert_eq!(serve(&mut reader, 100), device[19_998..].to_vec());
    assert_eq!(serve(&mut reader, 100), Vec::<u8>::new());
    assert_eq!(reader.seek(SeekTarget::Current(-1_000_000)), Some(0));
    assert_eq!(reader.seek(SeekTarget::End { offset: 5, device_len: 10 }), Some(15));
    assert_eq!(reader.seek(SeekTarget::Start(u64::MAX)), Some(u64::MAX));
    assert_eq!(reader.seek(SeekTarget::Current(1)), None);
    assert_eq!(reader.position(), u64::MAX);
    assert_eq!(reader.seek(SeekTarget::Current(i64::MIN)), Some(u64::MAX - (1u64 << 63)));
    for (at, len) in reads {
        assert_eq!(at % 512, 0);
        assert_eq!(len % 512, 0);
    }
}

#[test]
fn text_primitives() {
    for c in [' ', '\t', '\n', '\u{b}', '\u{c}', '\r', '\u{85}', '\u{a0}', '\u{1680}', '\u{2000}',
        '\u{200a}', '\u{2028}', '\u{2029}', '\u{202f}', '\u{205f}', '\u{3000}', 'a', '\u{200b}',
        '\u{1f}', '\u{feff}', '0']
    {
        assert_eq!(is_whitespace(c), c.is_whitespace(), "{:?}", c);
    }
    let text = "  two\twords \u{3000}";
    let words: Vec<String> =
        split_words(&to_chars(text)).iter().map(|w| w.iter().collect()).collect();
    assert_eq!(words, text.split_whitespace().collect::<Vec<_>>());
    assert!(split_words(&to_chars(" \n ")).is_empty());
    assert_eq!(trim(&to_chars(text)), to_chars(text.trim()));
    assert_eq!(trim(&to_chars("   ")), Vec::<char>::new());
    assert_eq!(to_chars("añb"), vec!['a', 'ñ', 'b']);
    assert_eq!(from_chars(&to_chars("hello"), 1, 3), "el");
    assert!(contains(&to_chars("haystack"), &to_chars("st")));
    assert!(contains(&to_chars("haystack"), &to_chars("")));
    assert!(contains(&to_chars("abc"), &to_chars("abc")));
    assert!(!contains(&to_chars("ab"), &to_chars("abc")));
    assert!(!contains(&to_chars("aab"), &to_chars("aba")));
    assert_eq!(find_char(&to_chars("a:b:c"), ':', 2), 3);
    assert_eq!(find_char(&to_chars("abc"), ':', 0), 3);
    assert_eq!(count_char(&to_chars("a-b-c"), '-'), 2);
    assert!(same_chars(&to_chars("x"), &to_chars("x")));
    assert!(!same_chars(&to_chars("x"), &to_chars("y")));
    let mut s = String::from("n=");
    push_decimal(&mut s, 0);
    push_decimal(&mut s, 10_203);
    push_decimal(&mut s, u64::MAX);
    assert_eq!(s, format!("n=0{}{}", 10_203, u64::MAX));
}

#[test]
fn results_sort_by_the_chosen_column() {
    let make = |name: &str, path: &str, dir: bool, size: u64, modified: Option<i64>| SearchResult {
        entry: FileEntry::new(
            name.to_string(),
            path.to_string(),
            dir,
            0,
            0,
            size,
            modified.map(|s| Timestamp { secs: s, nanos: 0 }),
            None,
            None,
        ),
        score: 1,
    };
    let fresh = || {
        vec![
            make("beta", "C:\\2", false, 30, Some(50)),
            make("Alpha", "C:\\4", true, 0, None),
            make("alpha", "C:\\1", false, 30, Some(-5)),
            make("be", "C:\\3", true, 10, Some(50)),
            make("émile", "C:\\0", false, 20, Some(7)),
        ]
    };
    let order_of = |column, ascending| {
        let mut results = fresh();
        nothing::gui::app::sort_results(&mut results, SortOrder { column, ascending });
        results.iter().map(|r| r.entry.name.clone()).collect::<Vec<_>>()
    };
    let reference = |column: SortColumn, ascending: bool| {
        let mut results = fresh();
        results.sort_by(|a, b| {
            let ordering = match column {
                SortColumn::Name => a.entry.name.cmp(&b.entry.name),
                SortColumn::Path => a.entry.path.cmp(&b.entry.path),
                SortColumn::Size => a.entry.size.cmp(&b.entry.size),
                SortColumn::Modified => {
                    let key = |r: &SearchResult| r.entry.modified.map(|t| t.secs).unwrap_or(0);
                    key(a).cmp(&key(b))
                }
                SortColumn::Type => a.entry.is_directory.cmp(&b.entry.is_directory),
            };
            if ascending { ordering } else { ordering.reverse() }
        });
        results.iter().map(|r| r.entry.name.clone()).collect::<Vec<_>>()
    };
    for column in [
        SortColumn::Name,
        SortColumn::Path,
        SortColumn::Size,
        SortColumn::Modified,
        SortColumn::Type,
    ] {
        for ascending in [true, false] {
            assert_eq!(order_of(column, ascending), reference(column, ascending));
        }
    }
    assert_eq!(order_of(SortColumn::Name, true), vec!["Alpha", "alpha", "be", "beta", "émile"]);
    assert_eq!(order_of(SortColumn::Size, false), vec!["beta", "alpha", "émile", "be", "Alpha"]);
    assert_eq!(order_of(SortColumn::Type, true), vec!["beta", "alpha", "émile", "Alpha", "be"]);
}

#[test]
fn entries_of_a_cloud_walk() {
    let t = Timestamp { secs: 9, nanos: 8 };
    let e = cloud_file_entry("n".to_string(), "p\\n".to_string(), true, Some(4096), Some(t), None);
    assert_eq!(e.name, "n");
    assert_eq!(e.path, "p\\n");
    assert!(e.is_directory);
    assert_eq!((e.file_id, e.parent_id, e.size), (0, 0, 0));
    assert_eq!((e.modified, e.created, e.accessed), (Some(t), None, None));
    let f = cloud_file_entry("f".to_string(), "f".to_string(), false, Some(4096), None, Some(t));
    assert_eq!((f.file_id, f.parent_id, f.size), (0, 0, 4096));
    assert_eq!((f.modified, f.created, f.accessed), (None, Some(t), None));
    let g = cloud_file_entry("g".to_string(), "g".to_string(), false, None, None, None);
    assert_eq!((g.file_id, g.size), (0, 0));
}

#[test]
fn a_cloud_walk_is_added_in_its_order() {
    let t = Timestamp { secs: 100, nanos: 0 };
    let walked = vec![
        WalkedFile {
            name: "Dropbox".to_string(),
            path: "C:\\Users\\u\\Dropbox".to_string(),
            is_directory: true,
            len: Some(4096),
            modified: Some(t),
            created: None,
        },
        WalkedFile {
            name: "a.txt".to_string(),
            path: "C:\\Users\\u\\Dropbox\\a.txt".to_string(),
            is_directory: false,
            len: Some(12),
            modified: None,
            created: Some(t),
        },
        WalkedFile {
            name: "b".to_string(),
            path: "C:\\Users\\u\\Dropbox\\b".to_string(),
            is_directory: false,
            len: None,
            modified: None,
            created: None,
        },
    ];
    let mut index = FileIndex::new();
    index.add_entry(FileEntry::new(
        "kept".to_string(),
        "C:\\kept".to_string(),
        false,
        77,
        5,
        1,
        None,
        None,
        None,
    ));
    assert_eq!(index_cloud_storage_folder(&mut index, &walked), 3);
    assert_eq!(index.len(), 4);
    assert_eq!((index.file_count(), index.directory_count()), (3, 1));
    let entries = index.entries();
    assert_eq!(entries[0].file_id, 77);
    let got: Vec<(&str, &str, bool, u64, u64, u64)> = entries[1..]
        .iter()
        .map(|e| (e.name.as_str(), e.path.as_str(), e.is_directory, e.file_id, e.parent_id, e.size))
        .collect();
    assert_eq!(
        got,
        vec![
            ("Dropbox", "C:\\Users\\u\\Dropbox", true, 0, 0, 0),
            ("a.txt", "C:\\Users\\u\\Dropbox\\a.txt", false, 0, 0, 12),
            ("b", "C:\\Users\\u\\Dropbox\\b", false, 0, 0, 0),
        ]
    );
    assert_eq!((entries[1].modified, entries[1].created, entries[1].accessed), (Some(t), None, None));
    assert_eq!((entries[2].modified, entries[2].created, entries[2].accessed), (None, Some(t), None));
    assert_eq!(index_cloud_storage_folder(&mut index, &Vec::new()), 0);
    assert_eq!(index.len(), 4);
}

#[test]
fn arrow_keys_move_the_selection() {
    assert_eq!(arrow_selection(None, true, 3), Some(0));
    assert_eq!(arrow_selection(Some(0), true, 3), Some(1));
    assert_eq!(arrow_selection(Some(2), true, 3), Some(2));
    assert_eq!(arrow_selection(None, false, 3), None);
    assert_eq!(arrow_selection(Some(2), false, 3), Some(1));
    assert_eq!(arrow_selection(Some(0), false, 3), Some(0));
    assert_eq!(arrow_selection(Some(1), true, 0), Some(1));
    assert_eq!(arrow_selection(None, true, 0), None);
    assert_eq!(arrow_selection(None, false, 0), None);
}
