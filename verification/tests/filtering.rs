use chrono::{DateTime, NaiveDate, Utc};
use nothing::file_entry::FileEntry;
use nothing::filters::{
    apply_filter, extract_search_query, format_date, format_size, join, parse_extensions,
    parse_size, path_extension, type_of_lowercase, FilterError, SearchFilters,
};
use nothing::sizes::{format_scaled, parse_size_text, read_size};
use nothing::timestamp::{Timestamp, MAX_UNIX_SECS, MIN_UNIX_SECS};

fn now() -> Timestamp {
    Timestamp::from_unix(1_704_067_200 + 3_600, 250).unwrap()
}

fn parse(text: &str) -> SearchFilters {
    SearchFilters::parse_filter_string_at(text, now()).unwrap()
}

fn file(path: &str, size: u64, modified: Option<i64>, created: Option<i64>) -> FileEntry {
    FileEntry::new(
        path.rsplit('\\').next().unwrap().to_string(),
        path.to_string(),
        false,
        1,
        5,
        size,
        modified.map(|s| Timestamp { secs: s, nanos: 0 }),
        created.map(|s| Timestamp { secs: s, nanos: 0 }),
        None,
    )
}

#[test]
fn size_texts() {
    assert_eq!(parse_size("0").unwrap(), 0);
    assert_eq!(parse_size("100b").unwrap(), 100);
    assert_eq!(parse_size("1KB").unwrap(), 1024);
    assert_eq!(parse_size(" 2 Gb ").unwrap(), 2 * 1024 * 1024 * 1024);
    assert_eq!(parse_size("1tb").unwrap(), 1_099_511_627_776);
    assert_eq!(parse_size("100mb").unwrap(), 104_857_600);
    assert_eq!(parse_size(".5kb").unwrap(), 512);
    assert_eq!(parse_size("5.").unwrap(), 5);
    assert_eq!(parse_size("+3kb").unwrap(), 3072);
    assert_eq!(parse_size("-3kb").unwrap(), 0);
    assert_eq!(parse_size("0.1kb").unwrap(), 102);
    assert_eq!(parse_size("0.999b").unwrap(), 0);
    assert_eq!(parse_size("1.9999999999999999999999999999999999999999999999kb").unwrap(), 2047);
    assert_eq!(parse_size("0.00000000000000000000000000000000000000000000001tb").unwrap(), 0);
    assert_eq!(parse_size("18446744073709551615").unwrap(), u64::MAX);
    assert_eq!(parse_size("18446744073709551616").unwrap(), u64::MAX);
    assert_eq!(parse_size("99999999999999999999999999tb").unwrap(), u64::MAX);
    assert_eq!(parse_size("16777216tb").unwrap(), u64::MAX);
    assert_eq!(parse_size("16777215.5tb").unwrap(), 18_446_743_523_953_737_728);
}

#[test]
fn size_texts_that_are_refused() {
    for bad in ["", "kb", "b", "abc", "1.2.3", "1,5mb", ".", "+", "-", "1e3", "1 0", "12xb"] {
        match parse_size(bad) {
            Err(FilterError::InvalidSize(_)) => {}
            other => panic!("{:?} gave {:?}", bad, other),
        }
    }
    let e = parse_size(" 1x5 MB").unwrap_err();
    assert_eq!(e.message(), "Invalid size number: 1x5 ");
    assert_eq!(read_size("abc").unwrap_err(), vec!['a', 'b', 'c']);
    assert_eq!(parse_size_text(&"1.5mb".chars().collect()), Ok(1_572_864));
}

#[test]
fn sizes_for_reading_agree_with_floating_point() {
    let values = [
        0u64, 1, 512, 1023, 1024, 1025, 1075, 1280, 1536, 1792, 2047, 10_000, 104_857, 1_048_575,
        1_048_576, 1_572_864, 5_600_000, 150_000_000, 1_073_741_824, 1_099_511_627_775,
        1_099_511_627_776, 45_035_996_273_704_96, 1_125_899_906_842_624, 9_007_199_254_740_991,
    ];
    let units = ["B", "KB", "MB", "GB", "TB", "PB"];
    for &v in values.iter() {
        for (max_index, places) in [(4usize, 1usize), (5, 2)] {
            let mut size = v as f64;
            let mut idx = 0;
            while size >= 1024.0 && idx < max_index {
                size /= 1024.0;
                idx += 1;
            }
            let expected = if idx == 0 {
                format!("{} B", v)
            } else if places == 1 {
                format!("{:.1} {}", size, units[idx])
            } else {
                format!("{:.2} {}", size, units[idx])
            };
            assert_eq!(format_scaled(v, max_index, places), expected);
        }
    }
    assert_eq!(format_size(1280), "1.2 KB");
    assert_eq!(format_size(1792), "1.8 KB");
    assert_eq!(format_size(u64::MAX), "16777216.0 TB");
    assert_eq!(nothing::mft_reader::format_size(1536), "1.50 KB");
    assert_eq!(nothing::mft_reader::format_size(999), "999 B");
    assert_eq!(nothing::mft_reader::format_size(1 << 50), "1.00 PB");
    assert_eq!(nothing::mft_reader::format_size(1_048_571), "1024.00 KB");
    assert_eq!(nothing::mft_reader::format_size(1_048_570), "1023.99 KB");
}

#[test]
fn filters_from_one_string() {
    let f = parse("size:>100mb ext:rs,md type:file");
    assert_eq!(f.min_size, Some(104_857_600));
    assert_eq!(f.max_size, None);
    assert_eq!(f.extensions, vec!["rs", "md"]);
    assert_eq!(f.is_directory, Some(false));
    assert!(!f.is_empty());
}

#[test]
fn size_filter_forms() {
    let f = parse("size:<1gb");
    assert_eq!((f.min_size, f.max_size), (None, Some(1_073_741_824)));
    let f = parse("size:100kb-500kb");
    assert_eq!((f.min_size, f.max_size), (Some(102_400), Some(512_000)));
    let f = parse("size:42");
    assert_eq!((f.min_size, f.max_size), (Some(42), Some(42)));
    let f = parse("SIZE:>1KB");
    assert_eq!(f.min_size, Some(1024));
    let f = parse("size:1-2-3");
    assert!(f.is_empty());
    let f = parse("size:>1kb size:<2kb");
    assert_eq!((f.min_size, f.max_size), (Some(1024), Some(2048)));
    assert!(SearchFilters::parse_filter_string_at("size:-5", now()).is_err());
    assert!(SearchFilters::parse_filter_string_at("size:>", now()).is_err());
    assert!(SearchFilters::parse_filter_string_at("size:1kb-x", now()).is_err());
}

#[test]
fn words_that_are_no_filters() {
    assert!(parse("").is_empty());
    assert!(parse("   readme   notes ").is_empty());
    assert!(parse("unknown:value a:b :x").is_empty());
    assert!(parse("c:\\path").is_empty());
    let f = parse("report\u{3000}type:dir\u{a0}ext:PDF");
    assert_eq!(f.is_directory, Some(true));
    assert_eq!(f.extensions, vec!["pdf"]);
}

#[test]
fn extension_lists() {
    assert_eq!(parse("ext:rs").extensions, vec!["rs"]);
    assert_eq!(parse("extension:RS,,Md,").extensions, vec!["rs", "md"]);
    assert!(parse("ext:").extensions.is_empty());
    assert_eq!(parse("ext:a ext:b").extensions, vec!["b"]);
    assert_eq!(parse_extensions(&" a , B ,c".chars().collect()), vec!["a", "b", "c"]);
    assert_eq!(path_extension("C:\\a.b\\Report.PDF"), "pdf");
    assert_eq!(path_extension("C:\\none"), "c:\\none");
    assert_eq!(path_extension("trailing."), "");
}

#[test]
fn type_filter() {
    for word in ["type:dir", "type:Directory", "type:FOLDER"] {
        assert_eq!(parse(word).is_directory, Some(true));
    }
    assert_eq!(parse("type:File").is_directory, Some(false));
    let e = SearchFilters::parse_filter_string_at("type:Link", now()).unwrap_err();
    assert_eq!(e.message(), "Invalid type filter: Link. Use 'dir' or 'file'");
    assert!(SearchFilters::parse_filter_string_at("ext:rs type: size:1", now()).is_err());
}

#[test]
fn date_filters() {
    let day = 1_704_067_200;
    let f = parse("modified:>2024-01-01");
    assert_eq!(f.modified_after, Some(Timestamp { secs: day, nanos: 0 }));
    assert_eq!(f.modified_before, None);
    let f = parse("mod:<2024-01-01");
    assert_eq!(f.modified_before, Some(Timestamp { secs: day, nanos: 0 }));
    assert_eq!(f.modified_after, None);
    let f = parse("created:2024-01-01 cr:<2024-01-02");
    assert_eq!(f.created_after, Some(Timestamp { secs: day, nanos: 0 }));
    assert_eq!(f.created_before, Some(Timestamp { secs: day + 86_400, nanos: 0 }));
    let f = parse("modified:7d");
    assert_eq!(f.modified_after, Some(Timestamp { secs: now().secs - 7 * 86_400, nanos: 250 }));
    let f = parse("created:30D");
    assert_eq!(f.created_after, Some(Timestamp { secs: now().secs - 30 * 86_400, nanos: 250 }));
    let f = parse("modified:-1d");
    assert_eq!(f.modified_after, Some(Timestamp { secs: now().secs + 86_400, nanos: 250 }));
    let f = parse("modified:0d");
    assert_eq!(f.modified_after, Some(now()));
}

#[test]
fn date_filters_that_are_refused() {
    let cases = [
        ("modified:yesterday", "Invalid date format: yesterday. Use YYYY-MM-DD"),
        ("modified:xd", "Invalid day count: xd"),
        ("modified:d", "Invalid day count: d"),
        ("modified:<7d", "Invalid day count: <7d"),
        ("modified:1.5d", "Invalid day count: 1.5d"),
        ("modified:99999999999999999999d", "Invalid day count: 99999999999999999999d"),
        ("modified:400000000d", "Invalid day count: 400000000d"),
        ("created:2024-13-01", "Invalid date format: 2024-13-01. Use YYYY-MM-DD"),
        ("created:>01/02/2024", "Invalid date format: 01/02/2024. Use YYYY-MM-DD"),
        ("created:", "Invalid date format: . Use YYYY-MM-DD"),
    ];
    for (text, message) in cases {
        let e = SearchFilters::parse_filter_string_at(text, now()).unwrap_err();
        assert_eq!(e.message(), message);
    }
}

#[test]
fn relative_date_uses_the_clock() {
    let before = Utc::now().timestamp();
    let f = SearchFilters::parse_filter_string("modified:1d").unwrap();
    let after = Utc::now().timestamp();
    let bound = f.modified_after.unwrap();
    assert!(bound.secs >= before - 86_400 && bound.secs <= after - 86_400);
}

#[test]
fn matching_is_a_conjunction() {
    let f = parse("size:1kb-2kb ext:rs,md type:file modified:>2024-01-01 created:<2024-01-01");
    let day = 1_704_067_200;
    assert!(f.matches(&file("C:\\a.RS", 1024, Some(day), Some(day))));
    assert!(f.matches(&file("C:\\a.md", 2048, Some(day + 1), Some(day - 1))));
    assert!(!f.matches(&file("C:\\a.rs", 1023, Some(day), Some(day))));
    assert!(!f.matches(&file("C:\\a.rs", 2049, Some(day), Some(day))));
    assert!(!f.matches(&file("C:\\a.txt", 1024, Some(day), Some(day))));
    assert!(!f.matches(&file("C:\\a.rs", 1024, Some(day - 1), Some(day))));
    assert!(!f.matches(&file("C:\\a.rs", 1024, Some(day), Some(day + 1))));
    assert!(!f.matches(&file("C:\\a.rs", 1024, None, Some(day))));
    assert!(!f.matches(&file("C:\\a.rs", 1024, Some(day), None)));
    let mut dir = file("C:\\a.rs", 1024, Some(day), Some(day));
    dir.is_directory = true;
    assert!(!f.matches(&dir));
}

#[test]
fn extensions_are_not_held_against_directories() {
    let f = parse("ext:rs");
    let mut dir = file("C:\\src", 0, None, None);
    dir.is_directory = true;
    assert!(f.matches(&dir));
    assert!(!f.matches(&file("C:\\src", 0, None, None)));
    assert!(f.matches(&file("C:\\x.y.rs", 0, None, None)));
    let g = parse("ext:rs type:dir");
    assert!(g.matches(&dir));
    assert!(!g.matches(&file("C:\\a.rs", 0, None, None)));
}

#[test]
fn no_filters_match_everything() {
    let f = SearchFilters::new();
    assert!(f.is_empty());
    assert!(f.matches(&file("anything", u64::MAX, None, None)));
    assert!(SearchFilters::default().is_empty());
    assert_eq!(f.describe(), "no filters");
    assert!(f.clone().is_empty());
}

#[test]
fn nanoseconds_decide_between_equal_seconds() {
    let mut f = SearchFilters::new();
    f.modified_after = Some(Timestamp { secs: 10, nanos: 500 });
    let mut e = file("f", 0, None, None);
    e.modified = Some(Timestamp { secs: 10, nanos: 499 });
    assert!(!f.matches(&e));
    e.modified = Some(Timestamp { secs: 10, nanos: 500 });
    assert!(f.matches(&e));
    f.modified_after = None;
    f.modified_before = Some(Timestamp { secs: 10, nanos: 500 });
    assert!(f.matches(&e));
    e.modified = Some(Timestamp { secs: 10, nanos: 501 });
    assert!(!f.matches(&e));
}

#[test]
fn descriptions() {
    let f = parse("size:1kb-1.5mb modified:>2024-01-01 modified:<2024-02-29 ext:rs,md type:dir created:1d");
    assert_eq!(
        f.describe(),
        "size ≥ 1.0 KB, size ≤ 1.5 MB, modified after 2024-01-01, modified before 2024-02-29, ext: rs, md, directories only"
    );
    assert_eq!(parse("type:file").describe(), "files only");
    assert_eq!(parse("size:>5").describe(), "size ≥ 5 B");
    let copy = f.clone();
    assert_eq!(copy.describe(), f.describe());
    assert_eq!(format_date(&Timestamp { secs: 86_399, nanos: 0 }), "1970-01-01");
    assert_eq!(format_date(&Timestamp { secs: -1, nanos: 0 }), "1969-12-31");
    assert_eq!(format_date(&Timestamp { secs: i64::MAX, nanos: 0 }), "");
    assert_eq!(join(&vec!["a".to_string(), "b".to_string(), "c".to_string()], "--"), "a--b--c");
    assert_eq!(join(&vec![], ","), "");
}

#[test]
fn search_text_of_a_query() {
    assert_eq!(extract_search_query("readme ext:md"), "readme");
    assert_eq!(extract_search_query("  my   report size:>1mb  final "), "my report final");
    assert_eq!(extract_search_query("ext:md type:file"), "");
    assert_eq!(extract_search_query(""), "");
    assert_eq!(extract_search_query("a\tb\nc"), "a b c");
}

#[test]
fn calendar_reach_is_that_of_chrono() {
    assert_eq!(MIN_UNIX_SECS, DateTime::<Utc>::MIN_UTC.timestamp());
    assert_eq!(MAX_UNIX_SECS, DateTime::<Utc>::MAX_UTC.timestamp());
    let probes = [
        (MIN_UNIX_SECS, 0u32),
        (MIN_UNIX_SECS - 1, 0),
        (MAX_UNIX_SECS, 999_999_999),
        (MAX_UNIX_SECS, 1_000_000_000),
        (MAX_UNIX_SECS, 1_999_999_999),
        (MAX_UNIX_SECS, 2_000_000_000),
        (MAX_UNIX_SECS + 1, 0),
        (0, 1_000_000_000),
        (59, 1_000_000_000),
        (59, 1_999_999_999),
        (-1, 1_500_000_000),
        (-2, 1_500_000_000),
        (-61, 1_000_000_000),
        (119, 2_000_000_000),
        (i64::MAX, 0),
        (i64::MIN, 0),
        (1_700_000_000, 123),
    ];
    for (secs, nanos) in probes {
        let ours = Timestamp::from_unix(secs, nanos);
        let theirs = DateTime::from_timestamp(secs, nanos);
        assert_eq!(ours.is_some(), theirs.is_some(), "{} {}", secs, nanos);
        if let Some(t) = ours {
            assert_eq!((t.secs, t.nanos), (secs, nanos));
        }
    }
    let day = NaiveDate::from_ymd_opt(2024, 1, 1).unwrap().and_hms_opt(0, 0, 0).unwrap().and_utc();
    assert_eq!(day.timestamp(), 1_704_067_200);
}

#[test]
fn days_before_and_order() {
    let t = Timestamp { secs: 1_000_000, nanos: 7 };
    assert_eq!(t.minus_days(1), Some(Timestamp { secs: 913_600, nanos: 7 }));
    assert_eq!(t.minus_days(-1), Some(Timestamp { secs: 1_086_400, nanos: 7 }));
    assert_eq!(t.minus_days(i64::MAX), None);
    assert_eq!(t.minus_days(i64::MIN), None);
    assert_eq!(Timestamp { secs: MIN_UNIX_SECS, nanos: 0 }.minus_days(1), None);
    assert_eq!(Timestamp { secs: i64::MAX, nanos: 0 }.minus_days(0), None);
    let early = Timestamp { secs: 5, nanos: 9 };
    let late = Timestamp { secs: 6, nanos: 0 };
    assert!(early.is_before(&late));
    assert!(late.is_after(&early));
    assert!(!early.is_before(&early));
    assert!(!late.is_before(&early));
}

#[test]
fn filters_by_key() {
    let value = |s: &str| s.chars().collect::<Vec<char>>();
    let mut f = SearchFilters::new();
    apply_filter(&mut f, "size", &value(">1kb"), now()).unwrap();
    apply_filter(&mut f, "extension", &value("A,b"), now()).unwrap();
    apply_filter(&mut f, "mod", &value("2d"), now()).unwrap();
    apply_filter(&mut f, "cr", &value("<2024-01-01"), now()).unwrap();
    apply_filter(&mut f, "type", &value("DIR"), now()).unwrap();
    apply_filter(&mut f, "Size", &value("nonsense"), now()).unwrap();
    apply_filter(&mut f, "", &value("x"), now()).unwrap();
    assert_eq!(f.min_size, Some(1024));
    assert_eq!(f.extensions, vec!["a", "b"]);
    assert_eq!(f.modified_after, Some(Timestamp { secs: now().secs - 2 * 86_400, nanos: 250 }));
    assert_eq!(f.created_before, Some(Timestamp { secs: 1_704_067_200, nanos: 0 }));
    assert_eq!(f.is_directory, Some(true));
    assert!(apply_filter(&mut f, "type", &value("dirs"), now()).is_err());
    assert!(apply_filter(&mut f, "size", &value("big"), now()).is_err());
    assert_eq!(type_of_lowercase("dir"), Some(true));
    assert_eq!(type_of_lowercase("directory"), Some(true));
    assert_eq!(type_of_lowercase("folder"), Some(true));
    assert_eq!(type_of_lowercase("file"), Some(false));
    assert_eq!(type_of_lowercase("File"), None);
    assert_eq!(type_of_lowercase(""), None);
    assert!(f.has_extension(&"a".to_string()));
    assert!(!f.has_extension(&"A".to_string()));
    assert!(!f.has_extension(&"".to_string()));
}
