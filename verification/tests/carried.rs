use nothing::export::{escape_csv_field, format_file_size};
use nothing::file_entry::FileEntry;
use nothing::filters::{parse_size, SearchFilters};
use nothing::gui::theme::AppTheme;
use nothing::history::SearchHistory;
use nothing::index::FileIndex;
use nothing::metrics::SearchMetrics;
use nothing::search::SearchEngine;
use nothing::timestamp::Timestamp;
use std::collections::VecDeque;
use std::time::Duration;

#[test]
fn test_escape_csv_field() {
    assert_eq!(escape_csv_field("normal"), "normal");
    assert_eq!(escape_csv_field("has,comma"), "\"has,comma\"");
    assert_eq!(escape_csv_field("has\"quote"), "\"has\"\"quote\"");
}

#[test]
fn test_format_file_size() {
    assert_eq!(format_file_size(100), "100 B");
    assert_eq!(format_file_size(1024), "1.0 KB");
    assert_eq!(format_file_size(1536), "1.5 KB");
    assert_eq!(format_file_size(1048576), "1.0 MB");
}

#[test]
fn test_parse_size() {
    assert_eq!(parse_size("100").unwrap(), 100);
    assert_eq!(parse_size("1kb").unwrap(), 1024);
    assert_eq!(parse_size("1.5mb").unwrap(), 1572864);
    assert_eq!(parse_size("2gb").unwrap(), 2147483648);
}

#[test]
fn test_parse_filter_string() {
    let filters = SearchFilters::parse_filter_string("size:>100mb ext:rs,md type:file").unwrap();
    assert_eq!(filters.min_size, Some(104857600));
    assert_eq!(filters.extensions, vec!["rs", "md"]);
    assert_eq!(filters.is_directory, Some(false));
}

#[test]
fn test_theme_toggle() {
    let mut theme = AppTheme::Dark;
    theme.toggle();
    assert_eq!(theme, AppTheme::Light);
    theme.toggle();
    assert_eq!(theme, AppTheme::Dark);
}

#[test]
fn test_add_query() {
    let mut history = SearchHistory::new();

    history.add("query1");
    history.add("query2");
    history.add("query1");

    assert_eq!(history.queries().len(), 2);
    assert_eq!(history.queries().back().unwrap(), "query1");
}

#[test]
fn test_navigation() {
    let mut history = SearchHistory::from_queries(VecDeque::from(vec![
        "q1".to_string(),
        "q2".to_string(),
        "q3".to_string(),
    ]));

    assert_eq!(history.previous(""), Some("q3".to_string()));
    assert_eq!(history.previous(""), Some("q2".to_string()));
    assert_eq!(history.previous(""), Some("q1".to_string()));
    assert_eq!(history.previous(""), None);

    assert_eq!(history.next(), Some("q2".to_string()));
    assert_eq!(history.next(), Some("q3".to_string()));
    assert_eq!(history.next(), Some(String::new()));
}

#[test]
fn test_record_search() {
    let mut metrics = SearchMetrics::new();

    metrics.record_search(Duration::from_millis(10).as_nanos(), 5);
    metrics.record_search(Duration::from_millis(20).as_nanos(), 10);
    metrics.record_search(Duration::from_millis(5).as_nanos(), 0);

    assert_eq!(metrics.total_searches, 3);
    assert_eq!(metrics.searches_with_results, 2);
    assert_eq!(metrics.searches_with_no_results, 1);
    assert_eq!(metrics.total_matches, 15);
    assert_eq!(metrics.fastest_search, Some(Duration::from_millis(5).as_nanos()));
    assert_eq!(metrics.slowest_search, Some(Duration::from_millis(20).as_nanos()));
    assert_eq!(metrics.most_matches, 10);
}

#[test]
fn test_averages() {
    let mut metrics = SearchMetrics::new();

    metrics.record_search(Duration::from_millis(10).as_nanos(), 5);
    metrics.record_search(Duration::from_millis(20).as_nanos(), 15);

    assert_eq!(metrics.average_search_time(), Duration::from_millis(15).as_nanos());
    assert_eq!(metrics.average_matches() as f64 / 1000.0, 10.0);
    assert_eq!(metrics.success_rate() as f64 / 1000.0, 1.0);
}

fn sample_index() -> FileIndex {
    let sample_files = vec![
        ("README.md", "C:\\Apps\\Nothing\\README.md", false, 12345u64),
        ("Cargo.toml", "C:\\Apps\\Nothing\\Cargo.toml", false, 2300),
        ("main.rs", "C:\\Apps\\Nothing\\src\\main.rs", false, 45200),
        ("index.rs", "C:\\Apps\\Nothing\\src\\index.rs", false, 8900),
        ("search.rs", "C:\\Apps\\Nothing\\src\\search.rs", false, 5600),
        ("interactive.rs", "C:\\Apps\\Nothing\\src\\interactive.rs", false, 15200),
        ("filters.rs", "C:\\Apps\\Nothing\\src\\filters.rs", false, 12000),
        ("export.rs", "C:\\Apps\\Nothing\\src\\export.rs", false, 6700),
        ("history.rs", "C:\\Apps\\Nothing\\src\\history.rs", false, 8900),
        ("metrics.rs", "C:\\Apps\\Nothing\\src\\metrics.rs", false, 7800),
        ("src", "C:\\Apps\\Nothing\\src", true, 0),
        ("target", "C:\\Apps\\Nothing\\target", true, 0),
        ("CHANGELOG.md", "C:\\Apps\\Nothing\\CHANGELOG.md", false, 45000),
        ("PHASE4_SUMMARY.md", "C:\\Apps\\Nothing\\PHASE4_SUMMARY.md", false, 23000),
        ("PHASE5_PLAN.md", "C:\\Apps\\Nothing\\PHASE5_PLAN.md", false, 18000),
        ("app.rs", "C:\\Apps\\Nothing\\src\\gui\\app.rs", false, 25000),
        ("theme.rs", "C:\\Apps\\Nothing\\src\\gui\\theme.rs", false, 3200),
        ("gui", "C:\\Apps\\Nothing\\src\\gui", true, 0),
        ("widgets", "C:\\Apps\\Nothing\\src\\gui\\widgets", true, 0),
        ("dialogs", "C:\\Apps\\Nothing\\src\\gui\\dialogs", true, 0),
        ("video.mp4", "C:\\Videos\\sample_video.mp4", false, 150000000),
        ("large_file.zip", "C:\\Downloads\\large_file.zip", false, 500000000),
        ("test.rs", "C:\\Code\\test.rs", false, 4500),
        ("config.json", "C:\\AppData\\config.json", false, 2300),
        ("photo.jpg", "C:\\Pictures\\photo.jpg", false, 3400000),
        ("document.pdf", "C:\\Documents\\document.pdf", false, 1200000),
        ("music.mp3", "C:\\Music\\song.mp3", false, 5600000),
        ("data.csv", "C:\\Data\\export.csv", false, 890000),
        ("notes.txt", "C:\\Notes\\meeting_notes.txt", false, 15000),
        ("script.py", "C:\\Scripts\\automation.py", false, 8900),
    ];
    let now = Timestamp::from_unix(1_700_000_000, 0).unwrap();
    let mut index = FileIndex::new();
    for (idx, (name, path, is_dir, size)) in sample_files.iter().enumerate() {
        let entry = FileEntry::new(
            name.to_string(),
            path.to_string(),
            *is_dir,
            idx as u64 + 1000,
            0,
            *size,
            now.minus_days(idx as i64 % 30),
            now.minus_days(idx as i64 % 60),
            now.minus_days(idx as i64 % 15),
        );
        index.add_entry(entry);
    }
    index
}

#[test]
fn test_search_functionality() {
    let index = sample_index();
    let mut search_engine = SearchEngine::new();

    println!("Loaded index with {} files", index.file_count());
    assert!(index.file_count() > 0, "Index should have files");

    let results = search_engine.search(&index, "README", 10);
    println!("Search 'README': {} results", results.len());
    assert!(results.len() > 0, "Should find README file");
    assert!(results[0].entry.name.contains("README"), "Top result should contain README");

    let results_lower = search_engine.search(&index, "readme", 10);
    println!("Search 'readme': {} results", results_lower.len());
    assert_eq!(results.len(), results_lower.len(), "Search should be case insensitive");

    let results = search_engine.search(&index, ".rs", 20);
    println!("Search '.rs': {} results", results.len());
    let rs_files: Vec<_> = results.iter().filter(|r| r.entry.name.ends_with(".rs")).collect();
    println!("  .rs files found: {}", rs_files.len());
    assert!(rs_files.len() > 0, "Should find .rs files");

    let results = search_engine.search(&index, "main", 10);
    println!("Search 'main': {} results", results.len());
    assert!(results.len() > 0, "Should find files with 'main'");

    let results = search_engine.search(&index, "src", 10);
    println!("Search 'src': {} results", results.len());
    assert!(results.len() > 0, "Should find src directory");

    let results = search_engine.search(&index, "carg", 10);
    println!("Search 'carg' (fuzzy): {} results", results.len());
    assert!(results.iter().any(|r| r.entry.name.contains("Cargo")), "Fuzzy search should find Cargo");

    let results = search_engine.search(&index, "xyznonexistent123", 10);
    println!("Search 'xyznonexistent123': {} results", results.len());
    assert_eq!(results.len(), 0, "Should return no results for nonexistent file");

    println!("\n✅ All search tests passed!");
}
