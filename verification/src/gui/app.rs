//! The state of the result view: the sort order, the selection, and the
//! generation counter that keeps the results of superseded searches off
//! the screen.

use vstd::prelude::*;
use vstd::string::StringExecFns;
use crate::filters::{texts_of, FiltersView, SearchFilters};
use crate::search::{result_views, ResultView, SearchResult};
use crate::sizes::MIB;
use crate::text::to_chars;
use crate::timestamp::{days_before, earlier, Timestamp};

verus! {

#[derive(Debug, Clone, Copy, PartialEq, Eq, Structural)]
pub enum SortColumn {
    Name,
    Path,
    Size,
    Modified,
    Type,
}

/// The column the results are sorted by, and the direction.
#[derive(Debug, Clone, Copy, PartialEq, Eq, Structural)]
pub struct SortOrder {
    pub column: SortColumn,
    pub ascending: bool,
}

/// The order after a column head was chosen: the chosen column again
/// turns the direction; another column starts ascending.
pub open spec fn after_choice(order: SortOrder, column: SortColumn) -> SortOrder {
    if order.column == column {
        SortOrder { column, ascending: !order.ascending }
    } else {
        SortOrder { column, ascending: true }
    }
}

impl SortOrder {
    /// By name, ascending.
    pub fn new() -> (r: Self)
        ensures
            r == (SortOrder { column: SortColumn::Name, ascending: true }),
    {
        SortOrder { column: SortColumn::Name, ascending: true }
    }

    pub fn choose_column(&mut self, column: SortColumn)
        ensures
            *final(self) == after_choice(*old(self), column),
    {
        if self.column == column {
            self.ascending = !self.ascending;
        } else {
            self.column = column;
            self.ascending = true;
        }
    }
}

/// `a` stands before `b` in the order of the dictionary, character by
/// character from index `i` on: the first difference decides, and a text
/// stands before each of its extensions.
pub open spec fn text_before(a: Seq<char>, b: Seq<char>, i: int) -> bool
    decreases a.len() - i,
{
    if i < 0 || i >= b.len() {
        false
    } else if i >= a.len() {
        true
    } else if a[i] != b[i] {
        a[i] < b[i]
    } else {
        text_before(a, b, i + 1)
    }
}

/// The time that a result is sorted by: one without a modification time
/// sorts as the Unix epoch.
pub open spec fn sort_time(r: ResultView) -> Timestamp {
    match r.entry.modified {
        Some(t) => t,
        None => Timestamp { secs: 0, nanos: 0 },
    }
}

/// `a` is below `b` in the chosen column. Files are below directories.
pub open spec fn below(column: SortColumn, a: ResultView, b: ResultView) -> bool {
    match column {
        SortColumn::Name => text_before(a.entry.name, b.entry.name, 0),
        SortColumn::Path => text_before(a.entry.path, b.entry.path, 0),
        SortColumn::Size => a.entry.size < b.entry.size,
        SortColumn::Modified => earlier(sort_time(a), sort_time(b)),
        SortColumn::Type => !a.entry.is_directory && b.entry.is_directory,
    }
}

/// `a` must stand before `b` in the order `order`.
pub open spec fn precedes(order: SortOrder, a: ResultView, b: ResultView) -> bool {
    if order.ascending {
        below(order.column, a, b)
    } else {
        below(order.column, b, a)
    }
}

/// Where `r` goes among sorted results: before the first that it must
/// stand before.
pub open spec fn sorted_position(s: Seq<ResultView>, order: SortOrder, r: ResultView, from: int) -> int
    decreases s.len() - from,
{
    if 0 <= from < s.len() && !precedes(order, r, s[from]) {
        sorted_position(s, order, r, from + 1)
    } else {
        from
    }
}

/// `s` sorted in the order `order`; results that the order does not tell
/// apart keep the order they have in `s`.
pub open spec fn sorted_results(s: Seq<ResultView>, order: SortOrder) -> Seq<ResultView>
    decreases s.len(),
{
    if s.len() == 0 {
        Seq::empty()
    } else {
        let before = sorted_results(s.drop_last(), order);
        before.insert(sorted_position(before, order, s.last(), 0), s.last())
    }
}

proof fn lemma_sorted_position(s: Seq<ResultView>, order: SortOrder, r: ResultView, from: int)
    requires
        0 <= from <= s.len(),
    ensures
        from <= sorted_position(s, order, r, from) <= s.len(),
    decreases s.len() - from,
{
    if from < s.len() && !precedes(order, r, s[from]) {
        lemma_sorted_position(s, order, r, from + 1);
    }
}

fn is_text_before(a: &str, b: &str) -> (r: bool)
    ensures
        r == text_before(a@, b@, 0),
{
    let x = to_chars(a);
    let y = to_chars(b);
    let mut i: usize = 0;
    while i < x.len() && i < y.len() && x[i] == y[i]
        invariant
            i <= x@.len(),
            i <= y@.len(),
            text_before(x@, y@, 0) == text_before(x@, y@, i as int),
        decreases x@.len() - i,
    {
        i += 1;
    }
    if i >= y.len() {
        false
    } else if i >= x.len() {
        true
    } else {
        x[i] < y[i]
    }
}

fn time_key(r: &SearchResult) -> (t: Timestamp)
    ensures
        t == sort_time(r@),
{
    match r.entry.modified {
        Some(t) => t,
        None => Timestamp { secs: 0, nanos: 0 },
    }
}

fn is_below(column: SortColumn, a: &SearchResult, b: &SearchResult) -> (r: bool)
    ensures
        r == below(column, a@, b@),
{
    match column {
        SortColumn::Name => is_text_before(a.entry.name.as_str(), b.entry.name.as_str()),
        SortColumn::Path => is_text_before(a.entry.path.as_str(), b.entry.path.as_str()),
        SortColumn::Size => a.entry.size < b.entry.size,
        SortColumn::Modified => time_key(a).is_before(&time_key(b)),
        SortColumn::Type => !a.entry.is_directory && b.entry.is_directory,
    }
}

fn must_precede(order: SortOrder, a: &SearchResult, b: &SearchResult) -> (r: bool)
    ensures
        r == precedes(order, a@, b@),
{
    if order.ascending {
        is_below(order.column, a, b)
    } else {
        is_below(order.column, b, a)
    }
}

/// Sorts the results for the table. The sort is stable.
pub fn sort_results(results: &mut Vec<SearchResult>, order: SortOrder)
    ensures
        result_views(final(results)@) == sorted_results(result_views(old(results)@), order),
{
    let ghost input = result_views(results@);
    let mut sorted: Vec<SearchResult> = Vec::new();
    let mut i: usize = 0;
    assert(result_views(sorted@) =~= sorted_results(input.take(0), order));
    while i < results.len()
        invariant
            input == result_views(results@),
            i <= results@.len(),
            result_views(sorted@) == sorted_results(input.take(i as int), order),
            sorted@.len() == i,
        decreases results@.len() - i,
    {
        let ghost before = result_views(sorted@);
        let item = results[i].clone();
        assert(input.take(i + 1).drop_last() =~= input.take(i as int));
        assert(input.take(i + 1).last() == item@);
        let mut k: usize = 0;
        while k < sorted.len() && !must_precede(order, &item, &sorted[k])
            invariant
                before == result_views(sorted@),
                k <= sorted@.len(),
                sorted_position(before, order, item@, 0) == sorted_position(
                    before,
                    order,
                    item@,
                    k as int,
                ),
            decreases sorted@.len() - k,
        {
            assert(before[k as int] == sorted@[k as int]@);
            k += 1;
        }
        proof {
            if k < sorted@.len() {
                assert(before[k as int] == sorted@[k as int]@);
            }
        }
        sorted.insert(k, item);
        assert(result_views(sorted@) =~= before.insert(k as int, item@));
        i += 1;
    }
    assert(input.take(input.len() as int) =~= input);
    *results = sorted;
}

/// Sorting arranges the results and loses none.
pub proof fn lemma_sorting_keeps_count(s: Seq<ResultView>, order: SortOrder)
    ensures
        sorted_results(s, order).len() == s.len(),
    decreases s.len(),
{
    if s.len() > 0 {
        lemma_sorting_keeps_count(s.drop_last(), order);
        lemma_sorted_position(sorted_results(s.drop_last(), order), order, s.last(), 0);
    }
}

/// The selection after a move by `delta` rows among `count` results: it
/// stays within the results; without a selection a move down selects the
/// first result and a move up the last.
pub open spec fn moved_selection(selected: Option<usize>, delta: i32, count: usize) -> Option<usize> {
    if count == 0 {
        selected
    } else {
        match selected {
            Some(current) => {
                let target = current + delta;
                if target < 0 {
                    Some(0usize)
                } else if target > count - 1 {
                    Some((count - 1) as usize)
                } else {
                    Some(target as usize)
                }
            },
            None => if delta > 0 {
                Some(0usize)
            } else {
                Some((count - 1) as usize)
            },
        }
    }
}

pub fn navigate_results(selected: Option<usize>, delta: i32, count: usize) -> (r: Option<usize>)
    ensures
        r == moved_selection(selected, delta, count),
{
    if count == 0 {
        return selected;
    }
    match selected {
        Some(current) => {
            let target: i128 = current as i128 + delta as i128;
            if target < 0 {
                Some(0)
            } else if target > (count - 1) as i128 {
                Some(count - 1)
            } else {
                Some(target as usize)
            }
        },
        None => if delta > 0 {
            Some(0)
        } else {
            Some(count - 1)
        },
    }
}

/// The selection after an arrow key among `count` results. The down key
/// moves one row down and stops at the last row; where no row is
/// selected it selects the first. The up key moves one row up and stops
/// at the first row; where no row is selected it does nothing. Without
/// results neither key does anything.
pub open spec fn selection_after_arrow(selected: Option<usize>, down: bool, count: usize) -> Option<
    usize,
> {
    if count == 0 {
        selected
    } else if down {
        moved_selection(selected, 1, count)
    } else {
        match selected {
            Some(current) => if current > 0 {
                Some((current - 1) as usize)
            } else {
                Some(0usize)
            },
            None => None,
        }
    }
}

pub fn arrow_selection(selected: Option<usize>, down: bool, count: usize) -> (r: Option<usize>)
    ensures
        r == selection_after_arrow(selected, down, count),
{
    if count == 0 {
        selected
    } else if down {
        navigate_results(selected, 1, count)
    } else {
        match selected {
            Some(current) => if current > 0 {
                Some(current - 1)
            } else {
                Some(0)
            },
            None => None,
        }
    }
}

/// Two clicks on one row within this many milliseconds open the entry.
pub const DOUBLE_CLICK_MILLIS: u128 = 300;

/// Whether a click on the row `row` at the time `now` follows a click on
/// the same row closely enough to count as a double click. Times are in
/// milliseconds of one clock.
pub fn is_double_click(last_click: Option<(usize, u128)>, row: usize, now: u128) -> (r: bool)
    ensures
        r == (last_click matches Some(last) && last.0 == row && (now <= last.1 || now - last.1
            < DOUBLE_CLICK_MILLIS)),
{
    match last_click {
        Some((last_row, last_time)) => {
            let elapsed: u128 = if now > last_time {
                now - last_time
            } else {
                0
            };
            last_row == row && elapsed < DOUBLE_CLICK_MILLIS
        },
        None => false,
    }
}

/// The filter settings that the filter panel offers at one click.
#[derive(Debug, Clone, Copy, PartialEq, Eq, Structural)]
pub enum FilterPreset {
    ModifiedLast7Days,
    ModifiedLast30Days,
    ModifiedLastYear,
    /// Up to 1 MB.
    SizeSmall,
    /// From 1 MB to 100 MB.
    SizeMedium,
    /// From 100 MB.
    SizeLarge,
    TypeFiles,
    TypeDirs,
    ExtDocuments,
    ExtImages,
    ExtVideos,
    ExtAudio,
    ExtCode,
    ExtArchives,
    ExtSpreadsheets,
    ExtPresentations,
}

/// The extensions of an extension preset; none for the other presets.
pub open spec fn preset_extensions(p: FilterPreset) -> Seq<Seq<char>> {
    match p {
        FilterPreset::ExtDocuments => seq!["pdf"@, "doc"@, "docx"@, "txt"@, "odt"@, "rtf"@],
        FilterPreset::ExtImages => seq!["jpg"@, "jpeg"@, "png"@, "gif"@, "bmp"@, "svg"@],
        FilterPreset::ExtVideos => seq![
            "mp4"@,
            "avi"@,
            "mkv"@,
            "mov"@,
            "wmv"@,
            "flv"@,
            "webm"@,
            "m4v"@,
        ],
        FilterPreset::ExtAudio => seq!["mp3"@, "wav"@, "flac"@, "aac"@, "ogg"@, "wma"@, "m4a"@],
        FilterPreset::ExtCode => seq![
            "rs"@,
            "py"@,
            "js"@,
            "ts"@,
            "java"@,
            "cpp"@,
            "c"@,
            "h"@,
            "cs"@,
            "go"@,
            "rb"@,
            "php"@,
        ],
        FilterPreset::ExtArchives => seq!["zip"@, "rar"@, "7z"@, "tar"@, "gz"@, "bz2"@, "xz"@],
        FilterPreset::ExtSpreadsheets => seq!["xlsx"@, "xls"@, "csv"@, "ods"@],
        FilterPreset::ExtPresentations => seq!["pptx"@, "ppt"@, "odp"@, "key"@],
        _ => Seq::empty(),
    }
}

/// The days that a date preset reaches back; 0 for the other presets.
pub open spec fn preset_days(p: FilterPreset) -> int {
    match p {
        FilterPreset::ModifiedLast7Days => 7,
        FilterPreset::ModifiedLast30Days => 30,
        FilterPreset::ModifiedLastYear => 365,
        _ => 0,
    }
}

/// The filters after a preset was chosen at the time `now`. A date
/// preset asks for a modification within its days and lifts the upper
/// bound; a size preset sets both size bounds; the others set the type or
/// the extensions.
pub open spec fn with_preset(f: FiltersView, p: FilterPreset, now: Timestamp) -> FiltersView {
    match p {
        FilterPreset::ModifiedLast7Days | FilterPreset::ModifiedLast30Days
        | FilterPreset::ModifiedLastYear => FiltersView {
            modified_after: days_before(now, preset_days(p)),
            modified_before: None,
            ..f
        },
        FilterPreset::SizeSmall => FiltersView { min_size: None, max_size: Some(MIB), ..f },
        FilterPreset::SizeMedium => FiltersView {
            min_size: Some(MIB),
            max_size: Some((100 * MIB) as u64),
            ..f
        },
        FilterPreset::SizeLarge => FiltersView {
            min_size: Some((100 * MIB) as u64),
            max_size: None,
            ..f
        },
        FilterPreset::TypeFiles => FiltersView { is_directory: Some(false), ..f },
        FilterPreset::TypeDirs => FiltersView { is_directory: Some(true), ..f },
        _ => FiltersView { extensions: preset_extensions(p), ..f },
    }
}

fn extension_vec(names: &[&'static str]) -> (r: Vec<String>)
    ensures
        r@.len() == names@.len(),
        forall|i: int| 0 <= i < r@.len() ==> (#[trigger] r@[i])@ == names@[i]@,
{
    let mut out: Vec<String> = Vec::new();
    let mut i: usize = 0;
    while i < names.len()
        invariant
            i <= names@.len(),
            out@.len() == i,
            forall|k: int| 0 <= k < i ==> (#[trigger] out@[k])@ == names@[k]@,
        decreases names@.len() - i,
    {
        out.push(String::from_str(names[i]));
        i += 1;
    }
    out
}

fn preset_extension_list(preset: FilterPreset) -> (r: Vec<String>)
    ensures
        texts_of(r@) == preset_extensions(preset),
{
    let r = match preset {
        FilterPreset::ExtDocuments => extension_vec(&["pdf", "doc", "docx", "txt", "odt", "rtf"]),
        FilterPreset::ExtImages => extension_vec(&["jpg", "jpeg", "png", "gif", "bmp", "svg"]),
        FilterPreset::ExtVideos => extension_vec(
            &["mp4", "avi", "mkv", "mov", "wmv", "flv", "webm", "m4v"],
        ),
        FilterPreset::ExtAudio => extension_vec(
            &["mp3", "wav", "flac", "aac", "ogg", "wma", "m4a"],
        ),
        FilterPreset::ExtCode => extension_vec(
            &["rs", "py", "js", "ts", "java", "cpp", "c", "h", "cs", "go", "rb", "php"],
        ),
        FilterPreset::ExtArchives => extension_vec(&["zip", "rar", "7z", "tar", "gz", "bz2", "xz"]),
        FilterPreset::ExtSpreadsheets => extension_vec(&["xlsx", "xls", "csv", "ods"]),
        FilterPreset::ExtPresentations => extension_vec(&["pptx", "ppt", "odp", "key"]),
        _ => Vec::new(),
    };
    assert(texts_of(r@) =~= preset_extensions(preset));
    r
}

/// Sets `filters` as the preset asks, at the time `now`.
pub fn apply_preset(filters: &mut SearchFilters, preset: FilterPreset, now: Timestamp)
    ensures
        final(filters)@ == with_preset(old(filters)@, preset, now),
{
    match preset {
        FilterPreset::ModifiedLast7Days => {
            filters.modified_after = now.minus_days(7);
            filters.modified_before = None;
        },
        FilterPreset::ModifiedLast30Days => {
            filters.modified_after = now.minus_days(30);
            filters.modified_before = None;
        },
        FilterPreset::ModifiedLastYear => {
            filters.modified_after = now.minus_days(365);
            filters.modified_before = None;
        },
        FilterPreset::SizeSmall => {
            filters.min_size = None;
            filters.max_size = Some(MIB);
        },
        FilterPreset::SizeMedium => {
            filters.min_size = Some(MIB);
            filters.max_size = Some(100 * MIB);
        },
        FilterPreset::SizeLarge => {
            filters.min_size = Some(100 * MIB);
            filters.max_size = None;
        },
        FilterPreset::TypeFiles => {
            filters.is_directory = Some(false);
        },
        FilterPreset::TypeDirs => {
            filters.is_directory = Some(true);
        },
        _ => {
            filters.extensions = preset_extension_list(preset);
        },
    }
}

/// The generation counter of the searches. Every change of the query
/// starts a new generation; a search carries the generation it was
/// started for, and its results count only while that is the newest.
#[derive(Debug, Clone, Copy, PartialEq, Eq, Structural)]
pub struct SearchSession {
    /// The newest generation.
    pub search_id: u64,
    /// Whether a search of the newest generation is under way.
    pub searching: bool,
    /// The generation whose results are shown, if any are.
    pub shown: Option<u64>,
}

pub open spec fn next_generation(id: u64) -> u64 {
    if id == u64::MAX {
        0
    } else {
        (id + 1) as u64
    }
}

impl SearchSession {
    pub fn new() -> (r: Self)
        ensures
            r == (SearchSession { search_id: 0, searching: false, shown: None }),
    {
        SearchSession { search_id: 0, searching: false, shown: None }
    }

    /// The query changed: a new generation begins, and its number is the
    /// ticket of the search to come.
    pub fn query_changed(&mut self) -> (ticket: u64)
        ensures
            ticket == next_generation(old(self).search_id),
            *final(self) == (SearchSession { search_id: ticket, ..*old(self) }),
    {
        self.search_id = if self.search_id == u64::MAX {
            0
        } else {
            self.search_id + 1
        };
        self.search_id
    }

    /// The delay of a search is over: it runs only if no newer
    /// generation has begun.
    pub fn begin_search(&mut self, ticket: u64) -> (run: bool)
        ensures
            run == (ticket == old(self).search_id),
            *final(self) == if run {
                SearchSession { searching: true, ..*old(self) }
            } else {
                *old(self)
            },
    {
        if ticket != self.search_id {
            return false;
        }
        self.searching = true;
        true
    }

    /// A search is done: its results are shown only if no newer
    /// generation has begun. The results of a superseded search change
    /// nothing.
    pub fn complete_search(&mut self, ticket: u64) -> (apply: bool)
        ensures
            apply == (ticket == old(self).search_id),
            *final(self) == if apply {
                SearchSession { searching: false, shown: Some(ticket), ..*old(self) }
            } else {
                *old(self)
            },
    {
        if ticket != self.search_id {
            return false;
        }
        self.searching = false;
        self.shown = Some(ticket);
        true
    }
}

/// What is shown after a search of the generation `ticket` is done.
pub open spec fn after_completion(s: SearchSession, ticket: u64) -> SearchSession {
    if ticket == s.search_id {
        SearchSession { searching: false, shown: Some(ticket), ..s }
    } else {
        s
    }
}

/// Late results never replace newer ones: once the results of the newest
/// generation are shown, the completion of any other generation, in any
/// number and order, leaves them shown.
pub proof fn lemma_stale_results_discarded(s: SearchSession, stale: Seq<u64>)
    requires
        s.shown == Some(s.search_id),
        forall|i: int| 0 <= i < stale.len() ==> stale[i] != s.search_id,
    ensures
        stale.fold_left(s, |acc: SearchSession, t: u64| after_completion(acc, t)) == s,
    decreases stale.len(),
{
    if stale.len() > 0 {
        lemma_stale_results_discarded(s, stale.drop_last());
    }
}

} // verus!
