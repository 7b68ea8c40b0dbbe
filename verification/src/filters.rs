//! Structured search filters: size bounds, date bounds, extensions and
//! the file-or-directory restriction, and the `key:value` grammar that
//! query text carries them in.

use vstd::prelude::*;
use vstd::string::StringExecFns;
use crate::calendar::{calendar_date, calendar_text, clock_now, format_time, parse_date_text};
use crate::file_entry::{EntryView, FileEntry};
use crate::sizes::{
    digits_start, format_file_size, number_part, read_size, size_text, size_value, whole_value,
};
use crate::text::{
    all_digits, count_char, count_of, digits_value, equals_str, find_char, find_from, from_chars,
    joined, lowercase, slice_of, split_words, string_of, tail_after, to_chars, trim,
    trimmed, unicode_lowercase, words,
};
use crate::timestamp::{days_before, earlier, representable, Timestamp};

verus! {

/// Why filter text was refused. Each variant carries the text at fault.
#[derive(Debug)]
pub enum FilterError {
    /// The number part of a size is no number.
    InvalidSize(String),
    /// The day count of a relative date is no whole number, or reaches
    /// beyond the calendar.
    InvalidDayCount(String),
    /// The text is no date of the form `YYYY-MM-DD`.
    InvalidDate(String),
    /// The type is none of `dir`, `directory`, `folder`, `file`.
    InvalidType(String),
}

pub enum FilterErrorView {
    InvalidSize(Seq<char>),
    InvalidDayCount(Seq<char>),
    InvalidDate(Seq<char>),
    InvalidType(Seq<char>),
}

impl View for FilterError {
    type V = FilterErrorView;

    open spec fn view(&self) -> FilterErrorView {
        match self {
            FilterError::InvalidSize(s) => FilterErrorView::InvalidSize(s@),
            FilterError::InvalidDayCount(s) => FilterErrorView::InvalidDayCount(s@),
            FilterError::InvalidDate(s) => FilterErrorView::InvalidDate(s@),
            FilterError::InvalidType(s) => FilterErrorView::InvalidType(s@),
        }
    }
}

/// The text of an error, for the user.
pub open spec fn error_text(e: FilterErrorView) -> Seq<char> {
    match e {
        FilterErrorView::InvalidSize(s) => "Invalid size number: "@ + s,
        FilterErrorView::InvalidDayCount(s) => "Invalid day count: "@ + s,
        FilterErrorView::InvalidDate(s) => "Invalid date format: "@ + s + ". Use YYYY-MM-DD"@,
        FilterErrorView::InvalidType(s) => "Invalid type filter: "@ + s + ". Use 'dir' or 'file'"@,
    }
}

impl FilterError {
    pub fn message(&self) -> (r: String)
        ensures
            r@ == error_text(self@),
    {
        match self {
            FilterError::InvalidSize(s) => {
                let mut r = String::from_str("Invalid size number: ");
                r.append(s.as_str());
                r
            },
            FilterError::InvalidDayCount(s) => {
                let mut r = String::from_str("Invalid day count: ");
                r.append(s.as_str());
                r
            },
            FilterError::InvalidDate(s) => {
                let mut r = String::from_str("Invalid date format: ");
                r.append(s.as_str());
                r.append(". Use YYYY-MM-DD");
                r
            },
            FilterError::InvalidType(s) => {
                let mut r = String::from_str("Invalid type filter: ");
                r.append(s.as_str());
                r.append(". Use 'dir' or 'file'");
                r
            },
        }
    }
}

/// A set of optional predicates on entries. With none set, every entry
/// passes.
#[derive(Debug)]
pub struct SearchFilters {
    /// Least size in bytes.
    pub min_size: Option<u64>,
    /// Greatest size in bytes.
    pub max_size: Option<u64>,
    pub modified_after: Option<Timestamp>,
    pub modified_before: Option<Timestamp>,
    pub created_after: Option<Timestamp>,
    pub created_before: Option<Timestamp>,
    /// Lowercase extensions without the dot; empty for any.
    pub extensions: Vec<String>,
    /// `Some(true)`: directories only; `Some(false)`: files only.
    pub is_directory: Option<bool>,
}

pub struct FiltersView {
    pub min_size: Option<u64>,
    pub max_size: Option<u64>,
    pub modified_after: Option<Timestamp>,
    pub modified_before: Option<Timestamp>,
    pub created_after: Option<Timestamp>,
    pub created_before: Option<Timestamp>,
    pub extensions: Seq<Seq<char>>,
    pub is_directory: Option<bool>,
}

pub open spec fn texts_of(v: Seq<String>) -> Seq<Seq<char>> {
    v.map_values(|s: String| s@)
}

impl View for SearchFilters {
    type V = FiltersView;

    open spec fn view(&self) -> FiltersView {
        FiltersView {
            min_size: self.min_size,
            max_size: self.max_size,
            modified_after: self.modified_after,
            modified_before: self.modified_before,
            created_after: self.created_after,
            created_before: self.created_before,
            extensions: texts_of(self.extensions@),
            is_directory: self.is_directory,
        }
    }
}

/// The filters with no predicate set.
pub open spec fn no_filters() -> FiltersView {
    FiltersView {
        min_size: None,
        max_size: None,
        modified_after: None,
        modified_before: None,
        created_after: None,
        created_before: None,
        extensions: Seq::empty(),
        is_directory: None,
    }
}

/// A time bound holds only of an entry that has the time: one without it
/// does not pass.
pub open spec fn not_before(time: Option<Timestamp>, bound: Option<Timestamp>) -> bool {
    match bound {
        None => true,
        Some(b) => match time {
            Some(t) => !earlier(t, b),
            None => false,
        },
    }
}

pub open spec fn not_after(time: Option<Timestamp>, bound: Option<Timestamp>) -> bool {
    match bound {
        None => true,
        Some(b) => match time {
            Some(t) => !earlier(b, t),
            None => false,
        },
    }
}

/// The extension of a path: the lowercase form of what follows its last
/// dot, or of the whole path if it has none.
pub open spec fn extension_of(path: Seq<char>) -> Seq<char> {
    unicode_lowercase(tail_after(path, '.'))
}

/// Whether an entry passes: every predicate that is set must hold.
/// Extensions are never held against a directory.
pub open spec fn accepts(f: FiltersView, e: EntryView) -> bool {
    &&& (f.min_size matches Some(m) ==> e.size >= m)
    &&& (f.max_size matches Some(m) ==> e.size <= m)
    &&& not_before(e.modified, f.modified_after)
    &&& not_after(e.modified, f.modified_before)
    &&& not_before(e.created, f.created_after)
    &&& not_after(e.created, f.created_before)
    &&& (f.extensions.len() > 0 && !e.is_directory ==> f.extensions.contains(extension_of(e.path)))
    &&& (f.is_directory matches Some(d) ==> e.is_directory == d)
}

/// A whole number with an optional sign, as far as `i64` reaches.
pub open spec fn day_count(s: Seq<char>) -> Option<i64> {
    let digits = s.skip(digits_start(s));
    if digits.len() == 0 || !all_digits(digits) {
        None
    } else {
        let v = if s[0] == '-' {
            -(digits_value(digits) as int)
        } else {
            digits_value(digits) as int
        };
        if i64::MIN <= v <= i64::MAX {
            Some(v as i64)
        } else {
            None
        }
    }
}

/// The size that a size text stands for, or the error that names its
/// number part.
pub open spec fn size_of_text(s: Seq<char>) -> Result<u64, FilterErrorView> {
    let t = unicode_lowercase(trimmed(s));
    match size_value(t) {
        Some(v) => Ok(v),
        None => Err(FilterErrorView::InvalidSize(number_part(t))),
    }
}

/// `size:` takes `X-Y` (both bounds), `>X` (least), `<X` (greatest) or
/// `X` (both bounds equal). A value with more than one dash sets nothing.
pub open spec fn apply_size(f: FiltersView, value: Seq<char>) -> Result<
    FiltersView,
    FilterErrorView,
> {
    if count_of(value, '-') > 0 {
        if count_of(value, '-') == 1 {
            let k = find_from(value, '-', 0);
            match size_of_text(value.take(k)) {
                Err(e) => Err(e),
                Ok(low) => match size_of_text(value.skip(k + 1)) {
                    Err(e) => Err(e),
                    Ok(high) => Ok(FiltersView { min_size: Some(low), max_size: Some(high), ..f }),
                },
            }
        } else {
            Ok(f)
        }
    } else if value.len() > 0 && value[0] == '>' {
        match size_of_text(value.skip(1)) {
            Err(e) => Err(e),
            Ok(v) => Ok(FiltersView { min_size: Some(v), ..f }),
        }
    } else if value.len() > 0 && value[0] == '<' {
        match size_of_text(value.skip(1)) {
            Err(e) => Err(e),
            Ok(v) => Ok(FiltersView { max_size: Some(v), ..f }),
        }
    } else {
        match size_of_text(value) {
            Err(e) => Err(e),
            Ok(v) => Ok(FiltersView { min_size: Some(v), max_size: Some(v), ..f }),
        }
    }
}

/// The extensions in `value[i..]`: the pieces between commas, trimmed
/// and in lowercase, the empty ones left out.
pub open spec fn extension_list(value: Seq<char>, i: int) -> Seq<Seq<char>>
    decreases value.len() - i,
{
    if i < 0 || i > value.len() {
        Seq::empty()
    } else {
        let k = find_from(value, ',', i);
        let piece = unicode_lowercase(trimmed(value.subrange(i, k)));
        let rest = if i <= k < value.len() {
            extension_list(value, k + 1)
        } else {
            Seq::empty()
        };
        if piece.len() > 0 {
            seq![piece] + rest
        } else {
            rest
        }
    }
}

/// The date that a date text stands for: the start of that day in UTC.
pub open spec fn date_of_text(s: Seq<char>) -> Result<Timestamp, FilterErrorView> {
    match calendar_date(s, "%Y-%m-%d"@) {
        Some(secs) => if representable(secs as int, 0) {
            Ok(Timestamp { secs, nanos: 0 })
        } else {
            Err(FilterErrorView::InvalidDate(s))
        },
        None => Err(FilterErrorView::InvalidDate(s)),
    }
}

pub open spec fn ends_in_day_mark(value: Seq<char>) -> bool {
    value.len() > 0 && (value.last() == 'd' || value.last() == 'D')
}

/// The time that a date value names: `Nd` is `N` days before `now`;
/// `>DATE`, `<DATE` and `DATE` are the start of that day.
pub open spec fn date_bound(value: Seq<char>, now: Timestamp) -> Result<Timestamp, FilterErrorView> {
    if ends_in_day_mark(value) {
        match day_count(value.drop_last()) {
            Some(days) => match days_before(now, days as int) {
                Some(t) => Ok(t),
                None => Err(FilterErrorView::InvalidDayCount(value)),
            },
            None => Err(FilterErrorView::InvalidDayCount(value)),
        }
    } else if value.len() > 0 && (value[0] == '>' || value[0] == '<') {
        date_of_text(value.skip(1))
    } else {
        date_of_text(value)
    }
}

/// Whether a date value sets the upper bound: only `<DATE` does.
pub open spec fn sets_upper_bound(value: Seq<char>) -> bool {
    value.len() > 0 && value[0] == '<' && value.last() != 'd'
}

pub open spec fn apply_date(f: FiltersView, value: Seq<char>, now: Timestamp, modified: bool) -> Result<
    FiltersView,
    FilterErrorView,
> {
    match date_bound(value, now) {
        Err(e) => Err(e),
        Ok(t) => Ok(
            if modified {
                if sets_upper_bound(value) {
                    FiltersView { modified_before: Some(t), ..f }
                } else {
                    FiltersView { modified_after: Some(t), ..f }
                }
            } else {
                if sets_upper_bound(value) {
                    FiltersView { created_before: Some(t), ..f }
                } else {
                    FiltersView { created_after: Some(t), ..f }
                }
            },
        ),
    }
}

/// What a type in lowercase restricts the entries to: directories for
/// `dir`, `directory` and `folder`, files for `file`.
pub open spec fn type_choice(lowered: Seq<char>) -> Option<bool> {
    if lowered == "dir"@ || lowered == "directory"@ || lowered == "folder"@ {
        Some(true)
    } else if lowered == "file"@ {
        Some(false)
    } else {
        None
    }
}

pub open spec fn apply_type(f: FiltersView, value: Seq<char>) -> Result<
    FiltersView,
    FilterErrorView,
> {
    match type_choice(unicode_lowercase(value)) {
        Some(d) => Ok(FiltersView { is_directory: Some(d), ..f }),
        None => Err(FilterErrorView::InvalidType(value)),
    }
}

/// What a filter does to the filters, by its key in lowercase. A key that
/// is not known is ignored.
pub open spec fn apply_key(
    f: FiltersView,
    key: Seq<char>,
    value: Seq<char>,
    now: Timestamp,
) -> Result<FiltersView, FilterErrorView> {
    if key == "size"@ {
        apply_size(f, value)
    } else if key == "ext"@ || key == "extension"@ {
        Ok(FiltersView { extensions: extension_list(value, 0), ..f })
    } else if key == "modified"@ || key == "mod"@ {
        apply_date(f, value, now, true)
    } else if key == "created"@ || key == "cr"@ {
        apply_date(f, value, now, false)
    } else if key == "type"@ {
        apply_type(f, value)
    } else {
        Ok(f)
    }
}

/// What one word of the query does to the filters. A word without a
/// colon is search text; else what stands before the first colon is the
/// key, in any case, and what follows it the value.
pub open spec fn apply_word(f: FiltersView, word: Seq<char>, now: Timestamp) -> Result<
    FiltersView,
    FilterErrorView,
> {
    let k = find_from(word, ':', 0);
    if k >= word.len() {
        Ok(f)
    } else {
        apply_key(f, unicode_lowercase(word.take(k)), word.skip(k + 1), now)
    }
}

/// The words from index `i` on, applied in order; the first error ends it.
pub open spec fn apply_words(f: FiltersView, ws: Seq<Seq<char>>, now: Timestamp, i: int) -> Result<
    FiltersView,
    FilterErrorView,
>
    decreases ws.len() - i,
{
    if i < 0 || i >= ws.len() {
        Ok(f)
    } else {
        match apply_word(f, ws[i], now) {
            Ok(g) => apply_words(g, ws, now, i + 1),
            Err(e) => Err(e),
        }
    }
}

/// The filters that query text carries, read at the time `now`.
pub open spec fn parsed_filters(text: Seq<char>, now: Timestamp) -> Result<
    FiltersView,
    FilterErrorView,
> {
    apply_words(no_filters(), words(text), now, 0)
}

/// `r` is what `text` parses to at the time `now`.
pub open spec fn is_parse_of(
    r: Result<SearchFilters, FilterError>,
    text: Seq<char>,
    now: Timestamp,
) -> bool {
    match r {
        Ok(f) => parsed_filters(text, now) == Ok::<FiltersView, FilterErrorView>(f@),
        Err(e) => parsed_filters(text, now) == Err::<FiltersView, FilterErrorView>(e@),
    }
}

pub open spec fn has_colon(word: Seq<char>) -> bool {
    find_from(word, ':', 0) < word.len()
}

/// The first `n` words that carry no colon, in order.
pub open spec fn plain_words(ws: Seq<Seq<char>>, n: int) -> Seq<Seq<char>>
    decreases n,
{
    if n <= 0 {
        Seq::empty()
    } else if has_colon(ws[n - 1]) {
        plain_words(ws, n - 1)
    } else {
        plain_words(ws, n - 1).push(ws[n - 1])
    }
}

/// The search text of a query: its words without a colon, one space
/// between them.
pub open spec fn search_text(query: Seq<char>) -> Seq<char> {
    joined(plain_words(words(query), words(query).len() as int), seq![' '])
}

/// A time as a date, `YYYY-MM-DD`; empty where the calendar has none.
pub open spec fn date_text(t: Timestamp) -> Seq<char> {
    match calendar_text(t.secs, t.nanos, "%Y-%m-%d"@) {
        Some(s) => s,
        None => Seq::empty(),
    }
}

pub open spec fn optional_part(present: bool, part: Seq<char>) -> Seq<Seq<char>> {
    if present {
        seq![part]
    } else {
        Seq::empty()
    }
}

/// The phrases that describe the predicates that are set. The bounds on
/// the creation time have none.
pub open spec fn description_parts(f: FiltersView) -> Seq<Seq<char>> {
    optional_part(
        f.min_size is Some,
        "size ≥ "@ + size_text(f.min_size.unwrap_or(0), 4, 1),
    ) + optional_part(f.max_size is Some, "size ≤ "@ + size_text(f.max_size.unwrap_or(0), 4, 1))
        + optional_part(
        f.modified_after is Some,
        "modified after "@ + date_text(f.modified_after.unwrap_or(Timestamp { secs: 0, nanos: 0 })),
    ) + optional_part(
        f.modified_before is Some,
        "modified before "@ + date_text(
            f.modified_before.unwrap_or(Timestamp { secs: 0, nanos: 0 }),
        ),
    ) + optional_part(f.extensions.len() > 0, "ext: "@ + joined(f.extensions, ", "@))
        + optional_part(
        f.is_directory is Some,
        if f.is_directory == Some(true) {
            "directories only"@
        } else {
            "files only"@
        },
    )
}

/// The description of filters for the user.
pub open spec fn description(f: FiltersView) -> Seq<char> {
    if description_parts(f).len() == 0 {
        "no filters"@
    } else {
        joined(description_parts(f), ", "@)
    }
}

pub open spec fn is_unset(f: FiltersView) -> bool {
    f.min_size is None && f.max_size is None && f.modified_after is None && f.modified_before
        is None && f.created_after is None && f.created_before is None && f.extensions.len() == 0
        && f.is_directory is None
}

impl Default for SearchFilters {
    fn default() -> (r: Self)
        ensures
            r@ == no_filters(),
    {
        SearchFilters::new()
    }
}

impl Clone for SearchFilters {
    fn clone(&self) -> (r: Self)
        ensures
            r@ == self@,
    {
        let mut extensions: Vec<String> = Vec::new();
        let mut i: usize = 0;
        while i < self.extensions.len()
            invariant
                i <= self.extensions@.len(),
                texts_of(extensions@) == texts_of(self.extensions@).take(i as int),
            decreases self.extensions@.len() - i,
        {
            let ghost before = texts_of(extensions@);
            extensions.push(self.extensions[i].clone());
            assert(texts_of(extensions@) =~= before.push(self.extensions@[i as int]@));
            assert(texts_of(self.extensions@).take(i + 1) =~= texts_of(self.extensions@).take(
                i as int,
            ).push(self.extensions@[i as int]@));
            i += 1;
        }
        assert(texts_of(self.extensions@).take(self.extensions@.len() as int) =~= texts_of(
            self.extensions@,
        ));
        SearchFilters {
            min_size: self.min_size,
            max_size: self.max_size,
            modified_after: self.modified_after,
            modified_before: self.modified_before,
            created_after: self.created_after,
            created_before: self.created_before,
            extensions,
            is_directory: self.is_directory,
        }
    }
}

/// Joins `parts` with `sep` between neighbours.
pub fn join(parts: &Vec<String>, sep: &str) -> (r: String)
    ensures
        r@ == joined(texts_of(parts@), sep@),
{
    let ghost texts = texts_of(parts@);
    let mut r = String::new();
    let mut i: usize = 0;
    assert(texts.take(0) =~= Seq::<Seq<char>>::empty());
    while i < parts.len()
        invariant
            texts == texts_of(parts@),
            i <= parts@.len(),
            r@ == joined(texts.take(i as int), sep@),
        decreases parts@.len() - i,
    {
        assert(texts.take(i + 1).drop_last() =~= texts.take(i as int));
        assert(texts.take(i + 1).last() == parts@[i as int]@);
        if i > 0 {
            r.append(sep);
        }
        r.append(parts[i].as_str());
        proof {
            if i == 0 {
                assert(texts.take(1)[0] == parts@[0]@);
                assert(r@ =~= parts@[0]@);
            }
        }
        i += 1;
    }
    assert(texts.take(parts@.len() as int) =~= texts);
    r
}

impl SearchFilters {
    /// Filters with no predicate set.
    pub fn new() -> (r: Self)
        ensures
            r@ == no_filters(),
    {
        let r = SearchFilters {
            min_size: None,
            max_size: None,
            modified_after: None,
            modified_before: None,
            created_after: None,
            created_before: None,
            extensions: Vec::new(),
            is_directory: None,
        };
        assert(r@.extensions =~= Seq::<Seq<char>>::empty());
        r
    }

    /// Reads the filters out of query text, at the time of the call: a
    /// relative date counts back from the clock's reading.
    pub fn parse_filter_string(filter_str: &str) -> (r: Result<Self, FilterError>)
        ensures
            exists|now: Timestamp| is_parse_of(r, filter_str@, now),
    {
        let (secs, nanos) = clock_now();
        let now = match Timestamp::from_unix(secs, nanos) {
            Some(t) => t,
            None => Timestamp { secs: 0, nanos: 0 },
        };
        let r = Self::parse_filter_string_at(filter_str, now);
        assert(is_parse_of(r, filter_str@, now));
        r
    }

    /// Reads the filters out of query text: the words of the form
    /// `key:value` with a known key, applied in order. `now` is the time
    /// that relative dates count back from.
    pub fn parse_filter_string_at(filter_str: &str, now: Timestamp) -> (r: Result<
        Self,
        FilterError,
    >)
        ensures
            is_parse_of(r, filter_str@, now),
    {
        let chars = to_chars(filter_str);
        let ws = split_words(&chars);
        let ghost all = words(chars@);
        let mut filters = SearchFilters::new();
        let mut i: usize = 0;
        while i < ws.len()
            invariant
                all == words(filter_str@),
                ws@.len() == all.len(),
                forall|k: int| 0 <= k < ws@.len() ==> (#[trigger] ws@[k])@ == all[k],
                i <= ws@.len(),
                apply_words(filters@, all, now, i as int) == parsed_filters(filter_str@, now),
            decreases ws@.len() - i,
        {
            let ghost before = filters@;
            assert(ws@[i as int]@ == all[i as int]);
            match apply_word_to(&mut filters, &ws[i], now) {
                Ok(()) => {},
                Err(e) => {
                    assert(apply_words(before, all, now, i as int) == Err::<
                        FiltersView,
                        FilterErrorView,
                    >(e@));
                    return Err(e);
                },
            }
            i += 1;
        }
        Ok(filters)
    }

    /// Whether `entry` passes every predicate that is set.
    pub fn matches(&self, entry: &FileEntry) -> (r: bool)
        ensures
            r == accepts(self@, entry@),
    {
        if let Some(min_size) = self.min_size {
            if entry.size < min_size {
                return false;
            }
        }
        if let Some(max_size) = self.max_size {
            if entry.size > max_size {
                return false;
            }
        }
        if !holds_not_before(&entry.modified, &self.modified_after) {
            return false;
        }
        if !holds_not_after(&entry.modified, &self.modified_before) {
            return false;
        }
        if !holds_not_before(&entry.created, &self.created_after) {
            return false;
        }
        if !holds_not_after(&entry.created, &self.created_before) {
            return false;
        }
        if self.extensions.len() > 0 && !entry.is_directory {
            let extension = path_extension(entry.path.as_str());
            if !self.has_extension(&extension) {
                return false;
            }
        }
        if let Some(is_dir) = self.is_directory {
            if entry.is_directory != is_dir {
                return false;
            }
        }
        true
    }

    /// Whether `extension`, in lowercase, is one of the extensions asked
    /// for.
    pub fn has_extension(&self, extension: &String) -> (r: bool)
        ensures
            r == self@.extensions.contains(extension@),
    {
        let mut i: usize = 0;
        while i < self.extensions.len()
            invariant
                i <= self.extensions@.len(),
                forall|k: int| 0 <= k < i ==> self@.extensions[k] != extension@,
            decreases self.extensions@.len() - i,
        {
            if self.extensions[i] == *extension {
                assert(self@.extensions[i as int] == extension@);
                return true;
            }
            i += 1;
        }
        false
    }

    /// Whether no predicate is set.
    pub fn is_empty(&self) -> (r: bool)
        ensures
            r == is_unset(self@),
    {
        self.min_size.is_none() && self.max_size.is_none() && self.modified_after.is_none()
            && self.modified_before.is_none() && self.created_after.is_none()
            && self.created_before.is_none() && self.extensions.len() == 0
            && self.is_directory.is_none()
    }

    /// The predicates that are set, in words.
    pub fn describe(&self) -> (r: String)
        ensures
            r@ == description(self@),
    {
        let mut parts: Vec<String> = Vec::new();
        assert(texts_of(parts@) =~= Seq::<Seq<char>>::empty());
        if let Some(min) = self.min_size {
            let mut p = String::from_str("size ≥ ");
            p.append(format_file_size(min).as_str());
            let ghost before = texts_of(parts@);
            parts.push(p);
            assert(texts_of(parts@) =~= before + seq![p@]);
        }
        let ghost after_min = texts_of(parts@);
        if let Some(max) = self.max_size {
            let mut p = String::from_str("size ≤ ");
            p.append(format_file_size(max).as_str());
            let ghost before = texts_of(parts@);
            parts.push(p);
            assert(texts_of(parts@) =~= before + seq![p@]);
        }
        let ghost after_max = texts_of(parts@);
        if let Some(date) = self.modified_after {
            let mut p = String::from_str("modified after ");
            p.append(format_date(&date).as_str());
            let ghost before = texts_of(parts@);
            parts.push(p);
            assert(texts_of(parts@) =~= before + seq![p@]);
        }
        let ghost after_from = texts_of(parts@);
        if let Some(date) = self.modified_before {
            let mut p = String::from_str("modified before ");
            p.append(format_date(&date).as_str());
            let ghost before = texts_of(parts@);
            parts.push(p);
            assert(texts_of(parts@) =~= before + seq![p@]);
        }
        let ghost after_until = texts_of(parts@);
        if self.extensions.len() > 0 {
            let mut p = String::from_str("ext: ");
            p.append(join(&self.extensions, ", ").as_str());
            let ghost before = texts_of(parts@);
            parts.push(p);
            assert(texts_of(parts@) =~= before + seq![p@]);
        }
        let ghost after_ext = texts_of(parts@);
        if let Some(is_dir) = self.is_directory {
            let p = if is_dir {
                String::from_str("directories only")
            } else {
                String::from_str("files only")
            };
            let ghost before = texts_of(parts@);
            parts.push(p);
            assert(texts_of(parts@) =~= before + seq![p@]);
        }
        assert(texts_of(parts@) =~= description_parts(self@));
        if parts.len() == 0 {
            String::from_str("no filters")
        } else {
            join(&parts, ", ")
        }
    }
}

fn holds_not_before(time: &Option<Timestamp>, bound: &Option<Timestamp>) -> (r: bool)
    ensures
        r == not_before(*time, *bound),
{
    match bound {
        None => true,
        Some(b) => match time {
            Some(t) => !t.is_before(b),
            None => false,
        },
    }
}

fn holds_not_after(time: &Option<Timestamp>, bound: &Option<Timestamp>) -> (r: bool)
    ensures
        r == not_after(*time, *bound),
{
    match bound {
        None => true,
        Some(b) => match time {
            Some(t) => !b.is_before(t),
            None => false,
        },
    }
}

/// The date of `t` as `YYYY-MM-DD`.
pub fn format_date(t: &Timestamp) -> (r: String)
    ensures
        r@ == date_text(*t),
{
    match format_time(t.secs, t.nanos, "%Y-%m-%d") {
        Some(s) => s,
        None => String::new(),
    }
}

/// The extension of `path`, in lowercase.
pub fn path_extension(path: &str) -> (r: String)
    ensures
        r@ == extension_of(path@),
{
    let chars = to_chars(path);
    let mut n: usize = chars.len();
    while n > 0 && chars[n - 1] != '.'
        invariant
            n <= chars@.len(),
            crate::text::after_last(chars@, '.', chars@.len() as int) == crate::text::after_last(
                chars@,
                '.',
                n as int,
            ),
        decreases n,
    {
        n -= 1;
    }
    let tail = from_chars(&chars, n, chars.len());
    lowercase(tail.as_str())
}

/// Reads a whole number of days.
fn parse_days(s: &Vec<char>) -> (r: Option<i64>)
    ensures
        r == day_count(s@),
{
    let n = s.len();
    let start: usize = if n > 0 && (s[0] == '+' || s[0] == '-') {
        1
    } else {
        0
    };
    let digits = slice_of(s, start, n);
    assert(digits@ =~= s@.skip(start as int));
    if digits.len() == 0 || !crate::sizes::is_digits(&digits) {
        return None;
    }
    match whole_value(&digits) {
        None => None,
        Some(v) => {
            if s[0] == '-' {
                if v > 0x8000_0000_0000_0000 {
                    None
                } else if v == 0x8000_0000_0000_0000 {
                    Some(i64::MIN)
                } else {
                    Some(-(v as i64))
                }
            } else if v > 0x7fff_ffff_ffff_ffff {
                None
            } else {
                Some(v as i64)
            }
        },
    }
}

/// Reads a size text, as a filter value.
pub fn parse_size(s: &str) -> (r: Result<u64, FilterError>)
    ensures
        match r {
            Ok(v) => size_of_text(s@) == Ok::<u64, FilterErrorView>(v),
            Err(e) => size_of_text(s@) == Err::<u64, FilterErrorView>(e@),
        },
{
    match read_size(s) {
        Ok(v) => Ok(v),
        Err(number) => Err(FilterError::InvalidSize(string_of(&number))),
    }
}

fn size_of(value: &Vec<char>, from: usize, to: usize) -> (r: Result<u64, FilterError>)
    requires
        from <= to <= value@.len(),
    ensures
        match r {
            Ok(v) => size_of_text(value@.subrange(from as int, to as int)) == Ok::<
                u64,
                FilterErrorView,
            >(v),
            Err(e) => size_of_text(value@.subrange(from as int, to as int)) == Err::<
                u64,
                FilterErrorView,
            >(e@),
        },
{
    let text = from_chars(value, from, to);
    parse_size(text.as_str())
}

fn apply_size_to(filters: &mut SearchFilters, value: &Vec<char>) -> (r: Result<(), FilterError>)
    ensures
        match r {
            Ok(()) => apply_size(old(filters)@, value@) == Ok::<FiltersView, FilterErrorView>(
                final(filters)@,
            ),
            Err(e) => apply_size(old(filters)@, value@) == Err::<FiltersView, FilterErrorView>(e@),
        },
{
    let n = value.len();
    let dashes = count_char(value, '-');
    if dashes > 0 {
        if dashes == 1 {
            let k = find_char(value, '-', 0);
            proof {
                crate::text::lemma_find_bounds(value@, '-', 0);
                if k == n {
                    lemma_absent_counts_zero(value@, '-');
                }
            }
            assert(value@.take(k as int) =~= value@.subrange(0, k as int));
            assert(value@.skip(k + 1) =~= value@.subrange(k + 1, n as int));
            let low = match size_of(value, 0, k) {
                Ok(v) => v,
                Err(e) => {
                    return Err(e);
                },
            };
            let high = match size_of(value, k + 1, n) {
                Ok(v) => v,
                Err(e) => {
                    return Err(e);
                },
            };
            filters.min_size = Some(low);
            filters.max_size = Some(high);
        }
        return Ok(());
    }
    if n > 0 {
        assert(value@.skip(1) =~= value@.subrange(1, n as int));
    }
    assert(value@ =~= value@.subrange(0, n as int));
    if n > 0 && value[0] == '>' {
        match size_of(value, 1, n) {
            Ok(v) => {
                filters.min_size = Some(v);
                Ok(())
            },
            Err(e) => Err(e),
        }
    } else if n > 0 && value[0] == '<' {
        match size_of(value, 1, n) {
            Ok(v) => {
                filters.max_size = Some(v);
                Ok(())
            },
            Err(e) => Err(e),
        }
    } else {
        match size_of(value, 0, n) {
            Ok(v) => {
                filters.min_size = Some(v);
                filters.max_size = Some(v);
                Ok(())
            },
            Err(e) => Err(e),
        }
    }
}

/// A character that does not stand in a text occurs zero times in it.
proof fn lemma_absent_counts_zero(s: Seq<char>, c: char)
    requires
        forall|k: int| 0 <= k < s.len() ==> #[trigger] s[k] != c,
    ensures
        count_of(s, c) == 0,
    decreases s.len(),
{
    if s.len() > 0 {
        assert(s.last() == s[s.len() - 1]);
        assert forall|k: int| 0 <= k < s.drop_last().len() implies #[trigger] s.drop_last()[k]
            != c by {
            assert(s.drop_last()[k] == s[k]);
        }
        lemma_absent_counts_zero(s.drop_last(), c);
    }
}

/// Reads the extensions of an `ext:` value.
pub fn parse_extensions(value: &Vec<char>) -> (r: Vec<String>)
    ensures
        texts_of(r@) == extension_list(value@, 0),
{
    let n = value.len();
    let mut out: Vec<String> = Vec::new();
    let mut i: usize = 0;
    let mut more: bool = true;
    assert(texts_of(out@) =~= Seq::<Seq<char>>::empty());
    while more
        invariant
            n == value@.len(),
            i <= n,
            more ==> texts_of(out@) + extension_list(value@, i as int) == extension_list(
                value@,
                0,
            ),
            !more ==> texts_of(out@) == extension_list(value@, 0),
        decreases n - i + if more { 1int } else { 0int },
    {
        let k = find_char(value, ',', i);
        let raw = slice_of(value, i, k);
        let piece = trim(&raw);
        let text = string_of(&piece);
        let lowered = lowercase(text.as_str());
        let ghost before = texts_of(out@);
        let ghost rest = if i <= k < n {
            extension_list(value@, k + 1)
        } else {
            Seq::<Seq<char>>::empty()
        };
        if !lowered.as_str().is_empty() {
            out.push(lowered);
            assert(texts_of(out@) =~= before + seq![lowered@]);
            assert(extension_list(value@, i as int) == seq![lowered@] + rest);
            assert(texts_of(out@) + rest =~= before + extension_list(value@, i as int));
        } else {
            assert(extension_list(value@, i as int) == rest);
        }
        if k < n {
            i = k + 1;
        } else {
            more = false;
            assert(texts_of(out@) + rest =~= texts_of(out@));
        }
    }
    out
}

fn date_of(value: &Vec<char>, from: usize) -> (r: Result<Timestamp, FilterError>)
    requires
        from <= value@.len(),
    ensures
        match r {
            Ok(t) => date_of_text(value@.skip(from as int)) == Ok::<Timestamp, FilterErrorView>(t),
            Err(e) => date_of_text(value@.skip(from as int)) == Err::<Timestamp, FilterErrorView>(
                e@,
            ),
        },
{
    let text = from_chars(value, from, value.len());
    assert(text@ =~= value@.skip(from as int));
    match parse_date_text(text.as_str(), "%Y-%m-%d") {
        Some(secs) => match Timestamp::from_unix(secs, 0) {
            Some(t) => Ok(t),
            None => Err(FilterError::InvalidDate(text)),
        },
        None => Err(FilterError::InvalidDate(text)),
    }
}

fn date_bound_of(value: &Vec<char>, now: Timestamp) -> (r: Result<Timestamp, FilterError>)
    ensures
        match r {
            Ok(t) => date_bound(value@, now) == Ok::<Timestamp, FilterErrorView>(t),
            Err(e) => date_bound(value@, now) == Err::<Timestamp, FilterErrorView>(e@),
        },
{
    let n = value.len();
    if n > 0 && (value[n - 1] == 'd' || value[n - 1] == 'D') {
        let digits = slice_of(value, 0, n - 1);
        assert(digits@ =~= value@.drop_last());
        let moved = match parse_days(&digits) {
            Some(days) => now.minus_days(days),
            None => None,
        };
        match moved {
            Some(t) => Ok(t),
            None => Err(FilterError::InvalidDayCount(string_of(value))),
        }
    } else if n > 0 && (value[0] == '>' || value[0] == '<') {
        date_of(value, 1)
    } else {
        assert(value@.skip(0) =~= value@);
        date_of(value, 0)
    }
}

fn apply_date_to(
    filters: &mut SearchFilters,
    value: &Vec<char>,
    now: Timestamp,
    modified: bool,
) -> (r: Result<(), FilterError>)
    ensures
        match r {
            Ok(()) => apply_date(old(filters)@, value@, now, modified) == Ok::<
                FiltersView,
                FilterErrorView,
            >(final(filters)@),
            Err(e) => apply_date(old(filters)@, value@, now, modified) == Err::<
                FiltersView,
                FilterErrorView,
            >(e@),
        },
{
    let t = match date_bound_of(value, now) {
        Ok(t) => t,
        Err(e) => {
            return Err(e);
        },
    };
    let n = value.len();
    let upper = n > 0 && value[0] == '<' && value[n - 1] != 'd';
    if modified {
        if upper {
            filters.modified_before = Some(t);
        } else {
            filters.modified_after = Some(t);
        }
    } else {
        if upper {
            filters.created_before = Some(t);
        } else {
            filters.created_after = Some(t);
        }
    }
    Ok(())
}

fn apply_type_to(filters: &mut SearchFilters, value: &Vec<char>) -> (r: Result<(), FilterError>)
    ensures
        match r {
            Ok(()) => apply_type(old(filters)@, value@) == Ok::<FiltersView, FilterErrorView>(
                final(filters)@,
            ),
            Err(e) => apply_type(old(filters)@, value@) == Err::<FiltersView, FilterErrorView>(e@),
        },
{
    let text = string_of(value);
    let lowered = lowercase(text.as_str());
    match type_of_lowercase(lowered.as_str()) {
        Some(d) => {
            filters.is_directory = Some(d);
            Ok(())
        },
        None => Err(FilterError::InvalidType(text)),
    }
}

/// The restriction that a type in lowercase stands for.
pub fn type_of_lowercase(lowered: &str) -> (r: Option<bool>)
    ensures
        r == type_choice(lowered@),
{
    let v = to_chars(lowered);
    if equals_str(&v, "dir") || equals_str(&v, "directory") || equals_str(&v, "folder") {
        Some(true)
    } else if equals_str(&v, "file") {
        Some(false)
    } else {
        None
    }
}

/// Applies one filter, given by its key in lowercase and its value.
pub fn apply_filter(filters: &mut SearchFilters, key: &str, value: &Vec<char>, now: Timestamp) -> (r:
    Result<(), FilterError>)
    ensures
        match r {
            Ok(()) => apply_key(old(filters)@, key@, value@, now) == Ok::<
                FiltersView,
                FilterErrorView,
            >(final(filters)@),
            Err(e) => apply_key(old(filters)@, key@, value@, now) == Err::<
                FiltersView,
                FilterErrorView,
            >(e@),
        },
{
    let key = to_chars(key);
    if equals_str(&key, "size") {
        apply_size_to(filters, value)
    } else if equals_str(&key, "ext") || equals_str(&key, "extension") {
        filters.extensions = parse_extensions(value);
        Ok(())
    } else if equals_str(&key, "modified") || equals_str(&key, "mod") {
        apply_date_to(filters, value, now, true)
    } else if equals_str(&key, "created") || equals_str(&key, "cr") {
        apply_date_to(filters, value, now, false)
    } else if equals_str(&key, "type") {
        apply_type_to(filters, value)
    } else {
        Ok(())
    }
}

fn apply_word_to(filters: &mut SearchFilters, word: &Vec<char>, now: Timestamp) -> (r: Result<
    (),
    FilterError,
>)
    ensures
        match r {
            Ok(()) => apply_word(old(filters)@, word@, now) == Ok::<FiltersView, FilterErrorView>(
                final(filters)@,
            ),
            Err(e) => apply_word(old(filters)@, word@, now) == Err::<FiltersView, FilterErrorView>(
                e@,
            ),
        },
{
    let n = word.len();
    let k = find_char(word, ':', 0);
    if k >= n {
        return Ok(());
    }
    let raw_key = from_chars(word, 0, k);
    assert(raw_key@ =~= word@.take(k as int));
    let key = lowercase(raw_key.as_str());
    let value = slice_of(word, k + 1, n);
    assert(value@ =~= word@.skip(k + 1));
    apply_filter(filters, key.as_str(), &value, now)
}

/// The search text of a query: its words without a colon, joined by
/// single spaces.
pub fn extract_search_query(query: &str) -> (r: String)
    ensures
        r@ == search_text(query@),
{
    let chars = to_chars(query);
    let ws = split_words(&chars);
    let ghost all = words(chars@);
    let mut plain: Vec<String> = Vec::new();
    let mut i: usize = 0;
    assert(texts_of(plain@) =~= Seq::<Seq<char>>::empty());
    while i < ws.len()
        invariant
            all == words(query@),
            ws@.len() == all.len(),
            forall|k: int| 0 <= k < ws@.len() ==> (#[trigger] ws@[k])@ == all[k],
            i <= ws@.len(),
            texts_of(plain@) == plain_words(all, i as int),
        decreases ws@.len() - i,
    {
        assert(ws@[i as int]@ == all[i as int]);
        let k = find_char(&ws[i], ':', 0);
        if k >= ws[i].len() {
            let ghost before = texts_of(plain@);
            let word = string_of(&ws[i]);
            plain.push(word);
            assert(texts_of(plain@) =~= before.push(word@));
        }
        i += 1;
    }
    let r = join(&plain, " ");
    proof {
        reveal_strlit(" ");
        assert(" "@ =~= seq![' ']);
    }
    r
}

/// A byte count for reading, as filter descriptions show it.
pub fn format_size(bytes: u64) -> (r: String)
    ensures
        r@ == size_text(bytes, 4, 1),
{
    format_file_size(bytes)
}

} // verus!
