//! What the terminal front-end decides: what a key does to the query
//! line, and what a query line searches for.

use vstd::prelude::*;
use crate::file_entry::EntryView;
use crate::filters::{
    extract_search_query, no_filters, parsed_filters, search_text, FiltersView, SearchFilters,
};
use crate::history::{
    after_add, has_older, newer_place, older_place, shown_query, SearchHistory,
};
use crate::index::FileIndex;
use crate::text::trimmed;
use crate::search::{checked_results, optional_views, ResultView, SearchEngine, SearchResult};
use crate::timestamp::Timestamp;

verus! {

/// The most results that are shown.
pub const RESULT_LIMIT: usize = 50;

/// A key, as far as the query line tells keys apart.
#[derive(Clone, Copy, Debug, PartialEq, Eq, Structural)]
pub enum Key {
    /// A character key, with or without the control key held.
    Char { c: char, control: bool },
    /// A function key.
    F(u8),
    Backspace,
    Up,
    Down,
    Enter,
    Other,
}

/// What the front-end does after a key.
#[derive(Clone, Copy, Debug, PartialEq, Eq, Structural)]
pub enum KeyAction {
    Exit,
    UpdateSearch,
    Export,
    ToggleHelp,
    ToggleStats,
    /// The key does nothing.
    Ignore,
}

/// The filters of a query line: what it parses to, and none where it
/// does not parse.
pub open spec fn filters_or_none(text: Seq<char>, now: Timestamp) -> FiltersView {
    match parsed_filters(text, now) {
        Ok(f) => f,
        Err(_) => no_filters(),
    }
}

/// What a query line finds: its words without a colon are the search
/// text, its filters narrow the entries, and a line whose filters do not
/// parse is searched without filters. Nothing is found out where the
/// matcher cannot score the search text.
pub open spec fn query_results(text: Seq<char>, entries: Seq<EntryView>, now: Timestamp) -> Option<
    Seq<ResultView>,
> {
    checked_results(search_text(text), entries, RESULT_LIMIT as int, filters_or_none(text, now))
}

/// Searches for a query line, with `now` as the time that relative
/// dates count back from.
pub fn perform_search_at(
    search_engine: &mut SearchEngine,
    index: &FileIndex,
    query_str: &str,
    now: Timestamp,
) -> (r: Option<Vec<SearchResult>>)
    ensures
        optional_views(r) == query_results(query_str@, index@, now),
{
    let filters = match SearchFilters::parse_filter_string_at(query_str, now) {
        Ok(f) => f,
        Err(_) => SearchFilters::new(),
    };
    let search_query = extract_search_query(query_str);
    search_engine.try_search_with_filters(index, search_query.as_str(), RESULT_LIMIT, &filters)
}

/// Searches for a query line at the time of the call.
pub fn perform_search(search_engine: &mut SearchEngine, index: &FileIndex, query_str: &str) -> (r:
    Option<Vec<SearchResult>>)
    ensures
        exists|now: Timestamp| optional_views(r) == query_results(query_str@, index@, now),
{
    let (secs, nanos) = crate::calendar::clock_now();
    let now = match Timestamp::from_unix(secs, nanos) {
        Some(t) => t,
        None => Timestamp { secs: 0, nanos: 0 },
    };
    let r = perform_search_at(search_engine, index, query_str, now);
    assert(optional_views(r) == query_results(query_str@, index@, now));
    r
}

/// The action that a key calls for. Control with `c` or `d` leaves,
/// control with `e` exports, F1 and F2 toggle help and statistics; the
/// up and down keys act only where the history has a query to give; every
/// other character, backspace and enter change or confirm the query.
pub open spec fn action_of(key: Key, history_gives: bool) -> KeyAction {
    match key {
        Key::Char { c, control } => if control && (c == 'c' || c == 'd') {
            KeyAction::Exit
        } else if control && c == 'e' {
            KeyAction::Export
        } else {
            KeyAction::UpdateSearch
        },
        Key::F(n) => if n == 1 {
            KeyAction::ToggleHelp
        } else if n == 2 {
            KeyAction::ToggleStats
        } else {
            KeyAction::Ignore
        },
        Key::Backspace => KeyAction::UpdateSearch,
        Key::Up => if history_gives {
            KeyAction::UpdateSearch
        } else {
            KeyAction::Ignore
        },
        Key::Down => if history_gives {
            KeyAction::UpdateSearch
        } else {
            KeyAction::Ignore
        },
        Key::Enter => KeyAction::UpdateSearch,
        Key::Other => KeyAction::Ignore,
    }
}

/// Whether the key is a character that goes into the query.
pub open spec fn types_char(key: Key) -> bool {
    key matches Key::Char { c, control } && !(control && (c == 'c' || c == 'd' || c == 'e'))
}

/// Applies a key to the query line and the history.
pub fn handle_key_event(key: Key, query: &mut String, history: &mut SearchHistory) -> (action:
    KeyAction)
    ensures
        match key {
            Key::Char { c, control } => {
                &&& action == action_of(key, false)
                &&& final(query)@ == if types_char(key) {
                    old(query)@.push(c)
                } else {
                    old(query)@
                }
                &&& final(history).texts() == old(history).texts()
                &&& final(history).place() == if types_char(key) {
                    None
                } else {
                    old(history).place()
                }
            },
            Key::Backspace => {
                &&& action == KeyAction::UpdateSearch
                &&& final(query)@ == if old(query)@.len() > 0 {
                    old(query)@.drop_last()
                } else {
                    old(query)@
                }
                &&& final(history).texts() == old(history).texts()
                &&& final(history).place() is None
            },
            Key::Enter => {
                &&& action == KeyAction::UpdateSearch
                &&& final(query)@ == old(query)@
                &&& final(history).texts() == after_add(old(history).texts(), old(query)@)
                &&& final(history).place() == if trimmed(old(query)@).len() > 0 {
                    None
                } else {
                    old(history).place()
                }
            },
            Key::Up => {
                let moves = has_older(old(history).texts().len(), old(history).place());
                &&& action == action_of(key, moves)
                &&& final(history).texts() == old(history).texts()
                &&& final(history).place() == older_place(
                    old(history).texts().len(),
                    old(history).place(),
                )
                &&& final(query)@ == if moves {
                    shown_query(old(history).texts(), final(history).place())
                } else {
                    old(query)@
                }
            },
            Key::Down => {
                let moves = old(history).place() is Some;
                &&& action == action_of(key, moves)
                &&& final(history).texts() == old(history).texts()
                &&& final(history).place() == newer_place(
                    old(history).texts().len(),
                    old(history).place(),
                )
                &&& final(query)@ == if moves {
                    shown_query(old(history).texts(), final(history).place())
                } else {
                    old(query)@
                }
            },
            _ => {
                &&& action == action_of(key, false)
                &&& final(query)@ == old(query)@
                &&& final(history).texts() == old(history).texts()
                &&& final(history).place() == old(history).place()
            },
        },
{
    match key {
        Key::Char { c, control } => {
            if control && (c == 'c' || c == 'd') {
                KeyAction::Exit
            } else if control && c == 'e' {
                KeyAction::Export
            } else {
                query.push(c);
                history.reset_position();
                KeyAction::UpdateSearch
            }
        },
        Key::F(n) => {
            if n == 1 {
                KeyAction::ToggleHelp
            } else if n == 2 {
                KeyAction::ToggleStats
            } else {
                KeyAction::Ignore
            }
        },
        Key::Backspace => {
            query.pop();
            history.reset_position();
            KeyAction::UpdateSearch
        },
        Key::Up => {
            match history.previous(query.as_str()) {
                Some(earlier) => {
                    *query = earlier;
                    KeyAction::UpdateSearch
                },
                None => KeyAction::Ignore,
            }
        },
        Key::Down => {
            match history.next() {
                Some(later) => {
                    *query = later;
                    KeyAction::UpdateSearch
                },
                None => KeyAction::Ignore,
            }
        },
        Key::Enter => {
            if !query.as_str().is_empty() {
                history.add(query.as_str());
            }
            KeyAction::UpdateSearch
        },
        Key::Other => KeyAction::Ignore,
    }
}

} // verus!
