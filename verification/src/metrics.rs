//! Counts and times of the searches of a session. Times are in
//! nanoseconds.

use vstd::prelude::*;
use crate::text::{decimal, push_decimal};

verus! {

#[derive(Clone, Copy, Debug, PartialEq, Eq, Structural)]
pub struct SearchMetrics {
    pub total_searches: usize,
    /// The sum of all search times.
    pub total_search_time: u128,
    pub total_matches: usize,
    pub searches_with_results: usize,
    pub searches_with_no_results: usize,
    pub fastest_search: Option<u128>,
    pub slowest_search: Option<u128>,
    /// The most matches that one search found.
    pub most_matches: usize,
}

/// The metrics before the first search.
pub open spec fn no_searches() -> SearchMetrics {
    SearchMetrics {
        total_searches: 0,
        total_search_time: 0,
        total_matches: 0,
        searches_with_results: 0,
        searches_with_no_results: 0,
        fastest_search: None,
        slowest_search: None,
        most_matches: 0,
    }
}

/// The metrics after one more search of `duration` with `match_count`
/// matches.
pub open spec fn after_search(m: SearchMetrics, duration: u128, match_count: usize) -> SearchMetrics {
    SearchMetrics {
        total_searches: (m.total_searches + 1) as usize,
        total_search_time: (m.total_search_time + duration) as u128,
        total_matches: (m.total_matches + match_count) as usize,
        searches_with_results: if match_count > 0 {
            (m.searches_with_results + 1) as usize
        } else {
            m.searches_with_results
        },
        searches_with_no_results: if match_count > 0 {
            m.searches_with_no_results
        } else {
            (m.searches_with_no_results + 1) as usize
        },
        fastest_search: match m.fastest_search {
            Some(f) => if duration < f {
                Some(duration)
            } else {
                Some(f)
            },
            None => Some(duration),
        },
        slowest_search: match m.slowest_search {
            Some(s) => if duration > s {
                Some(duration)
            } else {
                Some(s)
            },
            None => Some(duration),
        },
        most_matches: if match_count > m.most_matches {
            match_count
        } else {
            m.most_matches
        },
    }
}

impl SearchMetrics {
    /// The counts are consistent: every search either had results or had
    /// none.
    pub open spec fn consistent(self) -> bool {
        self.searches_with_results + self.searches_with_no_results == self.total_searches
    }

    pub fn new() -> (r: Self)
        ensures
            r == no_searches(),
            r.consistent(),
    {
        SearchMetrics {
            total_searches: 0,
            total_search_time: 0,
            total_matches: 0,
            searches_with_results: 0,
            searches_with_no_results: 0,
            fastest_search: None,
            slowest_search: None,
            most_matches: 0,
        }
    }

    /// Records one search. The sums must stay within their types.
    pub fn record_search(&mut self, duration: u128, match_count: usize)
        requires
            old(self).consistent(),
            old(self).total_searches < usize::MAX,
            old(self).total_search_time + duration <= u128::MAX,
            old(self).total_matches + match_count <= usize::MAX,
        ensures
            *final(self) == after_search(*old(self), duration, match_count),
            final(self).consistent(),
    {
        self.total_searches = self.total_searches + 1;
        self.total_search_time = self.total_search_time + duration;
        self.total_matches = self.total_matches + match_count;
        if match_count > 0 {
            self.searches_with_results = self.searches_with_results + 1;
        } else {
            self.searches_with_no_results = self.searches_with_no_results + 1;
        }
        self.fastest_search = match self.fastest_search {
            Some(f) => if duration < f {
                Some(duration)
            } else {
                Some(f)
            },
            None => Some(duration),
        };
        self.slowest_search = match self.slowest_search {
            Some(s) => if duration > s {
                Some(duration)
            } else {
                Some(s)
            },
            None => Some(duration),
        };
        if match_count > self.most_matches {
            self.most_matches = match_count;
        }
    }

    /// The mean search time, rounded down; 0 before the first search.
    pub fn average_search_time(&self) -> (r: u128)
        ensures
            r == if self.total_searches == 0 {
                0
            } else {
                self.total_search_time as int / self.total_searches as int
            },
    {
        if self.total_searches == 0 {
            0
        } else {
            self.total_search_time / self.total_searches as u128
        }
    }

    /// The mean number of matches of a search, in thousandths and rounded
    /// down; 0 before the first search.
    pub fn average_matches(&self) -> (r: u128)
        ensures
            r == if self.total_searches == 0 {
                0
            } else {
                (self.total_matches * 1000) / (self.total_searches as int)
            },
    {
        if self.total_searches == 0 {
            0
        } else {
            (self.total_matches as u128 * 1000) / self.total_searches as u128
        }
    }

    /// The share of the searches that found something, in thousandths and
    /// rounded down; 0 before the first search.
    pub fn success_rate(&self) -> (r: u128)
        ensures
            r == if self.total_searches == 0 {
                0
            } else {
                (self.searches_with_results * 1000) / (self.total_searches as int)
            },
    {
        if self.total_searches == 0 {
            0
        } else {
            (self.searches_with_results as u128 * 1000) / self.total_searches as u128
        }
    }

    /// Forgets all searches.
    pub fn reset(&mut self)
        ensures
            *final(self) == no_searches(),
    {
        *self = SearchMetrics::new();
    }
}

impl Default for SearchMetrics {
    fn default() -> (r: Self)
        ensures
            r == no_searches(),
    {
        SearchMetrics::new()
    }
}

/// A count of seconds for reading: `42s`, `3m 7s`, `2h 5m`.
pub open spec fn duration_text(secs: u64) -> Seq<char> {
    if secs < 60 {
        decimal(secs as nat) + seq!['s']
    } else if secs < 3600 {
        decimal((secs / 60) as nat) + seq!['m', ' '] + decimal((secs % 60) as nat) + seq!['s']
    } else {
        decimal((secs / 3600) as nat) + seq!['h', ' '] + decimal(((secs % 3600) / 60) as nat)
            + seq!['m']
    }
}

pub fn format_duration(secs: u64) -> (r: String)
    ensures
        r@ == duration_text(secs),
{
    let mut r = String::new();
    if secs < 60 {
        push_decimal(&mut r, secs);
        r.push('s');
        assert(r@ =~= duration_text(secs));
    } else if secs < 3600 {
        push_decimal(&mut r, secs / 60);
        r.push('m');
        r.push(' ');
        push_decimal(&mut r, secs % 60);
        r.push('s');
        assert(r@ =~= duration_text(secs));
    } else {
        push_decimal(&mut r, secs / 3600);
        r.push('h');
        r.push(' ');
        push_decimal(&mut r, (secs % 3600) / 60);
        r.push('m');
        assert(r@ =~= duration_text(secs));
    }
    r
}

} // verus!
