//! Fuzzy search over the index: every entry that passes the filters is
//! scored against the query, by its name first and by its path otherwise,
//! and the best are returned in order of score.

use vstd::prelude::*;
use vstd::string::StrSliceExecFns;
use nucleo_matcher::pattern::{CaseMatching, Normalization, Pattern};
use nucleo_matcher::{Config, Matcher, Utf32Str};
use crate::file_entry::{EntryView, FileEntry};
use crate::filters::{accepts, no_filters, FiltersView, SearchFilters};
use crate::index::{entry_views, FileIndex};

verus! {

/// The matcher of `nucleo_matcher`: scratch memory and a configuration.
/// The library carries it and never looks inside.
#[verifier::external_type_specification]
#[verifier::external_body]
pub struct ExMatcher(Matcher);

/// The pattern of `nucleo_matcher`: the words of a query, each parsed
/// into an atom. The library reads it only through the wrappers below.
#[verifier::external_type_specification]
#[verifier::external_body]
pub struct ExPattern(Pattern);

/// One atom of a pattern as plain values: the number of its kind (fuzzy,
/// substring, prefix, postfix, exact), whether it is negated, whether it
/// ignores case and normalizes, the characters it looks for, and how the
/// matcher keeps them. A word of the query that was all ASCII is kept as
/// bytes; any other word is kept as code points, also where folding its
/// case left only ASCII characters. The matcher scores the two
/// differently: a needle kept as code points matches no text that is
/// kept as bytes.
pub struct AtomView {
    pub kind: u8,
    pub negative: bool,
    pub ignore_case: bool,
    pub normalize: bool,
    pub needle: Seq<char>,
    pub kept_as_bytes: bool,
}

/// The longest needle that is scored. The matcher keeps the score of an
/// atom in a `u16` and adds at most 36 for the first character of the
/// needle and at most 26 for each further one: 36 + 26 * 2519 = 65530.
pub const MAX_NEEDLE_CHARS: usize = 2520;

/// The longest text that is scored, in characters. The matcher takes no
/// text of more than `u32::MAX` units, and where it keeps a text as bytes
/// a character takes up to four of them.
pub const MAX_TEXT_CHARS: usize = 0x3fff_ffff;

/// The atoms that `Pattern::parse` makes of a query, ignoring case and
/// with smart normalization.
pub uninterp spec fn parsed_atoms(query: Seq<char>) -> Seq<AtomView>;

/// The atoms that a pattern holds, in order.
pub uninterp spec fn pattern_atoms(p: Pattern) -> Seq<AtomView>;

/// The score that `Atom::score` gives to `text` for an atom, with the
/// matcher's default configuration; nothing where the atom does not match.
pub uninterp spec fn atom_score(atom: AtomView, text: Seq<char>) -> Option<u16>;

/// `Matcher::new` with the default configuration.
#[verifier::external_body]
fn new_matcher() -> Matcher {
    Matcher::new(Config::DEFAULT)
}

/// `Pattern::parse` of `nucleo_matcher`, ignoring case and with smart
/// normalization. The contract names the atoms of the result: they depend
/// on the query alone.
#[verifier::external_body]
fn parse_pattern(query: &str) -> (p: Pattern)
    ensures
        pattern_atoms(p) == parsed_atoms(query@),
{
    Pattern::parse(query, CaseMatching::Ignore, Normalization::Smart)
}

/// The length of the public field `Pattern::atoms`.
#[verifier::external_body]
fn atom_count(pattern: &Pattern) -> (n: usize)
    ensures
        n == pattern_atoms(*pattern).len(),
{
    pattern.atoms.len()
}

/// `Atom::needle_text` and `Utf32Str::len` for the atom at `i`: the
/// number of characters that the atom looks for.
#[verifier::external_body]
fn needle_length(pattern: &Pattern, i: usize) -> (n: usize)
    requires
        i < pattern_atoms(*pattern).len(),
    ensures
        n == pattern_atoms(*pattern)[i as int].needle.len(),
{
    pattern.atoms[i].needle_text().len()
}

/// `Atom::score` of `nucleo_matcher` for the atom at `i`, with a matcher
/// made by `new_matcher`. The bounds keep the call clear of the matcher's
/// length check, which counts bytes where the text is kept as bytes, and
/// of an overflow of the atom's `u16` score. The contract names the
/// result: it depends on the atom, as `AtomView` describes it, and on the
/// text alone.
#[verifier::external_body]
fn score_atom(matcher: &mut Matcher, pattern: &Pattern, i: usize, text: &str) -> (r: Option<u16>)
    requires
        i < pattern_atoms(*pattern).len(),
        pattern_atoms(*pattern)[i as int].needle.len() <= MAX_NEEDLE_CHARS,
        text@.len() <= MAX_TEXT_CHARS,
    ensures
        r == atom_score(pattern_atoms(*pattern)[i as int], text@),
{
    let mut buffer = Vec::new();
    pattern.atoms[i].score(Utf32Str::new(text, &mut buffer), matcher)
}

/// An entry with its score for a query. A higher score is a better match.
#[derive(Debug)]
pub struct SearchResult {
    pub entry: FileEntry,
    pub score: u32,
}

pub struct ResultView {
    pub entry: EntryView,
    pub score: u32,
}

impl View for SearchResult {
    type V = ResultView;

    open spec fn view(&self) -> ResultView {
        ResultView { entry: self.entry@, score: self.score }
    }
}

impl Clone for SearchResult {
    fn clone(&self) -> (r: Self)
        ensures
            r@ == self@,
    {
        SearchResult { entry: self.entry.clone(), score: self.score }
    }
}

pub open spec fn result_views(results: Seq<SearchResult>) -> Seq<ResultView> {
    results.map_values(|r: SearchResult| r@)
}

/// Every atom is within what the matcher scores.
pub open spec fn atoms_scorable(atoms: Seq<AtomView>) -> bool {
    forall|i: int| 0 <= i < atoms.len() ==> (#[trigger] atoms[i]).needle.len() <= MAX_NEEDLE_CHARS
}

/// The matcher can score the query: none of its atoms looks for more
/// than `MAX_NEEDLE_CHARS` characters.
pub open spec fn scorable(query: Seq<char>) -> bool {
    atoms_scorable(parsed_atoms(query))
}

/// Whether a search takes the query: it is empty, and finds nothing, or
/// the matcher can score it.
pub open spec fn is_searchable(query: Seq<char>) -> bool {
    query.len() == 0 || scorable(query)
}

/// The sum of the scores of the first `n` atoms for `text`; nothing where
/// one of them does not match.
pub open spec fn atoms_sum(atoms: Seq<AtomView>, text: Seq<char>, n: int) -> Option<nat>
    decreases n,
{
    if n <= 0 {
        Some(0nat)
    } else {
        match (atoms_sum(atoms, text, n - 1), atom_score(atoms[n - 1], text)) {
            (Some(before), Some(s)) => Some(before + s as nat),
            _ => None,
        }
    }
}

pub open spec fn saturated32(v: nat) -> u32 {
    if v > u32::MAX {
        u32::MAX
    } else {
        v as u32
    }
}

/// The score of one text: every atom must match, and the score is the sum
/// over the atoms, held at `u32::MAX`. A sum of 0 is no match: no match is
/// shown by absence, never by a score of 0. A text of more than
/// `MAX_TEXT_CHARS` characters never matches.
pub open spec fn text_score(atoms: Seq<AtomView>, text: Seq<char>) -> Option<u32> {
    if text.len() > MAX_TEXT_CHARS {
        None
    } else {
        match atoms_sum(atoms, text, atoms.len() as int) {
            Some(sum) => if sum > 0 {
                Some(saturated32(sum))
            } else {
                None
            },
            None => None,
        }
    }
}

/// Once an atom does not match, the sum stays undefined.
proof fn lemma_sum_stays_none(atoms: Seq<AtomView>, text: Seq<char>, k: int, n: int)
    requires
        0 <= k <= n,
        atoms_sum(atoms, text, k) is None,
    ensures
        atoms_sum(atoms, text, n) is None,
    decreases n - k,
{
    if k < n {
        lemma_sum_stays_none(atoms, text, k, n - 1);
    }
}

pub open spec fn doubled(score: u32) -> u32 {
    if score * 2 > u32::MAX {
        u32::MAX
    } else {
        (score * 2) as u32
    }
}

/// The score of an entry from the scores of its name and its path: twice
/// the score of the name where the name matches, else the score of the
/// path, else nothing.
pub open spec fn best_score(name_score: Option<u32>, path_score: Option<u32>) -> Option<u32> {
    match name_score {
        Some(s) => Some(doubled(s)),
        None => path_score,
    }
}

/// The score of an entry for the atoms of a query.
pub open spec fn entry_score(atoms: Seq<AtomView>, e: EntryView) -> Option<u32> {
    best_score(text_score(atoms, e.name), text_score(atoms, e.path))
}

/// Computes `best_score`.
pub fn combine_scores(name_score: Option<u32>, path_score: Option<u32>) -> (r: Option<u32>)
    ensures
        r == best_score(name_score, path_score),
{
    match name_score {
        Some(s) => Some(
            if s > u32::MAX / 2 {
                u32::MAX
            } else {
                s * 2
            },
        ),
        None => path_score,
    }
}

/// The matches among the first `n` entries, in index order: the entries
/// that pass the filters and have a score.
pub open spec fn matches_of(
    atoms: Seq<AtomView>,
    entries: Seq<EntryView>,
    f: FiltersView,
    n: int,
) -> Seq<ResultView>
    decreases n,
{
    if n <= 0 {
        Seq::empty()
    } else {
        let before = matches_of(atoms, entries, f, n - 1);
        let e = entries[n - 1];
        if accepts(f, e) && entry_score(atoms, e) is Some {
            before.push(ResultView { entry: e, score: entry_score(atoms, e).unwrap() })
        } else {
            before
        }
    }
}

/// Where a result of score `score` goes in a ranking: behind every
/// result that scores at least as much.
pub open spec fn rank_position(s: Seq<ResultView>, score: u32, from: int) -> int
    decreases s.len() - from,
{
    if 0 <= from < s.len() && s[from].score >= score {
        rank_position(s, score, from + 1)
    } else {
        from
    }
}

pub open spec fn insert_ranked(s: Seq<ResultView>, r: ResultView) -> Seq<ResultView> {
    s.insert(rank_position(s, r.score, 0), r)
}

/// `s` in order of falling score; results of equal score keep the order
/// they have in `s`.
pub open spec fn ranked(s: Seq<ResultView>) -> Seq<ResultView>
    decreases s.len(),
{
    if s.len() == 0 {
        Seq::empty()
    } else {
        insert_ranked(ranked(s.drop_last()), s.last())
    }
}

/// At most the first `limit` of `s`.
pub open spec fn at_most(s: Seq<ResultView>, limit: int) -> Seq<ResultView> {
    if limit <= 0 {
        Seq::empty()
    } else if limit >= s.len() {
        s
    } else {
        s.take(limit)
    }
}

/// The best `limit` matches for the atoms of a query, best first.
pub open spec fn best_matches(
    atoms: Seq<AtomView>,
    entries: Seq<EntryView>,
    limit: int,
    f: FiltersView,
) -> Seq<ResultView> {
    at_most(ranked(matches_of(atoms, entries, f, entries.len() as int)), limit)
}

/// What a search returns: nothing for the empty query, else the best
/// `limit` matches, best first.
pub open spec fn search_results(
    query: Seq<char>,
    entries: Seq<EntryView>,
    limit: int,
    f: FiltersView,
) -> Seq<ResultView> {
    if query.len() == 0 {
        Seq::empty()
    } else {
        best_matches(parsed_atoms(query), entries, limit, f)
    }
}

/// How many entries match, whatever the limit of a search.
pub open spec fn match_count(query: Seq<char>, entries: Seq<EntryView>, f: FiltersView) -> nat {
    if query.len() == 0 {
        0
    } else {
        matches_of(parsed_atoms(query), entries, f, entries.len() as int).len()
    }
}

/// What a search returns where it first tests whether the matcher can
/// score the query: nothing where it cannot.
pub open spec fn checked_results(
    query: Seq<char>,
    entries: Seq<EntryView>,
    limit: int,
    f: FiltersView,
) -> Option<Seq<ResultView>> {
    if is_searchable(query) {
        Some(search_results(query, entries, limit, f))
    } else {
        None
    }
}

/// What a count returns where it first tests whether the matcher can
/// score the query: nothing where it cannot.
pub open spec fn checked_count(query: Seq<char>, entries: Seq<EntryView>, f: FiltersView) -> Option<
    usize,
> {
    if is_searchable(query) {
        Some(match_count(query, entries, f) as usize)
    } else {
        None
    }
}

/// The views of results that may be absent.
pub open spec fn optional_views(r: Option<Vec<SearchResult>>) -> Option<Seq<ResultView>> {
    match r {
        Some(v) => Some(result_views(v@)),
        None => None,
    }
}

pub open spec fn is_descending(s: Seq<ResultView>) -> bool {
    forall|i: int, j: int| 0 <= i <= j < s.len() ==> s[i].score >= s[j].score
}

pub proof fn lemma_rank_position(s: Seq<ResultView>, score: u32, from: int)
    requires
        0 <= from <= s.len(),
    ensures
        from <= rank_position(s, score, from) <= s.len(),
        forall|k: int| from <= k < rank_position(s, score, from) ==> (#[trigger] s[k]).score >= score,
        rank_position(s, score, from) < s.len() ==> s[rank_position(s, score, from)].score < score,
    decreases s.len() - from,
{
    if from < s.len() && s[from].score >= score {
        lemma_rank_position(s, score, from + 1);
    }
}

/// The scan for a rank stops at the same place in a ranking and in its
/// leading part, unless it runs past that part.
proof fn lemma_rank_position_take(s: Seq<ResultView>, score: u32, from: int, limit: int)
    requires
        0 <= from <= limit <= s.len(),
    ensures
        rank_position(s.take(limit), score, from) == if rank_position(s, score, from) < limit {
            rank_position(s, score, from)
        } else {
            limit
        },
    decreases limit - from,
{
    lemma_rank_position(s, score, from);
    if from < limit {
        assert(s.take(limit)[from] == s[from]);
        if s[from].score >= score {
            lemma_rank_position_take(s, score, from + 1, limit);
        }
    }
}

/// Ranking and cutting commute: the best `limit` after one more result
/// are found from the best `limit` before it.
pub proof fn lemma_insert_then_cut(s: Seq<ResultView>, r: ResultView, limit: int)
    requires
        limit >= 0,
    ensures
        at_most(insert_ranked(s, r), limit) == at_most(insert_ranked(at_most(s, limit), r), limit),
{
    if 0 < limit < s.len() {
        lemma_rank_position(s, r.score, 0);
        lemma_rank_position_take(s, r.score, 0, limit);
        let k = rank_position(s, r.score, 0);
        let cut = s.take(limit);
        if k < limit {
            assert(s.insert(k, r).take(limit) =~= cut.insert(k, r).take(limit));
        } else {
            assert(s.insert(k, r).take(limit) =~= cut);
            assert(cut.insert(limit, r).take(limit) =~= cut);
        }
    }
}

pub proof fn lemma_insert_keeps_order(s: Seq<ResultView>, r: ResultView)
    requires
        is_descending(s),
    ensures
        is_descending(insert_ranked(s, r)),
{
    lemma_rank_position(s, r.score, 0);
    let k = rank_position(s, r.score, 0);
    let t = s.insert(k, r);
    assert forall|i: int, j: int| 0 <= i <= j < t.len() implies t[i].score >= t[j].score by {
        if i < k && j > k {
            assert(s[i].score >= s[j - 1].score);
        } else if i < k && j == k {
            assert(s[i].score >= r.score);
        } else if i == k && j > k {
            assert(s[k].score >= s[j - 1].score);
        } else if i > k {
            assert(s[i - 1].score >= s[j - 1].score);
        }
    }
}

/// A ranking is in order of falling score.
pub proof fn lemma_ranked_descending(s: Seq<ResultView>)
    ensures
        is_descending(ranked(s)),
        ranked(s).len() == s.len(),
    decreases s.len(),
{
    if s.len() > 0 {
        lemma_ranked_descending(s.drop_last());
        lemma_insert_keeps_order(ranked(s.drop_last()), s.last());
        lemma_rank_position(ranked(s.drop_last()), s.last().score, 0);
    }
}

/// In a full ranking whose last result scores no less than `score`, a
/// result of that score ranks behind all.
proof fn lemma_rank_behind_all(s: Seq<ResultView>, score: u32)
    requires
        is_descending(s),
        s.len() > 0,
        s.last().score >= score,
    ensures
        rank_position(s, score, 0) == s.len(),
{
    lemma_rank_position(s, score, 0);
    let k = rank_position(s, score, 0);
    if k < s.len() {
        assert(s[k].score >= s[s.len() - 1].score);
    }
}

/// Fuzzy search over an index.
pub struct SearchEngine {
    matcher: Matcher,
}

/// Whether the matcher can score every atom of `pattern`.
fn all_scorable(pattern: &Pattern) -> (r: bool)
    ensures
        r == atoms_scorable(pattern_atoms(*pattern)),
{
    let n = atom_count(pattern);
    let mut i: usize = 0;
    while i < n
        invariant
            n == pattern_atoms(*pattern).len(),
            i <= n,
            forall|k: int|
                0 <= k < i ==> (#[trigger] pattern_atoms(*pattern)[k]).needle.len()
                    <= MAX_NEEDLE_CHARS,
        decreases n - i,
    {
        if needle_length(pattern, i) > MAX_NEEDLE_CHARS {
            return false;
        }
        i += 1;
    }
    true
}

/// Whether the matcher can score `query`.
pub fn is_scorable(query: &str) -> (r: bool)
    ensures
        r == scorable(query@),
{
    let pattern = parse_pattern(query);
    all_scorable(&pattern)
}

/// Whether a search takes `query`.
pub fn takes_query(query: &str) -> (r: bool)
    ensures
        r == is_searchable(query@),
{
    query.unicode_len() == 0 || is_scorable(query)
}

impl SearchEngine {
    pub fn new() -> Self {
        SearchEngine { matcher: new_matcher() }
    }

    fn score_of_text(&mut self, pattern: &Pattern, text: &str) -> (r: Option<u32>)
        requires
            atoms_scorable(pattern_atoms(*pattern)),
        ensures
            r == text_score(pattern_atoms(*pattern), text@),
    {
        if text.unicode_len() > MAX_TEXT_CHARS {
            return None;
        }
        let ghost atoms = pattern_atoms(*pattern);
        let n = atom_count(pattern);
        let mut sum: u32 = 0;
        let mut i: usize = 0;
        while i < n
            invariant
                atoms == pattern_atoms(*pattern),
                atoms_scorable(atoms),
                text@.len() <= MAX_TEXT_CHARS,
                n == atoms.len(),
                i <= n,
                atoms_sum(atoms, text@, i as int) is Some,
                sum == saturated32(atoms_sum(atoms, text@, i as int).unwrap()),
            decreases n - i,
        {
            match score_atom(&mut self.matcher, pattern, i, text) {
                Some(s) => {
                    let next: u64 = sum as u64 + s as u64;
                    sum = if next > u32::MAX as u64 {
                        u32::MAX
                    } else {
                        next as u32
                    };
                },
                None => {
                    proof {
                        lemma_sum_stays_none(atoms, text@, i + 1, n as int);
                    }
                    return None;
                },
            }
            i += 1;
        }
        if sum > 0 {
            Some(sum)
        } else {
            None
        }
    }

    /// The score of `entry` for the atoms of `pattern`.
    fn score_of_entry(&mut self, pattern: &Pattern, entry: &FileEntry) -> (r: Option<u32>)
        requires
            atoms_scorable(pattern_atoms(*pattern)),
        ensures
            r == entry_score(pattern_atoms(*pattern), entry@),
    {
        let name_score = self.score_of_text(pattern, entry.name.as_str());
        let path_score = self.score_of_text(pattern, entry.path.as_str());
        combine_scores(name_score, path_score)
    }

    fn search_pattern(
        &mut self,
        index: &FileIndex,
        pattern: &Pattern,
        limit: usize,
        filters: &SearchFilters,
    ) -> (r: Vec<SearchResult>)
        requires
            atoms_scorable(pattern_atoms(*pattern)),
        ensures
            result_views(r@) == best_matches(
                pattern_atoms(*pattern),
                index@,
                limit as int,
                filters@,
            ),
    {
        let mut results: Vec<SearchResult> = Vec::new();
        assert(result_views(results@) =~= Seq::<ResultView>::empty());
        let entries = index.entries();
        let ghost atoms = pattern_atoms(*pattern);
        let ghost all = index@;
        let ghost f = filters@;
        let mut i: usize = 0;
        while i < entries.len()
            invariant
                atoms == pattern_atoms(*pattern),
                atoms_scorable(atoms),
                all == entry_views(entries@),
                f == filters@,
                i <= entries@.len(),
                result_views(results@) == at_most(
                    ranked(matches_of(atoms, all, f, i as int)),
                    limit as int,
                ),
            decreases entries@.len() - i,
        {
            let entry = &entries[i];
            assert(all[i as int] == entry@);
            let ghost found = matches_of(atoms, all, f, i as int);
            if filters.matches(entry) {
                match self.score_of_entry(pattern, entry) {
                    Some(score) => {
                        proof {
                            let r = ResultView { entry: entry@, score };
                            assert(matches_of(atoms, all, f, i + 1) == found.push(r));
                            assert(found.push(r).drop_last() =~= found);
                            lemma_insert_then_cut(ranked(found), r, limit as int);
                            lemma_ranked_descending(found);
                        }
                        place(&mut results, entry, score, limit);
                    },
                    None => {},
                }
            }
            i += 1;
        }
        results
    }

    fn count_pattern(&mut self, index: &FileIndex, pattern: &Pattern, filters: &SearchFilters) -> (r:
        usize)
        requires
            atoms_scorable(pattern_atoms(*pattern)),
        ensures
            r == matches_of(pattern_atoms(*pattern), index@, filters@, index@.len() as int).len(),
    {
        let entries = index.entries();
        let ghost atoms = pattern_atoms(*pattern);
        let ghost all = index@;
        let ghost f = filters@;
        let mut count: usize = 0;
        let mut i: usize = 0;
        while i < entries.len()
            invariant
                atoms == pattern_atoms(*pattern),
                atoms_scorable(atoms),
                all == entry_views(entries@),
                f == filters@,
                i <= entries@.len(),
                count == matches_of(atoms, all, f, i as int).len(),
                count <= i,
            decreases entries@.len() - i,
        {
            let entry = &entries[i];
            assert(all[i as int] == entry@);
            if filters.matches(entry) {
                if self.score_of_entry(pattern, entry).is_some() {
                    count += 1;
                }
            }
            i += 1;
        }
        count
    }

    /// The best `limit` matches of `query` in `index`, best first. The
    /// matcher must be able to score the query.
    pub fn search(&mut self, index: &FileIndex, query: &str, limit: usize) -> (r: Vec<
        SearchResult,
    >)
        requires
            is_searchable(query@),
        ensures
            result_views(r@) == search_results(query@, index@, limit as int, no_filters()),
    {
        let filters = SearchFilters::new();
        self.search_with_filters(index, query, limit, &filters)
    }

    /// The best `limit` matches of `query` among the entries of `index`
    /// that pass `filters`: in order of falling score, entries of equal
    /// score in index order. An entry matches by its name, with twice the
    /// name's score, or else by its path; every atom of the query must
    /// match. The matcher must be able to score the query:
    /// `try_search_with_filters` tests that first.
    pub fn search_with_filters(
        &mut self,
        index: &FileIndex,
        query: &str,
        limit: usize,
        filters: &SearchFilters,
    ) -> (r: Vec<SearchResult>)
        requires
            is_searchable(query@),
        ensures
            result_views(r@) == search_results(query@, index@, limit as int, filters@),
            forall|i: int| 0 <= i < r@.len() ==> (#[trigger] r@[i]).score > 0,
    {
        if query.unicode_len() == 0 {
            let results: Vec<SearchResult> = Vec::new();
            assert(result_views(results@) =~= Seq::<ResultView>::empty());
            return results;
        }
        let pattern = parse_pattern(query);
        let r = self.search_pattern(index, &pattern, limit, filters);
        proof {
            assert forall|i: int| 0 <= i < r@.len() implies (#[trigger] r@[i]).score > 0 by {
                lemma_best_matches_positive(
                    pattern_atoms(pattern),
                    index@,
                    limit as int,
                    filters@,
                    i,
                );
                assert(result_views(r@)[i] == r@[i]@);
            }
        }
        r
    }

    /// A search that first tests whether the matcher can score the query,
    /// and returns nothing where it cannot.
    pub fn try_search_with_filters(
        &mut self,
        index: &FileIndex,
        query: &str,
        limit: usize,
        filters: &SearchFilters,
    ) -> (r: Option<Vec<SearchResult>>)
        ensures
            optional_views(r) == checked_results(query@, index@, limit as int, filters@),
    {
        if takes_query(query) {
            Some(self.search_with_filters(index, query, limit, filters))
        } else {
            None
        }
    }

    /// A search without filters that first tests whether the matcher can
    /// score the query, and returns nothing where it cannot.
    pub fn try_search(&mut self, index: &FileIndex, query: &str, limit: usize) -> (r: Option<
        Vec<SearchResult>,
    >)
        ensures
            optional_views(r) == checked_results(query@, index@, limit as int, no_filters()),
    {
        if takes_query(query) {
            Some(self.search(index, query, limit))
        } else {
            None
        }
    }

    /// How many entries of `index` match `query`. The matcher must be able
    /// to score the query.
    pub fn count_matches(&mut self, index: &FileIndex, query: &str) -> (r: usize)
        requires
            is_searchable(query@),
        ensures
            r == match_count(query@, index@, no_filters()),
    {
        let filters = SearchFilters::new();
        self.count_matches_with_filters(index, query, &filters)
    }

    /// How many entries of `index` pass `filters` and match `query`: the
    /// number of results that a search without a limit would return. The
    /// matcher must be able to score the query:
    /// `try_count_matches_with_filters` tests that first.
    pub fn count_matches_with_filters(
        &mut self,
        index: &FileIndex,
        query: &str,
        filters: &SearchFilters,
    ) -> (r: usize)
        requires
            is_searchable(query@),
        ensures
            r == match_count(query@, index@, filters@),
    {
        if query.unicode_len() == 0 {
            return 0;
        }
        let pattern = parse_pattern(query);
        self.count_pattern(index, &pattern, filters)
    }

    /// A count that first tests whether the matcher can score the query,
    /// and returns nothing where it cannot.
    pub fn try_count_matches_with_filters(
        &mut self,
        index: &FileIndex,
        query: &str,
        filters: &SearchFilters,
    ) -> (r: Option<usize>)
        ensures
            r == checked_count(query@, index@, filters@),
    {
        if takes_query(query) {
            Some(self.count_matches_with_filters(index, query, filters))
        } else {
            None
        }
    }

    /// A count without filters that first tests whether the matcher can
    /// score the query, and returns nothing where it cannot.
    pub fn try_count_matches(&mut self, index: &FileIndex, query: &str) -> (r: Option<usize>)
        ensures
            r == checked_count(query@, index@, no_filters()),
    {
        if takes_query(query) {
            Some(self.count_matches(index, query))
        } else {
            None
        }
    }
}

impl Default for SearchEngine {
    fn default() -> Self {
        SearchEngine::new()
    }
}

/// Every match has a score above 0.
pub proof fn lemma_matches_positive(
    atoms: Seq<AtomView>,
    entries: Seq<EntryView>,
    f: FiltersView,
    n: int,
    k: int,
)
    requires
        0 <= k < matches_of(atoms, entries, f, n).len(),
    ensures
        matches_of(atoms, entries, f, n)[k].score > 0,
    decreases n,
{
    let before = matches_of(atoms, entries, f, n - 1);
    if k < before.len() {
        lemma_matches_positive(atoms, entries, f, n - 1, k);
    }
}

/// A ranking of results with scores above 0 has only such results.
proof fn lemma_ranked_positive(s: Seq<ResultView>, k: int)
    requires
        forall|j: int| 0 <= j < s.len() ==> (#[trigger] s[j]).score > 0,
        0 <= k < ranked(s).len(),
    ensures
        ranked(s)[k].score > 0,
    decreases s.len(),
{
    if s.len() > 0 {
        let before = ranked(s.drop_last());
        lemma_rank_position(before, s.last().score, 0);
        let at = rank_position(before, s.last().score, 0);
        assert forall|j: int| 0 <= j < s.drop_last().len() implies (#[trigger] s.drop_last()[j]).score
            > 0 by {
            assert(s.drop_last()[j] == s[j]);
        }
        if k == at {
            assert(ranked(s)[k] == s[s.len() - 1]);
        } else if k < at {
            lemma_ranked_positive(s.drop_last(), k);
        } else {
            lemma_ranked_positive(s.drop_last(), k - 1);
        }
    }
}

/// No result has a score of 0.
pub proof fn lemma_best_matches_positive(
    atoms: Seq<AtomView>,
    entries: Seq<EntryView>,
    limit: int,
    f: FiltersView,
    k: int,
)
    requires
        0 <= k < best_matches(atoms, entries, limit, f).len(),
    ensures
        best_matches(atoms, entries, limit, f)[k].score > 0,
{
    let found = matches_of(atoms, entries, f, entries.len() as int);
    assert forall|j: int| 0 <= j < found.len() implies (#[trigger] found[j]).score > 0 by {
        lemma_matches_positive(atoms, entries, f, entries.len() as int, j);
    }
    lemma_ranked_descending(found);
    lemma_ranked_positive(found, k);
}

/// Puts a match into the best `limit` so far: behind every result that
/// scores at least as much, and the last result goes where there are more
/// than `limit`.
pub fn place(results: &mut Vec<SearchResult>, entry: &FileEntry, score: u32, limit: usize)
    requires
        is_descending(result_views(old(results)@)),
        old(results)@.len() <= limit,
    ensures
        result_views(final(results)@) == at_most(
            insert_ranked(result_views(old(results)@), ResultView { entry: entry@, score }),
            limit as int,
        ),
{
    let ghost before = result_views(results@);
    let ghost r = ResultView { entry: entry@, score };
    let len = results.len();
    if limit == 0 {
        assert(before =~= Seq::<ResultView>::empty());
        return ;
    }
    proof {
        lemma_rank_position(before, score, 0);
    }
    if len == limit && results[len - 1].score >= score {
        proof {
            assert(before.last() == results@[len - 1]@);
            lemma_rank_behind_all(before, score);
            assert(before.insert(len as int, r).take(limit as int) =~= before);
        }
        return ;
    }
    let mut k: usize = 0;
    while k < len && results[k].score >= score
        invariant
            len == results@.len(),
            before == result_views(results@),
            k <= len,
            rank_position(before, score, 0) == rank_position(before, score, k as int),
        decreases len - k,
    {
        assert(before[k as int] == results@[k as int]@);
        k += 1;
    }
    proof {
        if k < len {
            assert(before[k as int] == results@[k as int]@);
        }
    }
    let found = SearchResult { entry: entry.clone(), score };
    results.insert(k, found);
    assert(result_views(results@) =~= before.insert(k as int, r));
    if results.len() > limit {
        let ghost longer = result_views(results@);
        results.pop();
        assert(result_views(results@) =~= longer.take(limit as int));
    }
}

} // verus!
