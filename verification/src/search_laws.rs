//! What a search guarantees of its results. The laws are stated of
//! `best_matches`, which is what a search returns for the atoms of its
//! query.

use vstd::prelude::*;
use crate::file_entry::EntryView;
use crate::filters::{accepts, FiltersView};
use crate::search::{
    best_matches, checked_results, parsed_atoms, search_results, doubled, entry_score, is_descending, lemma_rank_position,
    lemma_ranked_descending, matches_of, rank_position, ranked, text_score, AtomView, ResultView,
};

verus! {

/// `r` stands for an entry of the index that passes the filters and has
/// the score `r.score` for the atoms.
pub open spec fn is_match(
    atoms: Seq<AtomView>,
    entries: Seq<EntryView>,
    f: FiltersView,
    r: ResultView,
) -> bool {
    exists|i: int|
        0 <= i < entries.len() && #[trigger] entries[i] == r.entry && accepts(f, entries[i])
            && entry_score(atoms, entries[i]) == Some(r.score)
}

proof fn lemma_matches_are_matches(
    atoms: Seq<AtomView>,
    entries: Seq<EntryView>,
    f: FiltersView,
    n: int,
    k: int,
)
    requires
        0 <= n <= entries.len(),
        0 <= k < matches_of(atoms, entries, f, n).len(),
    ensures
        is_match(atoms, entries, f, matches_of(atoms, entries, f, n)[k]),
    decreases n,
{
    let before = matches_of(atoms, entries, f, n - 1);
    if k < before.len() {
        lemma_matches_are_matches(atoms, entries, f, n - 1, k);
    } else {
        assert(entries[n - 1] == matches_of(atoms, entries, f, n)[k].entry);
    }
}

/// Every result of a ranking is one of the results that were ranked.
proof fn lemma_ranked_from_input(s: Seq<ResultView>, k: int)
    requires
        0 <= k < ranked(s).len(),
    ensures
        exists|j: int| 0 <= j < s.len() && #[trigger] s[j] == ranked(s)[k],
    decreases s.len(),
{
    if s.len() > 0 {
        let before = ranked(s.drop_last());
        lemma_rank_position(before, s.last().score, 0);
        let at = rank_position(before, s.last().score, 0);
        if k == at {
            assert(s[s.len() - 1] == ranked(s)[k]);
        } else {
            let from = if k < at {
                k
            } else {
                k - 1
            };
            assert(before[from] == ranked(s)[k]);
            lemma_ranked_from_input(s.drop_last(), from);
            let j = choose|j: int| 0 <= j < s.drop_last().len() && #[trigger] s.drop_last()[j] == before[from];
            assert(s[j] == ranked(s)[k]);
        }
    }
}

/// Nothing appears in the results that does not match: each result is an
/// entry of the index that passes the filters and whose name or path the
/// query matches, with the score of that match. An entry that matches by
/// neither is in no result.
pub proof fn lemma_results_are_matches(
    atoms: Seq<AtomView>,
    entries: Seq<EntryView>,
    limit: int,
    f: FiltersView,
    k: int,
)
    requires
        0 <= k < best_matches(atoms, entries, limit, f).len(),
    ensures
        is_match(atoms, entries, f, best_matches(atoms, entries, limit, f)[k]),
{
    let found = matches_of(atoms, entries, f, entries.len() as int);
    let order = ranked(found);
    assert(best_matches(atoms, entries, limit, f)[k] == order[k]);
    lemma_ranked_from_input(found, k);
    let j = choose|j: int| 0 <= j < found.len() && #[trigger] found[j] == order[k];
    lemma_matches_are_matches(atoms, entries, f, entries.len() as int, j);
}

/// For every query, also one that no search takes: an entry that the
/// query matches neither by name nor by path stands in no result. A
/// search that declines a query returns no results at all.
pub proof fn lemma_unmatched_entry_never_found(
    query: Seq<char>,
    entries: Seq<EntryView>,
    limit: int,
    f: FiltersView,
    e: EntryView,
    k: int,
)
    requires
        entry_score(parsed_atoms(query), e) is None,
        0 <= k < search_results(query, entries, limit, f).len(),
    ensures
        search_results(query, entries, limit, f)[k].entry != e,
        checked_results(query, entries, limit, f) matches Some(found) ==> found[k].entry != e,
{
    lemma_results_are_matches(parsed_atoms(query), entries, limit, f, k);
}

/// The name counts double: a result whose name the query matches with
/// the score `s` has twice that score, whatever its path scores. A score
/// is a `u32`, so the double of a score above `i32::MAX` is held at
/// `u32::MAX`.
pub proof fn lemma_name_match_scores_double(
    atoms: Seq<AtomView>,
    entries: Seq<EntryView>,
    limit: int,
    f: FiltersView,
    k: int,
    s: u32,
)
    requires
        0 <= k < best_matches(atoms, entries, limit, f).len(),
        text_score(atoms, best_matches(atoms, entries, limit, f)[k].entry.name) == Some(s),
    ensures
        best_matches(atoms, entries, limit, f)[k].score == doubled(s),
        s <= 0x7fff_ffff ==> best_matches(atoms, entries, limit, f)[k].score == 2 * s,
{
    lemma_results_are_matches(atoms, entries, limit, f, k);
}

/// A result whose name the query does not match has the score of its
/// path.
pub proof fn lemma_path_match_scores_once(
    atoms: Seq<AtomView>,
    entries: Seq<EntryView>,
    limit: int,
    f: FiltersView,
    k: int,
)
    requires
        0 <= k < best_matches(atoms, entries, limit, f).len(),
        text_score(atoms, best_matches(atoms, entries, limit, f)[k].entry.name) is None,
    ensures
        text_score(atoms, best_matches(atoms, entries, limit, f)[k].entry.path) == Some(
            best_matches(atoms, entries, limit, f)[k].score,
        ),
{
    lemma_results_are_matches(atoms, entries, limit, f, k);
}

/// The results come best first, and there are as many as match, up to
/// the limit.
pub proof fn lemma_results_ordered(
    atoms: Seq<AtomView>,
    entries: Seq<EntryView>,
    limit: int,
    f: FiltersView,
)
    requires
        limit >= 0,
    ensures
        is_descending(best_matches(atoms, entries, limit, f)),
        best_matches(atoms, entries, limit, f).len() == if matches_of(
            atoms,
            entries,
            f,
            entries.len() as int,
        ).len() < limit {
            matches_of(atoms, entries, f, entries.len() as int).len() as int
        } else {
            limit
        },
{
    lemma_ranked_descending(matches_of(atoms, entries, f, entries.len() as int));
}

/// No better match is dropped: the results are the leading part of the
/// ranking of all matches, so a match that the limit leaves out scores no
/// more than any result.
pub proof fn lemma_no_better_match_dropped(
    atoms: Seq<AtomView>,
    entries: Seq<EntryView>,
    limit: int,
    f: FiltersView,
    kept: int,
    dropped: int,
)
    requires
        0 <= kept < best_matches(atoms, entries, limit, f).len(),
        best_matches(atoms, entries, limit, f).len() <= dropped < ranked(
            matches_of(atoms, entries, f, entries.len() as int),
        ).len(),
    ensures
        best_matches(atoms, entries, limit, f)[kept] == ranked(
            matches_of(atoms, entries, f, entries.len() as int),
        )[kept],
        ranked(matches_of(atoms, entries, f, entries.len() as int))[dropped].score
            <= best_matches(atoms, entries, limit, f)[kept].score,
{
    lemma_ranked_descending(matches_of(atoms, entries, f, entries.len() as int));
}

/// A ranking holds the results that were ranked, each as often as it
/// came: ranking loses nothing and adds nothing.
pub proof fn lemma_ranking_keeps_all(s: Seq<ResultView>)
    ensures
        ranked(s).to_multiset() == s.to_multiset(),
    decreases s.len(),
{
    if s.len() > 0 {
        let before = ranked(s.drop_last());
        lemma_ranking_keeps_all(s.drop_last());
        lemma_rank_position(before, s.last().score, 0);
        let at = rank_position(before, s.last().score, 0);
        vstd::seq_lib::to_multiset_insert(before, at, s.last());
        assert(s.drop_last().push(s.last()) =~= s);
        vstd::seq_lib::to_multiset_build(s.drop_last(), s.last());
        assert(ranked(s) == before.insert(at, s.last()));
        assert(ranked(s).to_multiset() == before.to_multiset().insert(s.last()));
        assert(s.to_multiset() =~= s.drop_last().to_multiset().insert(s.last()));
    } else {
        assert(s =~= Seq::<ResultView>::empty());
    }
}

/// Where the limit is no less than the number of matches, the results
/// are all the matches, each once for each entry of the index that
/// matches.
pub proof fn lemma_wide_limit_returns_all(
    atoms: Seq<AtomView>,
    entries: Seq<EntryView>,
    limit: int,
    f: FiltersView,
)
    requires
        limit >= matches_of(atoms, entries, f, entries.len() as int).len(),
    ensures
        best_matches(atoms, entries, limit, f).to_multiset() == matches_of(
            atoms,
            entries,
            f,
            entries.len() as int,
        ).to_multiset(),
{
    let found = matches_of(atoms, entries, f, entries.len() as int);
    lemma_ranking_keeps_all(found);
    lemma_ranked_descending(found);
    if limit <= 0 {
        assert(found.len() == 0);
        assert(ranked(found) =~= Seq::<ResultView>::empty());
    }
}

} // verus!
