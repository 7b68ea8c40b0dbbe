//! The order of the records does not matter: two scans of the same
//! records in different orders index the same entries.

use vstd::prelude::*;
use crate::file_entry::EntryView;
use crate::path_laws::{
    chain_path, dir_position, distinct_ids, lemma_chain_within_cap_resolves, lemma_dir_position,
    lemma_resolved_paths_are_chains, spells,
};
use crate::path_resolution::{
    directories_of, entries_of, entry_of, is_indexed, is_reserved, resolved_paths,
    scanned_entries, DirView, RecordView, ScanMode, MAX_SWEEPS, ROOT_RECORD_ID,
};

verus! {

/// The images of the elements of `s` that are kept, in order.
pub open spec fn kept_images<A, B>(
    s: Seq<A>,
    keep: spec_fn(A) -> bool,
    image: spec_fn(A) -> B,
) -> Seq<B>
    decreases s.len(),
{
    if s.len() == 0 {
        Seq::empty()
    } else {
        let before = kept_images(s.drop_last(), keep, image);
        if keep(s.last()) {
            before.push(image(s.last()))
        } else {
            before
        }
    }
}

/// An element put anywhere into `s` adds its image, if it is kept, and
/// nothing else.
proof fn lemma_kept_images_insert<A, B>(
    s: Seq<A>,
    keep: spec_fn(A) -> bool,
    image: spec_fn(A) -> B,
    j: int,
    x: A,
)
    requires
        0 <= j <= s.len(),
    ensures
        kept_images(s.insert(j, x), keep, image).to_multiset() == if keep(x) {
            kept_images(s, keep, image).to_multiset().insert(image(x))
        } else {
            kept_images(s, keep, image).to_multiset()
        },
    decreases s.len(),
{
    broadcast use vstd::multiset::group_multiset_axioms;

    let t = s.insert(j, x);
    if j == s.len() {
        assert(t.drop_last() =~= s);
        assert(t.last() == x);
        if keep(x) {
            vstd::seq_lib::to_multiset_build(kept_images(s, keep, image), image(x));
        }
    } else {
        let y = s.last();
        assert(t.drop_last() =~= s.drop_last().insert(j, x));
        assert(t.last() == y);
        lemma_kept_images_insert(s.drop_last(), keep, image, j, x);
        let inner = kept_images(s.drop_last(), keep, image);
        let grown = kept_images(s.drop_last().insert(j, x), keep, image);
        if keep(y) {
            vstd::seq_lib::to_multiset_build(inner, image(y));
            vstd::seq_lib::to_multiset_build(grown, image(y));
            if keep(x) {
                assert(inner.to_multiset().insert(image(x)).insert(image(y))
                    =~= inner.to_multiset().insert(image(y)).insert(image(x)));
            }
        }
    }
}

/// The images that are kept are the same, each as often, for two orders
/// of the same elements.
pub proof fn lemma_kept_images_any_order<A, B>(
    s1: Seq<A>,
    s2: Seq<A>,
    keep: spec_fn(A) -> bool,
    image: spec_fn(A) -> B,
)
    requires
        s1.to_multiset() == s2.to_multiset(),
    ensures
        kept_images(s1, keep, image).to_multiset() == kept_images(s2, keep, image).to_multiset(),
    decreases s1.len(),
{
    broadcast use vstd::multiset::group_multiset_axioms;

    vstd::seq_lib::to_multiset_len(s1);
    vstd::seq_lib::to_multiset_len(s2);
    if s1.len() == 0 {
        assert(s2.len() == 0);
        assert(s1 =~= s2);
    } else {
        let x = s1.last();
        let rest1 = s1.drop_last();
        assert(rest1.push(x) =~= s1);
        vstd::seq_lib::to_multiset_build(rest1, x);
        vstd::seq_lib::to_multiset_contains(s2, x);
        assert(s2.to_multiset().count(x) > 0);
        assert(s2.contains(x));
        let j = choose|j: int| 0 <= j < s2.len() && s2[j] == x;
        let rest2 = s2.remove(j);
        vstd::seq_lib::to_multiset_remove(s2, j);
        assert(rest2.to_multiset() =~= rest1.to_multiset());
        lemma_kept_images_any_order(rest1, rest2, keep, image);
        assert(rest2.insert(j, x) =~= s2);
        lemma_kept_images_insert(rest2, keep, image, j, x);
        if keep(x) {
            vstd::seq_lib::to_multiset_build(kept_images(rest1, keep, image), image(x));
        }
    }
}

proof fn lemma_entries_are_kept_images(
    drive: char,
    records: Seq<RecordView>,
    paths: Map<u64, Seq<char>>,
    mode: ScanMode,
    keep: spec_fn(RecordView) -> bool,
    image: spec_fn(RecordView) -> EntryView,
    n: int,
)
    requires
        0 <= n <= records.len(),
        forall|r: RecordView| #[trigger] keep(r) == is_indexed(r, mode),
        forall|r: RecordView| #[trigger] image(r) == entry_of(drive, r, paths, mode),
    ensures
        entries_of(drive, records, paths, mode, n) == kept_images(records.take(n), keep, image),
    decreases n,
{
    if n > 0 {
        lemma_entries_are_kept_images(drive, records, paths, mode, keep, image, n - 1);
        assert(records.take(n).drop_last() =~= records.take(n - 1));
        assert(records.take(n).last() == records[n - 1]);
    } else {
        assert(records.take(0) =~= Seq::<RecordView>::empty());
    }
}

proof fn lemma_directories_are_kept_images(
    records: Seq<RecordView>,
    keep: spec_fn(RecordView) -> bool,
    image: spec_fn(RecordView) -> DirView,
    n: int,
)
    requires
        0 <= n <= records.len(),
        forall|r: RecordView| #[trigger] keep(r) == (r.is_directory && !is_reserved(r.name)),
        forall|r: RecordView| #[trigger]
            image(r) == (DirView { id: r.record_id, name: r.name, parent_id: r.parent_id }),
    ensures
        directories_of(records, n) == kept_images(records.take(n), keep, image),
    decreases n,
{
    if n > 0 {
        lemma_directories_are_kept_images(records, keep, image, n - 1);
        assert(records.take(n).drop_last() =~= records.take(n - 1));
        assert(records.take(n).last() == records[n - 1]);
    } else {
        assert(records.take(0) =~= Seq::<RecordView>::empty());
    }
}

/// Two lists of directories with the same members, each with distinct
/// record numbers, spell the same root-to-leaf paths.
proof fn lemma_chain_any_order(
    drive: char,
    d1: Seq<DirView>,
    d2: Seq<DirView>,
    id: u64,
    depth: nat,
)
    requires
        distinct_ids(d1),
        distinct_ids(d2),
        forall|x: DirView| d1.contains(x) <==> d2.contains(x),
    ensures
        chain_path(drive, d1, id, depth) == chain_path(drive, d2, id, depth),
    decreases depth,
{
    if id != ROOT_RECORD_ID && depth > 0 {
        let k1 = dir_position(d1, id, 0);
        let k2 = dir_position(d2, id, 0);
        lemma_dir_position(d1, id, 0);
        lemma_dir_position(d2, id, 0);
        if k1 < d1.len() {
            assert(d1.contains(d1[k1]));
            assert(d2.contains(d1[k1]));
            let q = choose|q: int| 0 <= q < d2.len() && d2[q] == d1[k1];
            if k2 > q {
                assert(d2[q].id != id);
            }
            assert(k2 <= q);
            if k2 < q {
                assert(d2[k2].id != d2[q].id);
            }
            assert(d2[k2] == d1[k1]);
            lemma_chain_any_order(drive, d1, d2, d1[k1].parent_id, (depth - 1) as nat);
        } else if k2 < d2.len() {
            assert(d2.contains(d2[k2]));
            assert(d1.contains(d2[k2]));
            let q = choose|q: int| 0 <= q < d1.len() && d1[q] == d2[k2];
            assert(d1[q].id != id);
        }
    }
}

/// What is resolved is the root or a directory of the list.
proof fn lemma_resolved_is_listed(drive: char, dirs: Seq<DirView>, id: u64)
    requires
        distinct_ids(dirs),
        resolved_paths(drive, dirs).contains_key(id),
    ensures
        id == ROOT_RECORD_ID || dir_position(dirs, id, 0) < dirs.len(),
{
    lemma_resolved_paths_are_chains(drive, dirs);
    assert(spells(drive, dirs, id, resolved_paths(drive, dirs)[id]));
}

/// Two scans of the same records in different orders index the same
/// entries, each as often: where no two directories share a record number
/// and every directory's parent pointers lead to the root within
/// `MAX_SWEEPS` steps, the entries differ in their order only.
pub proof fn lemma_scan_order_independent(
    drive: char,
    records1: Seq<RecordView>,
    records2: Seq<RecordView>,
    mode: ScanMode,
)
    requires
        records1.to_multiset() == records2.to_multiset(),
        distinct_ids(directories_of(records1, records1.len() as int)),
        distinct_ids(directories_of(records2, records2.len() as int)),
        forall|k: int|
            0 <= k < directories_of(records1, records1.len() as int).len() ==> chain_path(
                drive,
                directories_of(records1, records1.len() as int),
                (#[trigger] directories_of(records1, records1.len() as int)[k]).id,
                MAX_SWEEPS as nat,
            ) is Some,
    ensures
        scanned_entries(drive, records1, mode).to_multiset() == scanned_entries(
            drive,
            records2,
            mode,
        ).to_multiset(),
{
    let d1 = directories_of(records1, records1.len() as int);
    let d2 = directories_of(records2, records2.len() as int);
    let keep_dir = |r: RecordView| r.is_directory && !is_reserved(r.name);
    let as_dir = |r: RecordView| DirView { id: r.record_id, name: r.name, parent_id: r.parent_id };
    lemma_directories_are_kept_images(records1, keep_dir, as_dir, records1.len() as int);
    lemma_directories_are_kept_images(records2, keep_dir, as_dir, records2.len() as int);
    assert(records1.take(records1.len() as int) =~= records1);
    assert(records2.take(records2.len() as int) =~= records2);
    lemma_kept_images_any_order(records1, records2, keep_dir, as_dir);
    assert(d1.to_multiset() == d2.to_multiset());
    assert forall|x: DirView| d1.contains(x) <==> d2.contains(x) by {
        vstd::seq_lib::to_multiset_contains(d1, x);
        vstd::seq_lib::to_multiset_contains(d2, x);
    }
    let first = resolved_paths(drive, d1);
    let second = resolved_paths(drive, d2);
    assert forall|id: u64| #[trigger]
        first.contains_key(id) == second.contains_key(id) && (first.contains_key(id) ==> first[id] == second[id]) by {
        if first.contains_key(id) {
            lemma_same_paths(drive, d1, d2, id);
        } else if second.contains_key(id) {
            lemma_resolved_is_listed(drive, d2, id);
            if id != ROOT_RECORD_ID {
                let k2 = dir_position(d2, id, 0);
                lemma_dir_position(d2, id, 0);
                assert(d2.contains(d2[k2]));
                assert(d1.contains(d2[k2]));
                let q = choose|q: int| 0 <= q < d1.len() && d1[q] == d2[k2];
                assert(chain_path(drive, d1, d1[q].id, MAX_SWEEPS as nat) is Some);
            }
            lemma_chain_within_cap_resolves(
                drive,
                d1,
                id,
                chain_path(drive, d1, id, MAX_SWEEPS as nat).unwrap(),
            );
        }
    }
    assert(first.dom() =~= second.dom());
    assert(first =~= second);
    let keep = |r: RecordView| is_indexed(r, mode);
    let image = |r: RecordView| entry_of(drive, r, first, mode);
    lemma_entries_are_kept_images(drive, records1, first, mode, keep, image, records1.len() as int);
    lemma_entries_are_kept_images(drive, records2, first, mode, keep, image, records2.len() as int);
    lemma_kept_images_any_order(records1, records2, keep, image);
}

/// A path that one order resolves, the other order resolves too, to the
/// same text.
proof fn lemma_same_paths(drive: char, d1: Seq<DirView>, d2: Seq<DirView>, id: u64)
    requires
        distinct_ids(d1),
        distinct_ids(d2),
        forall|x: DirView| d1.contains(x) <==> d2.contains(x),
        forall|k: int|
            0 <= k < d1.len() ==> chain_path(drive, d1, (#[trigger] d1[k]).id, MAX_SWEEPS as nat)
                is Some,
        resolved_paths(drive, d1).contains_key(id),
    ensures
        resolved_paths(drive, d2).contains_key(id),
        resolved_paths(drive, d2)[id] == resolved_paths(drive, d1)[id],
{
    lemma_resolved_is_listed(drive, d1, id);
    if id != ROOT_RECORD_ID {
        let k = dir_position(d1, id, 0);
        lemma_dir_position(d1, id, 0);
        assert(chain_path(drive, d1, d1[k].id, MAX_SWEEPS as nat) is Some);
    }
    let path = chain_path(drive, d1, id, MAX_SWEEPS as nat).unwrap();
    lemma_chain_within_cap_resolves(drive, d1, id, path);
    lemma_chain_any_order(drive, d1, d2, id, MAX_SWEEPS as nat);
    lemma_chain_within_cap_resolves(drive, d2, id, path);
}

/// The fast scan leaves sizes at 0 and times absent.
pub proof fn lemma_fast_entries_are_bare(
    drive: char,
    records: Seq<RecordView>,
    paths: Map<u64, Seq<char>>,
    n: int,
    k: int,
)
    requires
        0 <= k < entries_of(drive, records, paths, ScanMode::Fast, n).len(),
    ensures
        entries_of(drive, records, paths, ScanMode::Fast, n)[k].size == 0,
        entries_of(drive, records, paths, ScanMode::Fast, n)[k].modified is None,
        entries_of(drive, records, paths, ScanMode::Fast, n)[k].created is None,
        entries_of(drive, records, paths, ScanMode::Fast, n)[k].accessed is None,
    decreases n,
{
    let before = entries_of(drive, records, paths, ScanMode::Fast, n - 1);
    if k < before.len() {
        lemma_fast_entries_are_bare(drive, records, paths, n - 1, k);
    }
}

} // verus!
