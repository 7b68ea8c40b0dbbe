//! What path resolution guarantees, whatever the order of the records.

use vstd::prelude::*;
use crate::path_resolution::{
    child_path, drive_root, entry_path, resolved_paths, settle, sweep, sweeps, DirView, MAX_SWEEPS,
    ROOT_RECORD_ID,
};

verus! {

/// The first index at or after `from` of a directory with the record
/// number `id`, or `dirs.len()`.
pub open spec fn dir_position(dirs: Seq<DirView>, id: u64, from: int) -> int
    decreases dirs.len() - from,
{
    if 0 <= from < dirs.len() && dirs[from].id != id {
        dir_position(dirs, id, from + 1)
    } else {
        from
    }
}

/// No two directories share a record number.
pub open spec fn distinct_ids(dirs: Seq<DirView>) -> bool {
    forall|i: int, j: int| 0 <= i < j < dirs.len() ==> dirs[i].id != dirs[j].id
}

/// The root-to-leaf path of the directory `id`: the names along its
/// parent pointers, from the drive root down. It is known only if the
/// chain reaches the root within `depth` steps; a cycle never does.
pub open spec fn chain_path(drive: char, dirs: Seq<DirView>, id: u64, depth: nat) -> Option<
    Seq<char>,
>
    decreases depth,
{
    if id == ROOT_RECORD_ID {
        Some(drive_root(drive))
    } else if depth == 0 {
        None
    } else {
        let k = dir_position(dirs, id, 0);
        if k >= dirs.len() {
            None
        } else {
            match chain_path(drive, dirs, dirs[k].parent_id, (depth - 1) as nat) {
                Some(parent) => Some(child_path(parent, dirs[k].name)),
                None => None,
            }
        }
    }
}

/// `path` is the root-to-leaf path of `id`.
pub open spec fn spells(drive: char, dirs: Seq<DirView>, id: u64, path: Seq<char>) -> bool {
    exists|depth: nat| chain_path(drive, dirs, id, depth) == Some(path)
}

/// Every path in `m` is the root-to-leaf path of its directory.
pub open spec fn all_spelled(drive: char, dirs: Seq<DirView>, m: Map<u64, Seq<char>>) -> bool {
    &&& m.contains_key(ROOT_RECORD_ID)
    &&& forall|id: u64| #[trigger] m.contains_key(id) ==> spells(drive, dirs, id, m[id])
}

pub proof fn lemma_dir_position(dirs: Seq<DirView>, id: u64, from: int)
    requires
        0 <= from <= dirs.len(),
    ensures
        from <= dir_position(dirs, id, from) <= dirs.len(),
        forall|j: int| from <= j < dir_position(dirs, id, from) ==> (#[trigger] dirs[j]).id != id,
        dir_position(dirs, id, from) < dirs.len() ==> dirs[dir_position(dirs, id, from)].id == id,
    decreases dirs.len() - from,
{
    if from < dirs.len() && dirs[from].id != id {
        lemma_dir_position(dirs, id, from + 1);
    }
}

proof fn lemma_position_of_member(dirs: Seq<DirView>, i: int)
    requires
        distinct_ids(dirs),
        0 <= i < dirs.len(),
    ensures
        dir_position(dirs, dirs[i].id, 0) == i,
{
    lemma_dir_position(dirs, dirs[i].id, 0);
    let k = dir_position(dirs, dirs[i].id, 0);
    if k < i {
        assert(dirs[k].id != dirs[i].id);
    }
}

/// A chain that reaches the root within `a` steps spells the same path
/// within any number of steps that reaches it.
proof fn lemma_chain_unique(drive: char, dirs: Seq<DirView>, id: u64, a: nat, b: nat)
    requires
        chain_path(drive, dirs, id, a) is Some,
        chain_path(drive, dirs, id, b) is Some,
    ensures
        chain_path(drive, dirs, id, a) == chain_path(drive, dirs, id, b),
    decreases a,
{
    if id != ROOT_RECORD_ID {
        let k = dir_position(dirs, id, 0);
        lemma_chain_unique(drive, dirs, dirs[k].parent_id, (a - 1) as nat, (b - 1) as nat);
    }
}

proof fn lemma_settle_spelled(drive: char, dirs: Seq<DirView>, m: Map<u64, Seq<char>>, i: int)
    requires
        distinct_ids(dirs),
        0 <= i < dirs.len(),
        all_spelled(drive, dirs, m),
    ensures
        all_spelled(drive, dirs, settle(m, dirs[i])),
{
    let d = dirs[i];
    let next = settle(m, d);
    if !m.contains_key(d.id) && m.contains_key(d.parent_id) {
        let path = child_path(m[d.parent_id], d.name);
        assert(spells(drive, dirs, d.parent_id, m[d.parent_id]));
        let depth = choose|depth: nat| chain_path(drive, dirs, d.parent_id, depth) == Some(m[d.parent_id]);
        lemma_position_of_member(dirs, i);
        assert(chain_path(drive, dirs, d.id, depth + 1) == Some(path));
        assert(spells(drive, dirs, d.id, path));
        assert forall|id: u64| #[trigger] next.contains_key(id) implies spells(
            drive,
            dirs,
            id,
            next[id],
        ) by {
            if id != d.id {
                assert(m.contains_key(id));
            }
        }
    }
}

proof fn lemma_sweep_spelled(drive: char, dirs: Seq<DirView>, m: Map<u64, Seq<char>>, n: int)
    requires
        distinct_ids(dirs),
        0 <= n <= dirs.len(),
        all_spelled(drive, dirs, m),
    ensures
        all_spelled(drive, dirs, sweep(m, dirs, n)),
    decreases n,
{
    if n > 0 {
        lemma_sweep_spelled(drive, dirs, m, n - 1);
        lemma_settle_spelled(drive, dirs, sweep(m, dirs, n - 1), n - 1);
    }
}

proof fn lemma_sweeps_spelled(drive: char, dirs: Seq<DirView>, m: Map<u64, Seq<char>>, rounds: nat)
    requires
        distinct_ids(dirs),
        all_spelled(drive, dirs, m),
    ensures
        all_spelled(drive, dirs, sweeps(m, dirs, rounds)),
    decreases rounds,
{
    if rounds > 0 {
        lemma_sweep_spelled(drive, dirs, m, dirs.len() as int);
        lemma_sweeps_spelled(drive, dirs, sweep(m, dirs, dirs.len() as int), (rounds - 1) as nat);
    }
}

/// Every resolved path is right: where no two directories share a
/// record number, the path that resolution gives a directory is its
/// root-to-leaf path, the names along its parent pointers from the drive
/// root down. This holds for any order of the directories, and a
/// directory on a parent cycle is never resolved.
pub proof fn lemma_resolved_paths_are_chains(drive: char, dirs: Seq<DirView>)
    requires
        distinct_ids(dirs),
    ensures
        forall|id: u64| #[trigger]
            resolved_paths(drive, dirs).contains_key(id) ==> spells(
                drive,
                dirs,
                id,
                resolved_paths(drive, dirs)[id],
            ),
{
    let start = Map::<u64, Seq<char>>::empty().insert(ROOT_RECORD_ID, drive_root(drive));
    assert(chain_path(drive, dirs, ROOT_RECORD_ID, 0) == Some(drive_root(drive)));
    assert(spells(drive, dirs, ROOT_RECORD_ID, drive_root(drive)));
    assert(all_spelled(drive, dirs, start));
    lemma_sweeps_spelled(drive, dirs, start, MAX_SWEEPS as nat);
}

/// The sweep in which the directory `id` resolves, if its parent
/// pointers lead to the root within `fuel` steps: a directory under the
/// root resolves in the first sweep; another resolves in the sweep of its
/// parent if the parent stands earlier in the list, and in the next sweep
/// otherwise.
pub open spec fn sweep_rank(dirs: Seq<DirView>, id: u64, fuel: nat) -> Option<nat>
    decreases fuel,
{
    if id == ROOT_RECORD_ID {
        Some(0)
    } else if fuel == 0 {
        None
    } else {
        let k = dir_position(dirs, id, 0);
        if k >= dirs.len() {
            None
        } else {
            let parent = dirs[k].parent_id;
            match sweep_rank(dirs, parent, (fuel - 1) as nat) {
                None => None,
                Some(r) => if parent == ROOT_RECORD_ID {
                    Some(1)
                } else if dir_position(dirs, parent, 0) < k {
                    Some(r)
                } else {
                    Some(r + 1)
                },
            }
        }
    }
}

/// The map at the start of resolution: the root alone.
pub open spec fn root_only(drive: char) -> Map<u64, Seq<char>> {
    Map::<u64, Seq<char>>::empty().insert(ROOT_RECORD_ID, drive_root(drive))
}

proof fn lemma_rank_positive(dirs: Seq<DirView>, id: u64, fuel: nat)
    requires
        id != ROOT_RECORD_ID,
        sweep_rank(dirs, id, fuel) is Some,
    ensures
        sweep_rank(dirs, id, fuel).unwrap() >= 1,
    decreases fuel,
{
    let k = dir_position(dirs, id, 0);
    let parent = dirs[k].parent_id;
    if parent != ROOT_RECORD_ID {
        lemma_rank_positive(dirs, parent, (fuel - 1) as nat);
    }
}

/// A directory that has a sweep rank has a root-to-leaf path.
proof fn lemma_rank_has_chain(drive: char, dirs: Seq<DirView>, id: u64, fuel: nat)
    requires
        sweep_rank(dirs, id, fuel) is Some,
    ensures
        chain_path(drive, dirs, id, fuel) is Some,
    decreases fuel,
{
    if id != ROOT_RECORD_ID {
        let k = dir_position(dirs, id, 0);
        lemma_rank_has_chain(drive, dirs, dirs[k].parent_id, (fuel - 1) as nat);
    }
}

/// What a part of a sweep holds, a longer part of it holds too.
proof fn lemma_sweep_holds(m: Map<u64, Seq<char>>, dirs: Seq<DirView>, a: int, b: int, id: u64)
    requires
        0 <= a <= b <= dirs.len(),
        sweep(m, dirs, a).contains_key(id),
    ensures
        sweep(m, dirs, b).contains_key(id),
        sweep(m, dirs, b)[id] == sweep(m, dirs, a)[id],
    decreases b - a,
{
    if a < b {
        lemma_sweep_holds(m, dirs, a, b - 1, id);
    }
}

/// One more round is one more sweep over the result so far.
proof fn lemma_sweeps_unroll(m: Map<u64, Seq<char>>, dirs: Seq<DirView>, rounds: nat)
    ensures
        sweeps(m, dirs, rounds + 1) == sweep(sweeps(m, dirs, rounds), dirs, dirs.len() as int),
    decreases rounds,
{
    if rounds > 0 {
        lemma_sweeps_unroll(sweep(m, dirs, dirs.len() as int), dirs, (rounds - 1) as nat);
    } else {
        assert(sweeps(m, dirs, 1) == sweeps(sweep(m, dirs, dirs.len() as int), dirs, 0));
    }
}

/// What is resolved after some rounds stays resolved after more.
proof fn lemma_rounds_hold(m: Map<u64, Seq<char>>, dirs: Seq<DirView>, a: nat, b: nat, id: u64)
    requires
        a <= b,
        sweeps(m, dirs, a).contains_key(id),
    ensures
        sweeps(m, dirs, b).contains_key(id),
        sweeps(m, dirs, b)[id] == sweeps(m, dirs, a)[id],
    decreases b - a,
{
    if a < b {
        lemma_rounds_hold(m, dirs, a, (b - 1) as nat, id);
        lemma_sweeps_unroll(m, dirs, (b - 1) as nat);
        let before = sweeps(m, dirs, (b - 1) as nat);
        assert(sweep(before, dirs, 0) == before);
        lemma_sweep_holds(before, dirs, 0, dirs.len() as int, id);
    }
}

/// A directory of sweep rank `r` is resolved by its turn in sweep `r`.
proof fn lemma_rank_resolves_in_turn(drive: char, dirs: Seq<DirView>, id: u64, fuel: nat)
    requires
        id != ROOT_RECORD_ID,
        sweep_rank(dirs, id, fuel) is Some,
    ensures
        sweep_rank(dirs, id, fuel).unwrap() >= 1,
        dir_position(dirs, id, 0) < dirs.len(),
        sweep(
            sweeps(root_only(drive), dirs, (sweep_rank(dirs, id, fuel).unwrap() - 1) as nat),
            dirs,
            dir_position(dirs, id, 0) + 1,
        ).contains_key(id),
    decreases fuel,
{
    lemma_rank_positive(dirs, id, fuel);
    let start = root_only(drive);
    let k = dir_position(dirs, id, 0);
    lemma_dir_position(dirs, id, 0);
    let parent = dirs[k].parent_id;
    let rp = sweep_rank(dirs, parent, (fuel - 1) as nat).unwrap();
    if parent == ROOT_RECORD_ID {
        assert(sweeps(start, dirs, 0) == start);
        assert(sweep(start, dirs, 0) == start);
        lemma_sweep_holds(start, dirs, 0, k, parent);
        assert(sweep(start, dirs, k + 1) == settle(sweep(start, dirs, k), dirs[k]));
    } else {
        lemma_rank_resolves_in_turn(drive, dirs, parent, (fuel - 1) as nat);
        lemma_dir_position(dirs, parent, 0);
        let j = dir_position(dirs, parent, 0);
        let base = sweeps(start, dirs, (rp - 1) as nat);
        if j < k {
            lemma_sweep_holds(base, dirs, j + 1, k, parent);
            assert(sweep(base, dirs, k + 1) == settle(sweep(base, dirs, k), dirs[k]));
        } else {
            lemma_sweep_holds(base, dirs, j + 1, dirs.len() as int, parent);
            lemma_sweeps_unroll(start, dirs, (rp - 1) as nat);
            let next = sweeps(start, dirs, rp);
            assert(next.contains_key(parent));
            assert(sweep(next, dirs, 0) == next);
            lemma_sweep_holds(next, dirs, 0, k, parent);
            assert(sweep(next, dirs, k + 1) == settle(sweep(next, dirs, k), dirs[k]));
        }
    }
}

/// Every directory whose sweep comes within the cap is resolved, with its
/// root-to-leaf path: where no two directories share a record number, a
/// directory of sweep rank up to `MAX_SWEEPS` is in the result. A chain of
/// any depth resolves in one sweep if each parent stands before its
/// children, and each parent that stands after a child costs one more.
pub proof fn lemma_rank_within_cap_resolves(drive: char, dirs: Seq<DirView>, id: u64, fuel: nat)
    requires
        distinct_ids(dirs),
        sweep_rank(dirs, id, fuel) is Some,
        sweep_rank(dirs, id, fuel).unwrap() <= MAX_SWEEPS,
    ensures
        resolved_paths(drive, dirs).contains_key(id),
        chain_path(drive, dirs, id, fuel) == Some(resolved_paths(drive, dirs)[id]),
{
    let start = root_only(drive);
    let result = resolved_paths(drive, dirs);
    if id == ROOT_RECORD_ID {
        assert(sweeps(start, dirs, 0) == start);
        lemma_rounds_hold(start, dirs, 0, MAX_SWEEPS as nat, id);
    } else {
        lemma_rank_resolves_in_turn(drive, dirs, id, fuel);
        lemma_dir_position(dirs, id, 0);
        let r = sweep_rank(dirs, id, fuel).unwrap();
        let k = dir_position(dirs, id, 0);
        let base = sweeps(start, dirs, (r - 1) as nat);
        lemma_sweep_holds(base, dirs, k + 1, dirs.len() as int, id);
        lemma_sweeps_unroll(start, dirs, (r - 1) as nat);
        lemma_rounds_hold(start, dirs, r, MAX_SWEEPS as nat, id);
    }
    assert(result.contains_key(id));
    lemma_rank_has_chain(drive, dirs, id, fuel);
    lemma_resolved_paths_are_chains(drive, dirs);
    assert(spells(drive, dirs, id, result[id]));
    let depth = choose|depth: nat| chain_path(drive, dirs, id, depth) == Some(result[id]);
    lemma_chain_unique(drive, dirs, id, depth, fuel);
}

/// A chain of `depth` steps has a sweep rank of at most `depth`.
proof fn lemma_rank_within_depth(drive: char, dirs: Seq<DirView>, id: u64, depth: nat)
    requires
        chain_path(drive, dirs, id, depth) is Some,
    ensures
        sweep_rank(dirs, id, depth) is Some,
        sweep_rank(dirs, id, depth).unwrap() <= depth,
    decreases depth,
{
    if id != ROOT_RECORD_ID {
        let k = dir_position(dirs, id, 0);
        lemma_rank_within_depth(drive, dirs, dirs[k].parent_id, (depth - 1) as nat);
    }
}

/// Every directory within reach is resolved: where no two directories
/// share a record number, a directory whose parent pointers lead to the
/// root within `MAX_SWEEPS` steps has its root-to-leaf path in the result,
/// in whatever order the directories come, children before parents
/// included.
pub proof fn lemma_chain_within_cap_resolves(
    drive: char,
    dirs: Seq<DirView>,
    id: u64,
    path: Seq<char>,
)
    requires
        distinct_ids(dirs),
        chain_path(drive, dirs, id, MAX_SWEEPS as nat) == Some(path),
    ensures
        resolved_paths(drive, dirs).contains_key(id),
        resolved_paths(drive, dirs)[id] == path,
{
    lemma_rank_within_depth(drive, dirs, id, MAX_SWEEPS as nat);
    lemma_rank_within_cap_resolves(drive, dirs, id, MAX_SWEEPS as nat);
}

/// Parents listed first resolve in one sweep, at any depth: where each
/// directory's parent is the root or stands earlier in the list, every
/// directory is resolved.
pub proof fn lemma_parents_first_resolves_all(drive: char, dirs: Seq<DirView>, i: int)
    requires
        0 <= i < dirs.len(),
        forall|k: int|
            0 <= k < dirs.len() ==> (#[trigger] dirs[k]).parent_id == ROOT_RECORD_ID || exists|j: int|
                0 <= j < k && dirs[j].id == dirs[k].parent_id,
    ensures
        resolved_paths(drive, dirs).contains_key(dirs[i].id),
{
    let start = root_only(drive);
    lemma_prefix_resolved(start, dirs, dirs.len() as int);
    assert(sweeps(start, dirs, 1) == sweeps(sweep(start, dirs, dirs.len() as int), dirs, 0));
    lemma_rounds_hold(start, dirs, 1, MAX_SWEEPS as nat, dirs[i].id);
}

proof fn lemma_prefix_resolved(m: Map<u64, Seq<char>>, dirs: Seq<DirView>, n: int)
    requires
        0 <= n <= dirs.len(),
        m.contains_key(ROOT_RECORD_ID),
        forall|k: int|
            0 <= k < dirs.len() ==> (#[trigger] dirs[k]).parent_id == ROOT_RECORD_ID || exists|j: int|
                0 <= j < k && dirs[j].id == dirs[k].parent_id,
    ensures
        sweep(m, dirs, n).contains_key(ROOT_RECORD_ID),
        forall|k: int| 0 <= k < n ==> sweep(m, dirs, n).contains_key((#[trigger] dirs[k]).id),
    decreases n,
{
    if n > 0 {
        lemma_prefix_resolved(m, dirs, n - 1);
        let before = sweep(m, dirs, n - 1);
        let d = dirs[n - 1];
        assert(d.parent_id == ROOT_RECORD_ID || exists|j: int|
            0 <= j < n - 1 && dirs[j].id == d.parent_id);
        assert(before.contains_key(d.parent_id));
        assert(settle(before, d).contains_key(d.id));
        assert forall|k: int| 0 <= k < n implies sweep(m, dirs, n).contains_key(
            (#[trigger] dirs[k]).id,
        ) by {
            if k < n - 1 {
                assert(before.contains_key(dirs[k].id));
            }
        }
    }
}


/// `id` has a sweep rank of at most `k`, and if it is `k`, its turn comes
/// among the first `n` of the list.
pub open spec fn rank_reached(dirs: Seq<DirView>, id: u64, fuel: nat, k: nat, n: int) -> bool {
    &&& sweep_rank(dirs, id, fuel) is Some
    &&& sweep_rank(dirs, id, fuel).unwrap() <= k
    &&& sweep_rank(dirs, id, fuel).unwrap() == k ==> dir_position(dirs, id, 0) < n
}

/// Everything in `m` has been reached by turn `n` of sweep `k`.
pub open spec fn all_reached(dirs: Seq<DirView>, m: Map<u64, Seq<char>>, k: nat, n: int) -> bool {
    &&& m.contains_key(ROOT_RECORD_ID)
    &&& forall|id: u64| #[trigger]
        m.contains_key(id) ==> exists|fuel: nat| #[trigger] rank_reached(dirs, id, fuel, k, n)
}

proof fn lemma_settle_reached(dirs: Seq<DirView>, m: Map<u64, Seq<char>>, k: nat, n: int)
    requires
        distinct_ids(dirs),
        k >= 1,
        0 <= n < dirs.len(),
        all_reached(dirs, m, k, n),
    ensures
        all_reached(dirs, settle(m, dirs[n]), k, n + 1),
{
    let d = dirs[n];
    let next = settle(m, d);
    let turn = n + 1;
    assert forall|id: u64| #[trigger] next.contains_key(id) implies exists|fuel: nat| #[trigger]
        rank_reached(dirs, id, fuel, k, turn) by {
        if m.contains_key(id) {
            let fuel = choose|fuel: nat| rank_reached(dirs, id, fuel, k, n);
            assert(rank_reached(dirs, id, fuel, k, turn));
        } else {
            assert(id == d.id);
            assert(m.contains_key(d.parent_id));
            let parent_fuel = choose|fuel: nat| rank_reached(dirs, d.parent_id, fuel, k, n);
            lemma_position_of_member(dirs, n);
            let fuel = parent_fuel + 1;
            assert(rank_reached(dirs, id, fuel, k, turn));
        }
    }
}

proof fn lemma_sweep_reached(dirs: Seq<DirView>, m: Map<u64, Seq<char>>, k: nat, n: int)
    requires
        distinct_ids(dirs),
        k >= 1,
        0 <= n <= dirs.len(),
        all_reached(dirs, m, k, 0),
    ensures
        all_reached(dirs, sweep(m, dirs, n), k, n),
    decreases n,
{
    if n > 0 {
        lemma_sweep_reached(dirs, m, k, n - 1);
        lemma_settle_reached(dirs, sweep(m, dirs, n - 1), k, n - 1);
    }
}

proof fn lemma_rounds_reached(dirs: Seq<DirView>, m: Map<u64, Seq<char>>, k: nat, rounds: nat)
    requires
        distinct_ids(dirs),
        k >= 1,
        all_reached(dirs, m, k, 0),
    ensures
        all_reached(dirs, sweeps(m, dirs, rounds), k + rounds, 0),
    decreases rounds,
{
    if rounds > 0 {
        let next = sweep(m, dirs, dirs.len() as int);
        lemma_sweep_reached(dirs, m, k, dirs.len() as int);
        let round = k + 1;
        assert forall|id: u64| #[trigger] next.contains_key(id) implies exists|fuel: nat| #[trigger]
            rank_reached(dirs, id, fuel, round, 0) by {
            let fuel = choose|fuel: nat| rank_reached(dirs, id, fuel, k, dirs.len() as int);
            assert(rank_reached(dirs, id, fuel, round, 0));
        }
        lemma_rounds_reached(dirs, next, k + 1, (rounds - 1) as nat);
    }
}

/// Nothing else is resolved: where no two directories share a record
/// number, every directory in the result has a sweep rank of at most
/// `MAX_SWEEPS`. With `lemma_rank_within_cap_resolves` this tells exactly
/// which directories resolve.
pub proof fn lemma_resolved_has_rank_within_cap(drive: char, dirs: Seq<DirView>, id: u64)
    requires
        distinct_ids(dirs),
        resolved_paths(drive, dirs).contains_key(id),
    ensures
        exists|fuel: nat|
            sweep_rank(dirs, id, fuel) is Some && sweep_rank(dirs, id, fuel).unwrap()
                <= MAX_SWEEPS,
{
    let start = root_only(drive);
    assert forall|other: u64| #[trigger] start.contains_key(other) implies exists|fuel: nat| #[trigger]
        rank_reached(dirs, other, fuel, 1, 0) by {
        assert(rank_reached(dirs, other, 0, 1, 0));
    }
    lemma_rounds_reached(dirs, start, 1, MAX_SWEEPS as nat);
    let result = resolved_paths(drive, dirs);
    assert(result.contains_key(id));
    let bound = (MAX_SWEEPS + 1) as nat;
    assert(all_reached(dirs, result, bound, 0));
    let fuel = choose|fuel: nat| #[trigger] rank_reached(dirs, id, fuel, bound, 0);
    lemma_dir_position(dirs, id, 0);
    assert(sweep_rank(dirs, id, fuel) is Some && sweep_rank(dirs, id, fuel).unwrap()
        <= MAX_SWEEPS);
}

/// Every directory with a record number in `ids` has its parent in `ids`:
/// following parent pointers from `ids` never leaves it. A parent cycle
/// is such a set, and so is a directory whose parent is nowhere.
pub open spec fn closed_under_parents(dirs: Seq<DirView>, ids: Set<u64>) -> bool {
    &&& !ids.contains(ROOT_RECORD_ID)
    &&& forall|i: int|
        0 <= i < dirs.len() && ids.contains((#[trigger] dirs[i]).id) ==> ids.contains(
            dirs[i].parent_id,
        )
}

/// `m` resolves nothing of `ids`.
pub open spec fn avoids(m: Map<u64, Seq<char>>, ids: Set<u64>) -> bool {
    forall|id: u64| ids.contains(id) ==> !(#[trigger] m.contains_key(id))
}

proof fn lemma_sweep_avoids(m: Map<u64, Seq<char>>, dirs: Seq<DirView>, ids: Set<u64>, n: int)
    requires
        0 <= n <= dirs.len(),
        closed_under_parents(dirs, ids),
        avoids(m, ids),
    ensures
        avoids(sweep(m, dirs, n), ids),
    decreases n,
{
    if n > 0 {
        lemma_sweep_avoids(m, dirs, ids, n - 1);
        let before = sweep(m, dirs, n - 1);
        let d = dirs[n - 1];
        assert forall|id: u64| ids.contains(id) implies !(#[trigger] settle(before, d).contains_key(
            id,
        )) by {
            assert(!before.contains_key(id));
            if id == d.id && before.contains_key(d.parent_id) {
                assert(ids.contains(d.parent_id));
            }
        }
    }
}

proof fn lemma_sweeps_avoid(m: Map<u64, Seq<char>>, dirs: Seq<DirView>, ids: Set<u64>, rounds: nat)
    requires
        closed_under_parents(dirs, ids),
        avoids(m, ids),
    ensures
        avoids(sweeps(m, dirs, rounds), ids),
    decreases rounds,
{
    if rounds > 0 {
        lemma_sweep_avoids(m, dirs, ids, dirs.len() as int);
        lemma_sweeps_avoid(sweep(m, dirs, dirs.len() as int), dirs, ids, (rounds - 1) as nat);
    }
}

/// Directories on a parent cycle are never resolved, and what lies in
/// them is indexed under the drive root: for any directories at all, in
/// any order and with record numbers that may repeat, no record number of
/// a set that is closed under parents is resolved, and a record whose
/// parent is in the set has the path of the drive root and its name.
pub proof fn lemma_closed_set_falls_back(
    drive: char,
    dirs: Seq<DirView>,
    ids: Set<u64>,
    name: Seq<char>,
    parent_id: u64,
)
    requires
        closed_under_parents(dirs, ids),
        ids.contains(parent_id),
    ensures
        !resolved_paths(drive, dirs).contains_key(parent_id),
        entry_path(drive, name, parent_id, resolved_paths(drive, dirs)) == drive_root(drive) + name,
{
    let start = root_only(drive);
    assert forall|id: u64| ids.contains(id) implies !(#[trigger] start.contains_key(id)) by {}
    lemma_sweeps_avoid(start, dirs, ids, MAX_SWEEPS as nat);
}

} // verus!
