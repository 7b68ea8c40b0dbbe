//! Absolute paths from parent pointers. A record of the volume's table
//! names its parent by record number only, and a child may be seen before
//! its parent. Directories are resolved first, by sweeping over them until
//! nothing new resolves or a fixed number of sweeps is done; every record
//! then takes its path from its parent's.

use vstd::prelude::*;
use vstd::string::StringExecFns;
use std::collections::HashMap;
use crate::file_entry::{EntryView, FileEntry};
use crate::index::FileIndex;
use crate::text::to_chars;
use crate::timestamp::{filetime_value, Timestamp};

verus! {

broadcast use vstd::std_specs::hash::group_hash_axioms;

/// Record number of the volume's root directory.
pub const ROOT_RECORD_ID: u64 = 5;

/// The number of sweeps after which resolution stops.
pub const MAX_SWEEPS: usize = 10;

/// What a directory record contributes to resolution.
#[derive(Debug)]
pub struct DirRecord {
    pub id: u64,
    pub name: String,
    pub parent_id: u64,
}

pub struct DirView {
    pub id: u64,
    pub name: Seq<char>,
    pub parent_id: u64,
}

impl View for DirRecord {
    type V = DirView;

    open spec fn view(&self) -> DirView {
        DirView { id: self.id, name: self.name@, parent_id: self.parent_id }
    }
}

/// The three times of a record, as tick counts of the volume's clock.
#[derive(Clone, Copy, Debug)]
pub struct RecordTimes {
    pub created: u64,
    pub modified: u64,
    pub accessed: u64,
}

/// What was read of the times of a record.
#[derive(Clone, Copy, Debug)]
pub enum TimesRead {
    Known(RecordTimes),
    /// The record carries no standard information.
    Absent,
    /// The record's attributes could not be read as far as its times.
    Unreadable,
}

/// One record of the volume's table, decoded to plain values.
#[derive(Debug)]
pub struct VolumeRecord {
    pub record_id: u64,
    pub name: String,
    pub parent_id: u64,
    pub is_directory: bool,
    /// Length of the primary data stream; read in full-metadata mode only.
    pub size: u64,
    pub times: TimesRead,
}

pub struct RecordView {
    pub record_id: u64,
    pub name: Seq<char>,
    pub parent_id: u64,
    pub is_directory: bool,
    pub size: u64,
    pub times: TimesRead,
}

impl View for VolumeRecord {
    type V = RecordView;

    open spec fn view(&self) -> RecordView {
        RecordView {
            record_id: self.record_id,
            name: self.name@,
            parent_id: self.parent_id,
            is_directory: self.is_directory,
            size: self.size,
            times: self.times,
        }
    }
}

/// How much of a record goes into its entry.
#[derive(Clone, Copy, Debug, PartialEq, Eq, Structural)]
pub enum ScanMode {
    /// Names and paths only: sizes are 0 and times absent.
    Fast,
    /// Sizes and times as the records carry them.
    FullMetadata,
}

pub open spec fn dir_views(dirs: Seq<DirRecord>) -> Seq<DirView> {
    dirs.map_values(|d: DirRecord| d@)
}

pub open spec fn record_views(records: Seq<VolumeRecord>) -> Seq<RecordView> {
    records.map_values(|r: VolumeRecord| r@)
}

/// Names that never reach the index: the volume's own metadata files,
/// which begin with `$`, and the two directory self-references.
pub open spec fn is_reserved(name: Seq<char>) -> bool {
    (name.len() > 0 && name[0] == '$') || name == seq!['.'] || name == seq!['.', '.']
}

/// The path of a drive's root: the letter, a colon, a backslash.
pub open spec fn drive_root(drive: char) -> Seq<char> {
    seq![drive, ':', '\\']
}

/// The path of `name` inside the directory at `parent`: one backslash
/// separates them, which a parent that ends in one already brings.
pub open spec fn child_path(parent: Seq<char>, name: Seq<char>) -> Seq<char> {
    if parent.len() > 0 && parent.last() == '\\' {
        parent + name
    } else {
        parent + seq!['\\'] + name
    }
}

/// One step of a sweep: `d` resolves if it is unresolved and its parent
/// is resolved.
pub open spec fn settle(m: Map<u64, Seq<char>>, d: DirView) -> Map<u64, Seq<char>> {
    if m.contains_key(d.id) || !m.contains_key(d.parent_id) {
        m
    } else {
        m.insert(d.id, child_path(m[d.parent_id], d.name))
    }
}

/// The map after the first `n` directories of a sweep.
pub open spec fn sweep(m: Map<u64, Seq<char>>, dirs: Seq<DirView>, n: int) -> Map<u64, Seq<char>>
    decreases n,
{
    if n <= 0 {
        m
    } else {
        settle(sweep(m, dirs, n - 1), dirs[n - 1])
    }
}

/// The map after `rounds` whole sweeps.
pub open spec fn sweeps(m: Map<u64, Seq<char>>, dirs: Seq<DirView>, rounds: nat) -> Map<
    u64,
    Seq<char>,
>
    decreases rounds,
{
    if rounds == 0 {
        m
    } else {
        sweeps(sweep(m, dirs, dirs.len() as int), dirs, (rounds - 1) as nat)
    }
}

/// The resolved directory paths of a volume: the root, and what
/// `MAX_SWEEPS` sweeps add to it.
pub open spec fn resolved_paths(drive: char, dirs: Seq<DirView>) -> Map<u64, Seq<char>> {
    sweeps(Map::<u64, Seq<char>>::empty().insert(ROOT_RECORD_ID, drive_root(drive)), dirs, MAX_SWEEPS as nat)
}

/// The directories among the first `n` records that take part in
/// resolution, in record order.
pub open spec fn directories_of(records: Seq<RecordView>, n: int) -> Seq<DirView>
    decreases n,
{
    if n <= 0 {
        Seq::empty()
    } else {
        let r = records[n - 1];
        let before = directories_of(records, n - 1);
        if r.is_directory && !is_reserved(r.name) {
            before.push(DirView { id: r.record_id, name: r.name, parent_id: r.parent_id })
        } else {
            before
        }
    }
}

/// The path of a record: under the drive root if its parent is the root,
/// the zero sentinel or unresolved, else under its parent's path.
pub open spec fn entry_path(
    drive: char,
    name: Seq<char>,
    parent_id: u64,
    paths: Map<u64, Seq<char>>,
) -> Seq<char> {
    if parent_id == ROOT_RECORD_ID || parent_id == 0 || !paths.contains_key(parent_id) {
        drive_root(drive) + name
    } else {
        paths[parent_id] + seq!['\\'] + name
    }
}

/// Whether a record becomes an entry: not under a reserved name, and in
/// full-metadata mode not where its times could not be read. Such a
/// record still takes part in resolution if it is a directory.
pub open spec fn is_indexed(r: RecordView, mode: ScanMode) -> bool {
    !is_reserved(r.name) && !(mode == ScanMode::FullMetadata && r.times is Unreadable)
}

pub open spec fn time_of(times: TimesRead, mode: ScanMode, which: int) -> Option<Timestamp> {
    match (mode, times) {
        (ScanMode::FullMetadata, TimesRead::Known(t)) => filetime_value(
            if which == 0 {
                t.modified
            } else if which == 1 {
                t.created
            } else {
                t.accessed
            },
        ),
        _ => None,
    }
}

/// The entry that a record becomes.
pub open spec fn entry_of(
    drive: char,
    r: RecordView,
    paths: Map<u64, Seq<char>>,
    mode: ScanMode,
) -> EntryView {
    EntryView {
        name: r.name,
        path: entry_path(drive, r.name, r.parent_id, paths),
        is_directory: r.is_directory,
        file_id: r.record_id,
        parent_id: r.parent_id,
        size: if mode == ScanMode::FullMetadata && !r.is_directory {
            r.size
        } else {
            0
        },
        modified: time_of(r.times, mode, 0),
        created: time_of(r.times, mode, 1),
        accessed: time_of(r.times, mode, 2),
    }
}

/// The entries of the first `n` records, given the resolved paths:
/// the records that are indexed, in record order.
pub open spec fn entries_of(
    drive: char,
    records: Seq<RecordView>,
    paths: Map<u64, Seq<char>>,
    mode: ScanMode,
    n: int,
) -> Seq<EntryView>
    decreases n,
{
    if n <= 0 {
        Seq::empty()
    } else {
        let before = entries_of(drive, records, paths, mode, n - 1);
        if is_indexed(records[n - 1], mode) {
            before.push(entry_of(drive, records[n - 1], paths, mode))
        } else {
            before
        }
    }
}

/// What a scan of `records` adds to an index.
pub open spec fn scanned_entries(drive: char, records: Seq<RecordView>, mode: ScanMode) -> Seq<
    EntryView,
> {
    entries_of(
        drive,
        records,
        resolved_paths(drive, directories_of(records, records.len() as int)),
        mode,
        records.len() as int,
    )
}

/// Resolved directory paths by record number. It lives for one scan.
pub struct ParentPathMap {
    paths: HashMap<u64, String>,
}

impl View for ParentPathMap {
    type V = Map<u64, Seq<char>>;

    closed spec fn view(&self) -> Map<u64, Seq<char>> {
        self.paths@.map_values(|s: String| s@)
    }
}

impl ParentPathMap {
    pub fn new() -> (r: Self)
        ensures
            r@ == Map::<u64, Seq<char>>::empty(),
    {
        let r = ParentPathMap { paths: HashMap::new() };
        assert(r@ =~= Map::<u64, Seq<char>>::empty());
        r
    }

    pub fn insert(&mut self, id: u64, path: String)
        ensures
            final(self)@ == old(self)@.insert(id, path@),
    {
        self.paths.insert(id, path);
        assert(final(self)@ =~= old(self)@.insert(id, path@));
    }

    pub fn contains(&self, id: u64) -> (r: bool)
        ensures
            r == self@.contains_key(id),
    {
        self.paths.contains_key(&id)
    }

    pub fn get(&self, id: u64) -> (r: Option<&String>)
        ensures
            match r {
                Some(path) => self@.contains_key(id) && self@[id] == path@,
                None => !self@.contains_key(id),
            },
    {
        self.paths.get(&id)
    }

    /// The number of resolved directories, the root included.
    pub fn len(&self) -> (r: usize)
        ensures
            r == self@.len(),
            self@.dom().finite(),
    {
        proof {
            let f = |s: String| s@;
            assert(self@.dom() =~= self.paths@.dom());
        }
        self.paths.len()
    }
}

/// Whether a record of this name is left out of the index.
pub fn is_reserved_name(name: &str) -> (r: bool)
    ensures
        r == is_reserved(name@),
{
    let chars = to_chars(name);
    let n = chars.len();
    if n > 0 && chars[0] == '$' {
        return true;
    }
    if n == 1 && chars[0] == '.' {
        assert(chars@ =~= seq!['.']);
        return true;
    }
    if n == 2 && chars[0] == '.' && chars[1] == '.' {
        assert(chars@ =~= seq!['.', '.']);
        return true;
    }
    proof {
        if chars@ == seq!['.'] {
            assert(chars@.len() == 1 && chars@[0] == '.');
        }
        if chars@ == seq!['.', '.'] {
            assert(chars@.len() == 2 && chars@[0] == '.' && chars@[1] == '.');
        }
    }
    false
}

/// The root path of `drive`.
pub fn root_path(drive: char) -> (r: String)
    ensures
        r@ == drive_root(drive),
{
    let mut s = String::new();
    s.push(drive);
    s.push(':');
    s.push('\\');
    assert(s@ =~= drive_root(drive));
    s
}

/// Whether `s` ends in a backslash.
fn ends_in_separator(s: &str) -> (r: bool)
    ensures
        r == (s@.len() > 0 && s@.last() == '\\'),
{
    let mut last: Option<char> = None;
    for c in it: s.chars()
        invariant
            it.seq() == s@,
            last == if it.index() > 0 {
                Some(s@[it.index() - 1])
            } else {
                None::<char>
            },
    {
        last = Some(c);
    }
    match last {
        Some(c) => c == '\\',
        None => false,
    }
}

/// The path of `name` inside the directory at `parent`.
pub fn join_child(parent: &str, name: &str) -> (r: String)
    ensures
        r@ == child_path(parent@, name@),
{
    let mut s: String = parent.to_owned();
    if !ends_in_separator(parent) {
        s.push('\\');
    }
    s.append(name);
    s
}

/// The directories among `records` that take part in resolution.
pub fn collect_directories(records: &Vec<VolumeRecord>) -> (dirs: Vec<DirRecord>)
    ensures
        dir_views(dirs@) == directories_of(record_views(records@), records@.len() as int),
{
    let mut dirs: Vec<DirRecord> = Vec::new();
    let mut i: usize = 0;
    assert(dir_views(dirs@) =~= Seq::<DirView>::empty());
    while i < records.len()
        invariant
            i <= records@.len(),
            dir_views(dirs@) == directories_of(record_views(records@), i as int),
        decreases records@.len() - i,
    {
        let r = &records[i];
        assert(record_views(records@)[i as int] == r@);
        if r.is_directory && !is_reserved_name(r.name.as_str()) {
            let ghost before = dir_views(dirs@);
            let d = DirRecord { id: r.record_id, name: r.name.clone(), parent_id: r.parent_id };
            dirs.push(d);
            assert(dir_views(dirs@) =~= before.push(d@));
        }
        i += 1;
    }
    dirs
}

/// A map that a whole sweep leaves as it is stays as it is ever after.
pub proof fn lemma_settled_stays(m: Map<u64, Seq<char>>, dirs: Seq<DirView>, rounds: nat)
    requires
        sweep(m, dirs, dirs.len() as int) == m,
    ensures
        sweeps(m, dirs, rounds) == m,
    decreases rounds,
{
    if rounds > 0 {
        lemma_settled_stays(m, dirs, (rounds - 1) as nat);
    }
}

/// Resolves the paths of `dirs` on `drive`: the root is known from the
/// start; each sweep resolves every directory whose parent is resolved by
/// the time its turn comes. Sweeping stops when a sweep resolves nothing,
/// and after `MAX_SWEEPS` sweeps at the latest.
pub fn resolve_directories(drive: char, dirs: &Vec<DirRecord>) -> (map: ParentPathMap)
    ensures
        map@ == resolved_paths(drive, dir_views(dirs@)),
{
    let ghost dv = dir_views(dirs@);
    let mut map = ParentPathMap::new();
    map.insert(ROOT_RECORD_ID, root_path(drive));
    let ghost start = map@;
    let mut round: usize = 0;
    let mut settled: bool = false;
    while round < MAX_SWEEPS && !settled
        invariant
            dv == dir_views(dirs@),
            round <= MAX_SWEEPS,
            settled ==> sweep(map@, dv, dv.len() as int) == map@,
            sweeps(map@, dv, (MAX_SWEEPS - round) as nat) == sweeps(start, dv, MAX_SWEEPS as nat),
        decreases MAX_SWEEPS - round, if settled { 0int } else { 1int },
    {
        let ghost before = map@;
        let mut added: usize = 0;
        let mut i: usize = 0;
        while i < dirs.len()
            invariant
                dv == dir_views(dirs@),
                i <= dirs@.len(),
                map@ == sweep(before, dv, i as int),
                added <= i,
                added == 0 ==> map@ == before,
            decreases dirs@.len() - i,
        {
            let d = &dirs[i];
            assert(dv[i as int] == d@);
            if !map.contains(d.id) {
                let path = match map.get(d.parent_id) {
                    Some(parent) => Some(join_child(parent.as_str(), d.name.as_str())),
                    None => None,
                };
                match path {
                    Some(p) => {
                        map.insert(d.id, p);
                        added += 1;
                    },
                    None => {},
                }
            }
            i += 1;
        }
        if added == 0 {
            settled = true;
            proof {
                lemma_settled_stays(map@, dv, (MAX_SWEEPS - round) as nat);
            }
        } else {
            round += 1;
        }
    }
    proof {
        if settled {
            lemma_settled_stays(map@, dv, (MAX_SWEEPS - round) as nat);
        }
    }
    map
}

/// The path of the record `name` whose parent is `parent_id`.
pub fn build_path(drive: char, name: &str, parent_id: u64, paths: &ParentPathMap) -> (r: String)
    ensures
        r@ == entry_path(drive, name@, parent_id, paths@),
{
    if parent_id == ROOT_RECORD_ID || parent_id == 0 {
        let mut s = root_path(drive);
        s.append(name);
        return s;
    }
    match paths.get(parent_id) {
        Some(parent) => {
            let mut s: String = parent.clone();
            s.push('\\');
            s.append(name);
            s
        },
        None => {
            let mut s = root_path(drive);
            s.append(name);
            s
        },
    }
}

fn time_from(times: &TimesRead, mode: ScanMode, which: u8) -> (r: Option<Timestamp>)
    ensures
        r == time_of(*times, mode, which as int),
{
    match (mode, times) {
        (ScanMode::FullMetadata, TimesRead::Known(t)) => Timestamp::from_filetime(
            if which == 0 {
                t.modified
            } else if which == 1 {
                t.created
            } else {
                t.accessed
            },
        ),
        _ => None,
    }
}

/// The entry that `record` becomes, given the resolved directory paths.
pub fn make_entry(drive: char, record: &VolumeRecord, paths: &ParentPathMap, mode: ScanMode) -> (e:
    FileEntry)
    ensures
        e@ == entry_of(drive, record@, paths@, mode),
{
    let path = build_path(drive, record.name.as_str(), record.parent_id, paths);
    let size: u64 = match mode {
        ScanMode::FullMetadata => if record.is_directory {
            0
        } else {
            record.size
        },
        ScanMode::Fast => 0,
    };
    FileEntry::new(
        record.name.clone(),
        path,
        record.is_directory,
        record.record_id,
        record.parent_id,
        size,
        time_from(&record.times, mode, 0),
        time_from(&record.times, mode, 1),
        time_from(&record.times, mode, 2),
    )
}

/// Whether `record` becomes an entry.
pub fn is_indexed_record(record: &VolumeRecord, mode: ScanMode) -> (r: bool)
    ensures
        r == is_indexed(record@, mode),
{
    if is_reserved_name(record.name.as_str()) {
        return false;
    }
    match (mode, &record.times) {
        (ScanMode::FullMetadata, TimesRead::Unreadable) => false,
        _ => true,
    }
}

/// Adds the records of one volume to `index`: directories are resolved
/// first, then every record that is indexed becomes an entry, in record
/// order.
pub fn index_records(
    drive: char,
    records: &Vec<VolumeRecord>,
    mode: ScanMode,
    index: &mut FileIndex,
)
    ensures
        final(index)@ == old(index)@ + scanned_entries(drive, record_views(records@), mode),
{
    let dirs = collect_directories(records);
    let paths = resolve_directories(drive, &dirs);
    index.reserve(records.len());
    let ghost rv = record_views(records@);
    let mut i: usize = 0;
    assert(index@ =~= old(index)@ + entries_of(drive, rv, paths@, mode, 0));
    while i < records.len()
        invariant
            rv == record_views(records@),
            i <= records@.len(),
            index@ == old(index)@ + entries_of(drive, rv, paths@, mode, i as int),
        decreases records@.len() - i,
    {
        let r = &records[i];
        assert(rv[i as int] == r@);
        if is_indexed_record(r, mode) {
            let entry = make_entry(drive, r, &paths, mode);
            index.add_entry(entry);
            assert(index@ =~= old(index)@ + entries_of(drive, rv, paths@, mode, i + 1));
        }
        i += 1;
    }
}

} // verus!
