//! The in-memory index: the entries in insertion order, and the number of
//! directories among them.

use vstd::prelude::*;
use crate::file_entry::{EntryView, FileEntry};
use crate::text::{tail_after, to_chars, from_chars};
use crate::timestamp::Timestamp;

verus! {

/// The values of a sequence of entries.
pub open spec fn entry_views(entries: Seq<FileEntry>) -> Seq<EntryView> {
    entries.map_values(|e: FileEntry| e@)
}

/// The number of directories in `s`.
pub open spec fn count_directories(s: Seq<EntryView>) -> nat
    decreases s.len(),
{
    if s.len() == 0 {
        0
    } else {
        count_directories(s.drop_last()) + if s.last().is_directory {
            1nat
        } else {
            0nat
        }
    }
}

/// The first index at or after `from` whose entry has the record number
/// `id`, or `s.len()`.
pub open spec fn position_by_id(s: Seq<EntryView>, id: u64, from: int) -> int
    decreases s.len() - from,
{
    if 0 <= from < s.len() && s[from].file_id != id {
        position_by_id(s, id, from + 1)
    } else {
        from
    }
}

/// The first index at or after `from` whose entry has the path `path`,
/// or `s.len()`.
pub open spec fn position_by_path(s: Seq<EntryView>, path: Seq<char>, from: int) -> int
    decreases s.len() - from,
{
    if 0 <= from < s.len() && s[from].path != path {
        position_by_path(s, path, from + 1)
    } else {
        from
    }
}

/// `s` without its first entry with the record number `id`.
pub open spec fn without_id(s: Seq<EntryView>, id: u64) -> Seq<EntryView> {
    let k = position_by_id(s, id, 0);
    if k < s.len() {
        s.remove(k)
    } else {
        s
    }
}

/// `s` without its first entry with the path `path`.
pub open spec fn without_path(s: Seq<EntryView>, path: Seq<char>) -> Seq<EntryView> {
    let k = position_by_path(s, path, 0);
    if k < s.len() {
        s.remove(k)
    } else {
        s
    }
}

/// `s` with the first entry of record number `id` moved to `path`; its
/// name becomes the last segment of the path.
pub open spec fn with_path(s: Seq<EntryView>, id: u64, path: Seq<char>) -> Seq<EntryView> {
    let k = position_by_id(s, id, 0);
    if k < s.len() {
        s.update(k, EntryView { path: path, name: tail_after(path, '\\'), ..s[k] })
    } else {
        s
    }
}

/// `s` with the size of the first entry of record number `id` replaced.
pub open spec fn with_size(s: Seq<EntryView>, id: u64, size: u64) -> Seq<EntryView> {
    let k = position_by_id(s, id, 0);
    if k < s.len() {
        s.update(k, EntryView { size: size, ..s[k] })
    } else {
        s
    }
}

/// `s` with the modification time of the first entry of record number
/// `id` replaced.
pub open spec fn with_modified(s: Seq<EntryView>, id: u64, time: Timestamp) -> Seq<EntryView> {
    let k = position_by_id(s, id, 0);
    if k < s.len() {
        s.update(k, EntryView { modified: Some(time), ..s[k] })
    } else {
        s
    }
}

/// The modification time after a change report: a report without a time
/// keeps the old one; a time that the calendar cannot name clears it.
pub open spec fn reported_time(old: Option<Timestamp>, unix_secs: Option<i64>) -> Option<
    Timestamp,
> {
    match unix_secs {
        None => old,
        Some(secs) => if crate::timestamp::representable(secs as int, 0) {
            Some(Timestamp { secs, nanos: 0 })
        } else {
            None
        },
    }
}

/// `s` with size and modification time of the first entry at `path`
/// replaced by what a change report carries.
pub open spec fn with_metadata(
    s: Seq<EntryView>,
    path: Seq<char>,
    size: u64,
    unix_secs: Option<i64>,
) -> Seq<EntryView> {
    let k = position_by_path(s, path, 0);
    if k < s.len() {
        s.update(
            k,
            EntryView { size: size, modified: reported_time(s[k].modified, unix_secs), ..s[k] },
        )
    } else {
        s
    }
}

/// The characters of all names and paths in `s`.
pub open spec fn text_total(s: Seq<EntryView>) -> nat
    decreases s.len(),
{
    if s.len() == 0 {
        0
    } else {
        text_total(s.drop_last()) + s.last().name.len() + s.last().path.len()
    }
}

pub proof fn lemma_count_directories_bound(s: Seq<EntryView>)
    ensures
        count_directories(s) <= s.len(),
    decreases s.len(),
{
    if s.len() > 0 {
        lemma_count_directories_bound(s.drop_last());
    }
}

pub proof fn lemma_count_directories_push(s: Seq<EntryView>, e: EntryView)
    ensures
        count_directories(s.push(e)) == count_directories(s) + if e.is_directory {
            1nat
        } else {
            0nat
        },
{
    assert(s.push(e).drop_last() == s);
}

pub proof fn lemma_count_directories_remove(s: Seq<EntryView>, k: int)
    requires
        0 <= k < s.len(),
    ensures
        count_directories(s.remove(k)) + (if s[k].is_directory {
            1nat
        } else {
            0nat
        }) == count_directories(s),
    decreases s.len(),
{
    if k == s.len() - 1 {
        assert(s.remove(k) == s.drop_last());
    } else {
        lemma_count_directories_remove(s.drop_last(), k);
        assert(s.remove(k).drop_last() == s.drop_last().remove(k));
        assert(s.remove(k).last() == s.last());
    }
}

pub proof fn lemma_count_directories_update(s: Seq<EntryView>, k: int, e: EntryView)
    requires
        0 <= k < s.len(),
        e.is_directory == s[k].is_directory,
    ensures
        count_directories(s.update(k, e)) == count_directories(s),
    decreases s.len(),
{
    if k == s.len() - 1 {
        assert(s.update(k, e).drop_last() == s.drop_last());
    } else {
        lemma_count_directories_update(s.drop_last(), k, e);
        assert(s.update(k, e).drop_last() == s.drop_last().update(k, e));
    }
}

pub proof fn lemma_position_by_path(s: Seq<EntryView>, path: Seq<char>, from: int)
    requires
        0 <= from <= s.len(),
    ensures
        from <= position_by_path(s, path, from) <= s.len(),
        forall|j: int|
            from <= j < position_by_path(s, path, from) ==> (#[trigger] s[j]).path != path,
        position_by_path(s, path, from) < s.len() ==> s[position_by_path(s, path, from)].path
            == path,
    decreases s.len() - from,
{
    if from < s.len() && s[from].path != path {
        lemma_position_by_path(s, path, from + 1);
    }
}

/// `Vec::capacity` of the standard library: the number of entries the
/// vector has room for. It is never below the vector's length, and a
/// vector never allocates more than `isize::MAX` bytes. How much room
/// there is between the two is up to the allocator.
#[verifier::external_body]
fn entry_slots(entries: &Vec<FileEntry>) -> (r: usize)
    ensures
        r >= entries@.len(),
        r * vstd::layout::size_of::<FileEntry>() <= isize::MAX,
{
    entries.capacity()
}

/// `String::capacity` of the standard library, in bytes. It is never
/// below the number of characters held, and a string never allocates more
/// than `isize::MAX` bytes. How much room there is between the two is up
/// to the allocator.
#[verifier::external_body]
fn text_slots(s: &String) -> (r: usize)
    ensures
        r >= s@.len(),
        r <= isize::MAX,
{
    s.capacity()
}

/// The estimate for `slots` entry slots of `slot_size` bytes each beside
/// `text_bytes` bytes of text and a header of `header` bytes, held at
/// `usize::MAX` where it would pass it.
pub open spec fn footprint(header: nat, slots: nat, slot_size: nat, text_bytes: nat) -> nat {
    let sum = header + slots * slot_size + text_bytes;
    if sum > usize::MAX {
        usize::MAX as nat
    } else {
        sum
    }
}

/// `r` is the footprint of `slots` entry slots and `text` bytes of text.
/// They are enough for the entries `s` and no more than allocations can
/// hold: the slots take at most `isize::MAX` bytes together, and so does
/// the text of each name and of each path.
pub open spec fn estimates(r: usize, s: Seq<EntryView>, slots: nat, text: nat) -> bool {
    &&& slots >= s.len()
    &&& slots * vstd::layout::size_of::<FileEntry>() <= isize::MAX
    &&& text >= text_total(s)
    &&& text <= 2 * s.len() * isize::MAX
    &&& r == footprint(
        vstd::layout::size_of::<Vec<FileEntry>>(),
        slots,
        vstd::layout::size_of::<FileEntry>(),
        text,
    )
}

/// Computes `footprint`.
pub fn estimate_footprint(header: usize, slots: usize, slot_size: usize, text_bytes: usize) -> (r:
    usize)
    ensures
        r == footprint(header as nat, slots as nat, slot_size as nat, text_bytes as nat),
{
    assert(slots * slot_size <= 0xffff_ffff_ffff_ffff * 0xffff_ffff_ffff_ffff) by (nonlinear_arith)
        requires
            0 <= slots <= 0xffff_ffff_ffff_ffff,
            0 <= slot_size <= 0xffff_ffff_ffff_ffff,
    ;
    let table: u128 = slots as u128 * slot_size as u128;
    let sum: u128 = header as u128 + table + text_bytes as u128;
    if sum > usize::MAX as u128 {
        usize::MAX
    } else {
        sum as usize
    }
}

/// All entries of a volume, in insertion order.
pub struct FileIndex {
    entries: Vec<FileEntry>,
    directory_count: usize,
}

impl View for FileIndex {
    type V = Seq<EntryView>;

    closed spec fn view(&self) -> Seq<EntryView> {
        entry_views(self.entries@)
    }
}

impl FileIndex {
    #[verifier::type_invariant]
    spec fn counted(self) -> bool {
        self.directory_count == count_directories(entry_views(self.entries@))
    }

    /// An empty index.
    pub fn new() -> (r: Self)
        ensures
            r@ == Seq::<EntryView>::empty(),
    {
        let r = FileIndex { entries: Vec::new(), directory_count: 0 };
        assert(entry_views(r.entries@) =~= Seq::<EntryView>::empty());
        r
    }

    /// An empty index with room for `capacity` entries.
    pub fn with_capacity(capacity: usize) -> (r: Self)
        ensures
            r@ == Seq::<EntryView>::empty(),
    {
        let r = FileIndex { entries: Vec::with_capacity(capacity), directory_count: 0 };
        assert(entry_views(r.entries@) =~= Seq::<EntryView>::empty());
        r
    }

    /// An index that holds `entries` in their order.
    pub fn from_entries(entries: Vec<FileEntry>) -> (r: Self)
        ensures
            r@ == entry_views(entries@),
    {
        let mut count: usize = 0;
        let mut i: usize = 0;
        while i < entries.len()
            invariant
                i <= entries@.len(),
                count == count_directories(entry_views(entries@).take(i as int)),
                count <= i,
            decreases entries@.len() - i,
        {
            assert(entry_views(entries@).take(i + 1).drop_last() == entry_views(entries@).take(
                i as int,
            ));
            if entries[i].is_directory {
                count += 1;
            }
            i += 1;
        }
        assert(entry_views(entries@).take(entries@.len() as int) == entry_views(entries@));
        FileIndex { entries, directory_count: count }
    }

    /// Makes room for `additional` more entries. The contents stay.
    pub fn reserve(&mut self, additional: usize)
        ensures
            final(self)@ == old(self)@,
    {
        proof {
            use_type_invariant(&*self);
        }
        let mut taken = FileIndex::new();
        std::mem::swap(self, &mut taken);
        let FileIndex { entries, directory_count } = taken;
        let mut entries = entries;
        entries.reserve(additional);
        *self = FileIndex { entries, directory_count };
    }

    /// Appends `entry`.
    pub fn add_entry(&mut self, entry: FileEntry)
        ensures
            final(self)@ == old(self)@.push(entry@),
    {
        proof {
            use_type_invariant(&*self);
            lemma_count_directories_bound(self@);
            lemma_count_directories_push(self@, entry@);
        }
        let mut taken = FileIndex::new();
        std::mem::swap(self, &mut taken);
        let FileIndex { entries, directory_count } = taken;
        let mut entries = entries;
        let is_directory = entry.is_directory;
        entries.push(entry);
        let held: usize = entries.len();
        assert(entry_views(entries@) =~= old(self)@.push(entry@));
        let directory_count = if is_directory {
            directory_count + 1
        } else {
            directory_count
        };
        *self = FileIndex { entries, directory_count };
    }

    /// The number of entries.
    pub fn len(&self) -> (r: usize)
        ensures
            r == self@.len(),
    {
        self.entries.len()
    }

    pub fn is_empty(&self) -> (r: bool)
        ensures
            r == (self@.len() == 0),
    {
        self.entries.len() == 0
    }

    /// The number of entries that are no directories.
    pub fn file_count(&self) -> (r: usize)
        ensures
            r == self@.len() - count_directories(self@),
            r + count_directories(self@) == self@.len(),
    {
        proof {
            use_type_invariant(self);
            lemma_count_directories_bound(self@);
        }
        self.entries.len() - self.directory_count
    }

    /// The number of directories.
    pub fn directory_count(&self) -> (r: usize)
        ensures
            r == count_directories(self@),
            r <= self@.len(),
    {
        proof {
            use_type_invariant(self);
            lemma_count_directories_bound(self@);
        }
        self.directory_count
    }

    /// All entries, in insertion order.
    pub fn entries(&self) -> (r: &[FileEntry])
        ensures
            entry_views(r@) == self@,
    {
        self.entries.as_slice()
    }

    /// An estimate of the bytes the index holds: the footprint of the
    /// entry slots and text bytes that are allocated. They are no fewer
    /// than the entries and characters held, and no more than allocations
    /// can hold; where between the two is up to the allocator.
    pub fn memory_usage(&self) -> (r: usize)
        ensures
            exists|slots: nat, text: nat| estimates(r, self@, slots, text),
    {
        let header: usize = core::mem::size_of::<Vec<FileEntry>>();
        let slot_size: usize = core::mem::size_of::<FileEntry>();
        let slots: usize = entry_slots(&self.entries);
        let mut text_bytes: usize = 0;
        let ghost mut total: nat = 0;
        let mut i: usize = 0;
        while i < self.entries.len()
            invariant
                i <= self.entries@.len(),
                total >= text_total(self@.take(i as int)),
                total <= 2 * i * isize::MAX,
                text_bytes == if total > usize::MAX {
                    usize::MAX as nat
                } else {
                    total
                },
            decreases self.entries@.len() - i,
        {
            assert(self@.take(i + 1).drop_last() == self@.take(i as int));
            let entry = &self.entries[i];
            let path_bytes = text_slots(&entry.path);
            let name_bytes = text_slots(&entry.name);
            let held: u128 = path_bytes as u128 + name_bytes as u128 + text_bytes as u128;
            proof {
                assert(2 * i * isize::MAX + 2 * isize::MAX == 2 * (i + 1) * isize::MAX)
                    by (nonlinear_arith);
                total = total + path_bytes as nat + name_bytes as nat;
            }
            text_bytes = if held > usize::MAX as u128 {
                usize::MAX
            } else {
                held as usize
            };
            i += 1;
        }
        assert(self@.take(self@.len() as int) == self@);
        let r = estimate_footprint(header, slots, slot_size, text_bytes);
        proof {
            assert(slots * slot_size >= 0) by (nonlinear_arith)
                requires
                    slots >= 0,
                    slot_size >= 0,
            ;
            assert(estimates(r, self@, slots as nat, total));
        }
        r
    }

    /// Removes the first entry with the record number `file_id`, if any.
    pub fn remove(&mut self, file_id: u64)
        ensures
            final(self)@ == without_id(old(self)@, file_id),
    {
        let k = self.find_id(file_id);
        if k < self.entries.len() {
            self.remove_at(k);
        }
    }

    /// Removes the first entry with the path `path`, if any.
    pub fn remove_by_path(&mut self, path: &str)
        ensures
            final(self)@ == without_path(old(self)@, path@),
    {
        let k = self.find_path(path);
        if k < self.entries.len() {
            self.remove_at(k);
        }
    }

    /// Moves the first entry with the record number `file_id` to
    /// `new_path`, and names it after the last segment of that path.
    pub fn update_path(&mut self, file_id: u64, new_path: String)
        ensures
            final(self)@ == with_path(old(self)@, file_id, new_path@),
    {
        let k = self.find_id(file_id);
        if k < self.entries.len() {
            let name = last_segment(new_path.as_str());
            proof {
                use_type_invariant(&*self);
                lemma_count_directories_update(
                    self@,
                    k as int,
                    EntryView { path: new_path@, name: name@, ..self@[k as int] },
                );
            }
            let mut taken = FileIndex::new();
            std::mem::swap(self, &mut taken);
            let FileIndex { entries, directory_count } = taken;
            let mut entries = entries;
            entries[k].path = new_path;
            entries[k].name = name;
            assert(entry_views(entries@) =~= with_path(old(self)@, file_id, new_path@));
            *self = FileIndex { entries, directory_count };
        }
    }

    /// Sets the modification time of the first entry with the record
    /// number `file_id`.
    pub fn update_modified(&mut self, file_id: u64, timestamp: Timestamp)
        ensures
            final(self)@ == with_modified(old(self)@, file_id, timestamp),
    {
        let k = self.find_id(file_id);
        if k < self.entries.len() {
            proof {
                use_type_invariant(&*self);
                lemma_count_directories_update(
                    self@,
                    k as int,
                    EntryView { modified: Some(timestamp), ..self@[k as int] },
                );
            }
            let mut taken = FileIndex::new();
            std::mem::swap(self, &mut taken);
            let FileIndex { entries, directory_count } = taken;
            let mut entries = entries;
            entries[k].modified = Some(timestamp);
            assert(entry_views(entries@) =~= with_modified(old(self)@, file_id, timestamp));
            *self = FileIndex { entries, directory_count };
        }
    }

    /// Sets the size of the first entry with the record number `file_id`.
    pub fn update_size(&mut self, file_id: u64, size: u64)
        ensures
            final(self)@ == with_size(old(self)@, file_id, size),
    {
        let k = self.find_id(file_id);
        if k < self.entries.len() {
            proof {
                use_type_invariant(&*self);
                lemma_count_directories_update(
                    self@,
                    k as int,
                    EntryView { size: size, ..self@[k as int] },
                );
            }
            let mut taken = FileIndex::new();
            std::mem::swap(self, &mut taken);
            let FileIndex { entries, directory_count } = taken;
            let mut entries = entries;
            entries[k].size = size;
            assert(entry_views(entries@) =~= with_size(old(self)@, file_id, size));
            *self = FileIndex { entries, directory_count };
        }
    }

    /// Applies a change report to the first entry at `path`: the size is
    /// replaced, and so is the modification time where the report carries
    /// one, as whole seconds since the Unix epoch.
    pub fn update_metadata_by_path(&mut self, path: &str, size: u64, modified: Option<i64>)
        ensures
            final(self)@ == with_metadata(old(self)@, path@, size, modified),
    {
        let k = self.find_path(path);
        if k < self.entries.len() {
            let time = match modified {
                Some(secs) => Timestamp::from_unix(secs, 0),
                None => self.entries[k].modified,
            };
            proof {
                use_type_invariant(&*self);
                lemma_count_directories_update(
                    self@,
                    k as int,
                    EntryView { size: size, modified: time, ..self@[k as int] },
                );
            }
            let mut taken = FileIndex::new();
            std::mem::swap(self, &mut taken);
            let FileIndex { entries, directory_count } = taken;
            let mut entries = entries;
            entries[k].size = size;
            entries[k].modified = time;
            assert(entry_views(entries@) =~= with_metadata(old(self)@, path@, size, modified));
            *self = FileIndex { entries, directory_count };
        }
    }

    fn find_id(&self, file_id: u64) -> (k: usize)
        ensures
            k == position_by_id(self@, file_id, 0),
            k <= self@.len(),
    {
        let mut k: usize = 0;
        while k < self.entries.len() && self.entries[k].file_id != file_id
            invariant
                k <= self.entries@.len(),
                position_by_id(self@, file_id, 0) == position_by_id(self@, file_id, k as int),
            decreases self.entries@.len() - k,
        {
            k += 1;
        }
        k
    }

    fn find_path(&self, path: &str) -> (k: usize)
        ensures
            k == position_by_path(self@, path@, 0),
            k <= self@.len(),
    {
        let wanted: String = path.to_owned();
        let mut k: usize = 0;
        while k < self.entries.len() && !(self.entries[k].path == wanted)
            invariant
                wanted@ == path@,
                k <= self.entries@.len(),
                position_by_path(self@, path@, 0) == position_by_path(self@, path@, k as int),
            decreases self.entries@.len() - k,
        {
            k += 1;
        }
        k
    }

    fn remove_at(&mut self, k: usize)
        requires
            k < old(self)@.len(),
        ensures
            final(self)@ == old(self)@.remove(k as int),
    {
        proof {
            use_type_invariant(&*self);
            lemma_count_directories_remove(self@, k as int);
        }
        let mut taken = FileIndex::new();
        std::mem::swap(self, &mut taken);
        let FileIndex { entries, directory_count } = taken;
        let mut entries = entries;
        let entry = entries.remove(k);
        assert(entry_views(entries@) =~= old(self)@.remove(k as int));
        let directory_count = if entry.is_directory {
            directory_count - 1
        } else {
            directory_count
        };
        *self = FileIndex { entries, directory_count };
    }
}

/// The text after the last backslash of `path`; all of it if there is none.
pub fn last_segment(path: &str) -> (r: String)
    ensures
        r@ == tail_after(path@, '\\'),
{
    let chars = to_chars(path);
    let mut n: usize = chars.len();
    while n > 0 && chars[n - 1] != '\\'
        invariant
            n <= chars@.len(),
            crate::text::after_last(chars@, '\\', chars@.len() as int) == crate::text::after_last(
                chars@,
                '\\',
                n as int,
            ),
        decreases n,
    {
        n -= 1;
    }
    from_chars(&chars, n, chars.len())
}

} // verus!
