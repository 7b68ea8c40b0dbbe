//! Where the snapshot of an index and the bookmark of a drive are kept,
//! and the bytes of a bookmark. Reading and writing the files is left to
//! the caller.

use vstd::prelude::*;
use vstd::bytes::{
    lemma_auto_spec_u64_to_from_le_bytes, spec_u64_from_le_bytes, spec_u64_to_le_bytes,
    u64_from_le_bytes, u64_to_le_bytes,
};
use vstd::string::StringExecFns;
use crate::file_entry::FileEntry;
use crate::index::{entry_views, FileIndex};

verus! {

/// The directory of the user `username` that holds the snapshots.
pub open spec fn nothing_dir(username: Seq<char>) -> Seq<char> {
    "C:\\Users\\"@ + username + "\\.nothing"@
}

/// The snapshot file of `drive` in the directory `dir`.
pub open spec fn index_path(dir: Seq<char>, drive: char) -> Seq<char> {
    dir + "\\index_"@ + seq![drive] + ".bin"@
}

/// The bookmark file of `drive` in the directory `dir`.
pub open spec fn bookmark_path(dir: Seq<char>, drive: char) -> Seq<char> {
    dir + "\\bookmark_"@ + seq![drive] + ".dat"@
}

pub fn get_nothing_dir(username: &str) -> (r: String)
    ensures
        r@ == nothing_dir(username@),
{
    let mut r = String::from_str("C:\\Users\\");
    r.append(username);
    r.append("\\.nothing");
    r
}

pub fn get_index_path(dir: &str, drive: char) -> (r: String)
    ensures
        r@ == index_path(dir@, drive),
{
    let mut r: String = dir.to_owned();
    r.append("\\index_");
    r.push(drive);
    r.append(".bin");
    assert(r@ =~= index_path(dir@, drive));
    r
}

pub fn get_bookmark_path(dir: &str, drive: char) -> (r: String)
    ensures
        r@ == bookmark_path(dir@, drive),
{
    let mut r: String = dir.to_owned();
    r.append("\\bookmark_");
    r.push(drive);
    r.append(".dat");
    assert(r@ =~= bookmark_path(dir@, drive));
    r
}

/// The bytes of a bookmark file: the journal position as eight bytes,
/// least significant first.
pub fn encode_bookmark(usn: u64) -> (r: Vec<u8>)
    ensures
        r@ == spec_u64_to_le_bytes(usn),
        r@.len() == 8,
{
    proof {
        lemma_auto_spec_u64_to_from_le_bytes();
    }
    u64_to_le_bytes(usn)
}

/// The journal position in the bytes of a bookmark file, which must be
/// eight.
pub fn decode_bookmark(bytes: &[u8]) -> (r: Option<u64>)
    ensures
        r == if bytes@.len() == 8 {
            Some(spec_u64_from_le_bytes(bytes@))
        } else {
            None
        },
{
    if bytes.len() == 8 {
        Some(u64_from_le_bytes(bytes))
    } else {
        None
    }
}

/// A bookmark that was written is read back as it was.
pub proof fn lemma_bookmark_round_trip(usn: u64)
    ensures
        spec_u64_to_le_bytes(usn).len() == 8,
        spec_u64_from_le_bytes(spec_u64_to_le_bytes(usn)) == usn,
{
    lemma_auto_spec_u64_to_from_le_bytes();
}

/// Copies of the entries of `index`, in order: what a snapshot holds.
pub fn snapshot_entries(index: &FileIndex) -> (r: Vec<FileEntry>)
    ensures
        entry_views(r@) == index@,
{
    let entries = index.entries();
    let mut out: Vec<FileEntry> = Vec::new();
    let mut i: usize = 0;
    while i < entries.len()
        invariant
            entry_views(entries@) == index@,
            i <= entries@.len(),
            entry_views(out@) == index@.take(i as int),
        decreases entries@.len() - i,
    {
        let ghost before = entry_views(out@);
        out.push(entries[i].clone());
        assert(entry_views(out@) =~= before.push(entries@[i as int]@));
        assert(index@.take(i + 1) =~= index@.take(i as int).push(index@[i as int]));
        assert(index@[i as int] == entries@[i as int]@);
        i += 1;
    }
    assert(index@.take(index@.len() as int) =~= index@);
    out
}

/// The index that a snapshot restores: it holds the entries of the
/// snapshot, and counts its directories anew.
pub fn restore_index(entries: Vec<FileEntry>) -> (r: FileIndex)
    ensures
        r@ == entry_views(entries@),
{
    FileIndex::from_entries(entries)
}

} // verus!
