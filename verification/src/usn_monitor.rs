//! Keeping the index current: each change that the file system reports
//! becomes exactly one mutation of the index.

use vstd::prelude::*;
use crate::file_entry::{EntryView, FileEntry};
use crate::index::{
    lemma_position_by_path, position_by_path, reported_time, with_metadata, without_path,
    FileIndex,
};
use crate::timestamp::Timestamp;

verus! {

/// What the file system tells of a path, with its times in whole seconds
/// since the Unix epoch where it tells them.
#[derive(Clone, Copy, Debug)]
pub struct PathMetadata {
    pub is_directory: bool,
    pub len: u64,
    pub modified: Option<i64>,
    pub created: Option<i64>,
    pub accessed: Option<i64>,
}

/// One reported change of one path.
#[derive(Debug)]
pub enum ChangeEvent {
    /// The path came into being; `name` is its last component.
    Created { path: String, name: String, metadata: PathMetadata },
    /// The path is gone.
    Removed { path: String },
    /// The content or the times at the path changed.
    Modified { path: String, len: u64, modified: Option<i64> },
}

pub enum ChangeView {
    Created { path: Seq<char>, name: Seq<char>, metadata: PathMetadata },
    Removed { path: Seq<char> },
    Modified { path: Seq<char>, len: u64, modified: Option<i64> },
}

impl View for ChangeEvent {
    type V = ChangeView;

    open spec fn view(&self) -> ChangeView {
        match self {
            ChangeEvent::Created { path, name, metadata } => ChangeView::Created {
                path: path@,
                name: name@,
                metadata: *metadata,
            },
            ChangeEvent::Removed { path } => ChangeView::Removed { path: path@ },
            ChangeEvent::Modified { path, len, modified } => ChangeView::Modified {
                path: path@,
                len: *len,
                modified: *modified,
            },
        }
    }
}

/// A reported time as a point in time, where there is one that the
/// calendar can name.
pub open spec fn time_at(unix_secs: Option<i64>) -> Option<Timestamp> {
    reported_time(None, unix_secs)
}

/// The entry for a path that the file system reported: it has no record
/// in the volume's table, so both record numbers are 0; a directory has
/// size 0.
pub open spec fn reported_entry(path: Seq<char>, name: Seq<char>, m: PathMetadata) -> EntryView {
    EntryView {
        name: name,
        path: path,
        is_directory: m.is_directory,
        file_id: 0,
        parent_id: 0,
        size: if m.is_directory {
            0
        } else {
            m.len
        },
        modified: time_at(m.modified),
        created: time_at(m.created),
        accessed: time_at(m.accessed),
    }
}

/// The index after a change: a creation appends the entry, a removal
/// takes out the first entry at the path, a modification replaces size
/// and modification time of the first entry at the path.
pub open spec fn after_change(s: Seq<EntryView>, change: ChangeView) -> Seq<EntryView> {
    match change {
        ChangeView::Created { path, name, metadata } => s.push(reported_entry(path, name, metadata)),
        ChangeView::Removed { path } => without_path(s, path),
        ChangeView::Modified { path, len, modified } => with_metadata(s, path, len, modified),
    }
}

fn time_of(unix_secs: Option<i64>) -> (r: Option<Timestamp>)
    ensures
        r == time_at(unix_secs),
{
    match unix_secs {
        Some(secs) => Timestamp::from_unix(secs, 0),
        None => None,
    }
}

/// Makes the entry for a path that the file system reported.
pub fn create_file_entry_from_path(path: String, name: String, metadata: &PathMetadata) -> (e:
    FileEntry)
    ensures
        e@ == reported_entry(path@, name@, *metadata),
{
    let size: u64 = if metadata.is_directory {
        0
    } else {
        metadata.len
    };
    FileEntry::new(
        name,
        path,
        metadata.is_directory,
        0,
        0,
        size,
        time_of(metadata.modified),
        time_of(metadata.created),
        time_of(metadata.accessed),
    )
}

/// Applies one reported change to the index.
pub fn process_filesystem_event(event: ChangeEvent, index: &mut FileIndex)
    ensures
        final(index)@ == after_change(old(index)@, event@),
{
    match event {
        ChangeEvent::Created { path, name, metadata } => {
            let entry = create_file_entry_from_path(path, name, &metadata);
            index.add_entry(entry);
        },
        ChangeEvent::Removed { path } => {
            index.remove_by_path(path.as_str());
        },
        ChangeEvent::Modified { path, len, modified } => {
            index.update_metadata_by_path(path.as_str(), len, modified);
        },
    }
}

/// A creation followed by the removal of the same path leaves the index
/// as it was, where the index held no entry at that path before. A search
/// in between reads the index and cannot change it, so the outcome is the
/// same however searches fall among the two.
pub proof fn lemma_create_then_remove(
    s: Seq<EntryView>,
    path: Seq<char>,
    name: Seq<char>,
    metadata: PathMetadata,
)
    requires
        forall|i: int| 0 <= i < s.len() ==> (#[trigger] s[i]).path != path,
    ensures
        after_change(
            after_change(s, ChangeView::Created { path, name, metadata }),
            ChangeView::Removed { path },
        ) == s,
{
    let entry = reported_entry(path, name, metadata);
    let grown = s.push(entry);
    lemma_position_by_path(grown, path, 0);
    let k = position_by_path(grown, path, 0);
    if k < s.len() {
        assert(grown[k] == s[k]);
        assert(s[k].path != path);
    }
    assert(grown[s.len() as int].path == path);
    assert(k == s.len());
    assert(grown.remove(k) =~= s);
}

/// A creation followed by the removal of the same path leaves as many
/// entries as before, whatever the index held: the removal takes out
/// the first entry at the path, which is the new one only if no other
/// was there.
pub proof fn lemma_create_then_remove_count(
    s: Seq<EntryView>,
    path: Seq<char>,
    name: Seq<char>,
    metadata: PathMetadata,
)
    ensures
        after_change(
            after_change(s, ChangeView::Created { path, name, metadata }),
            ChangeView::Removed { path },
        ).len() == s.len(),
{
    let entry = reported_entry(path, name, metadata);
    let grown = s.push(entry);
    lemma_position_by_path(grown, path, 0);
    let k = position_by_path(grown, path, 0);
    if k >= grown.len() {
        assert(grown[s.len() as int].path == path);
    }
}

} // verus!
