//! One file or directory of a volume.

use vstd::prelude::*;
use crate::timestamp::Timestamp;

verus! {

/// A file or directory as the index holds it.
#[derive(Debug)]
pub struct FileEntry {
    /// Name without the path.
    pub name: String,
    /// Absolute path, drive included.
    pub path: String,
    pub is_directory: bool,
    /// Record number in the volume's table; 0 for an entry that did not
    /// come from the table.
    pub file_id: u64,
    /// Record number of the containing directory.
    pub parent_id: u64,
    /// Size in bytes; 0 for a directory.
    pub size: u64,
    pub modified: Option<Timestamp>,
    pub created: Option<Timestamp>,
    pub accessed: Option<Timestamp>,
}

/// The mathematical value of a `FileEntry`.
pub struct EntryView {
    pub name: Seq<char>,
    pub path: Seq<char>,
    pub is_directory: bool,
    pub file_id: u64,
    pub parent_id: u64,
    pub size: u64,
    pub modified: Option<Timestamp>,
    pub created: Option<Timestamp>,
    pub accessed: Option<Timestamp>,
}

impl View for FileEntry {
    type V = EntryView;

    open spec fn view(&self) -> EntryView {
        EntryView {
            name: self.name@,
            path: self.path@,
            is_directory: self.is_directory,
            file_id: self.file_id,
            parent_id: self.parent_id,
            size: self.size,
            modified: self.modified,
            created: self.created,
            accessed: self.accessed,
        }
    }
}

impl FileEntry {
    pub fn new(
        name: String,
        path: String,
        is_directory: bool,
        file_id: u64,
        parent_id: u64,
        size: u64,
        modified: Option<Timestamp>,
        created: Option<Timestamp>,
        accessed: Option<Timestamp>,
    ) -> (r: Self)
        ensures
            r@ == (EntryView {
                name: name@,
                path: path@,
                is_directory,
                file_id,
                parent_id,
                size,
                modified,
                created,
                accessed,
            }),
    {
        FileEntry { name, path, is_directory, file_id, parent_id, size, modified, created, accessed }
    }
}

impl Clone for FileEntry {
    fn clone(&self) -> (r: Self)
        ensures
            r@ == self@,
    {
        FileEntry {
            name: self.name.clone(),
            path: self.path.clone(),
            is_directory: self.is_directory,
            file_id: self.file_id,
            parent_id: self.parent_id,
            size: self.size,
            modified: self.modified,
            created: self.created,
            accessed: self.accessed,
        }
    }
}

} // verus!
