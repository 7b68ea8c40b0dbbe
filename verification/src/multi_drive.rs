//! Drives and cloud folders: which letters name drives, which kinds of
//! drive are scanned, and which paths lie in the folder of a cloud
//! storage provider.

use vstd::prelude::*;
use crate::file_entry::{EntryView, FileEntry};
use crate::index::FileIndex;
use crate::text::{contains, contains_text, lowercase, to_chars, unicode_lowercase};
use crate::timestamp::Timestamp;

verus! {

/// The kind of a drive, as the system reports it.
#[derive(Debug, Clone, Copy, PartialEq, Eq, Structural)]
pub enum DriveType {
    Fixed,
    Removable,
    Network,
    CDRom,
    RamDisk,
    Unknown,
}

#[derive(Debug, Clone, Copy, PartialEq, Eq, Structural)]
pub enum CloudProvider {
    GoogleDrive,
    Dropbox,
    OneDrive,
}

/// The kind that the system's drive type code stands for.
pub open spec fn drive_type_of(code: u32) -> DriveType {
    if code == 3 {
        DriveType::Fixed
    } else if code == 2 {
        DriveType::Removable
    } else if code == 4 {
        DriveType::Network
    } else if code == 5 {
        DriveType::CDRom
    } else if code == 6 {
        DriveType::RamDisk
    } else {
        DriveType::Unknown
    }
}

impl DriveType {
    pub fn from_code(code: u32) -> (r: DriveType)
        ensures
            r == drive_type_of(code),
    {
        if code == 3 {
            DriveType::Fixed
        } else if code == 2 {
            DriveType::Removable
        } else if code == 4 {
            DriveType::Network
        } else if code == 5 {
            DriveType::CDRom
        } else if code == 6 {
            DriveType::RamDisk
        } else {
            DriveType::Unknown
        }
    }

    /// Only fixed drives are scanned.
    pub fn is_scanned(&self) -> (r: bool)
        ensures
            r == (*self == DriveType::Fixed),
    {
        match self {
            DriveType::Fixed => true,
            _ => false,
        }
    }
}

/// The provider whose folder a lowercase path lies in, going by the
/// folder names: Google Drive before Dropbox before OneDrive.
pub open spec fn provider_of(lower_path: Seq<char>) -> Option<CloudProvider> {
    if contains_text(lower_path, "google drive"@) || contains_text(lower_path, "googledrive"@) {
        Some(CloudProvider::GoogleDrive)
    } else if contains_text(lower_path, "dropbox"@) {
        Some(CloudProvider::Dropbox)
    } else if contains_text(lower_path, "onedrive"@) {
        Some(CloudProvider::OneDrive)
    } else {
        None
    }
}

/// `provider_of`, for a path that is in lowercase already.
pub fn provider_of_lowercase(lower_path: &str) -> (r: Option<CloudProvider>)
    ensures
        r == provider_of(lower_path@),
{
    let path = to_chars(lower_path);
    if contains(&path, &to_chars("google drive")) || contains(&path, &to_chars("googledrive")) {
        Some(CloudProvider::GoogleDrive)
    } else if contains(&path, &to_chars("dropbox")) {
        Some(CloudProvider::Dropbox)
    } else if contains(&path, &to_chars("onedrive")) {
        Some(CloudProvider::OneDrive)
    } else {
        None
    }
}

/// The cloud storage provider whose folder `path` lies in, if any; the
/// case of the path does not matter.
pub fn is_cloud_storage_path(path: &str) -> (r: Option<CloudProvider>)
    ensures
        r == provider_of(unicode_lowercase(path@)),
{
    let lowered = lowercase(path);
    provider_of_lowercase(lowered.as_str())
}

/// The entry for what a walk through a cloud folder finds. It has no
/// record in a volume's table, so its record number and its parent's are
/// 0. A directory has the size 0; a file has the length that the file
/// system tells, 0 where it tells none. The walk tells no access time.
pub open spec fn walked_entry(
    name: Seq<char>,
    path: Seq<char>,
    is_directory: bool,
    len: Option<u64>,
    modified: Option<Timestamp>,
    created: Option<Timestamp>,
) -> EntryView {
    EntryView {
        name: name,
        path: path,
        is_directory: is_directory,
        file_id: 0,
        parent_id: 0,
        size: if is_directory {
            0
        } else {
            match len {
                Some(n) => n,
                None => 0,
            }
        },
        modified: modified,
        created: created,
        accessed: None,
    }
}

/// Makes the entry for what a walk through a cloud folder finds.
pub fn cloud_file_entry(
    name: String,
    path: String,
    is_directory: bool,
    len: Option<u64>,
    modified: Option<Timestamp>,
    created: Option<Timestamp>,
) -> (e: FileEntry)
    ensures
        e@ == walked_entry(name@, path@, is_directory, len, modified, created),
{
    let size: u64 = if is_directory {
        0
    } else {
        match len {
            Some(n) => n,
            None => 0,
        }
    };
    FileEntry::new(name, path, is_directory, 0, 0, size, modified, created, None)
}

/// What a walk tells of one file or directory of a cloud folder.
#[derive(Debug)]
pub struct WalkedFile {
    pub name: String,
    pub path: String,
    pub is_directory: bool,
    /// The length that the file system tells, where it tells one.
    pub len: Option<u64>,
    pub modified: Option<Timestamp>,
    pub created: Option<Timestamp>,
}

pub struct WalkedView {
    pub name: Seq<char>,
    pub path: Seq<char>,
    pub is_directory: bool,
    pub len: Option<u64>,
    pub modified: Option<Timestamp>,
    pub created: Option<Timestamp>,
}

impl View for WalkedFile {
    type V = WalkedView;

    open spec fn view(&self) -> WalkedView {
        WalkedView {
            name: self.name@,
            path: self.path@,
            is_directory: self.is_directory,
            len: self.len,
            modified: self.modified,
            created: self.created,
        }
    }
}

/// The entries for what a walk found, in the order of the walk.
pub open spec fn walked_entries(walked: Seq<WalkedFile>) -> Seq<EntryView> {
    walked.map_values(
        |w: WalkedFile|
            walked_entry(w.name@, w.path@, w.is_directory, w.len, w.modified, w.created),
    )
}

/// Adds what a walk through a cloud folder found to the index, in the
/// order of the walk, and returns how many entries were added: one for
/// each file and directory found.
pub fn index_cloud_storage_folder(index: &mut FileIndex, walked: &Vec<WalkedFile>) -> (count: usize)
    ensures
        final(index)@ == old(index)@ + walked_entries(walked@),
        count == walked@.len(),
{
    let mut i: usize = 0;
    assert(walked_entries(walked@).take(0) =~= Seq::<EntryView>::empty());
    assert(index@ + Seq::<EntryView>::empty() =~= index@);
    while i < walked.len()
        invariant
            i <= walked@.len(),
            index@ == old(index)@ + walked_entries(walked@).take(i as int),
        decreases walked@.len() - i,
    {
        let w = &walked[i];
        let entry = cloud_file_entry(
            w.name.clone(),
            w.path.clone(),
            w.is_directory,
            w.len,
            w.modified,
            w.created,
        );
        assert(entry@ == walked_entries(walked@)[i as int]);
        index.add_entry(entry);
        assert(walked_entries(walked@).take(i + 1) =~= walked_entries(walked@).take(i as int).push(
            walked_entries(walked@)[i as int],
        ));
        assert(index@ =~= old(index)@ + walked_entries(walked@).take(i + 1));
        i += 1;
    }
    assert(walked_entries(walked@).take(walked@.len() as int) =~= walked_entries(walked@));
    i
}

/// The `i`-th drive letter, `A` to `Z`.
pub open spec fn drive_letter(i: int) -> char {
    ('A' as int + i) as char
}

/// The letters among the first `n` whose drive is present.
pub open spec fn present_drives(present: Seq<bool>, n: int) -> Seq<char>
    decreases n,
{
    if n <= 0 {
        Seq::empty()
    } else if n - 1 < present.len() && present[n - 1] {
        present_drives(present, n - 1).push(drive_letter(n - 1))
    } else {
        present_drives(present, n - 1)
    }
}

/// The letters of the drives that are present, in order: `present[i]`
/// tells whether the root of the `i`-th letter exists.
pub fn get_all_drives(present: &Vec<bool>) -> (r: Vec<char>)
    ensures
        r@ == present_drives(present@, 26),
{
    let mut drives: Vec<char> = Vec::new();
    let mut i: u8 = 0;
    while i < 26
        invariant
            i <= 26,
            drives@ == present_drives(present@, i as int),
        decreases 26 - i,
    {
        if (i as usize) < present.len() && present[i as usize] {
            let letter: char = (65u8 + i) as char;
            drives.push(letter);
        }
        i += 1;
    }
    drives
}

} // verus!
