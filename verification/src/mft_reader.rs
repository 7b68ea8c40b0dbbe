//! The fast scan: names and paths only.

use vstd::prelude::*;
use crate::error::NothingError;
use crate::index::FileIndex;
use crate::path_resolution::{
    build_path, entry_path, index_records, record_views, scanned_entries, ParentPathMap,
    ScanMode, VolumeRecord,
};
use crate::sizes::{format_scaled, size_text};

verus! {

/// Progress is reported every this many records.
pub const PROGRESS_INTERVAL: u64 = 100_000;

/// Failures of single records are reported for the first this many
/// records only.
pub const FAILURE_LOG_CAP: u64 = 1000;

pub open spec fn is_ascii_letter(c: char) -> bool {
    ('a' <= c && c <= 'z') || ('A' <= c && c <= 'Z')
}

pub open spec fn ascii_upper(c: char) -> char {
    if 'a' <= c && c <= 'z' {
        ((c as u8) - 32) as char
    } else {
        c
    }
}

/// The drive letter of a reader: `letter` in upper case, if it is an
/// ASCII letter.
pub fn checked_drive_letter(letter: char) -> (r: Result<char, NothingError>)
    ensures
        r is Ok <==> is_ascii_letter(letter),
        r matches Ok(c) ==> c == ascii_upper(letter),
        r matches Err(e) ==> e@ == crate::error::ErrorView::InvalidDriveLetter(letter),
{
    if 'a' <= letter && letter <= 'z' {
        Ok(((letter as u8) - 32) as char)
    } else if 'A' <= letter && letter <= 'Z' {
        Ok(letter)
    } else {
        Err(NothingError::InvalidDriveLetter(letter))
    }
}

/// Whether progress is reported after `count` records.
pub fn is_progress_step(count: u64) -> (r: bool)
    ensures
        r == (count % PROGRESS_INTERVAL == 0),
{
    count % PROGRESS_INTERVAL == 0
}

/// Whether the failure of the `count`-th record is still reported.
pub fn reports_failure(count: u64) -> (r: bool)
    ensures
        r == (count < FAILURE_LOG_CAP),
{
    count < FAILURE_LOG_CAP
}

/// The records scanned per second: all of them where the scan took less
/// than a second.
pub fn records_per_second(count: u64, elapsed_secs: u64) -> (r: u64)
    ensures
        r == if elapsed_secs > 0 {
            count / elapsed_secs
        } else {
            count
        },
{
    if elapsed_secs > 0 {
        count / elapsed_secs
    } else {
        count
    }
}

/// A byte count for the scan report, in units up to `PB` with two
/// decimals.
pub fn format_size(bytes: u64) -> (r: String)
    ensures
        r@ == size_text(bytes, 5, 2),
{
    format_scaled(bytes, 5, 2)
}

/// Scans the record table of one drive for names and paths.
#[derive(Debug)]
pub struct MftReader {
    drive_letter: char,
}

impl MftReader {
    pub closed spec fn drive(&self) -> char {
        self.drive_letter
    }

    /// A reader for the drive `drive_letter`, which must be an ASCII
    /// letter; the reader holds it in upper case.
    pub fn new(drive_letter: char) -> (r: Result<Self, NothingError>)
        ensures
            r is Ok <==> is_ascii_letter(drive_letter),
            r matches Ok(reader) ==> reader.drive() == ascii_upper(drive_letter),
            r matches Err(e) ==> e@ == crate::error::ErrorView::InvalidDriveLetter(drive_letter),
    {
        match checked_drive_letter(drive_letter) {
            Ok(c) => Ok(MftReader { drive_letter: c }),
            Err(e) => Err(e),
        }
    }

    pub fn drive_letter(&self) -> (r: char)
        ensures
            r == self.drive(),
    {
        self.drive_letter
    }

    /// Adds the records of the drive to `index`, with size 0 and without
    /// times: directories are resolved first, then every record becomes
    /// an entry under its parent's path.
    pub fn scan_into_index(&self, records: &Vec<VolumeRecord>, index: &mut FileIndex)
        ensures
            final(index)@ == old(index)@ + scanned_entries(
                self.drive(),
                record_views(records@),
                ScanMode::Fast,
            ),
    {
        index_records(self.drive_letter, records, ScanMode::Fast, index);
    }

    /// The path of the record `name` with the parent `parent_id`.
    pub fn build_path_arc(&self, name: &str, parent_id: u64, parent_map: &ParentPathMap) -> (r:
        String)
        ensures
            r@ == entry_path(self.drive(), name@, parent_id, parent_map@),
    {
        build_path(self.drive_letter, name, parent_id, parent_map)
    }
}

} // verus!
