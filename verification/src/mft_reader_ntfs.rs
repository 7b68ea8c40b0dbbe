//! The full-metadata scan: sizes and times from the attributes of each
//! record, and the walk over a record table whose numbers have gaps.

use vstd::prelude::*;
use crate::error::NothingError;
use crate::index::FileIndex;
use crate::mft_reader::{ascii_upper, checked_drive_letter, is_ascii_letter};
use crate::path_resolution::{
    build_path, entry_path, index_records, record_views, scanned_entries, ParentPathMap,
    RecordTimes, RecordView, ScanMode, TimesRead, VolumeRecord,
};
use crate::timestamp::{filetime_value, Timestamp};

verus! {

/// After this many record numbers in a row without a record, the table
/// has ended.
pub const MAX_CONSECUTIVE_ERRORS: u64 = 1000;

/// The namespace of a file name attribute.
#[derive(Clone, Copy, Debug, PartialEq, Eq, Structural)]
pub enum NameSpace {
    Posix,
    /// The long name.
    Win32,
    /// The short alias.
    Dos,
    /// One name that serves as both.
    Win32AndDos,
}

/// An attribute of a record, as far as the scan reads it. An attribute
/// whose sort is known and whose value cannot be decoded is kept as such:
/// it fails what asks for that value, and nothing else.
#[derive(Debug)]
pub enum RecordAttribute {
    FileName { namespace: NameSpace, name: String, parent_id: u64 },
    /// A file name that could not be decoded.
    UnreadableName,
    /// The primary data stream and its length.
    Data { length: u64 },
    StandardInformation { times: RecordTimes },
    /// Standard information that could not be decoded.
    UnreadableInformation,
    Other,
}

pub enum AttributeView {
    FileName { namespace: NameSpace, name: Seq<char>, parent_id: u64 },
    UnreadableName,
    Data { length: u64 },
    StandardInformation { times: RecordTimes },
    UnreadableInformation,
    Other,
}

impl View for RecordAttribute {
    type V = AttributeView;

    open spec fn view(&self) -> AttributeView {
        match self {
            RecordAttribute::FileName { namespace, name, parent_id } => AttributeView::FileName {
                namespace: *namespace,
                name: name@,
                parent_id: *parent_id,
            },
            RecordAttribute::UnreadableName => AttributeView::UnreadableName,
            RecordAttribute::Data { length } => AttributeView::Data { length: *length },
            RecordAttribute::StandardInformation { times } => AttributeView::StandardInformation {
                times: *times,
            },
            RecordAttribute::UnreadableInformation => AttributeView::UnreadableInformation,
            RecordAttribute::Other => AttributeView::Other,
        }
    }
}

pub open spec fn attribute_views(attributes: Seq<RecordAttribute>) -> Seq<AttributeView> {
    attributes.map_values(|a: RecordAttribute| a@)
}

pub open spec fn is_long_name(a: AttributeView) -> bool {
    a matches AttributeView::FileName { namespace, .. } && (namespace == NameSpace::Win32
        || namespace == NameSpace::Win32AndDos)
}

/// The first index at or after `from` that holds an attribute of the
/// wanted sort, or the length.
pub open spec fn first_where(
    attributes: Seq<AttributeView>,
    wanted: spec_fn(AttributeView) -> bool,
    from: int,
) -> int
    decreases attributes.len() - from,
{
    if 0 <= from < attributes.len() && !wanted(attributes[from]) {
        first_where(attributes, wanted, from + 1)
    } else {
        from
    }
}

/// Where the search for a name ends before the last attribute: at a long
/// name, which is taken, or at a name that cannot be decoded, which fails
/// the search.
pub open spec fn ends_name_search(a: AttributeView) -> bool {
    is_long_name(a) || a is UnreadableName
}

/// Where the search for the times ends: at the standard information,
/// decoded or not.
pub open spec fn ends_time_search(a: AttributeView) -> bool {
    a is StandardInformation || a is UnreadableInformation
}

/// The name attribute that names the record: the first long name, unless
/// a name before it cannot be decoded; where there is no long name, all
/// attributes were read and every name decoded, the first name of any
/// namespace. `complete` tells whether the list of attributes was read
/// to its end.
pub open spec fn best_name_index(attributes: Seq<AttributeView>, complete: bool) -> Option<int> {
    let end = first_where(attributes, |a: AttributeView| ends_name_search(a), 0);
    let any = first_where(attributes, |a: AttributeView| a is FileName, 0);
    if end < attributes.len() {
        if is_long_name(attributes[end]) {
            Some(end)
        } else {
            None
        }
    } else if complete && any < attributes.len() {
        Some(any)
    } else {
        None
    }
}

/// The length of the first data attribute; 0 without one.
pub open spec fn data_length(attributes: Seq<AttributeView>) -> u64 {
    let k = first_where(attributes, |a: AttributeView| a is Data, 0);
    if k < attributes.len() {
        attributes[k]->Data_length
    } else {
        0
    }
}

/// The times of the first standard information attribute; they are
/// unreadable where it cannot be decoded. Without one the record has no
/// times if all attributes were read, and its times are unreadable
/// otherwise.
pub open spec fn record_times(attributes: Seq<AttributeView>, complete: bool) -> TimesRead {
    let k = first_where(attributes, |a: AttributeView| ends_time_search(a), 0);
    if k < attributes.len() {
        match attributes[k] {
            AttributeView::StandardInformation { times } => TimesRead::Known(times),
            _ => TimesRead::Unreadable,
        }
    } else if complete {
        TimesRead::Absent
    } else {
        TimesRead::Unreadable
    }
}

/// The record that a list of attributes decodes to, if it has a name.
/// Its times may be unreadable where its name is not: such a directory
/// still lends its path to what lies in it.
pub open spec fn decoded_record(
    record_number: u64,
    is_directory: bool,
    attributes: Seq<AttributeView>,
    complete: bool,
) -> Option<RecordView> {
    match best_name_index(attributes, complete) {
        Some(k) => Some(
            RecordView {
                record_id: record_number,
                name: attributes[k]->FileName_name,
                parent_id: attributes[k]->FileName_parent_id,
                is_directory,
                size: data_length(attributes),
                times: record_times(attributes, complete),
            },
        ),
        None => None,
    }
}

fn is_long(a: &RecordAttribute) -> (r: bool)
    ensures
        r == is_long_name(a@),
{
    match a {
        RecordAttribute::FileName { namespace, .. } => match namespace {
            NameSpace::Win32 => true,
            NameSpace::Win32AndDos => true,
            _ => false,
        },
        _ => false,
    }
}

fn is_unreadable_name(a: &RecordAttribute) -> (r: bool)
    ensures
        r == (a@ is UnreadableName),
{
    match a {
        RecordAttribute::UnreadableName => true,
        _ => false,
    }
}

fn is_name(a: &RecordAttribute) -> (r: bool)
    ensures
        r == (a@ is FileName),
{
    match a {
        RecordAttribute::FileName { .. } => true,
        _ => false,
    }
}

/// Picks the name attribute of a record: the long name is preferred to
/// the short alias.
pub fn get_best_file_name(attributes: &Vec<RecordAttribute>, complete: bool) -> (r: Option<usize>)
    ensures
        match r {
            Some(k) => best_name_index(attribute_views(attributes@), complete) == Some(k as int)
                && k < attributes@.len() && attributes@[k as int]@ is FileName,
            None => best_name_index(attribute_views(attributes@), complete) is None,
        },
{
    let ghost views = attribute_views(attributes@);
    let ghost long = |a: AttributeView| ends_name_search(a);
    let ghost any = |a: AttributeView| a is FileName;
    let mut fallback: Option<usize> = None;
    let mut i: usize = 0;
    while i < attributes.len()
        invariant
            views == attribute_views(attributes@),
            long == (|a: AttributeView| ends_name_search(a)),
            any == (|a: AttributeView| a is FileName),
            i <= attributes@.len(),
            first_where(views, long, 0) == first_where(views, long, i as int),
            match fallback {
                Some(k) => k < i && first_where(views, any, 0) == k && views[k as int] is FileName,
                None => first_where(views, any, 0) == first_where(views, any, i as int),
            },
        decreases attributes@.len() - i,
    {
        assert(views[i as int] == attributes@[i as int]@);
        if is_long(&attributes[i]) {
            return Some(i);
        }
        if is_unreadable_name(&attributes[i]) {
            return None;
        }
        if fallback.is_none() && is_name(&attributes[i]) {
            fallback = Some(i);
        }
        i += 1;
    }
    if complete {
        fallback
    } else {
        None
    }
}

/// The length of the primary data stream.
pub fn get_file_size(attributes: &Vec<RecordAttribute>) -> (r: u64)
    ensures
        r == data_length(attribute_views(attributes@)),
{
    let ghost views = attribute_views(attributes@);
    let ghost wanted = |a: AttributeView| a is Data;
    let mut i: usize = 0;
    while i < attributes.len()
        invariant
            views == attribute_views(attributes@),
            wanted == (|a: AttributeView| a is Data),
            i <= attributes@.len(),
            first_where(views, wanted, 0) == first_where(views, wanted, i as int),
        decreases attributes@.len() - i,
    {
        assert(views[i as int] == attributes@[i as int]@);
        match &attributes[i] {
            RecordAttribute::Data { length } => {
                return *length;
            },
            _ => {},
        }
        i += 1;
    }
    0
}

/// The times of a record, as tick counts.
pub fn get_timestamps(attributes: &Vec<RecordAttribute>, complete: bool) -> (r: TimesRead)
    ensures
        r == record_times(attribute_views(attributes@), complete),
{
    let ghost views = attribute_views(attributes@);
    let ghost wanted = |a: AttributeView| ends_time_search(a);
    let mut i: usize = 0;
    while i < attributes.len()
        invariant
            views == attribute_views(attributes@),
            wanted == (|a: AttributeView| ends_time_search(a)),
            i <= attributes@.len(),
            first_where(views, wanted, 0) == first_where(views, wanted, i as int),
        decreases attributes@.len() - i,
    {
        assert(views[i as int] == attributes@[i as int]@);
        match &attributes[i] {
            RecordAttribute::StandardInformation { times } => {
                return TimesRead::Known(*times);
            },
            RecordAttribute::UnreadableInformation => {
                return TimesRead::Unreadable;
            },
            _ => {},
        }
        i += 1;
    }
    if complete {
        TimesRead::Absent
    } else {
        TimesRead::Unreadable
    }
}

/// Decodes the attributes of one record. A record without a name gives
/// nothing and is skipped by the scan.
pub fn process_ntfs_file(
    record_number: u64,
    is_directory: bool,
    attributes: &Vec<RecordAttribute>,
    complete: bool,
) -> (r: Option<VolumeRecord>)
    ensures
        match r {
            Some(record) => decoded_record(
                record_number,
                is_directory,
                attribute_views(attributes@),
                complete,
            ) == Some(record@),
            None => decoded_record(
                record_number,
                is_directory,
                attribute_views(attributes@),
                complete,
            ) is None,
        },
{
    let k = match get_best_file_name(attributes, complete) {
        Some(k) => k,
        None => {
            return None;
        },
    };
    let times = get_timestamps(attributes, complete);
    let size = get_file_size(attributes);
    assert(attribute_views(attributes@)[k as int] == attributes@[k as int]@);
    match &attributes[k] {
        RecordAttribute::FileName { name, parent_id, .. } => Some(
            VolumeRecord {
                record_id: record_number,
                name: name.clone(),
                parent_id: *parent_id,
                is_directory,
                size,
                times,
            },
        ),
        _ => None,
    }
}

/// Converts a tick count of the volume's clock: 100-nanosecond ticks
/// since 1 January 1601. A count from before the Unix epoch gives no time.
pub fn filetime_to_datetime(nt_timestamp: u64) -> (r: Option<Timestamp>)
    ensures
        r == filetime_value(nt_timestamp),
{
    Timestamp::from_filetime(nt_timestamp)
}

/// The walk over the record numbers of a table. The numbers have gaps,
/// so the table ends only after `MAX_CONSECUTIVE_ERRORS` numbers in a row
/// without a record.
#[derive(Clone, Copy, Debug)]
pub struct TableCursor {
    /// The record number to read next.
    pub next_record: u64,
    /// How many numbers in a row had no record.
    pub consecutive_errors: u64,
    /// How many records were found.
    pub found: u64,
}

/// The cursor after the read of `next_record`: a record resets the run
/// of failures; a failure extends it.
pub open spec fn cursor_after(c: TableCursor, present: bool) -> TableCursor {
    TableCursor {
        next_record: (c.next_record + 1) as u64,
        consecutive_errors: if present {
            0
        } else {
            (c.consecutive_errors + 1) as u64
        },
        found: if present {
            (c.found + 1) as u64
        } else {
            c.found
        },
    }
}

/// Whether the walk is over: the run of failures has reached its cap,
/// or the record numbers are used up.
pub open spec fn is_finished(c: TableCursor) -> bool {
    c.consecutive_errors >= MAX_CONSECUTIVE_ERRORS || c.next_record == u64::MAX
}

impl TableCursor {
    pub open spec fn valid(self) -> bool {
        self.consecutive_errors <= self.next_record && self.found <= self.next_record
            && self.consecutive_errors <= MAX_CONSECUTIVE_ERRORS
    }

    /// The cursor before the first record.
    pub fn new() -> (r: Self)
        ensures
            r == (TableCursor { next_record: 0, consecutive_errors: 0, found: 0 }),
            r.valid(),
            !is_finished(r),
    {
        TableCursor { next_record: 0, consecutive_errors: 0, found: 0 }
    }

    pub fn finished(&self) -> (r: bool)
        ensures
            r == is_finished(*self),
    {
        self.consecutive_errors >= MAX_CONSECUTIVE_ERRORS || self.next_record == u64::MAX
    }

    /// Takes the outcome of reading `next_record` and tells whether the
    /// walk goes on.
    pub fn advance(&mut self, present: bool) -> (more: bool)
        requires
            old(self).valid(),
            !is_finished(*old(self)),
        ensures
            *final(self) == cursor_after(*old(self), present),
            final(self).valid(),
            more == !is_finished(*final(self)),
    {
        self.next_record = self.next_record + 1;
        if present {
            self.consecutive_errors = 0;
            self.found = self.found + 1;
        } else {
            self.consecutive_errors = self.consecutive_errors + 1;
        }
        !self.finished()
    }
}

/// The device path of the raw volume of `drive`: `\\.\C:` for `C`.
pub open spec fn device_path(drive: char) -> Seq<char> {
    seq!['\\', '\\', '.', '\\', drive, ':']
}

pub fn volume_device_path(drive: char) -> (r: String)
    ensures
        r@ == device_path(drive),
{
    let mut r = String::new();
    r.push('\\');
    r.push('\\');
    r.push('.');
    r.push('\\');
    r.push(drive);
    r.push(':');
    assert(r@ =~= device_path(drive));
    r
}

/// Scans the record table of one drive with sizes and times.
#[derive(Debug)]
pub struct MftReaderNtfs {
    drive_letter: char,
}

impl MftReaderNtfs {
    pub closed spec fn drive(&self) -> char {
        self.drive_letter
    }

    /// A reader for the drive `drive_letter`, which must be an ASCII
    /// letter; the reader holds it in upper case.
    pub fn new(drive_letter: char) -> (r: Result<Self, NothingError>)
        ensures
            r is Ok <==> is_ascii_letter(drive_letter),
            r matches Ok(reader) ==> reader.drive() == ascii_upper(drive_letter),
            r matches Err(e) ==> e@ == crate::error::ErrorView::InvalidDriveLetter(drive_letter),
    {
        match checked_drive_letter(drive_letter) {
            Ok(c) => Ok(MftReaderNtfs { drive_letter: c }),
            Err(e) => Err(e),
        }
    }

    pub fn drive_letter(&self) -> (r: char)
        ensures
            r == self.drive(),
    {
        self.drive_letter
    }

    /// Adds the records of the drive to `index`, files with their sizes
    /// and every record with its times: directories are resolved first,
    /// then every record becomes an entry under its parent's path.
    pub fn scan_into_index(&self, records: &Vec<VolumeRecord>, index: &mut FileIndex)
        ensures
            final(index)@ == old(index)@ + scanned_entries(
                self.drive(),
                record_views(records@),
                ScanMode::FullMetadata,
            ),
    {
        index_records(self.drive_letter, records, ScanMode::FullMetadata, index);
    }

    /// The path of the record `name` with the parent `parent_id`.
    pub fn build_path_arc(&self, name: &str, parent_id: u64, parent_map: &ParentPathMap) -> (r:
        String)
        ensures
            r@ == entry_path(self.drive(), name@, parent_id, parent_map@),
    {
        build_path(self.drive_letter, name, parent_id, parent_map)
    }

    /// The path of the directory `name` with the parent `parent_id`, from
    /// what is resolved so far.
    pub fn build_path_recursive(&self, name: &str, parent_id: u64, parent_map: &ParentPathMap) -> (r:
        String)
        ensures
            r@ == entry_path(self.drive(), name@, parent_id, parent_map@),
    {
        build_path(self.drive_letter, name, parent_id, parent_map)
    }
}

} // verus!
