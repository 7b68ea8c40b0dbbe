//! The errors of volume access.

use vstd::prelude::*;
use vstd::string::StringExecFns;

verus! {

#[derive(Debug)]
pub enum NothingError {
    /// The raw volume may only be read with administrator rights.
    InsufficientPrivileges,
    /// There is no drive of this letter.
    DriveNotFound(char),
    /// A drive is named by one ASCII letter; this is none.
    InvalidDriveLetter(char),
    /// The volume could not be opened or read.
    VolumeAccessError(String),
    /// The record table could not be decoded.
    MftParseError(String),
    /// Reading or writing failed; the text is the system's.
    IoError(String),
}

pub enum ErrorView {
    InsufficientPrivileges,
    DriveNotFound(char),
    InvalidDriveLetter(char),
    VolumeAccessError(Seq<char>),
    MftParseError(Seq<char>),
    IoError(Seq<char>),
}

impl View for NothingError {
    type V = ErrorView;

    open spec fn view(&self) -> ErrorView {
        match self {
            NothingError::InsufficientPrivileges => ErrorView::InsufficientPrivileges,
            NothingError::DriveNotFound(d) => ErrorView::DriveNotFound(*d),
            NothingError::InvalidDriveLetter(d) => ErrorView::InvalidDriveLetter(*d),
            NothingError::VolumeAccessError(s) => ErrorView::VolumeAccessError(s@),
            NothingError::MftParseError(s) => ErrorView::MftParseError(s@),
            NothingError::IoError(s) => ErrorView::IoError(s@),
        }
    }
}

/// The text of an error, for the user.
pub open spec fn error_message(e: ErrorView) -> Seq<char> {
    match e {
        ErrorView::InsufficientPrivileges =>
            "Insufficient privileges. Please run as Administrator.\nRight-click PowerShell and select 'Run as Administrator'"@,
        ErrorView::DriveNotFound(d) => "Drive "@ + seq![d] + ":\\ not found"@,
        ErrorView::InvalidDriveLetter(d) => "Invalid drive letter: "@ + seq![d],
        ErrorView::VolumeAccessError(s) => "Volume access error: "@ + s,
        ErrorView::MftParseError(s) => "MFT parsing error: "@ + s,
        ErrorView::IoError(s) => "I/O error: "@ + s,
    }
}

impl NothingError {
    pub fn message(&self) -> (r: String)
        ensures
            r@ == error_message(self@),
    {
        match self {
            NothingError::InsufficientPrivileges => String::from_str(
                "Insufficient privileges. Please run as Administrator.\nRight-click PowerShell and select 'Run as Administrator'",
            ),
            NothingError::DriveNotFound(d) => {
                let mut r = String::from_str("Drive ");
                r.push(*d);
                r.append(":\\ not found");
                assert(r@ =~= "Drive "@ + seq![*d] + ":\\ not found"@);
                r
            },
            NothingError::InvalidDriveLetter(d) => {
                let mut r = String::from_str("Invalid drive letter: ");
                r.push(*d);
                assert(r@ =~= "Invalid drive letter: "@ + seq![*d]);
                r
            },
            NothingError::VolumeAccessError(s) => {
                let mut r = String::from_str("Volume access error: ");
                r.append(s.as_str());
                r
            },
            NothingError::MftParseError(s) => {
                let mut r = String::from_str("MFT parsing error: ");
                r.append(s.as_str());
                r
            },
            NothingError::IoError(s) => {
                let mut r = String::from_str("I/O error: ");
                r.append(s.as_str());
                r
            },
        }
    }
}

} // verus!
