//! An index of every file and directory of a volume, built from the
//! volume's record table, searched by fuzzy match and structured filters,
//! and kept current from change notifications.

pub mod calendar;
pub mod error;
pub mod export;
pub mod file_entry;
pub mod filters;
pub mod gui;
pub mod history;
pub mod index;
pub mod interactive;
pub mod metrics;
pub mod mft_reader;
pub mod mft_reader_ntfs;
pub mod multi_drive;
pub mod order_laws;
pub mod path_laws;
pub mod persistence;
pub mod path_resolution;
pub mod search;
pub mod search_laws;
pub mod sector_aligned_reader;
pub mod sizes;
pub mod text;
pub mod timestamp;
pub mod usn_monitor;
