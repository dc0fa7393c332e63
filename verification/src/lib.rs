//! Core of ferris-scan, a disk usage analyzer.
//!
//! A scan turns the entries of a directory walk into a tree of [`Node`]s with
//! their sizes, the largest first, and a report of what could not be read. The
//! tree can be browsed, exported as CSV, and parts of it can be deleted.
//!
//! The library neither reads nor writes files. The walk, the removal of entries
//! from disk and the writing of the export are done by the caller, who hands the
//! outcome over; the front ends' states tell it what to do next.
//!
//! - `path`, `node`, `tree`, `scan`: paths, the tree, how it is built, and scans.
//! - `export`: the CSV document.
//! - `trail`, `front`, `tui`, `classic`, `gui`: browsing, and the three front ends.
//! - `text`, `rows`, `treemap`: what the front ends show.
//! - `laws`: what holds across functions.

pub mod classic;
pub mod export;
pub mod front;
pub mod gui;
pub mod laws;
pub mod node;
pub mod path;
pub mod rows;
pub mod scan;
pub mod text;
pub mod trail;
pub mod tree;
pub mod treemap;
pub mod tui;

pub use crate::node::{DeleteError, Node};
pub use crate::path::{PartKind, PartText, PathPart, ScanPath};
pub use crate::scan::{
    scan_directory, scan_directory_with_report, scan_directory_with_report_shared, ScanProgress,
    ScanReport, ScanState, Scanner, SharedProgress, SkippedEntry,
};
