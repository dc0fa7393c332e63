//! What the front ends have in common: keys, outcomes of work done elsewhere,
//! messages and statistics.

use vstd::prelude::*;
use vstd::string::StringExecFns;

use crate::node::{Node, NodeView};
use crate::scan::{ScanReport, SkippedView};
use crate::text::{decimal, decimal_text, format_size, size_text};

verus! {

/// The edition of the program.
#[derive(Debug, Clone, Copy, PartialEq, Eq, Structural)]
pub enum Edition {
    /// Scanning and browsing.
    Free,
    /// Scanning, browsing and CSV export.
    Pro,
}

/// A key that was pressed.
#[derive(Debug, Clone, Copy, PartialEq, Eq, Structural)]
pub enum Key {
    Char(char),
    Enter,
    Esc,
    Backspace,
    Up,
    Down,
    Other,
}

/// What a front end is asked to do outside after a key was pressed.
#[derive(Debug, Clone, Copy, PartialEq, Eq, Structural)]
pub enum Request {
    /// Nothing.
    Nothing,
    /// Remove the entry that is up for deletion from disk.
    Delete,
    /// Write the CSV export to a file.
    Export,
}

/// How a scan in the background ended.
#[derive(Debug)]
pub enum ScanOutcome {
    Finished(Node, ScanReport),
    Failed(String),
    Panicked,
}

/// The mathematical value of a `ScanOutcome`.
#[verifier::ext_equal]
pub enum OutcomeView {
    Finished(NodeView, Seq<SkippedView>),
    Failed(Seq<char>),
    Panicked,
}

impl View for ScanOutcome {
    type V = OutcomeView;

    open spec fn view(&self) -> OutcomeView {
        match *self {
            ScanOutcome::Finished(root, report) => OutcomeView::Finished(root@, report@),
            ScanOutcome::Failed(message) => OutcomeView::Failed(message@),
            ScanOutcome::Panicked => OutcomeView::Panicked,
        }
    }
}

/// How writing the export to a file ended.
#[derive(Debug)]
pub enum ExportOutcome {
    /// It stands in the file that is shown under this path.
    Saved(String),
    /// It could not be written.
    Failed(String),
}

/// The mathematical value of an `ExportOutcome`.
#[verifier::ext_equal]
pub enum ExportView {
    Saved(Seq<char>),
    Failed(Seq<char>),
}

impl View for ExportOutcome {
    type V = ExportView;

    open spec fn view(&self) -> ExportView {
        match *self {
            ExportOutcome::Saved(shown) => ExportView::Saved(shown@),
            ExportOutcome::Failed(message) => ExportView::Failed(message@),
        }
    }
}

/// The message about a scan that did not finish.
pub open spec fn scan_fault(outcome: OutcomeView) -> Seq<char> {
    match outcome {
        OutcomeView::Failed(message) => "Scan error: "@ + message,
        _ => "Internal error: scan thread panicked"@,
    }
}

/// The message about an export, with a mark of its own for success and for failure.
pub open spec fn export_note(good: Seq<char>, bad: Seq<char>, outcome: ExportView) -> Seq<char> {
    match outcome {
        ExportView::Saved(shown) => good + " Export successful!\n\nSaved to:\n"@ + shown,
        ExportView::Failed(message) => bad + " Export failed:\n"@ + message,
    }
}

/// The tag that a front end shows for its edition.
pub open spec fn tag_of(edition: Edition) -> Seq<char> {
    match edition {
        Edition::Pro => "[PRO]"@,
        Edition::Free => "[FREE]"@,
    }
}

/// The tag that a front end shows for its edition.
pub fn edition_tag(edition: Edition) -> (r: &'static str)
    ensures
        r@ == tag_of(edition),
{
    match edition {
        Edition::Pro => "[PRO]",
        Edition::Free => "[FREE]",
    }
}

/// The message about a scan that failed.
pub fn scan_failed_message(message: &String) -> (r: String)
    ensures
        r@ == scan_fault(OutcomeView::Failed(message@)),
{
    "Scan error: ".to_owned().concat(message.as_str())
}

/// The message about a scan whose thread panicked.
pub fn scan_panicked_message() -> (r: String)
    ensures
        r@ == scan_fault(OutcomeView::Panicked),
{
    "Internal error: scan thread panicked".to_owned()
}

/// The message about an export, marked with `good` or `bad`.
pub fn export_message(good: &str, bad: &str, outcome: &ExportOutcome) -> (r: String)
    ensures
        r@ == export_note(good@, bad@, outcome@),
{
    match outcome {
        ExportOutcome::Saved(shown) => good.to_owned().concat(
            " Export successful!\n\nSaved to:\n",
        ).concat(shown.as_str()),
        ExportOutcome::Failed(message) => bad.to_owned().concat(" Export failed:\n").concat(
            message.as_str(),
        ),
    }
}

/// The figures about a scan and the directory that is being looked at.
#[derive(Debug)]
pub struct Stats {
    pub total_size: String,
    pub skipped: String,
    pub name: String,
    pub size: String,
    pub items: String,
}

/// The mathematical value of `Stats`.
#[verifier::ext_equal]
pub struct StatsView {
    pub total_size: Seq<char>,
    pub skipped: Seq<char>,
    pub name: Seq<char>,
    pub size: Seq<char>,
    pub items: Seq<char>,
}

impl View for Stats {
    type V = StatsView;

    open spec fn view(&self) -> StatsView {
        StatsView {
            total_size: self.total_size@,
            skipped: self.skipped@,
            name: self.name@,
            size: self.size@,
            items: self.items@,
        }
    }
}

/// The figures for a scanned tree, its report and the current directory.
pub open spec fn stats_of(
    root: NodeView,
    report: Seq<SkippedView>,
    current: NodeView,
) -> StatsView {
    StatsView {
        total_size: size_text(root.size as nat),
        skipped: decimal(report.len()) + " entries"@,
        name: current.name,
        size: size_text(current.size as nat),
        items: decimal(current.children.len()),
    }
}

/// The figures for a scanned tree, its report and the current directory.
pub fn stats(root: &Node, report: &ScanReport, current: &Node) -> (r: Stats)
    ensures
        r@ == stats_of(root@, report@, current@),
{
    Stats {
        total_size: format_size(root.size),
        skipped: decimal_text(report.skipped.len() as u64).concat(" entries"),
        name: current.name.clone(),
        size: format_size(current.size),
        items: decimal_text(current.children.len() as u64),
    }
}

} // verus!
