//! The state of the plain terminal front end, which only lists the results.

use vstd::prelude::*;

use crate::export::document;
use crate::front::{
    export_message, export_note, scan_failed_message, scan_fault, scan_panicked_message,
    Edition, ExportOutcome, ExportView, Key, OutcomeView, Request, ScanOutcome,
};
use crate::node::NodeView;
use crate::scan::{Scanner, SkippedView};
use crate::text::text_view;
use crate::tui::{pro_only, AppState};

verus! {

/// The plain terminal front end.
#[derive(Debug)]
pub struct App {
    pub state: AppState,
    pub should_quit: bool,
    pub popup_message: Option<String>,
}

/// The mathematical value of an `App`.
#[verifier::ext_equal]
pub struct ListerView {
    pub results: Option<(NodeView, Seq<SkippedView>)>,
    pub should_quit: bool,
    pub popup_message: Option<Seq<char>>,
}

impl View for App {
    type V = ListerView;

    open spec fn view(&self) -> ListerView {
        ListerView {
            results: match self.state {
                AppState::Scanning => None,
                AppState::ViewingResults(root, report) => Some((root@, report@)),
            },
            should_quit: self.should_quit,
            popup_message: text_view(self.popup_message),
        }
    }
}

/// The front end with a message on display.
pub open spec fn saying(app: ListerView, message: Seq<char>) -> ListerView {
    ListerView { popup_message: Some(message), ..app }
}

/// The front end after the scan in the background has ended. Results that are
/// on display stay.
pub open spec fn after_scan(app: ListerView, outcome: OutcomeView) -> ListerView {
    if app.results is Some {
        app
    } else {
        match outcome {
            OutcomeView::Finished(root, skipped) => ListerView {
                results: Some((root, skipped)),
                ..app
            },
            _ => saying(app, scan_fault(outcome)),
        }
    }
}

/// The front end after a key was pressed. An open message takes every key.
pub open spec fn pressed(app: ListerView, key: Key) -> ListerView {
    if app.popup_message is Some {
        ListerView { popup_message: None, ..app }
    } else if key == Key::Char('q') || key == Key::Esc {
        ListerView { should_quit: true, ..app }
    } else {
        app
    }
}

/// What a key asks to be done outside.
pub open spec fn requested(app: ListerView, key: Key) -> Request {
    if app.popup_message is None && key == Key::Char('e') {
        Request::Export
    } else {
        Request::Nothing
    }
}

/// The message after an export was asked for.
pub open spec fn export_reply(app: ListerView, edition: Edition, outcome: ExportView) -> Seq<
    char,
> {
    match edition {
        Edition::Pro => if app.results is Some {
            export_note("✓"@, "✗"@, outcome)
        } else {
            "Please wait for scan to complete first."@
        },
        Edition::Free => pro_only(),
    }
}

impl App {
    /// The front end while the scan is running.
    pub fn new() -> (r: Self)
        ensures
            r@ == (ListerView { results: None, should_quit: false, popup_message: None }),
    {
        App { state: AppState::Scanning, should_quit: false, popup_message: None }
    }

    /// Shows a message.
    pub fn show_popup(&mut self, message: String)
        ensures
            final(self)@ == saying(old(self)@, message@),
    {
        self.popup_message = Some(message);
    }

    /// Closes the message.
    pub fn close_popup(&mut self)
        ensures
            final(self)@ == (ListerView { popup_message: None, ..old(self)@ }),
    {
        self.popup_message = None;
    }

    /// Takes in how the scan in the background has ended.
    pub fn scan_finished(&mut self, outcome: ScanOutcome)
        ensures
            final(self)@ == after_scan(old(self)@, outcome@),
    {
        if let AppState::ViewingResults(_, _) = self.state {
            return;
        }
        match outcome {
            ScanOutcome::Finished(root, report) => {
                self.state = AppState::ViewingResults(root, report);
            },
            ScanOutcome::Failed(message) => {
                self.show_popup(scan_failed_message(&message));
            },
            ScanOutcome::Panicked => {
                self.show_popup(scan_panicked_message());
            },
        }
    }

    /// The document to write to a file when an export is asked for.
    pub fn export_document(&self, edition: Edition) -> (r: Option<Vec<u8>>)
        ensures
            match self@.results {
                Some((root, skipped)) => if edition == Edition::Pro {
                    r matches Some(bytes) && bytes@ == document(root)
                } else {
                    r is None
                },
                None => r is None,
            },
    {
        match &self.state {
            AppState::ViewingResults(root, _) => {
                if edition == Edition::Pro {
                    let scanner = Scanner::new();
                    Some(scanner.export_csv(root))
                } else {
                    None
                }
            },
            AppState::Scanning => None,
        }
    }

    /// Says how the export went, or why there is none.
    pub fn handle_export(&mut self, edition: Edition, outcome: &ExportOutcome)
        ensures
            final(self)@ == saying(old(self)@, export_reply(old(self)@, edition, outcome@)),
    {
        let message = match edition {
            Edition::Pro => match &self.state {
                AppState::ViewingResults(_, _) => export_message("✓", "✗", outcome),
                AppState::Scanning => "Please wait for scan to complete first.".to_owned(),
            },
            Edition::Free => "⚠ This is a Pro Feature\n\nCSV Export is only available in ferris-scan Pro.\n\nBuild with: cargo build --release --features pro".to_owned(),
        };
        self.show_popup(message);
    }

    /// Takes in a key that was pressed, and says what is to be done outside.
    pub fn press(&mut self, key: Key) -> (r: Request)
        ensures
            final(self)@ == pressed(old(self)@, key),
            r == requested(old(self)@, key),
    {
        if self.popup_message.is_some() {
            self.close_popup();
            return Request::Nothing;
        }
        match key {
            Key::Char('q') | Key::Esc => {
                self.should_quit = true;
            },
            Key::Char('e') => {
                return Request::Export;
            },
            _ => {},
        }
        Request::Nothing
    }
}

} // verus!
