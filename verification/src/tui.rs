//! The state of the terminal front end, and how keys and finished work change it.

use vstd::prelude::*;
use vstd::string::StringExecFns;

use crate::export::document;
use crate::front::{
    export_message, export_note, scan_failed_message, scan_fault, scan_panicked_message,
    Edition, ExportOutcome, ExportView, Key, OutcomeView, Request, ScanOutcome,
};
use crate::node::{
    deleted, lemma_children_view, locate, node_at, views, DeleteError, Node, NodeView,
};
use crate::path::{file_name_of, PartView, ScanPath};
use crate::scan::{path_view, ScanReport, Scanner, SkippedView};
use crate::text::text_view;
use crate::trail::{breadcrumb_of, crumbs, find_way, way_to};

verus! {

/// Where the user is in the tree.
#[derive(Debug)]
pub struct NavigationState {
    /// The nodes from the root to the current directory.
    pub path: Vec<Node>,
    /// The index of the selected item.
    pub selected: usize,
}

/// The mathematical value of a `NavigationState`.
#[verifier::ext_equal]
pub struct NavView {
    pub path: Seq<NodeView>,
    pub selected: usize,
}

impl View for NavigationState {
    type V = NavView;

    open spec fn view(&self) -> NavView {
        NavView { path: views(self.path@), selected: self.selected }
    }
}

/// The navigation at the root of a tree.
pub open spec fn at_root(root: NodeView) -> NavView {
    NavView { path: seq![root], selected: 0 }
}

/// Whether the item `index` of the current directory is a directory.
pub open spec fn can_open(nav: NavView, index: int) -> bool {
    0 <= index < nav.path.last().children.len() && nav.path.last().children[index].is_dir
}

/// The navigation after opening the item `index`.
pub open spec fn opened(nav: NavView, index: int) -> NavView {
    if can_open(nav, index) {
        NavView { path: nav.path.push(nav.path.last().children[index]), selected: 0 }
    } else {
        nav
    }
}

/// The navigation after going up to the parent directory.
pub open spec fn gone_up(nav: NavView) -> NavView {
    if nav.path.len() > 1 {
        NavView { path: nav.path.drop_last(), selected: 0 }
    } else {
        nav
    }
}

/// The navigation to the same directory in another tree.
pub open spec fn rebuilt(nav: NavView, root: NodeView) -> NavView {
    if nav.path.len() == 0 {
        at_root(root)
    } else {
        NavView { path: way_to(root, nav.path.last().path), selected: 0 }
    }
}

impl NavigationState {
    /// Starts at the root of a tree.
    pub fn new(root: Node) -> (r: Self)
        ensures
            r@ == at_root(root@),
    {
        let ghost root_view = root@;
        let mut path: Vec<Node> = Vec::new();
        path.push(root);
        assert(views(path@) =~= seq![root_view]);
        NavigationState { path, selected: 0 }
    }

    /// The directory that is being looked at.
    pub fn current(&self) -> (r: &Node)
        requires
            self.path@.len() > 0,
        ensures
            r@ == self@.path.last(),
    {
        &self.path[self.path.len() - 1]
    }

    /// The names from the root to the current directory.
    pub fn breadcrumb(&self) -> (r: String)
        ensures
            r@ == crumbs(self@.path),
    {
        breadcrumb_of(&self.path)
    }

    /// Opens the child directory `index`; returns whether there is one.
    pub fn drill_down(&mut self, index: usize) -> (r: bool)
        requires
            old(self).path@.len() > 0,
        ensures
            r == can_open(old(self)@, index as int),
            final(self)@ == opened(old(self)@, index as int),
    {
        broadcast use lemma_children_view;

        let ghost before = *self;
        let current = self.current();
        if index < current.children.len() && current.children[index].is_dir {
            let child = current.children[index].clone();
            let ghost child_view = child@;
            self.path.push(child);
            self.selected = 0;
            assert(views(self.path@) =~= before@.path.push(child_view));
            return true;
        }
        false
    }

    /// Goes up to the parent directory; returns whether there is one.
    pub fn drill_up(&mut self) -> (r: bool)
        ensures
            r == (old(self)@.path.len() > 1),
            final(self)@ == gone_up(old(self)@),
    {
        let ghost before = *self;
        if self.path.len() > 1 {
            let _left = self.path.pop();
            self.selected = 0;
            assert(views(self.path@) =~= before@.path.drop_last());
            return true;
        }
        false
    }

    /// Goes to the same directory in a tree that has changed, or to its root
    /// where the directory is gone.
    pub fn rebuild_from_root(&mut self, root: &Node)
        ensures
            final(self)@ == rebuilt(old(self)@, root@),
    {
        let n = self.path.len();
        if n == 0 {
            self.path.push(root.clone());
            self.selected = 0;
            assert(views(self.path@) =~= seq![root@]);
            return;
        }
        let way = find_way(root, &self.path[n - 1].path);
        self.path = way;
        self.selected = 0;
    }
}

/// Whether the scan is still running or its results are on display.
#[derive(Debug)]
pub enum AppState {
    Scanning,
    ViewingResults(Node, ScanReport),
}

/// The terminal front end.
#[derive(Debug)]
pub struct App {
    pub state: AppState,
    pub should_quit: bool,
    pub popup_message: Option<String>,
    pub navigation: Option<NavigationState>,
    /// The highlighted line of the list.
    pub list_selected: Option<usize>,
    pub show_delete_modal: bool,
    pub pending_deletion: Option<ScanPath>,
}

/// The mathematical value of an `App`.
#[verifier::ext_equal]
pub struct AppView {
    pub results: Option<(NodeView, Seq<SkippedView>)>,
    pub should_quit: bool,
    pub popup_message: Option<Seq<char>>,
    pub navigation: Option<NavView>,
    pub list_selected: Option<usize>,
    pub show_delete_modal: bool,
    pub pending_deletion: Option<Seq<PartView>>,
}

/// The value of a navigation that may be missing.
pub open spec fn nav_view(navigation: Option<NavigationState>) -> Option<NavView> {
    match navigation {
        Some(nav) => Some(nav@),
        None => None,
    }
}

impl View for App {
    type V = AppView;

    open spec fn view(&self) -> AppView {
        AppView {
            results: match self.state {
                AppState::Scanning => None,
                AppState::ViewingResults(root, report) => Some((root@, report@)),
            },
            should_quit: self.should_quit,
            popup_message: text_view(self.popup_message),
            navigation: nav_view(self.navigation),
            list_selected: self.list_selected,
            show_delete_modal: self.show_delete_modal,
            pending_deletion: path_view(self.pending_deletion),
        }
    }
}

/// Whether the user is somewhere in the tree whenever there is one to browse.
pub open spec fn sound(app: AppView) -> bool {
    app.navigation matches Some(nav) ==> nav.path.len() > 0
}

/// The front end with a message on display.
pub open spec fn saying(app: AppView, message: Seq<char>) -> AppView {
    AppView { popup_message: Some(message), ..app }
}

/// The front end after the scan in the background has ended. Results that are
/// on display stay.
pub open spec fn after_scan(app: AppView, outcome: OutcomeView) -> AppView {
    if app.results is Some {
        app
    } else {
        match outcome {
            OutcomeView::Finished(root, skipped) => AppView {
                results: Some((root, skipped)),
                navigation: Some(at_root(root)),
                list_selected: Some(0),
                ..app
            },
            _ => saying(app, scan_fault(outcome)),
        }
    }
}

/// The item that is highlighted in the current directory.
pub open spec fn highlighted(app: AppView) -> Option<NodeView> {
    match (app.navigation, app.list_selected) {
        (Some(nav), Some(i)) => if i < nav.path.last().children.len() {
            Some(nav.path.last().children[i as int])
        } else {
            None
        },
        _ => None,
    }
}

/// The front end after a deletion was asked for: the highlighted item is up for
/// deletion and has to be confirmed.
pub open spec fn asked_to_delete(app: AppView) -> AppView {
    match highlighted(app) {
        Some(item) => if app.results is Some {
            AppView { pending_deletion: Some(item.path), show_delete_modal: true, ..app }
        } else {
            app
        },
        None => app,
    }
}

/// The front end after a deletion was called off.
pub open spec fn called_off(app: AppView) -> AppView {
    AppView { pending_deletion: None, show_delete_modal: false, ..app }
}

/// The front end after going up and back to the first line.
pub open spec fn stepped_up(app: AppView) -> AppView {
    match app.navigation {
        Some(nav) => AppView { navigation: Some(gone_up(nav)), list_selected: Some(0), ..app },
        None => app,
    }
}

/// The front end after opening the highlighted item.
pub open spec fn stepped_down(app: AppView) -> AppView {
    match (app.navigation, app.list_selected) {
        (Some(nav), Some(i)) => if can_open(nav, i as int) {
            AppView {
                navigation: Some(opened(nav, i as int)),
                list_selected: Some(0),
                ..app
            }
        } else {
            app
        },
        _ => app,
    }
}

/// The line before `line` of `n` lines; the last one before the first.
pub open spec fn line_before(line: int, n: int) -> int {
    if line > 0 {
        line - 1
    } else {
        n - 1
    }
}

/// The line after `line` of `n` lines; the first one after the last.
pub open spec fn line_after(line: int, n: int) -> int {
    if line < n - 1 {
        line + 1
    } else {
        0
    }
}

/// The highlighted line, or the first where none is.
pub open spec fn line_or_first(line: Option<usize>) -> int {
    match line {
        Some(i) => i as int,
        None => 0,
    }
}

/// The front end after the highlight was moved up or down.
pub open spec fn moved(app: AppView, down: bool) -> AppView {
    match app.navigation {
        Some(nav) => {
            let n = nav.path.last().children.len() as int;
            let line = line_or_first(app.list_selected);
            if n == 0 {
                app
            } else if down {
                AppView { list_selected: Some(line_after(line, n) as usize), ..app }
            } else {
                AppView { list_selected: Some(line_before(line, n) as usize), ..app }
            }
        },
        None => app,
    }
}

/// The front end after Esc: up one directory, and out of the program at the root.
pub open spec fn backed_out(app: AppView) -> AppView {
    match app.navigation {
        Some(nav) => if nav.path.len() > 1 {
            stepped_up(app)
        } else {
            AppView { should_quit: true, ..app }
        },
        None => AppView { should_quit: true, ..app },
    }
}

/// The front end after a key that no dialog catches.
pub open spec fn browsed(app: AppView, key: Key) -> AppView {
    match key {
        Key::Char('q') => AppView { should_quit: true, ..app },
        Key::Esc => backed_out(app),
        Key::Char('d') => asked_to_delete(app),
        Key::Enter | Key::Char('l') => stepped_down(app),
        Key::Backspace | Key::Char('h') => stepped_up(app),
        Key::Up | Key::Char('k') => moved(app, false),
        Key::Down | Key::Char('j') => moved(app, true),
        _ => app,
    }
}

/// The front end after a key was pressed. An open confirmation dialog takes
/// every key, and after that an open message does.
pub open spec fn pressed(app: AppView, key: Key) -> AppView {
    if app.show_delete_modal {
        match key {
            Key::Char('n') | Key::Esc => called_off(app),
            _ => app,
        }
    } else if app.popup_message is Some {
        AppView { popup_message: None, ..app }
    } else {
        browsed(app, key)
    }
}

/// What a key asks to be done outside.
pub open spec fn requested(app: AppView, key: Key) -> Request {
    if app.show_delete_modal {
        match key {
            Key::Char('y') | Key::Enter => Request::Delete,
            _ => Request::Nothing,
        }
    } else if app.popup_message is Some {
        Request::Nothing
    } else {
        match key {
            Key::Char('e') => Request::Export,
            _ => Request::Nothing,
        }
    }
}

/// The highlight after a directory of `n` items has changed: it stays on the list.
pub open spec fn kept_on_list(line: Option<usize>, n: nat) -> Option<usize> {
    match line {
        Some(i) => if n == 0 {
            None
        } else if i >= n {
            Some((n - 1) as usize)
        } else {
            line
        },
        None => None,
    }
}

/// The navigation after the node at `path` was deleted, which left the tree `root`.
pub open spec fn nav_after_deletion(nav: NavView, path: Seq<PartView>, root: NodeView) -> NavView {
    rebuilt(
        if nav.path.last().path == path {
            gone_up(nav)
        } else {
            nav
        },
        root,
    )
}

/// The message about a deletion that failed.
pub open spec fn deletion_fault(found: bool, disk: Result<(), Seq<char>>, shown: Seq<char>) -> Seq<
    char,
> {
    if !found {
        "✗ Deletion failed: "@ + ("Node not found: "@ + shown)
    } else {
        match disk {
            Ok(()) => Seq::empty(),
            Err(message) => "✗ Deletion failed: "@ + message,
        }
    }
}

/// The front end after a deletion was confirmed and its entry was to be removed
/// from disk with the outcome `disk`; `shown` is how the path is displayed.
pub open spec fn after_deletion(
    app: AppView,
    disk: Result<(), Seq<char>>,
    shown: Seq<char>,
) -> AppView {
    let settled = called_off(app);
    match (app.pending_deletion, app.results) {
        (Some(path), Some((root, skipped))) => {
            let found = locate(root, path) is Some;
            if found && disk is Ok {
                let left = deleted(root, path, true);
                let navigation = match app.navigation {
                    Some(nav) => Some(nav_after_deletion(nav, path, left)),
                    None => None,
                };
                AppView {
                    results: Some((left, skipped)),
                    navigation,
                    list_selected: match navigation {
                        Some(nav) => kept_on_list(
                            app.list_selected,
                            nav.path.last().children.len(),
                        ),
                        None => app.list_selected,
                    },
                    popup_message: Some("✓ Successfully deleted: "@ + shown),
                    ..settled
                }
            } else {
                saying(settled, deletion_fault(found, disk, shown))
            }
        },
        _ => settled,
    }
}

/// The outcome of work on disk, with its message as text.
pub open spec fn disk_view(disk: Result<(), String>) -> Result<(), Seq<char>> {
    match disk {
        Ok(()) => Ok(()),
        Err(message) => Err(message@),
    }
}

/// What the free edition says when asked for an export.
pub open spec fn pro_only() -> Seq<char> {
    "⚠ This is a Pro Feature\n\nCSV Export is only available in ferris-scan Pro.\n\nBuild with: cargo build --release --features pro"@
}

/// The message after an export was asked for.
pub open spec fn export_reply(app: AppView, edition: Edition, outcome: ExportView) -> Seq<char> {
    match edition {
        Edition::Pro => if app.results is Some {
            export_note("✓"@, "✗"@, outcome)
        } else {
            "Please wait for scan to complete first."@
        },
        Edition::Free => pro_only(),
    }
}

/// The names from the root to the current directory, or `Root` before there is one.
pub open spec fn location_of(app: AppView) -> Seq<char> {
    match app.navigation {
        Some(nav) => crumbs(nav.path),
        None => "Root"@,
    }
}

/// The directory on display: the one that was navigated to, or else the root.
pub open spec fn displayed(app: AppView) -> Option<NodeView> {
    match (app.results, app.navigation) {
        (Some((root, skipped)), Some(nav)) => Some(nav.path.last()),
        (Some((root, skipped)), None) => Some(root),
        (None, _) => None,
    }
}

/// The question whether to delete what is called `name`.
pub open spec fn question_of(name: Seq<char>) -> Seq<char> {
    "Are you sure you want to delete\n"@ + name
        + "\n\nThis cannot be undone.\n\n[y/Enter] Confirm  [n/Esc] Cancel"@
}

/// What the confirmation dialog asks, where it is open. It calls the item by its
/// file name, or by `shown` where it has none.
pub open spec fn asked(app: AppView, shown: Seq<char>) -> Option<Seq<char>> {
    match app.pending_deletion {
        Some(path) => if app.show_delete_modal {
            Some(
                question_of(
                    match file_name_of(path) {
                        Some(name) => name,
                        None => shown,
                    },
                ),
            )
        } else {
            None
        },
        None => None,
    }
}

/// An entry that is to be removed from disk.
#[derive(Debug)]
pub struct DeletionTask {
    pub path: ScanPath,
    pub is_dir: bool,
}

impl App {
    /// The front end while the scan is running.
    pub fn new() -> (r: Self)
        ensures
            r@ == (AppView {
                results: None,
                should_quit: false,
                popup_message: None,
                navigation: None,
                list_selected: None,
                show_delete_modal: false,
                pending_deletion: None,
            }),
    {
        App {
            state: AppState::Scanning,
            should_quit: false,
            popup_message: None,
            navigation: None,
            list_selected: None,
            show_delete_modal: false,
            pending_deletion: None,
        }
    }

    /// Shows a message.
    pub fn show_popup(&mut self, message: String)
        ensures
            final(self)@ == saying(old(self)@, message@),
    {
        self.popup_message = Some(message);
    }

    /// Closes the message.
    pub fn close_popup(&mut self)
        ensures
            final(self)@ == (AppView { popup_message: None, ..old(self)@ }),
    {
        self.popup_message = None;
    }

    /// Takes in how the scan in the background has ended.
    pub fn scan_finished(&mut self, outcome: ScanOutcome)
        ensures
            final(self)@ == after_scan(old(self)@, outcome@),
            sound(old(self)@) ==> sound(final(self)@),
    {
        if let AppState::ViewingResults(_, _) = self.state {
            return;
        }
        match outcome {
            ScanOutcome::Finished(root, report) => {
                self.state = AppState::ViewingResults(root.clone(), report);
                self.navigation = Some(NavigationState::new(root));
                self.list_selected = Some(0);
            },
            ScanOutcome::Failed(message) => {
                self.show_popup(scan_failed_message(&message));
            },
            ScanOutcome::Panicked => {
                self.show_popup(scan_panicked_message());
            },
        }
    }

    /// Puts the highlighted item up for deletion.
    pub fn handle_delete(&mut self)
        requires
            sound(old(self)@),
        ensures
            final(self)@ == asked_to_delete(old(self)@),
    {
        broadcast use lemma_children_view;

        if let AppState::Scanning = self.state {
            return;
        }
        let mut target: Option<ScanPath> = None;
        if let Some(nav) = &self.navigation {
            if let Some(i) = self.list_selected {
                let current = nav.current();
                if i < current.children.len() {
                    target = Some(current.children[i].path.clone());
                }
            }
        }
        if target.is_some() {
            self.pending_deletion = target;
            self.show_delete_modal = true;
        }
    }

    /// The entry that has to be removed from disk once the deletion is confirmed.
    pub fn deletion_task(&self) -> (r: Option<DeletionTask>)
        ensures
            match (self@.pending_deletion, self@.results) {
                (Some(path), Some((root, skipped))) => match locate(root, path) {
                    Some(trail) => r matches Some(task) && task.path@ == path && task.is_dir
                        == node_at(root, trail).is_dir,
                    None => r is None,
                },
                _ => r is None,
            },
    {
        match (&self.pending_deletion, &self.state) {
            (Some(path), AppState::ViewingResults(root, _)) => match root.deletion_kind(path) {
                Some(is_dir) => Some(DeletionTask { path: path.clone(), is_dir }),
                None => None,
            },
            _ => None,
        }
    }

    /// Completes a deletion that was confirmed, after its entry was to be removed
    /// from disk. `shown` is how the path is displayed.
    pub fn confirm_deletion(&mut self, disk: Result<(), String>, shown: &str)
        requires
            sound(old(self)@),
        ensures
            final(self)@ == after_deletion(old(self)@, disk_view(disk), shown@),
            sound(final(self)@),
    {
        broadcast use lemma_children_view;

        let pending = self.pending_deletion.take();
        self.show_delete_modal = false;
        let path = match pending {
            Some(path) => path,
            None => {
                return;
            },
        };
        let mut reply: Option<String> = None;
        if let AppState::ViewingResults(root, _) = &mut self.state {
            match root.delete_node(&path, disk) {
                Ok(()) => {
                    if let Some(nav) = &mut self.navigation {
                        if nav.current().path.same(&path) {
                            let _up = nav.drill_up();
                        }
                        nav.rebuild_from_root(root);
                        let n = nav.current().children.len();
                        if let Some(i) = self.list_selected {
                            if n == 0 {
                                self.list_selected = None;
                            } else if i >= n {
                                self.list_selected = Some(n - 1);
                            }
                        }
                    }
                    reply = Some("✓ Successfully deleted: ".to_owned().concat(shown));
                },
                Err(DeleteError::NotFound(_)) => {
                    let what = "Node not found: ".to_owned().concat(shown);
                    reply = Some("✗ Deletion failed: ".to_owned().concat(what.as_str()));
                },
                Err(DeleteError::Disk(message)) => {
                    reply = Some("✗ Deletion failed: ".to_owned().concat(message.as_str()));
                },
            }
        }
        if let Some(message) = reply {
            self.show_popup(message);
        }
    }

    /// Calls the deletion off.
    pub fn cancel_deletion(&mut self)
        ensures
            final(self)@ == called_off(old(self)@),
    {
        self.pending_deletion = None;
        self.show_delete_modal = false;
    }

    /// The document to write to a file when an export is asked for.
    pub fn export_document(&self, edition: Edition) -> (r: Option<Vec<u8>>)
        ensures
            match self@.results {
                Some((root, skipped)) => if edition == Edition::Pro {
                    r matches Some(bytes) && bytes@ == document(root)
                } else {
                    r is None
                },
                None => r is None,
            },
    {
        match &self.state {
            AppState::ViewingResults(root, _) => {
                if edition == Edition::Pro {
                    let scanner = Scanner::new();
                    Some(scanner.export_csv(root))
                } else {
                    None
                }
            },
            AppState::Scanning => None,
        }
    }

    /// Says how the export went, or why there is none.
    pub fn handle_export(&mut self, edition: Edition, outcome: &ExportOutcome)
        ensures
            final(self)@ == saying(old(self)@, export_reply(old(self)@, edition, outcome@)),
    {
        let message = match edition {
            Edition::Pro => match &self.state {
                AppState::ViewingResults(_, _) => export_message("✓", "✗", outcome),
                AppState::Scanning => "Please wait for scan to complete first.".to_owned(),
            },
            Edition::Free => "⚠ This is a Pro Feature\n\nCSV Export is only available in ferris-scan Pro.\n\nBuild with: cargo build --release --features pro".to_owned(),
        };
        self.show_popup(message);
    }

    /// Goes up one directory and back to the first line.
    fn step_up(&mut self)
        ensures
            final(self)@ == stepped_up(old(self)@),
    {
        if let Some(nav) = &mut self.navigation {
            let _up = nav.drill_up();
            self.list_selected = Some(0);
        }
    }

    /// Opens the highlighted item.
    fn step_down(&mut self)
        requires
            sound(old(self)@),
        ensures
            final(self)@ == stepped_down(old(self)@),
    {
        if let Some(nav) = &mut self.navigation {
            if let Some(i) = self.list_selected {
                if nav.drill_down(i) {
                    self.list_selected = Some(0);
                }
            }
        }
    }

    /// Moves the highlight by one line, around the ends of the list.
    fn move_highlight(&mut self, down: bool)
        requires
            sound(old(self)@),
        ensures
            final(self)@ == moved(old(self)@, down),
    {
        broadcast use lemma_children_view;

        if let Some(nav) = &self.navigation {
            let n = nav.current().children.len();
            if n > 0 {
                let line: usize = match self.list_selected {
                    Some(i) => i,
                    None => 0,
                };
                let next: usize = if down {
                    if line < n - 1 {
                        line + 1
                    } else {
                        0
                    }
                } else if line > 0 {
                    line - 1
                } else {
                    n - 1
                };
                self.list_selected = Some(next);
            }
        }
    }

    /// Goes up one directory, or quits at the root.
    fn back_out(&mut self)
        ensures
            final(self)@ == backed_out(old(self)@),
    {
        let mut above = false;
        if let Some(nav) = &self.navigation {
            above = nav.path.len() > 1;
        }
        if above {
            self.step_up();
        } else {
            self.should_quit = true;
        }
    }

    /// Takes in a key that was pressed, and says what is to be done outside.
    pub fn press(&mut self, key: Key) -> (r: Request)
        requires
            sound(old(self)@),
        ensures
            final(self)@ == pressed(old(self)@, key),
            r == requested(old(self)@, key),
            sound(final(self)@),
    {
        if self.show_delete_modal {
            match key {
                Key::Char('y') | Key::Enter => {
                    return Request::Delete;
                },
                Key::Char('n') | Key::Esc => {
                    self.cancel_deletion();
                },
                _ => {},
            }
            return Request::Nothing;
        }
        if self.popup_message.is_some() {
            self.close_popup();
            return Request::Nothing;
        }
        match key {
            Key::Char('q') => {
                self.should_quit = true;
            },
            Key::Esc => {
                self.back_out();
            },
            Key::Char('e') => {
                return Request::Export;
            },
            Key::Char('d') => {
                self.handle_delete();
            },
            Key::Enter | Key::Char('l') => {
                self.step_down();
            },
            Key::Backspace | Key::Char('h') => {
                self.step_up();
            },
            Key::Up | Key::Char('k') => {
                self.move_highlight(false);
            },
            Key::Down | Key::Char('j') => {
                self.move_highlight(true);
            },
            _ => {},
        }
        Request::Nothing
    }

    /// The names from the root to the current directory.
    pub fn location(&self) -> (r: String)
        ensures
            r@ == location_of(self@),
    {
        match &self.navigation {
            Some(nav) => nav.breadcrumb(),
            None => "Root".to_owned(),
        }
    }

    /// The directory on display, once there are results.
    pub fn current_node(&self) -> (r: Option<&Node>)
        requires
            sound(self@),
        ensures
            match displayed(self@) {
                Some(node) => r matches Some(n) && n@ == node,
                None => r is None,
            },
    {
        match &self.state {
            AppState::ViewingResults(root, _) => match &self.navigation {
                Some(nav) => Some(nav.current()),
                None => Some(root),
            },
            AppState::Scanning => None,
        }
    }

    /// The highlighted line, or the first where none is.
    pub fn selected_line(&self) -> (r: usize)
        ensures
            r == line_or_first(self@.list_selected),
    {
        match self.list_selected {
            Some(i) => i,
            None => 0,
        }
    }

    /// What the confirmation dialog asks, where it is open; `shown` is how the
    /// path of the item is displayed.
    pub fn confirmation(&self, shown: &str) -> (r: Option<String>)
        ensures
            text_view(r) == asked(self@, shown@),
    {
        match &self.pending_deletion {
            Some(path) => {
                if !self.show_delete_modal {
                    return None;
                }
                let name = match path.file_name() {
                    Some(name) => name,
                    None => shown.to_owned(),
                };
                Some(
                    "Are you sure you want to delete\n".to_owned().concat(name.as_str()).concat(
                        "\n\nThis cannot be undone.\n\n[y/Enter] Confirm  [n/Esc] Cancel",
                    ),
                )
            },
            None => None,
        }
    }

    /// Takes over the line that the list shows as highlighted.
    pub fn set_highlight(&mut self, line: Option<usize>)
        ensures
            final(self)@ == (AppView { list_selected: line, ..old(self)@ }),
    {
        self.list_selected = line;
    }
}

} // verus!
