//! The state of the windowed front end, and how clicks and finished work change it.

use vstd::prelude::*;
use vstd::string::StringExecFns;

use crate::export::document;
use crate::front::{
    export_message, export_note, Edition, ExportOutcome, ExportView, OutcomeView, ScanOutcome,
};
use crate::node::{lemma_children_view, views, Node, NodeView};
use crate::scan::{ScanReport, Scanner, SkippedView};
use crate::text::{clip, clipped, text_view};
use crate::trail::{breadcrumb_of, crumbs};

verus! {

/// What the front end is doing.
#[derive(Debug)]
pub enum ScanStatus {
    Idle,
    Scanning,
    Done { root: Node, report: ScanReport },
    Error(String),
}

/// The mathematical value of a `ScanStatus`.
#[verifier::ext_equal]
pub enum StatusView {
    Idle,
    Scanning,
    Done(NodeView, Seq<SkippedView>),
    Error(Seq<char>),
}

impl View for ScanStatus {
    type V = StatusView;

    open spec fn view(&self) -> StatusView {
        match *self {
            ScanStatus::Idle => StatusView::Idle,
            ScanStatus::Scanning => StatusView::Scanning,
            ScanStatus::Done { root, report } => StatusView::Done(root@, report@),
            ScanStatus::Error(message) => StatusView::Error(message@),
        }
    }
}

/// Where the user is in the tree.
#[derive(Debug)]
pub struct NavigationState {
    /// The nodes from the root to the current directory.
    pub path: Vec<Node>,
}

impl View for NavigationState {
    type V = Seq<NodeView>;

    open spec fn view(&self) -> Seq<NodeView> {
        views(self.path@)
    }
}

/// The way after going up to the parent directory, where there is one.
pub open spec fn shortened(way: Seq<NodeView>) -> Seq<NodeView> {
    if way.len() > 1 {
        way.drop_last()
    } else {
        way
    }
}

impl NavigationState {
    /// Starts at the root of a tree.
    pub fn new(root: Node) -> (r: Self)
        ensures
            r@ == seq![root@],
    {
        let ghost root_view = root@;
        let mut path: Vec<Node> = Vec::new();
        path.push(root);
        assert(views(path@) =~= seq![root_view]);
        NavigationState { path }
    }

    /// The directory that is being looked at.
    pub fn current(&self) -> (r: &Node)
        requires
            self.path@.len() > 0,
        ensures
            r@ == self@.last(),
    {
        &self.path[self.path.len() - 1]
    }

    /// The names from the root to the current directory.
    pub fn breadcrumb(&self) -> (r: String)
        ensures
            r@ == crumbs(self@),
    {
        breadcrumb_of(&self.path)
    }

    /// Goes into a child directory.
    pub fn drill_down(&mut self, child: Node)
        ensures
            final(self)@ == old(self)@.push(child@),
    {
        let ghost before = self@;
        let ghost child_view = child@;
        self.path.push(child);
        assert(views(self.path@) =~= before.push(child_view));
    }

    /// Goes up to the parent directory; returns whether there is one.
    pub fn drill_up(&mut self) -> (r: bool)
        ensures
            r == (old(self)@.len() > 1),
            final(self)@ == shortened(old(self)@),
    {
        let ghost before = self@;
        if self.path.len() > 1 {
            let _left = self.path.pop();
            assert(views(self.path@) =~= before.drop_last());
            return true;
        }
        false
    }
}

/// The windowed front end.
#[derive(Debug)]
pub struct FerrisScanApp {
    /// The path in the input field.
    pub scan_path: String,
    pub status: ScanStatus,
    pub popup_message: Option<String>,
    pub navigation: Option<NavigationState>,
    pub selected_index: usize,
}

/// The mathematical value of a `FerrisScanApp`.
#[verifier::ext_equal]
pub struct GuiView {
    pub scan_path: Seq<char>,
    pub status: StatusView,
    pub popup_message: Option<Seq<char>>,
    pub navigation: Option<Seq<NodeView>>,
    pub selected_index: usize,
}

/// The value of a navigation that may be missing.
pub open spec fn way_view(navigation: Option<NavigationState>) -> Option<Seq<NodeView>> {
    match navigation {
        Some(nav) => Some(nav@),
        None => None,
    }
}

impl View for FerrisScanApp {
    type V = GuiView;

    open spec fn view(&self) -> GuiView {
        GuiView {
            scan_path: self.scan_path@,
            status: self.status@,
            popup_message: text_view(self.popup_message),
            navigation: way_view(self.navigation),
            selected_index: self.selected_index,
        }
    }
}

/// Whether the user is somewhere in the tree whenever there is one to browse.
pub open spec fn sound(app: GuiView) -> bool {
    app.navigation matches Some(way) ==> way.len() > 0
}

/// The front end after a scan was asked for, which needs a path that exists.
pub open spec fn started(app: GuiView, exists: bool) -> GuiView {
    if exists {
        GuiView { status: StatusView::Scanning, ..app }
    } else {
        GuiView { popup_message: Some("Path does not exist: "@ + app.scan_path), ..app }
    }
}

/// The front end after the scan in the background has ended. One whose thread
/// panicked has no outcome to show.
pub open spec fn after_scan(app: GuiView, outcome: OutcomeView) -> GuiView {
    match outcome {
        OutcomeView::Finished(root, skipped) => GuiView {
            status: StatusView::Done(root, skipped),
            ..app
        },
        OutcomeView::Failed(message) => GuiView { status: StatusView::Error(message), ..app },
        OutcomeView::Panicked => app,
    }
}

/// The index `i`, or the last one of `n` where it lies beyond.
pub open spec fn kept_below(i: usize, n: nat) -> usize {
    if i >= n && n > 0 {
        (n - 1) as usize
    } else {
        i
    }
}

/// The front end with the root of its results opened, where nothing is.
pub open spec fn opened(app: GuiView) -> GuiView {
    match (app.status, app.navigation) {
        (StatusView::Done(root, skipped), None) => GuiView {
            navigation: Some(seq![root]),
            selected_index: 0,
            ..app
        },
        _ => app,
    }
}

/// The front end when its results are about to be drawn: something is open, and
/// the selection lies in it.
pub open spec fn prepared(app: GuiView) -> GuiView {
    match app.status {
        StatusView::Done(root, skipped) => GuiView {
            selected_index: kept_below(
                opened(app).selected_index,
                opened(app).navigation.unwrap().last().children.len(),
            ),
            ..opened(app)
        },
        _ => app,
    }
}

/// The front end ready for another scan.
pub open spec fn cleared(app: GuiView) -> GuiView {
    GuiView { status: StatusView::Idle, navigation: None, selected_index: 0, ..app }
}

/// The front end after going up.
pub open spec fn gone_up(app: GuiView) -> GuiView {
    match app.navigation {
        Some(way) => GuiView { navigation: Some(shortened(way)), selected_index: 0, ..app },
        None => app,
    }
}

/// The front end after going into `child`.
pub open spec fn gone_into(app: GuiView, child: NodeView) -> GuiView {
    match app.navigation {
        Some(way) => GuiView { navigation: Some(way.push(child)), selected_index: 0, ..app },
        None => app,
    }
}

/// The front end after a frame in which a new scan, the parent directory or a
/// child directory may have been asked for, in this order.
pub open spec fn after_frame(
    app: GuiView,
    reset: bool,
    up: bool,
    down: Option<NodeView>,
) -> GuiView {
    let first = if reset {
        cleared(app)
    } else {
        app
    };
    let second = if up {
        gone_up(first)
    } else {
        first
    };
    match down {
        Some(child) => gone_into(second, child),
        None => second,
    }
}

/// The value of a node that may be missing.
pub open spec fn picked_view(node: Option<Node>) -> Option<NodeView> {
    match node {
        Some(n) => Some(n@),
        None => None,
    }
}

/// The directory on display: the one that was navigated to, or else the root.
pub open spec fn displayed(app: GuiView) -> Option<NodeView> {
    match (app.status, app.navigation) {
        (StatusView::Done(root, skipped), Some(way)) => Some(way.last()),
        (StatusView::Done(root, skipped), None) => Some(root),
        _ => None,
    }
}

/// The item `index` of the directory on display.
pub open spec fn item(app: GuiView, index: int) -> Option<NodeView> {
    match displayed(app) {
        Some(node) => if 0 <= index < node.children.len() {
            Some(node.children[index])
        } else {
            None
        },
        None => None,
    }
}

/// The item `index` of the directory on display, if it is a directory.
pub open spec fn enterable(app: GuiView, index: int) -> Option<NodeView> {
    match item(app, index) {
        Some(child) => if child.is_dir {
            Some(child)
        } else {
            None
        },
        None => None,
    }
}

/// The names from the root to the current directory, or `Root` before there is one.
pub open spec fn location_of(app: GuiView) -> Seq<char> {
    match app.navigation {
        Some(way) => crumbs(way),
        None => "Root"@,
    }
}

/// What the free edition says when asked for an export.
pub open spec fn pro_only() -> Seq<char> {
    "This is a Pro Feature\n\nCSV Export is only available in ferris-scan Pro.\n\nBuild with: cargo build --release --features pro --bin ferris-scan-gui"@
}

/// The message after an export was asked for, with the marks `good` and `bad`.
pub open spec fn export_reply(
    edition: Edition,
    good: Seq<char>,
    bad: Seq<char>,
    outcome: ExportView,
) -> Seq<char> {
    match edition {
        Edition::Pro => export_note(good, bad, outcome),
        Edition::Free => pro_only(),
    }
}

/// A name in the list: at most forty characters.
pub open spec fn list_name_of(name: Seq<char>) -> Seq<char> {
    clipped(name, 40, 40, "…"@)
}

/// A name on a tile: at most twenty characters.
pub open spec fn tile_name_of(name: Seq<char>) -> Seq<char> {
    clipped(name, 20, 20, "…"@)
}

/// A name in the list: at most forty characters.
pub fn list_name(name: &str) -> (r: String)
    ensures
        r@ == list_name_of(name@),
{
    clip(name, 40, 40, "…")
}

/// A name on a tile: at most twenty characters.
pub fn tile_name(name: &str) -> (r: String)
    ensures
        r@ == tile_name_of(name@),
{
    clip(name, 20, 20, "…")
}

impl FerrisScanApp {
    /// The front end before the first scan; `initial_path` stands in the input field.
    pub fn new(initial_path: String) -> (r: Self)
        ensures
            r@ == (GuiView {
                scan_path: initial_path@,
                status: StatusView::Idle,
                popup_message: None,
                navigation: None,
                selected_index: 0,
            }),
    {
        FerrisScanApp {
            scan_path: initial_path,
            status: ScanStatus::Idle,
            popup_message: None,
            navigation: None,
            selected_index: 0,
        }
    }

    /// Whether a scan can be started.
    pub fn is_idle(&self) -> (r: bool)
        ensures
            r == (self@.status == StatusView::Idle),
    {
        match self.status {
            ScanStatus::Idle => true,
            _ => false,
        }
    }

    /// Asks for a scan of the path in the input field; `exists` says whether
    /// that path exists. Returns whether the scan is to be run.
    pub fn start_scan(&mut self, exists: bool) -> (r: bool)
        ensures
            r == exists,
            final(self)@ == started(old(self)@, exists),
    {
        if !exists {
            self.popup_message = Some(
                "Path does not exist: ".to_owned().concat(self.scan_path.as_str()),
            );
            return false;
        }
        self.status = ScanStatus::Scanning;
        true
    }

    /// Takes in how the scan in the background has ended.
    pub fn scan_finished(&mut self, outcome: ScanOutcome)
        ensures
            final(self)@ == after_scan(old(self)@, outcome@),
    {
        match outcome {
            ScanOutcome::Finished(root, report) => {
                self.status = ScanStatus::Done { root, report };
            },
            ScanOutcome::Failed(message) => {
                self.status = ScanStatus::Error(message);
            },
            ScanOutcome::Panicked => {},
        }
    }

    /// Makes the state ready for drawing.
    pub fn prepare(&mut self)
        requires
            sound(old(self)@),
        ensures
            final(self)@ == prepared(old(self)@),
            sound(final(self)@),
    {
        broadcast use lemma_children_view;

        if let ScanStatus::Done { root, .. } = &self.status {
            if self.navigation.is_none() {
                self.navigation = Some(NavigationState::new(root.clone()));
                self.selected_index = 0;
            }
            if let Some(nav) = &self.navigation {
                let n = nav.current().children.len();
                if self.selected_index >= n && n > 0 {
                    self.selected_index = n - 1;
                }
            }
        }
    }

    /// The names from the root to the current directory.
    pub fn location(&self) -> (r: String)
        ensures
            r@ == location_of(self@),
    {
        match &self.navigation {
            Some(nav) => nav.breadcrumb(),
            None => "Root".to_owned(),
        }
    }

    /// Whether the current directory has a parent in the tree.
    pub fn can_go_up(&self) -> (r: bool)
        ensures
            r == (self@.navigation matches Some(way) && way.len() > 1),
    {
        match &self.navigation {
            Some(nav) => nav.path.len() > 1,
            None => false,
        }
    }

    /// The directory on display, once there are results.
    pub fn current_node(&self) -> (r: Option<&Node>)
        requires
            sound(self@),
        ensures
            match displayed(self@) {
                Some(node) => r matches Some(n) && n@ == node,
                None => r is None,
            },
    {
        match &self.status {
            ScanStatus::Done { root, .. } => match &self.navigation {
                Some(nav) => Some(nav.current()),
                None => Some(root),
            },
            _ => None,
        }
    }

    /// The item `index` of the directory on display.
    pub fn get_item(&self, index: usize) -> (r: Option<&Node>)
        requires
            sound(self@),
        ensures
            match item(self@, index as int) {
                Some(node) => r matches Some(n) && n@ == node,
                None => r is None,
            },
    {
        broadcast use lemma_children_view;

        match self.current_node() {
            Some(node) => {
                if index < node.children.len() {
                    Some(&node.children[index])
                } else {
                    None
                }
            },
            None => None,
        }
    }

    /// Selects the item `index`.
    pub fn select(&mut self, index: usize)
        ensures
            final(self)@ == (GuiView { selected_index: index, ..old(self)@ }),
    {
        self.selected_index = index;
    }

    /// The item `index` of the directory on display, if it can be entered.
    pub fn pick(&self, index: usize) -> (r: Option<Node>)
        requires
            sound(self@),
        ensures
            picked_view(r) == enterable(self@, index as int),
    {
        match self.get_item(index) {
            Some(child) => {
                if child.is_dir {
                    Some(child.clone())
                } else {
                    None
                }
            },
            None => None,
        }
    }

    /// Carries out what was asked for in a frame.
    pub fn apply(&mut self, reset: bool, up: bool, down: Option<Node>)
        ensures
            final(self)@ == after_frame(old(self)@, reset, up, picked_view(down)),
            sound(old(self)@) ==> sound(final(self)@),
    {
        if reset {
            self.status = ScanStatus::Idle;
            self.navigation = None;
            self.selected_index = 0;
        }
        if up {
            if let Some(nav) = &mut self.navigation {
                let _up = nav.drill_up();
                self.selected_index = 0;
            }
        }
        if let Some(child) = down {
            if let Some(nav) = &mut self.navigation {
                nav.drill_down(child);
                self.selected_index = 0;
            }
        }
    }

    /// Closes the message.
    pub fn close_popup(&mut self)
        ensures
            final(self)@ == (GuiView { popup_message: None, ..old(self)@ }),
    {
        self.popup_message = None;
    }

    /// The document to write to a file when an export is asked for.
    pub fn export_document(&self, edition: Edition) -> (r: Option<Vec<u8>>)
        ensures
            match self@.status {
                StatusView::Done(root, skipped) => if edition == Edition::Pro {
                    r matches Some(bytes) && bytes@ == document(root)
                } else {
                    r is None
                },
                _ => r is None,
            },
    {
        match &self.status {
            ScanStatus::Done { root, .. } => {
                if edition == Edition::Pro {
                    let scanner = Scanner::new();
                    Some(scanner.export_csv(root))
                } else {
                    None
                }
            },
            _ => None,
        }
    }

    /// Says how the export went, with the marks `good` and `bad`, or why there is none.
    pub fn handle_export(
        &mut self,
        edition: Edition,
        good: &str,
        bad: &str,
        outcome: &ExportOutcome,
    )
        ensures
            final(self)@ == (GuiView {
                popup_message: Some(export_reply(edition, good@, bad@, outcome@)),
                ..old(self)@
            }),
    {
        let message = match edition {
            Edition::Pro => export_message(good, bad, outcome),
            Edition::Free => "This is a Pro Feature\n\nCSV Export is only available in ferris-scan Pro.\n\nBuild with: cargo build --release --features pro --bin ferris-scan-gui".to_owned(),
        };
        self.popup_message = Some(message);
    }
}

} // verus!
