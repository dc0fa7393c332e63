//! Scanning: from the entries of a directory walk to a tree and a report.
//!
//! The walk itself is done by the caller, who hands over each entry as it comes.

use std::time::Duration;
use vstd::prelude::*;

use crate::node::{fresh_node, Node, NodeView};
use crate::path::{root_name_of, PartView, ScanPath};
use crate::text::text_view;
use crate::tree::{
    add_file_to_tree, calculate_dir_sizes, ensure_dir_path, grown, ordered, sized, sort_tree, Leaf,
};

verus! {

/// Progress update sent during scanning.
#[derive(Debug)]
pub struct ScanProgress {
    pub files_scanned: usize,
    pub current_path: ScanPath,
    pub elapsed: Duration,
}

/// The mathematical value of a `ScanProgress`.
#[verifier::ext_equal]
pub struct ProgressView {
    pub files_scanned: usize,
    pub current_path: Seq<PartView>,
    pub elapsed: Duration,
}

impl View for ScanProgress {
    type V = ProgressView;

    open spec fn view(&self) -> ProgressView {
        ProgressView {
            files_scanned: self.files_scanned,
            current_path: self.current_path@,
            elapsed: self.elapsed,
        }
    }
}

impl Clone for ScanProgress {
    fn clone(&self) -> (r: Self)
        ensures
            r@ == self@,
    {
        ScanProgress {
            files_scanned: self.files_scanned,
            current_path: self.current_path.clone(),
            elapsed: self.elapsed,
        }
    }
}

/// The values of a list of progress updates.
pub open spec fn progress_views(sent: Seq<ScanProgress>) -> Seq<ProgressView> {
    Seq::new(sent.len(), |i: int| sent[i]@)
}

/// What a user interface that redraws on a timer shows of a running scan.
#[derive(Debug)]
pub struct SharedProgress {
    /// Number of files processed.
    pub files_scanned: u64,
    /// Last path that the scan touched.
    pub last_path: Option<ScanPath>,
}

/// The mathematical value of a `SharedProgress`.
#[verifier::ext_equal]
pub struct SharedView {
    pub files_scanned: u64,
    pub last_path: Option<Seq<PartView>>,
}

/// The value of a path that may be missing.
pub open spec fn path_view(path: Option<ScanPath>) -> Option<Seq<PartView>> {
    match path {
        Some(p) => Some(p@),
        None => None,
    }
}

impl View for SharedProgress {
    type V = SharedView;

    open spec fn view(&self) -> SharedView {
        SharedView { files_scanned: self.files_scanned, last_path: path_view(self.last_path) }
    }
}

impl Default for SharedProgress {
    fn default() -> (r: Self)
        ensures
            r@ == (SharedView { files_scanned: 0, last_path: None }),
    {
        SharedProgress { files_scanned: 0, last_path: None }
    }
}

/// An entry that was skipped because it could not be read.
#[derive(Debug, PartialEq)]
pub struct SkippedEntry {
    pub path: Option<ScanPath>,
    pub message: String,
}

/// The mathematical value of a `SkippedEntry`.
#[verifier::ext_equal]
pub struct SkippedView {
    pub path: Option<Seq<PartView>>,
    pub message: Seq<char>,
}

impl View for SkippedEntry {
    type V = SkippedView;

    open spec fn view(&self) -> SkippedView {
        SkippedView { path: path_view(self.path), message: self.message@ }
    }
}

/// Additional information gathered during a scan.
#[derive(Debug, PartialEq)]
pub struct ScanReport {
    pub skipped: Vec<SkippedEntry>,
}

impl View for ScanReport {
    type V = Seq<SkippedView>;

    open spec fn view(&self) -> Seq<SkippedView> {
        Seq::new(self.skipped@.len(), |i: int| self.skipped@[i]@)
    }
}

impl Default for ScanReport {
    fn default() -> (r: Self)
        ensures
            r@ == Seq::<SkippedView>::empty(),
    {
        let r = ScanReport { skipped: Vec::new() };
        assert(r@ =~= Seq::<SkippedView>::empty());
        r
    }
}

impl Clone for SkippedEntry {
    fn clone(&self) -> (r: Self)
        ensures
            r@ == self@,
    {
        let path = match &self.path {
            Some(p) => Some(p.clone()),
            None => None,
        };
        SkippedEntry { path, message: self.message.clone() }
    }
}

impl Clone for ScanReport {
    fn clone(&self) -> (r: Self)
        ensures
            r@ == self@,
    {
        let mut skipped: Vec<SkippedEntry> = Vec::new();
        let mut i: usize = 0;
        while i < self.skipped.len()
            invariant
                i <= self.skipped@.len(),
                skipped@.len() == i,
                forall|j: int| 0 <= j < i ==> #[trigger] skipped@[j]@ == self.skipped@[j]@,
            decreases self.skipped@.len() - i,
        {
            skipped.push(self.skipped[i].clone());
            i = i + 1;
        }
        let r = ScanReport { skipped };
        assert(r@ =~= self@);
        r
    }
}

/// The state of a scan, for front ends to poll.
#[derive(Debug, PartialEq)]
pub enum ScanState {
    /// No scan is running.
    Idle,
    /// A scan is in progress.
    Scanning { files_scanned: u64, current_path: Option<ScanPath> },
    /// The scan has completed.
    Done { root: Node, report: ScanReport },
    /// The scan has failed.
    Error(String),
}

/// The mathematical value of a `ScanState`.
#[verifier::ext_equal]
pub enum StateView {
    Idle,
    Scanning(u64, Option<Seq<PartView>>),
    Done(NodeView, Seq<SkippedView>),
    Error(Seq<char>),
}

impl View for ScanState {
    type V = StateView;

    open spec fn view(&self) -> StateView {
        match *self {
            ScanState::Idle => StateView::Idle,
            ScanState::Scanning { files_scanned, current_path } => StateView::Scanning(
                files_scanned,
                path_view(current_path),
            ),
            ScanState::Done { root, report } => StateView::Done(root@, report@),
            ScanState::Error(message) => StateView::Error(message@),
        }
    }
}

impl Clone for ScanState {
    fn clone(&self) -> (r: Self)
        ensures
            r@ == self@,
    {
        match self {
            ScanState::Idle => ScanState::Idle,
            ScanState::Scanning { files_scanned, current_path } => ScanState::Scanning {
                files_scanned: *files_scanned,
                current_path: match current_path {
                    Some(path) => Some(path.clone()),
                    None => None,
                },
            },
            ScanState::Done { root, report } => ScanState::Done {
                root: root.clone(),
                report: report.clone(),
            },
            ScanState::Error(message) => ScanState::Error(message.clone()),
        }
    }
}

impl Default for ScanState {
    fn default() -> (r: Self)
        ensures
            r == ScanState::Idle,
    {
        ScanState::Idle
    }
}

/// The kind of I/O error behind a failure, as far as the scanner looks.
#[derive(Debug, Clone, Copy, PartialEq, Eq, Structural)]
pub enum IoKind {
    PermissionDenied,
    Other,
}

/// A failure to read an entry.
#[derive(Debug)]
pub struct WalkFailure {
    /// The kind of the I/O error, where one was the cause.
    pub io_kind: Option<IoKind>,
    pub message: String,
}

/// The mathematical value of a `WalkFailure`.
#[verifier::ext_equal]
pub struct FailureView {
    pub io_kind: Option<IoKind>,
    pub message: Seq<char>,
}

impl View for WalkFailure {
    type V = FailureView;

    open spec fn view(&self) -> FailureView {
        FailureView { io_kind: self.io_kind, message: self.message@ }
    }
}

/// Whether a failure was a refused permission.
pub open spec fn denied(failure: FailureView) -> bool {
    failure.io_kind == Some(IoKind::PermissionDenied)
}

/// What a directory walk comes upon.
#[derive(Debug)]
pub enum WalkEvent {
    /// An entry, and for a file its size or why that could not be read.
    Entry { path: ScanPath, is_dir: bool, metadata: Result<u64, WalkFailure>, elapsed: Duration },
    /// A place that could not be read.
    Failed(WalkFailure),
}

/// The mathematical value of a `WalkEvent`.
#[verifier::ext_equal]
pub enum EventView {
    Entry { path: Seq<PartView>, is_dir: bool, metadata: Result<u64, FailureView>, elapsed: Duration },
    Failed(FailureView),
}

/// The value of a file's size, or of the failure to read it.
pub open spec fn metadata_view(metadata: Result<u64, WalkFailure>) -> Result<u64, FailureView> {
    match metadata {
        Ok(size) => Ok(size),
        Err(failure) => Err(failure@),
    }
}

impl View for WalkEvent {
    type V = EventView;

    open spec fn view(&self) -> EventView {
        match *self {
            WalkEvent::Entry { path, is_dir, metadata, elapsed } => EventView::Entry {
                path: path@,
                is_dir,
                metadata: metadata_view(metadata),
                elapsed,
            },
            WalkEvent::Failed(failure) => EventView::Failed(failure@),
        }
    }
}

/// The values of a list of events.
pub open spec fn event_views(walk: Seq<WalkEvent>) -> Seq<EventView> {
    Seq::new(walk.len(), |i: int| walk[i]@)
}

/// A scan that is under way.
#[derive(Debug)]
pub struct ScanRun {
    pub root_path: ScanPath,
    pub tree: Node,
    pub report: ScanReport,
    pub files_scanned: usize,
    /// Whether the walk came upon an entry.
    pub entered: bool,
    /// The message of the first failure of the walk itself.
    pub first_failure: Option<String>,
}

/// The mathematical value of a `ScanRun`.
#[verifier::ext_equal]
pub struct RunView {
    pub root_path: Seq<PartView>,
    pub tree: NodeView,
    pub skipped: Seq<SkippedView>,
    pub files_scanned: int,
    pub entered: bool,
    pub first_failure: Option<Seq<char>>,
}

impl View for ScanRun {
    type V = RunView;

    open spec fn view(&self) -> RunView {
        RunView {
            root_path: self.root_path@,
            tree: self.tree@,
            skipped: self.report@,
            files_scanned: self.files_scanned as int,
            entered: self.entered,
            first_failure: text_view(self.first_failure),
        }
    }
}

/// A scan of `root` that has seen nothing yet.
pub open spec fn started(root: Seq<PartView>) -> RunView {
    RunView {
        root_path: root,
        tree: fresh_node(root_name_of(root), root, true),
        skipped: Seq::empty(),
        files_scanned: 0,
        entered: false,
        first_failure: None,
    }
}

/// Whether an entry at `path` belongs into the tree of a scan of `root`.
pub open spec fn below(root: Seq<PartView>, path: Seq<PartView>) -> bool {
    path != root && root.is_prefix_of(path)
}

/// The scan after it came upon an entry: a directory below the root is placed, a
/// file waits for its size.
pub open spec fn after_visit(run: RunView, path: Seq<PartView>, is_dir: bool) -> RunView {
    let tree = if below(run.root_path, path) && is_dir {
        grown(run.tree, path.skip(run.root_path.len() as int), Leaf::Dir)
    } else {
        run.tree
    };
    RunView { tree, entered: true, ..run }
}

/// The scan after the size of a file below the root was read, or could not be.
pub open spec fn after_metadata(
    run: RunView,
    path: Seq<PartView>,
    metadata: Result<u64, FailureView>,
) -> RunView {
    match metadata {
        Ok(size) => {
            let relative = path.skip(run.root_path.len() as int);
            RunView {
                tree: grown(run.tree, relative, Leaf::File(size)),
                files_scanned: run.files_scanned + 1,
                ..run
            }
        },
        Err(failure) => after_failure(run, Some(path), failure),
    }
}

/// The scan after a failure: a refused permission is reported, others are not.
pub open spec fn after_failure(
    run: RunView,
    path: Option<Seq<PartView>>,
    failure: FailureView,
) -> RunView {
    if denied(failure) {
        RunView {
            skipped: run.skipped.push(SkippedView { path, message: failure.message }),
            ..run
        }
    } else {
        run
    }
}

/// The scan after a failure of the walk itself.
pub open spec fn after_failed(run: RunView, failure: FailureView) -> RunView {
    RunView {
        first_failure: if run.first_failure is None {
            Some(failure.message)
        } else {
            run.first_failure
        },
        ..after_failure(run, None, failure)
    }
}

/// The scan after one more event.
pub open spec fn after_event(run: RunView, event: EventView) -> RunView {
    match event {
        EventView::Entry { path, is_dir, metadata, elapsed } => {
            let visited = after_visit(run, path, is_dir);
            if below(run.root_path, path) && !is_dir {
                after_metadata(visited, path, metadata)
            } else {
                visited
            }
        },
        EventView::Failed(failure) => after_failed(run, failure),
    }
}

/// The scan of `root` after all of `walk`.
pub open spec fn run_after(root: Seq<PartView>, walk: Seq<EventView>) -> RunView
    decreases walk.len(),
{
    if walk.len() == 0 {
        started(root)
    } else {
        after_event(run_after(root, walk.drop_last()), walk.last())
    }
}

/// Whether a walk failed as a whole: it came upon failures and no entry, not
/// even its root.
pub open spec fn unwalkable(walk: Seq<EventView>) -> bool {
    walk.len() > 0 && forall|i: int| 0 <= i < walk.len() ==> (#[trigger] walk[i]) is Failed
}

/// The message of the failure that an unwalkable walk begins with.
pub open spec fn first_message(walk: Seq<EventView>) -> Seq<char>
    recommends
        unwalkable(walk),
{
    match walk[0] {
        EventView::Failed(failure) => failure.message,
        EventView::Entry { path, is_dir, metadata, elapsed } => Seq::empty(),
    }
}

/// The message with which a scan fails that came upon failures and no entry.
pub open spec fn fault(run: RunView) -> Option<Seq<char>> {
    if run.entered {
        None
    } else {
        run.first_failure
    }
}

/// A scan fails exactly on an unwalkable walk, with the message of its first failure.
pub proof fn lemma_fault(root: Seq<PartView>, walk: Seq<EventView>)
    ensures
        fault(run_after(root, walk)) == (if unwalkable(walk) {
            Some(first_message(walk))
        } else {
            None::<Seq<char>>
        }),
        run_after(root, walk).entered <==> exists|i: int|
            0 <= i < walk.len() && (#[trigger] walk[i]) is Entry,
    decreases walk.len(),
{
    if walk.len() > 0 {
        let front = walk.drop_last();
        lemma_fault(root, front);
        assert(forall|i: int| 0 <= i < front.len() ==> front[i] == walk[i]);
        assert(walk[walk.len() - 1] == walk.last());
        let run = run_after(root, front);
        if walk.last() is Entry {
            assert(run_after(root, walk).entered);
        } else {
            assert(run_after(root, walk).entered == run.entered);
            if run.entered {
                let i = choose|i: int| 0 <= i < front.len() && (#[trigger] front[i]) is Entry;
                assert(walk[i] is Entry);
            } else if front.len() > 0 {
                assert(forall|i: int| 0 <= i < front.len() ==> (#[trigger] front[i]) is Failed);
                assert(unwalkable(front));
            }
        }
    }
}

/// The tree that a scan of `root` ends with.
pub open spec fn scanned_tree(root: Seq<PartView>, walk: Seq<EventView>) -> NodeView {
    ordered(sized(run_after(root, walk).tree))
}

/// The progress updates that a scan of `root` sends during `walk`: one for each
/// entry other than the root itself.
pub open spec fn updates_sent(root: Seq<PartView>, walk: Seq<EventView>) -> Seq<ProgressView>
    decreases walk.len(),
{
    if walk.len() == 0 {
        Seq::empty()
    } else {
        let before = updates_sent(root, walk.drop_last());
        match walk.last() {
            EventView::Entry { path, is_dir, metadata, elapsed } => if path != root {
                before.push(
                    ProgressView {
                        files_scanned: run_after(root, walk.drop_last()).files_scanned as usize,
                        current_path: path,
                        elapsed,
                    },
                )
            } else {
                before
            },
            EventView::Failed(failure) => before,
        }
    }
}

/// The shared progress after a scan of `root` has seen all of `walk`.
pub open spec fn shared_after(
    shared: SharedView,
    root: Seq<PartView>,
    walk: Seq<EventView>,
) -> SharedView
    decreases walk.len(),
{
    if walk.len() == 0 {
        shared
    } else {
        let before = shared_after(shared, root, walk.drop_last());
        match walk.last() {
            EventView::Entry { path, is_dir, metadata, elapsed } => if path == root {
                before
            } else {
                SharedView {
                    last_path: Some(path),
                    files_scanned: if below(root, path) && !is_dir && metadata is Ok {
                        run_after(root, walk).files_scanned as u64
                    } else {
                        before.files_scanned
                    },
                }
            },
            EventView::Failed(failure) => before,
        }
    }
}

/// Whether the failure was a refused permission.
pub fn is_permission_denied(failure: &WalkFailure) -> (r: bool)
    ensures
        r == denied(failure@),
{
    match failure.io_kind {
        Some(kind) => kind == IoKind::PermissionDenied,
        None => false,
    }
}

/// What the caller of `ScanRun::visit` has to do next.
#[derive(Debug)]
pub struct Visit {
    /// The update to send to whoever follows the scan.
    pub progress: Option<ScanProgress>,
    /// Whether the size of the file is to be read and handed to `ScanRun::metadata`.
    pub wants_metadata: bool,
}

impl ScanRun {
    /// Begins a scan of `root_path`.
    pub fn start(root_path: &ScanPath) -> (r: Self)
        ensures
            r@ == started(root_path@),
    {
        ScanRun {
            root_path: root_path.clone(),
            tree: Node::new(root_path.root_name(), root_path.clone(), true),
            report: ScanReport::default(),
            files_scanned: 0,
            entered: false,
            first_failure: None,
        }
    }

    /// Takes in an entry of the walk.
    pub fn visit(
        &mut self,
        path: &ScanPath,
        is_dir: bool,
        elapsed: Duration,
        shared: &mut SharedProgress,
    ) -> (r: Visit)
        ensures
            final(self)@ == after_visit(old(self)@, path@, is_dir),
            r.wants_metadata == (below(old(self)@.root_path, path@) && !is_dir),
            r.wants_metadata <==> !is_dir && old(self)@.root_path.len() < path@.len() && old(
                self,
            )@.root_path.is_prefix_of(path@),
            path@ == old(self)@.root_path ==> r.progress is None && final(shared)@ == old(shared)@,
            path@ != old(self)@.root_path ==> {
                &&& r.progress matches Some(update)
                &&& update@ == (ProgressView {
                    files_scanned: old(self).files_scanned,
                    current_path: path@,
                    elapsed,
                })
                &&& final(shared)@ == (SharedView { last_path: Some(path@), ..old(shared)@ })
            },
    {
        self.entered = true;
        proof {
            if self@.root_path.is_prefix_of(path@) && self@.root_path.len() == path@.len() {
                assert(path@ =~= self@.root_path);
            }
        }
        if path.same(&self.root_path) {
            return Visit { progress: None, wants_metadata: false };
        }
        shared.last_path = Some(path.clone());
        let progress = Some(
            ScanProgress {
                files_scanned: self.files_scanned,
                current_path: path.clone(),
                elapsed,
            },
        );
        match path.strip_prefix(&self.root_path) {
            Some(relative) => {
                if is_dir {
                    ensure_dir_path(&mut self.tree, &relative);
                }
                Visit { progress, wants_metadata: !is_dir }
            },
            None => Visit { progress, wants_metadata: false },
        }
    }

    /// Takes in the size of a file for which `visit` asked, or why it could not be read.
    pub fn metadata(
        &mut self,
        path: &ScanPath,
        metadata: &Result<u64, WalkFailure>,
        shared: &mut SharedProgress,
    )
        requires
            below(old(self)@.root_path, path@),
            old(self).files_scanned < usize::MAX,
        ensures
            final(self)@ == after_metadata(old(self)@, path@, metadata_view(*metadata)),
            final(shared)@ == (if metadata is Ok {
                SharedView { files_scanned: final(self).files_scanned as u64, ..old(shared)@ }
            } else {
                old(shared)@
            }),
    {
        match metadata {
            Ok(size) => {
                self.files_scanned = self.files_scanned + 1;
                shared.files_scanned = self.files_scanned as u64;
                if let Some(relative) = path.strip_prefix(&self.root_path) {
                    add_file_to_tree(&mut self.tree, &relative, *size);
                }
            },
            Err(failure) => {
                self.skip(Some(path), failure);
            },
        }
    }

    /// Takes in a failure of the walk itself.
    pub fn failed(&mut self, failure: &WalkFailure)
        ensures
            final(self)@ == after_failed(old(self)@, failure@),
    {
        self.skip(None, failure);
        if self.first_failure.is_none() {
            self.first_failure = Some(failure.message.clone());
        }
    }

    fn skip(&mut self, path: Option<&ScanPath>, failure: &WalkFailure)
        ensures
            final(self)@ == after_failure(
                old(self)@,
                match path {
                    Some(p) => Some(p@),
                    None => None,
                },
                failure@,
            ),
    {
        if is_permission_denied(failure) {
            let ghost before = self.report@;
            let path = match path {
                Some(p) => Some(p.clone()),
                None => None,
            };
            let entry = SkippedEntry { path, message: failure.message.clone() };
            let ghost entry_view = entry@;
            self.report.skipped.push(entry);
            assert(self.report@ =~= before.push(entry_view));
        }
    }

    /// Ends the scan: adds up the sizes and sorts the tree. A scan that came upon
    /// failures and no entry has failed, with the message of the first of them.
    pub fn finish(self) -> (r: Result<(Node, ScanReport), String>)
        ensures
            match fault(self@) {
                Some(message) => r matches Err(m) && m@ == message,
                None => r matches Ok(result) && {
                    &&& result.0@ == ordered(sized(self@.tree))
                    &&& result.1@ == self@.skipped
                },
            },
    {
        if !self.entered {
            if let Some(message) = self.first_failure {
                return Err(message);
            }
        }
        let mut tree = self.tree;
        let _total = calculate_dir_sizes(&mut tree);
        sort_tree(&mut tree);
        Ok((tree, self.report))
    }
}

/// Builds the tree of `root` from a walk of it. Fails where the walk came upon
/// failures and no entry.
pub fn scan_directory(
    root: &ScanPath,
    walk: &Vec<WalkEvent>,
    progress: &mut Vec<ScanProgress>,
) -> (r: Result<Node, String>)
    ensures
        unwalkable(event_views(walk@)) ==> (r matches Err(m) && m@ == first_message(
            event_views(walk@),
        )),
        !unwalkable(event_views(walk@)) ==> (r matches Ok(tree) && tree@ == scanned_tree(
            root@,
            event_views(walk@),
        )),
        progress_views(final(progress)@) == progress_views(old(progress)@) + updates_sent(
            root@,
            event_views(walk@),
        ),
{
    match scan_directory_with_report(root, walk, progress) {
        Ok(result) => Ok(result.0),
        Err(message) => Err(message),
    }
}

/// Builds the tree of `root` and the report from a walk of it. Fails where the
/// walk came upon failures and no entry.
pub fn scan_directory_with_report(
    root: &ScanPath,
    walk: &Vec<WalkEvent>,
    progress: &mut Vec<ScanProgress>,
) -> (r: Result<(Node, ScanReport), String>)
    ensures
        unwalkable(event_views(walk@)) ==> (r matches Err(m) && m@ == first_message(
            event_views(walk@),
        )),
        !unwalkable(event_views(walk@)) ==> (r matches Ok(result) && {
            &&& result.0@ == scanned_tree(root@, event_views(walk@))
            &&& result.1@ == run_after(root@, event_views(walk@)).skipped
        }),
        progress_views(final(progress)@) == progress_views(old(progress)@) + updates_sent(
            root@,
            event_views(walk@),
        ),
{
    let mut shared = SharedProgress::default();
    scan_directory_with_report_shared(root, walk, progress, &mut shared)
}

/// Builds the tree of `root` and the report from a walk of it, sends the updates
/// on and keeps the shared progress up to date. Fails where the walk came upon
/// failures and no entry.
pub fn scan_directory_with_report_shared(
    root: &ScanPath,
    walk: &Vec<WalkEvent>,
    progress: &mut Vec<ScanProgress>,
    shared: &mut SharedProgress,
) -> (r: Result<(Node, ScanReport), String>)
    ensures
        unwalkable(event_views(walk@)) ==> (r matches Err(m) && m@ == first_message(
            event_views(walk@),
        )),
        !unwalkable(event_views(walk@)) ==> (r matches Ok(result) && {
            &&& result.0@ == scanned_tree(root@, event_views(walk@))
            &&& result.1@ == run_after(root@, event_views(walk@)).skipped
        }),
        progress_views(final(progress)@) == progress_views(old(progress)@) + updates_sent(
            root@,
            event_views(walk@),
        ),
        final(shared)@ == shared_after(old(shared)@, root@, event_views(walk@)),
{
    let ghost events = event_views(walk@);
    let ghost sent = progress_views(progress@);
    let mut run = ScanRun::start(root);
    let mut i: usize = 0;
    assert(events.take(0) =~= Seq::<EventView>::empty());
    assert(progress_views(progress@) =~= sent + updates_sent(root@, events.take(0)));
    while i < walk.len()
        invariant
            i <= walk@.len(),
            events == event_views(walk@),
            run@ == run_after(root@, events.take(i as int)),
            run@.root_path == root@,
            run.files_scanned <= i,
            progress_views(progress@) == sent + updates_sent(root@, events.take(i as int)),
            shared@ == shared_after(old(shared)@, root@, events.take(i as int)),
        decreases walk@.len() - i,
    {
        let ghost next = events.take(i + 1);
        assert(next.drop_last() =~= events.take(i as int));
        assert(next.last() == walk@[i as int]@);
        let ghost before = progress@;
        match &walk[i] {
            WalkEvent::Entry { path, is_dir, metadata, elapsed } => {
                let visit = run.visit(path, *is_dir, *elapsed, shared);
                if let Some(update) = visit.progress {
                    let ghost update_view = update@;
                    progress.push(update);
                    assert(progress_views(progress@) =~= progress_views(before).push(update_view));
                }
                if visit.wants_metadata {
                    run.metadata(path, metadata, shared);
                }
            },
            WalkEvent::Failed(failure) => {
                run.failed(failure);
            },
        }
        assert(progress_views(progress@) =~= sent + updates_sent(root@, next));
        i = i + 1;
    }
    assert(events.take(i as int) =~= events);
    proof {
        lemma_fault(root@, events);
    }
    run.finish()
}

/// Disk usage scanner.
#[derive(Debug)]
pub struct Scanner {}

impl Default for Scanner {
    fn default() -> (r: Self)
        ensures
            r == (Scanner {  }),
    {
        Scanner {  }
    }
}

impl Scanner {
    /// A new scanner.
    pub fn new() -> (r: Self)
        ensures
            r == (Scanner {  }),
    {
        Self::default()
    }

    /// Builds the tree of `root` from a walk of it. Fails where the walk came
    /// upon failures and no entry.
    pub fn scan(&self, root: &ScanPath, walk: &Vec<WalkEvent>) -> (r: Result<Node, String>)
        ensures
            unwalkable(event_views(walk@)) ==> (r matches Err(m) && m@ == first_message(
                event_views(walk@),
            )),
            !unwalkable(event_views(walk@)) ==> (r matches Ok(tree) && tree@ == scanned_tree(
                root@,
                event_views(walk@),
            )),
    {
        let mut progress: Vec<ScanProgress> = Vec::new();
        scan_directory(root, walk, &mut progress)
    }

    /// Builds the tree of `root` and the report from a walk of it, and keeps the
    /// shared progress up to date. Fails where the walk came upon failures and no
    /// entry.
    pub fn scan_with_progress(
        &self,
        root: &ScanPath,
        walk: &Vec<WalkEvent>,
        shared: &mut SharedProgress,
    ) -> (r: Result<(Node, ScanReport), String>)
        ensures
            unwalkable(event_views(walk@)) ==> (r matches Err(m) && m@ == first_message(
                event_views(walk@),
            )),
            !unwalkable(event_views(walk@)) ==> (r matches Ok(result) && {
                &&& result.0@ == scanned_tree(root@, event_views(walk@))
                &&& result.1@ == run_after(root@, event_views(walk@)).skipped
            }),
            final(shared)@ == shared_after(old(shared)@, root@, event_views(walk@)),
    {
        let mut progress: Vec<ScanProgress> = Vec::new();
        scan_directory_with_report_shared(root, walk, &mut progress, shared)
    }
}

} // verus!
