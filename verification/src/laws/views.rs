//! Laws of views: the mathematical value of each type shows every field.

use vstd::prelude::*;
use vstd::std_specs::cmp::{PartialEqSpec, PartialOrdSpec};

use crate::classic;
use crate::front::{ExportOutcome, ExportView, OutcomeView, ScanOutcome, Stats};
use crate::gui;
use crate::node::{lemma_children_view, trail_view, views, Node};
use crate::path::{PartText, PathPart, ScanPath, TextView};
use crate::rows::{row_views, Row};
use crate::scan::{
    event_views, metadata_view, path_view, progress_views, EventView, ScanProgress, ScanReport,
    ScanRun, ScanState, SharedProgress, SkippedEntry, StateView, WalkEvent, WalkFailure,
};
use crate::export::texts;
use crate::text::text_view;
use crate::tui;

verus! {

/// The value of a node shows its name, size, kind, path and children.
pub proof fn law_node_shows_all(node: Node, i: int)
    ensures
        node@.name == node.name@,
        node@.size == node.size,
        node@.is_dir == node.is_dir,
        node@.path == node.path@,
        node@.children.len() == node.children@.len(),
        0 <= i < node.children@.len() ==> node@.children[i] == node.children@[i]@,
{
    lemma_children_view(node);
}

/// Nodes are equal by size and name, and ordered by size alone, the larger first.
pub proof fn law_nodes_compare_by_size(a: Node, b: Node)
    ensures
        a.eq_spec(&b) <==> a.size == b.size && a.name@ == b.name@,
        a.size > b.size <==> a.partial_cmp_spec(&b) == Some(core::cmp::Ordering::Less),
        a.size < b.size <==> a.partial_cmp_spec(&b) == Some(core::cmp::Ordering::Greater),
        a.size == b.size <==> a.partial_cmp_spec(&b) == Some(core::cmp::Ordering::Equal),
{
}

/// The value of a path shows every component, and that of a component its kind
/// and its text.
pub proof fn law_path_shows_all(path: ScanPath, part: PathPart, i: int)
    ensures
        path@.len() == path.parts@.len(),
        0 <= i < path.parts@.len() ==> path@[i] == path.parts@[i]@,
        part@.kind == part.kind,
        part.text matches PartText::Bytes(bytes) ==> part@.text == TextView::Bytes(bytes@),
        part.text matches PartText::Units(units) ==> part@.text == TextView::Units(units@),
        path_view(Some(path)) == Some(path@),
        path_view(None) is None,
{
}

/// The values of lists show every element.
pub proof fn law_lists_show_all(
    nodes: Seq<Node>,
    rows: Seq<Row>,
    strings: Seq<String>,
    trail: Seq<usize>,
    walk: Seq<WalkEvent>,
    sent: Seq<ScanProgress>,
    i: int,
)
    ensures
        views(nodes).len() == nodes.len(),
        0 <= i < nodes.len() ==> views(nodes)[i] == nodes[i]@,
        row_views(rows).len() == rows.len(),
        0 <= i < rows.len() ==> row_views(rows)[i].name == rows[i].name@,
        0 <= i < rows.len() ==> row_views(rows)[i].size == rows[i].size@,
        texts(strings).len() == strings.len(),
        0 <= i < strings.len() ==> texts(strings)[i] == strings[i]@,
        trail_view(trail).len() == trail.len(),
        0 <= i < trail.len() ==> trail_view(trail)[i] == trail[i] as int,
        event_views(walk).len() == walk.len(),
        0 <= i < walk.len() ==> event_views(walk)[i] == walk[i]@,
        progress_views(sent).len() == sent.len(),
        0 <= i < sent.len() ==> progress_views(sent)[i].files_scanned == sent[i].files_scanned,
        0 <= i < sent.len() ==> progress_views(sent)[i].current_path == sent[i].current_path@,
        0 <= i < sent.len() ==> progress_views(sent)[i].elapsed == sent[i].elapsed,
{
}

/// The value of an event shows its path, kind, size, failure and time.
pub proof fn law_event_shows_all(event: WalkEvent, size: u64, failure: WalkFailure)
    ensures
        event matches WalkEvent::Entry { path, is_dir, metadata, elapsed } ==> event@
            == (EventView::Entry {
            path: path@,
            is_dir,
            metadata: metadata_view(metadata),
            elapsed,
        }),
        event matches WalkEvent::Failed(f) ==> event@ == EventView::Failed(f@),
        metadata_view(Ok(size)) == Ok::<u64, crate::scan::FailureView>(size),
        metadata_view(Err(failure)) == Err::<u64, crate::scan::FailureView>(failure@),
        failure@.io_kind == failure.io_kind,
        failure@.message == failure.message@,
{
}

/// The values of what a scan keeps show every field.
pub proof fn law_scan_shows_all(
    run: ScanRun,
    shared: SharedProgress,
    report: ScanReport,
    entry: SkippedEntry,
    state: ScanState,
    i: int,
)
    ensures
        run@.root_path == run.root_path@,
        run@.tree == run.tree@,
        run@.skipped == run.report@,
        run@.files_scanned == run.files_scanned,
        run@.entered == run.entered,
        run@.first_failure == text_view(run.first_failure),
        shared@.files_scanned == shared.files_scanned,
        shared@.last_path == path_view(shared.last_path),
        report@.len() == report.skipped@.len(),
        0 <= i < report.skipped@.len() ==> report@[i] == report.skipped@[i]@,
        entry@.path == path_view(entry.path),
        entry@.message == entry.message@,
        state is Idle <==> state@ is Idle,
        state matches ScanState::Scanning { files_scanned, current_path } ==> state@
            == StateView::Scanning(files_scanned, path_view(current_path)),
        state matches ScanState::Done { root, report } ==> state@ == StateView::Done(
            root@,
            report@,
        ),
        state matches ScanState::Error(message) ==> state@ == StateView::Error(message@),
{
}

/// The values of what the front ends are told show everything.
pub proof fn law_outcomes_show_all(
    outcome: ScanOutcome,
    export: ExportOutcome,
    stats: Stats,
    text: Option<String>,
)
    ensures
        outcome matches ScanOutcome::Finished(root, report) ==> outcome@ == OutcomeView::Finished(
            root@,
            report@,
        ),
        outcome matches ScanOutcome::Failed(message) ==> outcome@ == OutcomeView::Failed(message@),
        outcome is Panicked <==> outcome@ is Panicked,
        export matches ExportOutcome::Saved(shown) ==> export@ == ExportView::Saved(shown@),
        export matches ExportOutcome::Failed(message) ==> export@ == ExportView::Failed(message@),
        stats@.total_size == stats.total_size@,
        stats@.skipped == stats.skipped@,
        stats@.name == stats.name@,
        stats@.size == stats.size@,
        stats@.items == stats.items@,
        text matches Some(t) ==> text_view(text) == Some(t@),
        text is None ==> text_view(text) is None,
        tui::disk_view(Ok(())) == Ok::<(), Seq<char>>(()),
        text matches Some(t) ==> tui::disk_view(Err(t)) == Err::<(), Seq<char>>(t@),
{
}

/// The values of the front ends show every field.
pub proof fn law_front_ends_show_all(
    app: tui::App,
    lister: classic::App,
    window: gui::FerrisScanApp,
    picked: Option<Node>,
)
    ensures
        app.state is Scanning ==> app@.results is None,
        app.state matches tui::AppState::ViewingResults(root, report) ==> app@.results == Some(
            (root@, report@),
        ),
        app@.should_quit == app.should_quit,
        app@.popup_message == text_view(app.popup_message),
        app.navigation is None ==> app@.navigation is None,
        app.navigation matches Some(nav) ==> app@.navigation is Some
            && app@.navigation.unwrap().path == views(nav.path@)
            && app@.navigation.unwrap().selected == nav.selected,
        app@.list_selected == app.list_selected,
        app@.show_delete_modal == app.show_delete_modal,
        app@.pending_deletion == path_view(app.pending_deletion),
        lister.state is Scanning ==> lister@.results is None,
        lister.state matches tui::AppState::ViewingResults(root, report) ==> lister@.results
            == Some((root@, report@)),
        lister@.should_quit == lister.should_quit,
        lister@.popup_message == text_view(lister.popup_message),
        window@.scan_path == window.scan_path@,
        window.status is Idle <==> window@.status is Idle,
        window.status is Scanning <==> window@.status is Scanning,
        window.status matches gui::ScanStatus::Done { root, report } ==> window@.status
            == gui::StatusView::Done(root@, report@),
        window.status matches gui::ScanStatus::Error(message) ==> window@.status
            == gui::StatusView::Error(message@),
        window@.popup_message == text_view(window.popup_message),
        window.navigation is None ==> window@.navigation is None,
        window.navigation matches Some(nav) ==> window@.navigation == Some(views(nav.path@)),
        window@.selected_index == window.selected_index,
        picked matches Some(node) ==> gui::picked_view(picked) == Some(node@),
        picked is None ==> gui::picked_view(picked) is None,
{
}

} // verus!
