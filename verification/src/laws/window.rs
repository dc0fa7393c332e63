//! Laws of the windowed front end: what each click and each outcome changes, and
//! that nothing else changes.

use vstd::prelude::*;

use crate::front::{Edition, ExportView, OutcomeView};
use crate::gui::{
    after_frame, after_scan, cleared, displayed, enterable, export_reply, gone_into, gone_up, item,
    list_name_of, location_of, prepared, shortened, sound, started, tile_name_of, GuiView,
    StatusView,
};
use crate::node::NodeView;
use crate::scan::SkippedView;
use crate::trail::crumbs;

verus! {

/// A scan starts where the path exists; otherwise a message names the path.
pub proof fn law_scans_start_where_the_path_exists(app: GuiView)
    ensures
        started(app, true) == (GuiView { status: StatusView::Scanning, ..app }),
        started(app, false) == (GuiView {
            popup_message: Some("Path does not exist: "@ + app.scan_path),
            ..app
        }),
{
}

/// A scan that finishes is done with its tree and its report, one that fails
/// shows its error, and a panic changes nothing.
pub proof fn law_window_shows_the_outcome(
    app: GuiView,
    root: NodeView,
    skipped: Seq<SkippedView>,
    message: Seq<char>,
)
    ensures
        after_scan(app, OutcomeView::Finished(root, skipped)) == (GuiView {
            status: StatusView::Done(root, skipped),
            ..app
        }),
        after_scan(app, OutcomeView::Failed(message)) == (GuiView {
            status: StatusView::Error(message),
            ..app
        }),
        after_scan(app, OutcomeView::Panicked) == app,
{
}

/// Before results are drawn the root is opened where nothing is, and a selection
/// beyond the last item goes to the last; nothing else changes, and without
/// results nothing at all.
pub proof fn law_results_are_prepared(app: GuiView, root: NodeView, skipped: Seq<SkippedView>)
    requires
        app.navigation matches Some(way) ==> way.len() > 0,
    ensures
        !(app.status is Done) ==> prepared(app) == app,
        app.status == StatusView::Done(root, skipped) && app.navigation is None ==> prepared(app)
            == (GuiView { navigation: Some(seq![root]), selected_index: 0, ..app }),
        app.status is Done ==> (app.navigation matches Some(way) ==> {
            let n = way[way.len() - 1].children.len();
            let next = prepared(app);
            &&& next == (GuiView { selected_index: next.selected_index, ..app })
            &&& app.selected_index < n || n == 0 ==> next.selected_index == app.selected_index
            &&& 0 < n <= app.selected_index ==> next.selected_index == n - 1
        }),
{
}

/// A new scan clears status, way and selection; going up leaves the last
/// directory of the way where there is one above it; going into a child puts
/// exactly that child at its end. All of them select the first item, and change
/// nothing else.
pub proof fn law_clicks_lead_where_they_should(app: GuiView, way: Seq<NodeView>, child: NodeView)
    requires
        app.navigation == Some(way),
    ensures
        after_frame(app, false, false, None) == app,
        way.len() > 1 ==> after_frame(app, false, true, None) == (GuiView {
            navigation: Some(way.take(way.len() - 1)),
            selected_index: 0,
            ..app
        }),
        way.len() <= 1 ==> after_frame(app, false, true, None) == (GuiView {
            selected_index: 0,
            ..app
        }),
        way.len() <= 1 ==> after_frame(app, false, true, Some(child)) == (GuiView {
            navigation: Some(way + seq![child]),
            selected_index: 0,
            ..app
        }),
        after_frame(app, false, false, Some(child)) == (GuiView {
            navigation: Some(way + seq![child]),
            selected_index: 0,
            ..app
        }),
        way.len() > 1 ==> after_frame(app, false, true, Some(child)) == (GuiView {
            navigation: Some(way.take(way.len() - 1) + seq![child]),
            selected_index: 0,
            ..app
        }),
        gone_up(app) == after_frame(app, false, true, None),
        gone_into(app, child) == after_frame(app, false, false, Some(child)),
        cleared(app) == after_frame(app, true, false, None),
        way.len() > 1 ==> shortened(way) == way.take(way.len() - 1),
        way.len() <= 1 ==> shortened(way) == way,
{
    assert(way.push(child) =~= way + seq![child]);
    assert(way.len() > 1 ==> way.drop_last() =~= way.take(way.len() - 1));
    assert(way.len() > 1 ==> way.drop_last().push(child) =~= way.take(way.len() - 1) + seq![child]);
}

/// Without a way through a tree only a new scan changes anything, and after one
/// there is no way left to go.
pub proof fn law_clicks_need_a_tree(
    app: GuiView,
    up: bool,
    down: Option<NodeView>,
    child: NodeView,
)
    ensures
        app.navigation is None ==> after_frame(app, false, up, down) == app,
        app.navigation is None ==> gone_up(app) == app && gone_into(app, child) == app,
        after_frame(app, true, up, down) == (GuiView {
            status: StatusView::Idle,
            navigation: None,
            selected_index: 0,
            ..app
        }),
{
}

/// The items on display are those of the directory that was navigated to, or of
/// the root; one can be entered exactly if it is a directory.
pub proof fn law_items_are_those_of_the_directory(app: GuiView, index: int)
    ensures
        !(app.status is Done) ==> displayed(app) is None && item(app, index) is None,
        (app.status matches StatusView::Done(root, skipped) && app.navigation is None)
            ==> displayed(app) == Some(app.status->Done_0),
        app.status is Done ==> (app.navigation matches Some(way) ==> way.len() > 0 ==> displayed(
            app,
        ) == Some(way[way.len() - 1])),
        displayed(app) matches Some(node) ==> {
            &&& 0 <= index < node.children.len() ==> item(app, index) == Some(node.children[index])
            &&& !(0 <= index < node.children.len()) ==> item(app, index) is None
            &&& 0 <= index < node.children.len() && node.children[index].is_dir ==> enterable(
                app,
                index,
            ) == Some(node.children[index])
            &&& !(0 <= index < node.children.len() && node.children[index].is_dir) ==> enterable(
                app,
                index,
            ) is None
        },
        displayed(app) is None ==> enterable(app, index) is None,
        app.navigation is None ==> location_of(app) == "Root"@,
        app.navigation matches Some(way) ==> location_of(app) == crumbs(way),
        sound(app) <==> (app.navigation matches Some(way) ==> way.len() > 0),
{
}

/// Names in the list keep forty characters and those on tiles twenty, with an
/// ellipsis where there are more.
pub proof fn law_names_in_the_window_are_cut(name: Seq<char>)
    ensures
        name.len() <= 40 ==> list_name_of(name) == name,
        name.len() > 40 ==> list_name_of(name) == name.take(40).push('…'),
        name.len() <= 20 ==> tile_name_of(name) == name,
        name.len() > 20 ==> tile_name_of(name) == name.take(20).push('…'),
{
    reveal_strlit("…");
    assert("…"@ =~= seq!['…']);
    assert(name.take(40) + seq!['…'] =~= name.take(40).push('…'));
    assert(name.take(20) + seq!['…'] =~= name.take(20).push('…'));
}

/// An export is answered with where it was saved, or why not, with the marks that
/// were given; in the free edition with what it takes.
pub proof fn law_window_answers_the_export(
    good: Seq<char>,
    bad: Seq<char>,
    text: Seq<char>,
    outcome: ExportView,
)
    ensures
        export_reply(Edition::Pro, good, bad, ExportView::Saved(text)) == good
            + " Export successful!\n\nSaved to:\n"@ + text,
        export_reply(Edition::Pro, good, bad, ExportView::Failed(text)) == bad
            + " Export failed:\n"@ + text,
        export_reply(Edition::Free, good, bad, outcome)
            == "This is a Pro Feature\n\nCSV Export is only available in ferris-scan Pro.\n\nBuild with: cargo build --release --features pro --bin ferris-scan-gui"@,
{
}

} // verus!
