//! Laws of the terminal front ends: what each key and each outcome changes, and
//! that nothing else changes.

use vstd::prelude::*;

use crate::classic;
use crate::classic::ListerView;
use crate::front::{
    export_note, scan_fault, stats_of, tag_of, Edition, ExportView, Key, OutcomeView, Request,
};
use crate::node::{deleted, locate, NodeView};
use crate::path::{file_name_of, PartView};
use crate::scan::SkippedView;
use crate::text::{decimal, size_text};
use crate::trail::{crumbs, way_to};
use crate::tui::{
    after_deletion, after_scan, asked, asked_to_delete, at_root, backed_out, called_off, can_open,
    displayed, export_reply, gone_up, line_or_first, location_of, moved, opened, pressed, rebuilt,
    requested, saying, sound, stepped_down, stepped_up, AppView, NavView,
};

verus! {

/// Opening the item `index` leads into exactly that item, if it is a directory;
/// the way there stays as it was, and otherwise nothing changes.
pub proof fn law_opening_leads_into_the_item(nav: NavView, index: int)
    requires
        nav.path.len() > 0,
    ensures
        ({
            let n = nav.path.len();
            let items = nav.path[n - 1].children;
            let next = opened(nav, index);
            if 0 <= index < items.len() && items[index].is_dir {
                &&& can_open(nav, index)
                &&& next.path.len() == n + 1
                &&& next.path[n as int] == items[index]
                &&& forall|i: int| 0 <= i < n ==> #[trigger] next.path[i] == nav.path[i]
                &&& next.selected == 0
            } else {
                &&& !can_open(nav, index)
                &&& next == nav
            }
        }),
{
}

/// Going up leaves out the last directory of the way, as long as there is one
/// above it; starting anew begins with the root alone.
pub proof fn law_going_up_leaves_the_last(nav: NavView, root: NodeView)
    ensures
        nav.path.len() <= 1 ==> gone_up(nav) == nav,
        nav.path.len() > 1 ==> {
            &&& gone_up(nav).path.len() == nav.path.len() - 1
            &&& gone_up(nav).selected == 0
            &&& forall|i: int|
                0 <= i < nav.path.len() - 1 ==> #[trigger] gone_up(nav).path[i] == nav.path[i]
        },
        at_root(root).path.len() == 1,
        at_root(root).path[0] == root,
        at_root(root).selected == 0,
{
}

/// Going to the same directory in another tree follows the path of the directory
/// that was open.
pub proof fn law_rebuilding_follows_the_path(nav: NavView, root: NodeView)
    ensures
        rebuilt(nav, root).selected == 0,
        nav.path.len() == 0 ==> rebuilt(nav, root).path == seq![root],
        nav.path.len() > 0 ==> rebuilt(nav, root).path == way_to(
            root,
            nav.path[nav.path.len() - 1].path,
        ),
{
}

/// The keys for up and down move the highlight by one line in the list of the
/// current directory, around its ends, and change nothing else.
pub proof fn law_keys_move_the_highlight(app: AppView, nav: NavView, key: Key)
    requires
        !app.show_delete_modal,
        app.popup_message is None,
        app.navigation == Some(nav),
        nav.path.len() > 0,
        nav.path[nav.path.len() - 1].children.len() <= usize::MAX,
        key == Key::Up || key == Key::Down || key == Key::Char('k') || key == Key::Char('j'),
    ensures
        ({
            let n = nav.path[nav.path.len() - 1].children.len();
            let line = if app.list_selected is Some {
                app.list_selected.unwrap() as int
            } else {
                0
            };
            let down = key == Key::Down || key == Key::Char('j');
            let next = pressed(app, key);
            &&& n == 0 ==> next == app
            &&& n > 0 ==> next == (AppView { list_selected: next.list_selected, ..app })
            &&& n > 0 ==> (next.list_selected matches Some(at) && at as int == (if down {
                if line + 1 < n {
                    line + 1
                } else {
                    0
                }
            } else {
                if line > 0 {
                    line - 1
                } else {
                    n - 1
                }
            }))
        }),
{
}

/// The key for deleting puts exactly the highlighted item of the current
/// directory up for deletion and asks; where no item is highlighted, nothing
/// changes.
pub proof fn law_delete_key_takes_the_highlighted_item(app: AppView)
    requires
        !app.show_delete_modal,
        app.popup_message is None,
    ensures
        ({
            let next = pressed(app, Key::Char('d'));
            &&& (app.results is Some && (app.navigation matches Some(nav) && nav.path.len() > 0 && (
            app.list_selected matches Some(i) && i < nav.path[nav.path.len()
                - 1].children.len()))) ==> next == (AppView {
                pending_deletion: Some(
                    app.navigation.unwrap().path[app.navigation.unwrap().path.len()
                        - 1].children[app.list_selected.unwrap() as int].path,
                ),
                show_delete_modal: true,
                ..app
            })
            &&& app.results is None || app.navigation is None || app.list_selected is None ==> next
                == app
            &&& (app.navigation matches Some(nav) && nav.path.len() > 0 && (
            app.list_selected matches Some(i) && i >= nav.path[nav.path.len()
                - 1].children.len())) ==> next == app
        }),
{
}

/// Whatever is on display, asking for a deletion puts exactly the highlighted
/// item of the current directory up for it: the one at the highlighted line.
/// Where there is none, nothing changes, and calling off forgets the item.
pub proof fn law_asking_takes_the_item_at_the_line(app: AppView, nav: NavView, line: usize)
    requires
        app.navigation == Some(nav),
        nav.path.len() > 0,
    ensures
        ({
            let items = nav.path[nav.path.len() - 1].children;
            &&& app.results is Some && app.list_selected == Some(line) && line < items.len()
                ==> asked_to_delete(app) == (AppView {
                pending_deletion: Some(items[line as int].path),
                show_delete_modal: true,
                ..app
            })
            &&& app.list_selected == Some(line) && line >= items.len() ==> asked_to_delete(app)
                == app
        }),
        app.list_selected is None || app.results is None ==> asked_to_delete(app) == app,
        asked_to_delete(AppView { navigation: None, ..app }) == (AppView {
            navigation: None,
            ..app
        }),
        called_off(app) == (AppView { pending_deletion: None, show_delete_modal: false, ..app }),
        called_off(AppView { navigation: None, ..app }) == (AppView {
            navigation: None,
            pending_deletion: None,
            show_delete_modal: false,
            ..app
        }),
{
}

/// Whatever is on display, moving goes one line up or down around the ends of the
/// list, opening leads into the item at the highlighted line, and going back
/// leaves the last directory of the way; nothing else changes.
pub proof fn law_steps_follow_the_line(app: AppView, nav: NavView, down: bool)
    requires
        app.navigation == Some(nav),
        nav.path.len() > 0,
        nav.path[nav.path.len() - 1].children.len() <= usize::MAX,
    ensures
        ({
            let items = nav.path[nav.path.len() - 1].children;
            let n = items.len();
            let line = if app.list_selected is Some {
                app.list_selected.unwrap() as int
            } else {
                0
            };
            let shorter = AppView {
                navigation: Some(NavView { path: nav.path.take(nav.path.len() - 1), selected: 0 }),
                list_selected: Some(0),
                ..app
            };
            &&& n == 0 ==> moved(app, down) == app
            &&& n > 0 ==> moved(app, down) == (AppView {
                list_selected: Some(
                    (if down && line + 1 < n {
                        line + 1
                    } else if down {
                        0
                    } else if line > 0 {
                        line - 1
                    } else {
                        n - 1
                    }) as usize,
                ),
                ..app
            })
            &&& app.list_selected is Some && line < n && items[line].is_dir ==> stepped_down(app)
                == (AppView {
                navigation: Some(NavView { path: nav.path + seq![items[line]], selected: 0 }),
                list_selected: Some(0),
                ..app
            })
            &&& app.list_selected is None || line >= n || !items[line].is_dir ==> stepped_down(app)
                == app
            &&& nav.path.len() > 1 ==> stepped_up(app) == shorter && backed_out(app) == shorter
            &&& nav.path.len() == 1 ==> stepped_up(app) == (AppView {
                list_selected: Some(0),
                ..app
            })
            &&& nav.path.len() == 1 ==> backed_out(app) == (AppView { should_quit: true, ..app })
        }),
{
    let items = nav.path[nav.path.len() - 1].children;
    assert(nav.path.last() == nav.path[nav.path.len() - 1]);
    assert(nav.path.len() > 1 ==> nav.path.drop_last() =~= nav.path.take(nav.path.len() - 1));
    if let Some(i) = app.list_selected {
        if i < items.len() {
            assert(nav.path.push(items[i as int]) =~= nav.path + seq![items[i as int]]);
        }
    }
}

/// Without a tree there is nothing to move in, to open or to leave.
pub proof fn law_no_steps_without_a_tree(app: AppView, down: bool)
    requires
        app.navigation is None,
    ensures
        moved(app, down) == app,
        stepped_down(app) == app,
        stepped_up(app) == app,
        backed_out(app) == (AppView { should_quit: true, ..app }),
{
}

/// The keys for opening lead into exactly the highlighted item, if it is a
/// directory, and to its first line; otherwise nothing changes.
pub proof fn law_open_keys_enter_the_highlighted_item(app: AppView, nav: NavView, key: Key)
    requires
        !app.show_delete_modal,
        app.popup_message is None,
        app.navigation == Some(nav),
        nav.path.len() > 0,
        key == Key::Enter || key == Key::Char('l'),
    ensures
        ({
            let items = nav.path[nav.path.len() - 1].children;
            let next = pressed(app, key);
            if app.list_selected is Some && app.list_selected.unwrap() < items.len()
                && items[app.list_selected.unwrap() as int].is_dir {
                &&& next == (AppView {
                    navigation: next.navigation,
                    list_selected: Some(0),
                    ..app
                })
                &&& next.navigation matches Some(there) && {
                    &&& there.selected == 0
                    &&& there.path.len() == nav.path.len() + 1
                    &&& there.path[nav.path.len() as int] == items[app.list_selected.unwrap() as int]
                    &&& forall|i: int|
                        0 <= i < nav.path.len() ==> #[trigger] there.path[i] == nav.path[i]
                }
            } else {
                next == app
            }
        }),
{
}

/// The keys for going back leave the current directory for the one above it and
/// go to its first line. At the root they go to the first line, except that
/// Escape quits.
pub proof fn law_back_keys_leave_the_directory(app: AppView, nav: NavView, key: Key)
    requires
        !app.show_delete_modal,
        app.popup_message is None,
        app.navigation == Some(nav),
        nav.path.len() > 0,
        key == Key::Backspace || key == Key::Char('h') || key == Key::Esc,
    ensures
        ({
            let n = nav.path.len();
            let next = pressed(app, key);
            if n > 1 {
                &&& next == (AppView {
                    navigation: next.navigation,
                    list_selected: Some(0),
                    ..app
                })
                &&& next.navigation matches Some(there) && {
                    &&& there.selected == 0
                    &&& there.path.len() == n - 1
                    &&& forall|i: int| 0 <= i < n - 1 ==> #[trigger] there.path[i] == nav.path[i]
                }
            } else if key == Key::Esc {
                next == (AppView { should_quit: true, ..app })
            } else {
                next == (AppView { list_selected: Some(0), ..app })
            }
        }),
{
}

/// Before there is a tree, keys can only quit; `q` always quits, and a key that
/// stands for nothing changes nothing.
pub proof fn law_other_keys_change_nothing(app: AppView, key: Key)
    requires
        !app.show_delete_modal,
        app.popup_message is None,
    ensures
        pressed(app, Key::Char('q')) == (AppView { should_quit: true, ..app }),
        app.navigation is None ==> pressed(app, key) == (AppView {
            should_quit: app.should_quit || key == Key::Esc || key == Key::Char('q'),
            ..app
        }),
        key == Key::Other || key == Key::Char('e') ==> pressed(app, key) == app,
        (key matches Key::Char(c) && c != 'q' && c != 'd' && c != 'l' && c != 'h' && c != 'k' && c
            != 'j') ==> pressed(app, key) == app,
{
}

/// The dialog is answered by `n` and Escape, which call the deletion off, and by
/// `y` and Enter, which ask for it; every other key leaves it open.
pub proof fn law_dialog_is_answered(app: AppView, key: Key)
    requires
        app.show_delete_modal,
    ensures
        key == Key::Char('n') || key == Key::Esc ==> pressed(app, key) == (AppView {
            pending_deletion: None,
            show_delete_modal: false,
            ..app
        }),
        key != Key::Char('n') && key != Key::Esc ==> pressed(app, key) == app,
        called_off(app) == (AppView { pending_deletion: None, show_delete_modal: false, ..app }),
{
}

/// A message that is open takes any key and closes; showing one sets it.
pub proof fn law_message_is_closed_by_any_key(app: AppView, key: Key, message: Seq<char>)
    ensures
        !app.show_delete_modal && app.popup_message is Some ==> pressed(app, key) == (AppView {
            popup_message: None,
            ..app
        }),
        saying(app, message) == (AppView { popup_message: Some(message), ..app }),
{
}

/// Something is deleted on `y` or Enter in the dialog and exported on `e` outside
/// of dialog and message, and on no other key.
pub proof fn law_requests_come_from_their_keys(app: AppView, key: Key)
    ensures
        requested(app, key) == Request::Delete <==> app.show_delete_modal && (key == Key::Char('y')
            || key == Key::Enter),
        requested(app, key) == Request::Export <==> !app.show_delete_modal && app.popup_message
            is None && key == Key::Char('e'),
{
}

/// A scan that finishes puts its results on display, with the root open and the
/// first line highlighted; one that does not says why. Results that are on
/// display stay.
pub proof fn law_finished_scan_is_shown(
    app: AppView,
    root: NodeView,
    skipped: Seq<SkippedView>,
    message: Seq<char>,
)
    ensures
        app.results is Some ==> after_scan(app, OutcomeView::Finished(root, skipped)) == app
            && after_scan(app, OutcomeView::Failed(message)) == app && after_scan(
            app,
            OutcomeView::Panicked,
        ) == app,
        app.results is None ==> after_scan(app, OutcomeView::Finished(root, skipped)) == (AppView {
            results: Some((root, skipped)),
            navigation: Some(NavView { path: seq![root], selected: 0 }),
            list_selected: Some(0),
            ..app
        }),
        app.results is None ==> after_scan(app, OutcomeView::Failed(message)) == (AppView {
            popup_message: Some("Scan error: "@ + message),
            ..app
        }),
        app.results is None ==> after_scan(app, OutcomeView::Panicked) == (AppView {
            popup_message: Some("Internal error: scan thread panicked"@),
            ..app
        }),
{
}

/// A deletion that was confirmed and whose entry is gone from disk takes the node
/// at the pending path out of the tree, goes back to where the user was, or one
/// directory up where that is what was deleted, keeps the highlight on the list,
/// and says so.
pub proof fn law_confirmed_deletion_takes_effect(
    app: AppView,
    root: NodeView,
    skipped: Seq<SkippedView>,
    path: Seq<PartView>,
    nav: NavView,
    shown: Seq<char>,
)
    requires
        app.results == Some((root, skipped)),
        app.pending_deletion == Some(path),
        app.navigation == Some(nav),
        nav.path.len() > 0,
        locate(root, path) is Some,
    ensures
        ({
            let after = after_deletion(app, Ok(()), shown);
            let left = deleted(root, path, true);
            let n = nav.path.len();
            let open = if nav.path[n - 1].path == path && n > 1 {
                nav.path[n - 2].path
            } else {
                nav.path[n - 1].path
            };
            let way = way_to(left, open);
            let items = way[way.len() - 1].children.len();
            &&& after.results == Some((left, skipped))
            &&& after.navigation == Some(NavView { path: way, selected: 0 })
            &&& after.popup_message == Some("✓ Successfully deleted: "@ + shown)
            &&& after.should_quit == app.should_quit
            &&& after.pending_deletion is None
            &&& !after.show_delete_modal
            &&& app.list_selected is None || items == 0 ==> after.list_selected is None
            &&& (app.list_selected matches Some(i) && i < items) ==> after.list_selected
                == app.list_selected
            &&& (app.list_selected matches Some(i) && 0 < items <= i) ==> (
            after.list_selected matches Some(j) && j == items - 1)
        }),
{
}

/// A deletion that was confirmed before a way was gone takes the node out of the
/// tree and says so.
pub proof fn law_confirmed_deletion_without_a_way(
    app: AppView,
    root: NodeView,
    skipped: Seq<SkippedView>,
    path: Seq<PartView>,
    shown: Seq<char>,
)
    requires
        app.results == Some((root, skipped)),
        app.pending_deletion == Some(path),
        app.navigation is None,
        locate(root, path) is Some,
    ensures
        after_deletion(app, Ok(()), shown) == (AppView {
            results: Some((deleted(root, path, true), skipped)),
            popup_message: Some("✓ Successfully deleted: "@ + shown),
            pending_deletion: None,
            show_delete_modal: false,
            ..app
        }),
{
}

/// A deletion that finds no node, or whose entry stays on disk, closes the dialog
/// and says why, and nothing else; without a pending path or results it only
/// closes the dialog.
pub proof fn law_failed_deletion_says_why(
    app: AppView,
    disk: Result<(), Seq<char>>,
    shown: Seq<char>,
)
    ensures
        ({
            let after = after_deletion(app, disk, shown);
            let closed = AppView { pending_deletion: None, show_delete_modal: false, ..app };
            &&& app.pending_deletion is None || app.results is None ==> after == closed
            &&& (app.pending_deletion matches Some(path) && (app.results matches Some((root, skipped))
                && locate(root, path) is None)) ==> after == (AppView {
                popup_message: Some("✗ Deletion failed: "@ + ("Node not found: "@ + shown)),
                ..closed
            })
            &&& (app.pending_deletion matches Some(path) && (app.results matches Some((root, skipped))
                && locate(root, path) is Some)) ==> (disk matches Err(message) ==> after
                == (AppView {
                popup_message: Some("✗ Deletion failed: "@ + message),
                ..closed
            }))
        }),
{
}

/// An export is answered with where it was saved, or why not; without results
/// with a word of patience, and in the free edition with what it takes.
pub proof fn law_export_is_answered(app: AppView, shown: Seq<char>, outcome: ExportView)
    ensures
        app.results is Some ==> export_reply(app, Edition::Pro, ExportView::Saved(shown)) == "✓"@
            + " Export successful!\n\nSaved to:\n"@ + shown,
        app.results is Some ==> export_reply(app, Edition::Pro, ExportView::Failed(shown)) == "✗"@
            + " Export failed:\n"@ + shown,
        app.results is None ==> export_reply(app, Edition::Pro, outcome)
            == "Please wait for scan to complete first."@,
        export_reply(app, Edition::Free, outcome)
            == "⚠ This is a Pro Feature\n\nCSV Export is only available in ferris-scan Pro.\n\nBuild with: cargo build --release --features pro"@,
{
}

/// What is on display is the directory that was navigated to, or else the root;
/// its location are the names on the way, and the dialog asks about the pending
/// item by its file name.
pub proof fn law_display_follows_the_way(app: AppView, shown: Seq<char>)
    ensures
        app.results is None ==> displayed(app) is None,
        (app.results matches Some((root, skipped)) && app.navigation is None) ==> displayed(app)
            == Some(app.results.unwrap().0),
        app.results is Some ==> (app.navigation matches Some(nav) ==> nav.path.len() > 0
            ==> displayed(app) == Some(nav.path[nav.path.len() - 1])),
        app.navigation is None ==> location_of(app) == "Root"@,
        app.navigation matches Some(nav) ==> location_of(app) == crumbs(nav.path),
        app.list_selected matches Some(i) ==> line_or_first(app.list_selected) == i,
        app.list_selected is None ==> line_or_first(app.list_selected) == 0,
        sound(app) <==> (app.navigation matches Some(nav) ==> nav.path.len() > 0),
        !app.show_delete_modal || app.pending_deletion is None ==> asked(app, shown) is None,
        app.show_delete_modal ==> (app.pending_deletion matches Some(path) ==> asked(app, shown)
            == Some(
            "Are you sure you want to delete\n"@ + (if file_name_of(path) is Some {
                file_name_of(path).unwrap()
            } else {
                shown
            }) + "\n\nThis cannot be undone.\n\n[y/Enter] Confirm  [n/Esc] Cancel"@,
        )),
{
}

/// The plain front end: a message takes any key, `q` and Escape quit, `e` asks
/// for an export, and no other key does anything.
pub proof fn law_plain_keys(app: ListerView, key: Key)
    ensures
        app.popup_message is Some ==> classic::pressed(app, key) == (ListerView {
            popup_message: None,
            ..app
        }),
        app.popup_message is None ==> classic::pressed(app, key) == (ListerView {
            should_quit: app.should_quit || key == Key::Char('q') || key == Key::Esc,
            ..app
        }),
        classic::requested(app, key) == Request::Export <==> app.popup_message is None && key
            == Key::Char('e'),
        classic::requested(app, key) != Request::Delete,
{
}

/// The plain front end: what outcomes change, and how an export is answered.
pub proof fn law_plain_outcomes(
    app: ListerView,
    root: NodeView,
    skipped: Seq<SkippedView>,
    message: Seq<char>,
    outcome: OutcomeView,
    export: ExportView,
)
    ensures
        app.results is Some ==> classic::after_scan(app, outcome) == app,
        app.results is None ==> classic::after_scan(app, OutcomeView::Finished(root, skipped))
            == (ListerView { results: Some((root, skipped)), ..app }),
        app.results is None ==> classic::after_scan(app, OutcomeView::Failed(message))
            == (ListerView { popup_message: Some("Scan error: "@ + message), ..app }),
        app.results is None ==> classic::after_scan(app, OutcomeView::Panicked) == (ListerView {
            popup_message: Some("Internal error: scan thread panicked"@),
            ..app
        }),
        classic::saying(app, message) == (ListerView { popup_message: Some(message), ..app }),
        app.results is Some ==> classic::export_reply(
            app,
            Edition::Pro,
            ExportView::Saved(message),
        ) == "✓"@ + " Export successful!\n\nSaved to:\n"@ + message,
        app.results is Some ==> classic::export_reply(
            app,
            Edition::Pro,
            ExportView::Failed(message),
        ) == "✗"@ + " Export failed:\n"@ + message,
        app.results is None ==> classic::export_reply(app, Edition::Pro, export)
            == "Please wait for scan to complete first."@,
        classic::export_reply(app, Edition::Free, export)
            == "⚠ This is a Pro Feature\n\nCSV Export is only available in ferris-scan Pro.\n\nBuild with: cargo build --release --features pro"@,
{
}

/// Messages and tags hold what they were given, and the figures are those of the
/// tree, the report and the current directory.
pub proof fn law_messages_and_figures(
    good: Seq<char>,
    bad: Seq<char>,
    text: Seq<char>,
    edition: Edition,
    root: NodeView,
    report: Seq<SkippedView>,
    current: NodeView,
)
    ensures
        export_note(good, bad, ExportView::Saved(text)) == good
            + " Export successful!\n\nSaved to:\n"@ + text,
        export_note(good, bad, ExportView::Failed(text)) == bad + " Export failed:\n"@ + text,
        scan_fault(OutcomeView::Failed(text)) == "Scan error: "@ + text,
        scan_fault(OutcomeView::Panicked) == "Internal error: scan thread panicked"@,
        edition == Edition::Pro ==> tag_of(edition) == "[PRO]"@,
        edition == Edition::Free ==> tag_of(edition) == "[FREE]"@,
        stats_of(root, report, current).total_size == size_text(root.size as nat),
        stats_of(root, report, current).skipped == decimal(report.len()) + " entries"@,
        stats_of(root, report, current).name == current.name,
        stats_of(root, report, current).size == size_text(current.size as nat),
        stats_of(root, report, current).items == decimal(current.children.len()),
{
}

} // verus!
