//! Laws of browsing a tree in the front ends.

use vstd::prelude::*;
use vstd::utf8::{encode_utf8, encode_utf8_decode_utf8, encode_utf8_valid_utf8};

use crate::front::{Key, Request};
use crate::gui;
use crate::laws::deletion::{law_deleted_is_gone, well_placed};
use crate::laws::scanning::{law_scanned_tree_is_well_named, ordinary, well_named};
use crate::node::{deleted, locate, node_at, on_tree, pruned, NodeView};
use crate::path::{joined, text_of, PartKind, PartView, TextView};
use crate::scan::{scanned_tree, EventView};
use crate::trail::{connected, way_along, way_to};
use crate::tree::{child_with_name, first_with_name, lemma_child_with_name};
use crate::tui::{
    after_deletion, asked_to_delete, at_root, called_off, can_open, gone_up, highlighted,
    kept_on_list, line_after, line_before, opened, pressed, rebuilt, requested, sound, AppView,
    NavView,
};

verus! {

/// Going up after opening a directory leads back to where it was opened.
pub proof fn law_up_undoes_open(nav: NavView, index: int)
    requires
        nav.path.len() > 0,
        can_open(nav, index),
    ensures
        gone_up(opened(nav, index)) == (NavView { path: nav.path, selected: 0 }),
{
    assert(opened(nav, index).path.drop_last() =~= nav.path);
}

/// Going up after going into a child leads back in the windowed front end too.
pub proof fn law_up_undoes_into(app: gui::GuiView, child: NodeView)
    requires
        gui::sound(app),
    ensures
        gui::gone_up(gui::gone_into(app, child)).navigation == app.navigation,
{
    if let Some(way) = app.navigation {
        assert(way.push(child).drop_last() =~= way);
    }
}

/// Going into a directory that is on display leads to a child of the current one.
pub proof fn law_entering_stays_on_the_tree(app: gui::GuiView, index: int)
    requires
        gui::sound(app),
        app.navigation matches Some(way) && connected(way),
        gui::enterable(app, index) is Some,
    ensures
        gui::gone_into(app, gui::enterable(app, index).unwrap()).navigation matches Some(way)
            && connected(way),
{
    let way = app.navigation.unwrap();
    let child = gui::enterable(app, index).unwrap();
    let next = way.push(child);
    assert forall|k: int| 0 < k < next.len() implies next[k - 1].children.contains(
        #[trigger] next[k],
    ) by {
        assert(next[k - 1] == way[k - 1]);
        if k < way.len() {
            assert(next[k] == way[k]);
        } else {
            assert(way.last().children[index] == child);
        }
    }
}

/// When results are drawn, something is open and the selection lies in it,
/// unless it is empty.
pub proof fn law_selection_is_drawn(app: gui::GuiView)
    requires
        gui::sound(app),
        app.status is Done,
    ensures
        gui::displayed(gui::prepared(app)) matches Some(node) && (0 < node.children.len()
            <= usize::MAX ==> gui::prepared(app).selected_index < node.children.len()),
        gui::prepared(gui::prepared(app)) == gui::prepared(app),
{
}

proof fn lemma_way_along_connected(node: NodeView, parts: Seq<PartView>)
    ensures
        way_along(node, parts) matches Some(way) ==> {
            &&& way.len() == parts.len() + 1
            &&& way[0] == node
            &&& connected(way)
        },
    decreases parts.len(),
{
    if parts.len() > 0 {
        if let Some(i) = child_with_name(node.children, text_of(parts[0].text)) {
            assert(first_with_name(node.children, text_of(parts[0].text), i));
            let child = node.children[i];
            lemma_way_along_connected(child, parts.skip(1));
            if let Some(rest) = way_along(child, parts.skip(1)) {
                let way = seq![node] + rest;
                assert forall|k: int| 0 < k < way.len() implies way[k - 1].children.contains(
                    #[trigger] way[k],
                ) by {
                    if k == 1 {
                        assert(node.children[i] == way[1]);
                    } else {
                        assert(way[k] == rest[k - 1]);
                        assert(way[k - 1] == rest[k - 2]);
                    }
                }
            }
        }
    }
}

/// The way to a path starts at the root, and each of its nodes is a child of
/// the one before.
pub proof fn law_way_leads_down_the_tree(root: NodeView, target: Seq<PartView>)
    ensures
        way_to(root, target).len() > 0,
        way_to(root, target)[0] == root,
        connected(way_to(root, target)),
{
    lemma_way_along_connected(root, target.skip(root.path.len() as int));
}

/// Wherever the user goes, each node of the way is a child of the one before it.
pub proof fn law_browsing_stays_on_the_tree(nav: NavView, index: int, root: NodeView)
    requires
        nav.path.len() > 0,
        connected(nav.path),
    ensures
        connected(at_root(root).path),
        connected(opened(nav, index).path),
        connected(gone_up(nav).path),
        connected(rebuilt(nav, root).path),
        opened(nav, index).path[0] == nav.path[0],
        gone_up(nav).path[0] == nav.path[0],
        rebuilt(nav, root).path[0] == root,
{
    law_way_leads_down_the_tree(root, nav.path.last().path);
    let way = nav.path;
    let next = opened(nav, index).path;
    if can_open(nav, index) {
        assert forall|k: int| 0 < k < next.len() implies next[k - 1].children.contains(
            #[trigger] next[k],
        ) by {
            assert(next[k - 1] == way[k - 1]);
            if k < way.len() {
                assert(next[k] == way[k]);
            } else {
                assert(next[k] == way.last().children[index]);
            }
        }
    }
    let up = gone_up(nav).path;
    assert forall|k: int| 0 < k < up.len() implies up[k - 1].children.contains(
        #[trigger] up[k],
    ) by {
        assert(up[k] == way[k] && up[k - 1] == way[k - 1]);
    }
}

proof fn lemma_node_is_reached(node: NodeView, trail: Seq<int>)
    requires
        well_named(node),
        on_tree(node, trail),
    ensures
        node.path.is_prefix_of(node_at(node, trail).path),
        way_along(node, node_at(node, trail).path.skip(node.path.len() as int)) matches Some(way)
            && way.last() == node_at(node, trail),
    decreases trail.len(),
{
    let target = node_at(node, trail).path;
    let parts = target.skip(node.path.len() as int);
    if trail.len() == 0 {
        assert(node.path =~= target.subrange(0, node.path.len() as int));
        assert(parts =~= Seq::<PartView>::empty());
    } else {
        let i = trail[0];
        let child = node.children[i];
        lemma_node_is_reached(child, trail.skip(1));
        assert(child.path == joined(node.path, PartKind::Normal, child.name));
        assert(child.path =~= target.subrange(0, child.path.len() as int));
        assert(node.path =~= target.subrange(0, node.path.len() as int)) by {
            assert forall|k: int| 0 <= k < node.path.len() implies node.path[k] == target[k] by {
                assert(child.path[k] == node.path[k]);
                assert(child.path[k] == target.subrange(0, child.path.len() as int)[k]);
            }
        }
        let at = node.path.len() as int;
        assert(parts[0] == child.path[at]) by {
            assert(child.path[at] == target.subrange(0, child.path.len() as int)[at]);
        }
        assert(parts[0].text == TextView::Bytes(encode_utf8(child.name)));
        encode_utf8_valid_utf8(child.name);
        encode_utf8_decode_utf8(child.name);
        assert(text_of(parts[0].text) == child.name);
        assert(first_with_name(node.children, child.name, i)) by {
            assert forall|j: int| 0 <= j < i implies (#[trigger] node.children[j]).name
                != child.name by {
                assert(node.children[j].name != node.children[i].name);
            }
        }
        lemma_child_with_name(node.children, child.name, i);
        assert(parts.skip(1) =~= target.skip(child.path.len() as int));
        lemma_way_along_connected(child, parts.skip(1));
        let rest = way_along(child, parts.skip(1)).unwrap();
        assert((seq![node] + rest).last() == rest.last());
    }
}

/// In a tree whose paths are made of its names, the way to a node's path leads
/// to that node: going back to a directory after the tree has changed finds it
/// wherever it still stands.
pub proof fn law_every_node_is_reached(root: NodeView, trail: Seq<int>)
    requires
        well_named(root),
        on_tree(root, trail),
    ensures
        way_to(root, node_at(root, trail).path).last() == node_at(root, trail),
{
    lemma_node_is_reached(root, trail);
}

/// After a deletion the paths of the tree are still made of its names.
pub proof fn law_deletion_keeps_names(node: NodeView, trail: Seq<int>)
    requires
        well_named(node),
        on_tree(node, trail),
    ensures
        well_named(pruned(node, trail)),
        pruned(node, trail).name == node.name,
        pruned(node, trail).path == node.path,
    decreases trail.len(),
{
    let after = pruned(node, trail);
    if trail.len() > 0 {
        let gone = trail[0];
        if trail.len() > 1 {
            law_deletion_keeps_names(node.children[gone], trail.skip(1));
        }
        assert forall|i: int| 0 <= i < after.children.len() implies {
            &&& (#[trigger] after.children[i]).path == joined(
                after.path,
                PartKind::Normal,
                after.children[i].name,
            )
            &&& well_named(after.children[i])
        } by {
            let j = if trail.len() == 1 && i >= gone {
                i + 1
            } else {
                i
            };
            assert(well_named(node.children[j]));
        }
        assert forall|i: int, j: int| 0 <= i < j < after.children.len() implies (
        #[trigger] after.children[i]).name != (#[trigger] after.children[j]).name by {
            let a = if trail.len() == 1 && i >= gone {
                i + 1
            } else {
                i
            };
            let b = if trail.len() == 1 && j >= gone {
                j + 1
            } else {
                j
            };
            assert(node.children[a].name != node.children[b].name);
        }
    }
}

/// Every node of a scanned tree is reached by its path.
pub proof fn law_scanned_nodes_are_reached(
    root: Seq<PartView>,
    walk: Seq<EventView>,
    trail: Seq<int>,
)
    requires
        ordinary(root, walk),
        on_tree(scanned_tree(root, walk), trail),
    ensures
        way_to(
            scanned_tree(root, walk),
            node_at(scanned_tree(root, walk), trail).path,
        ).last() == node_at(scanned_tree(root, walk), trail),
{
    law_scanned_tree_is_well_named(root, walk);
    law_every_node_is_reached(scanned_tree(root, walk), trail);
}

/// Moving the highlight down and up again, or up and down again, leaves it where
/// it was.
pub proof fn law_up_and_down_cancel(line: int, n: int)
    requires
        0 <= line < n,
    ensures
        line_before(line_after(line, n), n) == line,
        line_after(line_before(line, n), n) == line,
{
}

/// A highlight on the list stays on it, whichever way it moves and whatever is
/// deleted.
pub proof fn law_highlight_stays_on_the_list(line: usize, n: nat)
    requires
        n <= usize::MAX,
    ensures
        line < n ==> 0 <= line_after(line as int, n as int) < n && 0 <= line_before(
            line as int,
            n as int,
        ) < n,
        kept_on_list(Some(line), n) matches Some(kept) ==> kept < n,
        kept_on_list(Some(line), n) is None <==> n == 0,
{
}

/// Something is deleted only from the confirmation dialog, and that dialog opens
/// only for the highlighted item, by the key for it.
pub proof fn law_deletion_needs_two_keys(app: AppView, key: Key)
    ensures
        requested(app, key) == Request::Delete ==> app.show_delete_modal,
        !app.show_delete_modal && pressed(app, key).show_delete_modal ==> {
            &&& key == Key::Char('d')
            &&& highlighted(app) matches Some(item) && pressed(app, key).pending_deletion == Some(
                item.path,
            )
        },
{
}

/// Calling a deletion off leaves everything as it was before it was asked for.
pub proof fn law_calling_off_undoes_asking(app: AppView)
    requires
        !app.show_delete_modal,
        app.pending_deletion is None,
        app.popup_message is None,
    ensures
        asked_to_delete(app).show_delete_modal ==> pressed(
            pressed(app, Key::Char('d')),
            Key::Char('n'),
        ) == app,
        asked_to_delete(app).show_delete_modal ==> pressed(
            pressed(app, Key::Char('d')),
            Key::Esc,
        ) == app,
        !asked_to_delete(app).show_delete_modal ==> asked_to_delete(app) == app,
{
    assert(called_off(asked_to_delete(app)) =~= app);
}

/// An open message takes the next key and does nothing else.
pub proof fn law_message_takes_the_key(app: AppView, key: Key)
    requires
        !app.show_delete_modal,
        app.popup_message is Some,
    ensures
        pressed(app, key) == (AppView { popup_message: None, ..app }),
        requested(app, key) == Request::Nothing,
{
}

/// No key takes the user off the tree.
pub proof fn law_keys_keep_the_user_on_the_tree(app: AppView, key: Key)
    requires
        sound(app),
        app.navigation matches Some(nav) ==> connected(nav.path),
    ensures
        sound(pressed(app, key)),
        pressed(app, key).results == app.results,
        app.navigation is Some <==> pressed(app, key).navigation is Some,
        pressed(app, key).navigation matches Some(nav) ==> connected(nav.path) && nav.path[0]
            == app.navigation.unwrap().path[0],
{
    if let Some(nav) = app.navigation {
        let index = match app.list_selected {
            Some(i) => i as int,
            None => 0,
        };
        law_browsing_stays_on_the_tree(nav, index, nav.path[0]);
    }
}

/// After a deletion the entry is gone from the tree, and the user looks at the
/// tree that is left: the way starts at its root and leads down in it, and the
/// highlight is on the list.
pub proof fn law_deletion_shows_what_is_left(
    app: AppView,
    disk: Result<(), Seq<char>>,
    shown: Seq<char>,
)
    requires
        sound(app),
        app.results matches Some((root, skipped)) && well_placed(root) && (
        app.pending_deletion matches Some(path) && locate(root, path) is Some),
        disk is Ok,
    ensures
        ({
            let after = after_deletion(app, disk, shown);
            let left = after.results.unwrap().0;
            let path = app.pending_deletion.unwrap();
            &&& after.results is Some
            &&& left == deleted(app.results.unwrap().0, path, true)
            &&& locate(left, path) is None
            &&& after.navigation matches Some(nav) ==> {
                &&& nav.path.len() > 0
                &&& nav.path[0] == left
                &&& connected(nav.path)
            }
            &&& after.navigation matches Some(nav) ==> (after.list_selected matches Some(line)
                ==> nav.path.last().children.len() <= usize::MAX ==> line
                < nav.path.last().children.len())
            &&& after.pending_deletion is None
            &&& !after.show_delete_modal
        }),
{
    let root = app.results.unwrap().0;
    let path = app.pending_deletion.unwrap();
    law_deleted_is_gone(root, path);
    let left = deleted(root, path, true);
    if let Some(nav) = app.navigation {
        let from = if nav.path.last().path == path {
            gone_up(nav)
        } else {
            nav
        };
        law_way_leads_down_the_tree(left, from.path.last().path);
    }
}

/// A deletion that failed leaves the tree, the way and the highlight as they were.
pub proof fn law_failed_deletion_keeps_the_view(
    app: AppView,
    disk: Result<(), Seq<char>>,
    shown: Seq<char>,
)
    requires
        disk is Err,
    ensures
        after_deletion(app, disk, shown).results == app.results,
        after_deletion(app, disk, shown).navigation == app.navigation,
        after_deletion(app, disk, shown).list_selected == app.list_selected,
{
}

} // verus!
