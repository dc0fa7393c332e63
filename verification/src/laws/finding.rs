//! Laws of finding in the tree what a walk came upon.

use vstd::prelude::*;

use crate::laws::scanning::{
    above, accounted, all_file_bytes, capped, compatible, consistent, distinct_names, explains,
    file_bytes, files_are_leaves, files_found, find_named, free_for, inside, law_entries_inside_belong_to_the_scan,
    law_scan_counts_the_files_found, law_shared_progress_counts_the_files, law_size_is_the_files_together, leaf_bytes,
    lemma_accounted, lemma_consistent_front, lemma_event_places, lemma_free_for_kid,
    lemma_grown_bytes, lemma_grown_kids, lemma_grown_named, lemma_last_is_free,
    lemma_place_not_empty, lemma_prefix_tail, lemma_run_bytes, lemma_run_root, lemma_some_first,
    lemma_sorted_distinct, names, next_kid, placed,
};
use crate::laws::sorting::{law_sorting_keeps_the_nodes, lemma_sorted_all};
use crate::node::NodeView;
use crate::path::{text_of, PartView};
use crate::scan::{run_after, scanned_tree, shared_after, EventView, SharedView};
use crate::tree::{
    all_ordered, all_sized, by_size, child_with_name, first_with_name, grown, inserted, kids_with,
    lemma_child_with_name, ordered, sat_add, sized, slot, Leaf,
};

verus! {

/// Whether no directory of the tree lists a name twice.
pub open spec fn names_once(node: NodeView) -> bool
    decreases node,
{
    &&& distinct_names(node.children)
    &&& forall|i: int| 0 <= i < node.children.len() ==> names_once(#[trigger] node.children[i])
}

/// The bytes of all files that a walk found under the names `at`.
pub open spec fn bytes_at(root: Seq<PartView>, walk: Seq<EventView>, at: Seq<Seq<char>>) -> nat
    decreases walk.len(),
{
    if walk.len() == 0 {
        0
    } else {
        bytes_at(root, walk.drop_last(), at) + match placed(root, walk.last()) {
            Some(place) => if place.0 == at {
                leaf_bytes(place.1)
            } else {
                0
            },
            None => 0,
        }
    }
}

/// The size of a node that may be missing.
pub open spec fn size_or_zero(node: Option<NodeView>) -> u64 {
    match node {
        Some(n) => n.size,
        None => 0,
    }
}

pub(crate) proof fn lemma_grown_once(node: NodeView, parts: Seq<PartView>, leaf: Leaf)
    requires
        names_once(node),
    ensures
        names_once(grown(node, parts, leaf)),
    decreases parts.len(),
{
    if parts.len() > 0 {
        let name = text_of(parts[0].text);
        let i = slot(node.children, name);
        let kids = kids_with(node, parts[0].kind, name);
        let kid = kids[i];
        let next = next_kid(node, parts, leaf);
        let after = grown(node, parts, leaf);
        lemma_grown_kids(node, parts, leaf, name);
        assert forall|j: int| 0 <= j < kids.len() implies names_once(#[trigger] kids[j]) by {
            if j < node.children.len() {
                assert(kids[j] == node.children[j]);
            }
        }
        assert forall|a: int, b: int| 0 <= a < b < kids.len() implies (#[trigger] kids[a]).name != (
        #[trigger] kids[b]).name by {
            assert(kids[a] == node.children[a]);
            if b == node.children.len() {
                if kids[a].name == name {
                    lemma_some_first(node.children, name, a);
                }
            } else {
                assert(kids[b] == node.children[b]);
            }
        }
        if parts.len() == 1 {
            assert(next.children == kid.children);
            assert(names_once(next));
        } else {
            let dir = NodeView { is_dir: true, ..kid };
            assert(dir.children == kid.children);
            assert(names_once(dir));
            lemma_grown_once(dir, parts.skip(1), leaf);
        }
        assert forall|j: int| 0 <= j < after.children.len() implies names_once(
            #[trigger] after.children[j],
        ) by {
            if j != i {
                assert(after.children[j] == kids[j]);
            }
        }
        assert forall|a: int, b: int| 0 <= a < b < after.children.len() implies (
        #[trigger] after.children[a]).name != (#[trigger] after.children[b]).name by {
            assert(after.children[a].name == kids[a].name);
            assert(after.children[b].name == kids[b].name);
        }
    }
}

/// Placing an entry adds the size of a file at its own place and changes no
/// other size.
pub(crate) proof fn lemma_grown_size(node: NodeView, parts: Seq<PartView>, leaf: Leaf, at: Seq<Seq<char>>)
    requires
        at.len() > 0,
    ensures
        size_or_zero(find_named(grown(node, parts, leaf), at)) == (if at == names(parts) {
            sat_add(size_or_zero(find_named(node, at)), leaf_bytes(leaf) as u64)
        } else {
            size_or_zero(find_named(node, at))
        }),
    decreases parts.len(),
{
    if parts.len() > 0 {
        let name = text_of(parts[0].text);
        let i = slot(node.children, name);
        let kids = kids_with(node, parts[0].kind, name);
        let kid = kids[i];
        let next = next_kid(node, parts, leaf);
        let after = grown(node, parts, leaf);
        let rest = at.skip(1);
        lemma_grown_kids(node, parts, leaf, at[0]);
        assert(names(parts)[0] == name);
        if at[0] == name {
            assert(find_named(after, at) == find_named(next, rest));
            assert(names(parts.skip(1)) =~= names(parts).skip(1));
            assert(at == names(parts) <==> rest == names(parts.skip(1))) by {
                if rest == names(parts).skip(1) {
                    assert(at =~= seq![name] + rest);
                    assert(names(parts) =~= seq![name] + rest);
                }
            }
            if child_with_name(node.children, name) is None {
                if rest.len() > 0 {
                    assert(child_with_name(kid.children, rest[0]) is None);
                }
                assert(size_or_zero(find_named(kid, rest)) == 0);
            } else {
                assert(find_named(node, at) == find_named(kid, rest));
            }
            assert(size_or_zero(find_named(node, at)) == size_or_zero(find_named(kid, rest)));
            if parts.len() == 1 {
                if rest.len() > 0 {
                    assert(find_named(next, rest) == find_named(kid, rest));
                } else {
                    assert(rest =~= names(parts.skip(1)));
                }
            } else {
                let dir = NodeView { is_dir: true, ..kid };
                if rest.len() > 0 {
                    assert(find_named(dir, rest) == find_named(kid, rest));
                    lemma_grown_size(dir, parts.skip(1), leaf, rest);
                } else {
                    assert(names(parts.skip(1)).len() > 0);
                    assert(find_named(next, rest) == Some(next));
                    assert(next.size == kid.size);
                }
            }
        } else {
            assert(at != names(parts));
        }
    }
}

pub(crate) proof fn lemma_run_sizes(root: Seq<PartView>, walk: Seq<EventView>, at: Seq<Seq<char>>)
    requires
        at.len() > 0,
    ensures
        size_or_zero(find_named(run_after(root, walk).tree, at)) as nat == capped(
            bytes_at(root, walk, at),
        ),
        names_once(run_after(root, walk).tree),
    decreases walk.len(),
{
    if walk.len() == 0 {
        let tree = run_after(root, walk).tree;
        assert(child_with_name(tree.children, at[0]) is None);
    } else {
        let front = walk.drop_last();
        let before = run_after(root, front);
        lemma_run_sizes(root, front, at);
        lemma_run_root(root, front);
        lemma_event_places(before, walk.last());
        if let Some(place) = placed(root, walk.last()) {
            if let EventView::Entry { path, is_dir, metadata, elapsed } = walk.last() {
                let relative = path.skip(root.len() as int);
                lemma_grown_size(before.tree, relative, place.1, at);
                lemma_grown_once(before.tree, relative, place.1);
            }
        }
    }
}

/// In a consistent walk, what an event places stands in the tree, and everything
/// above it is a directory.
proof fn lemma_run_kinds(root: Seq<PartView>, walk: Seq<EventView>, k: int, at: Seq<Seq<char>>)
    requires
        consistent(root, walk),
        0 <= k < walk.len(),
        at.len() > 0,
        placed(root, walk[k]) matches Some(place) && at.is_prefix_of(place.0),
    ensures
        ({
            let place = placed(root, walk[k]).unwrap();
            find_named(run_after(root, walk).tree, at) matches Some(found) && found.is_dir == (
            at.len() < place.0.len() || place.1 is Dir)
        }),
    decreases walk.len(),
{
    let front = walk.drop_last();
    let before = run_after(root, front);
    let last = walk.len() - 1;
    let place = placed(root, walk[k]).unwrap();
    lemma_run_root(root, front);
    lemma_event_places(before, walk.last());
    lemma_consistent_front(root, walk);
    assert(walk[last] == walk.last());
    if k < last {
        assert(front[k] == walk[k]);
        lemma_run_kinds(root, front, k, at);
    }
    if let Some(latest) = placed(root, walk.last()) {
        if let EventView::Entry { path, is_dir, metadata, elapsed } = walk.last() {
            lemma_grown_named(before.tree, path.skip(root.len() as int), latest.1, at);
            if at.is_prefix_of(latest.0) {
                assert(compatible(place, latest));
                assert(compatible(latest, place));
                if at.len() == place.0.len() {
                    assert(at =~= place.0);
                }
                if at.len() == latest.0.len() {
                    assert(at =~= latest.0);
                }
            }
        }
    }
}

proof fn lemma_same_names(a: Seq<NodeView>, b: Seq<NodeView>, name: Seq<char>)
    requires
        a.len() == b.len(),
        forall|i: int| 0 <= i < a.len() ==> (#[trigger] a[i]).name == b[i].name,
    ensures
        child_with_name(a, name) == child_with_name(b, name),
{
    if let Some(i) = child_with_name(a, name) {
        assert(first_with_name(a, name, i));
        assert(first_with_name(b, name, i)) by {
            assert forall|j: int| 0 <= j < i implies (#[trigger] b[j]).name != name by {
                assert(a[j].name != name);
            }
        }
        lemma_child_with_name(b, name, i);
    } else if let Some(i) = child_with_name(b, name) {
        assert(first_with_name(b, name, i));
        assert(a[i].name == b[i].name);
        lemma_some_first(a, name, i);
    }
}

proof fn lemma_sized_named(node: NodeView, at: Seq<Seq<char>>)
    requires
        files_are_leaves(node),
    ensures
        find_named(sized(node), at) == match find_named(node, at) {
            Some(found) => Some(sized(found)),
            None => None,
        },
    decreases at.len(),
{
    if at.len() > 0 && node.is_dir {
        let kids = node.children;
        assert forall|i: int| 0 <= i < kids.len() implies (#[trigger] kids[i]).name == all_sized(
            kids,
        )[i].name by {}
        lemma_same_names(kids, all_sized(kids), at[0]);
        if let Some(i) = child_with_name(kids, at[0]) {
            assert(first_with_name(kids, at[0], i));
            lemma_sized_named(kids[i], at.skip(1));
        }
    } else if at.len() > 0 {
        assert(child_with_name(node.children, at[0]) is None);
    }
}

pub(crate) proof fn lemma_sized_once(node: NodeView)
    requires
        names_once(node),
    ensures
        names_once(sized(node)),
        sized(node).name == node.name,
    decreases node,
{
    if node.is_dir {
        let after = sized(node);
        assert forall|i: int| 0 <= i < after.children.len() implies names_once(
            #[trigger] after.children[i],
        ) && after.children[i].name == node.children[i].name by {
            lemma_sized_once(node.children[i]);
        }
        assert forall|a: int, b: int| 0 <= a < b < after.children.len() implies (
        #[trigger] after.children[a]).name != (#[trigger] after.children[b]).name by {
            assert(node.children[a].name != node.children[b].name);
        }
    }
}

pub(crate) proof fn lemma_ordered_once(node: NodeView)
    requires
        names_once(node),
    ensures
        names_once(ordered(node)),
    decreases node,
{
    let each = all_ordered(node.children);
    let p = |n: NodeView| names_once(n);
    assert forall|i: int| 0 <= i < each.len() implies p(#[trigger] each[i]) by {
        lemma_ordered_once(node.children[i]);
    }
    assert forall|a: int, b: int| 0 <= a < b < each.len() implies (#[trigger] each[a]).name != (
    #[trigger] each[b]).name by {
        assert(node.children[a].name != node.children[b].name);
    }
    lemma_sorted_all(each, p);
    lemma_sorted_distinct(each);
    let after = ordered(node);
    assert forall|i: int| 0 <= i < after.children.len() implies names_once(
        #[trigger] after.children[i],
    ) by {
        assert(p(by_size(each)[i]));
    }
}

proof fn lemma_ordered_named(node: NodeView, at: Seq<Seq<char>>)
    requires
        names_once(node),
    ensures
        find_named(ordered(node), at) == match find_named(node, at) {
            Some(found) => Some(ordered(found)),
            None => None,
        },
    decreases at.len(),
{
    if at.len() > 0 {
        let kids = node.children;
        let each = all_ordered(kids);
        let sorted = by_size(each);
        let name = at[0];
        assert forall|i: int| 0 <= i < kids.len() implies (#[trigger] kids[i]).name
            == each[i].name by {}
        lemma_same_names(kids, each, name);
        assert forall|a: int, b: int| 0 <= a < b < each.len() implies (#[trigger] each[a]).name != (
        #[trigger] each[b]).name by {
            assert(kids[a].name != kids[b].name);
        }
        lemma_sorted_distinct(each);
        match child_with_name(kids, name) {
            Some(i) => {
                assert(first_with_name(kids, name, i));
                lemma_sorted_contains(each, i);
                let j = choose|j: int| 0 <= j < sorted.len() && sorted[j] == each[i];
                assert(first_with_name(sorted, name, j)) by {
                    assert forall|h: int| 0 <= h < j implies (#[trigger] sorted[h]).name != name by {
                        assert(sorted[h].name != sorted[j].name);
                    }
                }
                lemma_child_with_name(sorted, name, j);
                lemma_ordered_named(kids[i], at.skip(1));
            },
            None => {
                assert forall|i: int| 0 <= i < each.len() implies (#[trigger] each[i]).name != name by {
                    if each[i].name == name {
                        lemma_some_first(each, name, i);
                    }
                }
                lemma_sorted_all(each, |n: NodeView| n.name != name);
                if let Some(j) = child_with_name(sorted, name) {
                    assert(first_with_name(sorted, name, j));
                }
            },
        }
    }
}

proof fn lemma_sorted_contains(nodes: Seq<NodeView>, i: int)
    requires
        0 <= i < nodes.len(),
    ensures
        by_size(nodes).contains(nodes[i]),
{
    broadcast use vstd::seq_lib::group_to_multiset_ensures;

    law_sorting_keeps_the_nodes(nodes);
    assert(nodes.contains(nodes[i]));
    assert(nodes.to_multiset().contains(nodes[i]));
    assert(by_size(nodes).to_multiset().contains(nodes[i]));
}

/// Every file that a walk found stands in the scanned tree under its names, as a
/// file with the bytes that were found there.
pub proof fn law_scan_lists_every_file(root: Seq<PartView>, walk: Seq<EventView>, k: int)
    requires
        consistent(root, walk),
        0 <= k < walk.len(),
        placed(root, walk[k]) matches Some(place) && place.1 is File,
    ensures
        ({
            let at = placed(root, walk[k]).unwrap().0;
            find_named(scanned_tree(root, walk), at) matches Some(found) && {
                &&& !found.is_dir
                &&& found.children.len() == 0
                &&& found.size as nat == capped(bytes_at(root, walk, at))
            }
        }),
{
    let at = placed(root, walk[k]).unwrap().0;
    lemma_scanned_named(root, walk, k);
    lemma_place_not_empty(root, walk[k]);
    lemma_run_sizes(root, walk, at);
    let tree = run_after(root, walk).tree;
    lemma_run_bytes(root, walk);
    lemma_found_is_leaf(tree, at);
}

/// Every directory that a walk found stands in the scanned tree under its names,
/// as a directory.
pub proof fn law_scan_lists_every_directory(root: Seq<PartView>, walk: Seq<EventView>, k: int)
    requires
        consistent(root, walk),
        0 <= k < walk.len(),
        placed(root, walk[k]) matches Some(place) && place.1 is Dir,
    ensures
        find_named(scanned_tree(root, walk), placed(root, walk[k]).unwrap().0) matches Some(found)
            && found.is_dir,
{
    lemma_scanned_named(root, walk, k);
}

proof fn lemma_found_is_leaf(node: NodeView, at: Seq<Seq<char>>)
    requires
        files_are_leaves(node),
    ensures
        find_named(node, at) matches Some(found) ==> files_are_leaves(found),
    decreases at.len(),
{
    if at.len() > 0 {
        if let Some(i) = child_with_name(node.children, at[0]) {
            assert(first_with_name(node.children, at[0], i));
            lemma_found_is_leaf(node.children[i], at.skip(1));
        }
    }
}

proof fn lemma_scanned_named(root: Seq<PartView>, walk: Seq<EventView>, k: int)
    requires
        consistent(root, walk),
        0 <= k < walk.len(),
        placed(root, walk[k]) is Some,
    ensures
        ({
            let place = placed(root, walk[k]).unwrap();
            let found = find_named(run_after(root, walk).tree, place.0);
            &&& found is Some
            &&& found.unwrap().is_dir == (place.1 is Dir)
            &&& find_named(scanned_tree(root, walk), place.0) == Some(
                ordered(sized(found.unwrap())),
            )
        }),
{
    let place = placed(root, walk[k]).unwrap();
    let tree = run_after(root, walk).tree;
    lemma_place_not_empty(root, walk[k]);
    assert(place.0 =~= place.0.subrange(0, place.0.len() as int));
    lemma_run_kinds(root, walk, k, place.0);
    lemma_run_sizes(root, walk, place.0);
    lemma_run_bytes(root, walk);
    lemma_sized_named(tree, place.0);
    lemma_sized_once(tree);
    lemma_ordered_named(sized(tree), place.0);
}

/// Nothing stands in the scanned tree that the walk did not come upon: each node
/// below the root lies on the way to an entry of the walk, and is a file only if
/// that entry is.
pub proof fn law_scan_invents_nothing(
    root: Seq<PartView>,
    walk: Seq<EventView>,
    at: Seq<Seq<char>>,
)
    requires
        consistent(root, walk),
        at.len() > 0,
    ensures
        find_named(scanned_tree(root, walk), at) matches Some(found) ==> exists|k: int|
            0 <= k < walk.len() && explains(root, #[trigger] walk[k], at, found.is_dir),
{
    let tree = run_after(root, walk).tree;
    lemma_run_sizes(root, walk, at);
    lemma_run_bytes(root, walk);
    lemma_sized_named(tree, at);
    lemma_sized_once(tree);
    lemma_ordered_named(sized(tree), at);
    lemma_accounted(root, walk);
    assert(accounted(root, walk, tree));
    if let Some(found) = find_named(scanned_tree(root, walk), at) {
        let plain = find_named(tree, at).unwrap();
        assert(found.is_dir == plain.is_dir);
        let k = choose|k: int|
            0 <= k < walk.len() && explains(root, #[trigger] walk[k], at, plain.is_dir);
        assert(explains(root, walk[k], at, found.is_dir));
    }
}

/// The bytes of all files that a walk found somewhere below the names `at`.
pub open spec fn bytes_below(root: Seq<PartView>, walk: Seq<EventView>, at: Seq<Seq<char>>) -> nat
    decreases walk.len(),
{
    if walk.len() == 0 {
        0
    } else {
        bytes_below(root, walk.drop_last(), at) + match placed(root, walk.last()) {
            Some(place) => if above(at, place.0) {
                leaf_bytes(place.1)
            } else {
                0
            },
            None => 0,
        }
    }
}

/// The bytes of the files in a node that may be missing.
spec fn bytes_or_zero(node: Option<NodeView>) -> nat {
    match node {
        Some(n) => file_bytes(n),
        None => 0,
    }
}

/// Placing an entry adds its bytes to every directory above it.
proof fn lemma_grown_above(node: NodeView, parts: Seq<PartView>, leaf: Leaf, at: Seq<Seq<char>>)
    requires
        node.is_dir,
        files_are_leaves(node),
        free_for(node, names(parts), leaf),
        above(at, names(parts)),
    ensures
        find_named(grown(node, parts, leaf), at) matches Some(found) && {
            &&& found.is_dir
            &&& capped(file_bytes(found)) == capped(
                bytes_or_zero(find_named(node, at)) + leaf_bytes(leaf),
            )
        },
    decreases at.len(),
{
    if at.len() == 0 {
        lemma_grown_bytes(node, parts, leaf);
    } else {
        let name = text_of(parts[0].text);
        let i = slot(node.children, name);
        let kids = kids_with(node, parts[0].kind, name);
        let kid = kids[i];
        let rest = at.skip(1);
        lemma_grown_kids(node, parts, leaf, name);
        lemma_free_for_kid(node, parts, leaf);
        assert(names(parts)[0] == name);
        assert(at[0] == names(parts).subrange(0, at.len() as int)[0]);
        assert(names(parts.skip(1)) =~= names(parts).skip(1));
        lemma_prefix_tail(at, names(parts));
        assert(NodeView { is_dir: true, ..kid } == kid);
        if child_with_name(node.children, name) is None {
            if rest.len() > 0 {
                assert(child_with_name(kid.children, rest[0]) is None);
            }
            assert(bytes_or_zero(find_named(kid, rest)) == 0) by {
                reveal_with_fuel(all_file_bytes, 2);
            }
        } else {
            assert(kids[i] == node.children[i]);
            assert(find_named(node, at) == find_named(kid, rest));
        }
        lemma_grown_above(kid, parts.skip(1), leaf, rest);
    }
}

/// Placing an entry leaves alone what is not on its way.
pub(crate) proof fn lemma_grown_beside(node: NodeView, parts: Seq<PartView>, leaf: Leaf, at: Seq<Seq<char>>)
    requires
        !at.is_prefix_of(names(parts)),
    ensures
        find_named(grown(node, parts, leaf), at) == find_named(node, at),
    decreases parts.len(),
{
    if parts.len() > 0 {
        assert(at.len() > 0) by {
            if at.len() == 0 {
                assert(at =~= names(parts).subrange(0, 0));
            }
        }
        let name = text_of(parts[0].text);
        let i = slot(node.children, name);
        let kids = kids_with(node, parts[0].kind, name);
        let kid = kids[i];
        let next = next_kid(node, parts, leaf);
        let rest = at.skip(1);
        lemma_grown_kids(node, parts, leaf, at[0]);
        assert(names(parts)[0] == name);
        if at[0] == name {
            assert(names(parts.skip(1)) =~= names(parts).skip(1));
            lemma_prefix_tail(at, names(parts));
            let dir = NodeView { is_dir: true, ..kid };
            assert(rest.len() > 0) by {
                if rest.len() == 0 {
                    assert(rest =~= names(parts).skip(1).subrange(0, 0));
                }
            }
            assert(find_named(dir, rest) == find_named(kid, rest));
            if child_with_name(node.children, name) is None {
                assert(child_with_name(kid.children, rest[0]) is None);
            }
            if parts.len() == 1 {
                assert(find_named(next, rest) == find_named(kid, rest));
            } else {
                lemma_grown_beside(dir, parts.skip(1), leaf, rest);
            }
        }
    }
}

proof fn lemma_run_below(root: Seq<PartView>, walk: Seq<EventView>, at: Seq<Seq<char>>)
    requires
        consistent(root, walk),
        at.len() > 0,
    ensures
        ({
            let found = find_named(run_after(root, walk).tree, at);
            &&& found is None ==> bytes_below(root, walk, at) == 0
            &&& found is Some && found.unwrap().is_dir ==> capped(file_bytes(found.unwrap()))
                == capped(bytes_below(root, walk, at))
        }),
    decreases walk.len(),
{
    if walk.len() == 0 {
        let tree = run_after(root, walk).tree;
        assert(child_with_name(tree.children, at[0]) is None);
    } else {
        let front = walk.drop_last();
        let before = run_after(root, front);
        lemma_consistent_front(root, walk);
        lemma_run_below(root, front, at);
        lemma_run_root(root, front);
        lemma_run_bytes(root, front);
        lemma_event_places(before, walk.last());
        lemma_last_is_free(root, walk);
        if let Some(place) = placed(root, walk.last()) {
            if let EventView::Entry { path, is_dir, metadata, elapsed } = walk.last() {
                let relative = path.skip(root.len() as int);
                if above(at, place.0) {
                    lemma_grown_above(before.tree, relative, place.1, at);
                    if let Some(found) = find_named(before.tree, at) {
                        assert(found.is_dir);
                    }
                } else if at.is_prefix_of(place.0) {
                    assert(at =~= place.0);
                    lemma_grown_end(before.tree, relative, place.1);
                    lemma_grown_named(before.tree, relative, place.1, at);
                } else {
                    lemma_grown_beside(before.tree, relative, place.1, at);
                }
            }
        }
    }
}

/// What stands at the place of an entry that was placed has the children that
/// stood there before.
proof fn lemma_grown_end(node: NodeView, parts: Seq<PartView>, leaf: Leaf)
    requires
        parts.len() > 0,
    ensures
        find_named(grown(node, parts, leaf), names(parts)) matches Some(found) && found.children
            == match find_named(node, names(parts)) {
            Some(previous) => previous.children,
            None => Seq::empty(),
        },
    decreases parts.len(),
{
    let at = names(parts);
    let name = text_of(parts[0].text);
    let i = slot(node.children, name);
    let kids = kids_with(node, parts[0].kind, name);
    let kid = kids[i];
    let next = next_kid(node, parts, leaf);
    let rest = at.skip(1);
    lemma_grown_kids(node, parts, leaf, name);
    assert(at[0] == name);
    assert(names(parts.skip(1)) =~= rest);
    assert(find_named(grown(node, parts, leaf), at) == find_named(next, rest));
    if parts.len() == 1 {
        assert(find_named(next, rest) == Some(next));
        if child_with_name(node.children, name) is Some {
            assert(find_named(node, at) == Some(kid));
        }
    } else {
        let dir = NodeView { is_dir: true, ..kid };
        lemma_grown_end(dir, parts.skip(1), leaf);
        assert(find_named(dir, rest) == find_named(kid, rest));
        if child_with_name(node.children, name) is None {
            assert(child_with_name(kid.children, rest[0]) is None);
        }
    }
}

/// Every directory of a scanned tree shows the bytes of all files that the walk
/// found below it, up to the largest size that can be shown.
pub proof fn law_directory_shows_what_lies_below(
    root: Seq<PartView>,
    walk: Seq<EventView>,
    at: Seq<Seq<char>>,
)
    requires
        consistent(root, walk),
        at.len() > 0,
    ensures
        find_named(scanned_tree(root, walk), at) matches Some(found) ==> found.is_dir
            ==> found.size as nat == capped(bytes_below(root, walk, at)),
{
    let tree = run_after(root, walk).tree;
    lemma_run_sizes(root, walk, at);
    lemma_run_bytes(root, walk);
    lemma_sized_named(tree, at);
    lemma_sized_once(tree);
    lemma_ordered_named(sized(tree), at);
    lemma_run_below(root, walk, at);
    if let Some(found) = find_named(tree, at) {
        law_size_is_the_files_together(found);
    }
}

/// How many nodes of a tree are files.
pub open spec fn file_nodes(node: NodeView) -> nat
    decreases node,
{
    (if node.is_dir {
        0nat
    } else {
        1nat
    }) + all_file_nodes(node.children)
}

/// How many nodes of all of `kids` together are files.
pub open spec fn all_file_nodes(kids: Seq<NodeView>) -> nat
    decreases kids,
{
    if kids.len() == 0 {
        0
    } else {
        all_file_nodes(kids.drop_last()) + file_nodes(kids.last())
    }
}

/// Whether a walk finds no two files under the same names.
pub open spec fn files_once(root: Seq<PartView>, walk: Seq<EventView>) -> bool {
    forall|i: int, j: int|
        0 <= i < j < walk.len() ==> (placed(root, #[trigger] walk[i]) matches Some(a) ==> placed(
            root,
            #[trigger] walk[j],
        ) matches Some(b) ==> a.1 is File && b.1 is File ==> a.0 != b.0)
}

proof fn lemma_file_nodes_of_update(kids: Seq<NodeView>, i: int, kid: NodeView)
    requires
        0 <= i < kids.len(),
    ensures
        all_file_nodes(kids.update(i, kid)) == all_file_nodes(kids) - file_nodes(kids[i])
            + file_nodes(kid),
        file_nodes(kids[i]) <= all_file_nodes(kids),
    decreases kids.len(),
{
    let after = kids.update(i, kid);
    if i == kids.len() - 1 {
        assert(after.drop_last() =~= kids.drop_last());
    } else {
        assert(after.drop_last() =~= kids.drop_last().update(i, kid));
        lemma_file_nodes_of_update(kids.drop_last(), i, kid);
    }
}

/// Placing an entry where nothing stands in the way adds a file exactly where it
/// is a file that was not there before.
proof fn lemma_grown_files(node: NodeView, parts: Seq<PartView>, leaf: Leaf)
    requires
        parts.len() > 0,
        free_for(node, names(parts), leaf),
    ensures
        file_nodes(grown(node, parts, leaf)) == file_nodes(node) + (if leaf is File && find_named(
            node,
            names(parts),
        ) is None {
            1nat
        } else {
            0nat
        }),
    decreases parts.len(),
{
    let at = names(parts);
    let name = text_of(parts[0].text);
    let i = slot(node.children, name);
    let kids = kids_with(node, parts[0].kind, name);
    let kid = kids[i];
    let next = next_kid(node, parts, leaf);
    let rest = at.skip(1);
    lemma_grown_kids(node, parts, leaf, name);
    assert(at[0] == name);
    assert(names(parts.skip(1)) =~= rest);
    if child_with_name(node.children, name) is None {
        assert(kids.drop_last() =~= node.children);
        assert(kids.last() == kid);
        assert(all_file_nodes(kid.children) == 0);
        assert(file_nodes(kid) == 0);
    } else {
        assert(find_named(node, at) == find_named(kid, rest));
    }
    assert(all_file_nodes(kids) == all_file_nodes(node.children));
    lemma_file_nodes_of_update(kids, i, next);
    if parts.len() == 1 {
        assert(find_named(kid, rest) == Some(kid));
        assert(next.children == kid.children);
    } else {
        lemma_free_for_kid(node, parts, leaf);
        assert(NodeView { is_dir: true, ..kid } == kid);
        if child_with_name(node.children, name) is None {
            assert(child_with_name(kid.children, rest[0]) is None);
        }
        lemma_grown_files(kid, parts.skip(1), leaf);
    }
}

proof fn lemma_run_files(root: Seq<PartView>, walk: Seq<EventView>)
    requires
        consistent(root, walk),
        files_once(root, walk),
    ensures
        file_nodes(run_after(root, walk).tree) == files_found(root, walk),
    decreases walk.len(),
{
    if walk.len() == 0 {
        reveal_with_fuel(all_file_nodes, 2);
    } else {
        let front = walk.drop_last();
        let last = walk.len() - 1;
        let before = run_after(root, front);
        lemma_consistent_front(root, walk);
        assert(files_once(root, front)) by {
            assert forall|i: int, j: int| 0 <= i < j < front.len() implies (placed(
                root,
                #[trigger] front[i],
            ) matches Some(a) ==> placed(root, #[trigger] front[j]) matches Some(b) ==> a.1 is File
                && b.1 is File ==> a.0 != b.0) by {
                assert(front[i] == walk[i] && front[j] == walk[j]);
            }
        }
        lemma_run_files(root, front);
        lemma_run_root(root, front);
        lemma_event_places(before, walk.last());
        lemma_last_is_free(root, walk);
        lemma_accounted(root, front);
        if let Some(place) = placed(root, walk.last()) {
            if let EventView::Entry { path, is_dir, metadata, elapsed } = walk.last() {
                lemma_grown_files(before.tree, path.skip(root.len() as int), place.1);
                lemma_place_not_empty(root, walk.last());
                if place.1 is File {
                    if let Some(found) = find_named(before.tree, place.0) {
                        let k = choose|k: int|
                            0 <= k < front.len() && explains(
                                root,
                                #[trigger] front[k],
                                place.0,
                                found.is_dir,
                            );
                        assert(explains(root, front[k], place.0, found.is_dir));
                        assert(!found.is_dir);
                        let other = placed(root, front[k]).unwrap();
                        assert(place.0 =~= other.0);
                        assert(walk[k] == front[k] && walk[last] == walk.last());
                        assert(false);
                    }
                }
            }
        }
    }
}

proof fn lemma_sized_files(node: NodeView)
    ensures
        file_nodes(sized(node)) == file_nodes(node),
    decreases node,
{
    if node.is_dir {
        lemma_all_sized_files(node.children);
    }
}

proof fn lemma_all_sized_files(kids: Seq<NodeView>)
    ensures
        all_file_nodes(all_sized(kids)) == all_file_nodes(kids),
    decreases kids,
{
    if kids.len() > 0 {
        lemma_all_sized_files(kids.drop_last());
        lemma_sized_files(kids.last());
        assert(all_sized(kids).drop_last() =~= all_sized(kids.drop_last()));
    }
}

proof fn lemma_inserted_files(nodes: Seq<NodeView>, x: NodeView)
    ensures
        all_file_nodes(inserted(nodes, x)) == all_file_nodes(nodes) + file_nodes(x),
    decreases nodes.len(),
{
    if nodes.len() > 0 && nodes.last().size < x.size {
        let front = inserted(nodes.drop_last(), x);
        lemma_inserted_files(nodes.drop_last(), x);
        assert(front.push(nodes.last()).drop_last() =~= front);
    } else {
        assert(nodes.push(x).drop_last() =~= nodes);
    }
}

proof fn lemma_sorted_files(nodes: Seq<NodeView>)
    ensures
        all_file_nodes(by_size(nodes)) == all_file_nodes(nodes),
    decreases nodes.len(),
{
    if nodes.len() > 0 {
        lemma_sorted_files(nodes.drop_last());
        lemma_inserted_files(by_size(nodes.drop_last()), nodes.last());
    }
}

proof fn lemma_ordered_files(node: NodeView)
    ensures
        file_nodes(ordered(node)) == file_nodes(node),
    decreases node,
{
    lemma_all_ordered_files(node.children);
    lemma_sorted_files(all_ordered(node.children));
}

proof fn lemma_all_ordered_files(kids: Seq<NodeView>)
    ensures
        all_file_nodes(all_ordered(kids)) == all_file_nodes(kids),
    decreases kids,
{
    if kids.len() > 0 {
        lemma_all_ordered_files(kids.drop_last());
        lemma_ordered_files(kids.last());
        assert(all_ordered(kids).drop_last() =~= all_ordered(kids.drop_last()));
    }
}

/// The number of files that a scan counts, and that its shared progress ends
/// with, is the number of file nodes of its tree.
pub proof fn law_scan_counts_the_file_nodes(root: Seq<PartView>, walk: Seq<EventView>)
    requires
        consistent(root, walk),
        files_once(root, walk),
        walk.len() <= u64::MAX,
    ensures
        run_after(root, walk).files_scanned == file_nodes(scanned_tree(root, walk)),
        shared_after(
            SharedView { files_scanned: 0, last_path: None },
            root,
            walk,
        ).files_scanned == file_nodes(scanned_tree(root, walk)),
{
    let tree = run_after(root, walk).tree;
    lemma_run_files(root, walk);
    lemma_sized_files(tree);
    lemma_ordered_files(sized(tree));
    law_scan_counts_the_files_found(root, walk);
    law_shared_progress_counts_the_files(root, walk);
}

/// Whether a walk came upon nothing outside of `root`.
pub open spec fn within(root: Seq<PartView>, walk: Seq<EventView>) -> bool {
    forall|i: int|
        0 <= i < walk.len() ==> match #[trigger] walk[i] {
            EventView::Entry { path, is_dir, metadata, elapsed } => root.is_prefix_of(path),
            EventView::Failed(failure) => true,
        }
}

/// The shared progress of a scan that stays within its root ends with a path
/// below the root, as soon as the tree has any node below it.
pub proof fn law_shared_progress_ends_below_the_root(root: Seq<PartView>, walk: Seq<EventView>)
    requires
        within(root, walk),
    ensures
        ({
            let shared = shared_after(
                SharedView { files_scanned: 0, last_path: None },
                root,
                walk,
            );
            &&& shared.last_path matches Some(path) ==> inside(root, path)
            &&& scanned_tree(root, walk).children.len() > 0 ==> shared.last_path is Some
        }),
    decreases walk.len(),
{
    let tree = run_after(root, walk).tree;
    let kids = all_ordered(sized(tree).children);
    lemma_run_root(root, walk);
    lemma_sorted_all(kids, |n: NodeView| true);
    assert(scanned_tree(root, walk).children.len() == tree.children.len());
    if walk.len() > 0 {
        let front = walk.drop_last();
        assert forall|i: int| 0 <= i < front.len() implies match #[trigger] front[i] {
            EventView::Entry { path, is_dir, metadata, elapsed } => root.is_prefix_of(path),
            EventView::Failed(failure) => true,
        } by {
            assert(front[i] == walk[i]);
        }
        law_shared_progress_ends_below_the_root(root, front);
        let before = run_after(root, front).tree;
        lemma_run_root(root, front);
        lemma_sorted_all(all_ordered(sized(before).children), |n: NodeView| true);
        assert(scanned_tree(root, front).children.len() == before.children.len());
        assert(walk[walk.len() - 1] == walk.last());
        lemma_event_places(run_after(root, front), walk.last());
        if let EventView::Entry { path, is_dir, metadata, elapsed } = walk.last() {
            law_entries_inside_belong_to_the_scan(root, path);
            if path != root && path.len() == root.len() {
                assert(path =~= root);
            }
        }
    }
}

} // verus!
