//! Laws of what a scanned tree holds, name by name from the root down.

use vstd::prelude::*;

use crate::laws::finding::{
    bytes_at, bytes_below, law_directory_shows_what_lies_below, law_scan_invents_nothing,
    law_scan_lists_every_directory, law_scan_lists_every_file, lemma_grown_beside,
    lemma_grown_once, lemma_grown_size, lemma_ordered_once, lemma_run_sizes, lemma_sized_once,
    names_once, size_or_zero,
};
use crate::laws::scanning::{
    capped, consistent, explains, find_named, inside, lemma_grown_kids, lemma_grown_named,
    lemma_place_not_empty, lemma_some_first, names, placed,
};
use crate::laws::sorting::{
    descending, law_sorted_is_descending, law_sorting_is_stable, law_sorting_keeps_the_nodes,
    of_size,
};
use crate::node::{fresh_node, NodeView};
use crate::path::{joined, text_of, PartView};
use crate::scan::{run_after, scanned_tree, EventView, FailureView};
use crate::tree::{
    all_ordered, child_with_name, first_with_name, grown, lemma_child_with_name,
    ordered, sat_sum, sized, Leaf,
};
use crate::treemap::sum_of_sizes;

verus! {

/// Whether the tree holds `found` under the names `at`: a child with the first
/// name holds it under the others.
pub open spec fn holds(tree: NodeView, at: Seq<Seq<char>>, found: NodeView) -> bool
    decreases at.len(),
{
    if at.len() == 0 {
        found == tree
    } else {
        exists|i: int|
            0 <= i < tree.children.len() && (#[trigger] tree.children[i]).name == at[0] && holds(
                tree.children[i],
                at.skip(1),
                found,
            )
    }
}

pub(crate) proof fn lemma_found_is_held(tree: NodeView, at: Seq<Seq<char>>)
    ensures
        find_named(tree, at) matches Some(found) ==> holds(tree, at, found),
    decreases at.len(),
{
    if at.len() > 0 {
        if let Some(i) = child_with_name(tree.children, at[0]) {
            assert(first_with_name(tree.children, at[0], i));
            lemma_found_is_held(tree.children[i], at.skip(1));
        }
    }
}

pub(crate) proof fn lemma_held_is_found(tree: NodeView, at: Seq<Seq<char>>, found: NodeView)
    requires
        names_once(tree),
        holds(tree, at, found),
    ensures
        find_named(tree, at) == Some(found),
    decreases at.len(),
{
    if at.len() > 0 {
        let i = choose|i: int|
            0 <= i < tree.children.len() && (#[trigger] tree.children[i]).name == at[0] && holds(
                tree.children[i],
                at.skip(1),
                found,
            );
        assert(first_with_name(tree.children, at[0], i)) by {
            assert forall|j: int| 0 <= j < i implies (#[trigger] tree.children[j]).name
                != at[0] by {
                assert(tree.children[j].name != tree.children[i].name);
            }
        }
        lemma_child_with_name(tree.children, at[0], i);
        lemma_held_is_found(tree.children[i], at.skip(1), found);
    }
}

proof fn lemma_scanned_once(root: Seq<PartView>, walk: Seq<EventView>)
    ensures
        names_once(scanned_tree(root, walk)),
{
    lemma_run_sizes(root, walk, seq![Seq::<char>::empty()]);
    lemma_sized_once(run_after(root, walk).tree);
    lemma_ordered_once(sized(run_after(root, walk).tree));
}

/// Every file that a walk finds inside of the root, however deep, is held by the
/// scanned tree under the names of the rest of its path, once, as a file with the
/// bytes that the walk found there.
pub proof fn law_scan_holds_every_file(
    root: Seq<PartView>,
    walk: Seq<EventView>,
    k: int,
    path: Seq<PartView>,
    size: u64,
)
    requires
        consistent(root, walk),
        0 <= k < walk.len(),
        walk[k] matches EventView::Entry { path: p, is_dir, metadata, elapsed } && p == path
            && !is_dir && metadata == Ok::<u64, FailureView>(size),
        root.len() < path.len(),
        root.is_prefix_of(path),
    ensures
        ({
            let tree = scanned_tree(root, walk);
            let at = names(path.skip(root.len() as int));
            &&& exists|found: NodeView| #[trigger] holds(tree, at, found)
            &&& forall|found: NodeView| #[trigger]
                holds(tree, at, found) ==> {
                    &&& !found.is_dir
                    &&& found.children.len() == 0
                    &&& found.size as nat == capped(bytes_at(root, walk, at))
                }
            &&& bytes_at(root, walk, at) >= size
        }),
{
    let tree = scanned_tree(root, walk);
    let at = names(path.skip(root.len() as int));
    assert(placed(root, walk[k]) == Some((at, Leaf::File(size))));
    law_scan_lists_every_file(root, walk, k);
    lemma_found_is_held(tree, at);
    lemma_scanned_once(root, walk);
    assert(holds(tree, at, find_named(tree, at).unwrap()));
    assert forall|found: NodeView| #[trigger] holds(tree, at, found) implies {
        &&& !found.is_dir
        &&& found.children.len() == 0
        &&& found.size as nat == capped(bytes_at(root, walk, at))
    } by {
        lemma_held_is_found(tree, at, found);
    }
    lemma_bytes_at_least(root, walk, k, at, size);
}

proof fn lemma_bytes_at_least(
    root: Seq<PartView>,
    walk: Seq<EventView>,
    k: int,
    at: Seq<Seq<char>>,
    size: u64,
)
    requires
        0 <= k < walk.len(),
        placed(root, walk[k]) == Some((at, Leaf::File(size))),
    ensures
        bytes_at(root, walk, at) >= size,
    decreases walk.len(),
{
    if k < walk.len() - 1 {
        assert(walk.drop_last()[k] == walk[k]);
        lemma_bytes_at_least(root, walk.drop_last(), k, at, size);
    }
}

/// A file that comes once in a walk is held with exactly its size.
pub proof fn law_file_has_its_size(
    root: Seq<PartView>,
    walk: Seq<EventView>,
    k: int,
    path: Seq<PartView>,
    size: u64,
    found: NodeView,
)
    requires
        consistent(root, walk),
        0 <= k < walk.len(),
        walk[k] matches EventView::Entry { path: p, is_dir, metadata, elapsed } && p == path
            && !is_dir && metadata == Ok::<u64, FailureView>(size),
        root.len() < path.len(),
        root.is_prefix_of(path),
        forall|j: int|
            0 <= j < walk.len() && j != k ==> (placed(root, #[trigger] walk[j]) matches Some(place)
                ==> place.0 != names(path.skip(root.len() as int))),
        holds(scanned_tree(root, walk), names(path.skip(root.len() as int)), found),
    ensures
        !found.is_dir,
        found.size == size,
{
    let at = names(path.skip(root.len() as int));
    law_scan_holds_every_file(root, walk, k, path, size);
    assert(placed(root, walk[k]) == Some((at, Leaf::File(size))));
    lemma_bytes_once(root, walk, k, at, size);
}

proof fn lemma_bytes_once(
    root: Seq<PartView>,
    walk: Seq<EventView>,
    k: int,
    at: Seq<Seq<char>>,
    size: u64,
)
    requires
        -1 <= k < walk.len(),
        k >= 0 ==> placed(root, walk[k]) == Some((at, Leaf::File(size))),
        forall|j: int|
            0 <= j < walk.len() && j != k ==> (placed(root, #[trigger] walk[j]) matches Some(place)
                ==> place.0 != at),
    ensures
        bytes_at(root, walk, at) == (if k >= 0 {
            size as nat
        } else {
            0
        }),
    decreases walk.len(),
{
    if walk.len() > 0 {
        let front = walk.drop_last();
        assert(walk[walk.len() - 1] == walk.last());
        assert forall|j: int| 0 <= j < front.len() && j != k implies (placed(
            root,
            #[trigger] front[j],
        ) matches Some(place) ==> place.0 != at) by {
            assert(front[j] == walk[j]);
        }
        if k == walk.len() - 1 {
            lemma_bytes_once(root, front, -1, at, size);
        } else {
            if k >= 0 {
                assert(front[k] == walk[k]);
            }
            lemma_bytes_once(root, front, k, at, size);
        }
    }
}

/// Every directory that a walk finds inside of the root, however deep, is held by
/// the scanned tree under the names of the rest of its path, once, as a directory
/// with the bytes of all files that the walk found below it.
pub proof fn law_scan_holds_every_directory(
    root: Seq<PartView>,
    walk: Seq<EventView>,
    k: int,
    path: Seq<PartView>,
)
    requires
        consistent(root, walk),
        0 <= k < walk.len(),
        walk[k] matches EventView::Entry { path: p, is_dir, metadata, elapsed } && p == path
            && is_dir,
        root.len() < path.len(),
        root.is_prefix_of(path),
    ensures
        ({
            let tree = scanned_tree(root, walk);
            let at = names(path.skip(root.len() as int));
            &&& exists|found: NodeView| #[trigger] holds(tree, at, found)
            &&& forall|found: NodeView| #[trigger]
                holds(tree, at, found) ==> found.is_dir && found.size as nat == capped(
                    bytes_below(root, walk, at),
                )
        }),
{
    let tree = scanned_tree(root, walk);
    let at = names(path.skip(root.len() as int));
    assert(placed(root, walk[k]) == Some((at, Leaf::Dir)));
    lemma_place_not_empty(root, walk[k]);
    law_scan_lists_every_directory(root, walk, k);
    law_directory_shows_what_lies_below(root, walk, at);
    lemma_found_is_held(tree, at);
    lemma_scanned_once(root, walk);
    assert(holds(tree, at, find_named(tree, at).unwrap()));
    assert forall|found: NodeView| #[trigger] holds(tree, at, found) implies found.is_dir
        && found.size as nat == capped(bytes_below(root, walk, at)) by {
        lemma_held_is_found(tree, at, found);
    }
}

/// Whatever a scanned tree holds lies on the way to an entry that the walk found
/// inside of the root.
pub proof fn law_scan_holds_nothing_else(
    root: Seq<PartView>,
    walk: Seq<EventView>,
    at: Seq<Seq<char>>,
    found: NodeView,
)
    requires
        consistent(root, walk),
        at.len() > 0,
        holds(scanned_tree(root, walk), at, found),
    ensures
        exists|k: int|
            0 <= k < walk.len() && (#[trigger] walk[k] matches EventView::Entry {
                path,
                is_dir,
                metadata,
                elapsed,
            } && inside(root, path) && at.is_prefix_of(names(path.skip(root.len() as int))) && (
            !found.is_dir ==> !is_dir && at == names(path.skip(root.len() as int)))),
{
    lemma_scanned_once(root, walk);
    lemma_held_is_found(scanned_tree(root, walk), at, found);
    law_scan_invents_nothing(root, walk, at);
    let k = choose|k: int|
        0 <= k < walk.len() && explains(
            root,
            #[trigger] walk[k],
            at,
            found.is_dir,
        );
    let place = placed(root, walk[k]).unwrap();
    if !found.is_dir {
        assert(at =~= place.0);
    }
    assert(walk[k] is Entry);
}

/// Placing an entry puts it under its names, with directories on the way, adds
/// the bytes of a file to what stood there, and leaves everything that is not on
/// the way as it was. No name comes twice.
pub proof fn law_placing_puts_the_entry_there(
    node: NodeView,
    parts: Seq<PartView>,
    leaf: Leaf,
    at: Seq<Seq<char>>,
    found: NodeView,
)
    requires
        names_once(node),
        parts.len() > 0,
        at.len() > 0,
    ensures
        names_once(grown(node, parts, leaf)),
        at.is_prefix_of(names(parts)) ==> (exists|there: NodeView| #[trigger]
            holds(grown(node, parts, leaf), at, there)),
        at.is_prefix_of(names(parts)) && holds(grown(node, parts, leaf), at, found) ==> {
            &&& at.len() < parts.len() ==> found.is_dir
            &&& at.len() == parts.len() ==> found.is_dir == (leaf is Dir)
        },
        !at.is_prefix_of(names(parts)) ==> (holds(grown(node, parts, leaf), at, found) <==> holds(
            node,
            at,
            found,
        )),
        ({
            let before = size_or_zero(find_named(node, at)) as int;
            holds(grown(node, parts, leaf), at, found) ==> found.size as int == (
            if at == names(parts) && leaf is File {
                if before + leaf->File_0 > u64::MAX {
                    u64::MAX as int
                } else {
                    before + leaf->File_0
                }
            } else {
                before
            })
        }),
{
    let after = grown(node, parts, leaf);
    lemma_grown_once(node, parts, leaf);
    lemma_grown_named(node, parts, leaf, at);
    lemma_grown_size(node, parts, leaf, at);
    lemma_found_is_held(after, at);
    lemma_found_is_held(node, at);
    if at.is_prefix_of(names(parts)) {
        assert(holds(after, at, find_named(after, at).unwrap()));
    } else {
        lemma_grown_beside(node, parts, leaf, at);
    }
    if holds(after, at, found) {
        lemma_held_is_found(after, at, found);
    }
    if holds(node, at, found) {
        lemma_held_is_found(node, at, found);
    }
}

/// Placing an entry keeps the children of the node in their order; a new one goes
/// to the end, with the path of the node joined with its name.
pub proof fn law_new_children_come_last(node: NodeView, parts: Seq<PartView>, leaf: Leaf, i: int)
    requires
        parts.len() > 0,
    ensures
        ({
            let after = grown(node, parts, leaf);
            let n = node.children.len();
            let name = text_of(parts[0].text);
            &&& after.name == node.name
            &&& after.path == node.path
            &&& after.size == node.size
            &&& after.is_dir == node.is_dir
            &&& n <= after.children.len() <= n + 1
            &&& 0 <= i < n ==> after.children[i].name == node.children[i].name
                && after.children[i].path == node.children[i].path
            &&& 0 <= i < n && node.children[i].name != name ==> after.children[i]
                == node.children[i]
            &&& after.children.len() == n + 1 ==> {
                &&& after.children[n as int].name == name
                &&& after.children[n as int].path == joined(node.path, parts[0].kind, name)
            }
            &&& after.children.len() == n + 1 <==> (forall|j: int|
                0 <= j < n ==> (#[trigger] node.children[j]).name != name)
        }),
{
    let name = text_of(parts[0].text);
    lemma_grown_kids(node, parts, leaf, name);
    let after = grown(node, parts, leaf);
    let n = node.children.len();
    if child_with_name(node.children, name) is Some {
        let k = child_with_name(node.children, name).unwrap();
        assert(first_with_name(node.children, name, k));
    } else {
        assert forall|j: int| 0 <= j < n implies (#[trigger] node.children[j]).name != name by {
            if node.children[j].name == name {
                lemma_some_first(node.children, name, j);
            }
        }
    }
}

/// Placing an entry goes down name by name: into the first child with the name,
/// or into a new and empty one. The last of them becomes a directory, or a file
/// with more bytes; those on the way become directories.
pub proof fn law_placing_goes_down_name_by_name(
    node: NodeView,
    parts: Seq<PartView>,
    leaf: Leaf,
    k: int,
)
    requires
        parts.len() > 0,
        0 <= k <= node.children.len(),
        k < node.children.len() ==> node.children[k].name == text_of(parts[0].text),
        forall|j: int|
            0 <= j < k ==> (#[trigger] node.children[j]).name != text_of(parts[0].text),
    ensures
        ({
            let name = text_of(parts[0].text);
            let before = if k < node.children.len() {
                node.children[k]
            } else {
                NodeView {
                    name,
                    size: 0,
                    is_dir: true,
                    children: Seq::empty(),
                    path: joined(node.path, parts[0].kind, name),
                }
            };
            let after = grown(node, parts, leaf).children[k];
            &&& parts.len() > 1 ==> after == grown(
                NodeView { is_dir: true, ..before },
                parts.skip(1),
                leaf,
            )
            &&& parts.len() == 1 ==> {
                &&& after.name == before.name
                &&& after.path == before.path
                &&& after.children == before.children
                &&& leaf is Dir ==> after.is_dir && after.size == before.size
                &&& leaf matches Leaf::File(size) ==> !after.is_dir && after.size == (
                if before.size + size > u64::MAX {
                    u64::MAX as int
                } else {
                    before.size + size
                })
            }
        }),
        grown(node, Seq::empty(), leaf) == node,
{
    let name = text_of(parts[0].text);
    if k < node.children.len() {
        assert(first_with_name(node.children, name, k));
        lemma_child_with_name(node.children, name, k);
    } else if child_with_name(node.children, name) is Some {
        let i = child_with_name(node.children, name).unwrap();
        assert(first_with_name(node.children, name, i));
    }
}

/// Sizing leaves files alone; a directory keeps its name, its path and its
/// children, each of them sized, and has their sizes together.
pub proof fn law_sizing_adds_up_the_children(node: NodeView, i: int)
    ensures
        !node.is_dir ==> sized(node) == node,
        node.is_dir ==> {
            let after = sized(node);
            &&& after.name == node.name
            &&& after.path == node.path
            &&& after.is_dir
            &&& after.children.len() == node.children.len()
            &&& 0 <= i < node.children.len() ==> after.children[i] == sized(node.children[i])
            &&& after.size as nat == capped(sum_of_sizes(after.children))
        },
{
    if node.is_dir {
        lemma_capped_sum(sized(node).children);
    }
}

proof fn lemma_capped_sum(kids: Seq<NodeView>)
    ensures
        sat_sum(kids) as nat == capped(sum_of_sizes(kids)),
    decreases kids.len(),
{
    if kids.len() > 0 {
        lemma_capped_sum(kids.drop_last());
    }
}

/// Adding up sizes goes child by child.
pub proof fn law_sums_go_child_by_child(kids: Seq<NodeView>, kid: NodeView)
    ensures
        sum_of_sizes(Seq::<NodeView>::empty()) == 0,
        sum_of_sizes(kids.push(kid)) == sum_of_sizes(kids) + kid.size,
{
    assert(kids.push(kid).drop_last() =~= kids);
}

/// Sorting a tree keeps name, path, kind and size of every node, and all of its
/// children, each of them sorted, from the largest to the smallest, with those of
/// one size in their order.
pub proof fn law_sorting_a_tree_reorders_children(node: NodeView, size: u64, i: int)
    ensures
        ({
            let after = ordered(node);
            let each = all_ordered(node.children);
            &&& after.name == node.name
            &&& after.path == node.path
            &&& after.is_dir == node.is_dir
            &&& after.size == node.size
            &&& each.len() == node.children.len()
            &&& 0 <= i < each.len() ==> each[i] == ordered(node.children[i])
            &&& after.children.to_multiset() == each.to_multiset()
            &&& descending(after.children)
            &&& of_size(after.children, size) == of_size(each, size)
        }),
{
    let each = all_ordered(node.children);
    law_sorting_keeps_the_nodes(each);
    law_sorted_is_descending(each);
    law_sorting_is_stable(each, size);
}

/// A new node has the name, the path and the kind that it was given, no size and
/// no children.
pub proof fn law_new_node_is_empty(name: Seq<char>, path: Seq<PartView>, is_dir: bool)
    ensures
        fresh_node(name, path, is_dir).name == name,
        fresh_node(name, path, is_dir).path == path,
        fresh_node(name, path, is_dir).is_dir == is_dir,
        fresh_node(name, path, is_dir).size == 0,
        fresh_node(name, path, is_dir).children.len() == 0,
{
}

} // verus!
