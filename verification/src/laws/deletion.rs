//! Laws of deleting a node from the tree.

use vstd::prelude::*;

use crate::node::{
    child_with_path, deleted, first_with_path, lemma_child_with_path, lemma_locate_on_tree, less,
    locate, locate_below, node_at, on_tree, pruned, NodeView,
};
use crate::path::PartView;
use crate::treemap::sum_of_sizes;

verus! {

/// Whether every node's path is its parent's path with one more component, and
/// no two children of a node have the same path.
pub open spec fn well_placed(node: NodeView) -> bool
    decreases node,
{
    &&& forall|i: int|
        0 <= i < node.children.len() ==> {
            &&& (#[trigger] node.children[i]).path.len() == node.path.len() + 1
            &&& node.path.is_prefix_of(node.children[i].path)
            &&& well_placed(node.children[i])
        }
    &&& forall|i: int, j: int|
        0 <= i < j < node.children.len() ==> (#[trigger] node.children[i]).path != (
        #[trigger] node.children[j]).path
}

/// Whether every directory has exactly the size of its children together.
pub open spec fn adds_up(node: NodeView) -> bool
    decreases node,
{
    &&& node.is_dir ==> node.size == sum_of_sizes(node.children)
    &&& forall|i: int| 0 <= i < node.children.len() ==> adds_up(#[trigger] node.children[i])
}

pub(crate) proof fn lemma_prefix_transitive(a: Seq<PartView>, b: Seq<PartView>, c: Seq<PartView>)
    requires
        a.is_prefix_of(b),
        b.is_prefix_of(c),
    ensures
        a.is_prefix_of(c),
{
    assert(a =~= c.subrange(0, a.len() as int)) by {
        assert(b =~= c.subrange(0, b.len() as int));
    }
}

proof fn lemma_prefixes_agree(a: Seq<PartView>, b: Seq<PartView>, c: Seq<PartView>)
    requires
        a.is_prefix_of(c),
        b.is_prefix_of(c),
        a.len() == b.len(),
    ensures
        a == b,
{
}

/// In a well placed tree the paths along a trail only grow.
pub(crate) proof fn lemma_path_grows(node: NodeView, trail: Seq<int>)
    requires
        well_placed(node),
        on_tree(node, trail),
    ensures
        node.path.is_prefix_of(node_at(node, trail).path),
        node_at(node, trail).path.len() == node.path.len() + trail.len(),
    decreases trail.len(),
{
    if trail.len() == 0 {
        assert(node.path =~= node.path.subrange(0, node.path.len() as int));
    } else {
        let child = node.children[trail[0]];
        lemma_path_grows(child, trail.skip(1));
        lemma_prefix_transitive(node.path, child.path, node_at(node, trail).path);
    }
}

/// The node that a deletion removes has the path that was asked for.
pub proof fn law_deletion_hits_its_path(node: NodeView, target: Seq<PartView>)
    ensures
        locate(node, target) matches Some(trail) ==> {
            &&& trail.len() > 0
            &&& on_tree(node, trail)
            &&& node_at(node, trail).path == target
        },
{
    lemma_locate_on_tree(node, target);
}

/// Every node below the root of a well placed tree is found under its own path.
pub proof fn law_every_node_is_found(node: NodeView, trail: Seq<int>)
    requires
        well_placed(node),
        on_tree(node, trail),
        trail.len() > 0,
    ensures
        locate(node, node_at(node, trail).path) == Some(trail),
    decreases trail.len(),
{
    let i = trail[0];
    let rest = trail.skip(1);
    let child = node.children[i];
    let target = node_at(node, trail).path;
    lemma_path_grows(node, trail);
    lemma_path_grows(child, rest);
    if trail.len() == 1 {
        assert(node_at(node, trail) == child);
        assert(first_with_path(node.children, target, i)) by {
            assert forall|j: int| 0 <= j < i implies (#[trigger] node.children[j]).path != target by {
                assert(node.children[j].path != node.children[i].path);
            }
        }
        lemma_child_with_path(node.children, target, i);
        assert(trail =~= seq![i]);
    } else {
        law_every_node_is_found(child, rest);
        assert(child_with_path(node.children, target) is None) by {
            assert forall|c: int| !first_with_path(node.children, target, c) by {
                if 0 <= c < node.children.len() {
                    assert(node.children[c].path.len() != target.len());
                }
            }
        }
        lemma_only_one_way(node, target, i, 0);
        assert(trail =~= seq![i] + rest);
    }
}

/// Below a well placed node only the child on the way to `target` can hold it.
proof fn lemma_only_one_way(node: NodeView, target: Seq<PartView>, i: int, k: nat)
    requires
        well_placed(node),
        0 <= i < node.children.len(),
        node.children[i].path.is_prefix_of(target),
        k <= i,
        locate(node.children[i], target) is Some,
    ensures
        locate_below(node.children, target, k) == Some(
            seq![i] + locate(node.children[i], target).unwrap(),
        ),
    decreases i - k,
{
    if k < i {
        if node.children[k as int].path.is_prefix_of(target) {
            assert(node.children[k as int].path != node.children[i].path);
            lemma_prefixes_agree(node.children[k as int].path, node.children[i].path, target);
        }
        lemma_only_one_way(node, target, i, k + 1);
    }
}

/// Pruning changes no path on the way.
proof fn lemma_pruned_path(node: NodeView, trail: Seq<int>)
    ensures
        pruned(node, trail).path == node.path,
{
}

/// A well placed tree stays well placed when a node is taken out of it.
pub proof fn law_deletion_keeps_places(node: NodeView, trail: Seq<int>)
    requires
        well_placed(node),
        on_tree(node, trail),
    ensures
        well_placed(pruned(node, trail)),
    decreases trail.len(),
{
    let after = pruned(node, trail);
    if trail.len() == 1 {
        assert forall|i: int| 0 <= i < after.children.len() implies {
            &&& (#[trigger] after.children[i]).path.len() == after.path.len() + 1
            &&& after.path.is_prefix_of(after.children[i].path)
            &&& well_placed(after.children[i])
        } by {
            let j = if i < trail[0] {
                i
            } else {
                i + 1
            };
            assert(after.children[i] == node.children[j]);
        }
        assert forall|i: int, j: int| 0 <= i < j < after.children.len() implies (
        #[trigger] after.children[i]).path != (#[trigger] after.children[j]).path by {
            let a = if i < trail[0] {
                i
            } else {
                i + 1
            };
            let b = if j < trail[0] {
                j
            } else {
                j + 1
            };
            assert(node.children[a].path != node.children[b].path);
        }
    } else if trail.len() > 1 {
        let child = node.children[trail[0]];
        law_deletion_keeps_places(child, trail.skip(1));
        lemma_pruned_path(child, trail.skip(1));
        assert forall|i: int| 0 <= i < after.children.len() implies {
            &&& (#[trigger] after.children[i]).path.len() == after.path.len() + 1
            &&& after.path.is_prefix_of(after.children[i].path)
            &&& well_placed(after.children[i])
        } by {
            assert(after.children[i].path == node.children[i].path);
        }
        assert forall|i: int, j: int| 0 <= i < j < after.children.len() implies (
        #[trigger] after.children[i]).path != (#[trigger] after.children[j]).path by {
            assert(node.children[i].path != node.children[j].path);
        }
    }
}

/// A path that was deleted from a well placed tree is not found again.
pub proof fn law_deleted_is_gone(node: NodeView, target: Seq<PartView>)
    requires
        well_placed(node),
        locate(node, target) is Some,
    ensures
        locate(deleted(node, target, true), target) is None,
    decreases node,
{
    let trail = locate(node, target).unwrap();
    let after = pruned(node, trail);
    lemma_locate_on_tree(node, target);
    lemma_path_grows(node, trail);
    if trail.len() == 1 {
        let gone = trail[0];
        assert(node_at(node, trail) == node.children[gone]) by {
            reveal_with_fuel(node_at, 2);
        }
        assert forall|c: int| 0 <= c < after.children.len() implies (#[trigger] after.children[c]).path
            != target && !after.children[c].path.is_prefix_of(target) by {
            let j = if c < gone {
                c
            } else {
                c + 1
            };
            assert(after.children[c] == node.children[j]);
            assert(node.children[j].path.len() == node.path.len() + 1);
            if after.children[c].path.is_prefix_of(target) {
                assert(after.children[c].path =~= target);
                if j < gone {
                    assert(node.children[j].path != node.children[gone].path);
                } else {
                    assert(node.children[gone].path != node.children[j].path);
                }
            }
        }
        assert(child_with_path(after.children, target) is None);
        lemma_nothing_below(after.children, target, 0);
    } else {
        let way = trail[0];
        let rest = trail.skip(1);
        let child = node.children[way];
        lemma_path_grows(child, rest);
        assert(node_at(node, trail) == node_at(child, rest));
        law_every_node_is_found(child, rest);
        assert(locate(child, target) == Some(rest));
        law_deleted_is_gone(child, target);
        lemma_pruned_path(child, rest);
        assert forall|c: int| 0 <= c < after.children.len() implies (#[trigger] after.children[c]).path
            != target && (after.children[c].path.is_prefix_of(target) ==> locate(
            after.children[c],
            target,
        ) is None) by {
            assert(after.children[c].path == node.children[c].path);
            if c != way && after.children[c].path.is_prefix_of(target) {
                lemma_prefixes_agree(node.children[c].path, child.path, target);
                if c < way {
                    assert(node.children[c].path != node.children[way].path);
                } else {
                    assert(node.children[way].path != node.children[c].path);
                }
            }
        }
        assert(child_with_path(after.children, target) is None);
        lemma_nothing_below(after.children, target, 0);
    }
}

proof fn lemma_nothing_below(kids: Seq<NodeView>, target: Seq<PartView>, k: nat)
    requires
        forall|c: int|
            0 <= c < kids.len() && (#[trigger] kids[c]).path.is_prefix_of(target) ==> locate(
                kids[c],
                target,
            ) is None,
    ensures
        locate_below(kids, target, k) is None,
    decreases kids.len() - k,
{
    if k < kids.len() {
        lemma_nothing_below(kids, target, k + 1);
    }
}

/// A second deletion of a path from a well placed tree changes nothing.
pub proof fn law_deleting_twice_is_deleting_once(node: NodeView, target: Seq<PartView>)
    requires
        well_placed(node),
    ensures
        deleted(deleted(node, target, true), target, true) == deleted(node, target, true),
{
    if locate(node, target) is Some {
        law_deleted_is_gone(node, target);
    }
}

/// A deletion that finds no node, or whose entry stays on disk, leaves the tree as it was.
pub proof fn law_failed_deletion_changes_nothing(
    node: NodeView,
    target: Seq<PartView>,
    on_disk: bool,
)
    requires
        locate(node, target) is None || !on_disk,
    ensures
        deleted(node, target, on_disk) == node,
{
}

proof fn lemma_sum_of_update(kids: Seq<NodeView>, i: int, kid: NodeView)
    requires
        0 <= i < kids.len(),
    ensures
        sum_of_sizes(kids.update(i, kid)) == sum_of_sizes(kids) - kids[i].size + kid.size,
    decreases kids.len(),
{
    let after = kids.update(i, kid);
    if i == kids.len() - 1 {
        assert(after.drop_last() =~= kids.drop_last());
    } else {
        assert(after.drop_last() =~= kids.drop_last().update(i, kid));
        lemma_sum_of_update(kids.drop_last(), i, kid);
    }
}

proof fn lemma_sum_of_remove(kids: Seq<NodeView>, i: int)
    requires
        0 <= i < kids.len(),
    ensures
        sum_of_sizes(kids.remove(i)) == sum_of_sizes(kids) - kids[i].size,
    decreases kids.len(),
{
    let after = kids.remove(i);
    if i == kids.len() - 1 {
        assert(after =~= kids.drop_last());
    } else {
        assert(after.drop_last() =~= kids.drop_last().remove(i));
        lemma_sum_of_remove(kids.drop_last(), i);
    }
}

proof fn lemma_size_within_sum(kids: Seq<NodeView>, i: int)
    requires
        0 <= i < kids.len(),
    ensures
        kids[i].size <= sum_of_sizes(kids),
    decreases kids.len(),
{
    if i < kids.len() - 1 {
        lemma_size_within_sum(kids.drop_last(), i);
    }
}

/// Whether all nodes above the one at the end of `trail` are directories.
pub open spec fn dirs_above(node: NodeView, trail: Seq<int>) -> bool
    decreases trail.len(),
{
    trail.len() == 0 || {
        &&& node.is_dir
        &&& dirs_above(node.children[trail[0]], trail.skip(1))
    }
}

/// Whether every node on the way to the end of `trail` is at least as large as
/// the node there, or makes up all of its directory. Where only directories have
/// children and the sizes add up, this is always so.
pub open spec fn large_enough(node: NodeView, trail: Seq<int>) -> bool
    decreases trail.len(),
{
    trail.len() <= 1 || {
        let next = node.children[trail[0]];
        &&& node.is_dir ==> next.size >= node_at(node, trail).size || next.size == node.size
        &&& large_enough(next, trail.skip(1))
    }
}

/// Where every directory has the size of its children together, it still has
/// after a deletion, unless the way to the deleted node leads through a file
/// that is smaller than that node: then, and only then, the sums fail.
pub proof fn law_deletion_keeps_sums(node: NodeView, trail: Seq<int>)
    requires
        adds_up(node),
        on_tree(node, trail),
        trail.len() > 0,
    ensures
        adds_up(pruned(node, trail)) <==> large_enough(node, trail),
    decreases trail.len(),
{
    let i = trail[0];
    let after = pruned(node, trail);
    let gone = node_at(node, trail);
    lemma_size_within_sum(node.children, i);
    if trail.len() == 1 {
        assert(gone == node.children[i]) by {
            reveal_with_fuel(node_at, 2);
        }
        lemma_sum_of_remove(node.children, i);
        assert forall|c: int| 0 <= c < after.children.len() implies adds_up(
            #[trigger] after.children[c],
        ) by {
            let j = if c < i {
                c
            } else {
                c + 1
            };
            assert(after.children[c] == node.children[j]);
        }
    } else {
        let child = node.children[i];
        let left = pruned(child, trail.skip(1));
        law_deletion_keeps_sums(child, trail.skip(1));
        assert(gone == node_at(child, trail.skip(1)));
        lemma_sum_of_update(node.children, i, left);
        assert(after.children[i] == left);
        assert forall|c: int| 0 <= c < after.children.len() && c != i implies adds_up(
            #[trigger] after.children[c],
        ) by {
            assert(after.children[c] == node.children[c]);
        }
    }
}

/// Where all nodes above the deleted one are directories, the sums are kept and
/// the tree has become smaller by exactly the size of the deleted node.
pub proof fn law_deletion_takes_exactly_the_size(node: NodeView, trail: Seq<int>)
    requires
        adds_up(node),
        on_tree(node, trail),
        trail.len() > 0,
        dirs_above(node, trail),
    ensures
        adds_up(pruned(node, trail)),
        pruned(node, trail).size == node.size - node_at(node, trail).size,
        node_at(node, trail).size <= node.size,
{
    lemma_dirs_are_large_enough(node, trail);
    law_deletion_keeps_sums(node, trail);
}

proof fn lemma_dirs_are_large_enough(node: NodeView, trail: Seq<int>)
    requires
        adds_up(node),
        on_tree(node, trail),
        dirs_above(node, trail),
    ensures
        large_enough(node, trail),
        node_at(node, trail).size <= node.size,
    decreases trail.len(),
{
    if trail.len() > 0 {
        lemma_size_within_sum(node.children, trail[0]);
        lemma_dirs_are_large_enough(node.children[trail[0]], trail.skip(1));
    }
}

/// Deleting a node takes its size off every directory above it: the sizes of a
/// tree that adds up still add up afterwards.
pub proof fn law_deletion_takes_the_size_off(node: NodeView, target: Seq<PartView>)
    requires
        adds_up(node),
        locate(node, target) is Some,
        large_enough(node, locate(node, target).unwrap()),
    ensures
        adds_up(deleted(node, target, true)),
        deleted(node, target, true).size == less(
            node.size,
            node_at(node, locate(node, target).unwrap()).size,
        ),
{
    lemma_locate_on_tree(node, target);
    law_deletion_keeps_sums(node, locate(node, target).unwrap());
}

} // verus!
