//! Laws of finding a node by its path and of taking it out of the tree.

use vstd::prelude::*;

use crate::laws::deletion::{law_every_node_is_found, lemma_path_grows, well_placed};
use crate::laws::remains::{
    item_of, law_deletion_leaves_everything_else, lemma_node_is_listed, listing, listings,
    remaining,
};
use crate::node::{
    child_with_path, deleted, first_with_path, lemma_child_with_path, lemma_locate_on_tree, locate,
    locate_below, node_at, on_tree, pruned, NodeView,
};
use crate::path::PartView;

verus! {

/// A trail goes down child by child, and leads nowhere where there is none.
pub proof fn law_trails_go_down_child_by_child(node: NodeView, i: int, rest: Seq<int>)
    ensures
        on_tree(node, Seq::empty()),
        node_at(node, Seq::empty()) == node,
        on_tree(node, seq![i] + rest) <==> 0 <= i < node.children.len() && on_tree(
            node.children[i],
            rest,
        ),
        node_at(node, seq![i] + rest) == node_at(node.children[i], rest),
{
    assert((seq![i] + rest).skip(1) =~= rest);
}

/// Of the children of a node the first is found that has the path itself.
pub proof fn law_child_with_the_path_is_found(node: NodeView, target: Seq<PartView>, k: int)
    requires
        0 <= k < node.children.len(),
        node.children[k].path == target,
        forall|j: int| 0 <= j < k ==> (#[trigger] node.children[j]).path != target,
    ensures
        locate(node, target) == Some(seq![k]),
{
    assert(first_with_path(node.children, target, k));
    lemma_child_with_path(node.children, target, k);
}

/// Where no child has the path itself, the first child is gone into whose path
/// leads there and below which the path is found.
pub proof fn law_path_is_found_below_a_child(node: NodeView, target: Seq<PartView>, k: int)
    requires
        forall|j: int|
            0 <= j < node.children.len() ==> (#[trigger] node.children[j]).path != target,
        0 <= k < node.children.len(),
        node.children[k].path.is_prefix_of(target),
        locate(node.children[k], target) is Some,
        forall|j: int|
            0 <= j < k ==> !(#[trigger] node.children[j]).path.is_prefix_of(target) || locate(
                node.children[j],
                target,
            ) is None,
    ensures
        locate(node, target) == Some(seq![k] + locate(node.children[k], target).unwrap()),
{
    lemma_no_child(node.children, target);
    lemma_reaches(node.children, target, 0, k);
}

/// A path is not found where no child has it and nothing below a child on the
/// way to it.
pub proof fn law_missing_path_is_not_found(node: NodeView, target: Seq<PartView>)
    requires
        forall|j: int|
            0 <= j < node.children.len() ==> {
                &&& (#[trigger] node.children[j]).path != target
                &&& !node.children[j].path.is_prefix_of(target) || locate(
                    node.children[j],
                    target,
                ) is None
            },
    ensures
        locate(node, target) is None,
{
    lemma_no_child(node.children, target);
    lemma_reaches_nothing(node.children, target, 0);
}

proof fn lemma_no_child(kids: Seq<NodeView>, target: Seq<PartView>)
    requires
        forall|j: int| 0 <= j < kids.len() ==> (#[trigger] kids[j]).path != target,
    ensures
        child_with_path(kids, target) is None,
{
    assert forall|i: int| !first_with_path(kids, target, i) by {
        if 0 <= i < kids.len() {
            assert(kids[i].path != target);
        }
    }
}

proof fn lemma_reaches(kids: Seq<NodeView>, target: Seq<PartView>, from: nat, k: int)
    requires
        from <= k < kids.len(),
        kids[k].path.is_prefix_of(target),
        locate(kids[k], target) is Some,
        forall|j: int|
            from <= j < k ==> !(#[trigger] kids[j]).path.is_prefix_of(target) || locate(
                kids[j],
                target,
            ) is None,
    ensures
        locate_below(kids, target, from) == Some(seq![k] + locate(kids[k], target).unwrap()),
    decreases k - from,
{
    reveal_with_fuel(locate_below, 2);
    reveal_with_fuel(locate, 2);
    if from < k {
        assert(!kids[from as int].path.is_prefix_of(target) || locate(
            kids[from as int],
            target,
        ) is None);
        lemma_reaches(kids, target, from + 1, k);
    }
}

proof fn lemma_reaches_nothing(kids: Seq<NodeView>, target: Seq<PartView>, from: nat)
    requires
        forall|j: int|
            from <= j < kids.len() ==> !(#[trigger] kids[j]).path.is_prefix_of(target) || locate(
                kids[j],
                target,
            ) is None,
    ensures
        locate_below(kids, target, from) is None,
    decreases kids.len() - from,
{
    reveal_with_fuel(locate_below, 2);
    reveal_with_fuel(locate, 2);
    if from < kids.len() {
        assert(!kids[from as int].path.is_prefix_of(target) || locate(
            kids[from as int],
            target,
        ) is None);
        lemma_reaches_nothing(kids, target, from + 1);
    }
}

/// Taking a node out removes it from the children of its directory, changes no
/// other child, and takes its size off everything above it.
pub proof fn law_pruning_takes_out_the_end(node: NodeView, i: int, rest: Seq<int>, k: int)
    requires
        on_tree(node, seq![i] + rest),
    ensures
        ({
            let after = pruned(node, seq![i] + rest);
            let gone = node_at(node, seq![i] + rest);
            &&& after.name == node.name
            &&& after.path == node.path
            &&& after.is_dir == node.is_dir
            &&& after.size == (if node.size >= gone.size {
                node.size - gone.size
            } else {
                0
            })
            &&& rest.len() == 0 ==> after.children == node.children.take(i) + node.children.skip(
                i + 1,
            )
            &&& rest.len() > 0 ==> {
                &&& after.children.len() == node.children.len()
                &&& after.children[i] == pruned(node.children[i], rest)
                &&& 0 <= k < node.children.len() && k != i ==> after.children[k]
                    == node.children[k]
            }
        }),
{
    assert((seq![i] + rest).skip(1) =~= rest);
    if rest.len() == 0 {
        assert(node.children.remove(i) =~= node.children.take(i) + node.children.skip(i + 1));
    }
}

/// A deletion takes out the node that is found, if its entry is gone from disk,
/// and does nothing otherwise.
pub proof fn law_deletion_takes_out_what_is_found(
    node: NodeView,
    target: Seq<PartView>,
    on_disk: bool,
)
    ensures
        on_disk && locate(node, target) is Some ==> deleted(node, target, on_disk) == pruned(
            node,
            locate(node, target).unwrap(),
        ),
        !on_disk || locate(node, target) is None ==> deleted(node, target, on_disk) == node,
{
}

proof fn lemma_listed_below(kids: Seq<NodeView>, k: int) -> (at: (int, Seq<int>))
    requires
        0 <= k < listings(kids).len(),
    ensures
        0 <= at.0 < kids.len(),
        on_tree(kids[at.0], at.1),
        item_of(node_at(kids[at.0], at.1)) == listings(kids)[k],
    decreases kids,
{
    let front = listings(kids.drop_last());
    if k < front.len() {
        let at = lemma_listed_below(kids.drop_last(), k);
        assert(kids.drop_last()[at.0] == kids[at.0]);
        at
    } else {
        let trail = lemma_listed_stands(kids.last(), k - front.len());
        (kids.len() - 1, trail)
    }
}

/// Whatever a listing holds stands somewhere in the tree.
proof fn lemma_listed_stands(node: NodeView, k: int) -> (trail: Seq<int>)
    requires
        0 <= k < listing(node).len(),
    ensures
        on_tree(node, trail),
        item_of(node_at(node, trail)) == listing(node)[k],
        k > 0 ==> trail.len() > 0,
    decreases node,
{
    if k == 0 {
        Seq::empty()
    } else {
        let at = lemma_listed_below(node.children, k - 1);
        law_trails_go_down_child_by_child(node, at.0, at.1);
        seq![at.0] + at.1
    }
}

/// A path under which the listing of a well placed tree shows something below
/// the root is found, as what the listing shows, and its deletion takes that and
/// all that lies below it off the listing, and its size off all that lies above.
pub proof fn law_listed_path_is_deleted(node: NodeView, target: Seq<PartView>, k: int)
    requires
        well_placed(node),
        0 < k < listing(node).len(),
        listing(node)[k].path == target,
    ensures
        locate(node, target) is Some,
        item_of(node_at(node, locate(node, target).unwrap())) == listing(node)[k],
        listing(deleted(node, target, true)) == remaining(
            listing(node),
            target,
            listing(node)[k].size,
        ),
        deleted(node, target, false) == node,
{
    let trail = lemma_listed_stands(node, k);
    law_every_node_is_found(node, trail);
    law_deletion_leaves_everything_else(node, target);
}

/// A path under which the listing of a well placed tree shows nothing below the
/// root is not found, and its deletion changes nothing.
pub proof fn law_unlisted_path_is_not_deleted(
    node: NodeView,
    target: Seq<PartView>,
    on_disk: bool,
)
    requires
        well_placed(node),
        forall|k: int| 0 < k < listing(node).len() ==> (#[trigger] listing(node)[k]).path != target,
    ensures
        locate(node, target) is None,
        deleted(node, target, on_disk) == node,
{
    if locate(node, target) is Some {
        let trail = locate(node, target).unwrap();
        lemma_locate_on_tree(node, target);
        lemma_path_grows(node, trail);
        lemma_node_is_listed(node, trail);
        let item = item_of(node_at(node, trail));
        let k = choose|k: int| 0 <= k < listing(node).len() && listing(node)[k] == item;
        assert(listing(node)[0] == item_of(node));
        assert(listing(node)[k].path == target);
    }
}

} // verus!
