//! Laws of sorting the tree.

use std::cmp::Ordering;
use vstd::prelude::*;

use crate::node::{size_order, NodeView};
use crate::tree::{all_ordered, by_size, inserted, ordered};

verus! {

/// Whether no node stands behind a smaller one.
pub open spec fn descending(nodes: Seq<NodeView>) -> bool {
    forall|i: int, j: int|
        0 <= i < j < nodes.len() ==> (#[trigger] nodes[i]).size >= (#[trigger] nodes[j]).size
}

/// Whether the children of every node of the tree are in descending order.
pub open spec fn all_descending(node: NodeView) -> bool
    decreases node,
{
    &&& descending(node.children)
    &&& forall|i: int| 0 <= i < node.children.len() ==> all_descending(#[trigger] node.children[i])
}

/// Sorting a list may neither drop a property that each node has nor add a node.
pub proof fn lemma_inserted_all(nodes: Seq<NodeView>, x: NodeView, p: spec_fn(NodeView) -> bool)
    requires
        forall|i: int| 0 <= i < nodes.len() ==> p(#[trigger] nodes[i]),
        p(x),
    ensures
        inserted(nodes, x).len() == nodes.len() + 1,
        forall|i: int|
            0 <= i < inserted(nodes, x).len() ==> p(#[trigger] inserted(nodes, x)[i]),
    decreases nodes.len(),
{
    if nodes.len() > 0 && nodes.last().size < x.size {
        lemma_inserted_all(nodes.drop_last(), x, p);
    }
}

/// What holds of each node of a list holds of each node of the sorted list.
pub proof fn lemma_sorted_all(nodes: Seq<NodeView>, p: spec_fn(NodeView) -> bool)
    requires
        forall|i: int| 0 <= i < nodes.len() ==> p(#[trigger] nodes[i]),
    ensures
        by_size(nodes).len() == nodes.len(),
        forall|i: int| 0 <= i < by_size(nodes).len() ==> p(#[trigger] by_size(nodes)[i]),
    decreases nodes.len(),
{
    if nodes.len() > 0 {
        lemma_sorted_all(nodes.drop_last(), p);
        lemma_inserted_all(by_size(nodes.drop_last()), nodes.last(), p);
    }
}

proof fn lemma_inserted_descending(nodes: Seq<NodeView>, x: NodeView)
    requires
        descending(nodes),
    ensures
        descending(inserted(nodes, x)),
    decreases nodes.len(),
{
    if nodes.len() > 0 && nodes.last().size < x.size {
        let front = nodes.drop_last();
        lemma_inserted_descending(front, x);
        let bound = nodes.last().size;
        lemma_inserted_all(front, x, |n: NodeView| n.size >= bound);
    }
}

/// Sorted nodes go from the largest to the smallest.
pub proof fn law_sorted_is_descending(nodes: Seq<NodeView>)
    ensures
        descending(by_size(nodes)),
    decreases nodes.len(),
{
    if nodes.len() > 0 {
        law_sorted_is_descending(nodes.drop_last());
        lemma_inserted_descending(by_size(nodes.drop_last()), nodes.last());
    }
}

proof fn lemma_inserted_multiset(nodes: Seq<NodeView>, x: NodeView)
    ensures
        inserted(nodes, x).to_multiset() == nodes.to_multiset().insert(x),
    decreases nodes.len(),
{
    broadcast use vstd::seq_lib::group_to_multiset_ensures;

    if nodes.len() > 0 && nodes.last().size < x.size {
        let front = nodes.drop_last();
        lemma_inserted_multiset(front, x);
        assert(nodes =~= front.push(nodes.last()));
        assert(inserted(nodes, x).to_multiset() =~= nodes.to_multiset().insert(x));
    }
}

/// Sorting neither loses a node nor adds one.
pub proof fn law_sorting_keeps_the_nodes(nodes: Seq<NodeView>)
    ensures
        by_size(nodes).to_multiset() == nodes.to_multiset(),
    decreases nodes.len(),
{
    broadcast use vstd::seq_lib::group_to_multiset_ensures;

    if nodes.len() > 0 {
        law_sorting_keeps_the_nodes(nodes.drop_last());
        lemma_inserted_multiset(by_size(nodes.drop_last()), nodes.last());
        assert(nodes =~= nodes.drop_last().push(nodes.last()));
    }
}

/// The nodes of one size, in the order in which they stand.
pub open spec fn of_size(nodes: Seq<NodeView>, size: u64) -> Seq<NodeView> {
    nodes.filter(|n: NodeView| n.size == size)
}

proof fn lemma_of_size_push(nodes: Seq<NodeView>, x: NodeView, size: u64)
    ensures
        of_size(nodes.push(x), size) == (if x.size == size {
            of_size(nodes, size).push(x)
        } else {
            of_size(nodes, size)
        }),
{
    reveal(Seq::filter);
    assert(nodes.push(x).drop_last() =~= nodes);
}

proof fn lemma_inserted_of_size(nodes: Seq<NodeView>, x: NodeView, size: u64)
    ensures
        of_size(inserted(nodes, x), size) == of_size(nodes.push(x), size),
    decreases nodes.len(),
{
    if nodes.len() > 0 && nodes.last().size < x.size {
        let front = nodes.drop_last();
        let last = nodes.last();
        lemma_inserted_of_size(front, x, size);
        lemma_of_size_push(inserted(front, x), last, size);
        lemma_of_size_push(nodes, x, size);
        lemma_of_size_push(front, x, size);
        lemma_of_size_push(front, last, size);
        assert(nodes =~= front.push(last));
    }
}

/// Nodes of the same size keep their order when they are sorted.
pub proof fn law_sorting_is_stable(nodes: Seq<NodeView>, size: u64)
    ensures
        of_size(by_size(nodes), size) == of_size(nodes, size),
    decreases nodes.len(),
{
    if nodes.len() > 0 {
        let front = nodes.drop_last();
        law_sorting_is_stable(front, size);
        lemma_inserted_of_size(by_size(front), nodes.last(), size);
        lemma_of_size_push(by_size(front), nodes.last(), size);
        lemma_of_size_push(front, nodes.last(), size);
        assert(nodes =~= front.push(nodes.last()));
    }
}

/// In a sorted tree the children of every node go from the largest to the smallest.
pub proof fn law_sorted_tree_is_descending(node: NodeView)
    ensures
        all_descending(ordered(node)),
    decreases node,
{
    let kids = all_ordered(node.children);
    assert forall|i: int| 0 <= i < kids.len() implies all_descending(#[trigger] kids[i]) by {
        law_sorted_tree_is_descending(node.children[i]);
    }
    law_sorted_is_descending(kids);
    lemma_sorted_all(kids, |n: NodeView| all_descending(n));
}

/// Comparing nodes by size puts the larger one first, and is an order.
pub proof fn law_larger_nodes_come_first(a: u64, b: u64, c: u64)
    ensures
        size_order(a, b) == Ordering::Less <==> a > b,
        size_order(a, b) == Ordering::Equal <==> a == b,
        size_order(a, b) == Ordering::Greater <==> size_order(b, a) == Ordering::Less,
        size_order(a, b) == Ordering::Less && size_order(b, c) == Ordering::Less ==> size_order(
            a,
            c,
        ) == Ordering::Less,
{
}

} // verus!
