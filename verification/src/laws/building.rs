//! Laws of building the tree: doing a step again, or in two parts, changes nothing.

use vstd::prelude::*;

use crate::laws::scanning::{lemma_grown_kids, next_kid};
use crate::laws::sorting::{descending, law_sorted_is_descending, lemma_sorted_all};
use crate::node::NodeView;
use crate::path::{text_of, PartView};
use crate::tree::{
    all_ordered, all_sized, by_size, grown, inserted, kids_with, ordered, sat_add, sat_sum, sized,
    slot, Leaf,
};

verus! {

/// What comes of placing two leaves at the same place, where the first is no
/// file or both are.
pub open spec fn both(first: Leaf, second: Leaf) -> Leaf {
    match (first, second) {
        (Leaf::File(a), Leaf::File(b)) => Leaf::File(sat_add(a, b)),
        _ => second,
    }
}

proof fn lemma_placed_again(node: NodeView, parts: Seq<PartView>, first: Leaf, second: Leaf)
    requires
        first is File ==> second is File,
    ensures
        grown(grown(node, parts, first), parts, second) == grown(node, parts, both(first, second)),
    decreases parts.len(),
{
    if parts.len() > 0 {
        let name = text_of(parts[0].text);
        let i = slot(node.children, name);
        let kids = kids_with(node, parts[0].kind, name);
        let once = grown(node, parts, first);
        lemma_grown_kids(node, parts, first, name);
        lemma_grown_kids(node, parts, both(first, second), name);
        assert(kids_with(once, parts[0].kind, name) == once.children);
        assert(slot(once.children, name) == i);
        if parts.len() > 1 {
            let dir = NodeView { is_dir: true, ..kids[i] };
            lemma_placed_again(dir, parts.skip(1), first, second);
            let next = next_kid(node, parts, first);
            assert(NodeView { is_dir: true, ..next } == next);
        }
        assert(grown(once, parts, second).children =~= kids.update(
            i,
            next_kid(node, parts, both(first, second)),
        ));
    }
}

/// Placing a directory twice is placing it once.
pub proof fn law_placing_a_directory_twice(node: NodeView, parts: Seq<PartView>)
    ensures
        grown(grown(node, parts, Leaf::Dir), parts, Leaf::Dir) == grown(node, parts, Leaf::Dir),
{
    lemma_placed_again(node, parts, Leaf::Dir, Leaf::Dir);
}

/// Adding a file's size in two steps is adding it at once.
pub proof fn law_adding_a_file_in_two_steps(node: NodeView, parts: Seq<PartView>, a: u64, b: u64)
    ensures
        grown(grown(node, parts, Leaf::File(a)), parts, Leaf::File(b)) == grown(
            node,
            parts,
            Leaf::File(sat_add(a, b)),
        ),
{
    lemma_placed_again(node, parts, Leaf::File(a), Leaf::File(b));
}

/// Placing a directory before what lies in it changes nothing: placing that adds
/// the directory anyway.
pub proof fn law_placing_the_directory_first(
    node: NodeView,
    parts: Seq<PartView>,
    leaf: Leaf,
    n: int,
)
    requires
        0 <= n < parts.len(),
    ensures
        grown(grown(node, parts.take(n), Leaf::Dir), parts, leaf) == grown(node, parts, leaf),
    decreases parts.len(),
{
    if n > 0 {
        let dirs = parts.take(n);
        let name = text_of(parts[0].text);
        let i = slot(node.children, name);
        let kids = kids_with(node, parts[0].kind, name);
        let once = grown(node, dirs, Leaf::Dir);
        assert(dirs[0] == parts[0]);
        lemma_grown_kids(node, dirs, Leaf::Dir, name);
        lemma_grown_kids(node, parts, leaf, name);
        assert(kids_with(once, parts[0].kind, name) == once.children);
        assert(slot(once.children, name) == i);
        let next = next_kid(node, dirs, Leaf::Dir);
        let dir = NodeView { is_dir: true, ..kids[i] };
        if n == 1 {
            assert(next == dir);
        } else {
            assert(dirs.skip(1) =~= parts.skip(1).take(n - 1));
            law_placing_the_directory_first(dir, parts.skip(1), leaf, n - 1);
            assert(NodeView { is_dir: true, ..next } == next);
        }
        assert(grown(once, parts, leaf).children =~= kids.update(
            i,
            next_kid(node, parts, leaf),
        ));
    } else {
        assert(parts.take(n).len() == 0);
    }
}

/// Adding up the sizes of a tree again changes nothing.
pub proof fn law_sizing_twice(node: NodeView)
    ensures
        sized(sized(node)) == sized(node),
    decreases node,
{
    if node.is_dir {
        let kids = all_sized(node.children);
        assert forall|i: int| 0 <= i < kids.len() implies sized(#[trigger] kids[i]) == kids[i] by {
            law_sizing_twice(node.children[i]);
        }
        assert(all_sized(kids) =~= kids);
    }
}

proof fn lemma_inserted_sat_sum(nodes: Seq<NodeView>, x: NodeView)
    ensures
        sat_sum(inserted(nodes, x)) == sat_add(sat_sum(nodes), x.size),
    decreases nodes.len(),
{
    if nodes.len() > 0 && nodes.last().size < x.size {
        let front = inserted(nodes.drop_last(), x);
        lemma_inserted_sat_sum(nodes.drop_last(), x);
        assert(front.push(nodes.last()).drop_last() =~= front);
    } else {
        assert(nodes.push(x).drop_last() =~= nodes);
    }
}

proof fn lemma_sorted_sat_sum(nodes: Seq<NodeView>)
    ensures
        sat_sum(by_size(nodes)) == sat_sum(nodes),
    decreases nodes.len(),
{
    if nodes.len() > 0 {
        lemma_sorted_sat_sum(nodes.drop_last());
        lemma_inserted_sat_sum(by_size(nodes.drop_last()), nodes.last());
    }
}

proof fn lemma_ordered_sat_sum(kids: Seq<NodeView>)
    ensures
        sat_sum(all_ordered(kids)) == sat_sum(kids),
    decreases kids.len(),
{
    if kids.len() > 0 {
        lemma_ordered_sat_sum(kids.drop_last());
        assert(all_ordered(kids).drop_last() =~= all_ordered(kids.drop_last()));
    }
}

proof fn lemma_ordered_stays_sized(node: NodeView)
    requires
        sized(node) == node,
    ensures
        sized(ordered(node)) == ordered(node),
    decreases node,
{
    if node.is_dir {
        let kids = all_ordered(node.children);
        let sorted = by_size(kids);
        let p = |n: NodeView| sized(n) == n;
        assert forall|i: int| 0 <= i < kids.len() implies p(#[trigger] kids[i]) by {
            assert(all_sized(node.children)[i] == sized(node.children[i]));
            lemma_ordered_stays_sized(node.children[i]);
        }
        lemma_sorted_all(kids, p);
        assert forall|i: int| 0 <= i < sorted.len() implies all_sized(sorted)[i] == sorted[i] by {
            assert(p(sorted[i]));
        }
        assert(all_sized(sorted) =~= sorted);
        lemma_sorted_sat_sum(kids);
        lemma_ordered_sat_sum(node.children);
    }
}

/// Adding up the sizes of a tree again after it was sorted changes nothing.
pub proof fn law_sizing_after_sorting(node: NodeView)
    ensures
        sized(ordered(sized(node))) == ordered(sized(node)),
{
    law_sizing_twice(node);
    lemma_ordered_stays_sized(sized(node));
}

proof fn lemma_sorted_stays(nodes: Seq<NodeView>)
    requires
        descending(nodes),
    ensures
        by_size(nodes) == nodes,
    decreases nodes.len(),
{
    if nodes.len() > 0 {
        lemma_sorted_stays(nodes.drop_last());
        assert(nodes.drop_last().push(nodes.last()) =~= nodes);
    }
}

/// Sorting a tree twice is sorting it once.
pub proof fn law_sorting_twice(node: NodeView)
    ensures
        ordered(ordered(node)) == ordered(node),
    decreases node,
{
    let kids = all_ordered(node.children);
    let sorted = by_size(kids);
    let p = |n: NodeView| ordered(n) == n;
    assert forall|i: int| 0 <= i < kids.len() implies p(#[trigger] kids[i]) by {
        law_sorting_twice(node.children[i]);
    }
    lemma_sorted_all(kids, p);
    assert forall|i: int| 0 <= i < sorted.len() implies all_ordered(sorted)[i] == sorted[i] by {
        assert(p(sorted[i]));
    }
    assert(all_ordered(sorted) =~= sorted);
    law_sorted_is_descending(kids);
    lemma_sorted_stays(sorted);
}

} // verus!
