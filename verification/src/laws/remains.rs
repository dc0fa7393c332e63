//! Laws of what a deletion leaves: everything but the node and what lies below it.

use vstd::prelude::*;

use crate::laws::deletion::{lemma_path_grows, lemma_prefix_transitive, well_placed};
use crate::node::{
    deleted, lemma_locate_on_tree, locate, node_at, on_tree, pruned, NodeView,
};
use crate::path::PartView;

verus! {

/// What a list of the tree shows of a node.
#[verifier::ext_equal]
pub struct Item {
    pub name: Seq<char>,
    pub path: Seq<PartView>,
    pub is_dir: bool,
    pub size: u64,
}

/// What a list of the tree shows of `node`.
pub open spec fn item_of(node: NodeView) -> Item {
    Item { name: node.name, path: node.path, is_dir: node.is_dir, size: node.size }
}

/// All nodes of a tree: each before its children, and the children in order.
pub open spec fn listing(node: NodeView) -> Seq<Item>
    decreases node,
{
    seq![item_of(node)] + listings(node.children)
}

/// All nodes of all of `kids`.
pub open spec fn listings(kids: Seq<NodeView>) -> Seq<Item>
    decreases kids,
{
    if kids.len() == 0 {
        Seq::empty()
    } else {
        listings(kids.drop_last()) + listing(kids.last())
    }
}

/// Whether `path` leads to a place strictly above `target`.
pub open spec fn leads_above(path: Seq<PartView>, target: Seq<PartView>) -> bool {
    path.len() < target.len() && path.is_prefix_of(target)
}

/// An item once a node of `size` bytes at `target` is gone: smaller by that size
/// if it stands above `target`, and as it was otherwise.
pub open spec fn item_after(item: Item, target: Seq<PartView>, size: u64) -> Item {
    if leads_above(item.path, target) {
        let size = if item.size >= size {
            (item.size - size) as u64
        } else {
            0
        };
        Item { size, ..item }
    } else {
        item
    }
}

/// The items that do not stand at or below `target`, in their order, once a node
/// of `size` bytes there is gone.
pub open spec fn remaining(items: Seq<Item>, target: Seq<PartView>, size: u64) -> Seq<Item>
    decreases items.len(),
{
    if items.len() == 0 {
        Seq::empty()
    } else {
        let front = remaining(items.drop_last(), target, size);
        if target.is_prefix_of(items.last().path) {
            front
        } else {
            front.push(item_after(items.last(), target, size))
        }
    }
}

proof fn lemma_remaining_sum(a: Seq<Item>, b: Seq<Item>, target: Seq<PartView>, size: u64)
    ensures
        remaining(a + b, target, size) == remaining(a, target, size) + remaining(b, target, size),
    decreases b.len(),
{
    if b.len() == 0 {
        assert(a + b =~= a);
        assert(remaining(a, target, size) + remaining(b, target, size) =~= remaining(
            a,
            target,
            size,
        ));
    } else {
        assert((a + b).drop_last() =~= a + b.drop_last());
        lemma_remaining_sum(a, b.drop_last(), target, size);
        assert(remaining(a + b, target, size) =~= remaining(a, target, size) + remaining(
            b,
            target,
            size,
        ));
    }
}

proof fn lemma_remaining_one(item: Item, target: Seq<PartView>, size: u64)
    ensures
        remaining(seq![item], target, size) == (if target.is_prefix_of(item.path) {
            Seq::empty()
        } else {
            seq![item_after(item, target, size)]
        }),
{
    reveal_with_fuel(remaining, 2);
    assert(seq![item].drop_last() =~= Seq::<Item>::empty());
    assert(Seq::<Item>::empty().push(item_after(item, target, size)) =~= seq![
        item_after(item, target, size),
    ]);
}

/// Of two paths that both begin a third, one begins the other.
proof fn lemma_prefixes_compare(a: Seq<PartView>, b: Seq<PartView>, c: Seq<PartView>)
    requires
        a.is_prefix_of(c),
        b.is_prefix_of(c),
    ensures
        a.len() <= b.len() ==> a.is_prefix_of(b),
        a.len() == b.len() ==> a == b,
{
    if a.len() <= b.len() {
        assert(a =~= b.subrange(0, a.len() as int)) by {
            assert forall|i: int| 0 <= i < a.len() implies a[i] == b[i] by {
                assert(a[i] == c.subrange(0, a.len() as int)[i]);
                assert(b[i] == c.subrange(0, b.len() as int)[i]);
            }
        }
    }
    if a.len() == b.len() {
        assert(a =~= b);
    }
}

/// A tree that lies neither on the way to `target` nor below it stays as it is.
proof fn lemma_beside_stays(node: NodeView, target: Seq<PartView>, size: u64)
    requires
        well_placed(node),
        !node.path.is_prefix_of(target),
        !target.is_prefix_of(node.path),
    ensures
        remaining(listing(node), target, size) == listing(node),
    decreases node,
{
    lemma_remaining_one(item_of(node), target, size);
    lemma_all_beside_stay(node.children, node.path, target, size);
    lemma_remaining_sum(seq![item_of(node)], listings(node.children), target, size);
}

proof fn lemma_all_beside_stay(
    kids: Seq<NodeView>,
    path: Seq<PartView>,
    target: Seq<PartView>,
    size: u64,
)
    requires
        forall|i: int|
            0 <= i < kids.len() ==> well_placed(#[trigger] kids[i]) && path.is_prefix_of(
                kids[i].path,
            ),
        !path.is_prefix_of(target),
        !target.is_prefix_of(path),
    ensures
        remaining(listings(kids), target, size) == listings(kids),
    decreases kids,
{
    if kids.len() > 0 {
        let last = kids.last();
        assert(kids[kids.len() - 1] == last);
        if last.path.is_prefix_of(target) {
            lemma_prefix_transitive(path, last.path, target);
        }
        if target.is_prefix_of(last.path) {
            lemma_prefixes_compare(path, target, last.path);
            lemma_prefixes_compare(target, path, last.path);
        }
        assert forall|i: int| 0 <= i < kids.drop_last().len() implies well_placed(
            #[trigger] kids.drop_last()[i],
        ) && path.is_prefix_of(kids.drop_last()[i].path) by {
            assert(kids.drop_last()[i] == kids[i]);
        }
        lemma_all_beside_stay(kids.drop_last(), path, target, size);
        lemma_beside_stays(last, target, size);
        lemma_remaining_sum(listings(kids.drop_last()), listing(last), target, size);
    }
}

/// Nothing remains of a tree that stands at or below `target`.
proof fn lemma_below_goes(node: NodeView, target: Seq<PartView>, size: u64)
    requires
        well_placed(node),
        target.is_prefix_of(node.path),
    ensures
        remaining(listing(node), target, size) == Seq::<Item>::empty(),
    decreases node,
{
    lemma_remaining_one(item_of(node), target, size);
    lemma_all_below_go(node.children, node.path, target, size);
    lemma_remaining_sum(seq![item_of(node)], listings(node.children), target, size);
    assert(Seq::<Item>::empty() + Seq::<Item>::empty() =~= Seq::<Item>::empty());
}

proof fn lemma_all_below_go(
    kids: Seq<NodeView>,
    path: Seq<PartView>,
    target: Seq<PartView>,
    size: u64,
)
    requires
        forall|i: int|
            0 <= i < kids.len() ==> well_placed(#[trigger] kids[i]) && path.is_prefix_of(
                kids[i].path,
            ),
        target.is_prefix_of(path),
    ensures
        remaining(listings(kids), target, size) == Seq::<Item>::empty(),
    decreases kids,
{
    if kids.len() > 0 {
        let last = kids.last();
        assert(kids[kids.len() - 1] == last);
        lemma_prefix_transitive(target, path, last.path);
        assert forall|i: int| 0 <= i < kids.drop_last().len() implies well_placed(
            #[trigger] kids.drop_last()[i],
        ) && path.is_prefix_of(kids.drop_last()[i].path) by {
            assert(kids.drop_last()[i] == kids[i]);
        }
        lemma_all_below_go(kids.drop_last(), path, target, size);
        lemma_below_goes(last, target, size);
        lemma_remaining_sum(listings(kids.drop_last()), listing(last), target, size);
        assert(Seq::<Item>::empty() + Seq::<Item>::empty() =~= Seq::<Item>::empty());
    }
}

/// What remains of a list of children, given what remains of the one at `i`,
/// where all others lie beside the way to `target`.
proof fn lemma_kids_remain(kids: Seq<NodeView>, i: int, target: Seq<PartView>, size: u64)
    requires
        0 <= i < kids.len(),
        forall|j: int|
            0 <= j < kids.len() && j != i ==> well_placed(#[trigger] kids[j])
                && !kids[j].path.is_prefix_of(target) && !target.is_prefix_of(kids[j].path),
    ensures
        remaining(listings(kids), target, size) == listings(kids.take(i)) + remaining(
            listing(kids[i]),
            target,
            size,
        ) + listings(kids.skip(i + 1)),
    decreases kids.len(),
{
    let front = kids.drop_last();
    lemma_remaining_sum(listings(front), listing(kids.last()), target, size);
    if i == kids.len() - 1 {
        assert(kids.take(i) =~= front);
        assert(kids.skip(i + 1) =~= Seq::<NodeView>::empty());
        assert(listings(kids.skip(i + 1)) =~= Seq::<Item>::empty());
        lemma_others_stay(front, target, size);
    } else {
        assert(front.take(i) =~= kids.take(i));
        assert(front.skip(i + 1) =~= kids.skip(i + 1).drop_last());
        assert(kids.skip(i + 1).last() == kids.last());
        lemma_kids_remain(front, i, target, size);
        assert(kids[kids.len() - 1] == kids.last());
        lemma_beside_stays(kids.last(), target, size);
    }
    assert(remaining(listings(kids), target, size) =~= listings(kids.take(i)) + remaining(
        listing(kids[i]),
        target,
        size,
    ) + listings(kids.skip(i + 1)));
}

proof fn lemma_others_stay(kids: Seq<NodeView>, target: Seq<PartView>, size: u64)
    requires
        forall|j: int|
            0 <= j < kids.len() ==> well_placed(#[trigger] kids[j]) && !kids[j].path.is_prefix_of(
                target,
            ) && !target.is_prefix_of(kids[j].path),
    ensures
        remaining(listings(kids), target, size) == listings(kids),
    decreases kids.len(),
{
    if kids.len() > 0 {
        assert(kids[kids.len() - 1] == kids.last());
        lemma_others_stay(kids.drop_last(), target, size);
        lemma_beside_stays(kids.last(), target, size);
        lemma_remaining_sum(listings(kids.drop_last()), listing(kids.last()), target, size);
    }
}

proof fn lemma_listings_sum(a: Seq<NodeView>, b: Seq<NodeView>)
    ensures
        listings(a + b) == listings(a) + listings(b),
    decreases b.len(),
{
    if b.len() == 0 {
        assert(a + b =~= a);
        assert(listings(a) + listings(b) =~= listings(a));
    } else {
        assert((a + b).drop_last() =~= a + b.drop_last());
        lemma_listings_sum(a, b.drop_last());
        assert(listings(a + b) =~= listings(a) + listings(b));
    }
}

proof fn lemma_listings_one(node: NodeView)
    ensures
        listings(seq![node]) == listing(node),
{
    reveal_with_fuel(listings, 2);
    assert(seq![node].drop_last() =~= Seq::<NodeView>::empty());
    assert(listings(seq![node]) =~= listing(node));
}

/// Pruning a well placed tree leaves, in order, every node that does not stand at
/// or below the path of the pruned one. Each keeps its name, its path and its
/// kind, and only those above the pruned node change their size.
proof fn lemma_pruned_remains(node: NodeView, trail: Seq<int>)
    requires
        well_placed(node),
        on_tree(node, trail),
        trail.len() > 0,
    ensures
        listing(pruned(node, trail)) == remaining(
            listing(node),
            node_at(node, trail).path,
            node_at(node, trail).size,
        ),
    decreases trail.len(),
{
    let i = trail[0];
    let kids = node.children;
    let child = kids[i];
    let gone = node_at(node, trail);
    let (target, size) = (gone.path, gone.size);
    let after = pruned(node, trail);
    lemma_path_grows(node, trail);
    lemma_path_grows(child, trail.skip(1));
    assert(gone == node_at(child, trail.skip(1)));
    assert(!target.is_prefix_of(node.path));
    lemma_remaining_one(item_of(node), target, size);
    lemma_remaining_sum(seq![item_of(node)], listings(kids), target, size);
    assert(item_of(after) == item_after(item_of(node), target, size));
    assert forall|j: int| 0 <= j < kids.len() && j != i implies well_placed(#[trigger] kids[j])
        && !kids[j].path.is_prefix_of(target) && !target.is_prefix_of(kids[j].path) by {
        assert(kids[j].path != kids[i].path) by {
            if j < i {
                assert(node.children[j].path != node.children[i].path);
            } else {
                assert(node.children[i].path != node.children[j].path);
            }
        }
        if kids[j].path.is_prefix_of(target) {
            lemma_prefixes_compare(kids[j].path, child.path, target);
        }
        if target.is_prefix_of(kids[j].path) {
            assert(target.len() == kids[j].path.len());
            assert(target =~= kids[j].path);
            assert(child.path =~= target);
        }
    }
    lemma_kids_remain(kids, i, target, size);
    if trail.len() == 1 {
        assert(trail.skip(1).len() == 0);
        assert(gone == child);
        assert(target.is_prefix_of(child.path)) by {
            assert(target =~= child.path.subrange(0, target.len() as int));
        }
        lemma_below_goes(child, target, size);
        assert(after.children =~= kids.take(i) + kids.skip(i + 1));
        lemma_listings_sum(kids.take(i), kids.skip(i + 1));
        assert(listings(after.children) =~= listings(kids.take(i)) + Seq::<Item>::empty()
            + listings(kids.skip(i + 1)));
    } else {
        let left = pruned(child, trail.skip(1));
        lemma_pruned_remains(child, trail.skip(1));
        assert(after.children =~= kids.take(i) + seq![left] + kids.skip(i + 1));
        lemma_listings_sum(kids.take(i) + seq![left], kids.skip(i + 1));
        lemma_listings_sum(kids.take(i), seq![left]);
        lemma_listings_one(left);
    }
}

/// A deletion leaves, in their order, all nodes that do not stand at or below the
/// deleted path. Each keeps its name, its path and its kind; those above the
/// deleted node lose its size, and no other node changes its size.
pub proof fn law_deletion_leaves_everything_else(node: NodeView, target: Seq<PartView>)
    requires
        well_placed(node),
        locate(node, target) is Some,
    ensures
        listing(deleted(node, target, true)) == remaining(
            listing(node),
            target,
            node_at(node, locate(node, target).unwrap()).size,
        ),
{
    lemma_locate_on_tree(node, target);
    lemma_pruned_remains(node, locate(node, target).unwrap());
}

proof fn lemma_remaining_not_below(items: Seq<Item>, target: Seq<PartView>, size: u64, k: int)
    requires
        0 <= k < remaining(items, target, size).len(),
    ensures
        !target.is_prefix_of(remaining(items, target, size)[k].path),
    decreases items.len(),
{
    let front = remaining(items.drop_last(), target, size);
    if k < front.len() {
        lemma_remaining_not_below(items.drop_last(), target, size, k);
    }
}

proof fn lemma_kid_is_listed(kids: Seq<NodeView>, i: int, item: Item)
    requires
        0 <= i < kids.len(),
        listing(kids[i]).contains(item),
    ensures
        listings(kids).contains(item),
    decreases kids.len(),
{
    let front = listings(kids.drop_last());
    let back = listing(kids.last());
    if i == kids.len() - 1 {
        let k = choose|k: int| 0 <= k < back.len() && back[k] == item;
        assert((front + back)[front.len() + k] == item);
    } else {
        lemma_kid_is_listed(kids.drop_last(), i, item);
        let k = choose|k: int| 0 <= k < front.len() && front[k] == item;
        assert((front + back)[k] == item);
    }
}

pub(crate) proof fn lemma_node_is_listed(node: NodeView, trail: Seq<int>)
    requires
        on_tree(node, trail),
    ensures
        listing(node).contains(item_of(node_at(node, trail))),
    decreases trail.len(),
{
    let item = item_of(node_at(node, trail));
    if trail.len() == 0 {
        assert(listing(node)[0] == item);
    } else {
        lemma_node_is_listed(node.children[trail[0]], trail.skip(1));
        lemma_kid_is_listed(node.children, trail[0], item);
        let below = listings(node.children);
        let k = choose|k: int| 0 <= k < below.len() && below[k] == item;
        assert(listing(node)[k + 1] == item);
    }
}

/// After a deletion no node of the tree stands at or below the deleted path.
pub proof fn law_nothing_is_left_below(node: NodeView, target: Seq<PartView>, trail: Seq<int>)
    requires
        well_placed(node),
        locate(node, target) is Some,
        on_tree(deleted(node, target, true), trail),
    ensures
        !target.is_prefix_of(node_at(deleted(node, target, true), trail).path),
{
    let after = deleted(node, target, true);
    let size = node_at(node, locate(node, target).unwrap()).size;
    law_deletion_leaves_everything_else(node, target);
    lemma_node_is_listed(after, trail);
    let item = item_of(node_at(after, trail));
    let k = choose|k: int| 0 <= k < listing(after).len() && listing(after)[k] == item;
    lemma_remaining_not_below(listing(node), target, size, k);
}

} // verus!
