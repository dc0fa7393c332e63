//! Laws of the way from the root down to the directory that is being looked at.

use vstd::prelude::*;

use crate::laws::finding::names_once;
use crate::laws::holding::{holds, lemma_found_is_held, lemma_held_is_found};
use crate::laws::scanning::{find_named, names};
use crate::laws::steps::law_first_child_of_a_name;
use crate::node::NodeView;
use crate::path::{text_of, PartView};
use crate::trail::{crumbs, way_along, way_to};
use crate::tree::child_with_name;

verus! {

/// The names along a way stand one behind the other with ` / ` between them,
/// wherever it is divided.
pub proof fn law_crumbs_name_the_way(a: Seq<NodeView>, b: Seq<NodeView>, node: NodeView)
    requires
        a.len() > 0,
        b.len() > 0,
    ensures
        crumbs(Seq::empty()).len() == 0,
        crumbs(seq![node]) == node.name,
        crumbs(a + b) == crumbs(a) + seq![' ', '/', ' '] + crumbs(b),
    decreases b.len(),
{
    reveal_strlit(" / ");
    assert(" / "@ =~= seq![' ', '/', ' ']);
    assert((a + b).drop_last() =~= a + b.drop_last());
    if b.len() == 1 {
        assert(a + b.drop_last() =~= a);
    } else {
        law_crumbs_name_the_way(a, b.drop_last(), node);
    }
    assert(crumbs(a + b) =~= crumbs(a) + seq![' ', '/', ' '] + crumbs(b));
}

proof fn lemma_way_steps(node: NodeView, parts: Seq<PartView>, k: int)
    requires
        way_along(node, parts) is Some,
    ensures
        way_along(node, parts).unwrap().len() == parts.len() + 1,
        way_along(node, parts).unwrap()[0] == node,
        0 <= k < parts.len() ==> {
            let way = way_along(node, parts).unwrap();
            child_with_name(way[k].children, text_of(parts[k].text)) matches Some(i) && way[k
                + 1] == way[k].children[i]
        },
    decreases parts.len(),
{
    if parts.len() > 0 {
        let i = child_with_name(node.children, text_of(parts[0].text)).unwrap();
        let rest = way_along(node.children[i], parts.skip(1)).unwrap();
        lemma_way_steps(node.children[i], parts.skip(1), k - 1);
        let way = way_along(node, parts).unwrap();
        assert(way =~= seq![node] + rest);
        if 0 < k < parts.len() {
            assert(parts.skip(1)[k - 1] == parts[k]);
            assert(way[k] == rest[k - 1]);
            assert(way[k + 1] == rest[k]);
        } else if k == 0 {
            assert(way[1] == rest[0]);
        }
    }
}

/// The way to a path that lies in the root has one node for each component
/// behind the root's path: of the children of the node before it the first with
/// that name. Where it cannot be gone to its end, it is the root alone.
pub proof fn law_way_follows_the_names(root: NodeView, target: Seq<PartView>, k: int, j: int)
    ensures
        !root.path.is_prefix_of(target) ==> way_to(root, target) == seq![root],
        root.path.is_prefix_of(target) ==> {
            let n = root.path.len() as int;
            let way = way_to(root, target);
            ||| way == seq![root]
            ||| {
                &&& way.len() == target.len() - n + 1
                &&& way[0] == root
                &&& 0 <= k < target.len() - n ==> exists|i: int|
                    {
                        &&& 0 <= i < way[k].children.len()
                        &&& way[k + 1] == #[trigger] way[k].children[i]
                        &&& way[k].children[i].name == text_of(target[n + k].text)
                        &&& 0 <= j < i ==> way[k].children[j].name != text_of(target[n + k].text)
                    }
            }
        },
{
    let n = root.path.len() as int;
    let parts = target.skip(n);
    if root.path.is_prefix_of(target) && way_along(root, parts) is Some {
        let way = way_to(root, target);
        lemma_way_steps(root, parts, k);
        if 0 <= k < parts.len() {
            assert(parts[k] == target[n + k]);
            law_first_child_of_a_name(way[k].children, text_of(parts[k].text), j);
            let i = child_with_name(way[k].children, text_of(parts[k].text)).unwrap();
            assert(way[k + 1] == way[k].children[i]);
        }
    }
}

proof fn lemma_way_to_found(node: NodeView, parts: Seq<PartView>)
    ensures
        find_named(node, names(parts)) matches Some(found) ==> {
            &&& way_along(node, parts) matches Some(way)
            &&& way.len() == parts.len() + 1
            &&& way.last() == found
        },
        find_named(node, names(parts)) is None ==> way_along(node, parts) is None,
    decreases parts.len(),
{
    if parts.len() > 0 {
        assert(names(parts).skip(1) =~= names(parts.skip(1)));
        assert(names(parts)[0] == text_of(parts[0].text));
        if let Some(i) = child_with_name(node.children, text_of(parts[0].text)) {
            lemma_way_to_found(node.children[i], parts.skip(1));
        }
    }
}

/// The way to a path ends at the node that the tree holds there, and is the root
/// alone where the tree holds none.
pub proof fn law_way_ends_at_what_is_held(root: NodeView, target: Seq<PartView>, found: NodeView)
    requires
        names_once(root),
        root.path.is_prefix_of(target),
    ensures
        ({
            let at = names(target.skip(root.path.len() as int));
            &&& holds(root, at, found) ==> way_to(root, target).last() == found && way_to(
                root,
                target,
            ).len() == at.len() + 1
            &&& (forall|node: NodeView| !#[trigger] holds(root, at, node)) ==> way_to(root, target)
                == seq![root]
        }),
{
    let parts = target.skip(root.path.len() as int);
    let at = names(parts);
    lemma_way_to_found(root, parts);
    if holds(root, at, found) {
        lemma_held_is_found(root, at, found);
    }
    if forall|node: NodeView| !#[trigger] holds(root, at, node) {
        lemma_found_is_held(root, at);
        if find_named(root, at) is Some {
            assert(holds(root, at, find_named(root, at).unwrap()));
        }
    }
}

} // verus!
