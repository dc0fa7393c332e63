//! The way from the root of a tree down to the directory that is being looked at.

use vstd::prelude::*;
use vstd::string::StringExecFns;

use crate::node::{lemma_children_view, views, Node, NodeView};
use crate::path::{text_of, PartView, ScanPath};
use crate::tree::{child_with_name, lemma_child_with_name};

verus! {

/// The names along the way, with ` / ` between them.
pub open spec fn crumbs(way: Seq<NodeView>) -> Seq<char>
    decreases way.len(),
{
    if way.len() == 0 {
        Seq::empty()
    } else if way.len() == 1 {
        way[0].name
    } else {
        crumbs(way.drop_last()) + " / "@ + way.last().name
    }
}

/// Whether each node of the way is a child of the one before it.
pub open spec fn connected(way: Seq<NodeView>) -> bool {
    forall|i: int| 0 < i < way.len() ==> way[i - 1].children.contains(#[trigger] way[i])
}

/// The way from `node` down along the components of a relative path, each found
/// by its name; `None` where one is missing.
pub open spec fn way_along(node: NodeView, parts: Seq<PartView>) -> Option<Seq<NodeView>>
    decreases parts.len(),
{
    if parts.len() == 0 {
        Some(seq![node])
    } else {
        match child_with_name(node.children, text_of(parts[0].text)) {
            Some(i) => match way_along(node.children[i], parts.skip(1)) {
                Some(rest) => Some(seq![node] + rest),
                None => None,
            },
            None => None,
        }
    }
}

/// The way to `target` in the tree below `root`, or only `root` where it does
/// not stand in the tree.
pub open spec fn way_to(root: NodeView, target: Seq<PartView>) -> Seq<NodeView> {
    if root.path.is_prefix_of(target) {
        match way_along(root, target.skip(root.path.len() as int)) {
            Some(way) => way,
            None => seq![root],
        }
    } else {
        seq![root]
    }
}

/// The names along the way, with ` / ` between them.
pub fn breadcrumb_of(way: &Vec<Node>) -> (r: String)
    ensures
        r@ == crumbs(views(way@)),
{
    let mut r = String::new();
    let mut i: usize = 0;
    assert(views(way@).take(0) =~= Seq::<NodeView>::empty());
    while i < way.len()
        invariant
            i <= way@.len(),
            r@ == crumbs(views(way@).take(i as int)),
        decreases way@.len() - i,
    {
        let ghost next = views(way@).take(i + 1);
        assert(next.drop_last() =~= views(way@).take(i as int));
        if i > 0 {
            r.append(" / ");
        }
        r.append(way[i].name.as_str());
        assert(next.last() == way@[i as int]@);
        assert(r@ =~= crumbs(next));
        i = i + 1;
    }
    assert(views(way@).take(i as int) =~= views(way@));
    r
}

/// The first child of `node` with the name `name`.
fn child_named<'a>(node: &'a Node, name: &String) -> (r: Option<&'a Node>)
    ensures
        match child_with_name(node@.children, name@) {
            Some(i) => r matches Some(child) && child@ == node@.children[i],
            None => r is None,
        },
        r matches Some(child) ==> child_with_name(node@.children, name@) is Some,
{
    broadcast use lemma_children_view;

    let mut i: usize = 0;
    while i < node.children.len()
        invariant
            i <= node.children@.len(),
            node@.children == views(node.children@),
            forall|j: int| 0 <= j < i ==> (#[trigger] node@.children[j]).name != name@,
        decreases node.children@.len() - i,
    {
        if node.children[i].name == *name {
            proof {
                lemma_child_with_name(node@.children, name@, i as int);
            }
            return Some(&node.children[i]);
        }
        i = i + 1;
    }
    None
}

/// The way to `target` in the tree below `root`.
pub fn find_way(root: &Node, target: &ScanPath) -> (r: Vec<Node>)
    ensures
        views(r@) == way_to(root@, target@),
{
    let mut way: Vec<Node> = Vec::new();
    way.push(root.clone());
    assert(views(way@) =~= seq![root@]);
    let relative = match target.strip_prefix(&root.path) {
        Some(relative) => relative,
        None => {
            return way;
        },
    };
    let ghost parts = relative@;
    let mut current: &Node = root;
    let mut i: usize = 0;
    assert(parts.skip(0) =~= parts);
    assert(Seq::<NodeView>::empty() + way_along(root@, parts).unwrap() =~= way_along(
        root@,
        parts,
    ).unwrap());
    assert(views(way@).drop_last() =~= Seq::<NodeView>::empty());
    while i < relative.parts.len()
        invariant
            i <= relative.parts@.len(),
            parts == relative@,
            way@.len() > 0,
            way_along(root@, parts) is Some <==> way_along(current@, parts.skip(i as int)) is Some,
            way_along(root@, parts) is Some ==> way_along(root@, parts).unwrap() == views(
                way@,
            ).drop_last() + way_along(current@, parts.skip(i as int)).unwrap(),
            views(way@).last() == current@,
            root@.path.is_prefix_of(target@),
            parts == target@.skip(root@.path.len() as int),
        decreases relative.parts@.len() - i,
    {
        let name = relative.parts[i].name();
        let ghost rest = parts.skip(i as int);
        assert(rest.skip(1) =~= parts.skip(i + 1));
        assert(rest[0] == relative.parts@[i as int]@);
        match child_named(current, &name) {
            Some(child) => {
                let ghost before = views(way@);
                way.push(child.clone());
                assert(views(way@) =~= before.push(child@));
                assert(views(way@).drop_last() =~= before);
                assert(before =~= before.drop_last().push(current@));
                proof {
                    if way_along(root@, parts) is Some {
                        assert(way_along(root@, parts).unwrap() =~= before + way_along(
                            child@,
                            rest.skip(1),
                        ).unwrap());
                    }
                }
                current = child;
            },
            None => {
                let mut only: Vec<Node> = Vec::new();
                only.push(root.clone());
                assert(views(only@) =~= seq![root@]);
                return only;
            },
        }
        i = i + 1;
    }
    assert(parts.skip(i as int).len() == 0);
    assert(views(way@) =~= views(way@).drop_last() + seq![current@]);
    way
}

} // verus!
