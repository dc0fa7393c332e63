//! Building the tree of a scan: placing entries, adding up sizes, sorting.

use vstd::prelude::*;

use crate::node::{fresh_node, lemma_children_view, views, Node, NodeView};
use crate::path::{joined, text_of, PartKind, PartView, ScanPath};

verus! {

/// What stands at the end of a path that is placed in the tree.
#[derive(Debug, Clone, Copy, PartialEq, Eq, Structural)]
pub enum Leaf {
    /// A directory.
    Dir,
    /// A file of so many bytes.
    File(u64),
}

/// `a + b`, or the largest machine value where that is exceeded.
pub open spec fn sat_add(a: u64, b: u64) -> u64 {
    if a + b > u64::MAX {
        u64::MAX
    } else {
        (a + b) as u64
    }
}

/// Whether `i` is the index of the first of `kids` with the name `name`.
pub open spec fn first_with_name(kids: Seq<NodeView>, name: Seq<char>, i: int) -> bool {
    &&& 0 <= i < kids.len()
    &&& kids[i].name == name
    &&& forall|j: int| 0 <= j < i ==> (#[trigger] kids[j]).name != name
}

/// The index of the first of `kids` with the name `name`.
pub open spec fn child_with_name(kids: Seq<NodeView>, name: Seq<char>) -> Option<int> {
    if exists|i: int| first_with_name(kids, name, i) {
        Some(choose|i: int| first_with_name(kids, name, i))
    } else {
        None
    }
}

/// The index at which the child `name` stands, or will stand once it is added.
pub open spec fn slot(kids: Seq<NodeView>, name: Seq<char>) -> int {
    match child_with_name(kids, name) {
        Some(i) => i,
        None => kids.len() as int,
    }
}

/// The children of `node` with a child `name` among them: a new directory at
/// the end where there was none.
pub open spec fn kids_with(node: NodeView, kind: PartKind, name: Seq<char>) -> Seq<NodeView> {
    if child_with_name(node.children, name) is Some {
        node.children
    } else {
        node.children.push(fresh_node(name, joined(node.path, kind, name), true))
    }
}

/// A node that was marked as a directory, or as a file with more bytes.
pub open spec fn marked(node: NodeView, leaf: Leaf) -> NodeView {
    match leaf {
        Leaf::Dir => NodeView { is_dir: true, ..node },
        Leaf::File(size) => NodeView { is_dir: false, size: sat_add(node.size, size), ..node },
    }
}

/// The tree below `node` once the entry at the relative path `parts` was placed
/// in it. The nodes on the way are found by name, or added, and become
/// directories.
pub open spec fn grown(node: NodeView, parts: Seq<PartView>, leaf: Leaf) -> NodeView
    decreases parts.len(),
{
    if parts.len() == 0 {
        node
    } else {
        let name = text_of(parts[0].text);
        let kids = kids_with(node, parts[0].kind, name);
        let i = slot(node.children, name);
        let child = if parts.len() == 1 {
            marked(kids[i], leaf)
        } else {
            grown(NodeView { is_dir: true, ..kids[i] }, parts.skip(1), leaf)
        };
        NodeView { children: kids.update(i, child), ..node }
    }
}

/// The sizes of `kids` added up, at most the largest machine value.
pub open spec fn sat_sum(kids: Seq<NodeView>) -> u64
    decreases kids.len(),
{
    if kids.len() == 0 {
        0
    } else {
        sat_add(sat_sum(kids.drop_last()), kids.last().size)
    }
}

/// The tree in which every directory has the size of its children together.
pub open spec fn sized(node: NodeView) -> NodeView
    decreases node,
{
    if !node.is_dir {
        node
    } else {
        let kids = all_sized(node.children);
        NodeView { size: sat_sum(kids), children: kids, ..node }
    }
}

/// `sized` of each of `kids`.
pub open spec fn all_sized(kids: Seq<NodeView>) -> Seq<NodeView>
    decreases kids,
{
    Seq::new(
        kids.len(),
        |i: int|
            if 0 <= i < kids.len() {
                sized(kids[i])
            } else {
                arbitrary()
            },
    )
}

/// `sorted` with `node` put behind every node that is at least as large.
pub open spec fn inserted(sorted: Seq<NodeView>, node: NodeView) -> Seq<NodeView>
    decreases sorted.len(),
{
    if sorted.len() == 0 || sorted.last().size >= node.size {
        sorted.push(node)
    } else {
        inserted(sorted.drop_last(), node).push(sorted.last())
    }
}

/// The nodes from the largest to the smallest; nodes of one size keep their order.
pub open spec fn by_size(nodes: Seq<NodeView>) -> Seq<NodeView>
    decreases nodes.len(),
{
    if nodes.len() == 0 {
        nodes
    } else {
        inserted(by_size(nodes.drop_last()), nodes.last())
    }
}

/// The tree in which the children of every node stand in the order of `by_size`.
pub open spec fn ordered(node: NodeView) -> NodeView
    decreases node,
{
    NodeView { children: by_size(all_ordered(node.children)), ..node }
}

/// `ordered` of each of `kids`.
pub open spec fn all_ordered(kids: Seq<NodeView>) -> Seq<NodeView>
    decreases kids,
{
    Seq::new(
        kids.len(),
        |i: int|
            if 0 <= i < kids.len() {
                ordered(kids[i])
            } else {
                arbitrary()
            },
    )
}

/// Two sorted lists as one; of nodes of one size those of `a` come first.
spec fn merged(a: Seq<NodeView>, b: Seq<NodeView>) -> Seq<NodeView>
    decreases a.len() + b.len(),
{
    if a.len() == 0 {
        b
    } else if b.len() == 0 {
        a
    } else if b.last().size <= a.last().size {
        merged(a, b.drop_last()).push(b.last())
    } else {
        merged(a.drop_last(), b).push(a.last())
    }
}

/// The first child with a name is the one that is found.
pub(crate) proof fn lemma_child_with_name(kids: Seq<NodeView>, name: Seq<char>, i: int)
    requires
        first_with_name(kids, name, i),
    ensures
        child_with_name(kids, name) == Some(i),
{
    let c = choose|i: int| first_with_name(kids, name, i);
    if c < i {
        assert(kids[c].name != name);
    }
    if i < c {
        assert(kids[i].name != name);
    }
}

proof fn lemma_insert_merged(a: Seq<NodeView>, b: Seq<NodeView>, x: NodeView)
    ensures
        inserted(merged(a, b), x) == merged(a, inserted(b, x)),
    decreases a.len() + b.len(),
{
    let bx = inserted(b, x);
    if a.len() == 0 {
    } else if b.len() == 0 {
        assert(bx =~= seq![x]);
        assert(bx.drop_last() =~= b);
        if a.last().size < x.size {
            lemma_insert_merged(a.drop_last(), b, x);
            assert(a.len() == 1 ==> a.drop_last() =~= b);
        }
    } else if b.last().size <= a.last().size {
        let m = merged(a, b.drop_last());
        assert(merged(a, b).drop_last() =~= m);
        if b.last().size >= x.size {
            assert(bx.drop_last() =~= b);
        } else {
            lemma_insert_merged(a, b.drop_last(), x);
            assert(bx.drop_last() =~= inserted(b.drop_last(), x));
        }
    } else {
        let m = merged(a.drop_last(), b);
        assert(merged(a, b).drop_last() =~= m);
        if a.last().size >= x.size {
            assert(bx.drop_last() =~= b);
        } else {
            lemma_insert_merged(a.drop_last(), b, x);
            assert(bx.last().size > a.last().size);
        }
    }
}

proof fn lemma_by_size_merged(a: Seq<NodeView>, b: Seq<NodeView>)
    ensures
        by_size(a + b) == merged(by_size(a), by_size(b)),
    decreases b.len(),
{
    if b.len() == 0 {
        assert(a + b =~= a);
        assert(by_size(b).len() == 0);
        if by_size(a).len() == 0 {
            assert(by_size(a) =~= b);
        }
    } else {
        assert((a + b).drop_last() =~= a + b.drop_last());
        lemma_by_size_merged(a, b.drop_last());
        lemma_insert_merged(by_size(a), by_size(b.drop_last()), b.last());
    }
}

/// Sorts nodes from the largest to the smallest.
fn sort_nodes(mut nodes: Vec<Node>) -> (r: Vec<Node>)
    ensures
        views(r@) == by_size(views(nodes@)),
    decreases nodes@.len(),
{
    let n = nodes.len();
    if n <= 1 {
        proof {
            if n == 1 {
                reveal_with_fuel(by_size, 2);
                assert(views(nodes@).drop_last() =~= Seq::<NodeView>::empty());
                assert(views(nodes@) =~= Seq::<NodeView>::empty().push(views(nodes@)[0]));
            }
        }
        return nodes;
    }
    let ghost whole = views(nodes@);
    let back = nodes.split_off(n / 2);
    proof {
        assert(whole =~= views(nodes@) + views(back@));
        lemma_by_size_merged(views(nodes@), views(back@));
    }
    let front = sort_nodes(nodes);
    let back = sort_nodes(back);
    merge_nodes(front, back)
}

/// Merges two sorted lists of nodes.
fn merge_nodes(mut a: Vec<Node>, mut b: Vec<Node>) -> (r: Vec<Node>)
    ensures
        views(r@) == merged(views(a@), views(b@)),
{
    let ghost whole = merged(views(a@), views(b@));
    let mut tail: Vec<Node> = Vec::new();
    assert(views(tail@).reverse() =~= Seq::<NodeView>::empty());
    assert(whole =~= merged(views(a@), views(b@)) + views(tail@).reverse());
    while a.len() > 0 && b.len() > 0
        invariant
            whole == merged(views(a@), views(b@)) + views(tail@).reverse(),
        decreases a@.len() + b@.len(),
    {
        let ghost (av, bv, tv) = (views(a@), views(b@), views(tail@));
        let na = a.len();
        let nb = b.len();
        if b[nb - 1].size <= a[na - 1].size {
            if let Some(node) = b.pop() {
                tail.push(node);
                assert(views(b@) =~= bv.drop_last());
                assert(views(tail@).reverse() =~= seq![bv.last()] + tv.reverse());
            }
        } else {
            if let Some(node) = a.pop() {
                tail.push(node);
                assert(views(a@) =~= av.drop_last());
                assert(views(tail@).reverse() =~= seq![av.last()] + tv.reverse());
            }
        }
        assert(whole =~= merged(views(a@), views(b@)) + views(tail@).reverse());
    }
    let mut r = if a.len() == 0 {
        b
    } else {
        a
    };
    assert(views(a@).len() == 0 || views(b@).len() == 0);
    assert(merged(views(a@), views(b@)) == views(r@));
    while tail.len() > 0
        invariant
            whole == views(r@) + views(tail@).reverse(),
        decreases tail@.len(),
    {
        let ghost (rv, tv) = (views(r@), views(tail@));
        if let Some(node) = tail.pop() {
            r.push(node);
            assert(views(tail@) =~= tv.drop_last());
            assert(views(r@) =~= rv.push(tv.last()));
            assert(whole =~= views(r@) + views(tail@).reverse());
        }
    }
    assert(whole =~= views(r@));
    r
}

/// The index of the child `name`, added with its path as a directory where it is missing.
fn child_index(node: &mut Node, kind: PartKind, name: &String) -> (r: usize)
    ensures
        r == slot(old(node)@.children, name@),
        r < final(node).children@.len(),
        final(node)@ == (NodeView { children: kids_with(old(node)@, kind, name@), ..old(node)@ }),
        forall|i: int|
            0 <= i < old(node).children@.len() ==> final(node).children@[i] == old(
                node,
            ).children@[i],
{
    broadcast use lemma_children_view;

    let mut i: usize = 0;
    while i < node.children.len()
        invariant
            *node == *old(node),
            i <= node.children@.len(),
            node@.children == views(node.children@),
            forall|j: int| 0 <= j < i ==> (#[trigger] node@.children[j]).name != name@,
        decreases node.children@.len() - i,
    {
        if node.children[i].name == *name {
            proof {
                lemma_child_with_name(node@.children, name@, i as int);
            }
            return i;
        }
        i = i + 1;
    }
    assert(child_with_name(node@.children, name@) is None);
    let ghost before = *node;
    let path = node.path.join(kind, name);
    node.children.push(Node::new(name.clone(), path, true));
    assert(node@.children == views(node.children@));
    assert(node@.children =~= kids_with(before@, kind, name@));
    i
}

/// Places the entry at the relative path `path`, from component `from` on, below `node`.
fn place(node: &mut Node, path: &ScanPath, from: usize, leaf: Leaf)
    requires
        from <= path.parts@.len(),
    ensures
        final(node)@ == grown(old(node)@, path@.skip(from as int), leaf),
    decreases path.parts@.len() - from,
{
    broadcast use lemma_children_view;

    let ghost parts = path@.skip(from as int);
    let ghost before = node@;
    if from == path.parts.len() {
        return;
    }
    let name = path.parts[from].name();
    let i = child_index(node, path.parts[from].kind, &name);
    let ghost kids = kids_with(before, parts[0].kind, name@);
    let ghost kid = node.children@[i as int];
    assert(parts.skip(1) =~= path@.skip(from + 1));
    assert(node@.children == views(node.children@));
    assert(kid@ == kids[i as int]);
    assert(kid@.children == views(kid.children@));
    if from == path.parts.len() - 1 {
        let child = &mut node.children[i];
        match leaf {
            Leaf::Dir => {
                child.is_dir = true;
            },
            Leaf::File(size) => {
                child.is_dir = false;
                child.size = child.size.saturating_add(size);
            },
        }
        assert(node.children@[i as int]@.children == kids[i as int].children);
        assert(node.children@[i as int]@ == marked(kids[i as int], leaf));
        assert(views(node.children@) =~= kids.update(i as int, marked(kids[i as int], leaf)));
    } else {
        node.children[i].is_dir = true;
        assert(node.children@[i as int]@.children == kids[i as int].children);
        assert(node.children@[i as int]@ == (NodeView { is_dir: true, ..kids[i as int] }));
        place(&mut node.children[i], path, from + 1, leaf);
        let ghost child = grown(NodeView { is_dir: true, ..kids[i as int] }, parts.skip(1), leaf);
        assert(views(node.children@) =~= kids.update(i as int, child));
    }
    assert(node@.children == views(node.children@));
}

/// Makes sure that the directory at the relative path `path` stands in the tree.
pub fn ensure_dir_path(root: &mut Node, path: &ScanPath)
    ensures
        final(root)@ == grown(old(root)@, path@, Leaf::Dir),
{
    assert(path@.skip(0) =~= path@);
    place(root, path, 0, Leaf::Dir);
}

/// Adds a file of `size` bytes at the relative path `path` to the tree.
pub fn add_file_to_tree(root: &mut Node, path: &ScanPath, size: u64)
    ensures
        final(root)@ == grown(old(root)@, path@, Leaf::File(size)),
{
    assert(path@.skip(0) =~= path@);
    place(root, path, 0, Leaf::File(size));
}

/// Gives every directory the size of its children together; returns the size of `node`.
pub fn calculate_dir_sizes(node: &mut Node) -> (r: u64)
    ensures
        final(node)@ == sized(old(node)@),
        r == final(node)@.size,
    decreases *old(node),
{
    broadcast use lemma_children_view;

    if !node.is_dir {
        return node.size;
    }
    let ghost before = *node;
    let mut total: u64 = 0;
    let mut i: usize = 0;
    while i < node.children.len()
        invariant
            i <= node.children@.len(),
            before == *old(node),
            before@.children == views(before.children@),
            node.children@.len() == before.children@.len(),
            node.name == before.name,
            node.is_dir == before.is_dir,
            node.path == before.path,
            forall|j: int|
                i <= j < node.children@.len() ==> node.children@[j] == before.children@[j],
            forall|j: int|
                0 <= j < i ==> #[trigger] node.children@[j]@ == sized(before@.children[j]),
            total == sat_sum(views(node.children@).take(i as int)),
        decreases node.children@.len() - i,
    {
        assert(decreases_to!(before.children => before.children[i as int]));
        let ghost done = views(node.children@).take(i as int);
        let size = calculate_dir_sizes(&mut node.children[i]);
        total = total.saturating_add(size);
        proof {
            let next = views(node.children@).take(i + 1);
            assert(next.drop_last() =~= done);
            assert(next.last().size == size);
        }
        i = i + 1;
    }
    node.size = total;
    assert(views(node.children@).take(i as int) =~= views(node.children@));
    assert(node@.children == views(node.children@));
    assert(node@.children =~= sized(before@).children);
    total
}

/// Sorts the children of every node from the largest to the smallest.
pub fn sort_tree(node: &mut Node)
    ensures
        final(node)@ == ordered(old(node)@),
    decreases *old(node),
{
    broadcast use lemma_children_view;

    let ghost before = *node;
    let mut i: usize = 0;
    while i < node.children.len()
        invariant
            i <= node.children@.len(),
            before == *old(node),
            before@.children == views(before.children@),
            node.children@.len() == before.children@.len(),
            node.name == before.name,
            node.is_dir == before.is_dir,
            node.path == before.path,
            node.size == before.size,
            forall|j: int|
                i <= j < node.children@.len() ==> node.children@[j] == before.children@[j],
            forall|j: int|
                0 <= j < i ==> #[trigger] node.children@[j]@ == ordered(before@.children[j]),
        decreases node.children@.len() - i,
    {
        assert(decreases_to!(before.children => before.children[i as int]));
        sort_tree(&mut node.children[i]);
        i = i + 1;
    }
    let mut kids: Vec<Node> = Vec::new();
    std::mem::swap(&mut kids, &mut node.children);
    node.children = sort_nodes(kids);
    assert(node@.children == views(node.children@));
    assert(views(kids@) =~= all_ordered(before@.children));
}

} // verus!
