//! The tree of files and directories that a scan builds.

use std::cmp::Ordering;
use vstd::prelude::*;

use crate::path::{PartView, ScanPath};

verus! {

/// A file or directory in the scanned tree.
#[derive(Debug)]
pub struct Node {
    pub name: String,
    pub size: u64,
    pub is_dir: bool,
    pub children: Vec<Node>,
    pub path: ScanPath,
}

/// The mathematical value of a `Node`.
#[verifier::ext_equal]
pub struct NodeView {
    pub name: Seq<char>,
    pub size: u64,
    pub is_dir: bool,
    pub children: Seq<NodeView>,
    pub path: Seq<PartView>,
}

/// The value of a node, with the values of its children.
pub open spec fn node_view(node: Node) -> NodeView
    decreases node,
{
    NodeView {
        name: node.name@,
        size: node.size,
        is_dir: node.is_dir,
        children: Seq::new(
            node.children@.len(),
            |i: int|
                if 0 <= i < node.children@.len() {
                    node_view(node.children@[i])
                } else {
                    arbitrary()
                },
        ),
        path: node.path@,
    }
}

impl View for Node {
    type V = NodeView;

    open spec fn view(&self) -> NodeView {
        node_view(*self)
    }
}

/// The values of a list of nodes.
pub open spec fn views(nodes: Seq<Node>) -> Seq<NodeView> {
    Seq::new(nodes.len(), |i: int| nodes[i]@)
}

/// A node's children have the values of its child list.
pub broadcast proof fn lemma_children_view(node: Node)
    ensures
        #[trigger] node@.children == views(node.children@),
{
    assert(node@.children =~= views(node.children@));
}

/// A node without children.
pub open spec fn fresh_node(name: Seq<char>, path: Seq<PartView>, is_dir: bool) -> NodeView {
    NodeView { name, size: 0, is_dir, children: Seq::empty(), path }
}

/// `a - b`, or zero where that would be negative.
pub open spec fn less(a: u64, b: u64) -> u64 {
    if a >= b {
        (a - b) as u64
    } else {
        0
    }
}

/// Whether `i` is the index of the first of `kids` with the path `target`.
pub open spec fn first_with_path(kids: Seq<NodeView>, target: Seq<PartView>, i: int) -> bool {
    &&& 0 <= i < kids.len()
    &&& kids[i].path == target
    &&& forall|j: int| 0 <= j < i ==> (#[trigger] kids[j]).path != target
}

/// The index of the first of `kids` with the path `target`.
pub open spec fn child_with_path(kids: Seq<NodeView>, target: Seq<PartView>) -> Option<int> {
    if exists|i: int| first_with_path(kids, target, i) {
        Some(choose|i: int| first_with_path(kids, target, i))
    } else {
        None
    }
}

/// The child indices that lead from `node` down to the descendant with the path
/// `target`: a child of `node` itself where one has that path, and otherwise
/// below the first child that holds such a descendant and whose own path
/// `target` starts with.
pub open spec fn locate(node: NodeView, target: Seq<PartView>) -> Option<Seq<int>>
    decreases node, 0nat,
{
    match child_with_path(node.children, target) {
        Some(i) => Some(seq![i]),
        None => locate_below(node.children, target, 0),
    }
}

/// `locate` below the children from index `k` on.
pub open spec fn locate_below(kids: Seq<NodeView>, target: Seq<PartView>, k: nat) -> Option<
    Seq<int>,
>
    decreases kids, kids.len() - k,
{
    if k >= kids.len() {
        None
    } else if kids[k as int].path.is_prefix_of(target) {
        match locate(kids[k as int], target) {
            Some(rest) => Some(seq![k as int] + rest),
            None => locate_below(kids, target, k + 1),
        }
    } else {
        locate_below(kids, target, k + 1)
    }
}

/// Whether `trail` leads to a node of the tree below `node`.
pub open spec fn on_tree(node: NodeView, trail: Seq<int>) -> bool
    decreases trail.len(),
{
    trail.len() == 0 || {
        &&& 0 <= trail[0] < node.children.len()
        &&& on_tree(node.children[trail[0]], trail.skip(1))
    }
}

/// The node that `trail` leads to.
pub open spec fn node_at(node: NodeView, trail: Seq<int>) -> NodeView
    decreases trail.len(),
{
    if trail.len() == 0 {
        node
    } else {
        node_at(node.children[trail[0]], trail.skip(1))
    }
}

/// The tree without the node at the end of `trail`. Every node above it is
/// smaller by that node's size.
pub open spec fn pruned(node: NodeView, trail: Seq<int>) -> NodeView
    decreases trail.len(),
{
    if trail.len() == 0 {
        node
    } else {
        NodeView {
            size: less(node.size, node_at(node, trail).size),
            children: if trail.len() == 1 {
                node.children.remove(trail[0])
            } else {
                node.children.update(trail[0], pruned(node.children[trail[0]], trail.skip(1)))
            },
            ..node
        }
    }
}

/// A trail of machine integers as a trail.
pub open spec fn trail_view(trail: Seq<usize>) -> Seq<int> {
    Seq::new(trail.len(), |i: int| trail[i] as int)
}

/// Why a node could not be deleted.
#[derive(Debug)]
pub enum DeleteError {
    /// The tree holds no node with this path.
    NotFound(ScanPath),
    /// The entry could not be removed from disk.
    Disk(String),
}

/// What became of a tree from which the node with the path `target` was to be
/// deleted, given whether removing the entry from disk succeeded.
pub open spec fn deleted(
    before: NodeView,
    target: Seq<PartView>,
    on_disk: bool,
) -> NodeView {
    match locate(before, target) {
        Some(trail) => if on_disk {
            pruned(before, trail)
        } else {
            before
        },
        None => before,
    }
}

/// The first child with a path is the one that is found.
pub(crate) proof fn lemma_child_with_path(kids: Seq<NodeView>, target: Seq<PartView>, i: int)
    requires
        first_with_path(kids, target, i),
    ensures
        child_with_path(kids, target) == Some(i),
{
    let c = choose|i: int| first_with_path(kids, target, i);
    if c < i {
        assert(kids[c].path != target);
    }
    if i < c {
        assert(kids[i].path != target);
    }
}

/// The trail that `locate` gives stays on the tree and is not empty.
pub proof fn lemma_locate_on_tree(node: NodeView, target: Seq<PartView>)
    ensures
        locate(node, target) matches Some(trail) ==> {
            &&& trail.len() > 0
            &&& on_tree(node, trail)
            &&& node_at(node, trail).path == target
        },
    decreases node, 0nat,
{
    match child_with_path(node.children, target) {
        Some(i) => {
            assert(first_with_path(node.children, target, i));
            reveal_with_fuel(on_tree, 2);
            reveal_with_fuel(node_at, 2);
            assert(seq![i].skip(1) =~= Seq::<int>::empty());
        },
        None => {
            lemma_locate_below_on_tree(node.children, target, 0);
            if let Some(trail) = locate_below(node.children, target, 0) {
                assert(node_at(node, trail) == node_at(node.children[trail[0]], trail.skip(1)));
            }
        },
    }
}

proof fn lemma_locate_below_on_tree(kids: Seq<NodeView>, target: Seq<PartView>, k: nat)
    ensures
        locate_below(kids, target, k) matches Some(trail) ==> {
            &&& trail.len() > 0
            &&& k <= trail[0] < kids.len()
            &&& kids[trail[0]].path.is_prefix_of(target)
            &&& locate(kids[trail[0]], target) == Some(trail.skip(1))
            &&& on_tree(kids[trail[0]], trail.skip(1))
            &&& node_at(kids[trail[0]], trail.skip(1)).path == target
        },
    decreases kids, kids.len() - k,
{
    if k < kids.len() {
        if kids[k as int].path.is_prefix_of(target) {
            lemma_locate_on_tree(kids[k as int], target);
            match locate(kids[k as int], target) {
                Some(rest) => {
                    assert((seq![k as int] + rest).skip(1) =~= rest);
                },
                None => {
                    lemma_locate_below_on_tree(kids, target, k + 1);
                },
            }
        } else {
            lemma_locate_below_on_tree(kids, target, k + 1);
        }
    }
}

impl Clone for Node {
    fn clone(&self) -> (r: Self)
        ensures
            r@ == self@,
        decreases self,
    {
        let mut children: Vec<Node> = Vec::new();
        let mut i: usize = 0;
        while i < self.children.len()
            invariant
                i <= self.children@.len(),
                children@.len() == i,
                forall|j: int| 0 <= j < i ==> #[trigger] children@[j]@ == self.children@[j]@,
            decreases self.children@.len() - i,
        {
            assert(decreases_to!(self.children => self.children[i as int]));
            children.push(self.children[i].clone());
            i = i + 1;
        }
        let r = Node {
            name: self.name.clone(),
            size: self.size,
            is_dir: self.is_dir,
            children,
            path: self.path.clone(),
        };
        proof {
            lemma_children_view(*self);
            lemma_children_view(r);
        }
        assert(r@.children =~= self@.children);
        r
    }
}

impl PartialEq for Node {
    fn eq(&self, other: &Self) -> (r: bool) {
        self.size == other.size && self.name == other.name
    }
}

impl vstd::std_specs::cmp::PartialEqSpecImpl for Node {
    open spec fn obeys_eq_spec() -> bool {
        true
    }

    open spec fn eq_spec(&self, other: &Self) -> bool {
        self.size == other.size && self.name@ == other.name@
    }
}

impl Eq for Node {

}

/// How two sizes order nodes: the larger size comes first.
pub open spec fn size_order(a: u64, b: u64) -> Ordering {
    if a > b {
        Ordering::Less
    } else if a == b {
        Ordering::Equal
    } else {
        Ordering::Greater
    }
}

impl PartialOrd for Node {
    fn partial_cmp(&self, other: &Self) -> (r: Option<Ordering>) {
        Some(self.cmp(other))
    }
}

impl vstd::std_specs::cmp::PartialOrdSpecImpl for Node {
    open spec fn obeys_partial_cmp_spec() -> bool {
        true
    }

    open spec fn partial_cmp_spec(&self, other: &Self) -> Option<Ordering> {
        Some(size_order(self.size, other.size))
    }
}

impl Node {
    /// A node of size zero without children.
    pub fn new(name: String, path: ScanPath, is_dir: bool) -> (r: Self)
        ensures
            r.name == name,
            r.path == path,
            r.is_dir == is_dir,
            r.size == 0,
            r.children@.len() == 0,
            r@ == fresh_node(name@, path@, is_dir),
    {
        let r = Node { name, path, is_dir, size: 0, children: Vec::new() };
        assert(r@.children =~= Seq::<NodeView>::empty());
        r
    }

    /// Orders nodes by size, the largest first.
    pub fn cmp(&self, other: &Self) -> (r: Ordering)
        ensures
            r == size_order(self.size, other.size),
    {
        if self.size > other.size {
            Ordering::Less
        } else if self.size == other.size {
            Ordering::Equal
        } else {
            Ordering::Greater
        }
    }

    /// The child indices that lead to the descendant with the path `target`.
    fn find(&self, target: &ScanPath) -> (r: Option<Vec<usize>>)
        ensures
            r is Some <==> locate(self@, target@) is Some,
            r matches Some(trail) ==> locate(self@, target@) == Some(trail_view(trail@)),
        decreases self,
    {
        broadcast use lemma_children_view;

        let mut i: usize = 0;
        while i < self.children.len()
            invariant
                i <= self.children@.len(),
                self@.children == views(self.children@),
                forall|j: int| 0 <= j < i ==> (#[trigger] self@.children[j]).path != target@,
            decreases self.children@.len() - i,
        {
            if self.children[i].path.same(target) {
                let mut trail: Vec<usize> = Vec::new();
                trail.push(i);
                proof {
                    assert(self@.children[i as int].path == target@);
                    lemma_child_with_path(self@.children, target@, i as int);
                    assert(trail_view(trail@) =~= seq![i as int]);
                }
                return Some(trail);
            }
            i = i + 1;
        }
        assert(child_with_path(self@.children, target@) is None);
        let mut k: usize = 0;
        while k < self.children.len()
            invariant
                k <= self.children@.len(),
                self@.children == views(self.children@),
                locate(self@, target@) == locate_below(self@.children, target@, k as nat),
            decreases self.children@.len() - k,
        {
            if target.starts_with(&self.children[k].path) {
                assert(decreases_to!(self.children => self.children[k as int]));
                if let Some(mut trail) = self.children[k].find(target) {
                    let ghost rest = trail@;
                    trail.insert(0, k);
                    assert(trail_view(trail@) =~= seq![k as int] + trail_view(rest));
                    return Some(trail);
                }
            }
            k = k + 1;
        }
        None
    }

    /// Takes the node at the end of `trail`, from index `from` on, out of the tree.
    fn prune(&mut self, trail: &Vec<usize>, from: usize) -> (r: (u64, bool))
        requires
            from < trail@.len(),
            on_tree(old(self)@, trail_view(trail@).skip(from as int)),
        ensures
            ({
                let rest = trail_view(trail@).skip(from as int);
                &&& final(self)@ == pruned(old(self)@, rest)
                &&& r.0 == node_at(old(self)@, rest).size
                &&& r.1 == node_at(old(self)@, rest).is_dir
            }),
        decreases trail@.len() - from,
    {
        broadcast use lemma_children_view;

        let ghost rest = trail_view(trail@).skip(from as int);
        let ghost before = *self;
        let at = trail[from];
        proof {
            assert(rest.skip(1) =~= trail_view(trail@).skip(from + 1));
            reveal_with_fuel(node_at, 2);
        }
        if from == trail.len() - 1 {
            let gone = self.children.remove(at);
            self.size = self.size.saturating_sub(gone.size);
            assert(rest.skip(1) =~= Seq::<int>::empty());
            assert(before@.children[at as int] == gone@);
            assert(node_at(before@, rest) == gone@);
            assert(views(self.children@) =~= before@.children.remove(at as int));
            assert(self@.children == views(self.children@));
            (gone.size, gone.is_dir)
        } else {
            let gone = self.children[at].prune(trail, from + 1);
            self.size = self.size.saturating_sub(gone.0);
            assert(views(self.children@) =~= before@.children.update(
                at as int,
                pruned(before@.children[at as int], rest.skip(1)),
            ));
            assert(self@.children == views(self.children@));
            gone
        }
    }

    /// Whether the node that would be deleted for `target` is a directory;
    /// `None` where there is no such node.
    pub fn deletion_kind(&self, target: &ScanPath) -> (r: Option<bool>)
        ensures
            r == match locate(self@, target@) {
                Some(trail) => Some(node_at(self@, trail).is_dir),
                None => None,
            },
    {
        match self.find(target) {
            Some(trail) => {
                proof {
                    lemma_locate_on_tree(self@, target@);
                    assert(trail_view(trail@).skip(0) =~= trail_view(trail@));
                }
                Some(self.kind_at(&trail, 0))
            },
            None => None,
        }
    }

    /// Whether the node at the end of `trail`, from index `from` on, is a directory.
    fn kind_at(&self, trail: &Vec<usize>, from: usize) -> (r: bool)
        requires
            from <= trail@.len(),
            on_tree(self@, trail_view(trail@).skip(from as int)),
        ensures
            r == node_at(self@, trail_view(trail@).skip(from as int)).is_dir,
        decreases trail@.len() - from,
    {
        broadcast use lemma_children_view;

        if from == trail.len() {
            self.is_dir
        } else {
            let ghost rest = trail_view(trail@).skip(from as int);
            assert(rest.skip(1) =~= trail_view(trail@).skip(from + 1));
            self.children[trail[from]].kind_at(trail, from + 1)
        }
    }

    /// Removes the descendant with the path `target` from the tree and takes its
    /// size off every node above it. Returns its size and whether it is a directory.
    fn remove_child_by_path(&mut self, target: &ScanPath) -> (r: Option<(u64, bool)>)
        ensures
            final(self)@ == deleted(old(self)@, target@, true),
            r == match locate(old(self)@, target@) {
                Some(trail) => {
                    let gone = node_at(old(self)@, trail);
                    Some((gone.size, gone.is_dir))
                },
                None => None,
            },
    {
        match self.find(target) {
            Some(trail) => {
                proof {
                    lemma_locate_on_tree(self@, target@);
                    assert(trail_view(trail@).skip(0) =~= trail_view(trail@));
                }
                Some(self.prune(&trail, 0))
            },
            None => None,
        }
    }

    /// Completes the deletion of the node with the path `target`, once its entry
    /// was to be removed from disk with the outcome `disk`. The tree changes
    /// only where the node exists and its entry is gone.
    pub fn delete_node(&mut self, target: &ScanPath, disk: Result<(), String>) -> (r: Result<
        (),
        DeleteError,
    >)
        ensures
            final(self)@ == deleted(old(self)@, target@, disk is Ok),
            r is Ok <==> locate(old(self)@, target@) is Some && disk is Ok,
            locate(old(self)@, target@) is None ==> (r matches Err(DeleteError::NotFound(p)) && p@
                == target@),
            locate(old(self)@, target@) is Some ==> (disk matches Err(message) ==> r == Err::<
                (),
                DeleteError,
            >(DeleteError::Disk(message))),
    {
        if self.deletion_kind(target).is_none() {
            return Err(DeleteError::NotFound(target.clone()));
        }
        match disk {
            Ok(()) => {
                let _removed = self.remove_child_by_path(target);
                Ok(())
            },
            Err(message) => Err(DeleteError::Disk(message)),
        }
    }
}

} // verus!
