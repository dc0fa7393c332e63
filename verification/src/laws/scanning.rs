//! Laws of scanning: where entries end up, and what their sizes add up to.

use vstd::prelude::*;
use vstd::utf8::{encode_utf8, encode_utf8_decode_utf8};

use crate::laws::deletion::{
    adds_up, dirs_above, law_deletion_takes_exactly_the_size, law_every_node_is_found, well_placed,
};
use crate::laws::sorting::{lemma_inserted_all, lemma_sorted_all};
use crate::node::{
    deleted, fresh_node, lemma_locate_on_tree, locate, node_at, on_tree, NodeView,
};
use crate::path::{joined, root_name_of, text_of, PartKind, PartView, TextView};
use crate::scan::{
    after_event, below, run_after, scanned_tree, shared_after, started, updates_sent,
    EventView, IoKind, ProgressView, RunView, SharedView, SkippedView,
};
use crate::tree::{
    all_ordered, all_sized, by_size, child_with_name, first_with_name, grown, inserted, kids_with,
    lemma_child_with_name, marked, ordered, sat_sum, sized, slot, Leaf,
};
use crate::treemap::sum_of_sizes;

verus! {

/// A number of bytes as a size can show it.
pub open spec fn capped(bytes: nat) -> nat {
    if bytes > u64::MAX {
        u64::MAX as nat
    } else {
        bytes
    }
}

/// The sizes of all files of the tree added up.
pub open spec fn file_bytes(node: NodeView) -> nat
    decreases node,
{
    if node.is_dir {
        all_file_bytes(node.children)
    } else {
        node.size as nat
    }
}

/// `file_bytes` of all of `kids` together.
pub open spec fn all_file_bytes(kids: Seq<NodeView>) -> nat
    decreases kids,
{
    if kids.len() == 0 {
        0
    } else {
        all_file_bytes(kids.drop_last()) + file_bytes(kids.last())
    }
}

/// Adding up sizes gives every node the sizes of all its files together, up to
/// the largest size that can be shown.
pub proof fn law_size_is_the_files_together(node: NodeView)
    ensures
        sized(node).size as nat == capped(file_bytes(node)),
    decreases node,
{
    if node.is_dir {
        lemma_all_sized(node.children);
    }
}

proof fn lemma_all_sized(kids: Seq<NodeView>)
    ensures
        sat_sum(all_sized(kids)) as nat == capped(all_file_bytes(kids)),
    decreases kids,
{
    if kids.len() > 0 {
        lemma_all_sized(kids.drop_last());
        law_size_is_the_files_together(kids.last());
        assert(all_sized(kids).drop_last() =~= all_sized(kids.drop_last()));
    }
}

/// Whether a path leads to a place inside of `root`, at whatever depth: it goes on
/// behind the components of `root`.
pub open spec fn inside(root: Seq<PartView>, path: Seq<PartView>) -> bool {
    root.len() < path.len() && root.is_prefix_of(path)
}

/// A scan takes into its tree exactly the entries whose path goes on behind that
/// of its root, however deep they lie.
pub proof fn law_entries_inside_belong_to_the_scan(root: Seq<PartView>, path: Seq<PartView>)
    ensures
        below(root, path) <==> root.len() < path.len() && root.is_prefix_of(path),
{
    if root.is_prefix_of(path) && root.len() == path.len() {
        assert(path =~= root);
    }
}

/// The names along a relative path.
pub open spec fn names(parts: Seq<PartView>) -> Seq<Seq<char>> {
    Seq::new(parts.len(), |i: int| text_of(parts[i].text))
}

/// What an event places in the tree of a scan of `root`, and under which names.
pub open spec fn placed(root: Seq<PartView>, event: EventView) -> Option<(Seq<Seq<char>>, Leaf)> {
    match event {
        EventView::Entry { path, is_dir, metadata, elapsed } => {
            let at = names(path.skip(root.len() as int));
            if !inside(root, path) {
                None
            } else if is_dir {
                Some((at, Leaf::Dir))
            } else {
                match metadata {
                    Ok(size) => Some((at, Leaf::File(size))),
                    Err(failure) => None,
                }
            }
        },
        EventView::Failed(failure) => None,
    }
}

/// Whether `a` leads to a place strictly above `b`.
pub open spec fn above(a: Seq<Seq<char>>, b: Seq<Seq<char>>) -> bool {
    a.len() < b.len() && a.is_prefix_of(b)
}

/// Whether what two events place can stand in one file system: nothing lies
/// below a file, and no directory stands where a file is.
pub open spec fn compatible(file: (Seq<Seq<char>>, Leaf), other: (Seq<Seq<char>>, Leaf)) -> bool {
    file.1 is File ==> {
        &&& !above(file.0, other.0)
        &&& other.1 is Dir ==> file.0 != other.0
    }
}

/// Whether all that a walk places can stand in one file system.
pub open spec fn consistent(root: Seq<PartView>, walk: Seq<EventView>) -> bool {
    forall|i: int, j: int|
        0 <= i < walk.len() && 0 <= j < walk.len() && placed(root, #[trigger] walk[i]) is Some
            && placed(root, #[trigger] walk[j]) is Some ==> compatible(
            placed(root, walk[i]).unwrap(),
            placed(root, walk[j]).unwrap(),
        )
}

/// The bytes of a leaf.
pub open spec fn leaf_bytes(leaf: Leaf) -> nat {
    match leaf {
        Leaf::Dir => 0,
        Leaf::File(size) => size as nat,
    }
}

/// The sizes of all files that a walk found below `root`, added up.
pub open spec fn bytes_found(root: Seq<PartView>, walk: Seq<EventView>) -> nat
    decreases walk.len(),
{
    if walk.len() == 0 {
        0
    } else {
        bytes_found(root, walk.drop_last()) + match placed(root, walk.last()) {
            Some(place) => leaf_bytes(place.1),
            None => 0,
        }
    }
}

/// The number of files that a walk found below `root`.
pub open spec fn files_found(root: Seq<PartView>, walk: Seq<EventView>) -> nat
    decreases walk.len(),
{
    if walk.len() == 0 {
        0
    } else {
        files_found(root, walk.drop_last()) + match placed(root, walk.last()) {
            Some((at, Leaf::File(size))) => 1nat,
            _ => 0nat,
        }
    }
}

/// The node under the given names.
pub open spec fn find_named(node: NodeView, at: Seq<Seq<char>>) -> Option<NodeView>
    decreases at.len(),
{
    if at.len() == 0 {
        Some(node)
    } else {
        match child_with_name(node.children, at[0]) {
            Some(i) => find_named(node.children[i], at.skip(1)),
            None => None,
        }
    }
}

/// Whether only directories have children.
pub open spec fn files_are_leaves(node: NodeView) -> bool
    decreases node,
{
    &&& !node.is_dir ==> node.children.len() == 0
    &&& forall|i: int| 0 <= i < node.children.len() ==> files_are_leaves(#[trigger] node.children[i])
}

/// The child that `grown` descends into.
pub open spec fn next_kid(node: NodeView, parts: Seq<PartView>, leaf: Leaf) -> NodeView {
    let name = text_of(parts[0].text);
    let kid = kids_with(node, parts[0].kind, name)[slot(node.children, name)];
    if parts.len() == 1 {
        marked(kid, leaf)
    } else {
        grown(NodeView { is_dir: true, ..kid }, parts.skip(1), leaf)
    }
}

/// The kids after `grown`: the named child stands at its slot, and every other
/// name leads where it led before.
pub(crate) proof fn lemma_grown_kids(node: NodeView, parts: Seq<PartView>, leaf: Leaf, other: Seq<char>)
    requires
        parts.len() > 0,
    ensures
        ({
            let name = text_of(parts[0].text);
            let after = grown(node, parts, leaf);
            let i = slot(node.children, name);
            let kids = kids_with(node, parts[0].kind, name);
            &&& 0 <= i < kids.len()
            &&& kids[i].name == name
            &&& after.children == kids.update(i, next_kid(node, parts, leaf))
            &&& child_with_name(after.children, name) == Some(i)
            &&& other != name ==> child_with_name(after.children, other) == child_with_name(
                node.children,
                other,
            )
            &&& other != name ==> (child_with_name(node.children, other) matches Some(k) ==> 0 <= k
                < node.children.len() && k != i && after.children[k] == node.children[k])
            &&& child_with_name(node.children, name) is Some ==> kids == node.children
            &&& child_with_name(node.children, name) is None ==> kids[i] == fresh_node(
                name,
                joined(node.path, parts[0].kind, name),
                true,
            )
        }),
{
    let name = text_of(parts[0].text);
    let after = grown(node, parts, leaf);
    let i = slot(node.children, name);
    let kids = kids_with(node, parts[0].kind, name);
    let next = next_kid(node, parts, leaf);
    assert(next.name == kids[i].name);
    if let Some(k) = child_with_name(node.children, name) {
        assert(first_with_name(node.children, name, k));
    } else {
        assert forall|j: int| 0 <= j < node.children.len() implies (
        #[trigger] node.children[j]).name != name by {
            if node.children[j].name == name {
                lemma_some_first(node.children, name, j);
            }
        }
    }
    assert(first_with_name(after.children, name, i)) by {
        assert forall|j: int| 0 <= j < i implies (#[trigger] after.children[j]).name != name by {
            assert(after.children[j] == node.children[j]);
        }
    }
    lemma_child_with_name(after.children, name, i);
    if other != name {
        if let Some(k) = child_with_name(node.children, other) {
            assert(first_with_name(node.children, other, k));
            assert(first_with_name(after.children, other, k)) by {
                assert forall|j: int| 0 <= j < k implies (#[trigger] after.children[j]).name
                    != other by {
                    assert(node.children[j].name != other);
                }
            }
            lemma_child_with_name(after.children, other, k);
        } else {
            if let Some(k) = child_with_name(after.children, other) {
                assert(first_with_name(after.children, other, k));
                assert(k != i);
                lemma_some_first(node.children, other, k);
            }
        }
    }
}

/// Where some child has a name, there is a first one.
pub(crate) proof fn lemma_some_first(kids: Seq<NodeView>, name: Seq<char>, j: int)
    requires
        0 <= j < kids.len(),
        kids[j].name == name,
    ensures
        child_with_name(kids, name) is Some,
    decreases j,
{
    if !first_with_name(kids, name, j) {
        let k = choose|k: int| 0 <= k < j && (#[trigger] kids[k]).name == name;
        lemma_some_first(kids, name, k);
    }
}

/// What the names lead to after an entry was placed: everything on the way is a
/// directory, the entry is what was placed, and all else is as before.
pub(crate) proof fn lemma_grown_named(node: NodeView, parts: Seq<PartView>, leaf: Leaf, at: Seq<Seq<char>>)
    requires
        at.len() > 0,
    ensures
        ({
            let after = find_named(grown(node, parts, leaf), at);
            let before = find_named(node, at);
            if at.is_prefix_of(names(parts)) {
                after matches Some(found) && found.is_dir == (at.len() < parts.len()
                    || leaf is Dir)
            } else {
                &&& after is Some <==> before is Some
                &&& after matches Some(found) ==> found.is_dir == before.unwrap().is_dir
            }
        }),
    decreases parts.len(),
{
    if parts.len() > 0 {
        let name = text_of(parts[0].text);
        let i = slot(node.children, name);
        let kids = kids_with(node, parts[0].kind, name);
        let kid = kids[i];
        let next = next_kid(node, parts, leaf);
        let after = grown(node, parts, leaf);
        let rest = at.skip(1);
        lemma_grown_kids(node, parts, leaf, at[0]);
        assert(names(parts)[0] == name);
        if at[0] == name {
            assert(find_named(after, at) == find_named(next, rest));
            assert(names(parts.skip(1)) =~= names(parts).skip(1));
            lemma_prefix_tail(at, names(parts));
            if at.len() == 1 {
                assert(find_named(next, rest) == Some(next));
                assert(at.is_prefix_of(names(parts)));
            } else {
                let dir = NodeView { is_dir: true, ..kid };
                assert(find_named(dir, rest) == find_named(kid, rest));
                if child_with_name(node.children, name) is None {
                    assert(child_with_name(kid.children, rest[0]) is None);
                    assert(find_named(kid, rest) is None);
                    assert(find_named(node, at) is None);
                } else {
                    assert(find_named(node, at) == find_named(kid, rest));
                }
                if parts.len() == 1 {
                    assert(find_named(next, rest) == find_named(kid, rest));
                } else {
                    lemma_grown_named(dir, parts.skip(1), leaf, rest);
                }
            }
        } else {
            assert(!at.is_prefix_of(names(parts))) by {
                if at.is_prefix_of(names(parts)) {
                    assert(at[0] == names(parts).subrange(0, at.len() as int)[0]);
                }
            }
        }
    }
}

pub(crate) proof fn lemma_prefix_tail(a: Seq<Seq<char>>, b: Seq<Seq<char>>)
    requires
        a.len() > 0,
        b.len() > 0,
        a[0] == b[0],
    ensures
        a.is_prefix_of(b) <==> a.skip(1).is_prefix_of(b.skip(1)),
{
    if a.is_prefix_of(b) {
        assert(a.skip(1) =~= b.skip(1).subrange(0, a.len() - 1));
    }
    if a.skip(1).is_prefix_of(b.skip(1)) {
        assert forall|i: int| 0 <= i < a.len() implies a[i] == b[i] by {
            if i > 0 {
                assert(a.skip(1)[i - 1] == b.skip(1).subrange(0, a.len() - 1)[i - 1]);
            }
        }
        assert(a =~= b.subrange(0, a.len() as int));
    }
}

/// Whether nothing in the tree stands in the way of placing an entry: the nodes
/// on the way are directories, and what stands at its place is of its kind.
pub open spec fn free_for(node: NodeView, at: Seq<Seq<char>>, leaf: Leaf) -> bool {
    &&& forall|q: Seq<Seq<char>>|
        q.len() > 0 && above(q, at) ==> (#[trigger] find_named(node, q) matches Some(m) ==> m.is_dir)
    &&& find_named(node, at) matches Some(m) ==> m.is_dir == (leaf is Dir)
}

pub(crate) proof fn lemma_free_for_kid(node: NodeView, parts: Seq<PartView>, leaf: Leaf)
    requires
        parts.len() > 1,
        free_for(node, names(parts), leaf),
    ensures
        ({
            let name = text_of(parts[0].text);
            let kid = kids_with(node, parts[0].kind, name)[slot(node.children, name)];
            &&& kid.is_dir
            &&& free_for(kid, names(parts.skip(1)), leaf)
        }),
{
    let at = names(parts);
    let tail = names(parts.skip(1));
    let name = text_of(parts[0].text);
    let kid = kids_with(node, parts[0].kind, name)[slot(node.children, name)];
    lemma_grown_kids(node, parts, leaf, name);
    assert(tail =~= at.skip(1));
    assert(at[0] == name);
    if child_with_name(node.children, name) is Some {
        let here = seq![name];
        assert(here.skip(1) =~= Seq::<Seq<char>>::empty());
        reveal_with_fuel(find_named, 2);
        assert(find_named(node, here) == Some(kid));
        assert(here =~= at.subrange(0, 1));
        assert(above(here, at));
        assert forall|q: Seq<Seq<char>>| q.len() > 0 && above(q, tail) implies (
        #[trigger] find_named(kid, q) matches Some(m) ==> m.is_dir) by {
            let longer = seq![name] + q;
            assert(longer.skip(1) =~= q);
            lemma_prefix_tail(longer, at);
            assert(find_named(node, longer) == find_named(kid, q));
            assert(above(longer, at));
        }
        assert(find_named(node, at) == find_named(kid, tail));
    } else {
        assert forall|q: Seq<Seq<char>>| q.len() > 0 implies #[trigger] find_named(kid, q) is None by {
            assert(child_with_name(kid.children, q[0]) is None);
        }
    }
}

proof fn lemma_bytes_of_update(kids: Seq<NodeView>, i: int, kid: NodeView)
    requires
        0 <= i < kids.len(),
    ensures
        all_file_bytes(kids.update(i, kid)) == all_file_bytes(kids) - file_bytes(kids[i])
            + file_bytes(kid),
        file_bytes(kids[i]) <= all_file_bytes(kids),
    decreases kids.len(),
{
    let after = kids.update(i, kid);
    if i == kids.len() - 1 {
        assert(after.drop_last() =~= kids.drop_last());
    } else {
        assert(after.drop_last() =~= kids.drop_last().update(i, kid));
        lemma_bytes_of_update(kids.drop_last(), i, kid);
    }
}

/// Placing an entry where nothing stands in the way adds its bytes, and leaves
/// files without children.
pub(crate) proof fn lemma_grown_bytes(node: NodeView, parts: Seq<PartView>, leaf: Leaf)
    requires
        node.is_dir,
        parts.len() > 0,
        files_are_leaves(node),
        free_for(node, names(parts), leaf),
    ensures
        capped(file_bytes(grown(node, parts, leaf))) == capped(file_bytes(node) + leaf_bytes(leaf)),
        file_bytes(grown(node, parts, leaf)) <= file_bytes(node) + leaf_bytes(leaf),
        files_are_leaves(grown(node, parts, leaf)),
    decreases parts.len(),
{
    let at = names(parts);
    let name = text_of(parts[0].text);
    let i = slot(node.children, name);
    let kids = kids_with(node, parts[0].kind, name);
    let kid = kids[i];
    let next = next_kid(node, parts, leaf);
    let after = grown(node, parts, leaf);
    lemma_grown_kids(node, parts, leaf, name);
    assert(file_bytes(fresh_node(name, joined(node.path, parts[0].kind, name), true)) == 0) by {
        reveal_with_fuel(all_file_bytes, 2);
    }
    assert(all_file_bytes(kids) == all_file_bytes(node.children)) by {
        if child_with_name(node.children, name) is None {
            assert(kids.drop_last() =~= node.children);
        }
    }
    assert forall|j: int| 0 <= j < kids.len() implies files_are_leaves(#[trigger] kids[j]) by {
        if j < node.children.len() {
            assert(kids[j] == node.children[j]);
        }
    }
    lemma_bytes_of_update(kids, i, next);
    if parts.len() == 1 {
        assert(at =~= seq![name]);
        assert(at.skip(1) =~= Seq::<Seq<char>>::empty());
        reveal_with_fuel(find_named, 2);
        if child_with_name(node.children, name) is Some {
            assert(find_named(node, at) == Some(kid));
        } else {
            reveal_with_fuel(all_file_bytes, 2);
        }
        assert forall|j: int| 0 <= j < next.children.len() implies files_are_leaves(
            #[trigger] next.children[j],
        ) by {
            assert(files_are_leaves(kid.children[j]));
        }
        assert(files_are_leaves(next));
        assert(capped(file_bytes(next)) == capped(file_bytes(kid) + leaf_bytes(leaf)));
    } else {
        lemma_free_for_kid(node, parts, leaf);
        assert(NodeView { is_dir: true, ..kid } == kid);
        lemma_grown_bytes(kid, parts.skip(1), leaf);
    }
    assert forall|j: int| 0 <= j < after.children.len() implies files_are_leaves(
        #[trigger] after.children[j],
    ) by {
        if j != i {
            assert(after.children[j] == kids[j]);
        }
    }
}

/// Whether what stands at `at` is accounted for by an event.
pub open spec fn explains(root: Seq<PartView>, event: EventView, at: Seq<Seq<char>>, is_dir: bool) -> bool {
    placed(root, event) matches Some(place) && {
        &&& at.is_prefix_of(place.0)
        &&& is_dir == (at.len() < place.0.len() || place.1 is Dir)
    }
}

/// Whether every node below the root is accounted for by an event of the walk.
pub open spec fn accounted(root: Seq<PartView>, walk: Seq<EventView>, tree: NodeView) -> bool {
    forall|at: Seq<Seq<char>>|
        at.len() > 0 ==> (#[trigger] find_named(tree, at) matches Some(m) ==> exists|k: int|
            0 <= k < walk.len() && explains(root, #[trigger] walk[k], at, m.is_dir))
}

/// What a scan does with an event, in terms of what the event places.
pub(crate) proof fn lemma_event_places(run: RunView, event: EventView)
    ensures
        ({
            let after = after_event(run, event);
            &&& after.root_path == run.root_path
            &&& match placed(run.root_path, event) {
                Some(place) => event matches EventView::Entry { path, is_dir, metadata, elapsed }
                    && {
                    let relative = path.skip(run.root_path.len() as int);
                    &&& after.tree == grown(run.tree, relative, place.1)
                    &&& names(relative) == place.0
                    &&& relative.len() > 0
                    &&& after.files_scanned == run.files_scanned + (if place.1 is File {
                        1int
                    } else {
                        0int
                    })
                },
                None => after.tree == run.tree && after.files_scanned == run.files_scanned,
            }
        }),
{
    if let EventView::Entry { path, is_dir, metadata, elapsed } = event {
        law_entries_inside_belong_to_the_scan(run.root_path, path);
    }
}

pub(crate) proof fn lemma_run_root(root: Seq<PartView>, walk: Seq<EventView>)
    ensures
        run_after(root, walk).root_path == root,
        run_after(root, walk).tree.is_dir,
        run_after(root, walk).tree.path == root,
    decreases walk.len(),
{
    if walk.len() > 0 {
        lemma_run_root(root, walk.drop_last());
        lemma_event_places(run_after(root, walk.drop_last()), walk.last());
    }
}

pub(crate) proof fn lemma_accounted(root: Seq<PartView>, walk: Seq<EventView>)
    ensures
        accounted(root, walk, run_after(root, walk).tree),
    decreases walk.len(),
{
    let tree = run_after(root, walk).tree;
    if walk.len() == 0 {
        assert forall|at: Seq<Seq<char>>| at.len() > 0 implies #[trigger] find_named(tree, at) is None by {
            assert(child_with_name(tree.children, at[0]) is None);
        }
    } else {
        let front = walk.drop_last();
        let before = run_after(root, front);
        lemma_accounted(root, front);
        lemma_run_root(root, front);
        lemma_event_places(before, walk.last());
        assert forall|at: Seq<Seq<char>>| at.len() > 0 implies (#[trigger] find_named(
            tree,
            at,
        ) matches Some(m) ==> exists|k: int|
            0 <= k < walk.len() && explains(root, #[trigger] walk[k], at, m.is_dir)) by {
            if let Some(m) = find_named(tree, at) {
                match placed(root, walk.last()) {
                    Some(place) => {
                        if let EventView::Entry { path, is_dir, metadata, elapsed } = walk.last() {
                            let relative = path.skip(root.len() as int);
                            lemma_grown_named(before.tree, relative, place.1, at);
                            if at.is_prefix_of(place.0) {
                                assert(explains(root, walk[walk.len() - 1], at, m.is_dir));
                            } else {
                                let old_node = find_named(before.tree, at).unwrap();
                                let k = choose|k: int|
                                    0 <= k < front.len() && explains(
                                        root,
                                        #[trigger] front[k],
                                        at,
                                        old_node.is_dir,
                                    );
                                assert(front[k] == walk[k]);
                                assert(explains(root, walk[k], at, m.is_dir));
                            }
                        }
                    },
                    None => {
                        let k = choose|k: int|
                            0 <= k < front.len() && explains(root, #[trigger] front[k], at, m.is_dir);
                        assert(front[k] == walk[k]);
                        assert(explains(root, walk[k], at, m.is_dir));
                    },
                }
            }
        }
    }
}

/// In a consistent walk nothing stands in the way of the last event.
pub(crate) proof fn lemma_last_is_free(root: Seq<PartView>, walk: Seq<EventView>)
    requires
        walk.len() > 0,
        consistent(root, walk),
    ensures
        placed(root, walk.last()) matches Some(place) ==> free_for(
            run_after(root, walk.drop_last()).tree,
            place.0,
            place.1,
        ),
{
    let front = walk.drop_last();
    let tree = run_after(root, front).tree;
    lemma_accounted(root, front);
    if let Some(place) = placed(root, walk.last()) {
        let last = walk.len() - 1;
        assert(walk[last] == walk.last());
        assert forall|q: Seq<Seq<char>>| q.len() > 0 && above(q, place.0) implies (
        #[trigger] find_named(tree, q) matches Some(m) ==> m.is_dir) by {
            if let Some(m) = find_named(tree, q) {
                let k = choose|k: int|
                    0 <= k < front.len() && explains(root, #[trigger] front[k], q, m.is_dir);
                assert(front[k] == walk[k]);
                assert(explains(root, walk[k], q, m.is_dir));
                if !m.is_dir {
                    let other = placed(root, walk[k]).unwrap();
                    assert(q =~= other.0);
                    assert(compatible(other, place));
                }
            }
        }
        if let Some(m) = find_named(tree, place.0) {
            lemma_place_not_empty(root, walk.last());
            let k = choose|k: int|
                0 <= k < front.len() && explains(root, #[trigger] front[k], place.0, m.is_dir);
            assert(front[k] == walk[k]);
            assert(explains(root, walk[k], place.0, m.is_dir));
            let other = placed(root, walk[k]).unwrap();
            assert(compatible(other, place));
            assert(compatible(place, other));
            if place.0.len() == other.0.len() {
                assert(place.0 =~= other.0);
            }
        }
    }
}

pub(crate) proof fn lemma_place_not_empty(root: Seq<PartView>, event: EventView)
    ensures
        placed(root, event) matches Some(place) ==> place.0.len() > 0,
{
    lemma_event_places(started(root), event);
}

pub(crate) proof fn lemma_consistent_front(root: Seq<PartView>, walk: Seq<EventView>)
    requires
        walk.len() > 0,
        consistent(root, walk),
    ensures
        consistent(root, walk.drop_last()),
{
    let front = walk.drop_last();
    assert forall|i: int, j: int|
        0 <= i < front.len() && 0 <= j < front.len() && placed(root, #[trigger] front[i]) is Some
            && placed(root, #[trigger] front[j]) is Some implies compatible(
        placed(root, front[i]).unwrap(),
        placed(root, front[j]).unwrap(),
    ) by {
        assert(front[i] == walk[i] && front[j] == walk[j]);
    }
}

pub(crate) proof fn lemma_run_bytes(root: Seq<PartView>, walk: Seq<EventView>)
    requires
        consistent(root, walk),
    ensures
        capped(file_bytes(run_after(root, walk).tree)) == capped(bytes_found(root, walk)),
        file_bytes(run_after(root, walk).tree) <= bytes_found(root, walk),
        files_are_leaves(run_after(root, walk).tree),
    decreases walk.len(),
{
    if walk.len() == 0 {
        reveal_with_fuel(all_file_bytes, 2);
    } else {
        let front = walk.drop_last();
        let before = run_after(root, front);
        lemma_consistent_front(root, walk);
        lemma_run_bytes(root, front);
        lemma_run_root(root, front);
        lemma_event_places(before, walk.last());
        lemma_last_is_free(root, walk);
        if let Some(place) = placed(root, walk.last()) {
            if let EventView::Entry { path, is_dir, metadata, elapsed } = walk.last() {
                lemma_grown_bytes(before.tree, path.skip(root.len() as int), place.1);
            }
        }
    }
}

/// The size that a scan shows for its root is the sizes of all files that it
/// found together, up to the largest size that can be shown.
pub proof fn law_scan_shows_the_bytes_found(root: Seq<PartView>, walk: Seq<EventView>)
    requires
        consistent(root, walk),
    ensures
        scanned_tree(root, walk).size as nat == capped(bytes_found(root, walk)),
{
    lemma_run_bytes(root, walk);
    law_size_is_the_files_together(run_after(root, walk).tree);
}

/// A scan counts the files that it found.
pub proof fn law_scan_counts_the_files_found(root: Seq<PartView>, walk: Seq<EventView>)
    ensures
        run_after(root, walk).files_scanned == files_found(root, walk),
    decreases walk.len(),
{
    if walk.len() > 0 {
        law_scan_counts_the_files_found(root, walk.drop_last());
        lemma_run_root(root, walk.drop_last());
        lemma_event_places(run_after(root, walk.drop_last()), walk.last());
    }
}

/// Whether every node's path is its parent's path with its own name joined on,
/// and no two children of a node have the same name.
pub open spec fn well_named(node: NodeView) -> bool
    decreases node,
{
    &&& forall|i: int|
        0 <= i < node.children.len() ==> {
            &&& (#[trigger] node.children[i]).path == joined(
                node.path,
                PartKind::Normal,
                node.children[i].name,
            )
            &&& well_named(node.children[i])
        }
    &&& distinct_names(node.children)
}

/// Whether no two of `kids` have the same name.
pub open spec fn distinct_names(kids: Seq<NodeView>) -> bool {
    forall|i: int, j: int|
        0 <= i < j < kids.len() ==> (#[trigger] kids[i]).name != (#[trigger] kids[j]).name
}

/// Whether all components of `parts` are ordinary names.
pub open spec fn all_normal(parts: Seq<PartView>) -> bool {
    forall|i: int| 0 <= i < parts.len() ==> (#[trigger] parts[i]).kind == PartKind::Normal
}

/// Whether everything that a walk found below `root` has an ordinary path.
pub open spec fn ordinary(root: Seq<PartView>, walk: Seq<EventView>) -> bool {
    forall|i: int|
        0 <= i < walk.len() ==> match #[trigger] walk[i] {
            EventView::Entry { path, is_dir, metadata, elapsed } => inside(root, path)
                ==> all_normal(path.skip(root.len() as int)),
            EventView::Failed(failure) => true,
        }
}

proof fn lemma_grown_well_named(node: NodeView, parts: Seq<PartView>, leaf: Leaf)
    requires
        well_named(node),
        all_normal(parts),
    ensures
        well_named(grown(node, parts, leaf)),
        grown(node, parts, leaf).path == node.path,
        grown(node, parts, leaf).name == node.name,
    decreases parts.len(),
{
    if parts.len() > 0 {
        let name = text_of(parts[0].text);
        let i = slot(node.children, name);
        let kids = kids_with(node, parts[0].kind, name);
        let kid = kids[i];
        let next = next_kid(node, parts, leaf);
        let after = grown(node, parts, leaf);
        lemma_grown_kids(node, parts, leaf, name);
        assert forall|j: int| 0 <= j < kids.len() implies {
            &&& (#[trigger] kids[j]).path == joined(node.path, PartKind::Normal, kids[j].name)
            &&& well_named(kids[j])
        } by {
            if j < node.children.len() {
                assert(kids[j] == node.children[j]);
            }
        }
        assert forall|a: int, b: int| 0 <= a < b < kids.len() implies (#[trigger] kids[a]).name != (
        #[trigger] kids[b]).name by {
            assert(kids[a] == node.children[a]);
            if b == node.children.len() {
                if kids[a].name == name {
                    lemma_some_first(node.children, name, a);
                }
            } else {
                assert(kids[b] == node.children[b]);
            }
        }
        if parts.len() == 1 {
            assert forall|j: int| 0 <= j < next.children.len() implies {
                &&& (#[trigger] next.children[j]).path == joined(
                    next.path,
                    PartKind::Normal,
                    next.children[j].name,
                )
                &&& well_named(next.children[j])
            } by {
                assert(next.children[j] == kid.children[j]);
            }
            assert(well_named(next));
        } else {
            let dir = NodeView { is_dir: true, ..kid };
            assert forall|j: int| 0 <= j < dir.children.len() implies {
                &&& (#[trigger] dir.children[j]).path == joined(
                    dir.path,
                    PartKind::Normal,
                    dir.children[j].name,
                )
                &&& well_named(dir.children[j])
            } by {
                assert(dir.children[j] == kid.children[j]);
            }
            assert(well_named(dir));
            lemma_grown_well_named(dir, parts.skip(1), leaf);
        }
        assert forall|j: int| 0 <= j < after.children.len() implies {
            &&& (#[trigger] after.children[j]).path == joined(
                after.path,
                PartKind::Normal,
                after.children[j].name,
            )
            &&& well_named(after.children[j])
        } by {
            if j != i {
                assert(after.children[j] == kids[j]);
            }
        }
        assert forall|a: int, b: int| 0 <= a < b < after.children.len() implies (
        #[trigger] after.children[a]).name != (#[trigger] after.children[b]).name by {
            assert(after.children[a].name == kids[a].name);
            assert(after.children[b].name == kids[b].name);
        }
    }
}

proof fn lemma_run_well_named(root: Seq<PartView>, walk: Seq<EventView>)
    requires
        ordinary(root, walk),
    ensures
        well_named(run_after(root, walk).tree),
    decreases walk.len(),
{
    if walk.len() > 0 {
        let front = walk.drop_last();
        assert forall|i: int| 0 <= i < front.len() implies match #[trigger] front[i] {
            EventView::Entry { path, is_dir, metadata, elapsed } => inside(root, path)
                ==> all_normal(path.skip(root.len() as int)),
            EventView::Failed(failure) => true,
        } by {
            assert(front[i] == walk[i]);
        }
        lemma_run_well_named(root, front);
        lemma_run_root(root, front);
        lemma_event_places(run_after(root, front), walk.last());
        if let Some(place) = placed(root, walk.last()) {
            assert(walk[walk.len() - 1] == walk.last());
            if let EventView::Entry { path, is_dir, metadata, elapsed } = walk.last() {
                lemma_grown_well_named(
                    run_after(root, front).tree,
                    path.skip(root.len() as int),
                    place.1,
                );
            }
        }
    }
}

proof fn lemma_sized_well_named(node: NodeView)
    requires
        well_named(node),
    ensures
        well_named(sized(node)),
        sized(node).path == node.path,
        sized(node).name == node.name,
    decreases node,
{
    if node.is_dir {
        let after = sized(node);
        assert forall|i: int| 0 <= i < after.children.len() implies {
            &&& (#[trigger] after.children[i]).path == joined(
                after.path,
                PartKind::Normal,
                after.children[i].name,
            )
            &&& well_named(after.children[i])
            &&& after.children[i].name == node.children[i].name
        } by {
            lemma_sized_well_named(node.children[i]);
        }
        assert forall|a: int, b: int| 0 <= a < b < after.children.len() implies (
        #[trigger] after.children[a]).name != (#[trigger] after.children[b]).name by {
            assert(node.children[a].name != node.children[b].name);
        }
    }
}

proof fn lemma_inserted_distinct(nodes: Seq<NodeView>, x: NodeView)
    requires
        distinct_names(nodes),
        forall|i: int| 0 <= i < nodes.len() ==> (#[trigger] nodes[i]).name != x.name,
    ensures
        distinct_names(inserted(nodes, x)),
    decreases nodes.len(),
{
    if nodes.len() > 0 && nodes.last().size < x.size {
        let front = nodes.drop_last();
        lemma_inserted_distinct(front, x);
        let last = nodes.last().name;
        lemma_inserted_all(front, x, |n: NodeView| n.name != last);
    }
}

pub(crate) proof fn lemma_sorted_distinct(nodes: Seq<NodeView>)
    requires
        distinct_names(nodes),
    ensures
        distinct_names(by_size(nodes)),
    decreases nodes.len(),
{
    if nodes.len() > 0 {
        let front = nodes.drop_last();
        lemma_sorted_distinct(front);
        let last = nodes.last().name;
        lemma_sorted_all(front, |n: NodeView| n.name != last);
        lemma_inserted_distinct(by_size(front), nodes.last());
    }
}

proof fn lemma_ordered_well_named(node: NodeView)
    requires
        well_named(node),
    ensures
        well_named(ordered(node)),
    decreases node,
{
    let kids = all_ordered(node.children);
    let base = node.path;
    let p = |n: NodeView| n.path == joined(base, PartKind::Normal, n.name) && well_named(n);
    assert forall|i: int| 0 <= i < kids.len() implies p(#[trigger] kids[i]) by {
        lemma_ordered_well_named(node.children[i]);
    }
    assert forall|a: int, b: int| 0 <= a < b < kids.len() implies (#[trigger] kids[a]).name != (
    #[trigger] kids[b]).name by {
        assert(node.children[a].name != node.children[b].name);
    }
    lemma_sorted_all(kids, p);
    lemma_sorted_distinct(kids);
    let after = ordered(node);
    assert forall|i: int| 0 <= i < after.children.len() implies {
        &&& (#[trigger] after.children[i]).path == joined(
            after.path,
            PartKind::Normal,
            after.children[i].name,
        )
        &&& well_named(after.children[i])
    } by {
        assert(p(by_size(kids)[i]));
    }
}

/// Every node of a scanned tree has the path of its directory with its own name
/// joined on, and no directory lists a name twice.
pub proof fn law_scanned_tree_is_well_named(root: Seq<PartView>, walk: Seq<EventView>)
    requires
        ordinary(root, walk),
    ensures
        scanned_tree(root, walk).path == root,
        scanned_tree(root, walk).name == root_name_of(root),
        well_named(scanned_tree(root, walk)),
{
    lemma_run_well_named(root, walk);
    lemma_run_root(root, walk);
    lemma_run_name(root, walk);
    lemma_sized_well_named(run_after(root, walk).tree);
    lemma_ordered_well_named(sized(run_after(root, walk).tree));
}

proof fn lemma_run_name(root: Seq<PartView>, walk: Seq<EventView>)
    ensures
        run_after(root, walk).tree.name == root_name_of(root),
    decreases walk.len(),
{
    if walk.len() > 0 {
        lemma_run_name(root, walk.drop_last());
        lemma_event_places(run_after(root, walk.drop_last()), walk.last());
    }
}

/// Different names make different paths, so a well named tree is well placed:
/// each of its nodes can be told from the others by its path.
pub proof fn law_well_named_is_well_placed(node: NodeView)
    requires
        well_named(node),
    ensures
        well_placed(node),
    decreases node,
{
    assert forall|i: int| 0 <= i < node.children.len() implies {
        &&& (#[trigger] node.children[i]).path.len() == node.path.len() + 1
        &&& node.path.is_prefix_of(node.children[i].path)
        &&& well_placed(node.children[i])
    } by {
        law_well_named_is_well_placed(node.children[i]);
        assert(node.path =~= node.children[i].path.subrange(0, node.path.len() as int));
    }
    assert forall|i: int, j: int| 0 <= i < j < node.children.len() implies (
    #[trigger] node.children[i]).path != (#[trigger] node.children[j]).path by {
        let a = node.children[i].name;
        let b = node.children[j].name;
        if node.children[i].path == node.children[j].path {
            assert(joined(node.path, PartKind::Normal, a).last().text == TextView::Bytes(
                encode_utf8(a),
            ));
            assert(joined(node.path, PartKind::Normal, b).last().text == TextView::Bytes(
                encode_utf8(b),
            ));
            encode_utf8_decode_utf8(a);
            encode_utf8_decode_utf8(b);
        }
    }
}

proof fn lemma_exact_sum(kids: Seq<NodeView>)
    requires
        sum_of_sizes(kids) <= u64::MAX,
    ensures
        sat_sum(kids) as nat == sum_of_sizes(kids),
    decreases kids.len(),
{
    if kids.len() > 0 {
        lemma_exact_sum(kids.drop_last());
    }
}

proof fn lemma_sized_adds_up(node: NodeView)
    requires
        files_are_leaves(node),
        file_bytes(node) <= u64::MAX,
    ensures
        adds_up(sized(node)),
    decreases node,
{
    if node.is_dir {
        let kids = all_sized(node.children);
        assert forall|i: int| 0 <= i < kids.len() implies adds_up(#[trigger] kids[i]) by {
            lemma_bytes_of_update(node.children, i, node.children[i]);
            lemma_sized_adds_up(node.children[i]);
        }
        lemma_sum_of_sized(node.children);
        lemma_exact_sum(kids);
    }
}

proof fn lemma_sum_of_sized(kids: Seq<NodeView>)
    requires
        all_file_bytes(kids) <= u64::MAX,
    ensures
        sum_of_sizes(all_sized(kids)) == all_file_bytes(kids),
    decreases kids.len(),
{
    if kids.len() > 0 {
        lemma_sum_of_sized(kids.drop_last());
        law_size_is_the_files_together(kids.last());
        assert(all_sized(kids).drop_last() =~= all_sized(kids.drop_last()));
    }
}

proof fn lemma_inserted_sum(nodes: Seq<NodeView>, x: NodeView)
    ensures
        sum_of_sizes(inserted(nodes, x)) == sum_of_sizes(nodes) + x.size,
    decreases nodes.len(),
{
    if nodes.len() > 0 && nodes.last().size < x.size {
        lemma_inserted_sum(nodes.drop_last(), x);
        assert(inserted(nodes, x).drop_last() =~= inserted(nodes.drop_last(), x));
    } else {
        assert(inserted(nodes, x).drop_last() =~= nodes);
    }
}

proof fn lemma_sorted_sum(nodes: Seq<NodeView>)
    ensures
        sum_of_sizes(by_size(nodes)) == sum_of_sizes(nodes),
    decreases nodes.len(),
{
    if nodes.len() > 0 {
        lemma_sorted_sum(nodes.drop_last());
        lemma_inserted_sum(by_size(nodes.drop_last()), nodes.last());
    }
}

proof fn lemma_ordered_sum(kids: Seq<NodeView>)
    ensures
        sum_of_sizes(all_ordered(kids)) == sum_of_sizes(kids),
    decreases kids.len(),
{
    if kids.len() > 0 {
        lemma_ordered_sum(kids.drop_last());
        assert(all_ordered(kids).drop_last() =~= all_ordered(kids.drop_last()));
    }
}

/// Sorting a tree whose directories have the sizes of their children keeps that.
pub proof fn law_sorting_keeps_sums(node: NodeView)
    requires
        adds_up(node),
    ensures
        adds_up(ordered(node)),
    decreases node,
{
    let kids = all_ordered(node.children);
    let p = |n: NodeView| adds_up(n);
    assert forall|i: int| 0 <= i < kids.len() implies p(#[trigger] kids[i]) by {
        law_sorting_keeps_sums(node.children[i]);
    }
    lemma_sorted_all(kids, p);
    lemma_ordered_sum(node.children);
    lemma_sorted_sum(kids);
    let after = ordered(node);
    assert forall|i: int| 0 <= i < after.children.len() implies adds_up(
        #[trigger] after.children[i],
    ) by {
        assert(p(by_size(kids)[i]));
    }
}

/// In a scanned tree every directory has exactly the size of its children
/// together, as long as all that was found can be shown as a size.
pub proof fn law_scanned_tree_adds_up(root: Seq<PartView>, walk: Seq<EventView>)
    requires
        consistent(root, walk),
        bytes_found(root, walk) <= u64::MAX,
    ensures
        adds_up(scanned_tree(root, walk)),
        files_are_leaves(scanned_tree(root, walk)),
        scanned_tree(root, walk).size == bytes_found(root, walk),
{
    let tree = run_after(root, walk).tree;
    lemma_run_bytes(root, walk);
    law_scan_shows_the_bytes_found(root, walk);
    lemma_sized_adds_up(tree);
    law_sorting_keeps_sums(sized(tree));
    lemma_sized_leaves(tree);
    lemma_ordered_leaves(sized(tree));
}

proof fn lemma_sized_leaves(node: NodeView)
    requires
        files_are_leaves(node),
    ensures
        files_are_leaves(sized(node)),
    decreases node,
{
    if node.is_dir {
        let after = sized(node);
        assert forall|i: int| 0 <= i < after.children.len() implies files_are_leaves(
            #[trigger] after.children[i],
        ) by {
            lemma_sized_leaves(node.children[i]);
        }
    }
}

proof fn lemma_ordered_leaves(node: NodeView)
    requires
        files_are_leaves(node),
    ensures
        files_are_leaves(ordered(node)),
    decreases node,
{
    let kids = all_ordered(node.children);
    let p = |n: NodeView| files_are_leaves(n);
    assert forall|i: int| 0 <= i < kids.len() implies p(#[trigger] kids[i]) by {
        lemma_ordered_leaves(node.children[i]);
    }
    lemma_sorted_all(kids, p);
    let after = ordered(node);
    assert forall|i: int| 0 <= i < after.children.len() implies files_are_leaves(
        #[trigger] after.children[i],
    ) by {
        assert(p(by_size(kids)[i]));
    }
}

proof fn lemma_leaves_have_dirs_above(node: NodeView, trail: Seq<int>)
    requires
        files_are_leaves(node),
        on_tree(node, trail),
    ensures
        dirs_above(node, trail),
    decreases trail.len(),
{
    if trail.len() > 0 {
        lemma_leaves_have_dirs_above(node.children[trail[0]], trail.skip(1));
    }
}

/// The entries that a scan of `root` has to report during `walk`: every refused
/// permission, with the path of the file whose size it kept from being read.
pub open spec fn refusals(root: Seq<PartView>, walk: Seq<EventView>) -> Seq<SkippedView>
    decreases walk.len(),
{
    if walk.len() == 0 {
        Seq::empty()
    } else {
        let before = refusals(root, walk.drop_last());
        match walk.last() {
            EventView::Entry { path, is_dir, metadata: Err(failure), elapsed } => if inside(
                root,
                path,
            ) && !is_dir && failure.io_kind == Some(IoKind::PermissionDenied) {
                before.push(SkippedView { path: Some(path), message: failure.message })
            } else {
                before
            },
            EventView::Failed(failure) => if failure.io_kind == Some(IoKind::PermissionDenied) {
                before.push(SkippedView { path: None, message: failure.message })
            } else {
                before
            },
            _ => before,
        }
    }
}

/// A scan reports every refused permission, in order, and nothing else.
pub proof fn law_scan_reports_every_refusal(root: Seq<PartView>, walk: Seq<EventView>)
    ensures
        run_after(root, walk).skipped == refusals(root, walk),
    decreases walk.len(),
{
    if walk.len() > 0 {
        law_scan_reports_every_refusal(root, walk.drop_last());
        lemma_run_root(root, walk.drop_last());
        if let EventView::Entry { path, is_dir, metadata, elapsed } = walk.last() {
            law_entries_inside_belong_to_the_scan(root, path);
        }
    }
}

/// The shared progress of a scan ends with the number of files that it found.
pub proof fn law_shared_progress_counts_the_files(root: Seq<PartView>, walk: Seq<EventView>)
    requires
        walk.len() <= u64::MAX,
    ensures
        shared_after(
            SharedView { files_scanned: 0, last_path: None },
            root,
            walk,
        ).files_scanned == files_found(root, walk),
        files_found(root, walk) <= walk.len(),
    decreases walk.len(),
{
    if walk.len() > 0 {
        law_shared_progress_counts_the_files(root, walk.drop_last());
        law_scan_counts_the_files_found(root, walk);
        if let EventView::Entry { path, is_dir, metadata, elapsed } = walk.last() {
            law_entries_inside_belong_to_the_scan(root, path);
        }
    }
}

/// How many entries a walk came upon that are not `root` itself.
pub open spec fn announced(root: Seq<PartView>, walk: Seq<EventView>) -> nat
    decreases walk.len(),
{
    if walk.len() == 0 {
        0
    } else {
        announced(root, walk.drop_last()) + match walk.last() {
            EventView::Entry { path, is_dir, metadata, elapsed } => if path != root {
                1nat
            } else {
                0nat
            },
            EventView::Failed(failure) => 0nat,
        }
    }
}

/// A scan sends exactly one update for each entry that is not the root itself.
pub proof fn law_one_update_per_entry(root: Seq<PartView>, walk: Seq<EventView>)
    ensures
        updates_sent(root, walk).len() == announced(root, walk),
    decreases walk.len(),
{
    if walk.len() > 0 {
        law_one_update_per_entry(root, walk.drop_last());
    }
}

/// The update for an entry stands behind those for the entries before it, and
/// gives the entry's path, the time, and the number of files found before it.
pub proof fn law_update_tells_of_its_entry(root: Seq<PartView>, walk: Seq<EventView>, k: int)
    requires
        walk.len() <= usize::MAX,
        0 <= k < walk.len(),
        walk[k] matches EventView::Entry { path, is_dir, metadata, elapsed } && path != root,
    ensures
        ({
            let at = announced(root, walk.take(k)) as int;
            &&& at < updates_sent(root, walk).len()
            &&& walk[k] matches EventView::Entry { path, is_dir, metadata, elapsed }
                && updates_sent(root, walk)[at] == (ProgressView {
                files_scanned: files_found(root, walk.take(k)) as usize,
                current_path: path,
                elapsed,
            })
            &&& files_found(root, walk.take(k)) <= k
        }),
    decreases walk.len(),
{
    let front = walk.drop_last();
    law_one_update_per_entry(root, walk);
    law_one_update_per_entry(root, front);
    lemma_files_within_walk(root, walk.take(k));
    if k == walk.len() - 1 {
        assert(walk.take(k) =~= front);
        law_scan_counts_the_files_found(root, front);
    } else {
        assert(front.take(k) =~= walk.take(k));
        assert(front[k] == walk[k]);
        law_update_tells_of_its_entry(root, front, k);
    }
}

proof fn lemma_files_within_walk(root: Seq<PartView>, walk: Seq<EventView>)
    ensures
        files_found(root, walk) <= walk.len(),
    decreases walk.len(),
{
    if walk.len() > 0 {
        lemma_files_within_walk(root, walk.drop_last());
    }
}

/// Every node of a scanned tree is found by its path, so that it can be deleted.
pub proof fn law_scanned_nodes_are_found(
    root: Seq<PartView>,
    walk: Seq<EventView>,
    trail: Seq<int>,
)
    requires
        ordinary(root, walk),
        on_tree(scanned_tree(root, walk), trail),
        trail.len() > 0,
    ensures
        locate(scanned_tree(root, walk), node_at(scanned_tree(root, walk), trail).path) == Some(
            trail,
        ),
{
    law_scanned_tree_is_well_named(root, walk);
    law_well_named_is_well_placed(scanned_tree(root, walk));
    law_every_node_is_found(scanned_tree(root, walk), trail);
}

/// Deleting a node of a scanned tree takes exactly its bytes off the total, and
/// the sizes still add up.
pub proof fn law_deletion_after_scan_keeps_sums(
    root: Seq<PartView>,
    walk: Seq<EventView>,
    target: Seq<PartView>,
)
    requires
        consistent(root, walk),
        bytes_found(root, walk) <= u64::MAX,
        locate(scanned_tree(root, walk), target) is Some,
    ensures
        adds_up(deleted(scanned_tree(root, walk), target, true)),
        deleted(scanned_tree(root, walk), target, true).size == bytes_found(root, walk) - node_at(
            scanned_tree(root, walk),
            locate(scanned_tree(root, walk), target).unwrap(),
        ).size,
{
    law_scanned_tree_adds_up(root, walk);
    lemma_locate_on_tree(scanned_tree(root, walk), target);
    let trail = locate(scanned_tree(root, walk), target).unwrap();
    lemma_leaves_have_dirs_above(scanned_tree(root, walk), trail);
    law_deletion_takes_exactly_the_size(scanned_tree(root, walk), trail);
}

} // verus!
