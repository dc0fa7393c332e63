//! Laws of the single steps of a scan.

use std::time::Duration;
use vstd::prelude::*;

use crate::laws::scanning::{
    inside, law_entries_inside_belong_to_the_scan, lemma_run_root, lemma_some_first,
};
use crate::node::NodeView;
use crate::path::{root_name_of, PartView};
use crate::scan::{
    after_failed, after_metadata, after_visit, denied, fault, first_message, lemma_fault, run_after,
    scanned_tree, shared_after, started, unwalkable, updates_sent, EventView, FailureView, IoKind,
    ProgressView, RunView, SharedView, SkippedView,
};
use crate::tree::{child_with_name, first_with_name, grown, ordered, sized, Leaf};

verus! {

/// A scan begins with the root alone, a directory without size and children,
/// called by the name of its path.
pub proof fn law_scan_begins_with_the_root(root: Seq<PartView>)
    ensures
        ({
            let run = run_after(root, Seq::empty());
            &&& run == started(root)
            &&& run.root_path == root
            &&& run.tree.name == root_name_of(root)
            &&& run.tree.path == root
            &&& run.tree.is_dir
            &&& run.tree.size == 0
            &&& run.tree.children.len() == 0
            &&& run.skipped.len() == 0
            &&& run.files_scanned == 0
            &&& !run.entered
            &&& run.first_failure is None
        }),
{
}

/// A visit places a directory inside of the root at the rest of its path, and
/// otherwise only notes that the walk came upon an entry.
pub proof fn law_visit_places_directories(run: RunView, path: Seq<PartView>, is_dir: bool)
    ensures
        ({
            let after = after_visit(run, path, is_dir);
            let n = run.root_path.len();
            &&& after.root_path == run.root_path
            &&& after.skipped == run.skipped
            &&& after.files_scanned == run.files_scanned
            &&& after.entered
            &&& after.first_failure == run.first_failure
            &&& is_dir && n < path.len() && path.take(n as int) == run.root_path ==> after.tree
                == grown(run.tree, path.skip(n as int), Leaf::Dir)
            &&& !is_dir || n >= path.len() || path.take(n as int) != run.root_path ==> after.tree
                == run.tree
        }),
{
    let root = run.root_path;
    let n = root.len() as int;
    if n < path.len() {
        assert(root.is_prefix_of(path) <==> path.take(n) == root) by {
            if root.is_prefix_of(path) {
                assert(path.take(n) =~= root);
            }
            if path.take(n) == root {
                assert forall|i: int| 0 <= i < n implies root[i] == path[i] by {
                    assert(path.take(n)[i] == path[i]);
                }
            }
        }
    } else if n == path.len() && root.is_prefix_of(path) {
        assert(path =~= root);
    }
}

/// The size of a file places it at the rest of its path and counts it; a size
/// that could not be read changes nothing but the report.
pub proof fn law_metadata_places_files(
    run: RunView,
    path: Seq<PartView>,
    size: u64,
    failure: FailureView,
)
    ensures
        ({
            let after = after_metadata(run, path, Ok(size));
            &&& after.tree == grown(
                run.tree,
                path.skip(run.root_path.len() as int),
                Leaf::File(size),
            )
            &&& after.files_scanned == run.files_scanned + 1
            &&& after.root_path == run.root_path
            &&& after.skipped == run.skipped
            &&& after.entered == run.entered
            &&& after.first_failure == run.first_failure
        }),
        ({
            let after = after_metadata(run, path, Err(failure));
            &&& after.tree == run.tree
            &&& after.files_scanned == run.files_scanned
            &&& after.root_path == run.root_path
            &&& after.entered == run.entered
            &&& after.first_failure == run.first_failure
            &&& failure.io_kind == Some(IoKind::PermissionDenied) ==> after.skipped
                == run.skipped.push(SkippedView { path: Some(path), message: failure.message })
            &&& failure.io_kind != Some(IoKind::PermissionDenied) ==> after.skipped == run.skipped
        }),
        denied(failure) <==> failure.io_kind == Some(IoKind::PermissionDenied),
{
}

/// A failure of the walk itself is reported, without a path, where permission was
/// refused, and the first of them is remembered.
pub proof fn law_failures_are_remembered(run: RunView, failure: FailureView)
    ensures
        ({
            let after = after_failed(run, failure);
            &&& after.tree == run.tree
            &&& after.files_scanned == run.files_scanned
            &&& after.root_path == run.root_path
            &&& after.entered == run.entered
            &&& run.first_failure is None ==> after.first_failure == Some(failure.message)
            &&& run.first_failure is Some ==> after.first_failure == run.first_failure
            &&& failure.io_kind == Some(IoKind::PermissionDenied) ==> after.skipped
                == run.skipped.push(SkippedView { path: None, message: failure.message })
            &&& failure.io_kind != Some(IoKind::PermissionDenied) ==> after.skipped == run.skipped
        }),
{
}

/// One more entry in a walk: inside of the root it is placed, and a file whose
/// size was read is counted; elsewhere it changes nothing.
pub proof fn law_one_more_entry(
    root: Seq<PartView>,
    walk: Seq<EventView>,
    path: Seq<PartView>,
    is_dir: bool,
    metadata: Result<u64, FailureView>,
    elapsed: Duration,
)
    ensures
        ({
            let event = EventView::Entry { path, is_dir, metadata, elapsed };
            let before = run_after(root, walk);
            let after = run_after(root, walk.push(event));
            let rest = path.skip(root.len() as int);
            &&& after.root_path == root
            &&& after.entered
            &&& after.first_failure == before.first_failure
            &&& after.files_scanned == before.files_scanned + (if inside(root, path) && !is_dir
                && metadata is Ok {
                1int
            } else {
                0
            })
            &&& !inside(root, path) ==> after.tree == before.tree && after.skipped
                == before.skipped
            &&& inside(root, path) && is_dir ==> after.tree == grown(before.tree, rest, Leaf::Dir)
                && after.skipped == before.skipped
            &&& inside(root, path) && !is_dir && metadata is Ok ==> after.tree == grown(
                before.tree,
                rest,
                Leaf::File(metadata->Ok_0),
            ) && after.skipped == before.skipped
            &&& inside(root, path) && !is_dir && metadata is Err ==> after.tree == before.tree
                && after.skipped == (if metadata->Err_0.io_kind == Some(IoKind::PermissionDenied) {
                before.skipped.push(
                    SkippedView { path: Some(path), message: metadata->Err_0.message },
                )
            } else {
                before.skipped
            })
        }),
{
    let event = EventView::Entry { path, is_dir, metadata, elapsed };
    assert(walk.push(event).drop_last() =~= walk);
    assert(walk.push(event).last() == event);
    lemma_run_root(root, walk);
    lemma_run_root(root, walk.push(event));
    law_entries_inside_belong_to_the_scan(root, path);
}

/// One more failure in a walk.
pub proof fn law_one_more_failure(
    root: Seq<PartView>,
    walk: Seq<EventView>,
    failure: FailureView,
)
    ensures
        ({
            let before = run_after(root, walk);
            let after = run_after(root, walk.push(EventView::Failed(failure)));
            &&& after.root_path == root
            &&& after.tree == before.tree
            &&& after.files_scanned == before.files_scanned
            &&& after.entered == before.entered
            &&& after.first_failure == (if before.first_failure is None {
                Some(failure.message)
            } else {
                before.first_failure
            })
            &&& after.skipped == (if failure.io_kind == Some(IoKind::PermissionDenied) {
                before.skipped.push(SkippedView { path: None, message: failure.message })
            } else {
                before.skipped
            })
        }),
{
    let event = EventView::Failed(failure);
    assert(walk.push(event).drop_last() =~= walk);
    assert(walk.push(event).last() == event);
    lemma_run_root(root, walk);
    lemma_run_root(root, walk.push(event));
}

/// Each entry other than the root is told as it comes, with the number of files
/// counted before it.
pub proof fn law_one_more_update(
    root: Seq<PartView>,
    walk: Seq<EventView>,
    path: Seq<PartView>,
    is_dir: bool,
    metadata: Result<u64, FailureView>,
    elapsed: Duration,
    failure: FailureView,
)
    ensures
        updates_sent(root, Seq::empty()).len() == 0,
        updates_sent(root, walk.push(EventView::Failed(failure))) == updates_sent(root, walk),
        ({
            let before = updates_sent(root, walk);
            let after = updates_sent(
                root,
                walk.push(EventView::Entry { path, is_dir, metadata, elapsed }),
            );
            &&& path == root ==> after == before
            &&& path != root ==> after == before.push(
                ProgressView {
                    files_scanned: run_after(root, walk).files_scanned as usize,
                    current_path: path,
                    elapsed,
                },
            )
        }),
{
    let entry = EventView::Entry { path, is_dir, metadata, elapsed };
    assert(walk.push(entry).drop_last() =~= walk);
    assert(walk.push(entry).last() == entry);
    let failed = EventView::Failed(failure);
    assert(walk.push(failed).drop_last() =~= walk);
    assert(walk.push(failed).last() == failed);
}

/// The shared progress shows the last entry other than the root, and the number
/// of files once one more was counted.
pub proof fn law_one_more_shared_step(
    shared: SharedView,
    root: Seq<PartView>,
    walk: Seq<EventView>,
    path: Seq<PartView>,
    is_dir: bool,
    metadata: Result<u64, FailureView>,
    elapsed: Duration,
    failure: FailureView,
)
    ensures
        shared_after(shared, root, Seq::empty()) == shared,
        shared_after(shared, root, walk.push(EventView::Failed(failure))) == shared_after(
            shared,
            root,
            walk,
        ),
        ({
            let before = shared_after(shared, root, walk);
            let after = shared_after(
                shared,
                root,
                walk.push(EventView::Entry { path, is_dir, metadata, elapsed }),
            );
            &&& path == root ==> after == before
            &&& path != root ==> after.last_path == Some(path)
            &&& inside(root, path) && !is_dir && metadata is Ok ==> after.files_scanned == (
            run_after(root, walk).files_scanned + 1) as u64
            &&& !inside(root, path) || is_dir || metadata is Err ==> after.files_scanned
                == before.files_scanned
        }),
{
    let entry = EventView::Entry { path, is_dir, metadata, elapsed };
    assert(walk.push(entry).drop_last() =~= walk);
    assert(walk.push(entry).last() == entry);
    let failed = EventView::Failed(failure);
    assert(walk.push(failed).drop_last() =~= walk);
    assert(walk.push(failed).last() == failed);
    lemma_run_root(root, walk);
    law_entries_inside_belong_to_the_scan(root, path);
}

/// A scan fails where its walk begins with a failure and goes on with nothing
/// else, and then with the message of that failure.
pub proof fn law_scan_fails_without_an_entry(
    root: Seq<PartView>,
    walk: Seq<EventView>,
    failure: FailureView,
    k: int,
)
    ensures
        0 <= k < walk.len() && walk[k] is Entry ==> !unwalkable(walk) && fault(
            run_after(root, walk),
        ) is None,
        walk.len() == 0 ==> !unwalkable(walk) && fault(run_after(root, walk)) is None,
        walk.len() > 0 && walk[0] == EventView::Failed(failure) && (forall|i: int|
            0 <= i < walk.len() ==> !((#[trigger] walk[i]) is Entry)) ==> {
            &&& unwalkable(walk)
            &&& first_message(walk) == failure.message
            &&& fault(run_after(root, walk)) == Some(failure.message)
        },
{
    lemma_fault(root, walk);
    if walk.len() > 0 && (forall|i: int| 0 <= i < walk.len() ==> !((#[trigger] walk[i]) is Entry)) {
        assert forall|i: int| 0 <= i < walk.len() implies (#[trigger] walk[i]) is Failed by {
            assert(!(walk[i] is Entry));
        }
    }
}

/// A run that came upon an entry does not fail; another fails with the first
/// failure that it remembers.
pub proof fn law_fault_needs_no_entry(run: RunView)
    ensures
        run.entered ==> fault(run) is None,
        !run.entered ==> fault(run) == run.first_failure,
{
}

/// A scan ends by adding up the sizes in the tree that it built and by sorting it.
pub proof fn law_scan_ends_sized_and_sorted(root: Seq<PartView>, walk: Seq<EventView>)
    ensures
        scanned_tree(root, walk) == ordered(sized(run_after(root, walk).tree)),
{
}

/// A child is found by its name: the first one that has it.
pub proof fn law_first_child_of_a_name(kids: Seq<NodeView>, name: Seq<char>, k: int)
    ensures
        child_with_name(kids, name) matches Some(i) ==> {
            &&& 0 <= i < kids.len()
            &&& kids[i].name == name
            &&& 0 <= k < i ==> kids[k].name != name
        },
        child_with_name(kids, name) is None && 0 <= k < kids.len() ==> kids[k].name != name,
        child_with_name(kids, name) matches Some(i) ==> first_with_name(kids, name, i),
{
    if child_with_name(kids, name) is Some {
        let i = child_with_name(kids, name).unwrap();
        assert(first_with_name(kids, name, i));
    } else if 0 <= k < kids.len() && kids[k].name == name {
        lemma_some_first(kids, name, k);
    }
}

} // verus!
