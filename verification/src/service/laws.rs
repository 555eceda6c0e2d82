//! What holds across several requests.
use vstd::prelude::*;
use crate::git_store::{GitContentStore, EMPTY_TREE};
use crate::mount::{MetadataView, MountView};
use crate::service::setup::{begun, new_metadata};
use crate::service::working_copy::{root_recorded, snapshot_taken, tree_switched, SnapshotTaken};
use crate::service::{checkout_answer, checkout_set, to_save, ServiceView};
use crate::status::{refusal, Code, Status, StatusView};
use crate::store::Store;
use crate::ty::Id;
use crate::vfs::inode::NodeView;

verus! {

/// A new mount has no checkout state, and its root is the empty tree.
pub proof fn new_mount_is_empty(
    v: ServiceView,
    path: Seq<char>,
    key: Seq<char>,
    remote: Seq<char>,
    connected: bool,
    store: GitContentStore,
    ops: Store,
)
    ensures
        ({
            let m = begun(
                v,
                key,
                new_metadata(path, remote),
                Id(EMPTY_TREE),
                connected,
                store,
                ops,
            );
            &&& m.root_tree_id == Id(EMPTY_TREE)@
            &&& checkout_answer(v.with_mount(path, m), path) == Err::<
                (Seq<u8>, Seq<u8>),
                StatusView,
            >(refusal(Code::FailedPrecondition, "checkout state not yet set for "@ + path))
        }),
{
}

/// A checkout state that was set is read back.
pub proof fn checkout_state_round_trip(
    v: ServiceView,
    path: Seq<char>,
    op_id: Seq<u8>,
    workspace_id: Seq<u8>,
    fault: Option<Seq<char>>,
)
    requires
        checkout_set(v, path, Some((op_id, workspace_id)), fault).1 is Ok,
        op_id.len() > 0 || workspace_id.len() > 0,
    ensures
        checkout_answer(checkout_set(v, path, Some((op_id, workspace_id)), fault).0, path) == Ok::<
            (Seq<u8>, Seq<u8>),
            StatusView,
        >((op_id, workspace_id)),
{
}

/// A refused request leaves everything as it was.
pub proof fn refused_changes_leave_the_state(
    v: ServiceView,
    path: Seq<char>,
    checkout: Option<(Seq<u8>, Seq<u8>)>,
    root: Seq<u8>,
    request: Seq<char>,
    context: Seq<char>,
    fault: Option<Seq<char>>,
)
    requires
        v.wf(),
    ensures
        checkout_set(v, path, checkout, fault).1 is Err ==> checkout_set(v, path, checkout, fault).0
            == v,
        root_recorded(v, path, root, request, context, fault).1 is Err ==> root_recorded(
            v,
            path,
            root,
            request,
            context,
            fault,
        ).0 == v,
        tree_switched(v, path, root).1 is Err ==> tree_switched(v, path, root).0 == v,
{
    if v.mounts.contains_key(path) {
        assert(v.mounts.insert(path, v.mounts[path]) =~= v.mounts);
    }
}

/// What is on record is what was saved: the metadata that had to be saved before
/// a change is the metadata of the mount after it.
pub proof fn saved_state_is_current(
    v: ServiceView,
    path: Seq<char>,
    op_id: Seq<u8>,
    workspace_id: Seq<u8>,
    root: Seq<u8>,
    request: Seq<char>,
    context: Seq<char>,
    fault: Option<Seq<char>>,
    file: Seq<char>,
    saved: MetadataView,
)
    requires
        v.mounts.contains_key(path),
    ensures
        ({
            let (after, r) = checkout_set(v, path, Some((op_id, workspace_id)), fault);
            r is Ok && to_save(path, v.mounts[path].with_checkout(op_id, workspace_id)) == Some(
                (file, saved),
            ) ==> after.mounts[path].metadata(path) == saved
        }),
        ({
            let (after, r) = root_recorded(v, path, root, request, context, fault);
            r is Ok && to_save(path, v.mounts[path].with_root(root)) == Some((file, saved))
                ==> after.mounts[path].metadata(path) == saved
        }),
{
}

/// A tree that was put on record is the one that is asked for.
pub proof fn recorded_root_is_current(
    v: ServiceView,
    path: Seq<char>,
    root: Seq<u8>,
    request: Seq<char>,
    context: Seq<char>,
    fault: Option<Seq<char>>,
)
    requires
        root_recorded(v, path, root, request, context, fault).1 is Ok,
    ensures
        root_recorded(v, path, root, request, context, fault).0.at(path) == Ok::<
            MountView,
            StatusView,
        >(v.mounts[path].with_root(root)),
{
}

/// Right after a check-out, a snapshot gives the tree that was checked out, as
/// long as nothing below the pinned `.jj` directory is modified.
pub proof fn snapshot_after_check_out(
    v: ServiceView,
    path: Seq<char>,
    tree: Seq<u8>,
    after: ServiceView,
    r: Result<SnapshotTaken, Status>,
)
    requires
        v.wf(),
        tree_switched(v, path, tree).1 is Ok,
        v.mounts[path].fs.tree.jj_subtree matches Some(jj) ==> !v.mounts[path].fs.tree.slab.node(
            jj,
        ).is_dirty(),
        snapshot_taken(tree_switched(v, path, tree).0, path, after, r),
    ensures
        r matches Ok(taken) && taken.root@ == tree,
{
    let w = tree_switched(v, path, tree).0;
    let id = tree_switched(v, path, tree).1->Ok_0;
    let before = v.mounts[path].fs.tree;
    let t = w.mounts[path].fs.tree;
    assert(before.wf());
    assert(t.slab == before.slab.rerooted(id));
    assert(t.slab.node(1) == NodeView::Tree(id));
    assert(id@ == tree) by {
        assert(tree.len() == crate::ty::ID_LEN);
        crate::git_store::id_of_bytes(tree);
    }
    if let Some(jj) = before.jj_subtree {
        assert(t.slab.node(jj) == before.slab.node(jj));
    }
    assert(t.snapshot_id() == Ok::<Id, crate::git_store::StoreFault>(id));
}

/// A request for one mount leaves every other mount as it was.
pub proof fn mounts_are_apart(
    v: ServiceView,
    path: Seq<char>,
    other: Seq<char>,
    checkout: Option<(Seq<u8>, Seq<u8>)>,
    root: Seq<u8>,
    request: Seq<char>,
    context: Seq<char>,
    fault: Option<Seq<char>>,
    after: ServiceView,
    taken: Result<SnapshotTaken, Status>,
)
    requires
        other != path,
        snapshot_taken(v, path, after, taken),
    ensures
        checkout_set(v, path, checkout, fault).0.at(other) == v.at(other),
        root_recorded(v, path, root, request, context, fault).0.at(other) == v.at(other),
        tree_switched(v, path, root).0.at(other) == v.at(other),
        after.at(other) == v.at(other),
{
}

} // verus!
