//! What each request does to the mount that it names, and what is answered.
use vstd::prelude::*;
use vstd::utf8::encode_utf8;
use crate::commit::{commit_bytes, merges_root, parent_lines, CommitView};
use crate::git_changes::{each_once, mentions, puts};
use crate::git_store::{
    encode_tree, id_of_bytes, names_fit, object_id, tree_order, EntryView, GitObjectKind, Objects,
    StoreFault,
};
use crate::mount::{MountView, StorageConfig};
use crate::op_blobs::{blob_problem, BookmarkValue, OpStoreBlobKind, Rehashed};
use crate::remote::{BlobKind, FetchView};
use crate::service::content::{
    commit_stored, fetch_kept, fetch_result, object_stored, read_answer, tree_stored, Found,
};
use crate::service::op_log::{
    database_failed, log_kept, log_read, log_written, prefix_reply, ref_name_refusal, LogFound,
    LogFoundView, LogStored,
};
use crate::service::working_copy::{
    check_out_refusal, head_change, id_answer, root_recorded, snapshot_recorded, snapshot_taken,
    tree_switched, SnapshotTaken,
};
use crate::service::{
    checkout_answer, checkout_set, has_line, lists_mounts, save_problem, to_save, tree_answer,
    ServiceView, StatusLine,
};
use crate::status::{fetch_refusal, Code, Status, StatusView};
use crate::store::{PrefixView, Rows};
use crate::text::{decimal, hex, joined, name_lt};
use crate::ty::{id_ext, Id};
use crate::vfs::ignore_laws::follows_rules_of;
use crate::vfs::inode::NodeView;
use crate::vfs::types::ErrView;

verus! {

// ---- mounts ----------------------------------------------------------------

/// A request is served by the mount at its path; where nothing is mounted, nothing is
/// found.
pub proof fn requests_reach_the_mount_at_their_path(v: ServiceView, path: Seq<char>, m: MountView)
    ensures
        v.at(path) == Ok::<MountView, StatusView>(m) <==> v.mounts.contains_pair(path, m),
        !v.mounts.contains_key(path) ==> (v.at(path) matches Err(s) && s.code == Code::NotFound
            && s.message == "no mount at "@ + path),
{
}

/// Everything of the service but the mount at a path is as before.
pub open spec fn only_mount_changed(
    before: ServiceView,
    path: Seq<char>,
    after: ServiceView,
) -> bool {
    &&& after.attaches == before.attaches
    &&& after.storage == before.storage
    &&& after.tunnels_dir == before.tunnels_dir
    &&& after.mounts.contains_key(path) <==> before.mounts.contains_key(path)
    &&& forall|other: Seq<char>| #![trigger after.mounts[other]]
        other != path ==> (after.mounts.contains_key(other) <==> before.mounts.contains_key(other))
            && after.mounts[other] == before.mounts[other]
}

/// Everything of the mount but its filesystem is as before.
pub open spec fn only_fs_changed(before: MountView, after: MountView) -> bool {
    &&& after.remote == before.remote
    &&& after.connected == before.connected
    &&& after.op_id == before.op_id
    &&& after.workspace_id == before.workspace_id
    &&& after.root_tree_id == before.root_tree_id
    &&& after.rows == before.rows
    &&& after.meta_path == before.meta_path
    &&& after.last_exported_head == before.last_exported_head
    &&& after.last_exported_bookmarks == before.last_exported_bookmarks
}

/// What outlives the daemon of a mount is saved in its file: the path, the remote, the
/// checkout state and the root tree.
pub proof fn saved_metadata_is_that_of_the_mount(path: Seq<char>, m: MountView)
    ensures
        m.meta_path is None ==> to_save(path, m) is None,
        m.meta_path matches Some(file) ==> (to_save(path, m) matches Some((f, saved)) && {
            &&& f == file
            &&& saved.working_copy_path == path
            &&& saved.remote == m.remote
            &&& saved.op_id == m.op_id
            &&& saved.workspace_id == m.workspace_id
            &&& saved.root_tree_id == m.root_tree_id
        }),
{
}

/// A mount with another checkout state or another root tree is the same mount in
/// everything else.
pub proof fn mounts_change_in_one_thing(m: MountView, op: Seq<u8>, workspace: Seq<u8>, root: Seq<u8>)
    ensures
        m.with_checkout(op, workspace) == (MountView {
            op_id: op,
            workspace_id: workspace,
            ..m
        }),
        m.with_root(root) == (MountView { root_tree_id: root, ..m }),
{
}

/// The status names each mount on one line, with its remote, and nothing else; the lines
/// ascend by their paths.
pub proof fn status_names_each_mount(v: ServiceView, lines: Seq<StatusLine>, path: Seq<char>, i: int, j: int)
    requires
        lists_mounts(v, lines),
    ensures
        v.mounts.contains_key(path) ==> exists|k: int|
            0 <= k < lines.len() && (#[trigger] lines[k]).path@ == path && lines[k].remote@
                == v.mounts[path].remote,
        0 <= i < lines.len() ==> v.mounts.contains_key(lines[i].path@) && lines[i].remote@
            == v.mounts[lines[i].path@].remote,
        0 <= i < j < lines.len() ==> name_lt(lines[i].path@, lines[j].path@),
{
    if v.mounts.contains_key(path) {
        assert(has_line(lines, path));
        let k = choose|k: int| 0 <= k < lines.len() && (#[trigger] lines[k]).path@ == path;
        assert(lines[k].remote@ == v.mounts[path].remote);
    }
    if 0 <= i < lines.len() {
        assert(lines[i].path@ == lines[i].path@);
        assert(has_line(lines, lines[i].path@));
    }
}

/// What a mount keeps is joined to the directory of its key, and that to `mounts` in the
/// root; in memory nothing has a place.
pub proof fn places_are_joined(root: String, key: Seq<char>, name: Seq<char>)
    ensures
        (StorageConfig::OnDisk { root }).place(key, name) == Some(
            joined(joined(joined(root@, "mounts"@), key), name),
        ),
        StorageConfig::InMemory.place(key, name) is None,
{
}

/// A mount keeps what it has in a directory of its own below the root.
pub proof fn mounts_keep_to_their_directory(
    root: String,
    key: Seq<char>,
    name: Seq<char>,
)
    requires
        root@.len() > 0,
        root@.last() != '/',
        key.len() > 0,
        key[0] != '/',
        key.last() != '/',
        name.len() > 0,
        name[0] != '/',
    ensures
        (StorageConfig::OnDisk { root }).place(key, name) == Some(
            root@ + "/mounts/"@ + key + "/"@ + name,
        ),
        StorageConfig::InMemory.place(key, name) is None,
{
    reveal_strlit("mounts");
    reveal_strlit("/");
    reveal_strlit("/mounts/");
    let mounts = joined(root@, "mounts"@);
    assert(mounts =~= root@ + "/mounts"@) by {
        reveal_strlit("/mounts");
        assert(mounts =~= root@ + "/mounts"@);
    }
    reveal_strlit("/mounts");
    assert(mounts.last() == 's');
    let dir = joined(mounts, key);
    assert(dir.last() == key.last());
    assert(joined(dir, name) =~= root@ + "/mounts/"@ + key + "/"@ + name);
}

// ---- checkout state and root tree ------------------------------------------

/// The checkout state of a mount is set as a whole, and nothing else of it.
pub proof fn checkout_state_is_set(
    v: ServiceView,
    path: Seq<char>,
    op_id: Seq<u8>,
    workspace_id: Seq<u8>,
    fault: Option<Seq<char>>,
)
    ensures
        ({
            let (after, r) = checkout_set(v, path, Some((op_id, workspace_id)), fault);
            &&& r is Ok <==> v.mounts.contains_key(path) && (v.mounts[path].meta_path is None
                || fault is None)
            &&& r is Ok ==> {
                let m = after.mounts[path];
                &&& only_mount_changed(v, path, after)
                &&& m.op_id == op_id
                &&& m.workspace_id == workspace_id
                &&& m.fs == v.mounts[path].fs
                &&& m.rows == v.mounts[path].rows
                &&& m.remote == v.mounts[path].remote
                &&& m.connected == v.mounts[path].connected
                &&& m.root_tree_id == v.mounts[path].root_tree_id
                &&& m.meta_path == v.mounts[path].meta_path
                &&& m.last_exported_head == v.mounts[path].last_exported_head
                &&& m.last_exported_bookmarks == v.mounts[path].last_exported_bookmarks
            }
            &&& r is Err ==> after == v
            &&& !v.mounts.contains_key(path) ==> (r matches Err(s) && s.code == Code::NotFound)
            &&& v.mounts.contains_key(path) ==> (r matches Err(s) ==> s.code == Code::Internal)
        }),
        checkout_set(v, path, None, fault).1 matches Err(s) && s.code == Code::InvalidArgument,
        checkout_set(v, path, None, fault).0 == v,
{
}

/// The checkout state that is told is that of the mount; it is told once an operation
/// or a workspace is set.
pub proof fn checkout_state_is_told(v: ServiceView, path: Seq<char>)
    requires
        v.mounts.contains_key(path),
    ensures
        v.mounts[path].op_id.len() > 0 || v.mounts[path].workspace_id.len() > 0 ==> checkout_answer(
            v,
            path,
        ) == Ok::<(Seq<u8>, Seq<u8>), StatusView>(
            (v.mounts[path].op_id, v.mounts[path].workspace_id),
        ),
        v.mounts[path].op_id.len() == 0 && v.mounts[path].workspace_id.len() == 0 ==> (
        checkout_answer(v, path) matches Err(s) && s.code == Code::FailedPrecondition),
        tree_answer(v, path) == Ok::<Seq<u8>, StatusView>(v.mounts[path].root_tree_id),
{
}

/// A root tree is put on record only where it could be saved, if the mount is kept
/// anywhere, and is then the one that is told; nothing else of the mount changes.
pub proof fn root_tree_is_recorded(
    v: ServiceView,
    path: Seq<char>,
    root: Seq<u8>,
    request: Seq<char>,
    context: Seq<char>,
    fault: Option<Seq<char>>,
)
    ensures
        ({
            let (after, r) = root_recorded(v, path, root, request, context, fault);
            &&& r is Ok <==> v.mounts.contains_key(path) && (v.mounts[path].meta_path is None
                || fault is None)
            &&& r is Ok ==> {
                let m = after.mounts[path];
                &&& only_mount_changed(v, path, after)
                &&& tree_answer(after, path) == Ok::<Seq<u8>, StatusView>(root)
                &&& m.root_tree_id == root
                &&& m.fs == v.mounts[path].fs
                &&& m.rows == v.mounts[path].rows
                &&& m.remote == v.mounts[path].remote
                &&& m.connected == v.mounts[path].connected
                &&& m.op_id == v.mounts[path].op_id
                &&& m.workspace_id == v.mounts[path].workspace_id
                &&& m.meta_path == v.mounts[path].meta_path
                &&& m.last_exported_head == v.mounts[path].last_exported_head
                &&& m.last_exported_bookmarks == v.mounts[path].last_exported_bookmarks
            }
            &&& r is Err ==> after == v
            &&& !v.mounts.contains_key(path) ==> (r matches Err(s) && s.code == Code::NotFound)
            &&& v.mounts.contains_key(path) ==> (r matches Err(s) ==> s.code == Code::Internal)
        }),
{
}

/// The refusal of a state that could not be saved names what was done, the file and the
/// cause.
pub proof fn unsaved_state_is_refused(
    m: MountView,
    context: Seq<char>,
    file: Seq<char>,
    cause: Seq<char>,
)
    requires
        m.meta_path == Some(file),
    ensures
        save_problem(m, context, Some(cause)) matches Some(s) && s.code == Code::Internal
            && s.message == context + ": persisting "@ + file + ": "@ + cause,
        save_problem(m, context, None) is None,
{
}

/// The id in a request is its bytes, of which there have to be twenty.
pub proof fn request_ids_are_their_bytes(what: Seq<char>, message: Seq<char>, bytes: Seq<u8>)
    ensures
        id_answer(what, message, bytes) is Ok <==> bytes.len() == 20,
        id_answer(what, message, bytes) matches Ok(id) ==> id@ == bytes,
        id_answer(what, message, bytes) matches Err(s) ==> s.code == Code::InvalidArgument,
{
    if bytes.len() == 20 {
        id_of_bytes(bytes);
    }
}

/// A snapshot hands on the tree of the filesystem and the head that was exported, and
/// asks for a push only where there is a remote. Nothing of the mount but its filesystem
/// changes: the tree is not on record yet.
pub proof fn snapshot_is_not_on_record_yet(
    before: ServiceView,
    path: Seq<char>,
    after: ServiceView,
    r: Result<SnapshotTaken, Status>,
)
    requires
        snapshot_taken(before, path, after, r),
    ensures
        only_mount_changed(before, path, after),
        !before.mounts.contains_key(path) ==> after == before && (r matches Err(s) && s@.code
            == Code::NotFound),
        before.mounts.contains_key(path) ==> {
            let m = before.mounts[path];
            &&& only_fs_changed(m, after.mounts[path])
            &&& tree_answer(after, path) == tree_answer(before, path)
            &&& r is Ok <==> m.fs.tree.snapshot_id() is Ok
            &&& r matches Ok(taken) ==> {
                &&& m.fs.tree.snapshot_id() == Ok::<Id, StoreFault>(taken.root)
                &&& taken.push <==> m.connected
                &&& taken.exported_head@ == m.last_exported_head
            }
            &&& r matches Err(s) ==> s@.code == Code::Internal
        },
{
}

/// A snapshot on record is answered by the id of its tree, which is told from then on,
/// and by the head that the repository has now, where one was exported and this is
/// another one.
pub proof fn snapshot_on_record_is_told(
    v: ServiceView,
    path: Seq<char>,
    root: Id,
    exported: Seq<u8>,
    fault: Option<Seq<char>>,
    current: Option<Seq<u8>>,
)
    ensures
        ({
            let (after, r) = snapshot_recorded(v, path, root, exported, fault, current);
            &&& r is Ok <==> v.mounts.contains_key(path) && (v.mounts[path].meta_path is None
                || fault is None)
            &&& r is Err ==> after == v
            &&& r matches Ok((tree, head)) ==> {
                &&& tree == root@
                &&& tree_answer(after, path) == Ok::<Seq<u8>, StatusView>(root@)
                &&& only_mount_changed(v, path, after)
                &&& after.mounts[path].fs == v.mounts[path].fs
                &&& exported.len() > 0 && current is Some && current != Some(exported) ==> current
                    == Some(head)
                &&& exported.len() == 0 || current is None || current == Some(exported)
                    ==> head.len() == 0
            }
        }),
{
}

/// A check-out reaches the filesystem of the mount: its root is the tree whose id the
/// request holds, and the rules of that tree are followed. Nothing else of the mount
/// changes; the root is not on record yet.
pub proof fn check_out_reaches_the_mount(v: ServiceView, path: Seq<char>, tree: Seq<u8>, id: Id)
    requires
        v.wf(),
        id@ == tree,
    ensures
        ({
            let (after, r) = tree_switched(v, path, tree);
            &&& r is Ok <==> v.mounts.contains_key(path) && v.mounts[path].fs.tree.check_out(
                v.mounts[path].fs.objects,
                id,
                0,
            ).1 is Ok
            &&& r is Err ==> after == v
            &&& r matches Ok(switched) ==> {
                let fs = after.mounts[path].fs;
                &&& switched@ == tree
                &&& only_mount_changed(v, path, after)
                &&& only_fs_changed(v.mounts[path], after.mounts[path])
                &&& fs.objects == v.mounts[path].fs.objects
                &&& fs.git_path == v.mounts[path].fs.git_path
                &&& fs.tree.slab.node(1) == NodeView::Tree(id)
                &&& follows_rules_of(fs.tree, fs.objects, id)
                &&& tree_answer(after, path) == tree_answer(v, path)
            }
        }),
{
    let (after, r) = tree_switched(v, path, tree);
    id_of_bytes(tree);
    id_ext(crate::git_store::id_of(tree), id);
    if v.mounts.contains_key(path) {
        let m = v.mounts[path];
        assert(m.fs.tree.wf());
        if r is Ok {
            crate::vfs::ignore_laws::check_out_follows_the_rules(
                m.fs.tree,
                m.fs.objects,
                id,
                0,
                seq![],
                None,
                0,
                seq![],
                false,
                seq![],
                1,
            );
            assert(after.mounts[path].fs.tree.slab == m.fs.tree.slab.rerooted(id));
        } else {
            assert(v.mounts.insert(path, m) =~= v.mounts);
        }
    }
}

/// A check-out of a request without a proper id is refused before anything is asked;
/// one of a tree that is not there tells to write it first.
pub proof fn refused_check_outs_tell_why(v: ServiceView, path: Seq<char>, tree: Seq<u8>, id: Id, e: ErrView)
    ensures
        tree.len() != 20 ==> tree_switched(v, path, tree).0 == v && (tree_switched(
            v,
            path,
            tree,
        ).1 matches Err(s) && s.code == Code::InvalidArgument),
        tree.len() == 20 && !v.mounts.contains_key(path) ==> (tree_switched(
            v,
            path,
            tree,
        ).1 matches Err(s) && s.code == Code::NotFound),
        check_out_refusal(id, e).code == Code::FailedPrecondition <==> e is StoreMiss,
        e is StoreMiss ==> check_out_refusal(id, e).message == "tree "@ + hex(id@)
            + " not in store; call WriteTree first"@,
        !(e is StoreMiss) ==> check_out_refusal(id, e).code == Code::Internal && check_out_refusal(
            id,
            e,
        ).message == "check_out failed: "@ + e.message(),
{
    reveal_strlit("check_out failed: ");
    reveal_strlit("check_out failed");
    reveal_strlit(": ");
    assert("check_out failed"@ + ": "@ =~= "check_out failed: "@);
}

/// What git tools changed is told of the mount that is asked for: the head that is
/// there now, where one was exported and this is another one, and, where bookmarks were
/// exported, each that is elsewhere now or gone.
pub proof fn changes_from_outside_are_told(
    v: ServiceView,
    path: Seq<char>,
    head: Option<Seq<u8>>,
    refs: Seq<BookmarkValue>,
    name: Seq<char>,
    id: Seq<u8>,
)
    ensures
        !v.mounts.contains_key(path) ==> (head_change(v, path, head, refs) matches Err(s) && s.code
            == Code::NotFound),
        v.mounts.contains_key(path) ==> (head_change(v, path, head, refs) matches Ok((new, marks))
            && {
            let exported = v.mounts[path].last_exported_head;
            &&& exported.len() > 0 && head is Some && head != Some(exported) ==> head == Some(new)
            &&& exported.len() == 0 || head is None || head == Some(exported) ==> new.len() == 0
            &&& match v.mounts[path].last_exported_bookmarks {
                None => marks.len() == 0,
                Some(before) => {
                    &&& each_once(marks)
                    &&& marks.contains((name, id)) <==> {
                        ||| puts(refs, name, id) && !puts(before, name, id)
                        ||| id.len() == 0 && mentions(before, name) && !mentions(refs, name)
                    }
                },
            }
        }),
{
    if v.mounts.contains_key(path) {
        if let Some(before) = v.mounts[path].last_exported_bookmarks {
            crate::git_changes::changed_bookmarks_are_reported(before, refs, name, id);
        }
    }
}

// ---- content ---------------------------------------------------------------

/// The objects of the mount after an object was stored: it stands under its id, what
/// stood anywhere stands there still, and nothing else came.
pub open spec fn object_added(
    before: Objects,
    after: Objects,
    id: Id,
    kind: GitObjectKind,
    data: Seq<u8>,
) -> bool {
    &&& after.contains_key(id)
    &&& before.contains_key(id) ==> after == before
    &&& !before.contains_key(id) ==> after[id].kind == kind && after[id].data == data
    &&& forall|other: Id| #![trigger after[other]]
        other != id ==> (after.contains_key(other) <==> before.contains_key(other)) && (
        before.contains_key(other) ==> after[other] == before[other])
}

/// Storing an object answers its id. It is there afterwards, its bytes are to be pushed
/// where there is a remote, and nothing else changes.
pub proof fn stored_objects_are_answered(
    v: ServiceView,
    path: Seq<char>,
    kind: GitObjectKind,
    data: Seq<u8>,
    context: Seq<char>,
)
    ensures
        ({
            let (after, r) = object_stored(v, path, kind, data, context);
            &&& r is Ok <==> v.mounts.contains_key(path) && object_id(kind, data) is Some
            &&& !v.mounts.contains_key(path) ==> (r matches Err(s) && s.code == Code::NotFound)
            &&& r is Err ==> after == v
            &&& r matches Ok((id, push)) ==> {
                let m = v.mounts[path];
                let fs = after.mounts[path].fs;
                &&& object_id(kind, data) == Some(id)
                &&& only_mount_changed(v, path, after)
                &&& only_fs_changed(m, after.mounts[path])
                &&& fs.tree == m.fs.tree
                &&& fs.git_path == m.fs.git_path
                &&& object_added(m.fs.objects, fs.objects, id, kind, data)
                &&& push is Some <==> m.connected
                &&& m.connected ==> push == Some(fs.objects[id].data)
            }
        }),
{
    let (after, r) = object_stored(v, path, kind, data, context);
    if v.mounts.contains_key(path) && object_id(kind, data) is None {
        let m = v.mounts[path];
        assert(after.mounts[path] == m);
        assert(after.mounts =~= v.mounts);
    }
}

/// A tree is stored as the bytes of its entries in the order of a git tree; a request
/// without a tree, or with a name that holds a zero byte, is refused and changes
/// nothing.
pub proof fn stored_trees_are_answered(
    v: ServiceView,
    path: Seq<char>,
    entries: Seq<EntryView>,
)
    ensures
        names_fit(entries) ==> tree_stored(v, path, Some(entries)) == object_stored(
            v,
            path,
            GitObjectKind::Tree,
            encode_tree(tree_order(entries)),
            "write_tree"@,
        ),
        !names_fit(entries) ==> tree_stored(v, path, Some(entries)).0 == v && (tree_stored(
            v,
            path,
            Some(entries),
        ).1 is Err),
        tree_stored(v, path, None).0 == v,
        v.mounts.contains_key(path) ==> (tree_stored(v, path, None).1 matches Err(s) && s.code
            == Code::InvalidArgument),
        !v.mounts.contains_key(path) ==> (tree_stored(v, path, None).1 matches Err(s) && s.code
            == Code::NotFound),
{
}

/// A line of a commit.
pub open spec fn commit_line(word: Seq<char>, value: Seq<char>) -> Seq<char> {
    word + " "@ + value + "\n"@
}

/// A commit is its tree, its parents in their order without the root commit, its author
/// and its committer, each on a line, an empty line and the description.
pub proof fn commits_are_their_lines(c: CommitView, front: Seq<Id>, last: Id)
    ensures
        commit_bytes(c) == encode_utf8(
            commit_line("tree"@, hex(c.tree@)) + parent_lines(c.parents) + commit_line(
                "author"@,
                c.author,
            ) + commit_line("committer"@, c.committer) + "\n"@ + c.description,
        ),
        parent_lines(Seq::<Id>::empty()).len() == 0,
        (forall|i: int| 0 <= i < 20 ==> #[trigger] last@[i] == 0u8) ==> parent_lines(
            front.push(last),
        ) == parent_lines(front),
        !(forall|i: int| 0 <= i < 20 ==> #[trigger] last@[i] == 0u8) ==> parent_lines(
            front.push(last),
        ) == parent_lines(front) + commit_line("parent"@, hex(last@)),
{
    reveal_strlit("tree ");
    reveal_strlit("tree");
    reveal_strlit("parent ");
    reveal_strlit("parent");
    reveal_strlit("author ");
    reveal_strlit("author");
    reveal_strlit("committer ");
    reveal_strlit("committer");
    reveal_strlit(" ");
    reveal_strlit("\n");
    reveal_strlit("\n\n");
    assert("tree"@ + " "@ =~= "tree "@);
    assert("parent"@ + " "@ =~= "parent "@);
    assert("author"@ + " "@ =~= "author "@);
    assert("committer"@ + " "@ =~= "committer "@);
    assert("\n"@ + "\n"@ =~= "\n\n"@);
    assert(crate::commit::commit_text(c) =~= commit_line("tree"@, hex(c.tree@)) + parent_lines(
        c.parents,
    ) + commit_line("author"@, c.author) + commit_line("committer"@, c.committer) + "\n"@
        + c.description);
    assert(front.push(last).drop_last() =~= front);
    let root = Id(crate::commit::ROOT_COMMIT);
    if forall|i: int| 0 <= i < 20 ==> #[trigger] last@[i] == 0u8 {
        assert(last@ =~= root@);
        id_ext(last, root);
    }
    assert forall|i: int| 0 <= i < 20 implies #[trigger] root@[i] == 0u8 by {}
}

/// A commit is stored as its bytes. It needs a parent, and cannot merge the root commit.
/// With a remote its object is pushed, and what is kept beside it after that.
pub proof fn stored_commits_are_answered(
    v: ServiceView,
    path: Seq<char>,
    c: CommitView,
    extra: Option<Seq<u8>>,
)
    ensures
        ({
            let (after, r) = commit_stored(v, path, Some(c), extra);
            let (stored, object) = object_stored(
                v,
                path,
                GitObjectKind::Commit,
                commit_bytes(c),
                "write_commit"@,
            );
            &&& r is Ok <==> object is Ok && c.parents.len() > 0 && !merges_root(c.parents)
            &&& r is Err ==> after == v || after == stored
            &&& r matches Ok((id, pushes)) ==> after == stored && (object matches Ok((oid, push))
                && {
                &&& id == oid
                &&& push is None ==> pushes.len() == 0
                &&& push matches Some(data) ==> {
                    &&& pushes.len() == (if extra is Some {
                        2int
                    } else {
                        1int
                    })
                    &&& pushes[0] == (BlobKind::Commit, data)
                    &&& extra matches Some(beside) ==> pushes[1] == (BlobKind::Extra, beside)
                }
            })
        }),
        c.parents.len() == 0 || merges_root(c.parents) ==> commit_stored(
            v,
            path,
            Some(c),
            extra,
        ).0 == v,
        commit_stored(v, path, None, extra).0 == v,
        v.mounts.contains_key(path) ==> (commit_stored(v, path, None, extra).1 matches Err(s)
            && s.code == Code::InvalidArgument),
        merges_root(c.parents) <==> c.parents.len() > 1 && exists|i: int|
            0 <= i < c.parents.len() && #[trigger] c.parents[i] == Id(crate::commit::ROOT_COMMIT),
{
}

/// A read answers what the store holds under the id of the request. Where it holds
/// nothing, the object is fetched under that id if there is a remote, and is nowhere
/// else; a fault of the store is an internal one.
pub proof fn reads_answer_what_the_store_holds<T>(
    v: ServiceView,
    path: Seq<char>,
    what: Seq<char>,
    message: Seq<char>,
    id: Id,
    at: spec_fn(Objects, Id) -> Result<Option<T>, StoreFault>,
)
    requires
        v.mounts.contains_key(path),
    ensures
        ({
            let m = v.mounts[path];
            let r = read_answer(v, path, what, message, id@, at);
            match at(m.fs.objects, id) {
                Ok(Some(content)) => r == Ok::<Found<T>, StatusView>(Found::Here(content)),
                Ok(None) => if m.connected {
                    r == Ok::<Found<T>, StatusView>(Found::Elsewhere(id))
                } else {
                    r matches Err(s) && s.code == Code::NotFound && s.message == what + " "@ + hex(
                        id@,
                    ) + " not found"@
                },
                Err(fault) => r matches Err(s) && s.code == Code::Internal,
            }
        }),
{
    id_of_bytes(id@);
    id_ext(crate::git_store::id_of(id@), id);
}

/// A read of a request without a proper id, or without a mount, is refused.
pub proof fn wrong_reads_are_refused<T>(
    v: ServiceView,
    path: Seq<char>,
    what: Seq<char>,
    message: Seq<char>,
    bytes: Seq<u8>,
    at: spec_fn(Objects, Id) -> Result<Option<T>, StoreFault>,
)
    ensures
        !v.mounts.contains_key(path) ==> (read_answer(v, path, what, message, bytes, at) matches Err(
            s,
        ) && s.code == Code::NotFound),
        v.mounts.contains_key(path) && bytes.len() != 20 ==> (read_answer(
            v,
            path,
            what,
            message,
            bytes,
            at,
        ) matches Err(s) && s.code == Code::InvalidArgument),
{
}

/// What a remote gives is taken only if its bytes have the id that was asked for, and is
/// then stored for the mount like any other object.
pub proof fn only_the_fetched_object_is_kept(
    v: ServiceView,
    path: Seq<char>,
    what: BlobKind,
    id: Id,
    kind: GitObjectKind,
    data: Option<Seq<u8>>,
)
    ensures
        fetch_result(what, id, kind, data) is Ok <==> (data matches Some(bytes) && object_id(
            kind,
            bytes,
        ) == Some(id)),
        data is None ==> fetch_result(what, id, kind, data) == Err::<(), FetchView>(
            FetchView::NotFound { kind: what.tag(), id: hex(id@) },
        ),
        data is Some ==> (fetch_result(what, id, kind, data) matches Err(e) ==> e is DataLoss),
        data matches Some(bytes) ==> (object_id(kind, bytes) == Some(id) && v.mounts.contains_key(
            path,
        ) ==> {
            let after = fetch_kept(v, path, kind, bytes);
            &&& only_mount_changed(v, path, after)
            &&& only_fs_changed(v.mounts[path], after.mounts[path])
            &&& after.mounts[path].fs.tree == v.mounts[path].fs.tree
            &&& after.mounts[path].fs.git_path == v.mounts[path].fs.git_path
            &&& object_added(
                v.mounts[path].fs.objects,
                after.mounts[path].fs.objects,
                id,
                kind,
                bytes,
            )
        }),
        data matches Some(bytes) ==> (!v.mounts.contains_key(path) ==> fetch_kept(
            v,
            path,
            kind,
            bytes,
        ) == v),
{
}

/// A failed fetch is told by its kind: what is nowhere is not found, and what came with
/// other bytes is lost.
pub proof fn failed_fetches_are_told(kind: Seq<char>, id: Seq<char>, cause: Seq<char>)
    ensures
        fetch_refusal(FetchView::NotFound { kind, id }).code == Code::NotFound,
        fetch_refusal(FetchView::NotFound { kind, id }).message == kind + " "@ + id
            + " not found locally or on remote"@,
        fetch_refusal(FetchView::DataLoss(cause)).code == Code::DataLoss,
        fetch_refusal(FetchView::DataLoss(cause)).message == cause,
        fetch_refusal(FetchView::LocalWrite(cause)).code == Code::Internal,
        fetch_refusal(FetchView::Remote(cause)).code == Code::Internal,
{
}

// ---- the operation log -----------------------------------------------------

/// Everything of the mount but its rows is as before.
pub open spec fn only_rows_changed(before: MountView, after: MountView) -> bool {
    &&& after.remote == before.remote
    &&& after.connected == before.connected
    &&& after.op_id == before.op_id
    &&& after.workspace_id == before.workspace_id
    &&& after.root_tree_id == before.root_tree_id
    &&& after.fs == before.fs
    &&& after.meta_path == before.meta_path
    &&& after.last_exported_head == before.last_exported_head
    &&& after.last_exported_bookmarks == before.last_exported_bookmarks
}

/// The rows after one more: it is there, and the others are as before.
pub open spec fn row_added(
    before: Rows,
    after: Rows,
    table: Seq<char>,
    key: Seq<u8>,
    bytes: Seq<u8>,
) -> bool {
    &&& after.contains_pair((table, key), bytes)
    &&& forall|t: Seq<char>, k: Seq<u8>| #![trigger after[(t, k)]]
        (t, k) != (table, key) ==> (after.contains_key((t, k)) <==> before.contains_key((t, k)))
            && after[(t, k)] == before[(t, k)]
}

/// A blob that is stored stands in the table of its kind under its id, and nothing else
/// changes. It is stored only under the id of its content, and pushed where there is a
/// remote; one that came from the remote is stored by the same rule.
pub proof fn stored_blobs_stand_in_their_table(
    before: ServiceView,
    path: Seq<char>,
    kind: OpStoreBlobKind,
    id: Seq<u8>,
    data: Seq<u8>,
    found: Rehashed,
    after: ServiceView,
    r: Result<LogStored, Status>,
)
    requires
        log_written(before, path, kind, id, data, found, after, r) || log_kept(
            before,
            path,
            kind,
            id,
            data,
            found,
            after,
            r,
        ),
    ensures
        r is Ok ==> before.mounts.contains_key(path) && blob_problem(kind, id, found) is None,
        r matches Ok(stored) ==> {
            &&& stored.push <==> before.mounts[path].connected
            &&& only_mount_changed(before, path, after)
            &&& only_rows_changed(before.mounts[path], after.mounts[path])
            &&& row_added(
                before.mounts[path].rows,
                after.mounts[path].rows,
                if kind is View {
                    "views_v1"@
                } else {
                    "operations_v1"@
                },
                id,
                data,
            )
        },
        !before.mounts.contains_key(path) ==> after == before && (r matches Err(s) && s@.code
            == Code::NotFound),
        before.mounts.contains_key(path) && blob_problem(kind, id, found) is None ==> (
        r matches Err(s) ==> s@.code == Code::Internal),
        before.mounts.contains_key(path) && blob_problem(kind, id, found) is Some ==> after == before
            && r is Err,
{
}

/// A blob is read from the table of its kind under its id, which has 64 bytes; where it
/// is not there, the remote is asked if there is one.
pub proof fn blobs_are_read_from_their_table(
    v: ServiceView,
    path: Seq<char>,
    kind: OpStoreBlobKind,
    id: Seq<u8>,
    r: Result<LogFound, Status>,
)
    requires
        log_read(v, path, kind, id, r),
    ensures
        !v.mounts.contains_key(path) ==> (r matches Err(s) && s@.code == Code::NotFound),
        v.mounts.contains_key(path) && id.len() != 64 ==> (r matches Err(s) && s@.code
            == Code::InvalidArgument),
        v.mounts.contains_key(path) && id.len() == 64 ==> {
            let rows = v.mounts[path].rows;
            let table = if kind is View {
                "views_v1"@
            } else {
                "operations_v1"@
            };
            match r {
                Ok(found) => {
                    &&& rows.contains_key((table, id)) ==> found@ == LogFoundView::Here(
                        rows[(table, id)],
                    )
                    &&& !rows.contains_key((table, id)) && v.mounts[path].connected ==> found@
                        == LogFoundView::Elsewhere
                    &&& !rows.contains_key((table, id)) && !v.mounts[path].connected ==> found@
                        == LogFoundView::Nowhere
                },
                Err(s) => s@.code == Code::Internal,
            }
        },
{
}

/// What a prefix stands for is told by a number: none, one or more than one. With one
/// comes the id, and else no bytes.
pub proof fn prefixes_are_answered_by_number(p: PrefixView, id: Seq<u8>)
    ensures
        prefix_reply(p).0 == 0 <==> p == PrefixView::NoMatch,
        prefix_reply(PrefixView::Single(id)) == (1u32, id),
        prefix_reply(p).0 == 2 <==> p == PrefixView::Ambiguous,
        !(p is Single) ==> prefix_reply(p).1.len() == 0,
{
}

/// A wrong ref name is an invalid argument; a failure of the database is an internal
/// one, and says in which step.
pub proof fn log_refusals_have_their_code(name: Seq<char>, s: StatusView, context: Seq<char>)
    ensures
        ref_name_refusal(name).code == Code::InvalidArgument,
        ref_name_refusal(name).message == "ref name: "@ + crate::remote::ref_name_message(name),
        database_failed(s, context) ==> s.code == Code::Internal && s.message.len()
            >= context.len() + 2 && s.message.take(context.len() as int) == context,
{
    reveal_strlit("ref name: ");
    reveal_strlit("ref name");
    reveal_strlit(": ");
    assert("ref name"@ + ": "@ =~= "ref name: "@);
    if database_failed(s, context) {
        let front = context + ": "@;
        assert(s.message.take(front.len() as int) == front);
        assert(s.message.take(context.len() as int) =~= front.take(context.len() as int));
        assert(front.take(context.len() as int) =~= context);
    }
}

// ---- words ------------------------------------------------------------------

/// What is said of a refused change of the checkout state or of the root tree.
pub proof fn refused_state_changes_say_why(
    v: ServiceView,
    path: Seq<char>,
    op: Seq<u8>,
    workspace: Seq<u8>,
    root: Seq<u8>,
    request: Seq<char>,
    context: Seq<char>,
    file: Seq<char>,
    cause: Seq<char>,
)
    ensures
        checkout_set(v, path, None, None).1 matches Err(s) && s.message
            == "SetCheckoutStateReq.checkout_state is required"@,
        !v.mounts.contains_key(path) ==> {
            &&& checkout_set(v, path, Some((op, workspace)), None).1 matches Err(s) && s.message
                == "no mount at "@ + path + " (call Initialize first)"@
            &&& root_recorded(v, path, root, request, context, None).1 matches Err(s) && s.message
                == "mount at "@ + path + " disappeared during "@ + request
        },
        v.mounts.contains_key(path) && v.mounts[path].meta_path == Some(file) ==> {
            &&& checkout_set(v, path, Some((op, workspace)), Some(cause)).1 matches Err(s)
                && s.message == "persist checkout state"@ + ": persisting "@ + file + ": "@ + cause
            &&& root_recorded(v, path, root, request, context, Some(cause)).1 matches Err(s)
                && s.message == context + ": persisting "@ + file + ": "@ + cause
        },
        v.mounts.contains_key(path) && v.mounts[path].op_id.len() == 0
            && v.mounts[path].workspace_id.len() == 0 ==> (checkout_answer(v, path) matches Err(s)
            && s.message == "checkout state not yet set for "@ + path),
{
}

/// What is said of a refused snapshot on record: what was done, and why it is not.
pub proof fn refused_snapshots_say_why(
    v: ServiceView,
    path: Seq<char>,
    root: Id,
    exported: Seq<u8>,
    current: Option<Seq<u8>>,
    file: Seq<char>,
    cause: Seq<char>,
)
    ensures
        !v.mounts.contains_key(path) ==> (snapshot_recorded(
            v,
            path,
            root,
            exported,
            None,
            current,
        ).1 matches Err(s) && s.code == Code::NotFound && s.message == "mount at "@ + path
            + " disappeared during "@ + "snapshot"@),
        v.mounts.contains_key(path) && v.mounts[path].meta_path == Some(file) ==> (
        snapshot_recorded(v, path, root, exported, Some(cause), current).1 matches Err(s) && s.code
            == Code::Internal && s.message == "persist snapshot metadata"@ + ": persisting "@ + file
            + ": "@ + cause),
{
}

/// What is said of a wrong id: what it is for, the message that it came in, and how
/// many bytes it has.
pub proof fn wrong_ids_say_their_length(what: Seq<char>, message: Seq<char>, bytes: Seq<u8>)
    requires
        bytes.len() != 20,
    ensures
        id_answer(what, message, bytes) matches Err(s) && s.message == what + ": "@ + (message + ": "@
            + ("expected 20-byte id, got "@ + decimal(bytes.len()) + " bytes"@)),
{
}

/// What is said of refused content.
pub proof fn refused_content_says_why<T>(
    v: ServiceView,
    path: Seq<char>,
    kind: GitObjectKind,
    data: Seq<u8>,
    context: Seq<char>,
    entries: Seq<EntryView>,
    c: CommitView,
    extra: Option<Seq<u8>>,
    what: Seq<char>,
    message: Seq<char>,
    id: Id,
    at: spec_fn(Objects, Id) -> Result<Option<T>, StoreFault>,
)
    requires
        v.mounts.contains_key(path),
    ensures
        object_id(kind, data) is None ==> (object_stored(
            v,
            path,
            kind,
            data,
            context,
        ).1 matches Err(s) && s.code == Code::Internal && s.message == context + ": "@
            + StoreFault::HashRefused.message()),
        tree_stored(v, path, None).1 matches Err(s) && s.message == "WriteTreeReq.tree is required"@,
        !names_fit(entries) ==> (tree_stored(v, path, Some(entries)).1 matches Err(s) && s.code
            == Code::Internal && s.message == "write_tree"@ + ": "@
            + StoreFault::ZeroInName.message()),
        commit_stored(v, path, None, extra).1 matches Err(s) && s.message
            == "WriteCommitReq.commit is required"@,
        c.parents.len() == 0 ==> (commit_stored(v, path, Some(c), extra).1 matches Err(s) && s.code
            == Code::Internal && s.message == "Cannot write a commit with no parents"@),
        merges_root(c.parents) ==> (commit_stored(v, path, Some(c), extra).1 matches Err(s) && s.code
            == Code::Internal && s.message == "write_commit"@ + ": "@
            + "The Git backend does not support creating merge commits with the root commit as one of the parents."@),
        at(v.mounts[path].fs.objects, id) matches Err(fault) ==> (read_answer(
            v,
            path,
            what,
            message,
            id@,
            at,
        ) matches Err(s) && s.message == "read_"@ + what + ": "@ + fault.message()),
{
    id_of_bytes(id@);
    id_ext(crate::git_store::id_of(id@), id);
}

/// What is said of blobs of the operation log that are refused, and of an id of the
/// wrong length.
pub proof fn refused_blobs_say_why(
    before: ServiceView,
    path: Seq<char>,
    kind: OpStoreBlobKind,
    id: Seq<u8>,
    data: Seq<u8>,
    found: Rehashed,
    after: ServiceView,
    r: Result<LogStored, Status>,
    read: Result<LogFound, Status>,
    text: Seq<char>,
)
    requires
        before.mounts.contains_key(path),
    ensures
        log_written(before, path, kind, id, data, found, after, r) && blob_problem(kind, id, found)
            == Some(text) ==> (r matches Err(s) && s@.code == Code::InvalidArgument && s@.message
            == kind.tag() + " blob"@ + ": "@ + text),
        log_kept(before, path, kind, id, data, found, after, r) && blob_problem(kind, id, found)
            == Some(text) ==> (r matches Err(s) && s@.code == Code::DataLoss && s@.message
            == "remote "@ + kind.tag() + " blob"@ + ": "@ + text),
        log_read(before, path, kind, id, read) && id.len() != 64 ==> (read matches Err(s)
            && s@.message == kind.tag() + "_id must be 64 bytes, got "@ + decimal(id.len())),
        log_read(before, path, kind, id, read) && id.len() == 64 ==> (read matches Err(s)
            ==> database_failed(s@, "get_"@ + kind.tag())),
        kind is View ==> kind.tag() == "view"@,
        kind is Operation ==> kind.tag() == "operation"@,
{
}

} // verus!
