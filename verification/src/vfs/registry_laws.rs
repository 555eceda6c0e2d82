//! How repositories and workspaces come into a mount and leave it, what its own
//! directories allow, and how inodes carry the slot of their workspace.
use vstd::prelude::*;
use crate::git_store::Objects;
use crate::store::Rows;
use crate::text::joined;
use crate::ty::Id;
use crate::vfs::inode::{InodeId, ROOT_INODE};
use crate::vfs::kiki_fs::JjKikiFs;
use crate::vfs::root_fs::{
    active_names, global, kept, lemma_repo_at, lemma_workspace_at, lemma_workspace_in, local,
    repo_at, repo_rows, scratch_path, slot, workspace_at, workspace_in, RepoView, RootFs, RootView,
    WorkspaceState, WorkspaceView,
};
use crate::vfs::root_laws::is_directory;
use crate::vfs::types::{Attr, DirEntryView, ErrView, FileKind};

verus! {

/// An inode of the mount is the number of the slot times two to the power of forty, and
/// the inode of the workspace on top of that.
pub proof fn inodes_carry_their_slot(ino: InodeId, s: u32, l: InodeId)
    ensures
        slot(ino) == ino / 0x100_0000_0000,
        local(ino) == ino % 0x100_0000_0000,
        s < 0x100_0000 && l < 0x100_0000_0000 ==> global(s, l) == s * 0x100_0000_0000 + l,
{
    assert((ino >> 40) as u32 == ino / 0x100_0000_0000u64) by (bit_vector);
    assert(ino & 0xff_ffff_ffffu64 == ino % 0x100_0000_0000u64) by (bit_vector);
    if s < 0x100_0000 && l < 0x100_0000_0000 {
        assert(((s as u64) << 40) | l == (s as u64) * 0x100_0000_0000u64 + l) by (bit_vector)
            requires
                s < 0x100_0000u32,
                l < 0x100_0000_0000u64,
        ;
    }
}

// ---- what is registered ----------------------------------------------------

/// A repository is found by its name, a workspace by its repository and its name, and
/// either only if it is registered. Where names or slots occur twice, the first one is
/// found.
pub proof fn registered_names_are_found(
    v: RootView,
    repo: Seq<char>,
    name: Seq<char>,
    s: u32,
)
    ensures
        repo_at(v.repos, repo) matches Some(i) ==> 0 <= i < v.repos.len() && v.repos[i].name == repo,
        repo_at(v.repos, repo) is None <==> forall|i: int|
            0 <= i < v.repos.len() ==> (#[trigger] v.repos[i]).name != repo,
        workspace_at(v.workspaces, repo, name) matches Some(i) ==> 0 <= i < v.workspaces.len()
            && v.workspaces[i].repo == repo && v.workspaces[i].name == name,
        workspace_at(v.workspaces, repo, name) is None <==> forall|i: int|
            0 <= i < v.workspaces.len() ==> (#[trigger] v.workspaces[i]).repo != repo
                || v.workspaces[i].name != name,
        workspace_in(v.workspaces, s) matches Some(i) ==> 0 <= i < v.workspaces.len()
            && v.workspaces[i].slot == s,
        workspace_in(v.workspaces, s) is None <==> forall|i: int|
            0 <= i < v.workspaces.len() ==> (#[trigger] v.workspaces[i]).slot != s,
        v.find(repo, name) == if repo_at(v.repos, repo) is Some {
            workspace_at(v.workspaces, repo, name)
        } else {
            None
        },
{
    lemma_repo_at(v.repos, repo);
    lemma_workspace_at(v.workspaces, repo, name);
    lemma_workspace_in(v.workspaces, s);
}

/// A new mount has nothing but its root directory.
pub proof fn new_mounts_are_empty(
    mount_root: Seq<char>,
    storage_dir: Seq<char>,
    next_slot: u32,
    dir: InodeId,
    name: Seq<char>,
)
    ensures
        ({
            let v = RootView::fresh(mount_root, storage_dir, next_slot);
            &&& v.mount_root == mount_root
            &&& v.storage_dir == storage_dir
            &&& v.next_slot == next_slot
            &&& v.repos.len() == 0
            &&& v.workspaces.len() == 0
            &&& v.live == Map::<u32, crate::vfs::root_fs::LiveView>::empty()
            &&& v.synthetic_attr(dir) is Ok <==> dir == ROOT_INODE
            &&& v.synthetic_child(dir, name) is Err
        }),
{
}

/// A new repository shows in the root under its name, at an inode of its own, and holds
/// what it was given; nothing is in it. One that is known stays as it is. What showed
/// before shows as before.
pub proof fn repositories_are_registered(
    v: RootView,
    name: Seq<char>,
    url: Seq<char>,
    objects: Objects,
    git_path: Seq<char>,
    rows: Rows,
    connected: bool,
    other: Seq<char>,
    dir: InodeId,
)
    requires
        v.wf(),
        v.next_synthetic < u64::MAX,
    ensures
        ({
            let after = v.with_repo(name, url, objects, git_path, rows, connected);
            let n = v.repos.len() as int;
            &&& repo_at(v.repos, name) is Some ==> after == v
            &&& repo_at(v.repos, name) is None ==> {
                &&& after.repos.len() == n + 1
                &&& after.repos.take(n) == v.repos
                &&& after.repos[n].name == name
                &&& after.repos[n].url == url
                &&& after.repos[n].objects == objects
                &&& after.repos[n].git_path == git_path
                &&& after.repos[n].rows == rows
                &&& after.repos[n].connected == connected
                &&& after.synthetic_child(ROOT_INODE, name) == Ok::<InodeId, ErrView>(
                    after.repos[n].inode,
                )
                &&& v.synthetic_attr(after.repos[n].inode) is Err
                &&& after.synthetic_attr(after.repos[n].inode) is Ok
                &&& after.synthetic_child(after.repos[n].inode, other) is Err
                &&& after.next_synthetic > v.next_synthetic
            }
            &&& (dir != ROOT_INODE || other != name) && v.synthetic_attr(dir) is Ok
                ==> after.synthetic_child(dir, other) == v.synthetic_child(dir, other)
            &&& after.workspaces == v.workspaces
            &&& after.live == v.live
            &&& after.next_slot == v.next_slot
            &&& after.mount_root == v.mount_root
            &&& after.storage_dir == v.storage_dir
        }),
{
    reveal(RootView::tied);
    let after = v.with_repo(name, url, objects, git_path, rows, connected);
    if repo_at(v.repos, name) is None {
        assert(after.repos.take(v.repos.len() as int) =~= v.repos);
        assert(!v.dirs.contains_key(v.next_synthetic));
    }
}

/// A new workspace goes to a repository that is there, under a name that is free in it.
/// An active one shows in the directory of the repository, at the root of its slot; a
/// pending one does not.
pub proof fn workspaces_are_registered(v: RootView, ws: WorkspaceView, other: Seq<char>, dir: InodeId)
    requires
        v.wf(),
        ws.slot < 0x100_0000,
    ensures
        ({
            let (after, r) = v.with_workspace(ws);
            let home = repo_at(v.repos, ws.repo);
            &&& r == Err::<(), ErrView>(ErrView::NotFound) <==> home is None
            &&& r == Err::<(), ErrView>(ErrView::AlreadyExists) <==> home is Some && workspace_at(
                v.workspaces,
                ws.repo,
                ws.name,
            ) is Some
            &&& r is Ok <==> home is Some && workspace_at(v.workspaces, ws.repo, ws.name) is None
            &&& r is Err ==> after == v
            &&& r is Ok ==> {
                let at = v.repos[home->0].inode;
                &&& after.workspaces == v.workspaces.push(ws)
                &&& after.next_slot > ws.slot
                &&& after.next_slot >= v.next_slot
                &&& after.next_slot == v.next_slot || after.next_slot == ws.slot + 1
                &&& after.repos == v.repos
                &&& after.live == v.live
                &&& after.next_synthetic == v.next_synthetic
                &&& ws.state == WorkspaceState::Active ==> after.synthetic_child(at, ws.name) == Ok::<
                    InodeId,
                    ErrView,
                >(global(ws.slot, ROOT_INODE))
                &&& ws.state == WorkspaceState::Pending ==> after.dirs == v.dirs
                &&& dir != at || other != ws.name ==> after.synthetic_child(dir, other)
                    == v.synthetic_child(dir, other)
            }
        }),
{
    reveal(RootView::tied);
    lemma_repo_at(v.repos, ws.repo);
    if let Some(i) = repo_at(v.repos, ws.repo) {
        assert(v.dirs.contains_key(v.repos[i].inode));
    }
}

/// A pending workspace that is finished shows from then on; one that shows stays as it
/// is. Nothing else changes.
pub proof fn finished_workspaces_show(
    v: RootView,
    repo: Seq<char>,
    name: Seq<char>,
    other: Seq<char>,
    dir: InodeId,
)
    requires
        v.wf(),
    ensures
        ({
            let (after, r) = v.finalized(repo, name);
            &&& r is Ok <==> v.find(repo, name) is Some
            &&& r is Err ==> after == v && r == Err::<(), ErrView>(ErrView::NotFound)
            &&& r is Ok ==> {
                let i = v.find(repo, name)->0;
                let at = v.repos[repo_at(v.repos, repo)->0].inode;
                let ws = after.workspaces[i];
                &&& after.workspaces.len() == v.workspaces.len()
                &&& forall|j: int|
                    0 <= j < v.workspaces.len() && j != i ==> #[trigger] after.workspaces[j]
                        == v.workspaces[j]
                &&& ws.state == WorkspaceState::Active
                &&& ws.repo == repo && ws.name == name
                &&& ws.slot == v.workspaces[i].slot
                &&& ws.root_tree_id == v.workspaces[i].root_tree_id
                &&& ws.op_id == v.workspaces[i].op_id
                &&& ws.workspace_id == v.workspaces[i].workspace_id
                &&& after.synthetic_child(at, name) == Ok::<InodeId, ErrView>(
                    global(ws.slot, ROOT_INODE),
                )
                &&& v.workspaces[i].state == WorkspaceState::Active ==> after == v
                &&& dir != at || other != name ==> after.synthetic_child(dir, other)
                    == v.synthetic_child(dir, other)
                &&& after.repos == v.repos
                &&& after.live == v.live
                &&& after.next_slot == v.next_slot
                &&& after.next_synthetic == v.next_synthetic
            }
        }),
{
    reveal(RootView::tied);
    lemma_workspace_at(v.workspaces, repo, name);
    lemma_repo_at(v.repos, repo);
    if let Some(i) = v.find(repo, name) {
        assert(v.dirs.contains_key(v.repos[repo_at(v.repos, repo)->Some_0].inode));
        assert(v.workspaces[i].repo == repo);
    }
}

/// A workspace that is removed is gone, with its filesystem, and its slot is told; the
/// others are as before.
pub proof fn removed_workspaces_are_gone(
    v: RootView,
    repo: Seq<char>,
    name: Seq<char>,
    other: Seq<char>,
    dir: InodeId,
)
    requires
        v.wf(),
    ensures
        ({
            let (after, r) = v.without_workspace(repo, name);
            &&& r is Ok <==> v.find(repo, name) is Some
            &&& r is Err ==> after == v && r == Err::<u32, ErrView>(ErrView::NotFound)
            &&& r matches Ok(s) ==> {
                let i = v.find(repo, name)->0;
                let at = v.repos[repo_at(v.repos, repo)->0].inode;
                &&& s == v.workspaces[i].slot
                &&& after.workspaces == v.workspaces.remove(i)
                &&& after.find(repo, name) is None
                &&& after.live == v.live.remove(s)
                &&& after.synthetic_child(at, name) is Err
                &&& dir != at || other != name ==> after.synthetic_child(dir, other)
                    == v.synthetic_child(dir, other)
                &&& after.repos == v.repos
                &&& after.next_slot == v.next_slot
                &&& after.next_synthetic == v.next_synthetic
            }
        }),
{
    reveal(RootView::tied);
    lemma_workspace_at(v.workspaces, repo, name);
    lemma_repo_at(v.repos, repo);
    if let Some(i) = v.find(repo, name) {
        let after = v.without_workspace(repo, name).0;
        assert(v.dirs.contains_key(v.repos[repo_at(v.repos, repo)->Some_0].inode));
        lemma_workspace_at(after.workspaces, repo, name);
        if let Some(k) = workspace_at(after.workspaces, repo, name) {
            let j = if k < i {
                k
            } else {
                k + 1
            };
            assert(after.workspaces[k] == v.workspaces[j]);
            assert(v.workspaces[i].repo == repo && v.workspaces[j].repo == repo);
        }
    }
}

/// The list of repositories names each with its url and the workspaces of it that are
/// active.
pub proof fn repositories_are_listed(
    repos: Seq<RepoView>,
    workspaces: Seq<WorkspaceView>,
    i: int,
    name: Seq<char>,
)
    requires
        0 <= i < repos.len(),
    ensures
        repo_rows(repos, workspaces).len() == repos.len(),
        repo_rows(repos, workspaces)[i].0 == repos[i].name,
        repo_rows(repos, workspaces)[i].1 == repos[i].url,
        repo_rows(repos, workspaces)[i].2.contains(name) <==> exists|w: int|
            0 <= w < workspaces.len() && (#[trigger] workspaces[w]).repo == repos[i].name
                && workspaces[w].name == name && workspaces[w].state == WorkspaceState::Active,
{
    lemma_active_names(workspaces, repos[i].name, name);
}

proof fn lemma_active_names(workspaces: Seq<WorkspaceView>, repo: Seq<char>, name: Seq<char>)
    ensures
        active_names(workspaces, repo).contains(name) <==> exists|w: int|
            0 <= w < workspaces.len() && (#[trigger] workspaces[w]).repo == repo
                && workspaces[w].name == name && workspaces[w].state == WorkspaceState::Active,
    decreases workspaces.len(),
{
    if workspaces.len() > 0 {
        let front = workspaces.drop_last();
        let ws = workspaces.last();
        lemma_active_names(front, repo, name);
        let before = active_names(front, repo);
        let all = active_names(workspaces, repo);
        if all.contains(name) {
            let k = choose|k: int| 0 <= k < all.len() && all[k] == name;
            if k < before.len() {
                assert(before[k] == name);
                let w = choose|w: int|
                    0 <= w < front.len() && (#[trigger] front[w]).repo == repo && front[w].name
                        == name && front[w].state == WorkspaceState::Active;
                assert(workspaces[w] == front[w]);
            } else {
                assert(workspaces[workspaces.len() - 1].repo == repo);
            }
        }
        if exists|w: int|
            0 <= w < workspaces.len() && (#[trigger] workspaces[w]).repo == repo
                && workspaces[w].name == name && workspaces[w].state == WorkspaceState::Active {
            let w = choose|w: int|
                0 <= w < workspaces.len() && (#[trigger] workspaces[w]).repo == repo
                    && workspaces[w].name == name && workspaces[w].state == WorkspaceState::Active;
            if w < front.len() {
                assert(front[w] == workspaces[w]);
                let k = choose|k: int| 0 <= k < before.len() && before[k] == name;
                assert(all[k] == name);
            } else {
                assert(all[before.len() as int] == name);
            }
        }
    }
}

/// What is kept of a workspace across restarts are its state, its slot, its operation,
/// its id and its root tree.
pub proof fn workspaces_are_kept(ws: WorkspaceView)
    ensures
        kept(ws).state == ws.state,
        kept(ws).slot == ws.slot,
        kept(ws).op_id == ws.op_id,
        kept(ws).workspace_id == ws.workspace_id,
        kept(ws).root_tree_id == ws.root_tree_id,
{
}

/// The scratch directory is joined to the names of the workspace and its repository.
pub proof fn scratch_directories_are_joined(
    storage_dir: Seq<char>,
    repo: Seq<char>,
    workspace: Seq<char>,
)
    ensures
        scratch_path(storage_dir, repo, workspace) == joined(
            joined(joined(storage_dir, repo), workspace),
            "scratch"@,
        ),
{
}

/// A workspace has its scratch directory in its own directory below that of its
/// repository.
pub proof fn scratch_directories_have_their_place(
    storage_dir: Seq<char>,
    repo: Seq<char>,
    workspace: Seq<char>,
)
    requires
        storage_dir.len() > 0 && storage_dir.last() != '/',
        repo.len() > 0 && repo[0] != '/' && repo.last() != '/',
        workspace.len() > 0 && workspace[0] != '/' && workspace.last() != '/',
    ensures
        scratch_path(storage_dir, repo, workspace) == storage_dir + "/"@ + repo + "/"@ + workspace
            + "/"@ + "scratch"@,
{
    reveal_strlit("/");
    reveal_strlit("scratch");
    assert(scratch_path(storage_dir, repo, workspace) =~= storage_dir + "/"@ + repo + "/"@
        + workspace + "/"@ + "scratch"@);
}

// ---- the directories of the mount ------------------------------------------

/// The directories of the mount itself only show what is registered: they have the
/// attributes of a directory, hold no bytes and no target, and nothing can be made,
/// changed, moved or removed in them.
pub proof fn mount_directories_only_show(
    v: RootView,
    ino: InodeId,
    name: Seq<char>,
    other: InodeId,
    new_name: Seq<char>,
    offset: u64,
    count: u32,
    data: Seq<u8>,
    size: Option<u64>,
    bit: Option<bool>,
    executable: bool,
    target: Seq<char>,
    fault: Option<Seq<char>>,
    tree: Id,
    mtime: i64,
)
    requires
        v.wf(),
        ino < 0x100_0000_0000,
    ensures
        RootFs::getattr_step(v, ino).0 == v,
        is_directory(v, ino) <==> RootFs::getattr_step(v, ino).1 is Ok,
        RootFs::getattr_step(v, ino).1 matches Ok(attr) ==> attr.inode == ino && attr.kind
            == FileKind::Directory && attr.size == 0 && !attr.executable && attr.mtime_secs == 0,
        RootFs::getattr_step(v, ino).1 matches Err(e) ==> e == ErrView::NotFound,
        RootFs::lookup_step(v, ino, name) == (v, v.synthetic_child(ino, name)),
        RootFs::readdir_step(v, ino) == (v, v.synthetic_listing(ino)),
        RootFs::read_step(v, ino, offset, count) == (
            v,
            Err::<(Seq<u8>, bool), ErrView>(ErrView::NotAFile),
        ),
        RootFs::readlink_step(v, ino) == (v, Err::<Seq<char>, ErrView>(ErrView::NotASymlink)),
        RootFs::redirect_step(v, ino, name) == (v, None::<Seq<char>>),
        RootFs::write_step(v, ino, offset, data) == (
            v,
            Err::<u32, ErrView>(ErrView::PermissionDenied),
        ),
        RootFs::setattr_step(v, ino, size, bit) == (
            v,
            Err::<Attr, ErrView>(ErrView::PermissionDenied),
        ),
        RootFs::remove_step(v, ino, name) == (v, Err::<(), ErrView>(ErrView::PermissionDenied)),
        RootFs::create_step(v, ino, name, executable) == (
            v,
            Err::<(InodeId, Attr), ErrView>(ErrView::PermissionDenied),
        ),
        RootFs::mkdir_step(v, ino, name, fault) == (
            v,
            Err::<(InodeId, Attr), ErrView>(ErrView::PermissionDenied),
        ),
        RootFs::symlink_step(v, ino, name, target) == (
            v,
            Err::<(InodeId, Attr), ErrView>(ErrView::PermissionDenied),
        ),
        RootFs::rename_step(v, ino, name, other, new_name) == (
            v,
            Err::<(), ErrView>(
                if other < 0x100_0000_0000 {
                    ErrView::PermissionDenied
                } else {
                    ErrView::CrossDevice
                },
            ),
        ),
        RootFs::check_out_step(v, tree, mtime) == (
            v,
            Err::<(), ErrView>(ErrView::PermissionDenied),
        ),
{
    inodes_carry_their_slot(ino, 0, 0);
    inodes_carry_their_slot(other, 0, 0);
    assert(v.dirs.contains_key(ino) == is_directory(v, ino)) by {
        reveal(RootView::tied);
    }
}

/// A request for a slot without a filesystem makes the filesystem of the workspace in
/// that slot first and then does what it does where there is one. Without such a
/// workspace nothing is found, and nothing changes.
pub proof fn requests_make_the_filesystem_first(
    v: RootView,
    s: u32,
    ino: InodeId,
    name: Seq<char>,
    new_parent: InodeId,
    new_name: Seq<char>,
    offset: u64,
    count: u32,
    data: Seq<u8>,
    size: Option<u64>,
    bit: Option<bool>,
    executable: bool,
    target: Seq<char>,
    fault: Option<Seq<char>>,
)
    requires
        v.wf(),
        slot(ino) == s,
        slot(new_parent) == s,
        s != 0,
        !v.live.contains_key(s),
    ensures
        ({
            let (w, r) = v.hydrated(s);
            &&& r is Ok <==> workspace_in(v.workspaces, s) is Some
            &&& r is Ok ==> {
                &&& w == v.hydrated_at(workspace_in(v.workspaces, s)->0).0
                &&& w.live.contains_key(s)
                &&& RootFs::lookup_step(v, ino, name) == RootFs::lookup_step(w, ino, name)
                &&& RootFs::getattr_step(v, ino) == RootFs::getattr_step(w, ino)
                &&& RootFs::read_step(v, ino, offset, count) == RootFs::read_step(
                    w,
                    ino,
                    offset,
                    count,
                )
                &&& RootFs::readdir_step(v, ino) == RootFs::readdir_step(w, ino)
                &&& RootFs::readlink_step(v, ino) == RootFs::readlink_step(w, ino)
                &&& RootFs::redirect_step(v, ino, name) == RootFs::redirect_step(w, ino, name)
                &&& RootFs::write_step(v, ino, offset, data) == RootFs::write_step(
                    w,
                    ino,
                    offset,
                    data,
                )
                &&& RootFs::setattr_step(v, ino, size, bit) == RootFs::setattr_step(
                    w,
                    ino,
                    size,
                    bit,
                )
                &&& RootFs::remove_step(v, ino, name) == RootFs::remove_step(w, ino, name)
                &&& RootFs::create_step(v, ino, name, executable) == RootFs::create_step(
                    w,
                    ino,
                    name,
                    executable,
                )
                &&& RootFs::mkdir_step(v, ino, name, fault) == RootFs::mkdir_step(
                    w,
                    ino,
                    name,
                    fault,
                )
                &&& RootFs::symlink_step(v, ino, name, target) == RootFs::symlink_step(
                    w,
                    ino,
                    name,
                    target,
                )
                &&& RootFs::rename_step(v, ino, name, new_parent, new_name) == RootFs::rename_step(
                    w,
                    ino,
                    name,
                    new_parent,
                    new_name,
                )
            }
            &&& r is Err ==> {
                &&& w == v
                &&& RootFs::lookup_step(v, ino, name) == (
                    v,
                    Err::<InodeId, ErrView>(ErrView::NotFound),
                )
                &&& RootFs::getattr_step(v, ino) == (v, Err::<Attr, ErrView>(ErrView::NotFound))
                &&& RootFs::read_step(v, ino, offset, count) == (
                    v,
                    Err::<(Seq<u8>, bool), ErrView>(ErrView::NotFound),
                )
                &&& RootFs::readdir_step(v, ino) == (
                    v,
                    Err::<Seq<DirEntryView>, ErrView>(ErrView::NotFound),
                )
                &&& RootFs::write_step(v, ino, offset, data) == (
                    v,
                    Err::<u32, ErrView>(ErrView::NotFound),
                )
                &&& RootFs::remove_step(v, ino, name) == (
                    v,
                    Err::<(), ErrView>(ErrView::NotFound),
                )
                &&& RootFs::create_step(v, ino, name, executable) == (
                    v,
                    Err::<(InodeId, Attr), ErrView>(ErrView::NotFound),
                )
            }
        }),
{
    reveal(RootView::tied);
    lemma_workspace_in(v.workspaces, s);
    if let Some(i) = workspace_in(v.workspaces, s) {
        assert(repo_at(v.repos, v.workspaces[i].repo) is Some);
    }
}

/// The objects of a repository are changed for it alone.
pub proof fn objects_of_one_repository_change(v: RootView, i: int, objects: Objects, j: int)
    requires
        0 <= i < v.repos.len(),
        0 <= j < v.repos.len(),
    ensures
        ({
            let after = v.with_objects(i, objects);
            &&& after.repos.len() == v.repos.len()
            &&& after.repos[i].objects == objects
            &&& after.repos[i].rows == v.repos[i].rows
            &&& after.repos[i].name == v.repos[i].name
            &&& after.repos[i].url == v.repos[i].url
            &&& after.repos[i].inode == v.repos[i].inode
            &&& after.repos[i].connected == v.repos[i].connected
            &&& after.repos[i].git_path == v.repos[i].git_path
            &&& j != i ==> after.repos[j] == v.repos[j]
            &&& after.workspaces == v.workspaces
            &&& after.live == v.live
            &&& after.dirs == v.dirs
            &&& after.next_slot == v.next_slot
        }),
{
}

} // verus!
