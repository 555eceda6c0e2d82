//! Many workspaces behind one mount.
//!
//! A synthetic namespace `/<repo>/<workspace>/` leads into the filesystems of
//! the workspaces. An inode of the mount carries the slot of its workspace in
//! its upper bits; slot 0 is that of the synthetic directories. The filesystem
//! of a workspace is made when it is first needed.
use std::collections::HashMap;
use vstd::prelude::*;
use crate::git_store::{GitContentStore, Objects, EMPTY_TREE};
use crate::remote::CasOutcome;
use crate::store::{cas_view, slice_in, swapped, Rows, Store, StoreFailure};
use crate::text::{copy_bytes, join_path, joined, same_str};
use crate::ty::Id;
use crate::vfs::inode::{InodeId, ROOT_INODE};
use crate::vfs::kiki_fs::{snapshotted, JjKikiFs, KikiState, KikiView};
use crate::vfs::name_map::{in_order, NameMap};
use crate::vfs::tree_ops::{attr_result, read_result, readlink_result};
use crate::vfs::types::{
    listing_view, outcome, Attr, DirEntry, DirEntryView, ErrView, FileKind, FsError,
};
use crate::vfs::inode::NodeView;

verus! {

broadcast use {vstd::string::group_string_axioms, vstd::std_specs::hash::group_hash_axioms};

// ---- inodes of the mount -----------------------------------------------------------

/// How many bits of an inode its workspace uses.
pub const SLOT_BITS: u32 = 40;

/// The bits that a workspace uses.
pub const SLOT_MASK: u64 = 0xff_ffff_ffff;

/// Slots lie below this: an inode has room for no more.
pub const SLOT_LIMIT: u32 = 0x100_0000;

/// The slot of an inode.
pub open spec fn slot(ino: InodeId) -> u32 {
    (ino >> 40) as u32
}

/// The inode inside its workspace.
pub open spec fn local(ino: InodeId) -> InodeId {
    ino & 0xff_ffff_ffff
}

/// The inode of the mount for an inode of the workspace in a slot.
pub open spec fn global(slot: u32, local: InodeId) -> InodeId {
    ((slot as u64) << 40) | local
}

/// The slot of an inode.
pub fn slot_of(ino: InodeId) -> (r: u32)
    ensures
        r == slot(ino),
{
    (ino >> SLOT_BITS) as u32
}

/// The inode inside its workspace.
pub fn to_local(ino: InodeId) -> (r: InodeId)
    ensures
        r == local(ino),
{
    ino & SLOT_MASK
}

/// The inode of the mount for an inode of a workspace.
pub fn to_global(slot: u32, local: InodeId) -> (r: InodeId)
    ensures
        r == global(slot, local),
{
    ((slot as u64) << SLOT_BITS) | local
}

/// The attributes of the mount for those of a workspace.
pub open spec fn global_attr(slot: u32, attr: Attr) -> Attr {
    Attr { inode: global(slot, attr.inode), ..attr }
}

/// The attributes of the mount for those of a workspace.
pub fn attr_to_global(slot: u32, attr: Attr) -> (r: Attr)
    ensures
        r == global_attr(slot, attr),
{
    Attr { inode: to_global(slot, attr.inode), ..attr }
}

/// A slot and an inode of its workspace survive being put together.
pub proof fn inode_round_trip(s: u32, l: InodeId)
    requires
        s < 0x100_0000,
        l < 0x100_0000_0000,
    ensures
        slot(global(s, l)) == s,
        local(global(s, l)) == l,
{
    assert(((((s as u64) << 40) | l) >> 40) as u32 == s) by (bit_vector)
        requires
            s < 0x100_0000,
            l < 0x100_0000_0000,
    ;
    assert((((s as u64) << 40) | l) & 0xff_ffff_ffff == l) by (bit_vector)
        requires
            s < 0x100_0000,
            l < 0x100_0000_0000,
    ;
}

/// Different inodes of the mount stand for different slots or inodes.
pub proof fn inodes_are_distinct(s: u32, l: InodeId, other_slot: u32, other: InodeId)
    requires
        s < 0x100_0000,
        l < 0x100_0000_0000,
        other_slot < 0x100_0000,
        other < 0x100_0000_0000,
        global(s, l) == global(other_slot, other),
    ensures
        s == other_slot,
        l == other,
{
    inode_round_trip(s, l);
    inode_round_trip(other_slot, other);
}

/// Small inodes are synthetic.
pub proof fn synthetic_inodes_have_no_slot(ino: InodeId)
    requires
        ino < 0x100_0000_0000,
    ensures
        slot(ino) == 0,
        local(ino) == ino,
{
    assert((ino >> 40) as u32 == 0) by (bit_vector)
        requires
            ino < 0x100_0000_0000,
    ;
    assert(ino & 0xff_ffff_ffff == ino) by (bit_vector)
        requires
            ino < 0x100_0000_0000,
    ;
}

// ---- repositories and workspaces -------------------------------------------------------

/// The life of a workspace.
#[derive(Debug, Clone, Copy, PartialEq, Eq, Structural)]
pub enum WorkspaceState {
    /// Registered, and not shown yet.
    Pending,
    Active,
}

/// What registering a workspace takes.
#[derive(Debug)]
pub struct WorkspaceRegistration {
    pub name: String,
    pub slot: u32,
    pub state: WorkspaceState,
    pub root_tree_id: Vec<u8>,
    pub op_id: Vec<u8>,
    pub workspace_id: Vec<u8>,
}

/// What is kept of a workspace across restarts.
#[derive(Debug, PartialEq, Eq)]
pub struct WorkspaceConfig {
    pub state: WorkspaceState,
    pub slot: u32,
    pub op_id: Vec<u8>,
    pub workspace_id: Vec<u8>,
    pub root_tree_id: Vec<u8>,
}

/// A workspace of a repository.
#[derive(Debug)]
struct Workspace {
    repo: String,
    name: String,
    slot: u32,
    state: WorkspaceState,
    root_tree_id: Vec<u8>,
    op_id: Vec<u8>,
    workspace_id: Vec<u8>,
}

/// The value of a workspace.
#[verifier::ext_equal]
pub struct WorkspaceView {
    pub repo: Seq<char>,
    pub name: Seq<char>,
    pub slot: u32,
    pub state: WorkspaceState,
    pub root_tree_id: Seq<u8>,
    pub op_id: Seq<u8>,
    pub workspace_id: Seq<u8>,
}

impl View for Workspace {
    type V = WorkspaceView;

    closed spec fn view(&self) -> WorkspaceView {
        WorkspaceView {
            repo: self.repo@,
            name: self.name@,
            slot: self.slot,
            state: self.state,
            root_tree_id: self.root_tree_id@,
            op_id: self.op_id@,
            workspace_id: self.workspace_id@,
        }
    }
}

/// A repository, whose workspaces share its content store, its refs and its remote.
#[derive(Debug)]
struct Repo {
    name: String,
    url: String,
    inode: InodeId,
    store: GitContentStore,
    refs: Store,
    connected: bool,
}

/// The value of a repository.
pub struct RepoView {
    pub name: Seq<char>,
    pub url: Seq<char>,
    pub inode: InodeId,
    pub objects: Objects,
    pub git_path: Seq<char>,
    /// The rows of its database, the refs among them.
    pub rows: Rows,
    /// Whether it has a remote.
    pub connected: bool,
}

impl View for Repo {
    type V = RepoView;

    closed spec fn view(&self) -> RepoView {
        RepoView {
            name: self.name@,
            url: self.url@,
            inode: self.inode,
            objects: self.store@,
            git_path: self.store.path(),
            rows: self.refs@,
            connected: self.connected,
        }
    }
}

/// A workspace whose filesystem was made.
#[derive(Debug)]
struct Live {
    repo: String,
    fs: KikiState,
}

/// The value of a live workspace.
#[verifier::ext_equal]
pub struct LiveView {
    pub repo: Seq<char>,
    pub tree: KikiView,
}

impl View for Live {
    type V = LiveView;

    closed spec fn view(&self) -> LiveView {
        LiveView { repo: self.repo@, tree: self.fs@ }
    }
}

/// The first repository of a name.
pub open spec fn repo_at(repos: Seq<RepoView>, name: Seq<char>) -> Option<int>
    decreases repos.len(),
{
    if repos.len() == 0 {
        None
    } else {
        match repo_at(repos.drop_last(), name) {
            Some(i) => Some(i),
            None => if repos.last().name == name {
                Some(repos.len() - 1)
            } else {
                None
            },
        }
    }
}

/// The first workspace of a repository and name.
pub open spec fn workspace_at(
    workspaces: Seq<WorkspaceView>,
    repo: Seq<char>,
    name: Seq<char>,
) -> Option<int>
    decreases workspaces.len(),
{
    if workspaces.len() == 0 {
        None
    } else {
        match workspace_at(workspaces.drop_last(), repo, name) {
            Some(i) => Some(i),
            None => if workspaces.last().repo == repo && workspaces.last().name == name {
                Some(workspaces.len() - 1)
            } else {
                None
            },
        }
    }
}

/// The first workspace in a slot.
pub open spec fn workspace_in(workspaces: Seq<WorkspaceView>, slot: u32) -> Option<int>
    decreases workspaces.len(),
{
    if workspaces.len() == 0 {
        None
    } else {
        match workspace_in(workspaces.drop_last(), slot) {
            Some(i) => Some(i),
            None => if workspaces.last().slot == slot {
                Some(workspaces.len() - 1)
            } else {
                None
            },
        }
    }
}

pub proof fn lemma_repo_at(repos: Seq<RepoView>, name: Seq<char>)
    ensures
        match repo_at(repos, name) {
            Some(i) => 0 <= i < repos.len() && repos[i].name == name,
            None => forall|i: int| 0 <= i < repos.len() ==> (#[trigger] repos[i]).name != name,
        },
    decreases repos.len(),
{
    if repos.len() > 0 {
        lemma_repo_at(repos.drop_last(), name);
        assert forall|i: int| 0 <= i < repos.len() - 1 implies repos.drop_last()[i]
            == #[trigger] repos[i] by {}
    }
}

proof fn lemma_repo_prefix(repos: Seq<RepoView>, n: int, name: Seq<char>)
    requires
        0 <= n <= repos.len(),
        repo_at(repos.take(n), name) is Some,
    ensures
        repo_at(repos, name) == repo_at(repos.take(n), name),
    decreases repos.len(),
{
    if n < repos.len() {
        assert(repos.drop_last().take(n) =~= repos.take(n));
        lemma_repo_prefix(repos.drop_last(), n, name);
    } else {
        assert(repos.take(n) =~= repos);
    }
}

pub proof fn lemma_workspace_at(workspaces: Seq<WorkspaceView>, repo: Seq<char>, name: Seq<char>)
    ensures
        match workspace_at(workspaces, repo, name) {
            Some(i) => 0 <= i < workspaces.len() && workspaces[i].repo == repo && workspaces[i].name
                == name,
            None => forall|i: int|
                0 <= i < workspaces.len() ==> (#[trigger] workspaces[i]).repo != repo
                    || workspaces[i].name != name,
        },
    decreases workspaces.len(),
{
    if workspaces.len() > 0 {
        lemma_workspace_at(workspaces.drop_last(), repo, name);
        assert forall|i: int| 0 <= i < workspaces.len() - 1 implies workspaces.drop_last()[i]
            == #[trigger] workspaces[i] by {}
    }
}

proof fn lemma_workspace_prefix(
    workspaces: Seq<WorkspaceView>,
    n: int,
    repo: Seq<char>,
    name: Seq<char>,
)
    requires
        0 <= n <= workspaces.len(),
        workspace_at(workspaces.take(n), repo, name) is Some,
    ensures
        workspace_at(workspaces, repo, name) == workspace_at(workspaces.take(n), repo, name),
    decreases workspaces.len(),
{
    if n < workspaces.len() {
        assert(workspaces.drop_last().take(n) =~= workspaces.take(n));
        lemma_workspace_prefix(workspaces.drop_last(), n, repo, name);
    } else {
        assert(workspaces.take(n) =~= workspaces);
    }
}

pub proof fn lemma_workspace_in(workspaces: Seq<WorkspaceView>, slot: u32)
    ensures
        match workspace_in(workspaces, slot) {
            Some(i) => 0 <= i < workspaces.len() && workspaces[i].slot == slot,
            None => forall|i: int|
                0 <= i < workspaces.len() ==> (#[trigger] workspaces[i]).slot != slot,
        },
    decreases workspaces.len(),
{
    if workspaces.len() > 0 {
        lemma_workspace_in(workspaces.drop_last(), slot);
        assert forall|i: int| 0 <= i < workspaces.len() - 1 implies workspaces.drop_last()[i]
            == #[trigger] workspaces[i] by {}
    }
}

proof fn lemma_slot_prefix(workspaces: Seq<WorkspaceView>, n: int, slot: u32)
    requires
        0 <= n <= workspaces.len(),
        workspace_in(workspaces.take(n), slot) is Some,
    ensures
        workspace_in(workspaces, slot) == workspace_in(workspaces.take(n), slot),
    decreases workspaces.len(),
{
    if n < workspaces.len() {
        assert(workspaces.drop_last().take(n) =~= workspaces.take(n));
        lemma_slot_prefix(workspaces.drop_last(), n, slot);
    } else {
        assert(workspaces.take(n) =~= workspaces);
    }
}

/// Where redirected directories of a workspace go.
pub open spec fn scratch_path(
    storage_dir: Seq<char>,
    repo: Seq<char>,
    workspace: Seq<char>,
) -> Seq<char> {
    joined(joined(joined(storage_dir, repo), workspace), "scratch"@)
}

/// Where redirected directories of a workspace go.
pub fn workspace_scratch_dir(storage_dir: &str, repo: &str, workspace: &str) -> (path: String)
    ensures
        path@ == scratch_path(storage_dir@, repo@, workspace@),
{
    let dir = join_path(storage_dir, repo);
    let dir = join_path(dir.as_str(), workspace);
    join_path(dir.as_str(), "scratch")
}

/// The tree that a recorded id stands for: an id of another length stands for
/// the empty tree.
pub open spec fn recorded_tree(id: Seq<u8>) -> Id {
    if id.len() == 20 {
        crate::git_store::id_of(id)
    } else {
        Id(EMPTY_TREE)
    }
}

/// The tree that a recorded id stands for.
pub fn tree_for(id: &Vec<u8>) -> (tree: Id)
    ensures
        tree == recorded_tree(id@),
{
    match Id::from_bytes(id.as_slice()) {
        Ok(tree) => {
            proof {
                crate::ty::id_ext(tree, crate::git_store::id_of(id@));
            }
            tree
        },
        Err(_) => Id(EMPTY_TREE),
    }
}

// ---- the mount ------------------------------------------------------------------------------

/// What a request for a workspace needs: the filesystem in the slot, which leads to
/// the objects and the refs of its repository, and whether there is a remote.
#[derive(Clone, Copy, Debug, PartialEq, Eq, Structural)]
pub struct WorkspaceHandle {
    pub slot: u32,
    pub connected: bool,
}

/// The value of the mount.
#[verifier::ext_equal]
pub struct RootView {
    pub mount_root: Seq<char>,
    pub storage_dir: Seq<char>,
    pub next_synthetic: InodeId,
    /// The children of each synthetic directory.
    pub dirs: Map<InodeId, Map<Seq<char>, InodeId>>,
    pub repos: Seq<RepoView>,
    pub workspaces: Seq<WorkspaceView>,
    /// The filesystems that were made, by slot.
    pub live: Map<u32, LiveView>,
    pub next_slot: u32,
}

impl RootView {
    /// The directories show what is registered. The root holds the repositories,
    /// each under its name; the directory of a repository holds its active
    /// workspaces, each at the root of its slot; there are no other directories.
    /// Names and inodes of repositories differ, every workspace belongs to a
    /// repository, and a live filesystem to the repository of a workspace in its
    /// slot.
    #[verifier::opaque]
    pub open spec fn tied(self) -> bool {
        &&& 2 <= self.next_synthetic
        &&& forall|k: InodeId| #[trigger]
            self.dirs.contains_key(k) ==> k < self.next_synthetic && (k == ROOT_INODE || exists|
                i: int,
            |
                0 <= i < self.repos.len() && (#[trigger] self.repos[i]).inode == k)
        &&& forall|i: int|
            0 <= i < self.repos.len() ==> {
                let repo = #[trigger] self.repos[i];
                &&& repo.inode != ROOT_INODE
                &&& repo_at(self.repos, repo.name) == Some(i)
                &&& self.dirs.contains_key(repo.inode)
                &&& self.dirs[ROOT_INODE].contains_key(repo.name)
                &&& self.dirs[ROOT_INODE][repo.name] == repo.inode
            }
        &&& forall|i: int, j: int|
            0 <= i < j < self.repos.len() ==> (#[trigger] self.repos[i]).inode != (
            #[trigger] self.repos[j]).inode
        &&& forall|name: Seq<char>| #[trigger]
            self.dirs[ROOT_INODE].contains_key(name) ==> repo_at(self.repos, name) is Some
        &&& forall|w: int|
            0 <= w < self.workspaces.len() ==> {
                let ws = #[trigger] self.workspaces[w];
                &&& repo_at(self.repos, ws.repo) is Some
                &&& ws.state == WorkspaceState::Active ==> {
                    let dir = self.dirs[self.repos[repo_at(self.repos, ws.repo)->0].inode];
                    dir.contains_key(ws.name) && dir[ws.name] == global(ws.slot, ROOT_INODE)
                }
            }
        &&& forall|i: int, name: Seq<char>|
            0 <= i < self.repos.len() && #[trigger] self.dirs[self.repos[i].inode].contains_key(
                name,
            ) ==> exists|w: int|
                {
                    &&& 0 <= w < self.workspaces.len()
                    &&& (#[trigger] self.workspaces[w]).repo == self.repos[i].name
                    &&& self.workspaces[w].name == name
                    &&& self.workspaces[w].state == WorkspaceState::Active
                }
        &&& forall|s: u32| #[trigger]
            self.live.contains_key(s) ==> exists|w: int|
                0 <= w < self.workspaces.len() && (#[trigger] self.workspaces[w]).slot == s
                    && self.workspaces[w].repo == self.live[s].repo
    }

    /// The mount is in order: every live filesystem is, and its repository is
    /// registered; every repository has its directory; workspaces differ in
    /// repository or name, with slots that fit into an inode and lie below the
    /// next one to be handed out; and the directories show what is registered.
    pub open spec fn wf(self) -> bool {
        &&& self.tied()
        &&& self.dirs.contains_key(ROOT_INODE)
        &&& forall|s: u32| #[trigger]
            self.live.contains_key(s) ==> self.live[s].tree.wf() && repo_at(
                self.repos,
                self.live[s].repo,
            ) is Some
        &&& forall|i: int|
            0 <= i < self.repos.len() ==> self.dirs.contains_key((#[trigger] self.repos[i]).inode)
        &&& forall|i: int|
            0 <= i < self.workspaces.len() ==> (#[trigger] self.workspaces[i]).slot
                < self.next_slot && self.workspaces[i].slot < SLOT_LIMIT
        &&& forall|i: int, j: int|
            0 <= i < j < self.workspaces.len() ==> (#[trigger] self.workspaces[i]).repo != (
            #[trigger] self.workspaces[j]).repo || self.workspaces[i].name
                != self.workspaces[j].name
    }

    /// A new mount without repositories.
    pub open spec fn fresh(
        mount_root: Seq<char>,
        storage_dir: Seq<char>,
        next_slot: u32,
    ) -> RootView {
        RootView {
            mount_root,
            storage_dir,
            next_synthetic: 2,
            dirs: Map::empty().insert(ROOT_INODE, Map::empty()),
            repos: seq![],
            workspaces: seq![],
            live: Map::empty(),
            next_slot,
        }
    }

    /// The directories with one more child.
    pub open spec fn with_dir_child(self, dir: InodeId, name: Seq<char>, ino: InodeId) -> RootView {
        if self.dirs.contains_key(dir) {
            RootView {
                dirs: self.dirs.insert(dir, self.dirs[dir].insert(name, ino)),
                ..self
            }
        } else {
            self
        }
    }

    /// The directories without a child.
    pub open spec fn without_dir_child(self, dir: InodeId, name: Seq<char>) -> RootView {
        if self.dirs.contains_key(dir) {
            RootView { dirs: self.dirs.insert(dir, self.dirs[dir].remove(name)), ..self }
        } else {
            self
        }
    }

    /// What registering a repository does. One that is there stays as it is.
    pub open spec fn with_repo(
        self,
        name: Seq<char>,
        url: Seq<char>,
        objects: Objects,
        git_path: Seq<char>,
        rows: Rows,
        connected: bool,
    ) -> RootView {
        if repo_at(self.repos, name) is Some {
            self
        } else {
            let inode = self.next_synthetic;
            let repo = RepoView { name, url, inode, objects, git_path, rows, connected };
            RootView {
                next_synthetic: (inode + 1) as InodeId,
                dirs: self.dirs.insert(inode, Map::empty()),
                repos: self.repos.push(repo),
                ..self
            }.with_dir_child(ROOT_INODE, name, inode)
        }
    }

    /// What registering a workspace does and gives. Only an active one shows.
    pub open spec fn with_workspace(self, ws: WorkspaceView) -> (RootView, Result<(), ErrView>) {
        match repo_at(self.repos, ws.repo) {
            None => (self, Err(ErrView::NotFound)),
            Some(i) => if workspace_at(self.workspaces, ws.repo, ws.name) is Some {
                (self, Err(ErrView::AlreadyExists))
            } else {
                let more = RootView {
                    workspaces: self.workspaces.push(ws),
                    next_slot: if ws.slot >= self.next_slot {
                        (ws.slot + 1) as u32
                    } else {
                        self.next_slot
                    },
                    ..self
                };
                (
                    if ws.state == WorkspaceState::Active {
                        more.with_dir_child(
                            self.repos[i].inode,
                            ws.name,
                            global(ws.slot, ROOT_INODE),
                        )
                    } else {
                        more
                    },
                    Ok(()),
                )
            },
        }
    }

    /// The position of a workspace, if its repository and the workspace are
    /// registered.
    pub open spec fn find(self, repo: Seq<char>, name: Seq<char>) -> Option<int> {
        if repo_at(self.repos, repo) is Some {
            workspace_at(self.workspaces, repo, name)
        } else {
            None
        }
    }

    /// The mount with another workspace at a position.
    pub open spec fn with_workspace_at(self, i: int, ws: WorkspaceView) -> RootView {
        RootView { workspaces: self.workspaces.update(i, ws), ..self }
    }

    /// What making a workspace visible does and gives.
    pub open spec fn finalized(self, repo: Seq<char>, name: Seq<char>) -> (
        RootView,
        Result<(), ErrView>,
    ) {
        match self.find(repo, name) {
            None => (self, Err(ErrView::NotFound)),
            Some(i) => {
                let ws = self.workspaces[i];
                if ws.state == WorkspaceState::Active {
                    (self, Ok(()))
                } else {
                    (
                        self.with_workspace_at(
                            i,
                            WorkspaceView { state: WorkspaceState::Active, ..ws },
                        ).with_dir_child(
                            self.repos[repo_at(self.repos, repo)->0].inode,
                            name,
                            global(ws.slot, ROOT_INODE),
                        ),
                        Ok(()),
                    )
                }
            },
        }
    }

    /// What removing a workspace does and gives: its slot, which is not used
    /// again.
    pub open spec fn without_workspace(self, repo: Seq<char>, name: Seq<char>) -> (
        RootView,
        Result<u32, ErrView>,
    ) {
        match self.find(repo, name) {
            None => (self, Err(ErrView::NotFound)),
            Some(i) => {
                let ws = self.workspaces[i];
                let fewer = RootView {
                    workspaces: self.workspaces.remove(i),
                    live: self.live.remove(ws.slot),
                    ..self
                };
                (
                    fewer.without_dir_child(
                        self.repos[repo_at(self.repos, repo)->0].inode,
                        name,
                    ),
                    Ok(ws.slot),
                )
            },
        }
    }

    /// The rows of the database of the repository of a live workspace.
    pub open spec fn rows_for(self, slot: u32) -> Rows {
        self.repos[repo_at(self.repos, self.live[slot].repo)->0].rows
    }

    /// The mount with other rows in the database of the repository of a live
    /// workspace.
    pub open spec fn with_rows_for(self, slot: u32, rows: Rows) -> RootView {
        let i = repo_at(self.repos, self.live[slot].repo)->0;
        RootView { repos: self.repos.update(i, RepoView { rows, ..self.repos[i] }), ..self }
    }

    /// The objects of the repository of a live workspace.
    pub open spec fn objects_for(self, slot: u32) -> Objects {
        self.repos[repo_at(self.repos, self.live[slot].repo)->0].objects
    }

    /// What making sure that the filesystem of the workspace at a position is
    /// there does and gives.
    pub open spec fn hydrated_at(self, i: int) -> (RootView, Result<(), ErrView>) {
        let ws = self.workspaces[i];
        if self.live.contains_key(ws.slot) {
            (self, Ok(()))
        } else {
            match repo_at(self.repos, ws.repo) {
                None => (self, Err(ErrView::NotFound)),
                Some(r) => {
                    let repo = self.repos[r];
                    let tree = KikiView::fresh(
                        repo.objects,
                        recorded_tree(ws.root_tree_id),
                        repo.git_path,
                        Some(scratch_path(self.storage_dir, ws.repo, ws.name)),
                        0,
                    );
                    (
                        RootView {
                            live: self.live.insert(ws.slot, LiveView { repo: ws.repo, tree }),
                            ..self
                        },
                        Ok(()),
                    )
                },
            }
        }
    }

    /// What making sure that the filesystem in a slot is there does and gives.
    pub open spec fn hydrated(self, slot: u32) -> (RootView, Result<(), ErrView>) {
        if self.live.contains_key(slot) {
            (self, Ok(()))
        } else {
            match workspace_in(self.workspaces, slot) {
                None => (self, Err(ErrView::NotFound)),
                Some(i) => self.hydrated_at(i),
            }
        }
    }

    /// The mount with another state of a live workspace.
    pub open spec fn with_tree(self, slot: u32, tree: KikiView) -> RootView {
        RootView {
            live: self.live.insert(slot, LiveView { tree, ..self.live[slot] }),
            ..self
        }
    }

    /// What asking for a workspace by name does and gives. A pending one is not
    /// found.
    pub open spec fn workspace(self, repo: Seq<char>, name: Seq<char>) -> (
        RootView,
        Result<WorkspaceHandle, ErrView>,
    ) {
        match self.find(repo, name) {
            None => (self, Err(ErrView::NotFound)),
            Some(i) => {
                let ws = self.workspaces[i];
                if ws.state == WorkspaceState::Pending {
                    (self, Err(ErrView::NotFound))
                } else {
                    let (v, r) = self.hydrated_at(i);
                    (
                        v,
                        match r {
                            Ok(()) => Ok(
                                WorkspaceHandle {
                                    slot: ws.slot,
                                    connected: self.repos[repo_at(self.repos, repo)->0].connected,
                                },
                            ),
                            Err(e) => Err(e),
                        },
                    )
                }
            },
        }
    }

    /// The attributes of a synthetic directory.
    pub open spec fn synthetic_attr(self, ino: InodeId) -> Result<Attr, ErrView> {
        if self.dirs.contains_key(ino) {
            Ok(
                Attr {
                    inode: ino,
                    kind: FileKind::Directory,
                    size: 0,
                    executable: false,
                    mtime_secs: 0,
                },
            )
        } else {
            Err(ErrView::NotFound)
        }
    }

    /// What a name in a synthetic directory leads to.
    pub open spec fn synthetic_child(self, dir: InodeId, name: Seq<char>) -> Result<
        InodeId,
        ErrView,
    > {
        if self.dirs.contains_key(dir) && self.dirs[dir].contains_key(name) {
            Ok(self.dirs[dir][name])
        } else {
            Err(ErrView::NotFound)
        }
    }

    /// The listing of a synthetic directory.
    pub open spec fn synthetic_listing(self, dir: InodeId) -> Result<Seq<DirEntryView>, ErrView> {
        if self.dirs.contains_key(dir) {
            let children = self.dirs[dir];
            Ok(
                in_order(children).map_values(
                    |name: Seq<char>|
                        DirEntryView { inode: children[name], name, kind: FileKind::Directory },
                ),
            )
        } else {
            Err(ErrView::NotFound)
        }
    }
}

/// The filesystem of the mount.
#[derive(Debug)]
pub struct RootFs {
    mount_root: String,
    storage_dir: String,
    next_synthetic: InodeId,
    dirs: HashMap<u64, NameMap<u64>>,
    repos: Vec<Repo>,
    workspaces: Vec<Workspace>,
    live: HashMap<u32, Live>,
    next_slot: u32,
}

impl View for RootFs {
    type V = RootView;

    closed spec fn view(&self) -> RootView {
        RootView {
            mount_root: self.mount_root@,
            storage_dir: self.storage_dir@,
            next_synthetic: self.next_synthetic,
            dirs: self.dirs@.map_values(|d: NameMap<u64>| d@),
            repos: self.repos@.map_values(|r: Repo| r@),
            workspaces: self.workspaces@.map_values(|w: Workspace| w@),
            live: self.live@.map_values(|l: Live| l@),
            next_slot: self.next_slot,
        }
    }
}

/// The state of a mount stays in order with live workspaces and repositories as
/// they were.
pub proof fn lemma_repos_kept(before: Seq<RepoView>, after: Seq<RepoView>, name: Seq<char>)
    requires
        repo_at(before, name) is Some,
        before.len() <= after.len(),
        after.take(before.len() as int) == before,
    ensures
        repo_at(after, name) == repo_at(before, name),
{
    lemma_repo_prefix(after, before.len() as int, name);
}

/// Repositories are found by name alone.
pub proof fn lemma_repo_names(a: Seq<RepoView>, b: Seq<RepoView>, name: Seq<char>)
    requires
        a.len() == b.len(),
        forall|i: int| 0 <= i < a.len() ==> (#[trigger] a[i]).name == b[i].name,
    ensures
        repo_at(a, name) == repo_at(b, name),
    decreases a.len(),
{
    if a.len() > 0 {
        assert forall|i: int| 0 <= i < a.len() - 1 implies (#[trigger] a.drop_last()[i]).name
            == b.drop_last()[i].name by {
            assert(a[i].name == b[i].name);
        }
        assert(a[a.len() - 1].name == b[b.len() - 1].name);
        lemma_repo_names(a.drop_last(), b.drop_last(), name);
    }
}

/// What the directories show depends on the names, the inodes and the states
/// alone, and on whose a live filesystem is.
proof fn lemma_tied_kept(before: RootView, after: RootView)
    requires
        before.tied(),
        after.dirs == before.dirs,
        after.next_synthetic == before.next_synthetic,
        after.repos.len() == before.repos.len(),
        forall|i: int|
            0 <= i < before.repos.len() ==> (#[trigger] after.repos[i]).name
                == before.repos[i].name && after.repos[i].inode == before.repos[i].inode,
        after.workspaces.len() == before.workspaces.len(),
        forall|w: int|
            0 <= w < before.workspaces.len() ==> {
                let ws = #[trigger] after.workspaces[w];
                &&& ws.repo == before.workspaces[w].repo
                &&& ws.name == before.workspaces[w].name
                &&& ws.state == before.workspaces[w].state
                &&& ws.slot == before.workspaces[w].slot
            },
        forall|s: u32| #[trigger]
            after.live.contains_key(s) ==> (before.live.contains_key(s) && after.live[s].repo
                == before.live[s].repo) || exists|w: int|
                0 <= w < before.workspaces.len() && (#[trigger] before.workspaces[w]).slot == s
                    && before.workspaces[w].repo == after.live[s].repo,
    ensures
        after.tied(),
{
    reveal(RootView::tied);
    assert forall|name: Seq<char>| #[trigger] repo_at(after.repos, name) == repo_at(
        before.repos,
        name,
    ) by {
        assert forall|i: int| 0 <= i < after.repos.len() implies (#[trigger] after.repos[i]).name
            == before.repos[i].name by {}
        lemma_repo_names(after.repos, before.repos, name);
    }
    assert forall|k: InodeId| #[trigger] after.dirs.contains_key(k) && k != ROOT_INODE implies exists|
        i: int,
    |
        0 <= i < after.repos.len() && (#[trigger] after.repos[i]).inode == k by {
        let i = choose|i: int|
            0 <= i < before.repos.len() && (#[trigger] before.repos[i]).inode == k;
        assert(after.repos[i].inode == k);
    }
    assert forall|w: int| 0 <= w < after.workspaces.len() implies {
        let ws = #[trigger] after.workspaces[w];
        &&& repo_at(after.repos, ws.repo) is Some
        &&& ws.state == WorkspaceState::Active ==> {
            let dir = after.dirs[after.repos[repo_at(after.repos, ws.repo)->0].inode];
            dir.contains_key(ws.name) && dir[ws.name] == global(ws.slot, ROOT_INODE)
        }
    } by {
        let ws = before.workspaces[w];
        lemma_repo_at(before.repos, ws.repo);
    }
    assert forall|i: int, name: Seq<char>|
        0 <= i < after.repos.len() && #[trigger] after.dirs[after.repos[i].inode].contains_key(
            name,
        ) implies exists|w: int|
        {
            &&& 0 <= w < after.workspaces.len()
            &&& (#[trigger] after.workspaces[w]).repo == after.repos[i].name
            &&& after.workspaces[w].name == name
            &&& after.workspaces[w].state == WorkspaceState::Active
        } by {
        assert(before.dirs[before.repos[i].inode].contains_key(name));
        let w = choose|w: int|
            {
                &&& 0 <= w < before.workspaces.len()
                &&& (#[trigger] before.workspaces[w]).repo == before.repos[i].name
                &&& before.workspaces[w].name == name
                &&& before.workspaces[w].state == WorkspaceState::Active
            };
        assert(after.workspaces[w].name == name);
    }
    assert forall|s: u32| #[trigger] after.live.contains_key(s) implies exists|w: int|
        0 <= w < after.workspaces.len() && (#[trigger] after.workspaces[w]).slot == s
            && after.workspaces[w].repo == after.live[s].repo by {
        let w = choose|w: int|
            0 <= w < before.workspaces.len() && (#[trigger] before.workspaces[w]).slot == s
                && before.workspaces[w].repo == after.live[s].repo;
        assert(after.workspaces[w].slot == s);
    }
}

proof fn lemma_repo_tied(
    v: RootView,
    name: Seq<char>,
    url: Seq<char>,
    objects: Objects,
    git_path: Seq<char>,
    rows: Rows,
    connected: bool,
)
    requires
        v.wf(),
        v.next_synthetic < u64::MAX,
        repo_at(v.repos, name) is None,
    ensures
        v.with_repo(name, url, objects, git_path, rows, connected).tied(),
{
    reveal(RootView::tied);
    let after = v.with_repo(name, url, objects, git_path, rows, connected);
    let n = v.repos.len() as int;
    lemma_repo_at(v.repos, name);
    assert(after.repos.take(n) =~= v.repos);
    assert(after.repos.drop_last() =~= v.repos);
    assert(after.repos[n].name == name && after.repos[n].inode == v.next_synthetic);
    assert forall|other: Seq<char>| repo_at(v.repos, other) is Some implies #[trigger] repo_at(
        after.repos,
        other,
    ) == repo_at(v.repos, other) by {
        lemma_repos_kept(v.repos, after.repos, other);
    }
    assert forall|i: int| 0 <= i < n implies after.repos[i] == #[trigger] v.repos[i] by {}
    assert(repo_at(after.repos, name) == Some(n));
    assert forall|k: InodeId| #[trigger] after.dirs.contains_key(k) && k != ROOT_INODE implies k
        < after.next_synthetic && exists|i: int|
        0 <= i < after.repos.len() && (#[trigger] after.repos[i]).inode == k by {
        if k == v.next_synthetic {
            assert(after.repos[n].inode == k);
        } else {
            assert(v.dirs.contains_key(k));
            let i = choose|i: int| 0 <= i < v.repos.len() && (#[trigger] v.repos[i]).inode == k;
            assert(after.repos[i].inode == k);
        }
    }
    assert forall|i: int| 0 <= i < after.repos.len() implies {
        let repo = #[trigger] after.repos[i];
        &&& repo.inode != ROOT_INODE
        &&& repo_at(after.repos, repo.name) == Some(i)
        &&& after.dirs.contains_key(repo.inode)
        &&& after.dirs[ROOT_INODE].contains_key(repo.name)
        &&& after.dirs[ROOT_INODE][repo.name] == repo.inode
    } by {
        if i < n {
            assert(after.repos[i] == v.repos[i]);
        }
    }
    assert forall|w: int| 0 <= w < after.workspaces.len() implies {
        let ws = #[trigger] after.workspaces[w];
        &&& repo_at(after.repos, ws.repo) is Some
        &&& ws.state == WorkspaceState::Active ==> {
            let dir = after.dirs[after.repos[repo_at(after.repos, ws.repo)->0].inode];
            dir.contains_key(ws.name) && dir[ws.name] == global(ws.slot, ROOT_INODE)
        }
    } by {
        let ws = v.workspaces[w];
        lemma_repo_at(v.repos, ws.repo);
        let r = repo_at(v.repos, ws.repo)->0;
        assert(v.dirs.contains_key(v.repos[r].inode));
        assert(after.repos[r] == v.repos[r]);
        assert(after.dirs[v.repos[r].inode] == v.dirs[v.repos[r].inode]);
    }
    assert forall|i: int, other: Seq<char>|
        0 <= i < after.repos.len() && #[trigger] after.dirs[after.repos[i].inode].contains_key(
            other,
        ) implies exists|w: int|
        {
            &&& 0 <= w < after.workspaces.len()
            &&& (#[trigger] after.workspaces[w]).repo == after.repos[i].name
            &&& after.workspaces[w].name == other
            &&& after.workspaces[w].state == WorkspaceState::Active
        } by {
        if i < n {
            assert(after.repos[i] == v.repos[i]);
            assert(v.dirs.contains_key(v.repos[i].inode));
            assert(v.dirs[v.repos[i].inode].contains_key(other));
        }
    }
}

proof fn lemma_workspace_tied(v: RootView, ws: WorkspaceView)
    requires
        v.wf(),
        v.with_workspace(ws).1 is Ok,
    ensures
        v.with_workspace(ws).0.tied(),
{
    reveal(RootView::tied);
    let after = v.with_workspace(ws).0;
    let n = v.workspaces.len() as int;
    lemma_repo_at(v.repos, ws.repo);
    lemma_workspace_at(v.workspaces, ws.repo, ws.name);
    assert(after.workspaces[n] == ws);
    assert forall|w: int| 0 <= w < n implies after.workspaces[w] == #[trigger] v.workspaces[w] by {}
    lemma_shown_more(v, after, n);
}

/// A workspace is shown that was not: the directories show what is registered.
proof fn lemma_shown_more(v: RootView, after: RootView, at: int)
    requires
        v.wf(),
        0 <= at < after.workspaces.len(),
        v.workspaces.len() <= after.workspaces.len(),
        forall|w: int|
            0 <= w < after.workspaces.len() && w != at ==> #[trigger] after.workspaces[w]
                == v.workspaces[w] && w < v.workspaces.len(),
        at < v.workspaces.len() ==> {
            &&& v.workspaces[at].repo == after.workspaces[at].repo
            &&& v.workspaces[at].name == after.workspaces[at].name
            &&& v.workspaces[at].slot == after.workspaces[at].slot
            &&& v.workspaces[at].state == WorkspaceState::Pending
        },
        forall|w: int|
            0 <= w < after.workspaces.len() && w != at ==> (#[trigger] after.workspaces[w]).repo
                != after.workspaces[at].repo || after.workspaces[w].name
                != after.workspaces[at].name,
        repo_at(v.repos, after.workspaces[at].repo) is Some,
        after.repos == v.repos,
        after.live == v.live,
        after.next_synthetic == v.next_synthetic,
        after.dirs == if after.workspaces[at].state == WorkspaceState::Active {
            let dir = v.repos[repo_at(v.repos, after.workspaces[at].repo)->0].inode;
            v.dirs.insert(
                dir,
                v.dirs[dir].insert(
                    after.workspaces[at].name,
                    global(after.workspaces[at].slot, ROOT_INODE),
                ),
            )
        } else {
            v.dirs
        },
    ensures
        after.tied(),
{
    reveal(RootView::tied);
    let ws = after.workspaces[at];
    lemma_repo_at(v.repos, ws.repo);
    let r = repo_at(v.repos, ws.repo)->0;
    assert(v.dirs.contains_key(v.repos[r].inode));
    assert forall|w: int| 0 <= w < after.workspaces.len() implies {
        let other = #[trigger] after.workspaces[w];
        &&& repo_at(after.repos, other.repo) is Some
        &&& other.state == WorkspaceState::Active ==> {
            let dir = after.dirs[after.repos[repo_at(after.repos, other.repo)->0].inode];
            dir.contains_key(other.name) && dir[other.name] == global(other.slot, ROOT_INODE)
        }
    } by {
        let other = after.workspaces[w];
        if w != at {
            assert(other == v.workspaces[w]);
            lemma_repo_at(v.repos, other.repo);
            let o = repo_at(v.repos, other.repo)->0;
            assert(v.repos[o].inode == v.repos[r].inode ==> o == r);
        }
    }
    assert forall|i: int, name: Seq<char>|
        0 <= i < after.repos.len() && #[trigger] after.dirs[after.repos[i].inode].contains_key(
            name,
        ) implies exists|w: int|
        {
            &&& 0 <= w < after.workspaces.len()
            &&& (#[trigger] after.workspaces[w]).repo == after.repos[i].name
            &&& after.workspaces[w].name == name
            &&& after.workspaces[w].state == WorkspaceState::Active
        } by {
        assert(v.repos[i].inode == v.repos[r].inode ==> i == r);
        if i == r && name == ws.name && ws.state == WorkspaceState::Active {
            assert(after.workspaces[at].name == name);
        } else {
            assert(v.dirs[v.repos[i].inode].contains_key(name));
            let w = choose|w: int|
                {
                    &&& 0 <= w < v.workspaces.len()
                    &&& (#[trigger] v.workspaces[w]).repo == v.repos[i].name
                    &&& v.workspaces[w].name == name
                    &&& v.workspaces[w].state == WorkspaceState::Active
                };
            assert(w != at);
            assert(after.workspaces[w] == v.workspaces[w]);
        }
    }
    assert forall|s: u32| #[trigger] after.live.contains_key(s) implies exists|w: int|
        0 <= w < after.workspaces.len() && (#[trigger] after.workspaces[w]).slot == s
            && after.workspaces[w].repo == after.live[s].repo by {
        let w = choose|w: int|
            0 <= w < v.workspaces.len() && (#[trigger] v.workspaces[w]).slot == s
                && v.workspaces[w].repo == v.live[s].repo;
        if w != at {
            assert(after.workspaces[w] == v.workspaces[w]);
        } else {
            assert(after.workspaces[at].slot == s);
        }
    }
}

proof fn lemma_finalized_tied(v: RootView, repo: Seq<char>, name: Seq<char>)
    requires
        v.wf(),
        v.finalized(repo, name).1 is Ok,
    ensures
        v.finalized(repo, name).0.tied(),
{
    lemma_workspace_at(v.workspaces, repo, name);
    let at = v.find(repo, name)->0;
    let after = v.finalized(repo, name).0;
    if v.workspaces[at].state != WorkspaceState::Active {
        lemma_repo_at(v.repos, repo);
        assert forall|w: int| 0 <= w < after.workspaces.len() && w != at implies (
        #[trigger] after.workspaces[w]).repo != after.workspaces[at].repo
            || after.workspaces[w].name != after.workspaces[at].name by {
            assert(after.workspaces[w] == v.workspaces[w]);
            assert(v.workspaces[at].repo == repo);
        }
        lemma_shown_more(v, after, at);
    }
}

proof fn lemma_removed_tied(v: RootView, repo: Seq<char>, name: Seq<char>)
    requires
        v.wf(),
        v.without_workspace(repo, name).1 is Ok,
    ensures
        v.without_workspace(repo, name).0.tied(),
{
    reveal(RootView::tied);
    lemma_workspace_at(v.workspaces, repo, name);
    lemma_repo_at(v.repos, repo);
    let at = v.find(repo, name)->0;
    let gone = v.workspaces[at];
    let after = v.without_workspace(repo, name).0;
    let r = repo_at(v.repos, repo)->0;
    assert(v.dirs.contains_key(v.repos[r].inode));
    assert forall|w: int| 0 <= w < after.workspaces.len() implies #[trigger] after.workspaces[w]
        == v.workspaces[if w < at { w } else { w + 1 }] by {}
    assert forall|w: int| 0 <= w < v.workspaces.len() && w != at implies (
    #[trigger] v.workspaces[w]) == after.workspaces[if w < at { w } else { w - 1 }] by {}
    assert forall|w: int| 0 <= w < after.workspaces.len() implies {
        let other = #[trigger] after.workspaces[w];
        &&& repo_at(after.repos, other.repo) is Some
        &&& other.state == WorkspaceState::Active ==> {
            let dir = after.dirs[after.repos[repo_at(after.repos, other.repo)->0].inode];
            dir.contains_key(other.name) && dir[other.name] == global(other.slot, ROOT_INODE)
        }
    } by {
        let old_w = if w < at { w } else { w + 1 };
        let other = v.workspaces[old_w];
        assert(after.workspaces[w] == other);
        assert(other.repo != gone.repo || other.name != gone.name);
        lemma_repo_at(v.repos, other.repo);
        let o = repo_at(v.repos, other.repo)->0;
        assert(v.repos[o].inode == v.repos[r].inode ==> o == r);
    }
    assert forall|i: int, other: Seq<char>|
        0 <= i < after.repos.len() && #[trigger] after.dirs[after.repos[i].inode].contains_key(
            other,
        ) implies exists|w: int|
        {
            &&& 0 <= w < after.workspaces.len()
            &&& (#[trigger] after.workspaces[w]).repo == after.repos[i].name
            &&& after.workspaces[w].name == other
            &&& after.workspaces[w].state == WorkspaceState::Active
        } by {
        assert(v.repos[i].inode == v.repos[r].inode ==> i == r);
        assert(v.dirs[v.repos[i].inode].contains_key(other));
        let w = choose|w: int|
            {
                &&& 0 <= w < v.workspaces.len()
                &&& (#[trigger] v.workspaces[w]).repo == v.repos[i].name
                &&& v.workspaces[w].name == other
                &&& v.workspaces[w].state == WorkspaceState::Active
            };
        assert(w != at);
        assert(v.workspaces[w] == after.workspaces[if w < at { w } else { w - 1 }]);
    }
    assert forall|s: u32| #[trigger] after.live.contains_key(s) implies exists|w: int|
        0 <= w < after.workspaces.len() && (#[trigger] after.workspaces[w]).slot == s
            && after.workspaces[w].repo == after.live[s].repo by {
        assert(v.live.contains_key(s));
        let w = choose|w: int|
            0 <= w < v.workspaces.len() && (#[trigger] v.workspaces[w]).slot == s
                && v.workspaces[w].repo == v.live[s].repo;
        assert(w != at);
        assert(v.workspaces[w] == after.workspaces[if w < at { w } else { w - 1 }]);
    }
}

impl RootFs {
    /// Make a mount without repositories.
    pub fn new(mount_root: String, storage_dir: String, next_slot: u32) -> (fs: RootFs)
        ensures
            fs@ == RootView::fresh(mount_root@, storage_dir@, next_slot),
            fs.in_order(),
    {
        let mut dirs: HashMap<u64, NameMap<u64>> = HashMap::new();
        dirs.insert(ROOT_INODE, NameMap::new());
        let fs = RootFs {
            mount_root,
            storage_dir,
            next_synthetic: 2,
            dirs,
            repos: Vec::new(),
            workspaces: Vec::new(),
            live: HashMap::new(),
            next_slot,
        };
        proof {
            let fresh = RootView::fresh(mount_root@, storage_dir@, next_slot);
            assert(fs@.dirs =~= fresh.dirs);
            assert(fs@.repos =~= fresh.repos);
            assert(fs@.workspaces =~= fresh.workspaces);
            assert(fs@.live =~= fresh.live);
            reveal(RootView::tied);
        }
        fs
    }

    fn repo_index(&self, name: &str) -> (r: Option<usize>)
        ensures
            match r {
                Some(i) => i < self.repos@.len() && repo_at(self@.repos, name@) == Some(i as int),
                None => repo_at(self@.repos, name@) is None,
            },
    {
        let ghost all = self@.repos;
        let mut i: usize = 0;
        while i < self.repos.len()
            invariant
                i <= self.repos@.len(),
                all == self@.repos,
                all == self.repos@.map_values(|r: Repo| r@),
                repo_at(all.take(i as int), name@) is None,
            decreases self.repos@.len() - i,
        {
            proof {
                assert(all.take(i + 1).drop_last() =~= all.take(i as int));
                assert(all.take(i + 1).last() == self.repos@[i as int]@);
            }
            if same_str(self.repos[i].name.as_str(), name) {
                proof {
                    lemma_repo_prefix(all, i + 1, name@);
                }
                return Some(i);
            }
            i = i + 1;
        }
        assert(all.take(i as int) =~= all);
        None
    }

    fn workspace_index(&self, repo: &str, name: &str) -> (r: Option<usize>)
        ensures
            match r {
                Some(i) => i < self.workspaces@.len() && workspace_at(
                    self@.workspaces,
                    repo@,
                    name@,
                ) == Some(i as int),
                None => workspace_at(self@.workspaces, repo@, name@) is None,
            },
    {
        let ghost all = self@.workspaces;
        let mut i: usize = 0;
        while i < self.workspaces.len()
            invariant
                i <= self.workspaces@.len(),
                all == self@.workspaces,
                all == self.workspaces@.map_values(|w: Workspace| w@),
                workspace_at(all.take(i as int), repo@, name@) is None,
            decreases self.workspaces@.len() - i,
        {
            proof {
                assert(all.take(i + 1).drop_last() =~= all.take(i as int));
                assert(all.take(i + 1).last() == self.workspaces@[i as int]@);
            }
            if same_str(self.workspaces[i].repo.as_str(), repo) && same_str(
                self.workspaces[i].name.as_str(),
                name,
            ) {
                proof {
                    lemma_workspace_prefix(all, i + 1, repo@, name@);
                }
                return Some(i);
            }
            i = i + 1;
        }
        assert(all.take(i as int) =~= all);
        None
    }

    fn slot_index(&self, slot: u32) -> (r: Option<usize>)
        ensures
            match r {
                Some(i) => i < self.workspaces@.len() && workspace_in(self@.workspaces, slot) == Some(
                    i as int,
                ),
                None => workspace_in(self@.workspaces, slot) is None,
            },
    {
        let ghost all = self@.workspaces;
        let mut i: usize = 0;
        while i < self.workspaces.len()
            invariant
                i <= self.workspaces@.len(),
                all == self@.workspaces,
                all == self.workspaces@.map_values(|w: Workspace| w@),
                workspace_in(all.take(i as int), slot) is None,
            decreases self.workspaces@.len() - i,
        {
            proof {
                assert(all.take(i + 1).drop_last() =~= all.take(i as int));
                assert(all.take(i + 1).last() == self.workspaces@[i as int]@);
            }
            if self.workspaces[i].slot == slot {
                proof {
                    lemma_slot_prefix(all, i + 1, slot);
                }
                return Some(i);
            }
            i = i + 1;
        }
        assert(all.take(i as int) =~= all);
        None
    }

    fn find(&self, repo: &str, name: &str) -> (r: Option<usize>)
        ensures
            match r {
                Some(i) => i < self.workspaces@.len() && self@.find(repo@, name@) == Some(i as int)
                    && repo_at(self@.repos, repo@) is Some,
                None => self@.find(repo@, name@) is None,
            },
    {
        if self.repo_index(repo).is_none() {
            return None;
        }
        self.workspace_index(repo, name)
    }

    fn add_dir_child(&mut self, dir: InodeId, name: &str, ino: InodeId)
        ensures
            final(self)@ == old(self)@.with_dir_child(dir, name@, ino),
    {
        let ghost before = self@;
        match self.dirs.remove(&dir) {
            Some(mut children) => {
                children.insert(name.to_owned(), ino);
                self.dirs.insert(dir, children);
                assert(self@.dirs =~= before.with_dir_child(dir, name@, ino).dirs);
            },
            None => {
                assert(self@.dirs =~= before.dirs);
            },
        }
        assert(self@ =~= before.with_dir_child(dir, name@, ino));
    }

    fn drop_dir_child(&mut self, dir: InodeId, name: &str)
        ensures
            final(self)@ == old(self)@.without_dir_child(dir, name@),
    {
        let ghost before = self@;
        match self.dirs.remove(&dir) {
            Some(mut children) => {
                let _ = children.remove(name);
                self.dirs.insert(dir, children);
                assert(self@.dirs =~= before.without_dir_child(dir, name@).dirs);
            },
            None => {
                assert(self@.dirs =~= before.dirs);
            },
        }
        assert(self@ =~= before.without_dir_child(dir, name@));
    }

    /// Register a repository: its directory shows under the root. One that is
    /// there stays as it is. `refs` is its database, and `connected` says whether it
    /// has a remote.
    pub fn register_repo(
        &mut self,
        name: String,
        url: String,
        store: GitContentStore,
        refs: Store,
        connected: bool,
    )
        requires
            old(self).in_order(),
            old(self)@.next_synthetic < u64::MAX,
        ensures
            final(self)@ == old(self)@.with_repo(
                name@,
                url@,
                store@,
                store.path(),
                refs@,
                connected,
            ),
            final(self).in_order(),
    {
        let ghost before = self@;
        if self.repo_index(name.as_str()).is_some() {
            return ;
        }
        let inode: InodeId = self.next_synthetic;
        self.next_synthetic = inode + 1;
        self.dirs.insert(inode, NameMap::new());
        let ghost repo = RepoView {
            name: name@,
            url: url@,
            inode,
            objects: store@,
            git_path: store.path(),
            rows: refs@,
            connected,
        };
        self.repos.push(Repo { name: name.clone(), url, inode, store, refs, connected });
        proof {
            assert(self@.dirs =~= before.dirs.insert(inode, Map::empty()));
            assert(self@.repos =~= before.repos.push(repo));
            assert(self@.repos.take(before.repos.len() as int) =~= before.repos);
            assert forall|s: u32| #[trigger] self@.live.contains_key(s) implies self@.live[s].tree.wf()
                && repo_at(self@.repos, self@.live[s].repo) is Some by {
                assert(before.live.contains_key(s));
                lemma_repos_kept(before.repos, self@.repos, self@.live[s].repo);
            }
            lemma_repo_tied(before, name@, url@, store@, store.path(), refs@, connected);
        }
        self.add_dir_child(ROOT_INODE, name.as_str(), inode);
    }

    /// Register a workspace of a repository. A pending one does not show.
    pub fn register_workspace(&mut self, repo: &str, reg: WorkspaceRegistration) -> (r: Result<
        (),
        FsError,
    >)
        requires
            old(self).in_order(),
            reg.slot < SLOT_LIMIT,
        ensures
            (final(self)@, outcome(r)) == old(self)@.with_workspace(
                WorkspaceView {
                    repo: repo@,
                    name: reg.name@,
                    slot: reg.slot,
                    state: reg.state,
                    root_tree_id: reg.root_tree_id@,
                    op_id: reg.op_id@,
                    workspace_id: reg.workspace_id@,
                },
            ),
            final(self).in_order(),
    {
        let ghost before = self@;
        let i: usize = match self.repo_index(repo) {
            Some(i) => i,
            None => {
                return Err(FsError::NotFound);
            },
        };
        if self.workspace_index(repo, reg.name.as_str()).is_some() {
            return Err(FsError::AlreadyExists);
        }
        let inode: InodeId = self.repos[i].inode;
        let slot: u32 = reg.slot;
        let state: WorkspaceState = reg.state;
        let name = reg.name.clone();
        let ws = Workspace {
            repo: repo.to_owned(),
            name: reg.name,
            slot,
            state,
            root_tree_id: reg.root_tree_id,
            op_id: reg.op_id,
            workspace_id: reg.workspace_id,
        };
        let ghost view = ws@;
        self.workspaces.push(ws);
        if slot >= self.next_slot {
            self.next_slot = slot + 1;
        }
        proof {
            assert(self@.workspaces =~= before.workspaces.push(view));
            assert(before.repos[i as int].inode == inode);
            lemma_workspace_at(before.workspaces, repo@, view.name);
            lemma_workspace_tied(before, view);
        }
        if state == WorkspaceState::Active {
            self.add_dir_child(inode, name.as_str(), to_global(slot, ROOT_INODE));
        }
        Ok(())
    }

    /// Make a pending workspace visible.
    pub fn finalize_workspace(&mut self, repo: &str, ws: &str) -> (r: Result<(), FsError>)
        requires
            old(self).in_order(),
        ensures
            (final(self)@, outcome(r)) == old(self)@.finalized(repo@, ws@),
            final(self).in_order(),
    {
        let ghost before = self@;
        let ri: usize = match self.repo_index(repo) {
            Some(i) => i,
            None => {
                return Err(FsError::NotFound);
            },
        };
        let i: usize = match self.workspace_index(repo, ws) {
            Some(i) => i,
            None => {
                return Err(FsError::NotFound);
            },
        };
        assert(before.workspaces[i as int] == self.workspaces@[i as int]@);
        if self.workspaces[i].state == WorkspaceState::Active {
            return Ok(());
        }
        let slot: u32 = self.workspaces[i].slot;
        let inode: InodeId = self.repos[ri].inode;
        let entry = &mut self.workspaces[i];
        entry.state = WorkspaceState::Active;
        proof {
            assert(before.repos[ri as int].inode == inode);
            let ws = before.workspaces[i as int];
            assert(self@.workspaces =~= before.workspaces.update(
                i as int,
                WorkspaceView { state: WorkspaceState::Active, ..ws },
            ));
            lemma_workspace_at(before.workspaces, ws.repo, ws.name);
        }
        self.add_dir_child(inode, ws, to_global(slot, ROOT_INODE));
        proof {
            lemma_finalized_tied(before, repo@, ws@);
        }
        Ok(())
    }

    /// Remove a workspace and its filesystem. Returns its slot, which is not
    /// used again.
    pub fn remove_workspace(&mut self, repo: &str, ws: &str) -> (r: Result<u32, FsError>)
        requires
            old(self).in_order(),
        ensures
            (final(self)@, outcome(r)) == old(self)@.without_workspace(repo@, ws@),
            final(self).in_order(),
    {
        let ghost before = self@;
        let ri: usize = match self.repo_index(repo) {
            Some(i) => i,
            None => {
                return Err(FsError::NotFound);
            },
        };
        let i: usize = match self.workspace_index(repo, ws) {
            Some(i) => i,
            None => {
                return Err(FsError::NotFound);
            },
        };
        let inode: InodeId = self.repos[ri].inode;
        let entry = self.workspaces.remove(i);
        let slot: u32 = entry.slot;
        let _ = self.live.remove(&slot);
        proof {
            assert(before.workspaces[i as int] == entry@);
            assert(before.repos[ri as int].inode == inode);
            assert(self@.workspaces =~= before.workspaces.remove(i as int));
            assert(self@.live =~= before.live.remove(slot));
            assert forall|s: u32| #[trigger] self@.live.contains_key(s) implies self@.live[s].tree.wf()
                && repo_at(self@.repos, self@.live[s].repo) is Some by {
                assert(before.live.contains_key(s));
            }
        }
        self.drop_dir_child(inode, ws);
        proof {
            lemma_removed_tied(before, repo@, ws@);
        }
        Ok(slot)
    }

    /// Hand out a slot. Slots go up and are never used again.
    pub fn alloc_slot(&mut self) -> (slot: u32)
        requires
            old(self)@.next_slot < SLOT_LIMIT,
        ensures
            slot == old(self)@.next_slot,
            final(self)@ == (RootView { next_slot: (slot + 1) as u32, ..old(self)@ }),
            old(self).in_order() ==> final(self).in_order(),
    {
        let ghost before = self@;
        let slot: u32 = self.next_slot;
        self.next_slot = slot + 1;
        proof {
            if before.wf() {
                lemma_tied_kept(before, self@);
            }
        }
        slot
    }

    /// The slot that is handed out next.
    pub fn next_slot(&self) -> (slot: u32)
        ensures
            slot == self@.next_slot,
    {
        self.next_slot
    }

    /// Whether the filesystem in a slot was made.
    pub fn is_live(&self, slot: u32) -> (r: bool)
        ensures
            r == self@.live.contains_key(slot),
    {
        self.live.contains_key(&slot)
    }

    /// Make sure that the filesystem of the workspace at a position is there.
    fn hydrate_at(&mut self, i: usize) -> (r: Result<(), FsError>)
        requires
            old(self).in_order(),
            i < old(self).workspaces@.len(),
        ensures
            (final(self)@, outcome(r)) == old(self)@.hydrated_at(i as int),
            final(self).in_order(),
            r is Ok ==> final(self)@.live.contains_key(old(self)@.workspaces[i as int].slot),
    {
        let ghost before = self@;
        assert(before.workspaces[i as int] == self.workspaces@[i as int]@);
        let slot: u32 = self.workspaces[i].slot;
        if self.live.contains_key(&slot) {
            return Ok(());
        }
        let ri: usize = match self.repo_index(self.workspaces[i].repo.as_str()) {
            Some(ri) => ri,
            None => {
                return Err(FsError::NotFound);
            },
        };
        let ws = &self.workspaces[i];
        let store = &self.repos[ri].store;
        let scratch = workspace_scratch_dir(
            self.storage_dir.as_str(),
            ws.repo.as_str(),
            ws.name.as_str(),
        );
        let tree: Id = tree_for(&ws.root_tree_id);
        let fs = KikiState::new(store, tree, Some(scratch), store.git_repo_path(), 0);
        let live = Live { repo: ws.repo.clone(), fs };
        let ghost view = live@;
        proof {
            assert(before.repos[ri as int] == self.repos@[ri as int]@);
        }
        self.live.insert(slot, live);
        proof {
            assert(self@.live =~= before.live.insert(slot, view));
            assert(self@ =~= before.hydrated_at(i as int).0);
            assert forall|s: u32| #[trigger] self@.live.contains_key(s) implies self@.live[s].tree.wf()
                && repo_at(self@.repos, self@.live[s].repo) is Some by {
                if s != slot {
                    assert(before.live.contains_key(s));
                }
            }
            lemma_tied_kept(before, self@);
        }
        Ok(())
    }

    /// Make sure that the filesystem in a slot is there.
    fn hydrate(&mut self, slot: u32) -> (r: Result<(), FsError>)
        requires
            old(self).in_order(),
        ensures
            (final(self)@, outcome(r)) == old(self)@.hydrated(slot),
            final(self).in_order(),
            r is Ok ==> final(self)@.live.contains_key(slot),
    {
        if self.live.contains_key(&slot) {
            return Ok(());
        }
        proof {
            lemma_workspace_in(self@.workspaces, slot);
        }
        match self.slot_index(slot) {
            Some(i) => self.hydrate_at(i),
            None => Err(FsError::NotFound),
        }
    }

    /// Find a workspace by name and make sure that its filesystem is there. A
    /// pending workspace is not found.
    pub fn get_workspace(&mut self, repo: &str, ws: &str) -> (r: Result<WorkspaceHandle, FsError>)
        requires
            old(self).in_order(),
        ensures
            (final(self)@, outcome(r)) == old(self)@.workspace(repo@, ws@),
            final(self).in_order(),
            r matches Ok(h) ==> final(self)@.live.contains_key(h.slot),
    {
        let ri: usize = match self.repo_index(repo) {
            Some(i) => i,
            None => {
                return Err(FsError::NotFound);
            },
        };
        let i: usize = match self.workspace_index(repo, ws) {
            Some(i) => i,
            None => {
                return Err(FsError::NotFound);
            },
        };
        assert(self@.workspaces[i as int] == self.workspaces@[i as int]@);
        assert(self@.repos[ri as int] == self.repos@[ri as int]@);
        if self.workspaces[i].state == WorkspaceState::Pending {
            return Err(FsError::NotFound);
        }
        let slot: u32 = self.workspaces[i].slot;
        let connected: bool = self.repos[ri].connected;
        match self.hydrate_at(i) {
            Ok(()) => Ok(WorkspaceHandle { slot, connected }),
            Err(e) => Err(e),
        }
    }

    fn config_of(&self, i: usize) -> (c: WorkspaceConfig)
        requires
            i < self.workspaces@.len(),
        ensures
            config_view(c) == kept(self@.workspaces[i as int]),
    {
        let ws = &self.workspaces[i];
        assert(self@.workspaces[i as int] == ws@);
        WorkspaceConfig {
            state: ws.state,
            slot: ws.slot,
            op_id: copy_bytes(ws.op_id.as_slice()),
            workspace_id: copy_bytes(ws.workspace_id.as_slice()),
            root_tree_id: copy_bytes(ws.root_tree_id.as_slice()),
        }
    }

    /// Record the operation and the id of a workspace. Returns what is to be
    /// kept across restarts.
    pub fn set_checkout_state(
        &mut self,
        repo: &str,
        ws: &str,
        op_id: Vec<u8>,
        workspace_id: Vec<u8>,
    ) -> (r: Result<WorkspaceConfig, FsError>)
        requires
            old(self).in_order(),
        ensures
            final(self).in_order(),
            match old(self)@.find(repo@, ws@) {
                None => final(self)@ == old(self)@ && outcome(r) == Err::<WorkspaceConfig, ErrView>(
                    ErrView::NotFound,
                ),
                Some(i) => {
                    let after = WorkspaceView {
                        op_id: op_id@,
                        workspace_id: workspace_id@,
                        ..old(self)@.workspaces[i]
                    };
                    &&& final(self)@ == old(self)@.with_workspace_at(i, after)
                    &&& r matches Ok(c) && config_view(c) == kept(after)
                },
            },
    {
        let ghost before = self@;
        let i: usize = match self.find(repo, ws) {
            Some(i) => i,
            None => {
                return Err(FsError::NotFound);
            },
        };
        let ghost old_ws = self.workspaces@[i as int]@;
        let ghost op = op_id@;
        let ghost id = workspace_id@;
        let entry = &mut self.workspaces[i];
        entry.op_id = op_id;
        entry.workspace_id = workspace_id;
        proof {
            assert(before.workspaces[i as int] == old_ws);
            assert(self@.workspaces =~= before.workspaces.update(
                i as int,
                WorkspaceView { op_id: op, workspace_id: id, ..old_ws },
            ));
            lemma_tied_kept(before, self@);
        }
        Ok(self.config_of(i))
    }

    /// Record the root tree of a workspace. Returns what is to be kept across
    /// restarts.
    pub fn set_root_tree_id(&mut self, repo: &str, ws: &str, root_tree_id: Vec<u8>) -> (r: Result<
        WorkspaceConfig,
        FsError,
    >)
        requires
            old(self).in_order(),
        ensures
            final(self).in_order(),
            match old(self)@.find(repo@, ws@) {
                None => final(self)@ == old(self)@ && outcome(r) == Err::<WorkspaceConfig, ErrView>(
                    ErrView::NotFound,
                ),
                Some(i) => {
                    let after = WorkspaceView {
                        root_tree_id: root_tree_id@,
                        ..old(self)@.workspaces[i]
                    };
                    &&& final(self)@ == old(self)@.with_workspace_at(i, after)
                    &&& r matches Ok(c) && config_view(c) == kept(after)
                },
            },
    {
        let ghost before = self@;
        let i: usize = match self.find(repo, ws) {
            Some(i) => i,
            None => {
                return Err(FsError::NotFound);
            },
        };
        let ghost old_ws = self.workspaces@[i as int]@;
        let ghost id = root_tree_id@;
        let entry = &mut self.workspaces[i];
        entry.root_tree_id = root_tree_id;
        proof {
            assert(before.workspaces[i as int] == old_ws);
            assert(self@.workspaces =~= before.workspaces.update(
                i as int,
                WorkspaceView { root_tree_id: id, ..old_ws },
            ));
            lemma_tied_kept(before, self@);
        }
        Ok(self.config_of(i))
    }

    /// Whether a repository has a remote.
    pub fn repo_remote_store(&self, repo: &str) -> (r: Option<bool>)
        ensures
            r == match repo_at(self@.repos, repo@) {
                Some(i) => Some(self@.repos[i].connected),
                None => None,
            },
    {
        match self.repo_index(repo) {
            Some(i) => {
                assert(self@.repos[i as int] == self.repos@[i as int]@);
                Some(self.repos[i].connected)
            },
            None => None,
        }
    }

    /// The content store of a repository.
    pub fn repo_store(&self, repo: &str) -> (r: Option<&GitContentStore>)
        ensures
            match r {
                Some(store) => repo_at(self@.repos, repo@) matches Some(i) && store@
                    == self@.repos[i].objects && store.path() == self@.repos[i].git_path,
                None => repo_at(self@.repos, repo@) is None,
            },
    {
        match self.repo_index(repo) {
            Some(i) => {
                assert(self@.repos[i as int] == self.repos@[i as int]@);
                Some(&self.repos[i].store)
            },
            None => None,
        }
    }
}

/// The names of the active workspaces of a repository.
pub open spec fn active_names(workspaces: Seq<WorkspaceView>, repo: Seq<char>) -> Seq<Seq<char>>
    decreases workspaces.len(),
{
    if workspaces.len() == 0 {
        seq![]
    } else {
        let before = active_names(workspaces.drop_last(), repo);
        let ws = workspaces.last();
        if ws.repo == repo && ws.state == WorkspaceState::Active {
            before.push(ws.name)
        } else {
            before
        }
    }
}

/// A repository in a list: its name, its url and its active workspaces.
pub open spec fn row_view(row: (String, String, Vec<String>)) -> (
    Seq<char>,
    Seq<char>,
    Seq<Seq<char>>,
) {
    (row.0@, row.1@, row.2@.map_values(|s: String| s@))
}

/// The list of repositories.
pub open spec fn repo_rows(repos: Seq<RepoView>, workspaces: Seq<WorkspaceView>) -> Seq<
    (Seq<char>, Seq<char>, Seq<Seq<char>>),
> {
    repos.map_values(|r: RepoView| (r.name, r.url, active_names(workspaces, r.name)))
}

impl RootFs {
    fn active_in(&self, repo: &str) -> (out: Vec<String>)
        ensures
            out@.map_values(|s: String| s@) == active_names(self@.workspaces, repo@),
    {
        let ghost all = self@.workspaces;
        let mut out: Vec<String> = Vec::new();
        assert(out@.map_values(|s: String| s@) =~= active_names(all.take(0), repo@));
        let mut i: usize = 0;
        while i < self.workspaces.len()
            invariant
                i <= self.workspaces@.len(),
                all == self@.workspaces,
                all == self.workspaces@.map_values(|w: Workspace| w@),
                out@.map_values(|s: String| s@) == active_names(all.take(i as int), repo@),
            decreases self.workspaces@.len() - i,
        {
            let ws = &self.workspaces[i];
            proof {
                assert(all.take(i + 1).drop_last() =~= all.take(i as int));
                assert(all.take(i + 1).last() == ws@);
            }
            if same_str(ws.repo.as_str(), repo) && ws.state == WorkspaceState::Active {
                let ghost before = out@.map_values(|s: String| s@);
                out.push(ws.name.clone());
                assert(out@.map_values(|s: String| s@) =~= before.push(ws.name@));
            }
            i = i + 1;
        }
        assert(all.take(i as int) =~= all);
        out
    }

    /// List the repositories with their active workspaces.
    pub fn list_repos(&self) -> (out: Vec<(String, String, Vec<String>)>)
        ensures
            out@.map_values(|row: (String, String, Vec<String>)| row_view(row)) == repo_rows(
                self@.repos,
                self@.workspaces,
            ),
    {
        let ghost all = self@.repos;
        let ghost spaces = self@.workspaces;
        let mut out: Vec<(String, String, Vec<String>)> = Vec::new();
        let mut i: usize = 0;
        while i < self.repos.len()
            invariant
                i <= self.repos@.len(),
                all == self@.repos,
                spaces == self@.workspaces,
                all == self.repos@.map_values(|r: Repo| r@),
                out@.len() == i,
                forall|k: int|
                    0 <= k < i ==> row_view(#[trigger] out@[k]) == repo_rows(all, spaces)[k],
            decreases self.repos@.len() - i,
        {
            let repo = &self.repos[i];
            assert(all[i as int] == repo@);
            let names = self.active_in(repo.name.as_str());
            out.push((repo.name.clone(), repo.url.clone(), names));
            i = i + 1;
        }
        assert(out@.map_values(|row: (String, String, Vec<String>)| row_view(row)) =~= repo_rows(
            all,
            spaces,
        ));
        out
    }
}

/// The value of a [`WorkspaceConfig`].
pub struct ConfigView {
    pub state: WorkspaceState,
    pub slot: u32,
    pub op_id: Seq<u8>,
    pub workspace_id: Seq<u8>,
    pub root_tree_id: Seq<u8>,
}

/// The value of a [`WorkspaceConfig`].
pub open spec fn config_view(c: WorkspaceConfig) -> ConfigView {
    ConfigView {
        state: c.state,
        slot: c.slot,
        op_id: c.op_id@,
        workspace_id: c.workspace_id@,
        root_tree_id: c.root_tree_id@,
    }
}

/// What is kept of a workspace across restarts.
pub open spec fn kept(ws: WorkspaceView) -> ConfigView {
    ConfigView {
        state: ws.state,
        slot: ws.slot,
        op_id: ws.op_id,
        workspace_id: ws.workspace_id,
        root_tree_id: ws.root_tree_id,
    }
}

impl RootView {
    /// What a lookup does and gives.
    pub open spec fn lookup(
        self,
        parent: InodeId,
        name: Seq<char>,
    ) -> (RootView, Result<InodeId, ErrView>) {
        let s = slot(parent);
        if s == 0 {
            (self, self.synthetic_child(parent, name))
        } else {
            let (v, r) = self.hydrated(s);
            match r {
                Err(e) => (v, Err(e)),
                Ok(()) => {
                    let (tree, r) = v.live[s].tree.lookup(v.objects_for(s), local(parent), name);
                    (
                        v.with_tree(s, tree),
                        match r {
                            Ok(x) => Ok(global(s, x)),
                            Err(e) => Err(e),
                        },
                    )
                },
            }
        }
    }

    /// What asking for attributes does and gives.
    pub open spec fn getattr(self, ino: InodeId) -> (RootView, Result<Attr, ErrView>) {
        let s = slot(ino);
        if s == 0 {
            (self, self.synthetic_attr(ino))
        } else {
            let (v, r) = self.hydrated(s);
            match r {
                Err(e) => (v, Err(e)),
                Ok(()) => {
                    (
                        v,
                        match attr_result(
                            v.live[s].tree.slab,
                            v.objects_for(s),
                            local(ino),
                            v.live[s].tree.commit_mtime,
                        ) {
                            Ok(x) => Ok(global_attr(s, x)),
                            Err(e) => Err(e),
                        },
                    )
                },
            }
        }
    }

    /// What a read does and gives.
    pub open spec fn read(
        self,
        ino: InodeId,
        offset: u64,
        count: u32,
    ) -> (RootView, Result<(Seq<u8>, bool), ErrView>) {
        let s = slot(ino);
        if s == 0 {
            (self, Err(ErrView::NotAFile))
        } else {
            let (v, r) = self.hydrated(s);
            match r {
                Err(e) => (v, Err(e)),
                Ok(()) => {
                    (
                        v,
                        match read_result(v.live[s].tree.slab, v.objects_for(s), local(ino), offset, count) {
                            Ok(x) => Ok(x),
                            Err(e) => Err(e),
                        },
                    )
                },
            }
        }
    }

    /// What listing a directory does and gives.
    pub open spec fn readdir(self, dir: InodeId) -> (RootView, Result<Seq<DirEntryView>, ErrView>) {
        let s = slot(dir);
        if s == 0 {
            (self, self.synthetic_listing(dir))
        } else {
            let (v, r) = self.hydrated(s);
            match r {
                Err(e) => (v, Err(e)),
                Ok(()) => {
                    let (tree, r) = v.live[s].tree.readdir(v.objects_for(s), local(dir));
                    (
                        v.with_tree(s, tree),
                        match r {
                            Ok(x) => Ok(global_listing(s, x)),
                            Err(e) => Err(e),
                        },
                    )
                },
            }
        }
    }

    /// What reading a symlink does and gives.
    pub open spec fn readlink(self, ino: InodeId) -> (RootView, Result<Seq<char>, ErrView>) {
        let s = slot(ino);
        if s == 0 {
            (self, Err(ErrView::NotASymlink))
        } else {
            let (v, r) = self.hydrated(s);
            match r {
                Err(e) => (v, Err(e)),
                Ok(()) => {
                    (
                        v,
                        match readlink_result(v.live[s].tree.slab, v.objects_for(s), local(ino)) {
                            Ok(x) => Ok(x),
                            Err(e) => Err(e),
                        },
                    )
                },
            }
        }
    }

    /// What creating a file does and gives.
    pub open spec fn create_file(
        self,
        parent: InodeId,
        name: Seq<char>,
        executable: bool,
    ) -> (RootView, Result<(InodeId, Attr), ErrView>) {
        let s = slot(parent);
        if s == 0 {
            (self, Err(ErrView::PermissionDenied))
        } else {
            let (v, r) = self.hydrated(s);
            match r {
                Err(e) => (v, Err(e)),
                Ok(()) => {
                    let (tree, r) = v.live[s].tree.add_entry(
                        v.objects_for(s),
                        local(parent),
                        name,
                        NodeView::DirtyFile { content: seq![], executable },
                    );
                    (
                        v.with_tree(s, tree),
                        match r {
                            Ok(x) => Ok((global(s, x.0), global_attr(s, x.1))),
                            Err(e) => Err(e),
                        },
                    )
                },
            }
        }
    }

    /// What making a directory does and gives.
    pub open spec fn mkdir(
        self,
        parent: InodeId,
        name: Seq<char>,
        fault: Option<Seq<char>>,
    ) -> (RootView, Result<(InodeId, Attr), ErrView>) {
        let s = slot(parent);
        if s == 0 {
            (self, Err(ErrView::PermissionDenied))
        } else {
            let (v, r) = self.hydrated(s);
            match r {
                Err(e) => (v, Err(e)),
                Ok(()) => {
                    let (tree, r) = v.live[s].tree.mkdir(v.objects_for(s), local(parent), name, fault);
                    (
                        v.with_tree(s, tree),
                        match r {
                            Ok(x) => Ok((global(s, x.0), global_attr(s, x.1))),
                            Err(e) => Err(e),
                        },
                    )
                },
            }
        }
    }

    /// What creating a symlink does and gives.
    pub open spec fn symlink(
        self,
        parent: InodeId,
        name: Seq<char>,
        target: Seq<char>,
    ) -> (RootView, Result<(InodeId, Attr), ErrView>) {
        let s = slot(parent);
        if s == 0 {
            (self, Err(ErrView::PermissionDenied))
        } else {
            let (v, r) = self.hydrated(s);
            match r {
                Err(e) => (v, Err(e)),
                Ok(()) => {
                    let (tree, r) = v.live[s].tree.add_entry(
                        v.objects_for(s),
                        local(parent),
                        name,
                        NodeView::DirtySymlink(target),
                    );
                    (
                        v.with_tree(s, tree),
                        match r {
                            Ok(x) => Ok((global(s, x.0), global_attr(s, x.1))),
                            Err(e) => Err(e),
                        },
                    )
                },
            }
        }
    }

    /// What a write does and gives.
    pub open spec fn write(
        self,
        ino: InodeId,
        offset: u64,
        data: Seq<u8>,
    ) -> (RootView, Result<u32, ErrView>) {
        let s = slot(ino);
        if s == 0 {
            (self, Err(ErrView::PermissionDenied))
        } else {
            let (v, r) = self.hydrated(s);
            match r {
                Err(e) => (v, Err(e)),
                Ok(()) => {
                    let (tree, r) = v.live[s].tree.write(v.objects_for(s), local(ino), offset, data);
                    (
                        v.with_tree(s, tree),
                        match r {
                            Ok(x) => Ok(x),
                            Err(e) => Err(e),
                        },
                    )
                },
            }
        }
    }

    /// What changing a file's length or mode does and gives.
    pub open spec fn setattr(
        self,
        ino: InodeId,
        size: Option<u64>,
        executable: Option<bool>,
    ) -> (RootView, Result<Attr, ErrView>) {
        let s = slot(ino);
        if s == 0 {
            (self, Err(ErrView::PermissionDenied))
        } else {
            let (v, r) = self.hydrated(s);
            match r {
                Err(e) => (v, Err(e)),
                Ok(()) => {
                    let (tree, r) = v.live[s].tree.setattr(v.objects_for(s), local(ino), size, executable);
                    (
                        v.with_tree(s, tree),
                        match r {
                            Ok(x) => Ok(global_attr(s, x)),
                            Err(e) => Err(e),
                        },
                    )
                },
            }
        }
    }

    /// What removing an entry does and gives.
    pub open spec fn remove(
        self,
        parent: InodeId,
        name: Seq<char>,
    ) -> (RootView, Result<(), ErrView>) {
        let s = slot(parent);
        if s == 0 {
            (self, Err(ErrView::PermissionDenied))
        } else {
            let (v, r) = self.hydrated(s);
            match r {
                Err(e) => (v, Err(e)),
                Ok(()) => {
                    let (tree, r) = v.live[s].tree.remove(v.objects_for(s), local(parent), name);
                    (
                        v.with_tree(s, tree),
                        match r {
                            Ok(x) => Ok(x),
                            Err(e) => Err(e),
                        },
                    )
                },
            }
        }
    }

    /// What moving an entry does and gives. A move stays within its workspace.
    pub open spec fn rename(
        self,
        parent: InodeId,
        name: Seq<char>,
        new_parent: InodeId,
        new_name: Seq<char>,
    ) -> (RootView, Result<(), ErrView>) {
        let s = slot(parent);
        if s != slot(new_parent) {
            (self, Err(ErrView::CrossDevice))
        } else if s == 0 {
            (self, Err(ErrView::PermissionDenied))
        } else {
            let (v, r) = self.hydrated(s);
            match r {
                Err(e) => (v, Err(e)),
                Ok(()) => {
                    let (tree, r) = v.live[s].tree.rename(
                        v.objects_for(s),
                        local(parent),
                        name,
                        local(new_parent),
                        new_name,
                    );
                    (v.with_tree(s, tree), r)
                },
            }
        }
    }

    /// What asking for the scratch directory of a redirected one does and gives.
    pub open spec fn redirect_target(self, parent: InodeId, name: Seq<char>) -> (
        RootView,
        Option<Seq<char>>,
    ) {
        let s = slot(parent);
        if s == 0 {
            (self, None)
        } else {
            let (v, r) = self.hydrated(s);
            (
                v,
                match r {
                    Err(_) => None,
                    Ok(()) => v.live[s].tree.redirect_target(
                        v.objects_for(s),
                        local(parent),
                        name,
                    ),
                },
            )
        }
    }

    /// What switching the workspace in a slot to another tree does and gives.
    pub open spec fn check_out(self, s: u32, tree: Id, mtime: i64) -> (
        RootView,
        Result<(), ErrView>,
    ) {
        let (v, r) = self.hydrated(s);
        match r {
            Err(e) => (v, Err(e)),
            Ok(()) => {
                let (tree, r) = v.live[s].tree.check_out(v.objects_for(s), tree, mtime);
                (v.with_tree(s, tree), r)
            },
        }
    }

    /// The mount with other objects in the repository at a position.
    pub open spec fn with_objects(self, i: int, objects: Objects) -> RootView {
        RootView {
            repos: self.repos.update(i, RepoView { objects, ..self.repos[i] }),
            ..self
        }
    }
}

/// The listing of the mount for that of a workspace.
pub open spec fn global_listing(s: u32, entries: Seq<DirEntryView>) -> Seq<DirEntryView> {
    entries.map_values(|e: DirEntryView| DirEntryView { inode: global(s, e.inode), ..e })
}

fn listing_to_global(slot: u32, entries: Vec<DirEntry>) -> (out: Vec<DirEntry>)
    ensures
        listing_view(out@) == global_listing(slot, listing_view(entries@)),
{
    let ghost all = entries@;
    let mut out: Vec<DirEntry> = Vec::new();
    for e in it: entries
        invariant
            it.seq() == all,
            listing_view(out@) == global_listing(
                slot,
                listing_view(all.take(it.index() as int)),
            ),
    {
        let ghost before = listing_view(out@);
        let ghost k = it.index();
        let entry = DirEntry { inode: to_global(slot, e.inode), name: e.name, kind: e.kind };
        let ghost value = entry@;
        out.push(entry);
        proof {
            assert(listing_view(out@) =~= before.push(value));
            assert(listing_view(all.take(k + 1)) =~= listing_view(all.take(k as int)).push(
                all[k as int]@,
            ));
            assert(global_listing(slot, listing_view(all.take(k + 1))) =~= before.push(value));
        }
    }
    assert(all.take(all.len() as int) =~= all);
    out
}

impl RootFs {
    /// The repository position and the filesystem of a live workspace.
    fn live_at(&self, slot: u32) -> (r: (usize, &Live))
        requires
            self.in_order(),
            self@.live.contains_key(slot),
        ensures
            r.1@ == self@.live[slot],
            r.0 < self.repos@.len(),
            repo_at(self@.repos, self@.live[slot].repo) == Some(r.0 as int),
            self.repos@[r.0 as int].store@ == self@.objects_for(slot),
    {
        let live = self.live.get(&slot).unwrap();
        let i: usize = self.repo_index(live.repo.as_str()).unwrap();
        assert(self@.repos[i as int] == self.repos@[i as int]@);
        (i, live)
    }

    /// The database with the refs of a live workspace.
    pub fn local_refs(&self, slot: u32) -> (r: Option<&Store>)
        requires
            self.in_order(),
        ensures
            match r {
                Some(refs) => self@.live.contains_key(slot) && refs@ == self@.rows_for(slot),
                None => !self@.live.contains_key(slot),
            },
    {
        if !self.live.contains_key(&slot) {
            return None;
        }
        let i: usize = self.live_at(slot).0;
        assert(self@.repos[i as int] == self.repos@[i as int]@);
        Some(&self.repos[i].refs)
    }

    /// Swap a ref of a live workspace: it gets the new value, or is removed where
    /// there is none, if it has the expected one.
    pub fn cas_local_ref(
        &mut self,
        slot: u32,
        name: &str,
        expected: Option<&[u8]>,
        new: Option<&[u8]>,
    ) -> (r: Result<CasOutcome, StoreFailure>)
        requires
            old(self).in_order(),
            old(self)@.live.contains_key(slot),
        ensures
            final(self).in_order(),
            ({
                let (rows, view) = swapped(
                    old(self)@.rows_for(slot),
                    name@,
                    slice_in(expected),
                    slice_in(new),
                );
                let done = old(self)@.with_rows_for(slot, rows);
                match r {
                    Ok(outcome) => cas_view(outcome) == view && final(self)@ == done,
                    Err(_) => final(self)@ == old(self)@ || final(self)@ == done,
                }
            }),
    {
        let ghost before = self@;
        let ghost repos = self.repos@;
        let i: usize = self.live_at(slot).0;
        proof {
            assert(before.repos[i as int] == repos[i as int]@);
        }
        let entry = &mut self.repos[i];
        let r = entry.refs.cas_ref(name, expected, new);
        proof {
            let rows = self.repos@[i as int].refs@;
            let after = before.with_rows_for(slot, rows);
            assert(self@.repos =~= after.repos);
            assert(self@ =~= after);
            if rows == before.rows_for(slot) {
                assert(after.repos =~= before.repos);
            }
            assert forall|n: Seq<char>| #[trigger] repo_at(after.repos, n) == repo_at(
                before.repos,
                n,
            ) by {
                lemma_repo_names(before.repos, after.repos, n);
            }
            lemma_tied_kept(before, after);
        }
        r
    }

    /// Take a live workspace out for a request.
    fn take_live(&mut self, slot: u32) -> (r: (usize, Live))
        requires
            old(self).in_order(),
            old(self)@.live.contains_key(slot),
        ensures
            r.1@ == old(self)@.live[slot],
            r.0 < final(self).repos@.len(),
            final(self).repos@ == old(self).repos@,
            repo_at(old(self)@.repos, old(self)@.live[slot].repo) == Some(r.0 as int),
            final(self).repos@[r.0 as int].store@ == old(self)@.objects_for(slot),
            final(self)@ == (RootView { live: old(self)@.live.remove(slot), ..old(self)@ }),
    {
        let ghost before = self@;
        let i: usize = self.live_at(slot).0;
        let live = self.live.remove(&slot).unwrap();
        proof {
            assert(before.repos[i as int] == self.repos@[i as int]@);
            assert(self@.live =~= before.live.remove(slot));
        }
        (i, live)
    }

    /// Put a live workspace back after a request.
    fn put_live(&mut self, slot: u32, live: Live, Ghost(mid): Ghost<RootView>)
        requires
            mid.wf(),
            mid.live.contains_key(slot),
            old(self)@ == (RootView { live: mid.live.remove(slot), ..mid }),
            live@.repo == mid.live[slot].repo,
            live@.tree.wf(),
        ensures
            final(self)@ == mid.with_tree(slot, live@.tree),
            final(self).in_order(),
    {
        let ghost view = live@;
        let ghost start = self@;
        self.live.insert(slot, live);
        proof {
            assert(self@.live =~= start.live.insert(slot, view));
            assert(start.live == mid.live.remove(slot));
            assert(self@.live =~= mid.live.insert(slot, view));
            assert(self@ =~= mid.with_tree(slot, view.tree));
            lemma_tied_kept(mid, self@);
            assert forall|s: u32| #[trigger] self@.live.contains_key(s) implies self@.live[s].tree.wf()
                && repo_at(self@.repos, self@.live[s].repo) is Some by {
                if s != slot {
                    assert(mid.live.contains_key(s));
                }
            }
        }
    }

    /// Find a name in a synthetic directory.
    pub fn synthetic_lookup(&self, parent: InodeId, name: &str) -> (r: Result<InodeId, FsError>)
        ensures
            outcome(r) == self@.synthetic_child(parent, name@),
    {
        match self.dirs.get(&parent) {
            Some(children) => match children.get(name) {
                Some(ino) => Ok(*ino),
                None => Err(FsError::NotFound),
            },
            None => Err(FsError::NotFound),
        }
    }

    /// The attributes of a synthetic directory.
    pub fn synthetic_getattr(&self, ino: InodeId) -> (r: Result<Attr, FsError>)
        ensures
            outcome(r) == self@.synthetic_attr(ino),
    {
        if self.dirs.contains_key(&ino) {
            Ok(
                Attr {
                    inode: ino,
                    kind: FileKind::Directory,
                    size: 0,
                    executable: false,
                    mtime_secs: 0,
                },
            )
        } else {
            Err(FsError::NotFound)
        }
    }

    /// List a synthetic directory.
    pub fn synthetic_readdir(&self, dir: InodeId) -> (r: Result<Vec<DirEntry>, FsError>)
        ensures
            (match r {
                Ok(out) => Ok(listing_view(out@)),
                Err(e) => Err(e@),
            }) == self@.synthetic_listing(dir),
    {
        match self.dirs.get(&dir) {
            None => Err(FsError::NotFound),
            Some(children) => {
                let ghost map = children@;
                let ghost order = in_order(map);
                let ghost f = |name: Seq<char>|
                    DirEntryView { inode: map[name], name, kind: FileKind::Directory };
                let n: usize = children.len();
                let mut out: Vec<DirEntry> = Vec::new();
                assert(listing_view(out@) =~= order.take(0).map_values(f));
                let mut i: usize = 0;
                while i < n
                    invariant
                        i <= n,
                        n == order.len(),
                        map == children@,
                        order == in_order(map),
                        f == (|name: Seq<char>|
                            DirEntryView { inode: map[name], name, kind: FileKind::Directory }),
                        listing_view(out@) == order.take(i as int).map_values(f),
                    decreases n - i,
                {
                    let (name, ino) = children.at(i);
                    let ghost before = listing_view(out@);
                    let entry = DirEntry {
                        inode: *ino,
                        name: name.to_owned(),
                        kind: FileKind::Directory,
                    };
                    let ghost value = entry@;
                    out.push(entry);
                    proof {
                        assert(listing_view(out@) =~= before.push(value));
                        assert(order.take(i + 1).map_values(f) =~= before.push(value));
                    }
                    i = i + 1;
                }
                assert(order.take(n as int) =~= order);
                assert(self@.dirs[dir] == map);
                Ok(out)
            },
        }
    }

    /// Switch the workspace in a slot to another tree.
    pub fn check_out_workspace(
        &mut self,
        slot: u32,
        tree: Id,
        commit_mtime_secs: i64,
    ) -> (r: Result<
        (),
        FsError,
    >)
        requires
            old(self).in_order(),
        ensures
            (final(self)@, outcome(r)) == old(self)@.check_out(slot, tree, commit_mtime_secs),
            final(self).in_order(),
    {
        match self.hydrate(slot) {
            Ok(()) => {},
            Err(e) => {
                return Err(e);
            },
        }
        let ghost mid = self@;
        let (ri, mut live) = self.take_live(slot);
        let r = live.fs.check_out(&self.repos[ri].store, tree, commit_mtime_secs);
        self.put_live(slot, live, Ghost(mid));
        r
    }

    /// Snapshot the workspace in a slot.
    pub fn snapshot_workspace(&mut self, slot: u32) -> (r: Result<Id, FsError>)
        requires
            old(self).in_order(),
        ensures
            final(self).in_order(),
            match old(self)@.hydrated(slot) {
                (v, Err(e)) => final(self)@ == v && outcome(r) == Err::<Id, ErrView>(e),
                (v, Ok(())) => {
                    let i = repo_at(v.repos, v.live[slot].repo)->0;
                    &&& final(self)@ == v.with_objects(
                        i,
                        final(self)@.repos[i].objects,
                    ).with_tree(slot, final(self)@.live[slot].tree)
                    &&& snapshotted(
                        v.live[slot].tree,
                        v.objects_for(slot),
                        final(self)@.live[slot].tree,
                        final(self)@.repos[i].objects,
                        outcome(r),
                    )
                },
            },
    {
        match self.hydrate(slot) {
            Ok(()) => {},
            Err(e) => {
                return Err(e);
            },
        }
        let ghost mid = self@;
        let (ri, mut live) = self.take_live(slot);
        let ghost repo = live@.repo;
        let ghost repos = self.repos@;
        let entry = &mut self.repos[ri];
        let r = live.fs.snapshot(&mut entry.store);
        proof {
            let objects = self.repos@[ri as int].store@;
            let after = mid.with_objects(ri as int, objects);
            assert(mid.repos[ri as int] == repos[ri as int]@);
            assert(self@.repos =~= after.repos);
            assert(self@ =~= (RootView { live: after.live.remove(slot), ..after }));
            assert forall|name: Seq<char>| #[trigger] repo_at(after.repos, name) == repo_at(
                mid.repos,
                name,
            ) by {
                lemma_repo_names(mid.repos, after.repos, name);
            }
            lemma_tied_kept(mid, after);
        }
        self.put_live(
            slot,
            live,
            Ghost(mid.with_objects(ri as int, self.repos@[ri as int].store@)),
        );
        r
    }
}

impl JjKikiFs for RootFs {
    type State = RootView;

    open spec fn state(&self) -> RootView {
        self@
    }

    open spec fn in_order(&self) -> bool {
        self@.wf()
    }

    open spec fn lookup_step(s: RootView, parent: InodeId, name: Seq<char>) -> (
        RootView,
        Result<InodeId, ErrView>,
    ) {
        s.lookup(parent, name)
    }

    open spec fn getattr_step(s: RootView, ino: InodeId) -> (RootView, Result<Attr, ErrView>) {
        s.getattr(ino)
    }

    open spec fn read_step(s: RootView, ino: InodeId, offset: u64, count: u32) -> (
        RootView,
        Result<(Seq<u8>, bool), ErrView>,
    ) {
        s.read(ino, offset, count)
    }

    open spec fn readdir_step(s: RootView, dir: InodeId) -> (
        RootView,
        Result<Seq<DirEntryView>, ErrView>,
    ) {
        s.readdir(dir)
    }

    open spec fn readlink_step(s: RootView, ino: InodeId) -> (
        RootView,
        Result<Seq<char>, ErrView>,
    ) {
        s.readlink(ino)
    }

    open spec fn check_out_step(s: RootView, tree: Id, mtime: i64) -> (
        RootView,
        Result<(), ErrView>,
    ) {
        (s, Err(ErrView::PermissionDenied))
    }

    open spec fn create_step(
        s: RootView,
        parent: InodeId,
        name: Seq<char>,
        executable: bool,
    ) -> (RootView, Result<(InodeId, Attr), ErrView>) {
        s.create_file(parent, name, executable)
    }

    open spec fn redirect_step(s: RootView, parent: InodeId, name: Seq<char>) -> (
        RootView,
        Option<Seq<char>>,
    ) {
        s.redirect_target(parent, name)
    }

    open spec fn mkdir_step(
        s: RootView,
        parent: InodeId,
        name: Seq<char>,
        fault: Option<Seq<char>>,
    ) -> (RootView, Result<(InodeId, Attr), ErrView>) {
        s.mkdir(parent, name, fault)
    }

    open spec fn symlink_step(
        s: RootView,
        parent: InodeId,
        name: Seq<char>,
        target: Seq<char>,
    ) -> (RootView, Result<(InodeId, Attr), ErrView>) {
        s.symlink(parent, name, target)
    }

    open spec fn write_step(s: RootView, ino: InodeId, offset: u64, data: Seq<u8>) -> (
        RootView,
        Result<u32, ErrView>,
    ) {
        s.write(ino, offset, data)
    }

    open spec fn setattr_step(
        s: RootView,
        ino: InodeId,
        size: Option<u64>,
        executable: Option<bool>,
    ) -> (RootView, Result<Attr, ErrView>) {
        s.setattr(ino, size, executable)
    }

    open spec fn remove_step(s: RootView, parent: InodeId, name: Seq<char>) -> (
        RootView,
        Result<(), ErrView>,
    ) {
        s.remove(parent, name)
    }

    open spec fn rename_step(
        s: RootView,
        parent: InodeId,
        name: Seq<char>,
        new_parent: InodeId,
        new_name: Seq<char>,
    ) -> (RootView, Result<(), ErrView>) {
        s.rename(parent, name, new_parent, new_name)
    }

    fn lookup(&mut self, parent: InodeId, name: &str) -> (r: Result<InodeId, FsError>)
    {
        let slot: u32 = slot_of(parent);
        if slot == 0 {
            return self.synthetic_lookup(parent, name);
        }
        match self.hydrate(slot) {
            Ok(()) => {},
            Err(e) => {
                return Err(e);
            },
        }
        let ghost mid = self@;
        let (ri, mut live) = self.take_live(slot);
        let r = live.fs.lookup(&self.repos[ri].store, to_local(parent), name);
        self.put_live(slot, live, Ghost(mid));
        match r {
            Ok(x) => Ok(to_global(slot, x)),
            Err(e) => Err(e),
        }
    }

    fn getattr(&mut self, ino: InodeId) -> (r: Result<Attr, FsError>)
    {
        let slot: u32 = slot_of(ino);
        if slot == 0 {
            return self.synthetic_getattr(ino);
        }
        match self.hydrate(slot) {
            Ok(()) => {},
            Err(e) => {
                return Err(e);
            },
        }
        let (ri, live) = self.live_at(slot);
        match live.fs.getattr(&self.repos[ri].store, to_local(ino)) {
            Ok(x) => Ok(attr_to_global(slot, x)),
            Err(e) => Err(e),
        }
    }

    fn read(
        &mut self,
        ino: InodeId,
        offset: u64,
        count: u32,
    ) -> (r: Result<(Vec<u8>, bool), FsError>)
    {
        let slot: u32 = slot_of(ino);
        if slot == 0 {
            return Err(FsError::NotAFile);
        }
        match self.hydrate(slot) {
            Ok(()) => {},
            Err(e) => {
                return Err(e);
            },
        }
        let (ri, live) = self.live_at(slot);
        match live.fs.read(&self.repos[ri].store, to_local(ino), offset, count) {
            Ok(x) => Ok(x),
            Err(e) => Err(e),
        }
    }

    fn readdir(&mut self, dir: InodeId) -> (r: Result<Vec<DirEntry>, FsError>)
    {
        let slot: u32 = slot_of(dir);
        if slot == 0 {
            return self.synthetic_readdir(dir);
        }
        match self.hydrate(slot) {
            Ok(()) => {},
            Err(e) => {
                return Err(e);
            },
        }
        let ghost mid = self@;
        let (ri, mut live) = self.take_live(slot);
        let r = live.fs.readdir(&self.repos[ri].store, to_local(dir));
        self.put_live(slot, live, Ghost(mid));
        match r {
            Ok(x) => Ok(listing_to_global(slot, x)),
            Err(e) => Err(e),
        }
    }

    fn readlink(&mut self, ino: InodeId) -> (r: Result<String, FsError>)
    {
        let slot: u32 = slot_of(ino);
        if slot == 0 {
            return Err(FsError::NotASymlink);
        }
        match self.hydrate(slot) {
            Ok(()) => {},
            Err(e) => {
                return Err(e);
            },
        }
        let (ri, live) = self.live_at(slot);
        match live.fs.readlink(&self.repos[ri].store, to_local(ino)) {
            Ok(x) => Ok(x),
            Err(e) => Err(e),
        }
    }

    fn check_out(&mut self, new_root_tree: Id, commit_mtime_secs: i64) -> (r: Result<(), FsError>)
    {
        Err(FsError::PermissionDenied)
    }

    fn create_file(
        &mut self,
        parent: InodeId,
        name: &str,
        executable: bool,
    ) -> (r: Result<(InodeId, Attr), FsError>)
    {
        let slot: u32 = slot_of(parent);
        if slot == 0 {
            return Err(FsError::PermissionDenied);
        }
        match self.hydrate(slot) {
            Ok(()) => {},
            Err(e) => {
                return Err(e);
            },
        }
        let ghost mid = self@;
        let (ri, mut live) = self.take_live(slot);
        let r = live.fs.create_file(&self.repos[ri].store, to_local(parent), name, executable);
        self.put_live(slot, live, Ghost(mid));
        match r {
            Ok(x) => Ok((to_global(slot, x.0), attr_to_global(slot, x.1))),
            Err(e) => Err(e),
        }
    }

    fn redirect_target(&mut self, parent: InodeId, name: &str) -> (r: Option<String>)
    {
        let slot: u32 = slot_of(parent);
        if slot == 0 {
            return None;
        }
        match self.hydrate(slot) {
            Ok(()) => {},
            Err(_) => {
                return None;
            },
        }
        let (ri, live) = self.live_at(slot);
        live.fs.redirect_target(&self.repos[ri].store, to_local(parent), name)
    }

    fn mkdir(
        &mut self,
        parent: InodeId,
        name: &str,
        scratch_fault: Option<String>,
    ) -> (r: Result<(InodeId, Attr), FsError>)
    {
        let slot: u32 = slot_of(parent);
        if slot == 0 {
            return Err(FsError::PermissionDenied);
        }
        match self.hydrate(slot) {
            Ok(()) => {},
            Err(e) => {
                return Err(e);
            },
        }
        let ghost mid = self@;
        let (ri, mut live) = self.take_live(slot);
        let r = live.fs.mkdir(&self.repos[ri].store, to_local(parent), name, scratch_fault);
        self.put_live(slot, live, Ghost(mid));
        match r {
            Ok(x) => Ok((to_global(slot, x.0), attr_to_global(slot, x.1))),
            Err(e) => Err(e),
        }
    }

    fn symlink(
        &mut self,
        parent: InodeId,
        name: &str,
        target: &str,
    ) -> (r: Result<(InodeId, Attr), FsError>)
    {
        let slot: u32 = slot_of(parent);
        if slot == 0 {
            return Err(FsError::PermissionDenied);
        }
        match self.hydrate(slot) {
            Ok(()) => {},
            Err(e) => {
                return Err(e);
            },
        }
        let ghost mid = self@;
        let (ri, mut live) = self.take_live(slot);
        let r = live.fs.symlink(&self.repos[ri].store, to_local(parent), name, target);
        self.put_live(slot, live, Ghost(mid));
        match r {
            Ok(x) => Ok((to_global(slot, x.0), attr_to_global(slot, x.1))),
            Err(e) => Err(e),
        }
    }

    fn write(&mut self, ino: InodeId, offset: u64, data: &[u8]) -> (r: Result<u32, FsError>)
    {
        let slot: u32 = slot_of(ino);
        if slot == 0 {
            return Err(FsError::PermissionDenied);
        }
        match self.hydrate(slot) {
            Ok(()) => {},
            Err(e) => {
                return Err(e);
            },
        }
        let ghost mid = self@;
        let (ri, mut live) = self.take_live(slot);
        let r = live.fs.write(&self.repos[ri].store, to_local(ino), offset, data);
        self.put_live(slot, live, Ghost(mid));
        match r {
            Ok(x) => Ok(x),
            Err(e) => Err(e),
        }
    }

    fn setattr(
        &mut self,
        ino: InodeId,
        size: Option<u64>,
        executable: Option<bool>,
    ) -> (r: Result<Attr, FsError>)
    {
        let slot: u32 = slot_of(ino);
        if slot == 0 {
            return Err(FsError::PermissionDenied);
        }
        match self.hydrate(slot) {
            Ok(()) => {},
            Err(e) => {
                return Err(e);
            },
        }
        let ghost mid = self@;
        let (ri, mut live) = self.take_live(slot);
        let r = live.fs.setattr(&self.repos[ri].store, to_local(ino), size, executable);
        self.put_live(slot, live, Ghost(mid));
        match r {
            Ok(x) => Ok(attr_to_global(slot, x)),
            Err(e) => Err(e),
        }
    }

    fn remove(&mut self, parent: InodeId, name: &str) -> (r: Result<(), FsError>)
    {
        let slot: u32 = slot_of(parent);
        if slot == 0 {
            return Err(FsError::PermissionDenied);
        }
        match self.hydrate(slot) {
            Ok(()) => {},
            Err(e) => {
                return Err(e);
            },
        }
        let ghost mid = self@;
        let (ri, mut live) = self.take_live(slot);
        let r = live.fs.remove(&self.repos[ri].store, to_local(parent), name);
        self.put_live(slot, live, Ghost(mid));
        match r {
            Ok(x) => Ok(x),
            Err(e) => Err(e),
        }
    }

    fn rename(&mut self, parent: InodeId, name: &str, new_parent: InodeId, new_name: &str) -> (r:
        Result<(), FsError>)
    {
        let slot: u32 = slot_of(parent);
        if slot != slot_of(new_parent) {
            return Err(FsError::CrossDevice);
        }
        if slot == 0 {
            return Err(FsError::PermissionDenied);
        }
        match self.hydrate(slot) {
            Ok(()) => {},
            Err(e) => {
                return Err(e);
            },
        }
        let ghost mid = self@;
        let (ri, mut live) = self.take_live(slot);
        let r = live.fs.rename(
            &self.repos[ri].store,
            to_local(parent),
            name,
            to_local(new_parent),
            new_name,
        );
        self.put_live(slot, live, Ghost(mid));
        r
    }

    fn snapshot(&mut self) -> (r: Result<Id, FsError>)
        ensures
            final(self)@ == old(self)@,
            outcome(r) == Err::<Id, ErrView>(ErrView::PermissionDenied),
    {
        Err(FsError::PermissionDenied)
    }
}

// ---- what the mount promises -----------------------------------------------------------------

/// A pending workspace does not show and is not found; once it is finalized, it
/// shows in the directory of its repository under the root of its slot.
pub proof fn finalized_workspace_shows(v: RootView, ws: WorkspaceView, i: int)
    requires
        v.wf(),
        ws.state == WorkspaceState::Pending,
        v.with_workspace(ws).1 is Ok,
        repo_at(v.repos, ws.repo) == Some(i),
    ensures
        ({
            let dir = v.repos[i].inode;
            let registered = v.with_workspace(ws).0;
            let (finished, r) = registered.finalized(ws.repo, ws.name);
            &&& registered.synthetic_child(dir, ws.name) == Err::<InodeId, ErrView>(
                ErrView::NotFound,
            )
            &&& registered.workspace(ws.repo, ws.name) == (
                registered,
                Err::<WorkspaceHandle, ErrView>(ErrView::NotFound),
            )
            &&& r is Ok
            &&& finished.synthetic_child(dir, ws.name) == Ok::<InodeId, ErrView>(
                global(ws.slot, ROOT_INODE),
            )
            &&& finished.finalized(ws.repo, ws.name) == (finished, Ok::<(), ErrView>(()))
        }),
{
    lemma_repo_at(v.repos, ws.repo);
    let registered = v.with_workspace(ws).0;
    let n = v.workspaces.len() as int;
    assert(registered.workspaces == v.workspaces.push(ws));
    assert(registered.workspaces.drop_last() =~= v.workspaces);
    assert(registered.workspaces.last() == ws);
    assert(workspace_at(registered.workspaces, ws.repo, ws.name) == Some(n));
    assert(registered.synthetic_child(v.repos[i].inode, ws.name) is Err) by {
        reveal(RootView::tied);
        lemma_workspace_at(v.workspaces, ws.repo, ws.name);
    }
    let finished = registered.finalized(ws.repo, ws.name).0;
    let done = WorkspaceView { state: WorkspaceState::Active, ..ws };
    assert(finished.workspaces == registered.workspaces.update(n, done));
    assert(finished.workspaces.drop_last() =~= v.workspaces);
    assert(finished.workspaces.last() == done);
    assert(workspace_at(finished.workspaces, ws.repo, ws.name) == Some(n));
}

/// Slots are never used again: the next slot to be handed out only goes up, and
/// it lies above every slot that was registered.
pub proof fn slots_go_up(v: RootView, ws: WorkspaceView, repo: Seq<char>, name: Seq<char>)
    requires
        v.wf(),
        ws.slot < SLOT_LIMIT,
    ensures
        v.with_workspace(ws).0.next_slot >= v.next_slot,
        forall|i: int|
            0 <= i < v.with_workspace(ws).0.workspaces.len() ==> (
            #[trigger] v.with_workspace(ws).0.workspaces[i]).slot < v.with_workspace(ws).0.next_slot,
        v.without_workspace(repo, name).0.next_slot == v.next_slot,
        v.finalized(repo, name).0.next_slot == v.next_slot,
{
    let after = v.with_workspace(ws).0;
    assert forall|i: int| 0 <= i < after.workspaces.len() implies (#[trigger] after.workspaces[i]).slot
        < after.next_slot by {
        if i < v.workspaces.len() {
            assert(after.workspaces[i] == v.workspaces[i]);
        }
    }
}

/// A removed workspace is not found any more, by name or in its directory.
pub proof fn removed_workspace_is_gone(v: RootView, repo: Seq<char>, name: Seq<char>)
    requires
        v.wf(),
        v.without_workspace(repo, name).1 is Ok,
    ensures
        ({
            let after = v.without_workspace(repo, name).0;
            &&& after.find(repo, name) is None
            &&& after.synthetic_child(v.repos[repo_at(v.repos, repo)->0].inode, name) == Err::<
                InodeId,
                ErrView,
            >(ErrView::NotFound)
        }),
{
    let i = v.find(repo, name)->0;
    lemma_workspace_at(v.workspaces, repo, name);
    let rest = v.workspaces.remove(i);
    lemma_workspace_at(rest, repo, name);
    if let Some(j) = workspace_at(rest, repo, name) {
        if j < i {
            assert(rest[j] == v.workspaces[j]);
        } else {
            assert(rest[j] == v.workspaces[j + 1]);
        }
    }
}

/// The workspace in a slot, and all directories and registrations, are as they
/// were.
pub open spec fn untouched(before: RootView, after: RootView, slot: u32) -> bool {
    &&& after.live.contains_key(slot)
    &&& after.live[slot] == before.live[slot]
    &&& after.dirs == before.dirs
    &&& after.repos == before.repos
    &&& after.workspaces == before.workspaces
}

/// Workspaces do not see each other: a change in one slot leaves every other
/// live workspace as it is, and all directories and registrations.
pub proof fn workspaces_are_apart(
    v: RootView,
    other: u32,
    ino: InodeId,
    offset: u64,
    data: Seq<u8>,
    size: Option<u64>,
    executable: Option<bool>,
    mode: bool,
    name: Seq<char>,
    target: Seq<char>,
    fault: Option<Seq<char>>,
    new_parent: InodeId,
    new_name: Seq<char>,
)
    requires
        v.live.contains_key(other),
        slot(ino) != other,
    ensures
        untouched(v, v.write(ino, offset, data).0, other),
        untouched(v, v.setattr(ino, size, executable).0, other),
        untouched(v, v.create_file(ino, name, mode).0, other),
        untouched(v, v.mkdir(ino, name, fault).0, other),
        untouched(v, v.symlink(ino, name, target).0, other),
        untouched(v, v.remove(ino, name).0, other),
        untouched(v, v.rename(ino, name, new_parent, new_name).0, other),
{
}

/// The synthetic directories cannot be changed through the mount, and a move
/// stays within its workspace.
pub proof fn synthetic_directories_are_fixed(
    v: RootView,
    dir: InodeId,
    name: Seq<char>,
    target: Seq<char>,
    executable: bool,
    fault: Option<Seq<char>>,
    new_dir: InodeId,
    new_name: Seq<char>,
)
    requires
        slot(dir) == 0,
    ensures
        v.create_file(dir, name, executable) == (
            v,
            Err::<(InodeId, Attr), ErrView>(ErrView::PermissionDenied),
        ),
        v.mkdir(dir, name, fault) == (
            v,
            Err::<(InodeId, Attr), ErrView>(ErrView::PermissionDenied),
        ),
        v.symlink(dir, name, target) == (
            v,
            Err::<(InodeId, Attr), ErrView>(ErrView::PermissionDenied),
        ),
        v.remove(dir, name) == (v, Err::<(), ErrView>(ErrView::PermissionDenied)),
        v.rename(dir, name, new_dir, new_name) == (
            v,
            Err::<(), ErrView>(
                if slot(new_dir) == 0 {
                    ErrView::PermissionDenied
                } else {
                    ErrView::CrossDevice
                },
            ),
        ),
        v.rename(new_dir, new_name, dir, name).0 == v,
        v.rename(new_dir, new_name, dir, name).1 is Err,
{
}

} // verus!
