//! What the mount of many workspaces promises as a whole: its directories show
//! what is registered, and workspaces of a repository share its objects.
use vstd::prelude::*;
use crate::git_store::Objects;
use crate::store::Rows;
use crate::vfs::inode::{InodeId, ROOT_INODE};
use crate::vfs::kiki_fs::KikiView;
use crate::vfs::name_map::{ascending, in_order, in_order_of_finite};
use crate::vfs::root_fs::{
    global, lemma_repo_at, lemma_repo_names, lemma_repos_kept, lemma_workspace_at, repo_at, slot, workspace_at, RootView,
    WorkspaceHandle, WorkspaceState, WorkspaceView,
};
use crate::vfs::types::{DirEntryView, ErrView, FileKind};

verus! {

/// The root shows exactly the repositories, each under its name at its inode, which
/// lies in slot 0 as long as the numbers of directories do.
pub proof fn root_shows_repositories(v: RootView, name: Seq<char>)
    requires
        v.wf(),
    ensures
        v.synthetic_child(ROOT_INODE, name) == match repo_at(v.repos, name) {
            Some(i) => Ok::<InodeId, ErrView>(v.repos[i].inode),
            None => Err::<InodeId, ErrView>(ErrView::NotFound),
        },
        v.next_synthetic <= 0x100_0000_0000 ==> (v.synthetic_child(ROOT_INODE, name) matches Ok(ino)
            ==> slot(ino) == 0),
{
    reveal(RootView::tied);
    lemma_repo_at(v.repos, name);
    if let Some(i) = repo_at(v.repos, name) {
        let ino = v.repos[i].inode;
        assert(v.dirs.contains_key(ino));
        if v.next_synthetic <= 0x100_0000_0000 {
            assert((ino >> 40) as u32 == 0) by (bit_vector)
                requires
                    ino < 0x100_0000_0000u64,
            ;
        }
    }
}

/// The directory of a repository shows exactly its active workspaces, each under
/// its name at the root of its slot. A pending workspace does not show.
pub proof fn repository_shows_active_workspaces(v: RootView, i: int, name: Seq<char>)
    requires
        v.wf(),
        0 <= i < v.repos.len(),
    ensures
        v.synthetic_child(v.repos[i].inode, name) == match workspace_at(
            v.workspaces,
            v.repos[i].name,
            name,
        ) {
            Some(w) => if v.workspaces[w].state == WorkspaceState::Active {
                Ok::<InodeId, ErrView>(global(v.workspaces[w].slot, ROOT_INODE))
            } else {
                Err::<InodeId, ErrView>(ErrView::NotFound)
            },
            None => Err::<InodeId, ErrView>(ErrView::NotFound),
        },
{
    reveal(RootView::tied);
    let repo = v.repos[i];
    lemma_workspace_at(v.workspaces, repo.name, name);
    assert(v.dirs.contains_key(repo.inode));
    if v.dirs[v.repos[i].inode].contains_key(name) {
        let w = choose|w: int|
            {
                &&& 0 <= w < v.workspaces.len()
                &&& (#[trigger] v.workspaces[w]).repo == v.repos[i].name
                &&& v.workspaces[w].name == name
                &&& v.workspaces[w].state == WorkspaceState::Active
            };
        let found = workspace_at(v.workspaces, repo.name, name)->0;
        assert(v.workspaces[found].name == name);
        assert(found == w);
    }
}

/// The directories of the mount are its root and one for each repository.
pub open spec fn is_directory(v: RootView, dir: InodeId) -> bool {
    dir == ROOT_INODE || exists|i: int|
        0 <= i < v.repos.len() && (#[trigger] v.repos[i]).inode == dir
}

proof fn lemma_few_names(v: RootView, dir: InodeId)
    requires
        v.wf(),
        v.dirs.contains_key(dir),
    ensures
        v.dirs[dir].dom().finite(),
{
    reveal(RootView::tied);
    let names = v.dirs[dir].dom();
    if dir == ROOT_INODE {
        let all = Seq::new(v.repos.len(), |i: int| v.repos[i].name);
        assert forall|name: Seq<char>| #[trigger] names.contains(name) implies all.to_set().contains(
            name,
        ) by {
            assert(v.dirs[ROOT_INODE].contains_key(name));
            lemma_repo_at(v.repos, name);
            assert(all[repo_at(v.repos, name)->0] == name);
        }
        assert(names.subset_of(all.to_set()));
    } else {
        let i = choose|i: int| 0 <= i < v.repos.len() && (#[trigger] v.repos[i]).inode == dir;
        let all = Seq::new(v.workspaces.len(), |w: int| v.workspaces[w].name);
        assert forall|name: Seq<char>| #[trigger] names.contains(name) implies all.to_set().contains(
            name,
        ) by {
            assert(v.dirs[v.repos[i].inode].contains_key(name));
            let w = choose|w: int|
                {
                    &&& 0 <= w < v.workspaces.len()
                    &&& (#[trigger] v.workspaces[w]).repo == v.repos[i].name
                    &&& v.workspaces[w].name == name
                    &&& v.workspaces[w].state == WorkspaceState::Active
                };
            assert(all[w] == name);
        }
        assert(names.subset_of(all.to_set()));
    }
}

/// A listing fails, with `NotFound`, exactly where there is no directory. It
/// names directories in strictly ascending order, and holds exactly what a lookup
/// finds, under the inode that the lookup gives.
pub proof fn synthetic_listing_is_what_is_found(v: RootView, dir: InodeId)
    requires
        v.wf(),
    ensures
        match v.synthetic_listing(dir) {
            Err(e) => !is_directory(v, dir) && e == ErrView::NotFound,
            Ok(listing) => {
                &&& is_directory(v, dir)
                &&& ascending(listing.map_values(|e: DirEntryView| e.name))
                &&& forall|k: int|
                    0 <= k < listing.len() ==> (#[trigger] listing[k]).kind == FileKind::Directory
                        && v.synthetic_child(dir, listing[k].name) == Ok::<InodeId, ErrView>(
                        listing[k].inode,
                    )
                &&& forall|name: Seq<char>| #[trigger]
                    v.synthetic_child(dir, name) is Ok ==> exists|k: int|
                        0 <= k < listing.len() && (#[trigger] listing[k]).name == name
            },
        },
{
    assert(v.dirs.contains_key(dir) == is_directory(v, dir)) by {
        reveal(RootView::tied);
    }
    if v.dirs.contains_key(dir) {
        lemma_few_names(v, dir);
        let children = v.dirs[dir];
        in_order_of_finite(children);
        let names = in_order(children);
        let listing = v.synthetic_listing(dir)->Ok_0;
        assert(listing.map_values(|e: DirEntryView| e.name) =~= names);
        assert forall|k: int| 0 <= k < listing.len() implies (#[trigger] listing[k]).kind
            == FileKind::Directory && v.synthetic_child(dir, listing[k].name) == Ok::<
            InodeId,
            ErrView,
        >(listing[k].inode) by {
            assert(listing[k].name == names[k]);
            assert(names.to_set().contains(names[k]));
        }
        assert forall|name: Seq<char>| #[trigger] v.synthetic_child(dir, name) is Ok implies exists|
            k: int,
        |
            0 <= k < listing.len() && (#[trigger] listing[k]).name == name by {
            assert(names.to_set().contains(name));
            let k = choose|k: int| 0 <= k < names.len() && names[k] == name;
            assert(listing[k].name == name);
        }
    }
}

/// No two workspaces use the same slot.
pub open spec fn slots_differ(v: RootView) -> bool {
    forall|i: int, j: int|
        0 <= i < j < v.workspaces.len() ==> (#[trigger] v.workspaces[i]).slot != (
        #[trigger] v.workspaces[j]).slot
}

/// Asking for a workspace by name fails, with `NotFound`, exactly where its
/// repository or the workspace is unknown or the workspace is pending. Otherwise
/// its slot is given and its filesystem is there, and asking again changes nothing
/// and gives the same: the same filesystem, the same objects and the same refs.
pub proof fn workspace_is_found_again(v: RootView, repo: Seq<char>, name: Seq<char>)
    requires
        v.wf(),
    ensures
        ({
            let (after, r) = v.workspace(repo, name);
            match v.find(repo, name) {
                Some(i) if v.workspaces[i].state == WorkspaceState::Active => {
                    let slot = v.workspaces[i].slot;
                    let (again, s) = after.workspace(repo, name);
                    &&& r == Ok::<WorkspaceHandle, ErrView>(
                        WorkspaceHandle {
                            slot,
                            connected: v.repos[repo_at(v.repos, repo)->0].connected,
                        },
                    )
                    &&& after.live.contains_key(slot)
                    &&& (again, s) == (after, r)
                    &&& again.live[slot] == after.live[slot]
                    &&& again.objects_for(slot) == after.objects_for(slot)
                    &&& again.rows_for(slot) == after.rows_for(slot)
                },
                _ => r == Err::<WorkspaceHandle, ErrView>(ErrView::NotFound) && after == v,
            }
        }),
{
    reveal(RootView::tied);
    lemma_workspace_at(v.workspaces, repo, name);
}

/// Where no two workspaces use the same slot, a live filesystem reads the objects
/// of the repository of its workspace, and its refs are those of the repository:
/// the workspaces of a repository share both.
pub proof fn workspaces_share_their_repository(v: RootView, i: int)
    requires
        v.wf(),
        slots_differ(v),
        0 <= i < v.workspaces.len(),
        v.live.contains_key(v.workspaces[i].slot),
    ensures
        ({
            let slot = v.workspaces[i].slot;
            let repo = v.repos[repo_at(v.repos, v.workspaces[i].repo)->0];
            &&& v.live[slot].repo == v.workspaces[i].repo
            &&& repo_at(v.repos, v.workspaces[i].repo) is Some
            &&& v.objects_for(slot) == repo.objects
            &&& v.rows_for(slot) == repo.rows
        }),
{
    reveal(RootView::tied);
    let s = v.workspaces[i].slot;
    let w = choose|w: int|
        0 <= w < v.workspaces.len() && (#[trigger] v.workspaces[w]).slot == s
            && v.workspaces[w].repo == v.live[s].repo;
    assert(v.workspaces[w].slot == v.workspaces[i].slot);
    assert(w == i);
}

/// The workspace that a name gives is that of its repository: its filesystem reads
/// the objects that were given with the repository, and its refs are in the
/// database that was.
pub proof fn found_workspace_is_of_its_repository(v: RootView, repo: Seq<char>, name: Seq<char>)
    requires
        v.wf(),
        slots_differ(v),
        v.workspace(repo, name).1 is Ok,
    ensures
        ({
            let (after, r) = v.workspace(repo, name);
            let slot = (r->Ok_0).slot;
            let entry = v.repos[repo_at(v.repos, repo)->0];
            &&& after.repos == v.repos
            &&& after.live[slot].repo == repo
            &&& after.objects_for(slot) == entry.objects
            &&& after.rows_for(slot) == entry.rows
            &&& (r->Ok_0).connected == entry.connected
        }),
{
    reveal(RootView::tied);
    lemma_workspace_at(v.workspaces, repo, name);
    let i = v.find(repo, name)->0;
    if v.live.contains_key(v.workspaces[i].slot) {
        workspaces_share_their_repository(v, i);
    }
}

/// A ref that is set through one workspace is found through every workspace of the
/// same repository, and through no other; no filesystem and no object changes.
pub proof fn refs_are_shared(v: RootView, slot: u32, other: u32, rows: Rows)
    requires
        v.wf(),
        v.live.contains_key(slot),
        v.live.contains_key(other),
    ensures
        ({
            let after = v.with_rows_for(slot, rows);
            &&& after.live == v.live
            &&& after.workspaces == v.workspaces
            &&& after.objects_for(other) == v.objects_for(other)
            &&& after.rows_for(other) == if v.live[other].repo == v.live[slot].repo {
                rows
            } else {
                v.rows_for(other)
            }
        }),
{
    let after = v.with_rows_for(slot, rows);
    lemma_repo_at(v.repos, v.live[slot].repo);
    lemma_repo_at(v.repos, v.live[other].repo);
    lemma_repo_names(after.repos, v.repos, v.live[other].repo);
    lemma_repo_names(after.repos, v.repos, v.live[slot].repo);
}

/// A name gives the same as before: the same handle, without making a filesystem.
pub open spec fn found_as_before(
    v: RootView,
    after: RootView,
    repo: Seq<char>,
    name: Seq<char>,
) -> bool {
    let slot = v.workspaces[v.find(repo, name)->0].slot;
    &&& after.workspace(repo, name) == (after, v.workspace(repo, name).1)
    &&& after.live.contains_key(slot)
    &&& after.live[slot].repo == v.live[slot].repo
}

proof fn lemma_found_at(
    workspaces: Seq<WorkspaceView>,
    repo: Seq<char>,
    name: Seq<char>,
    i: int,
)
    requires
        0 <= i < workspaces.len(),
        workspaces[i].repo == repo,
        workspaces[i].name == name,
        forall|j: int|
            0 <= j < workspaces.len() && j != i ==> (#[trigger] workspaces[j]).repo != repo
                || workspaces[j].name != name,
    ensures
        workspace_at(workspaces, repo, name) == Some(i),
{
    lemma_workspace_at(workspaces, repo, name);
    let found = workspace_at(workspaces, repo, name);
    if let Some(j) = found {
        if j != i {
            assert(workspaces[j].repo != repo || workspaces[j].name != name);
        }
    }
}

/// A workspace that was found stays found: whatever is registered, finalized,
/// hydrated, edited or set, and whichever other workspace is removed, its name gives
/// the same handle and its filesystem is not made anew.
pub proof fn workspace_stays_found(
    v: RootView,
    repo: Seq<char>,
    name: Seq<char>,
    new_repo: Seq<char>,
    url: Seq<char>,
    objects: Objects,
    git_path: Seq<char>,
    rows: Rows,
    connected: bool,
    ws: WorkspaceView,
    other_repo: Seq<char>,
    other: Seq<char>,
    slot: u32,
    tree: KikiView,
)
    requires
        v.wf(),
        slots_differ(v),
        v.workspace(repo, name).1 is Ok,
        v.live.contains_key((v.workspace(repo, name).1->Ok_0).slot),
        (other_repo, other) != (repo, name),
    ensures
        found_as_before(
            v,
            v.with_repo(new_repo, url, objects, git_path, rows, connected),
            repo,
            name,
        ),
        found_as_before(v, v.with_workspace(ws).0, repo, name),
        found_as_before(v, v.finalized(other_repo, other).0, repo, name),
        found_as_before(v, v.without_workspace(other_repo, other).0, repo, name),
        found_as_before(v, v.hydrated(slot).0, repo, name),
        v.live.contains_key(slot) ==> found_as_before(v, v.with_tree(slot, tree), repo, name),
        v.live.contains_key(slot) ==> found_as_before(v, v.with_rows_for(slot, rows), repo, name),
{
    lemma_repo_at(v.repos, repo);
    lemma_workspace_at(v.workspaces, repo, name);
    let i = v.find(repo, name)->0;
    let own = v.workspaces[i];
    assert forall|j: int| 0 <= j < v.workspaces.len() && j != i implies (
    #[trigger] v.workspaces[j]).repo != repo || v.workspaces[j].name != name by {
        if j < i {
            assert(v.workspaces[j].repo != v.workspaces[i].repo || v.workspaces[j].name
                != v.workspaces[i].name);
        } else {
            assert(v.workspaces[i].repo != v.workspaces[j].repo || v.workspaces[i].name
                != v.workspaces[j].name);
        }
    }
    // a repository
    let more = v.with_repo(new_repo, url, objects, git_path, rows, connected);
    assert(more.repos.take(v.repos.len() as int) =~= v.repos);
    lemma_repos_kept(v.repos, more.repos, repo);
    // a workspace
    let wider = v.with_workspace(ws).0;
    if v.with_workspace(ws).1 is Ok {
        lemma_workspace_at(v.workspaces, ws.repo, ws.name);
        assert(wider.workspaces[i] == own);
        assert forall|j: int| 0 <= j < wider.workspaces.len() && j != i implies (
        #[trigger] wider.workspaces[j]).repo != repo || wider.workspaces[j].name != name by {
            if j < v.workspaces.len() {
                assert(wider.workspaces[j] == v.workspaces[j]);
            } else {
                assert(v.workspaces[i].repo != ws.repo || v.workspaces[i].name != ws.name);
            }
        }
        lemma_found_at(wider.workspaces, repo, name, i);
    }
    // another workspace finalized or removed
    lemma_workspace_at(v.workspaces, other_repo, other);
    if let Some(at) = v.find(other_repo, other) {
        assert(at != i);
        let shown = v.finalized(other_repo, other).0;
        assert forall|j: int| 0 <= j < shown.workspaces.len() && j != i implies (
        #[trigger] shown.workspaces[j]).repo != repo || shown.workspaces[j].name != name by {
            assert(v.workspaces[j].repo != repo || v.workspaces[j].name != name);
        }
        lemma_found_at(shown.workspaces, repo, name, i);
        let fewer = v.without_workspace(other_repo, other).0;
        let k = if i < at {
            i
        } else {
            i - 1
        };
        assert(fewer.workspaces[k] == own);
        assert forall|j: int| 0 <= j < fewer.workspaces.len() && j != k implies (
        #[trigger] fewer.workspaces[j]).repo != repo || fewer.workspaces[j].name != name by {
            let old_j = if j < at {
                j
            } else {
                j + 1
            };
            assert(fewer.workspaces[j] == v.workspaces[old_j]);
            assert(old_j != i);
        }
        lemma_found_at(fewer.workspaces, repo, name, k);
        assert(v.workspaces[at].slot != own.slot) by {
            if at < i {
                assert(v.workspaces[at].slot != v.workspaces[i].slot);
            } else {
                assert(v.workspaces[i].slot != v.workspaces[at].slot);
            }
        }
    }
    // rows
    if v.live.contains_key(slot) {
        let set = v.with_rows_for(slot, rows);
        lemma_repo_at(v.repos, v.live[slot].repo);
        lemma_repo_names(set.repos, v.repos, repo);
    }
}

/// Slots that are handed out keep slots apart: a workspace that is registered
/// under a slot no workspace has leaves all slots different, and so does removing
/// or finalizing one.
pub proof fn slots_stay_apart(
    v: RootView,
    ws: WorkspaceView,
    repo: Seq<char>,
    name: Seq<char>,
)
    requires
        v.wf(),
        slots_differ(v),
        ws.slot >= v.next_slot,
    ensures
        slots_differ(v.with_workspace(ws).0),
        slots_differ(v.without_workspace(repo, name).0),
        slots_differ(v.finalized(repo, name).0),
{
    lemma_workspace_at(v.workspaces, repo, name);
    let more = v.with_workspace(ws).0;
    assert forall|i: int, j: int| 0 <= i < j < more.workspaces.len() implies (
    #[trigger] more.workspaces[i]).slot != (#[trigger] more.workspaces[j]).slot by {
        assert(more.workspaces[i] == v.workspaces[i]);
        if j < v.workspaces.len() {
            assert(more.workspaces[j] == v.workspaces[j]);
        }
    }
    if let Some(at) = v.find(repo, name) {
        let fewer = v.without_workspace(repo, name).0;
        assert forall|i: int, j: int| 0 <= i < j < fewer.workspaces.len() implies (
        #[trigger] fewer.workspaces[i]).slot != (#[trigger] fewer.workspaces[j]).slot by {
            assert(fewer.workspaces[i] == v.workspaces[if i < at { i } else { i + 1 }]);
            assert(fewer.workspaces[j] == v.workspaces[if j < at { j } else { j + 1 }]);
        }
        let shown = v.finalized(repo, name).0;
        assert forall|i: int, j: int| 0 <= i < j < shown.workspaces.len() implies (
        #[trigger] shown.workspaces[i]).slot != (#[trigger] shown.workspaces[j]).slot by {
            assert(shown.workspaces[i].slot == v.workspaces[i].slot);
            assert(shown.workspaces[j].slot == v.workspaces[j].slot);
        }
    }
}

} // verus!
