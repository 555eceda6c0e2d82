//! What the served filesystems do with requests: that of a working copy with its
//! tree and its objects, and that of a mount with the workspaces under it.
use vstd::prelude::*;
use crate::git_store::EMPTY_TREE;
use crate::ty::Id;
use crate::vfs::inode::{InodeId, NodeView, ROOT_INODE};
use crate::vfs::io_laws::bytes_of;
use crate::vfs::kiki_fs::{JjKikiFs, KikiFs, KikiFsView};
use crate::vfs::model::lemma_dirtied_len;
use crate::vfs::root_fs::{
    global, inode_round_trip, recorded_tree, repo_at, scratch_path, RootFs, RootView,
};
use crate::vfs::tidy::tidy;
use crate::vfs::tree_ops::{
    attr_result, listing, looked_up, read_result, readlink_result, tree_result,
};
use crate::vfs::types::{Attr, ErrView, FileKind};
use crate::vfs::yak_fs::{
    attr_changed, bytes_written, entry_added, entry_moved, entry_removed, YakFs,
};
use crate::vfs::yak_served::YakView;

verus! {

/// Requests that only read leave the working copy and the store as they are, and
/// give what the inode holds; requests that change the tree leave the store.
pub proof fn working_copy_answers_from_its_tree(
    s: KikiFsView,
    ino: InodeId,
    offset: u64,
    count: u32,
    name: Seq<char>,
    data: Seq<u8>,
    size: Option<u64>,
    executable: Option<bool>,
    new_parent: InodeId,
    new_name: Seq<char>,
    tree: Id,
    mtime: i64,
    fault: Option<Seq<char>>,
)
    ensures
        KikiFs::read_step(s, ino, offset, count) == (
            s,
            read_result(s.tree.slab, s.objects, ino, offset, count),
        ),
        KikiFs::getattr_step(s, ino) == (
            s,
            attr_result(s.tree.slab, s.objects, ino, s.tree.commit_mtime),
        ),
        KikiFs::readlink_step(s, ino) == (s, readlink_result(s.tree.slab, s.objects, ino)),
        KikiFs::redirect_step(s, ino, name).0 == s,
        ({
            let (t, r) = s.tree.lookup(s.objects, ino, name);
            KikiFs::lookup_step(s, ino, name) == (KikiFsView { tree: t, ..s }, r)
        }),
        ({
            let (t, r) = s.tree.readdir(s.objects, ino);
            KikiFs::readdir_step(s, ino) == (KikiFsView { tree: t, ..s }, r)
        }),
        ({
            let (t, r) = s.tree.write(s.objects, ino, offset, data);
            KikiFs::write_step(s, ino, offset, data) == (KikiFsView { tree: t, ..s }, r)
        }),
        ({
            let (t, r) = s.tree.setattr(s.objects, ino, size, executable);
            KikiFs::setattr_step(s, ino, size, executable) == (KikiFsView { tree: t, ..s }, r)
        }),
        ({
            let (t, r) = s.tree.remove(s.objects, ino, name);
            KikiFs::remove_step(s, ino, name) == (KikiFsView { tree: t, ..s }, r)
        }),
        ({
            let (t, r) = s.tree.rename(s.objects, ino, name, new_parent, new_name);
            KikiFs::rename_step(s, ino, name, new_parent, new_name) == (
                KikiFsView { tree: t, ..s },
                r,
            )
        }),
        ({
            let (t, r) = s.tree.mkdir(s.objects, ino, name, fault);
            KikiFs::mkdir_step(s, ino, name, fault) == (KikiFsView { tree: t, ..s }, r)
        }),
        ({
            let (t, r) = s.tree.check_out(s.objects, tree, mtime);
            KikiFs::check_out_step(s, tree, mtime) == (KikiFsView { tree: t, ..s }, r)
        }),
{
}

/// A new file and a new symlink are entries that are added to the tree: the one empty,
/// with its mode, the other with its target.
pub proof fn new_entries_are_added_to_the_tree(
    s: KikiFsView,
    parent: InodeId,
    name: Seq<char>,
    executable: bool,
    target: Seq<char>,
)
    ensures
        ({
            let file = NodeView::DirtyFile { content: Seq::empty(), executable };
            let (made, r) = KikiFs::create_step(s, parent, name, executable);
            (made.tree, r) == s.tree.add_entry(s.objects, parent, name, file)
        }),
        ({
            let link = NodeView::DirtySymlink(target);
            let (made, r) = KikiFs::symlink_step(s, parent, name, target);
            (made.tree, r) == s.tree.add_entry(s.objects, parent, name, link)
        }),
        KikiFs::redirect_step(s, parent, name).1 == s.tree.redirect_target(s.objects, parent, name),
{
}

/// A new file is empty and has the mode that was asked for; a new symlink has the
/// target that was asked for. Both are found under their name from then on, and
/// their attributes are given.
pub proof fn new_entries_are_what_was_asked_for(
    s: KikiFsView,
    parent: InodeId,
    name: Seq<char>,
    executable: bool,
    target: Seq<char>,
)
    requires
        s.tree.wf(),
        KikiFs::create_step(s, parent, name, executable).0.tree.slab.inodes.len() <= u64::MAX,
        KikiFs::symlink_step(s, parent, name, target).0.tree.slab.inodes.len() <= u64::MAX,
    ensures
        ({
            let (after, r) = KikiFs::create_step(s, parent, name, executable);
            &&& after.objects == s.objects
            &&& after.git_path == s.git_path
            &&& r matches Ok((ino, attr)) ==> {
                &&& bytes_of(after.tree.slab, s.objects, ino) == Some(Seq::<u8>::empty())
                &&& KikiFs::getattr_step(after, ino).1 == Ok::<Attr, ErrView>(attr)
                &&& attr.inode == ino
                &&& attr.kind == FileKind::Regular
                &&& attr.executable == executable
                &&& attr.size == 0
                &&& KikiFs::lookup_step(after, parent, name).1 == Ok::<InodeId, ErrView>(ino)
                &&& !s.tree.slab.has(ino)
            }
        }),
        ({
            let (after, r) = KikiFs::symlink_step(s, parent, name, target);
            &&& after.objects == s.objects
            &&& after.git_path == s.git_path
            &&& r matches Ok((ino, attr)) ==> {
                &&& KikiFs::readlink_step(after, ino).1 == Ok::<Seq<char>, ErrView>(target)
                &&& KikiFs::getattr_step(after, ino).1 == Ok::<Attr, ErrView>(attr)
                &&& attr.inode == ino
                &&& attr.kind == FileKind::Symlink
                &&& KikiFs::lookup_step(after, parent, name).1 == Ok::<InodeId, ErrView>(ino)
                &&& !s.tree.slab.has(ino)
            }
        }),
{
    let (after, r) = KikiFs::create_step(s, parent, name, executable);
    lemma_dirtied_len(s.tree, s.objects, parent);
    let file = NodeView::DirtyFile { content: seq![], executable };
    if r is Ok {
        crate::vfs::laws::created_entry_is_found(s.tree, s.objects, parent, name, file);
    }
    let (linked, l) = KikiFs::symlink_step(s, parent, name, target);
    let link = NodeView::DirtySymlink(target);
    if l is Ok {
        crate::vfs::laws::created_entry_is_found(s.tree, s.objects, parent, name, link);
    }
    assert(seq![] =~= Seq::<u8>::empty());
}

/// A plain working copy answers reads from its inodes and changes nothing by them; what
/// it makes is what was asked for. It redirects nothing, has no modification times and
/// never changes the store by a request.
pub proof fn plain_working_copy_answers_from_its_inodes(
    s: YakView,
    ino: InodeId,
    name: Seq<char>,
    offset: u64,
    count: u32,
    data: Seq<u8>,
    size: Option<u64>,
    bit: Option<bool>,
    executable: bool,
    target: Seq<char>,
    fault: Option<Seq<char>>,
    new_parent: InodeId,
    new_name: Seq<char>,
    tree: Id,
    mtime: i64,
)
    ensures
        YakFs::read_step(s, ino, offset, count) == (
            s,
            read_result(s.slab, s.objects, ino, offset, count),
        ),
        YakFs::getattr_step(s, ino) == (s, attr_result(s.slab, s.objects, ino, 0)),
        YakFs::readlink_step(s, ino) == (s, readlink_result(s.slab, s.objects, ino)),
        YakFs::redirect_step(s, ino, name) == (s, None::<Seq<char>>),
        YakFs::lookup_step(s, ino, name).0.objects == s.objects,
        YakFs::readdir_step(s, ino).0.objects == s.objects,
        YakFs::lookup_step(s, ino, name).1 == looked_up(s.slab, s.objects, ino, name).1,
        YakFs::lookup_step(s, ino, name).0.slab == looked_up(s.slab, s.objects, ino, name).0,
        YakFs::write_step(s, ino, offset, data).0.objects == s.objects,
        YakFs::write_step(s, ino, offset, data).0.slab == bytes_written(
            s.slab,
            s.objects,
            ino,
            offset,
            data,
        ).0,
        YakFs::write_step(s, ino, offset, data).1 == bytes_written(
            s.slab,
            s.objects,
            ino,
            offset,
            data,
        ).1,
        YakFs::setattr_step(s, ino, size, bit).0.objects == s.objects,
        YakFs::setattr_step(s, ino, size, bit).0.slab == attr_changed(
            s.slab,
            s.objects,
            ino,
            size,
            bit,
        ).0,
        YakFs::setattr_step(s, ino, size, bit).1 == attr_changed(
            s.slab,
            s.objects,
            ino,
            size,
            bit,
        ).1,
        YakFs::remove_step(s, ino, name).0.objects == s.objects,
        YakFs::remove_step(s, ino, name).0.slab == entry_removed(s.slab, s.objects, ino, name).0,
        YakFs::remove_step(s, ino, name).1 == entry_removed(s.slab, s.objects, ino, name).1,
        YakFs::rename_step(s, ino, name, new_parent, new_name).0.objects == s.objects,
        YakFs::rename_step(s, ino, name, new_parent, new_name).0.slab == entry_moved(
            s.slab,
            s.objects,
            ino,
            name,
            new_parent,
            new_name,
        ).0,
        YakFs::rename_step(s, ino, name, new_parent, new_name).1 == entry_moved(
            s.slab,
            s.objects,
            ino,
            name,
            new_parent,
            new_name,
        ).1,
        YakFs::readdir_step(s, ino).0.slab == listing(s.slab, s.objects, ino, Set::empty()).0,
        YakFs::readdir_step(s, ino).1 == listing(s.slab, s.objects, ino, Set::empty()).1,
        ({
            let file = NodeView::DirtyFile { content: Seq::empty(), executable };
            let (made, r) = YakFs::create_step(s, ino, name, executable);
            (made.slab, r) == entry_added(s.slab, s.objects, ino, name, file)
        }),
        ({
            let dir = NodeView::DirtyTree(Map::empty());
            let (made, r) = YakFs::mkdir_step(s, ino, name, fault);
            (made.slab, r) == entry_added(s.slab, s.objects, ino, name, dir)
        }),
        ({
            let link = NodeView::DirtySymlink(target);
            let (made, r) = YakFs::symlink_step(s, ino, name, target);
            (made.slab, r) == entry_added(s.slab, s.objects, ino, name, link)
        }),
        YakFs::create_step(s, ino, name, executable).0.objects == s.objects,
        YakFs::mkdir_step(s, ino, name, fault).0.objects == s.objects,
        YakFs::symlink_step(s, ino, name, target).0.objects == s.objects,
        YakFs::check_out_step(s, tree, mtime).0.objects == s.objects,
        s.slab.has(ROOT_INODE) && YakFs::check_out_step(s, tree, mtime).1 is Ok ==> YakFs::check_out_step(
            s,
            tree,
            mtime,
        ).0.slab.node(ROOT_INODE) == NodeView::Tree(tree),
        YakFs::check_out_step(s, tree, mtime).1 is Ok <==> tree_result(s.objects, tree) is Ok,
{
}

/// What a plain working copy makes is what was asked for: an empty file with its mode,
/// an empty directory, and a symlink with its target. Each is found under its name.
pub proof fn new_plain_entries_are_what_was_asked_for(
    s: YakView,
    parent: InodeId,
    name: Seq<char>,
    executable: bool,
    target: Seq<char>,
    fault: Option<Seq<char>>,
)
    requires
        tidy(s.slab),
        YakFs::create_step(s, parent, name, executable).0.slab.inodes.len() <= u64::MAX,
        YakFs::mkdir_step(s, parent, name, fault).0.slab.inodes.len() <= u64::MAX,
        YakFs::symlink_step(s, parent, name, target).0.slab.inodes.len() <= u64::MAX,
    ensures
        ({
            let (after, r) = YakFs::create_step(s, parent, name, executable);
            r matches Ok((ino, attr)) ==> {
                &&& bytes_of(after.slab, s.objects, ino) == Some(Seq::<u8>::empty())
                &&& attr.inode == ino && attr.kind == FileKind::Regular && attr.executable
                    == executable && attr.size == 0
                &&& YakFs::lookup_step(after, parent, name).1 == Ok::<InodeId, ErrView>(ino)
                &&& !s.slab.has(ino)
            }
        }),
        ({
            let (after, r) = YakFs::mkdir_step(s, parent, name, fault);
            r matches Ok((ino, attr)) ==> {
                &&& attr.inode == ino && attr.kind == FileKind::Directory
                &&& after.slab.node(ino) == NodeView::DirtyTree(Map::empty())
                &&& YakFs::lookup_step(after, parent, name).1 == Ok::<InodeId, ErrView>(ino)
                &&& !s.slab.has(ino)
            }
        }),
        ({
            let (after, r) = YakFs::symlink_step(s, parent, name, target);
            r matches Ok((ino, attr)) ==> {
                &&& YakFs::readlink_step(after, ino).1 == Ok::<Seq<char>, ErrView>(target)
                &&& attr.inode == ino && attr.kind == FileKind::Symlink
                &&& YakFs::lookup_step(after, parent, name).1 == Ok::<InodeId, ErrView>(ino)
                &&& !s.slab.has(ino)
            }
        }),
{
    crate::vfs::yak_open::lemma_upward_len(s.slab, s.objects, parent);
    let file = NodeView::DirtyFile { content: seq![], executable };
    if YakFs::create_step(s, parent, name, executable).1 is Ok {
        crate::vfs::yak_laws::created_entry_is_found(s.slab, s.objects, parent, name, file);
    }
    let dir = NodeView::DirtyTree(Map::empty());
    if YakFs::mkdir_step(s, parent, name, fault).1 is Ok {
        crate::vfs::yak_laws::created_entry_is_found(s.slab, s.objects, parent, name, dir);
    }
    let link = NodeView::DirtySymlink(target);
    if YakFs::symlink_step(s, parent, name, target).1 is Ok {
        crate::vfs::yak_laws::created_entry_is_found(s.slab, s.objects, parent, name, link);
    }
    assert(seq![] =~= Seq::<u8>::empty());
}

/// The working copy in a slot, with the objects of its repository.
pub open spec fn workspace_in_slot(v: RootView, slot: u32) -> KikiFsView {
    KikiFsView {
        tree: v.live[slot].tree,
        objects: v.objects_for(slot),
        git_path: v.repos[repo_at(v.repos, v.live[slot].repo)->0].git_path,
    }
}

/// Only the working copy in one slot is another one.
pub open spec fn only_in_slot(
    before: RootView,
    slot: u32,
    working_copy: KikiFsView,
    after: RootView,
) -> bool {
    &&& after.live.contains_key(slot)
    &&& after.live[slot].tree == working_copy.tree
    &&& after.live[slot].repo == before.live[slot].repo
    &&& after.live.remove(slot) == before.live.remove(slot)
    &&& after.repos == before.repos
    &&& after.workspaces == before.workspaces
    &&& after.dirs == before.dirs
    &&& after.next_slot == before.next_slot
    &&& after.next_synthetic == before.next_synthetic
    &&& after.mount_root == before.mount_root
    &&& after.storage_dir == before.storage_dir
}

/// The attributes of an inode of a workspace, under its inode of the mount.
pub open spec fn in_slot(slot: u32, attr: Attr) -> Attr {
    Attr {
        inode: global(slot, attr.inode),
        kind: attr.kind,
        size: attr.size,
        executable: attr.executable,
        mtime_secs: attr.mtime_secs,
    }
}

/// A request on the mount that only reads is the same request on the workspace
/// whose slot the inode carries: the answer is its answer, with inodes of the mount.
pub proof fn reads_reach_the_workspace(
    v: RootView,
    slot: u32,
    ino: InodeId,
    name: Seq<char>,
    offset: u64,
    count: u32,
)
    requires
        0 < slot < 0x100_0000,
        ino < 0x100_0000_0000,
        v.live.contains_key(slot),
    ensures
        ({
            let ws = workspace_in_slot(v, slot);
            let at = global(slot, ino);
            &&& RootFs::read_step(v, at, offset, count) == (
                v,
                KikiFs::read_step(ws, ino, offset, count).1,
            )
            &&& RootFs::readlink_step(v, at) == (v, KikiFs::readlink_step(ws, ino).1)
            &&& RootFs::getattr_step(v, at).0 == v
            &&& RootFs::redirect_step(v, at, name) == (v, KikiFs::redirect_step(ws, ino, name).1)
            &&& match KikiFs::getattr_step(ws, ino).1 {
                Ok(attr) => RootFs::getattr_step(v, at).1 == Ok::<Attr, ErrView>(
                    in_slot(slot, attr),
                ),
                Err(e) => RootFs::getattr_step(v, at).1 == Err::<Attr, ErrView>(e),
            }
            &&& only_in_slot(
                v,
                slot,
                KikiFs::lookup_step(ws, ino, name).0,
                RootFs::lookup_step(v, at, name).0,
            )
            &&& match KikiFs::lookup_step(ws, ino, name).1 {
                Ok(found) => RootFs::lookup_step(v, at, name).1 == Ok::<InodeId, ErrView>(
                    global(slot, found),
                ),
                Err(e) => RootFs::lookup_step(v, at, name).1 == Err::<InodeId, ErrView>(e),
            }
            &&& only_in_slot(
                v,
                slot,
                KikiFs::readdir_step(ws, ino).0,
                RootFs::readdir_step(v, at).0,
            )
            &&& match (KikiFs::readdir_step(ws, ino).1, RootFs::readdir_step(v, at).1) {
                (Ok(own), Ok(shown)) => {
                    &&& own.len() == shown.len()
                    &&& forall|i: int|
                        0 <= i < own.len() ==> (#[trigger] shown[i]).name == own[i].name
                            && shown[i].kind == own[i].kind && shown[i].inode == global(
                            slot,
                            own[i].inode,
                        )
                },
                (Err(e), Err(f)) => e == f,
                _ => false,
            }
        }),
{
    inode_round_trip(slot, ino);
    let ws = workspace_in_slot(v, slot);
    let at = global(slot, ino);
    let found = RootFs::lookup_step(v, at, name).0;
    assert(found.live.remove(slot) =~= v.live.remove(slot));
    let listed = RootFs::readdir_step(v, at).0;
    assert(listed.live.remove(slot) =~= v.live.remove(slot));
}

/// A request on the mount that changes something is the same request on the
/// workspace whose slot the inode carries, and nothing else changes.
pub proof fn changes_reach_the_workspace(
    v: RootView,
    slot: u32,
    ino: InodeId,
    name: Seq<char>,
    offset: u64,
    data: Seq<u8>,
    size: Option<u64>,
    bit: Option<bool>,
    executable: bool,
    target: Seq<char>,
    fault: Option<Seq<char>>,
)
    requires
        0 < slot < 0x100_0000,
        ino < 0x100_0000_0000,
        v.live.contains_key(slot),
    ensures
        ({
            let ws = workspace_in_slot(v, slot);
            let at = global(slot, ino);
            let (w, wrote) = KikiFs::write_step(ws, ino, offset, data);
            let (a, attr) = KikiFs::setattr_step(ws, ino, size, bit);
            let (d, gone) = KikiFs::remove_step(ws, ino, name);
            &&& only_in_slot(v, slot, w, RootFs::write_step(v, at, offset, data).0)
            &&& RootFs::write_step(v, at, offset, data).1 == wrote
            &&& only_in_slot(v, slot, a, RootFs::setattr_step(v, at, size, bit).0)
            &&& match attr {
                Ok(x) => RootFs::setattr_step(v, at, size, bit).1 == Ok::<Attr, ErrView>(
                    in_slot(slot, x),
                ),
                Err(e) => RootFs::setattr_step(v, at, size, bit).1 == Err::<Attr, ErrView>(e),
            }
            &&& only_in_slot(v, slot, d, RootFs::remove_step(v, at, name).0)
            &&& RootFs::remove_step(v, at, name).1 == gone
        }),
        ({
            let ws = workspace_in_slot(v, slot);
            let at = global(slot, ino);
            let (c, made) = KikiFs::create_step(ws, ino, name, executable);
            let (m, dir) = KikiFs::mkdir_step(ws, ino, name, fault);
            let (l, link) = KikiFs::symlink_step(ws, ino, name, target);
            &&& only_in_slot(v, slot, c, RootFs::create_step(v, at, name, executable).0)
            &&& made_in_slot(slot, made, RootFs::create_step(v, at, name, executable).1)
            &&& only_in_slot(v, slot, m, RootFs::mkdir_step(v, at, name, fault).0)
            &&& made_in_slot(slot, dir, RootFs::mkdir_step(v, at, name, fault).1)
            &&& only_in_slot(v, slot, l, RootFs::symlink_step(v, at, name, target).0)
            &&& made_in_slot(slot, link, RootFs::symlink_step(v, at, name, target).1)
        }),
{
    inode_round_trip(slot, ino);
    let at = global(slot, ino);
    let written = RootFs::write_step(v, at, offset, data).0;
    assert(written.live.remove(slot) =~= v.live.remove(slot));
    let set = RootFs::setattr_step(v, at, size, bit).0;
    assert(set.live.remove(slot) =~= v.live.remove(slot));
    let fewer = RootFs::remove_step(v, at, name).0;
    assert(fewer.live.remove(slot) =~= v.live.remove(slot));
    let made = RootFs::create_step(v, at, name, executable).0;
    assert(made.live.remove(slot) =~= v.live.remove(slot));
    let dir = RootFs::mkdir_step(v, at, name, fault).0;
    assert(dir.live.remove(slot) =~= v.live.remove(slot));
    let link = RootFs::symlink_step(v, at, name, target).0;
    assert(link.live.remove(slot) =~= v.live.remove(slot));
}

/// What was made in a workspace, as the mount gives it.
pub open spec fn made_in_slot(
    slot: u32,
    own: Result<(InodeId, Attr), ErrView>,
    given: Result<(InodeId, Attr), ErrView>,
) -> bool {
    match (own, given) {
        (Ok((ino, attr)), Ok((at, shown))) => at == global(slot, ino) && shown == in_slot(
            slot,
            attr,
        ),
        (Err(e), Err(f)) => e == f,
        _ => false,
    }
}

/// A move within a workspace is the move there; one between workspaces is refused.
pub proof fn moves_stay_in_the_workspace(
    v: RootView,
    slot: u32,
    parent: InodeId,
    name: Seq<char>,
    other: u32,
    new_parent: InodeId,
    new_name: Seq<char>,
)
    requires
        0 < slot < 0x100_0000,
        other < 0x100_0000,
        parent < 0x100_0000_0000,
        new_parent < 0x100_0000_0000,
        v.live.contains_key(slot),
    ensures
        ({
            let ws = workspace_in_slot(v, slot);
            let (after, r) = RootFs::rename_step(
                v,
                global(slot, parent),
                name,
                global(other, new_parent),
                new_name,
            );
            let (m, own) = KikiFs::rename_step(ws, parent, name, new_parent, new_name);
            &&& other != slot ==> after == v && r == Err::<(), ErrView>(ErrView::CrossDevice)
            &&& other == slot ==> only_in_slot(v, slot, m, after) && r == own
        }),
{
    inode_round_trip(slot, parent);
    inode_round_trip(other, new_parent);
    let after = RootFs::rename_step(
        v,
        global(slot, parent),
        name,
        global(other, new_parent),
        new_name,
    ).0;
    if other == slot {
        assert(after.live.remove(slot) =~= v.live.remove(slot));
    }
}

/// The workspace that is checked out anew is that of the slot.
pub proof fn check_out_reaches_the_workspace(v: RootView, slot: u32, tree: Id, mtime: i64)
    requires
        v.live.contains_key(slot),
    ensures
        ({
            let (w, r) = KikiFs::check_out_step(workspace_in_slot(v, slot), tree, mtime);
            only_in_slot(v, slot, w, v.check_out(slot, tree, mtime).0) && v.check_out(
                slot,
                tree,
                mtime,
            ).1 == r
        }),
{
    let after = v.check_out(slot, tree, mtime).0;
    assert(after.live.remove(slot) =~= v.live.remove(slot));
}

/// A workspace that is asked for first shows the tree that is on record for it, in
/// the objects of its repository: the recorded id if it has twenty bytes, else the
/// empty tree. Its scratch directory is its own.
pub proof fn workspace_begins_with_its_tree(v: RootView, i: int)
    requires
        v.wf(),
        0 <= i < v.workspaces.len(),
        !v.live.contains_key(v.workspaces[i].slot),
    ensures
        ({
            let ws = v.workspaces[i];
            let (after, r) = v.hydrated_at(i);
            let made = workspace_in_slot(after, ws.slot);
            let root = recorded_tree(ws.root_tree_id);
            &&& r is Ok
            &&& after.live.contains_key(ws.slot)
            &&& after.live[ws.slot].repo == ws.repo
            &&& after.live.remove(ws.slot) == v.live
            &&& after.repos == v.repos
            &&& after.workspaces == v.workspaces
            &&& after.dirs == v.dirs
            &&& made.objects == v.repos[repo_at(v.repos, ws.repo)->0].objects
            &&& made.tree.slab.node(ROOT_INODE) == NodeView::Tree(root)
            &&& made.tree.jj_subtree is None
            &&& ws.root_tree_id.len() == 20 ==> root@ == ws.root_tree_id
            &&& ws.root_tree_id.len() != 20 ==> root == Id(EMPTY_TREE)
            &&& made.tree.scratch_dir == Some(scratch_path(v.storage_dir, ws.repo, ws.name))
        }),
{
    reveal(RootView::tied);
    let ws = v.workspaces[i];
    let after = v.hydrated_at(i).0;
    assert(after.live.remove(ws.slot) =~= v.live);
    if ws.root_tree_id.len() == 20 {
        crate::git_store::id_of_bytes(ws.root_tree_id);
    }
}

} // verus!
