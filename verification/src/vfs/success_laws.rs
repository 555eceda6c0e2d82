//! When changes succeed: what lies in directories that can be read up to the root can
//! be changed.
use vstd::prelude::*;
use crate::git_store::{tree_at, Objects};
use crate::vfs::entry_laws::{holds_entry, holds_something, readable_dir, taken_names_are_refused};
use crate::vfs::inode::{lemma_loaded_keeps, InodeId, NodeView, SlabView, ROOT_INODE};
use crate::vfs::io_laws::bytes_of;
use crate::vfs::kiki_fs::{lies_under, opened_above, wf_kept, KikiView};
use crate::vfs::laws::{lemma_above_stays, lemma_dirty_stays};
use crate::vfs::model::{lemma_above_len, lemma_dirtied_len};
use crate::vfs::tidy::{keeps_opened, keeps_with_node, placed, tidy};
use crate::vfs::tree_ops::{file_opened, nodes_of, opened, tree_result};
use crate::vfs::types::ErrView;
use crate::vfs::yak_fs::{attr_changed, bytes_written, entry_added, entry_removed};
use crate::vfs::yak_open::{
    lemma_loaded_names, lemma_to_root_len, lemma_upward_len, lemma_upward_stays, opened_to_root,
    opened_upward, upward_keeps,
};

verus! {

/// The directories from the first one up to the root, each the parent of the one
/// before, can all be read.
pub open spec fn readable_way_up(slab: SlabView, objects: Objects, way: Seq<InodeId>) -> bool {
    &&& way.len() > 0
    &&& way.last() == ROOT_INODE
    &&& way.no_duplicates()
    &&& forall|k: int| 0 <= k < way.len() ==> readable_dir(slab, objects, #[trigger] way[k])
    &&& forall|k: int|
        0 <= k < way.len() - 1 ==> slab.inodes[#[trigger] way[k] - 1].parent == way[k + 1]
}

proof fn lemma_under_is_told(slab: SlabView, objects: Objects, way: Seq<InodeId>, k: int, target: InodeId, steps: nat)
    requires
        readable_way_up(slab, objects, way),
        slab.at(ROOT_INODE).parent == ROOT_INODE,
        0 <= k < way.len(),
    ensures
        lies_under(slab, way[k], target, steps) is Ok,
    decreases steps,
{
    assert(readable_dir(slab, objects, way[k]));
    if way[k] != target && steps > 0 {
        if k < way.len() - 1 {
            assert(slab.inodes[way[k] - 1].parent == way[k + 1]);
            lemma_under_is_told(slab, objects, way, k + 1, target, (steps - 1) as nat);
        }
    }
}

/// No name that is known in `dir` leads to `x`.
spec fn apart(slab: SlabView, dir: InodeId, x: InodeId) -> bool {
    forall|name: Seq<char>| #[trigger]
        slab.by_parent.contains_key((dir, name)) ==> slab.by_parent[(dir, name)] != x
}

proof fn lemma_loaded_apart(
    slab: SlabView,
    dir: InodeId,
    entries: Seq<(Seq<char>, NodeView)>,
    x: InodeId,
)
    requires
        slab.has(x),
        apart(slab, dir, x),
        slab.loaded(dir, entries).inodes.len() <= u64::MAX,
    ensures
        slab.loaded(dir, entries).at(x) == slab.at(x),
        apart(slab.loaded(dir, entries), dir, x),
        slab.loaded(dir, entries).inodes.len() >= slab.inodes.len(),
    decreases entries.len(),
{
    if entries.len() > 0 {
        let front = entries.drop_last();
        let (name, node) = entries.last();
        let before = slab.loaded(dir, front);
        lemma_loaded_keeps(slab, dir, front, x);
        assert(before.inodes.len() <= slab.loaded(dir, entries).inodes.len());
        lemma_loaded_apart(slab, dir, front, x);
        if before.by_parent.contains_key((dir, name)) {
            assert(before.by_parent[(dir, name)] != x);
        } else {
            assert(before.next_id() != x);
        }
    }
}

/// Opening a directory leaves every inode as it is that lies elsewhere.
proof fn lemma_opened_apart(slab: SlabView, objects: Objects, dir: InodeId, x: InodeId)
    requires
        slab.has(x),
        x != dir,
        placed(slab),
        slab.at(x).parent != dir,
        opened(slab, objects, dir).0.inodes.len() <= u64::MAX,
    ensures
        opened(slab, objects, dir).0.has(x),
        opened(slab, objects, dir).0.at(x) == slab.at(x),
{
    if slab.has(dir) {
        if let NodeView::Tree(id) = slab.node(dir) {
            if let Ok(entries) = tree_result(objects, id) {
                let nodes = nodes_of(entries);
                assert(apart(slab, dir, x)) by {
                    assert forall|name: Seq<char>| #[trigger]
                        slab.by_parent.contains_key((dir, name)) implies slab.by_parent[(dir, name)]
                        != x by {}
                }
                lemma_loaded_keeps(slab, dir, nodes, dir);
                lemma_loaded_apart(slab, dir, nodes, x);
            }
        }
    }
}

/// The way up from its place `k` on, as far as opening directories needs it.
spec fn way_from(slab: SlabView, objects: Objects, way: Seq<InodeId>, k: int) -> bool {
    &&& tidy(slab)
    &&& placed(slab)
    &&& 0 <= k < way.len()
    &&& way.no_duplicates()
    &&& way.last() == ROOT_INODE
    &&& slab.has(way[k])
    &&& forall|m: int| k < m < way.len() ==> readable_dir(slab, objects, #[trigger] way[m])
    &&& forall|m: int| k <= m < way.len() - 1 ==> slab.at(#[trigger] way[m]).parent == way[m + 1]
}

/// Opening a directory on the way up leaves the way from there on.
proof fn lemma_way_stays(slab: SlabView, objects: Objects, way: Seq<InodeId>, k: int)
    requires
        way_from(slab, objects, way, k),
        readable_dir(slab, objects, way[k]),
        opened(slab, objects, way[k]).0.inodes.len() <= u64::MAX,
    ensures
        opened(slab, objects, way[k]).1 is Ok,
        way_from(opened(slab, objects, way[k]).0, objects, way, k),
{
    let dir = way[k];
    let up = opened(slab, objects, dir).0;
    keeps_opened(slab, objects, dir);
    assert forall|m: int| k < m < way.len() implies readable_dir(up, objects, #[trigger] way[m]) by {
        assert(way[m] != way[k]);
        assert(readable_dir(slab, objects, way[m]));
        if m < way.len() - 1 {
            assert(way[m + 1] != way[k]);
            assert(slab.at(way[m]).parent == way[m + 1]);
        }
        lemma_opened_apart(slab, objects, dir, way[m]);
    }
    assert forall|m: int| k <= m < way.len() - 1 implies up.at(#[trigger] way[m]).parent == way[m
        + 1] by {
        assert(slab.at(way[m]).parent == way[m + 1]);
        if m == k {
            if let NodeView::Tree(id) = slab.node(dir) {
                let entries = tree_at(objects, id)->Ok_0->Some_0;
                lemma_loaded_keeps(slab, dir, nodes_of(entries), dir);
            }
        } else {
            assert(way[m] != way[k] && way[m + 1] != way[k]);
            assert(readable_dir(slab, objects, way[m]));
            lemma_opened_apart(slab, objects, dir, way[m]);
        }
    }
}

proof fn lemma_above_opens(
    slab: SlabView,
    objects: Objects,
    way: Seq<InodeId>,
    k: int,
    steps: nat,
)
    requires
        way_from(slab, objects, way, k),
        opened_above(slab, objects, way[k], steps).0.inodes.len() <= u64::MAX,
    ensures
        opened_above(slab, objects, way[k], steps).1 is Ok,
    decreases steps,
{
    if steps > 0 && k < way.len() - 1 {
        let parent = way[k + 1];
        assert(slab.at(way[k]).parent == parent);
        assert(way[k] != way[k + 1]);
        assert(readable_dir(slab, objects, way[k + 1]));
        assert(way_from(slab, objects, way, k + 1));
        if !(slab.node(parent) is DirtyTree) {
            let up = opened(slab, objects, parent).0;
            lemma_above_len(up, objects, parent, (steps - 1) as nat);
            lemma_way_stays(slab, objects, way, k + 1);
            lemma_above_opens(up, objects, way, k + 1, (steps - 1) as nat);
        }
    } else if steps > 0 {
        assert(way[k] == ROOT_INODE);
    }
}

proof fn lemma_to_root_opens(
    slab: SlabView,
    objects: Objects,
    way: Seq<InodeId>,
    k: int,
    steps: nat,
)
    requires
        way_from(slab, objects, way, k),
        opened_to_root(slab, objects, way[k], steps).0.inodes.len() <= u64::MAX,
    ensures
        opened_to_root(slab, objects, way[k], steps).1 is Ok,
    decreases steps,
{
    if steps > 0 && k < way.len() - 1 {
        let parent = way[k + 1];
        assert(slab.at(way[k]).parent == parent);
        assert(way[k] != way[k + 1]);
        assert(readable_dir(slab, objects, way[k + 1]));
        assert(way_from(slab, objects, way, k + 1));
        let up = opened(slab, objects, parent).0;
        lemma_to_root_len(up, objects, parent, (steps - 1) as nat);
        lemma_way_stays(slab, objects, way, k + 1);
        lemma_to_root_opens(up, objects, way, k + 1, (steps - 1) as nat);
    } else if steps > 0 {
        assert(way[k] == ROOT_INODE);
    }
}

proof fn lemma_way_begins(slab: SlabView, objects: Objects, way: Seq<InodeId>)
    requires
        tidy(slab),
        placed(slab),
        readable_way_up(slab, objects, way),
    ensures
        way_from(slab, objects, way, 0),
        readable_dir(slab, objects, way[0]),
{
    assert(readable_dir(slab, objects, way[0]));
    assert forall|m: int| 0 <= m < way.len() - 1 implies slab.at(#[trigger] way[m]).parent == way[m
        + 1] by {
        assert(slab.inodes[way[m] - 1].parent == way[m + 1]);
    }
}

/// A directory can be opened for changes if it and all directories above it can be
/// read.
pub proof fn readable_directories_can_be_changed(
    v: KikiView,
    objects: Objects,
    way: Seq<InodeId>,
)
    requires
        v.wf(),
        readable_way_up(v.slab, objects, way),
        v.dirtied(objects, way[0]).0.inodes.len() <= u64::MAX,
    ensures
        v.dirtied(objects, way[0]).1 is Ok,
        v.dirtied(objects, way[0]).0.node(way[0]) is DirtyTree,
{
    let dir = way[0];
    assert(readable_dir(v.slab, objects, way[0]));
    if let Some(jj) = v.jj_subtree {
        lemma_under_is_told(v.slab, objects, way, 0, jj, v.slab.inodes.len());
    }
    let mid = opened(v.slab, objects, dir).0;
    lemma_dirtied_len(v, objects, dir);
    let inside = match v.jj_subtree {
        Some(jj) => lies_under(v.slab, dir, jj, v.slab.inodes.len()),
        None => Ok(false),
    };
    if inside == Ok::<bool, ErrView>(false) {
        lemma_above_len(mid, objects, dir, mid.inodes.len());
        lemma_way_begins(v.slab, objects, way);
        lemma_way_stays(v.slab, objects, way, 0);
        lemma_above_opens(mid, objects, way, 0, mid.inodes.len());
    }
    keeps_opened(v.slab, objects, dir);
    lemma_above_stays(mid, objects, dir, mid.inodes.len(), dir);
}

/// The same for a plain working copy.
proof fn lemma_plain_directories_open(slab: SlabView, objects: Objects, way: Seq<InodeId>)
    requires
        tidy(slab),
        placed(slab),
        readable_way_up(slab, objects, way),
        opened_upward(slab, objects, way[0]).0.inodes.len() <= u64::MAX,
    ensures
        opened_upward(slab, objects, way[0]).1 is Ok,
        opened_upward(slab, objects, way[0]).0.node(way[0]) is DirtyTree,
{
    let dir = way[0];
    assert(readable_dir(slab, objects, way[0]));
    let mid = opened(slab, objects, dir).0;
    lemma_upward_len(slab, objects, dir);
    lemma_way_begins(slab, objects, way);
    lemma_way_stays(slab, objects, way, 0);
    lemma_to_root_opens(mid, objects, way, 0, mid.inodes.len());
    keeps_opened(slab, objects, dir);
    upward_keeps(slab, objects, dir);
}

/// Opening a file leaves the way up from its directory readable.
proof fn lemma_file_keeps_way(
    slab: SlabView,
    objects: Objects,
    ino: InodeId,
    way: Seq<InodeId>,
)
    requires
        tidy(slab),
        placed(slab),
        slab.has(ino),
        bytes_of(slab, objects, ino) is Some,
        readable_way_up(slab, objects, way),
        slab.at(ino).parent == way[0],
    ensures
        file_opened(slab, objects, ino).1 is Ok,
        readable_way_up(file_opened(slab, objects, ino).0, objects, way),
        tidy(file_opened(slab, objects, ino).0),
        placed(file_opened(slab, objects, ino).0),
        crate::vfs::tidy::keeps(slab, file_opened(slab, objects, ino).0),
        file_opened(slab, objects, ino).0.node(ino) is DirtyFile,
        file_opened(slab, objects, ino).0.at(ino).parent == way[0],
        file_opened(slab, objects, ino).0.inodes.len() == slab.inodes.len(),
{
    let after = file_opened(slab, objects, ino).0;
    if slab.node(ino) is File {
        keeps_with_node(slab, ino, after.node(ino));
    } else {
        crate::vfs::tidy::keeps_refl(slab);
    }
    assert forall|k: int| 0 <= k < way.len() implies readable_dir(after, objects, #[trigger] way[k]) by {
        assert(readable_dir(slab, objects, way[k]));
    }
    assert forall|k: int| 0 <= k < way.len() - 1 implies after.inodes[#[trigger] way[k] - 1].parent
        == way[k + 1] by {
        assert(readable_dir(slab, objects, way[k]));
        assert(slab.inodes[way[k] - 1].parent == way[k + 1]);
    }
}

/// A file that can be read can be written at any offset and be cut, grown and made
/// executable, if the directories above it can be read. The `.git` file cannot.
pub proof fn readable_files_can_be_changed(
    v: KikiView,
    objects: Objects,
    ino: InodeId,
    way: Seq<InodeId>,
    offset: u64,
    data: Seq<u8>,
    size: Option<u64>,
    bit: Option<bool>,
)
    requires
        v.wf(),
        v.slab.has(ino),
        bytes_of(v.slab, objects, ino) is Some,
        readable_way_up(v.slab, objects, way),
        v.slab.at(ino).parent == way[0],
        v.write(objects, ino, offset, data).0.slab.inodes.len() <= u64::MAX,
        v.setattr(objects, ino, size, bit).0.slab.inodes.len() <= u64::MAX,
    ensures
        ino != v.git_file ==> v.write(objects, ino, offset, data).1 == Ok::<u32, ErrView>(
            data.len() as u32,
        ),
        ino != v.git_file ==> v.setattr(objects, ino, size, bit).1 is Ok,
        ino == v.git_file ==> v.write(objects, ino, offset, data).1 is Err && v.write(
            objects,
            ino,
            offset,
            data,
        ).0 == v,
        ino == v.git_file ==> v.setattr(objects, ino, size, bit).1 is Err && v.setattr(
            objects,
            ino,
            size,
            bit,
        ).0 == v,
{
    if ino != v.git_file {
        lemma_file_keeps_way(v.slab, objects, ino, way);
        let open = file_opened(v.slab, objects, ino).0;
        let w = v.with_slab(open);
        wf_kept(v, open);
        if size is None && bit is None {
        } else {
            readable_directories_can_be_changed(w, objects, way);
        }
        readable_directories_can_be_changed(w, objects, way);
        lemma_dirty_stays(w, objects, way[0], ino);
    }
}

/// A plain working copy changes files in the same cases.
pub proof fn readable_plain_files_can_be_changed(
    slab: SlabView,
    objects: Objects,
    ino: InodeId,
    way: Seq<InodeId>,
    offset: u64,
    data: Seq<u8>,
    size: Option<u64>,
    bit: Option<bool>,
)
    requires
        tidy(slab),
        placed(slab),
        slab.has(ino),
        bytes_of(slab, objects, ino) is Some,
        readable_way_up(slab, objects, way),
        slab.at(ino).parent == way[0],
        bytes_written(slab, objects, ino, offset, data).0.inodes.len() <= u64::MAX,
    ensures
        bytes_written(slab, objects, ino, offset, data).1 == Ok::<u32, ErrView>(data.len() as u32),
        attr_changed(slab, objects, ino, size, bit).1 is Ok,
{
    lemma_file_keeps_way(slab, objects, ino, way);
    let open = file_opened(slab, objects, ino).0;
    lemma_plain_directories_open(open, objects, way);
    lemma_upward_stays(open, objects, way[0], ino);
}

/// A name that is free can be taken, by a file, a symlink or a directory, in every
/// directory that can be read up to the root; a plain working copy does so in the same
/// cases.
pub proof fn free_names_can_be_taken(
    v: KikiView,
    objects: Objects,
    way: Seq<InodeId>,
    name: Seq<char>,
    node: NodeView,
    fault: Option<Seq<char>>,
)
    requires
        v.wf(),
        readable_way_up(v.slab, objects, way),
        !holds_entry(v.slab, objects, way[0], name),
        way[0] != ROOT_INODE || (name != ".git"@ && name != ".jj"@),
        node.is_dirty(),
        v.dirtied(objects, way[0]).0.next_id() <= u64::MAX,
    ensures
        v.add_entry(objects, way[0], name, node).1 is Ok,
        !v.is_redirection(way[0], name) || v.scratch_dir is None || fault is None ==> v.mkdir(
            objects,
            way[0],
            name,
            fault,
        ).1 is Ok,
        v.is_redirection(way[0], name) && v.scratch_dir is Some && fault is Some ==> v.mkdir(
            objects,
            way[0],
            name,
            fault,
        ).1 is Err,
{
    let dir = way[0];
    readable_directories_can_be_changed(v, objects, way);
    taken_names_are_refused(v, objects, dir, name, node);
    let empty = NodeView::DirtyTree(Map::empty());
    taken_names_are_refused(v, objects, dir, name, empty);
    if v.is_redirection(dir, name) && v.scratch_dir is Some {
        let link = NodeView::DirtySymlink(crate::text::joined(v.scratch_dir->Some_0, name));
        taken_names_are_refused(v, objects, dir, name, link);
    }
}

/// The `.jj` directory can be made once: it is pinned then.
pub proof fn jj_directory_is_made_once(v: KikiView, objects: Objects, fault: Option<Seq<char>>)
    requires
        v.wf(),
        v.slab.next_id() <= u64::MAX,
    ensures
        v.jj_subtree is None ==> (v.mkdir(objects, ROOT_INODE, ".jj"@, fault).1 matches Ok((jj, _))
            && v.mkdir(objects, ROOT_INODE, ".jj"@, fault).0.jj_subtree == Some(jj)
            && !v.slab.has(jj)),
        v.jj_subtree is Some ==> v.mkdir(objects, ROOT_INODE, ".jj"@, fault) == (
            v,
            Err::<(InodeId, crate::vfs::types::Attr), ErrView>(ErrView::AlreadyExists),
        ),
{
}

proof fn lemma_entry_is_attached(
    v: KikiView,
    objects: Objects,
    way: Seq<InodeId>,
    name: Seq<char>,
)
    requires
        v.wf(),
        readable_way_up(v.slab, objects, way),
        holds_entry(v.slab, objects, way[0], name),
        v.dirtied(objects, way[0]).0.inodes.len() <= u64::MAX,
    ensures
        v.dirtied(objects, way[0]).1 is Ok,
        ({
            let open = v.dirtied(objects, way[0]).0;
            open.attached(way[0], name, open.node(way[0])->DirtyTree_0[name])
        }),
{
    let dir = way[0];
    readable_directories_can_be_changed(v, objects, way);
    let mid = opened(v.slab, objects, dir).0;
    lemma_dirtied_len(v, objects, dir);
    lemma_above_len(mid, objects, dir, mid.inodes.len());
    keeps_opened(v.slab, objects, dir);
    if let NodeView::Tree(id) = v.slab.node(dir) {
        let entries = tree_at(objects, id)->Ok_0->Some_0;
        let nodes = nodes_of(entries);
        lemma_loaded_names(v.slab, dir, nodes);
        lemma_loaded_keeps(v.slab, dir, nodes, dir);
        let k = choose|k: int| 0 <= k < entries.len() && (#[trigger] entries[k]).name == name;
        assert(nodes[k].0 == name);
        assert(mid.node(dir)->DirtyTree_0.contains_key(name));
    }
    lemma_above_stays(mid, objects, dir, mid.inodes.len(), dir);
}

/// An entry is removed if its directory can be read up to the root and nothing stands
/// in the entry, and only then: a name that leads to nothing is not found.
pub proof fn entries_can_be_removed(
    v: KikiView,
    objects: Objects,
    way: Seq<InodeId>,
    name: Seq<char>,
    child: InodeId,
)
    requires
        v.wf(),
        readable_way_up(v.slab, objects, way),
        way[0] != ROOT_INODE || (name != ".git"@ && name != ".jj"@),
        v.dirtied(objects, way[0]).0.inodes.len() <= u64::MAX,
        holds_entry(v.slab, objects, way[0], name) ==> child == v.dirtied(objects, way[0]).0.node(
            way[0],
        )->DirtyTree_0[name],
        v.dirtied(objects, way[0]).0.node(child).is_dir() ==> readable_dir(
            v.dirtied(objects, way[0]).0,
            objects,
            child,
        ),
    ensures
        v.remove(objects, way[0], name).1 is Ok <==> holds_entry(v.slab, objects, way[0], name)
            && !holds_something(v.dirtied(objects, way[0]).0, objects, child),
        !holds_entry(v.slab, objects, way[0], name) ==> v.remove(objects, way[0], name).1 == Err::<
            (),
            ErrView,
        >(ErrView::NotFound),
{
    let dir = way[0];
    readable_directories_can_be_changed(v, objects, way);
    let open = v.dirtied(objects, dir).0;
    crate::vfs::laws::dirtying_keeps(v, objects, dir);
    if holds_entry(v.slab, objects, dir, name) {
        lemma_entry_is_attached(v, objects, way, name);
        assert(open.has(child));
        crate::vfs::entry_laws::only_empty_directories_are_removed(
            open,
            objects,
            dir,
            name,
            child,
        );
    } else {
        lemma_no_entry_stays(v, objects, way, name);
    }
}

proof fn lemma_no_entry_stays(
    v: KikiView,
    objects: Objects,
    way: Seq<InodeId>,
    name: Seq<char>,
)
    requires
        v.wf(),
        readable_way_up(v.slab, objects, way),
        !holds_entry(v.slab, objects, way[0], name),
        v.dirtied(objects, way[0]).0.inodes.len() <= u64::MAX,
    ensures
        v.dirtied(objects, way[0]).1 is Ok,
        !v.dirtied(objects, way[0]).0.node(way[0])->DirtyTree_0.contains_key(name),
{
    let dir = way[0];
    readable_directories_can_be_changed(v, objects, way);
    let mid = opened(v.slab, objects, dir).0;
    lemma_dirtied_len(v, objects, dir);
    lemma_above_len(mid, objects, dir, mid.inodes.len());
    keeps_opened(v.slab, objects, dir);
    if let NodeView::Tree(id) = v.slab.node(dir) {
        let entries = tree_at(objects, id)->Ok_0->Some_0;
        let nodes = nodes_of(entries);
        lemma_loaded_keeps(v.slab, dir, nodes, dir);
        if v.slab.loaded_children(dir, nodes).contains_key(name) {
            crate::vfs::entry_laws::lemma_loaded_child(v.slab, dir, nodes, name);
            let k = choose|k: int| 0 <= k < nodes.len() && (#[trigger] nodes[k]).0 == name;
            assert(entries[k].name == name);
        }
    }
    lemma_above_stays(mid, objects, dir, mid.inodes.len(), dir);
}

/// An entry can be moved to a free name in its directory, if that can be read up to the
/// root; a name that leads to nothing cannot be moved.
pub proof fn entries_can_be_renamed(
    v: KikiView,
    objects: Objects,
    way: Seq<InodeId>,
    name: Seq<char>,
    new_name: Seq<char>,
)
    requires
        v.wf(),
        readable_way_up(v.slab, objects, way),
        way[0] != ROOT_INODE || (name != ".git"@ && name != ".jj"@ && new_name != ".git"@
            && new_name != ".jj"@),
        !holds_entry(v.slab, objects, way[0], new_name),
        v.dirtied(objects, way[0]).0.inodes.len() <= u64::MAX,
    ensures
        v.rename(objects, way[0], name, way[0], new_name).1 is Ok <==> holds_entry(
            v.slab,
            objects,
            way[0],
            name,
        ),
        !holds_entry(v.slab, objects, way[0], name) ==> v.rename(
            objects,
            way[0],
            name,
            way[0],
            new_name,
        ).1 == Err::<(), ErrView>(ErrView::NotFound),
{
    let dir = way[0];
    readable_directories_can_be_changed(v, objects, way);
    lemma_no_entry_stays(v, objects, way, new_name);
    lemma_dirtied_len(v, objects, dir);
    lemma_dirty_stays(v, objects, dir, dir);
    if holds_entry(v.slab, objects, dir, name) {
        lemma_entry_is_attached(v, objects, way, name);
    } else {
        lemma_no_entry_stays(v, objects, way, name);
    }
}

/// What a directory of a plain working copy holds, it holds once it is open.
proof fn lemma_plain_entry_stays(
    slab: SlabView,
    objects: Objects,
    way: Seq<InodeId>,
    name: Seq<char>,
)
    requires
        tidy(slab),
        placed(slab),
        readable_way_up(slab, objects, way),
        opened_upward(slab, objects, way[0]).0.inodes.len() <= u64::MAX,
    ensures
        opened_upward(slab, objects, way[0]).1 is Ok,
        opened_upward(slab, objects, way[0]).0.has(way[0]),
        opened_upward(slab, objects, way[0]).0.node(way[0]) is DirtyTree,
        opened_upward(slab, objects, way[0]).0.node(way[0])->DirtyTree_0.contains_key(name)
            <==> holds_entry(slab, objects, way[0], name),
{
    let dir = way[0];
    lemma_plain_directories_open(slab, objects, way);
    let mid = opened(slab, objects, dir).0;
    lemma_upward_len(slab, objects, dir);
    keeps_opened(slab, objects, dir);
    assert(readable_dir(slab, objects, way[0]));
    if let NodeView::Tree(id) = slab.node(dir) {
        let entries = tree_at(objects, id)->Ok_0->Some_0;
        let nodes = nodes_of(entries);
        lemma_loaded_names(slab, dir, nodes);
        lemma_loaded_keeps(slab, dir, nodes, dir);
        if holds_entry(slab, objects, dir, name) {
            let k = choose|k: int| 0 <= k < entries.len() && (#[trigger] entries[k]).name == name;
            assert(nodes[k].0 == name);
        }
        if slab.loaded_children(dir, nodes).contains_key(name) {
            crate::vfs::entry_laws::lemma_loaded_child(slab, dir, nodes, name);
            let k = choose|k: int| 0 <= k < nodes.len() && (#[trigger] nodes[k]).0 == name;
            assert(entries[k].name == name);
        }
    }
    crate::vfs::yak_open::lemma_to_root_stays(mid, objects, dir, mid.inodes.len(), dir);
}

/// A plain working copy takes free names in every directory that can be read up to the
/// root, refuses taken ones, and removes entries in which nothing stands.
pub proof fn plain_entries_come_and_go(
    slab: SlabView,
    objects: Objects,
    way: Seq<InodeId>,
    name: Seq<char>,
    node: NodeView,
    child: InodeId,
)
    requires
        tidy(slab),
        placed(slab),
        readable_way_up(slab, objects, way),
        node.is_dirty(),
        opened_upward(slab, objects, way[0]).0.next_id() <= u64::MAX,
        holds_entry(slab, objects, way[0], name) ==> child == opened_upward(
            slab,
            objects,
            way[0],
        ).0.node(way[0])->DirtyTree_0[name],
        opened_upward(slab, objects, way[0]).0.node(child).is_dir() ==> readable_dir(
            opened_upward(slab, objects, way[0]).0,
            objects,
            child,
        ),
    ensures
        entry_added(slab, objects, way[0], name, node).1 is Ok <==> !holds_entry(
            slab,
            objects,
            way[0],
            name,
        ),
        holds_entry(slab, objects, way[0], name) ==> entry_added(
            slab,
            objects,
            way[0],
            name,
            node,
        ).1 == Err::<(InodeId, crate::vfs::types::Attr), ErrView>(ErrView::AlreadyExists),
        entry_removed(slab, objects, way[0], name).1 is Ok <==> holds_entry(
            slab,
            objects,
            way[0],
            name,
        ) && !holds_something(opened_upward(slab, objects, way[0]).0, objects, child),
        !holds_entry(slab, objects, way[0], name) ==> entry_removed(slab, objects, way[0], name).1
            == Err::<(), ErrView>(ErrView::NotFound),
{
    let dir = way[0];
    lemma_plain_entry_stays(slab, objects, way, name);
    upward_keeps(slab, objects, dir);
    let open = opened_upward(slab, objects, dir).0;
    crate::vfs::entry_laws::lemma_holds(slab, objects, dir, name);
    assert(readable_dir(slab, objects, way[0]));
    if holds_entry(slab, objects, dir, name) {
        assert(open.attached(dir, name, child));
        assert(open.has(child));
        crate::vfs::entry_laws::only_empty_directories_are_removed(
            open,
            objects,
            dir,
            name,
            child,
        );
    }
}

/// The pinned `.jj` directory is removed if nothing stands in it, and only then.
pub proof fn jj_directory_is_removed_when_empty(v: KikiView, objects: Objects, jj: InodeId)
    requires
        v.wf(),
        v.jj_subtree == Some(jj),
        readable_dir(v.slab, objects, jj),
    ensures
        !holds_something(v.slab, objects, jj) ==> v.remove(objects, ROOT_INODE, ".jj"@) == (
            KikiView { jj_subtree: None, ..v },
            Ok::<(), ErrView>(()),
        ),
        holds_something(v.slab, objects, jj) ==> v.remove(objects, ROOT_INODE, ".jj"@) == (
            v,
            Err::<(), ErrView>(ErrView::NotEmpty),
        ),
{
    reveal_strlit(".jj");
    reveal_strlit(".git");
    assert(".jj"@.len() != ".git"@.len());
    match v.slab.node(jj) {
        NodeView::DirtyTree(children) => {
            if holds_something(v.slab, objects, jj) {
                let n = choose|n: Seq<char>| #[trigger] holds_entry(v.slab, objects, jj, n);
                assert(children.contains_key(n));
            } else {
                assert forall|n: Seq<char>| !children.contains_key(n) by {
                    assert(!holds_entry(v.slab, objects, jj, n));
                }
                assert(children =~= Map::<Seq<char>, InodeId>::empty());
            }
        },
        NodeView::Tree(id) => {
            let entries = tree_at(objects, id)->Ok_0->Some_0;
            if entries.len() > 0 {
                assert(entries[0].name == entries[0].name);
                assert(holds_entry(v.slab, objects, jj, entries[0].name));
            } else if holds_something(v.slab, objects, jj) {
                let n = choose|n: Seq<char>| #[trigger] holds_entry(v.slab, objects, jj, n);
                assert(holds_entry(v.slab, objects, jj, n));
            }
        },
        _ => {},
    }
}

/// An entry that is moved onto itself stays: the move succeeds and only opens its
/// directory.
pub proof fn entries_can_be_moved_onto_themselves(
    v: KikiView,
    objects: Objects,
    way: Seq<InodeId>,
    name: Seq<char>,
)
    requires
        v.wf(),
        readable_way_up(v.slab, objects, way),
        way[0] != ROOT_INODE || (name != ".git"@ && name != ".jj"@),
        holds_entry(v.slab, objects, way[0], name),
        v.dirtied(objects, way[0]).0.inodes.len() <= u64::MAX,
    ensures
        v.rename(objects, way[0], name, way[0], name) == (
            v.with_slab(v.dirtied(objects, way[0]).0),
            Ok::<(), ErrView>(()),
        ),
{
    lemma_entry_is_attached(v, objects, way, name);
}

/// An entry can be moved to a free name in another directory, if both can be read up to
/// the root.
pub proof fn entries_can_be_moved(
    v: KikiView,
    objects: Objects,
    way: Seq<InodeId>,
    name: Seq<char>,
    new_way: Seq<InodeId>,
    new_name: Seq<char>,
)
    requires
        v.wf(),
        readable_way_up(v.slab, objects, way),
        readable_way_up(v.dirtied(objects, way[0]).0, objects, new_way),
        way[0] != new_way[0],
        way[0] != ROOT_INODE || (name != ".git"@ && name != ".jj"@),
        new_way[0] != ROOT_INODE || (new_name != ".git"@ && new_name != ".jj"@),
        holds_entry(v.slab, objects, way[0], name),
        !holds_entry(v.dirtied(objects, way[0]).0, objects, new_way[0], new_name),
        v.with_slab(v.dirtied(objects, way[0]).0).dirtied(objects, new_way[0]).0.inodes.len()
            <= u64::MAX,
    ensures
        v.rename(objects, way[0], name, new_way[0], new_name).1 is Ok,
{
    let first = v.dirtied(objects, way[0]).0;
    let w = v.with_slab(first);
    lemma_dirtied_len(w, objects, new_way[0]);
    lemma_entry_is_attached(v, objects, way, name);
    crate::vfs::laws::dirtying_keeps(v, objects, way[0]);
    wf_kept(v, first);
    lemma_no_entry_stays(w, objects, new_way, new_name);
    readable_directories_can_be_changed(w, objects, new_way);
    lemma_dirty_stays(w, objects, new_way[0], way[0]);
    lemma_dirty_stays(w, objects, new_way[0], new_way[0]);
    assert(readable_dir(first, objects, new_way[0]));
}

/// The names that the working copy keeps for itself cannot be moved or moved to.
pub proof fn kept_names_are_not_moved(
    v: KikiView,
    objects: Objects,
    parent: InodeId,
    name: Seq<char>,
    other: InodeId,
    other_name: Seq<char>,
)
    requires
        parent == ROOT_INODE && (name == ".git"@ || name == ".jj"@),
    ensures
        v.rename(objects, parent, name, other, other_name) == (
            v,
            Err::<(), ErrView>(ErrView::AlreadyExists),
        ),
        v.rename(objects, other, other_name, parent, name) == (
            v,
            Err::<(), ErrView>(ErrView::AlreadyExists),
        ),
        name == ".git"@ ==> v.remove(objects, parent, name).1 is Err && v.remove(
            objects,
            parent,
            name,
        ).0 == v,
{
}

} // verus!
