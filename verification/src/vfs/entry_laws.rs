//! What finding, making, removing and moving entries means for what stands in the
//! directories.
use vstd::prelude::*;
use crate::git_store::{tree_at, EntryView, GitEntryKind, Objects};
use crate::vfs::inode::{InodeId, NodeView, SlabView, ROOT_INODE};
use crate::vfs::kiki_fs::{outside_tree, wf_kept, KikiView};
use crate::vfs::laws::{lemma_above_stays, lemma_opened_stays, seen, stored, Found};
use crate::vfs::model::{
    extends_trans, lemma_dirtied, lemma_dirtied_len, lemma_root_in_tree, lemma_seen_walk,
    opened_to_move, same_tree_trans, shown, sound,
};
use crate::vfs::snapshot::walk;
use crate::vfs::tree_ops::{
    has_entry, lemma_entry_index, looked_up, moved, nodes_of, opened, removed,
};
use crate::vfs::types::ErrView;
use crate::vfs::yak_fs::entry_removed;
use crate::vfs::yak_open::opened_upward;

verus! {

/// A directory has an entry of this name: in memory, or in the tree that the store
/// holds.
pub open spec fn holds_entry(slab: SlabView, objects: Objects, dir: InodeId, name: Seq<char>) -> bool {
    1 <= dir <= slab.inodes.len() && match slab.inodes[dir - 1].node {
        NodeView::DirtyTree(children) => children.contains_key(name),
        NodeView::Tree(id) => tree_at(objects, id) matches Ok(Some(entries)) && exists|k: int|
            0 <= k < entries.len() && (#[trigger] entries[k]).name == name,
        _ => false,
    }
}

/// A directory that can be read.
pub open spec fn readable_dir(slab: SlabView, objects: Objects, dir: InodeId) -> bool {
    1 <= dir <= slab.inodes.len() && match slab.inodes[dir - 1].node {
        NodeView::DirtyTree(_) => true,
        NodeView::Tree(id) => tree_at(objects, id) matches Ok(Some(_)),
        _ => false,
    }
}

/// Something stands in a directory.
pub open spec fn holds_something(slab: SlabView, objects: Objects, dir: InodeId) -> bool {
    exists|name: Seq<char>| #[trigger] holds_entry(slab, objects, dir, name)
}

pub proof fn lemma_holds(slab: SlabView, objects: Objects, dir: InodeId, name: Seq<char>)
    ensures
        readable_dir(slab, objects, dir) ==> has_entry(slab, objects, dir, name) == Ok::<
            bool,
            ErrView,
        >(holds_entry(slab, objects, dir, name)),
        !readable_dir(slab, objects, dir) ==> has_entry(slab, objects, dir, name) is Err
            && !holds_entry(slab, objects, dir, name),
{
    if slab.has(dir) {
        if let NodeView::Tree(id) = slab.node(dir) {
            if let Ok(Some(entries)) = tree_at(objects, id) {
                lemma_entry_index(entries, name);
            }
        }
    }
}

/// A name is taken exactly if something stands there; in a directory that cannot be read
/// that is not told. The names that the working copy keeps for itself are another matter.
pub proof fn names_are_taken_by_what_stands_there(
    v: KikiView,
    objects: Objects,
    parent: InodeId,
    name: Seq<char>,
)
    requires
        parent != ROOT_INODE || (name != ".git"@ && name != ".jj"@),
    ensures
        readable_dir(v.slab, objects, parent) ==> v.child_exists(objects, parent, name) == Ok::<
            bool,
            ErrView,
        >(holds_entry(v.slab, objects, parent, name)),
        !readable_dir(v.slab, objects, parent) ==> v.child_exists(objects, parent, name) is Err,
{
    lemma_holds(v.slab, objects, parent, name);
}

/// The node is what an entry of this name says: its kind, its mode and its id.
pub open spec fn stands_for_entry(
    entries: Seq<EntryView>,
    name: Seq<char>,
    node: NodeView,
) -> bool {
    exists|k: int|
        0 <= k < entries.len() && (#[trigger] entries[k]).name == name && node
            == match entries[k].kind {
            GitEntryKind::File { executable } => NodeView::File { id: entries[k].id, executable },
            GitEntryKind::Tree => NodeView::Tree(entries[k].id),
            GitEntryKind::Symlink => NodeView::Symlink(entries[k].id),
            GitEntryKind::Submodule => NodeView::File { id: entries[k].id, executable: false },
        }
}

/// A lookup finds exactly the entries of a directory that can be read. It changes
/// nothing but that an entry of a stored tree gets an inode: a new one is in its
/// place under its name and is what the tree says, a known one stays as it is.
pub proof fn lookup_finds_what_is_there(
    slab: SlabView,
    objects: Objects,
    dir: InodeId,
    name: Seq<char>,
    other: InodeId,
)
    requires
        slab.next_id() <= u64::MAX,
    ensures
        ({
            let (after, r) = looked_up(slab, objects, dir, name);
            &&& r is Ok <==> holds_entry(slab, objects, dir, name)
            &&& readable_dir(slab, objects, dir) && r is Err ==> r == Err::<InodeId, ErrView>(
                ErrView::NotFound,
            )
            &&& r is Err ==> after == slab
            &&& slab.has(other) ==> after.has(other) && after.at(other) == slab.at(other)
            &&& r matches Ok(c) ==> match slab.node(dir) {
                NodeView::DirtyTree(children) => c == children[name] && after == slab,
                NodeView::Tree(id) => {
                    &&& slab.by_parent.contains_key((dir, name)) ==> c == slab.by_parent[(dir, name)]
                        && after == slab
                    &&& !slab.by_parent.contains_key((dir, name)) ==> {
                        &&& !slab.has(c)
                        &&& after.has(c)
                        &&& after.at(c).parent == dir
                        &&& after.at(c).name == name
                        &&& !after.at(c).ignored
                        &&& stands_for_entry(tree_at(objects, id)->Ok_0->0, name, after.node(c))
                    }
                },
                _ => false,
            }
        }),
{
    if slab.has(dir) {
        if let NodeView::Tree(id) = slab.node(dir) {
            if let Ok(Some(entries)) = tree_at(objects, id) {
                lemma_entry_index(entries, name);
            }
        }
    }
}

/// A name that is taken is refused, and what is there stays; a free name in a
/// directory that can be opened is not.
pub proof fn taken_names_are_refused(
    v: KikiView,
    objects: Objects,
    parent: InodeId,
    name: Seq<char>,
    node: NodeView,
)
    requires
        name != ".git"@ || parent != ROOT_INODE,
        name != ".jj"@ || parent != ROOT_INODE,
    ensures
        holds_entry(v.slab, objects, parent, name) ==> v.add_entry(objects, parent, name, node).0 == v
            && (v.add_entry(objects, parent, name, node).1 matches Err(e) && e
            == ErrView::AlreadyExists),
        !holds_entry(v.slab, objects, parent, name) && v.dirtied(objects, parent).1 is Ok
            && node.is_dirty() && v.dirtied(objects, parent).0.next_id() <= u64::MAX
            ==> v.add_entry(objects, parent, name, node).1 is Ok,
        !readable_dir(v.slab, objects, parent) ==> v.add_entry(objects, parent, name, node).1
            is Err && v.add_entry(objects, parent, name, node).0 == v,
{
    lemma_holds(v.slab, objects, parent, name);
    if !holds_entry(v.slab, objects, parent, name) && v.dirtied(objects, parent).1 is Ok {
        let mid = opened(v.slab, objects, parent).0;
        let s = v.dirtied(objects, parent).0;
        lemma_opened_stays(v.slab, objects, parent, parent);
        assert(mid.has(parent) && mid.node(parent) is DirtyTree) by {
            if let NodeView::Tree(id) = v.slab.node(parent) {
                let entries = tree_at(objects, id)->Ok_0->0;
                crate::vfs::inode::lemma_loaded_keeps(v.slab, parent, nodes_of(entries), parent);
            }
        }
        lemma_above_stays(mid, objects, parent, mid.inodes.len(), parent);
        assert(s.node(parent) == mid.node(parent));
        if let NodeView::Tree(id) = v.slab.node(parent) {
            let entries = tree_at(objects, id)->Ok_0->0;
            let nodes = nodes_of(entries);
            crate::vfs::inode::lemma_loaded_keeps(v.slab, parent, nodes, parent);
            assert(mid.node(parent) == NodeView::DirtyTree(v.slab.loaded_children(parent, nodes)));
            if v.slab.loaded_children(parent, nodes).contains_key(name) {
                lemma_loaded_child(v.slab, parent, nodes, name);
                let k = choose|k: int| 0 <= k < nodes.len() && (#[trigger] nodes[k]).0 == name;
                assert(entries[k].name == name);
            }
        }
    }
}

pub proof fn lemma_loaded_child(
    slab: SlabView,
    dir: InodeId,
    entries: Seq<(Seq<char>, NodeView)>,
    name: Seq<char>,
)
    requires
        slab.loaded_children(dir, entries).contains_key(name),
    ensures
        exists|k: int| 0 <= k < entries.len() && (#[trigger] entries[k]).0 == name,
    decreases entries.len(),
{
    if entries.len() > 0 {
        let front = entries.drop_last();
        if entries.last().0 == name {
            assert(entries[entries.len() - 1].0 == name);
        } else {
            lemma_loaded_child(slab, dir, front, name);
            let k = choose|k: int| 0 <= k < front.len() && (#[trigger] front[k]).0 == name;
            assert(entries[k] == front[k]);
        }
    }
}

// ---- removing --------------------------------------------------------------------------

/// An entry of an opened directory is removed exactly if nothing stands in it. A
/// directory in which something stands is refused with `NotEmpty`, whether it is
/// modified or still as stored, and whether or not what stands there is ignored;
/// nothing changes then.
pub proof fn only_empty_directories_are_removed(
    slab: SlabView,
    objects: Objects,
    dir: InodeId,
    name: Seq<char>,
    child: InodeId,
)
    requires
        slab.attached(dir, name, child),
        slab.has(child),
        slab.node(child).is_dir() ==> readable_dir(slab, objects, child),
    ensures
        holds_something(slab, objects, child) ==> removed(slab, objects, dir, name) == (
            slab,
            Err::<(), ErrView>(ErrView::NotEmpty),
        ),
        !holds_something(slab, objects, child) ==> removed(slab, objects, dir, name).1 is Ok,
        removed(slab, objects, dir, name).1 is Ok && child != dir ==> {
            let after = removed(slab, objects, dir, name).0;
            &&& !holds_entry(after, objects, dir, name)
            &&& forall|other: Seq<char>|
                other != name ==> (#[trigger] holds_entry(after, objects, dir, other)
                    <==> holds_entry(slab, objects, dir, other))
            &&& after.at(child) == slab.at(child)
        },
{
    match slab.node(child) {
        NodeView::DirtyTree(children) => {
            if holds_something(slab, objects, child) {
                let n = choose|n: Seq<char>| #[trigger] holds_entry(slab, objects, child, n);
                assert(children.contains_key(n));
            } else {
                assert(children =~= Map::<Seq<char>, InodeId>::empty()) by {
                    assert forall|n: Seq<char>| !#[trigger] children.contains_key(n) by {
                        assert(!holds_entry(slab, objects, child, n));
                    }
                }
            }
        },
        NodeView::Tree(id) => {
            let entries = tree_at(objects, id)->Ok_0->0;
            if entries.len() > 0 {
                assert(entries[0].name == entries[0].name);
                assert(holds_entry(slab, objects, child, entries[0].name));
            } else {
                assert forall|n: Seq<char>| !#[trigger] holds_entry(slab, objects, child, n) by {}
            }
        },
        _ => {
            assert forall|n: Seq<char>| !#[trigger] holds_entry(slab, objects, child, n) by {}
        },
    }
}

proof fn lemma_seen_below(
    s: SlabView,
    objects: Objects,
    parent: InodeId,
    name: Seq<char>,
    path: Seq<Seq<char>>,
    rest: Seq<Seq<char>>,
)
    requires
        walk(s, outside_tree(), ROOT_INODE, path) == Some(parent),
        rest.len() > 0,
        shown(s, objects, path + seq![name] + rest) != Found::Nothing,
        shown(s, objects, path + seq![name] + rest) != Found::Unreadable,
        s.has(parent),
        s.node(parent) is DirtyTree,
    ensures
        ({
            let child = s.node(parent)->DirtyTree_0[name];
            &&& s.attached(parent, name, child)
            &&& s.node(child).is_dir()
            &&& s.has(child) ==> readable_dir(s, objects, child) && holds_something(
                s,
                objects,
                child,
            )
        }),
{
    let tail = seq![name] + rest;
    assert(path + seq![name] + rest =~= path + tail);
    lemma_seen_walk(s, objects, ROOT_INODE, path, parent, tail);
    assert(tail[0] == name);
    assert(tail.drop_first() =~= rest);
    let child = s.node(parent)->DirtyTree_0[name];
    assert(seen(s, objects, outside_tree(), parent, tail) == seen(
        s,
        objects,
        outside_tree(),
        child,
        tail.drop_first(),
    ));
    let found = seen(s, objects, outside_tree(), child, rest);
    assert(found != Found::Nothing && found != Found::Unreadable);
    if s.has(child) {
        match s.node(child) {
            NodeView::Tree(id) => {
                assert(found == stored(objects, NodeView::Tree(id), rest));
                let entries = tree_at(objects, id)->Ok_0->0;
                lemma_entry_index(entries, rest[0]);
                assert(holds_entry(s, objects, child, rest[0]));
            },
            NodeView::DirtyTree(children) => {
                assert(holds_entry(s, objects, child, rest[0]));
            },
            _ => {},
        }
    }
}

/// A removal succeeds only where nothing stands below the entry: if a path of one or
/// more names below it shows something, the removal is refused with `NotEmpty`, and
/// every path shows what it showed.
pub proof fn occupied_directories_stay(
    v: KikiView,
    objects: Objects,
    parent: InodeId,
    name: Seq<char>,
    path: Seq<Seq<char>>,
    rest: Seq<Seq<char>>,
    any: Seq<Seq<char>>,
)
    requires
        v.wf(),
        sound(v.slab, objects, None),
        parent != ROOT_INODE || (name != ".git"@ && name != ".jj"@),
        v.dirtied(objects, parent).1 is Ok,
        v.dirtied(objects, parent).0.inodes.len() <= u64::MAX,
        walk(v.dirtied(objects, parent).0, outside_tree(), ROOT_INODE, path) == Some(parent),
        rest.len() > 0,
        shown(v.slab, objects, path + seq![name] + rest) != Found::Nothing,
        shown(v.slab, objects, path + seq![name] + rest) != Found::Unreadable,
    ensures
        v.remove(objects, parent, name).1 == Err::<(), ErrView>(ErrView::NotEmpty),
        shown(v.remove(objects, parent, name).0.slab, objects, any) == shown(
            v.slab,
            objects,
            any,
        ),
{
    let s = v.dirtied(objects, parent).0;
    lemma_dirtied(v, objects, parent, None);
    lemma_root_in_tree(v.slab);
    assert(shown(s, objects, path + seq![name] + rest) == shown(
        v.slab,
        objects,
        path + seq![name] + rest,
    ));
    assert(shown(s, objects, any) == shown(v.slab, objects, any));
    lemma_seen_below(s, objects, parent, name, path, rest);
    let child = s.node(parent)->DirtyTree_0[name];
    assert(s.attached(parent, name, child));
    assert(s.by_parent.contains_key((parent, name)));
    only_empty_directories_are_removed(s, objects, parent, name, child);
}

/// In the plain filesystem, too, an entry is removed exactly if nothing stands in
/// it.
pub proof fn plain_removal_needs_an_empty_directory(
    slab: SlabView,
    objects: Objects,
    parent: InodeId,
    name: Seq<char>,
    child: InodeId,
)
    requires
        opened_upward(slab, objects, parent).1 is Ok,
        opened_upward(slab, objects, parent).0.attached(parent, name, child),
        opened_upward(slab, objects, parent).0.has(child),
        opened_upward(slab, objects, parent).0.node(child).is_dir() ==> readable_dir(
            opened_upward(slab, objects, parent).0,
            objects,
            child,
        ),
    ensures
        ({
            let open = opened_upward(slab, objects, parent).0;
            let (after, r) = entry_removed(slab, objects, parent, name);
            &&& r is Ok <==> !holds_something(open, objects, child)
            &&& holds_something(open, objects, child) ==> r == Err::<(), ErrView>(ErrView::NotEmpty)
                && after == open
        }),
{
    only_empty_directories_are_removed(
        opened_upward(slab, objects, parent).0,
        objects,
        parent,
        name,
        child,
    );
}

// ---- moving ----------------------------------------------------------------------------

/// What stands under the new name of a move gives way only if it is of the same sort
/// as what is moved and nothing stands in it. Otherwise the move is refused and
/// nothing changes: with `NotEmpty` for a directory in which something stands.
pub proof fn only_empty_directories_are_replaced(
    slab: SlabView,
    objects: Objects,
    dir: InodeId,
    name: Seq<char>,
    new_dir: InodeId,
    new_name: Seq<char>,
    src: InodeId,
    dst: InodeId,
)
    requires
        slab.attached(dir, name, src),
        slab.attached(new_dir, new_name, dst),
        slab.has(src),
        slab.has(dst),
        src != dst,
        slab.node(dst).is_dir() ==> readable_dir(slab, objects, dst),
    ensures
        ({
            let (after, r) = moved(slab, objects, dir, name, new_dir, new_name);
            &&& r is Err ==> after == slab
            &&& slab.node(src).is_dir() && !slab.node(dst).is_dir() ==> r == Err::<
                Option<InodeId>,
                ErrView,
            >(ErrView::NotADirectory)
            &&& !slab.node(src).is_dir() && slab.node(dst).is_dir() ==> r == Err::<
                Option<InodeId>,
                ErrView,
            >(ErrView::NotAFile)
            &&& slab.node(src).is_dir() && holds_something(slab, objects, dst) ==> r == Err::<
                Option<InodeId>,
                ErrView,
            >(ErrView::NotEmpty)
            &&& slab.node(src).is_dir() == slab.node(dst).is_dir() && !holds_something(
                slab,
                objects,
                dst,
            ) ==> r == Ok::<Option<InodeId>, ErrView>(Some(src))
        }),
{
    only_empty_directories_are_removed(slab, objects, new_dir, new_name, dst);
}

/// A move onto a directory below which a path shows something is refused, and every
/// path shows what it showed.
pub proof fn occupied_directories_are_not_replaced(
    v: KikiView,
    objects: Objects,
    parent: InodeId,
    name: Seq<char>,
    new_parent: InodeId,
    new_name: Seq<char>,
    path: Seq<Seq<char>>,
    rest: Seq<Seq<char>>,
    any: Seq<Seq<char>>,
)
    requires
        v.wf(),
        sound(v.slab, objects, None),
        parent != ROOT_INODE || (name != ".git"@ && name != ".jj"@),
        new_parent != ROOT_INODE || (new_name != ".git"@ && new_name != ".jj"@),
        (parent, name) != (new_parent, new_name),
        v.dirtied(objects, parent).1 is Ok,
        new_parent != parent ==> v.with_slab(v.dirtied(objects, parent).0).dirtied(
            objects,
            new_parent,
        ).1 is Ok,
        opened_to_move(v, objects, parent, new_parent).inodes.len() <= u64::MAX,
        opened_to_move(v, objects, parent, new_parent).attached(
            parent,
            name,
            opened_to_move(v, objects, parent, new_parent).node(parent)->DirtyTree_0[name],
        ),
        walk(
            opened_to_move(v, objects, parent, new_parent),
            outside_tree(),
            ROOT_INODE,
            path,
        ) == Some(new_parent),
        rest.len() > 0,
        shown(v.slab, objects, path + seq![new_name] + rest) != Found::Nothing,
        shown(v.slab, objects, path + seq![new_name] + rest) != Found::Unreadable,
    ensures
        v.rename(objects, parent, name, new_parent, new_name).1 is Err,
        ({
            let s = opened_to_move(v, objects, parent, new_parent);
            s.node(s.node(parent)->DirtyTree_0[name]).is_dir()
        }) ==> v.rename(objects, parent, name, new_parent, new_name).1 == Err::<(), ErrView>(
            ErrView::NotEmpty,
        ),
        shown(v.rename(objects, parent, name, new_parent, new_name).0.slab, objects, any) == shown(
            v.slab,
            objects,
            any,
        ),
{
    let first = v.dirtied(objects, parent).0;
    let v1 = v.with_slab(first);
    let s = opened_to_move(v, objects, parent, new_parent);
    if new_parent != parent {
        lemma_dirtied_len(v1, objects, new_parent);
    }
    lemma_dirtied(v, objects, parent, None);
    wf_kept(v, first);
    if new_parent != parent {
        lemma_dirtied(v1, objects, new_parent, None);
        extends_trans(v.slab, first, s);
        same_tree_trans(v.slab, first, s, objects);
    }
    lemma_root_in_tree(v.slab);
    let below = path + seq![new_name] + rest;
    assert(shown(s, objects, below) == shown(v.slab, objects, below));
    assert(shown(s, objects, any) == shown(v.slab, objects, any));
    lemma_seen_below(s, objects, new_parent, new_name, path, rest);
    let src = s.node(parent)->DirtyTree_0[name];
    let dst = s.node(new_parent)->DirtyTree_0[new_name];
    assert(s.attached(new_parent, new_name, dst));
    assert(s.by_parent.contains_key((parent, name)));
    assert(s.by_parent.contains_key((new_parent, new_name)));
    only_empty_directories_are_replaced(
        s,
        objects,
        parent,
        name,
        new_parent,
        new_name,
        src,
        dst,
    );
}

} // verus!
