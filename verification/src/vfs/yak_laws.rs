//! What the plain filesystem promises as a whole.
use vstd::prelude::*;
use crate::git_store::Objects;
use crate::ty::Id;
use crate::vfs::inode::{InodeId, InodeView, NodeView, SlabView, ROOT_INODE};
use crate::vfs::laws::{
    edited, lemma_content_after, lemma_moved_is_found, lemma_moved_stays, lemma_seen_grown,
    lemma_stored, lemma_walk_before, lemma_walk_clean, no_collision, seen, stored, Found,
};
use crate::vfs::snapshot::{
    clean_node, cleaned, entry_kind_of, lemma_deep_more, partly_covered, walk,
};
use crate::vfs::tidy::{deep_below_nameless, root_nameless, tidy};
use crate::vfs::tree_ops::{
    attr_result, file_opened, file_written, has_entry, looked_up, range_of, read_result,
    removed, spliced, tree_result,
};
use crate::vfs::types::{Attr, ErrView};
use crate::vfs::yak_fs::{
    attr_changed, bytes_written, entry_added, entry_moved, entry_removed, file_opened_upward,
    stored_below_root, switched,
};
use crate::vfs::yak_open::{lemma_upward_len, lemma_upward_stays, opened_upward, upward_keeps};

verus! {

/// The inodes of a tree that was just opened.
pub open spec fn fresh_slab(slab: SlabView, tree: Id) -> bool {
    &&& slab.inodes == seq![
        InodeView {
            parent: ROOT_INODE,
            name: Seq::empty(),
            node: NodeView::Tree(tree),
            ignored: false,
        },
    ]
    &&& slab.by_parent == Map::<(InodeId, Seq<char>), InodeId>::empty()
}

/// A snapshot loses nothing that can be reached: at every path, the tree that it
/// returns holds what was seen there.
pub proof fn snapshot_keeps_content(
    before: SlabView,
    objects: Objects,
    after: SlabView,
    now: Objects,
    id: Id,
    path: Seq<Seq<char>>,
)
    requires
        tidy(before),
        stored_below_root(before, objects, after, now, Ok(id)),
        no_collision(before, Set::empty(), now),
    ensures
        stored(now, NodeView::Tree(id), path) == seen(before, now, Set::empty(), ROOT_INODE, path),
        seen(before, objects, Set::empty(), ROOT_INODE, path) != Found::Unreadable ==> stored(
            now,
            NodeView::Tree(id),
            path,
        ) == seen(before, objects, Set::empty(), ROOT_INODE, path),
{
    let none = Set::<Seq<char>>::empty();
    root_nameless(before);
    deep_below_nameless(before, none, ROOT_INODE);
    lemma_stored(before, after, now, none, ROOT_INODE, before.inodes.len(), path);
    assert(clean_node(before.node(ROOT_INODE), id) == NodeView::Tree(id));
    if seen(before, objects, none, ROOT_INODE, path) != Found::Unreadable {
        lemma_seen_grown(before, objects, now, none, ROOT_INODE, path);
    }
}

/// Opening the tree of a snapshot anew shows at every path what was seen there.
pub proof fn recovery_shows_the_snapshot(
    before: SlabView,
    objects: Objects,
    after: SlabView,
    now: Objects,
    id: Id,
    fresh: SlabView,
    path: Seq<Seq<char>>,
)
    requires
        tidy(before),
        stored_below_root(before, objects, after, now, Ok(id)),
        no_collision(before, Set::empty(), now),
        fresh_slab(fresh, id),
    ensures
        seen(fresh, now, Set::empty(), ROOT_INODE, path) == seen(
            before,
            now,
            Set::empty(),
            ROOT_INODE,
            path,
        ),
{
    snapshot_keeps_content(before, objects, after, now, id, path);
    assert(fresh.node(ROOT_INODE) == NodeView::Tree(id));
}

/// After a snapshot nothing that it reached is modified any more, but for the
/// directories with an entry that it left out, at whatever depth.
pub proof fn snapshot_cleans_what_it_reaches(
    before: SlabView,
    objects: Objects,
    after: SlabView,
    now: Objects,
    id: Id,
    path: Seq<Seq<char>>,
    j: InodeId,
)
    requires
        tidy(before),
        stored_below_root(before, objects, after, now, Ok(id)),
        walk(before, Set::empty(), ROOT_INODE, path) == Some(j),
    ensures
        after.node(j).is_dirty() == partly_covered(before, Set::empty(), j, before.inodes.len()),
{
    root_nameless(before);
    deep_below_nameless(before, Set::empty(), ROOT_INODE);
    lemma_walk_clean(before, Set::empty(), after, now, ROOT_INODE, path, j);
}

/// A snapshot keeps inode ids: no inode comes or goes, each stays in its place
/// under its name, and names lead to the inodes they led to.
pub proof fn snapshot_keeps_inodes(
    before: SlabView,
    objects: Objects,
    after: SlabView,
    now: Objects,
    r: Result<Id, ErrView>,
    i: InodeId,
)
    requires
        tidy(before),
        stored_below_root(before, objects, after, now, r),
    ensures
        after.has(i) == before.has(i),
        after.by_parent == before.by_parent,
        before.has(i) ==> after.at(i).parent == before.at(i).parent && after.at(i).name == before.at(
            i,
        ).name && entry_kind_of(after.node(i)) == entry_kind_of(before.node(i)),
{
    if before.has(i) && after.at(i) != before.at(i) {
        let f = choose|f: nat| cleaned(before, Set::empty(), after, i, f);
        assert(cleaned(before, Set::empty(), after, i, f));
    }
}

/// A second snapshot with nothing in between gives the same id and leaves the
/// inodes as they are.
pub proof fn snapshot_twice_is_once(
    before: SlabView,
    objects: Objects,
    after: SlabView,
    now: Objects,
    id: Id,
    last: SlabView,
    last_objects: Objects,
    r: Result<Id, ErrView>,
)
    requires
        tidy(before),
        tidy(after),
        stored_below_root(before, objects, after, now, Ok(id)),
        stored_below_root(after, now, last, last_objects, r),
        after.inodes.len() <= u64::MAX,
    ensures
        r == Ok::<Id, ErrView>(id),
        last == after,
{
    let none = Set::<Seq<char>>::empty();
    let n = before.inodes.len();
    root_nameless(before);
    deep_below_nameless(before, none, ROOT_INODE);
    lemma_content_after(before, after, none, ROOT_INODE, n);
    assert forall|j: InodeId| after.has(j) implies #[trigger] last.at(j) == after.at(j) by {
        if last.at(j) != after.at(j) {
            let f = choose|f: nat| cleaned(after, none, last, j, f);
            assert(cleaned(after, none, last, j, f));
            let path = choose|path: Seq<Seq<char>>|
                #[trigger] walk(after, none, ROOT_INODE, path) == Some(j);
            lemma_walk_before(before, after, none, ROOT_INODE, path);
            lemma_walk_clean(before, none, after, now, ROOT_INODE, path, j);
            lemma_content_after(before, after, none, j, n);
            if f <= n {
                lemma_deep_more(after, none, j, f, n);
            } else {
                lemma_deep_more(after, none, j, n, f);
            }
        }
    }
    assert(last.inodes =~= after.inodes) by {
        assert forall|k: int| 0 <= k < last.inodes.len() implies last.inodes[k]
            == after.inodes[k] by {
            let j = (k + 1) as InodeId;
            assert(after.has(j));
            assert(last.at(j) == after.at(j));
        }
    }
}

/// What was written is what is read: after a write, a read of the same range
/// gives the bytes back.
pub proof fn read_gives_what_was_written(
    slab: SlabView,
    objects: Objects,
    ino: InodeId,
    offset: u64,
    data: Seq<u8>,
)
    requires
        bytes_written(slab, objects, ino, offset, data).1 is Ok,
        data.len() <= u32::MAX,
    ensures
        read_result(
            bytes_written(slab, objects, ino, offset, data).0,
            objects,
            ino,
            offset,
            data.len() as u32,
        ) matches Ok((bytes, _)) && bytes == data,
{
    let first = file_opened(slab, objects, ino).0;
    lemma_upward_stays(first, objects, first.at(ino).parent, ino);
    let open = file_opened_upward(slab, objects, ino).0;
    let after = bytes_written(slab, objects, ino, offset, data).0;
    let content = open.node(ino)->DirtyFile_content;
    let new = spliced(content, offset as nat, data);
    assert(after == file_written(open, ino, offset, data));
    assert(open.has(ino) && after.node(ino)->DirtyFile_content == new);
    let got = range_of(new, offset, data.len() as u32).0;
    assert(got =~= data);
}

/// A second lookup gives the same inode and changes nothing.
pub proof fn lookup_is_stable(slab: SlabView, objects: Objects, parent: InodeId, name: Seq<char>)
    requires
        tidy(slab),
        looked_up(slab, objects, parent, name).1 is Ok,
        slab.next_id() <= u64::MAX,
    ensures
        looked_up(looked_up(slab, objects, parent, name).0, objects, parent, name) == looked_up(
            slab,
            objects,
            parent,
            name,
        ),
{
    let first = looked_up(slab, objects, parent, name).0;
    assert(first.at(parent) == slab.at(parent));
}

/// A new entry is found under its name, under an inode that did not exist
/// before, and the name is taken then.
pub proof fn created_entry_is_found(
    slab: SlabView,
    objects: Objects,
    parent: InodeId,
    name: Seq<char>,
    node: NodeView,
)
    requires
        tidy(slab),
        entry_added(slab, objects, parent, name, node).1 is Ok,
        entry_added(slab, objects, parent, name, node).0.inodes.len() <= u64::MAX,
    ensures
        ({
            let (after, r) = entry_added(slab, objects, parent, name, node);
            let (ino, attr) = r->Ok_0;
            &&& !slab.has(ino)
            &&& looked_up(after, objects, parent, name) == (after, Ok::<InodeId, ErrView>(ino))
            &&& has_entry(after, objects, parent, name) == Ok::<bool, ErrView>(true)
            &&& entry_added(after, objects, parent, name, node) == (
                after,
                Err::<(InodeId, Attr), ErrView>(ErrView::AlreadyExists),
            )
            &&& attr_result(after, objects, ino, 0) == Ok::<Attr, ErrView>(attr)
        }),
{
    let after = entry_added(slab, objects, parent, name, node).0;
    lemma_upward_len(slab, objects, parent);
    upward_keeps(slab, objects, parent);
    assert(after.has(parent));
    assert(after.node(parent) is DirtyTree);
}

/// A removed entry is not found any more, and its inode stays as it was.
pub proof fn removed_entry_is_gone(
    slab: SlabView,
    objects: Objects,
    parent: InodeId,
    name: Seq<char>,
)
    requires
        tidy(slab),
        entry_removed(slab, objects, parent, name).1 is Ok,
        opened_upward(slab, objects, parent).0.inodes.len() <= u64::MAX,
    ensures
        ({
            let open = opened_upward(slab, objects, parent).0;
            let after = entry_removed(slab, objects, parent, name).0;
            let child = open.node(parent)->DirtyTree_0[name];
            &&& open.attached(parent, name, child)
            &&& child != parent ==> after.at(child) == open.at(child)
            &&& looked_up(after, objects, parent, name).1 == Err::<InodeId, ErrView>(
                ErrView::NotFound,
            )
            &&& entry_removed(after, objects, parent, name).1 is Err
        }),
{
    let open = opened_upward(slab, objects, parent).0;
    let after = entry_removed(slab, objects, parent, name).0;
    upward_keeps(slab, objects, parent);
    lemma_upward_stays(after, objects, parent, parent);
    assert(after == open.without_child(parent, name));
    assert(after.has(parent));
    assert(after.node(parent) == NodeView::DirtyTree(open.node(parent)->DirtyTree_0.remove(name)));
}

/// The inodes after both directories of a move were opened for changes.
pub open spec fn opened_to_move(
    slab: SlabView,
    objects: Objects,
    parent: InodeId,
    new_parent: InodeId,
) -> SlabView {
    let first = opened_upward(slab, objects, parent).0;
    if new_parent != parent {
        opened_upward(first, objects, new_parent).0
    } else {
        first
    }
}

/// A moved entry is found under its new name, under the inode that it had, and
/// not under its old one.
pub proof fn moved_entry_is_found(
    slab: SlabView,
    objects: Objects,
    parent: InodeId,
    name: Seq<char>,
    new_parent: InodeId,
    new_name: Seq<char>,
)
    requires
        tidy(slab),
        entry_moved(slab, objects, parent, name, new_parent, new_name).1 is Ok,
        opened_upward(opened_upward(slab, objects, parent).0, objects, new_parent).0.inodes.len()
            <= u64::MAX,
    ensures
        ({
            let open = opened_to_move(slab, objects, parent, new_parent);
            let after = entry_moved(slab, objects, parent, name, new_parent, new_name).0;
            let child = open.node(parent)->DirtyTree_0[name];
            &&& open.attached(parent, name, child)
            &&& looked_up(after, objects, new_parent, new_name) == (
                after,
                Ok::<InodeId, ErrView>(child),
            )
            &&& (parent, name) != (new_parent, new_name) ==> looked_up(after, objects, parent, name)
                == (after, Err::<InodeId, ErrView>(ErrView::NotFound))
        }),
{
    let first = opened_upward(slab, objects, parent).0;
    lemma_upward_len(first, objects, new_parent);
    upward_keeps(slab, objects, parent);
    if new_parent != parent {
        upward_keeps(first, objects, new_parent);
        lemma_upward_stays(first, objects, new_parent, parent);
    }
    let open = opened_to_move(slab, objects, parent, new_parent);
    lemma_moved_is_found(open, objects, parent, name, new_parent, new_name);
}

/// A check-out of a tree that is not there changes nothing, and one that is there
/// becomes the root.
pub proof fn checked_out_tree_is_the_root(slab: SlabView, objects: Objects, tree: Id)
    requires
        tidy(slab),
    ensures
        switched(slab, objects, tree).1 is Ok <==> tree_result(objects, tree) is Ok,
        switched(slab, objects, tree).1 is Err ==> switched(slab, objects, tree).0 == slab,
        switched(slab, objects, tree).1 is Ok ==> switched(slab, objects, tree).0.node(ROOT_INODE)
            == NodeView::Tree(tree),
{
}

/// An edit is not lost: whatever is made, removed or moved, and whatever else is
/// written or changed, a modified file or symlink keeps its content under its
/// inode.
pub proof fn edits_stay(
    slab: SlabView,
    objects: Objects,
    i: InodeId,
    parent: InodeId,
    name: Seq<char>,
    new_parent: InodeId,
    new_name: Seq<char>,
    node: NodeView,
    ino: InodeId,
    offset: u64,
    data: Seq<u8>,
    size: Option<u64>,
    executable: Option<bool>,
)
    requires
        tidy(slab),
        slab.has(i),
        edited(slab.node(i)),
        ino != i,
        opened_upward(opened_upward(slab, objects, parent).0, objects, new_parent).0.inodes.len()
            <= u64::MAX,
    ensures
        entry_added(slab, objects, parent, name, node).0.node(i) == slab.node(i),
        entry_removed(slab, objects, parent, name).0.node(i) == slab.node(i),
        bytes_written(slab, objects, ino, offset, data).0.node(i) == slab.node(i),
        attr_changed(slab, objects, ino, size, executable).0.node(i) == slab.node(i),
        entry_moved(slab, objects, parent, name, new_parent, new_name).0.node(i) == slab.node(i),
{
    let open = opened_upward(slab, objects, parent).0;
    lemma_upward_stays(slab, objects, parent, i);
    // a new entry
    let more = open.with_inode(InodeView { parent, name, node, ignored: false });
    assert(more.node(i) == slab.node(i));
    if more.can_attach(parent, name) {
        assert(parent != i);
    }
    // a removal
    assert(removed(open, objects, parent, name).0.node(i) == open.node(i)) by {
        if removed(open, objects, parent, name).1 is Ok {
            assert(i != parent);
        }
    }
    // a change elsewhere
    let first = file_opened(slab, objects, ino).0;
    assert(first.has(i) && first.node(i) == slab.node(i));
    lemma_upward_stays(first, objects, first.at(ino).parent, i);
    if slab.has(ino) {
        lemma_upward_stays(first, objects, first.at(ino).parent, ino);
    }
    // a move
    lemma_upward_len(open, objects, new_parent);
    lemma_upward_stays(open, objects, new_parent, i);
    upward_keeps(slab, objects, parent);
    upward_keeps(open, objects, new_parent);
    let both = opened_upward(open, objects, new_parent).0;
    lemma_moved_stays(open, objects, parent, name, new_parent, new_name, i);
    lemma_moved_stays(both, objects, parent, name, new_parent, new_name, i);
}

} // verus!
