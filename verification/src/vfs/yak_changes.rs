//! What is changed in the plain filesystem is in its next snapshot.
use vstd::prelude::*;
use crate::git_store::{tree_at, EntryView, Objects};
use crate::ty::Id;
use crate::vfs::inode::{InodeId, InodeView, NodeView, SlabView, ROOT_INODE};
use crate::vfs::laws::{
    found_at, lemma_moved_is_found, lemma_tree_leads, lemma_tree_stored, no_collision, seen, stored, Found,
};
use crate::vfs::snapshot::{cleaned, complete, skipped, walk};
use crate::vfs::tidy::{
    childless, keeps_moved, keeps_with_child, keeps_with_inode, keeps_with_node, keeps_without_child, tidy,
};
use crate::vfs::tree_ops::{file_opened, listed, listing, looked_up, moved, spliced};
use crate::vfs::types::ErrView;
use crate::vfs::yak_fs::{
    attr_changed, bytes_written, entry_added, entry_moved, entry_removed, file_opened_upward,
    in_place, stored_below_root, switched,
};
use crate::vfs::yak_laws::{opened_to_move, snapshot_keeps_content};
use crate::vfs::yak_open::{
    leads, lemma_child_is_reached, lemma_leads_has, lemma_upward_ignored, lemma_upward_is_reached,
    lemma_upward_len, lemma_upward_stays, lemma_walk_push, nothing_ignored, one_path,
    opened_upward, upward_keeps,
};

verus! {

/// Where a walk ends, its path leads.
proof fn lemma_walk_leads(slab: SlabView, objects: Objects, path: Seq<Seq<char>>)
    requires
        tidy(slab),
        walk(slab, Set::empty(), ROOT_INODE, path) is Some,
    ensures
        leads(slab, objects, path) == walk(slab, Set::empty(), ROOT_INODE, path),
    decreases path.len(),
{
    if path.len() > 0 {
        let front = path.drop_last();
        let name = path.last();
        assert(path =~= front.push(name));
        lemma_walk_push(slab, Set::empty(), ROOT_INODE, front, name);
        lemma_walk_leads(slab, objects, front);
        lemma_leads_has(slab, objects, front);
        let d = leads(slab, objects, front)->0;
        let one = seq![name];
        assert(one[0] == name);
        let children = slab.node(d)->DirtyTree_0;
        let c = children[name];
        assert(walk(slab, Set::empty(), d, one) == walk(slab, Set::empty(), c, one.drop_first()));
        assert(slab.attached(d, name, c));
    }
}

/// A walk to an inode stays the same if nothing above the inode changes.
proof fn lemma_walk_kept(
    before: SlabView,
    after: SlabView,
    objects: Objects,
    path: Seq<Seq<char>>,
    n: int,
    end: InodeId,
)
    requires
        tidy(before),
        walk(before, Set::empty(), ROOT_INODE, path) == Some(end),
        nothing_ignored(after),
        before.inodes.len() <= after.inodes.len(),
        forall|p: InodeId, name: Seq<char>, c: InodeId|
            p != end && #[trigger] before.attached(p, name, c) ==> after.attached(p, name, c),
        0 <= n <= path.len(),
    ensures
        walk(after, Set::empty(), ROOT_INODE, path.take(n)) == walk(
            before,
            Set::empty(),
            ROOT_INODE,
            path.take(n),
        ),
        walk(before, Set::empty(), ROOT_INODE, path.take(n)) is Some,
    decreases n,
{
    let none = Set::<Seq<char>>::empty();
    if n > 0 {
        let front = path.take(n - 1);
        let name = path[n - 1];
        assert(path.take(n) =~= front.push(name));
        lemma_walk_kept(before, after, objects, path, n - 1, end);
        lemma_walk_push(before, none, ROOT_INODE, front, name);
        lemma_walk_push(after, none, ROOT_INODE, front, name);
        let d = walk(before, none, ROOT_INODE, front)->0;
        lemma_walk_leads(before, objects, front);
        lemma_walk_leads(before, objects, path);
        lemma_leads_has(before, objects, front);
        if d == end {
            one_path(before, objects, front, path);
            assert(front.len() == path.len());
        }
        lemma_walk_front(before, path, n);
        let one = seq![name];
        assert(one[0] == name);
        let c = before.node(d)->DirtyTree_0[name];
        assert(walk(before, none, d, one) == walk(before, none, c, one.drop_first()));
        assert(before.attached(d, name, c));
        assert(after.attached(d, name, c));
        assert(before.by_parent.contains_key((d, name)));
        assert(!after.at(c).ignored);
        assert(walk(after, none, d, one) == walk(after, none, c, one.drop_first()));
    }
}

/// A walk that ends somewhere gets somewhere by the front of its path.
proof fn lemma_walk_front(slab: SlabView, path: Seq<Seq<char>>, n: int)
    requires
        walk(slab, Set::empty(), ROOT_INODE, path) is Some,
        0 <= n <= path.len(),
    ensures
        walk(slab, Set::empty(), ROOT_INODE, path.take(n)) is Some,
    decreases path.len(),
{
    if n == path.len() {
        assert(path.take(n) =~= path);
    } else {
        let front = path.drop_last();
        assert(path =~= front.push(path.last()));
        lemma_walk_push(slab, Set::empty(), ROOT_INODE, front, path.last());
        assert(front.take(n) =~= path.take(n));
        lemma_walk_front(slab, front, n);
    }
}

/// What is seen along a walk is what is seen at its end.
proof fn lemma_seen_at_end(
    slab: SlabView,
    objects: Objects,
    i: InodeId,
    path: Seq<Seq<char>>,
    rest: Seq<Seq<char>>,
)
    requires
        walk(slab, Set::empty(), i, path) is Some,
    ensures
        seen(slab, objects, Set::empty(), i, path + rest) == seen(
            slab,
            objects,
            Set::empty(),
            walk(slab, Set::empty(), i, path)->0,
            rest,
        ),
    decreases path.len(),
{
    if path.len() == 0 {
        assert(path + rest =~= rest);
    } else {
        assert((path + rest)[0] == path[0]);
        assert((path + rest).drop_first() =~= path.drop_first() + rest);
        let children = slab.node(i)->DirtyTree_0;
        lemma_seen_at_end(slab, objects, children[path[0]], path.drop_first(), rest);
    }
}

/// A file that was opened and then given other content is reached by a walk along
/// its path.
proof fn lemma_changed_is_reached(
    slab: SlabView,
    objects: Objects,
    path: Seq<Seq<char>>,
    ino: InodeId,
    node: NodeView,
)
    requires
        in_place(slab),
        nothing_ignored(slab),
        leads(slab, objects, path) == Some(ino),
        file_opened_upward(slab, objects, ino).1 is Ok,
        file_opened_upward(slab, objects, ino).0.inodes.len() <= u64::MAX,
        node is DirtyFile,
    ensures
        ({
            let open = file_opened_upward(slab, objects, ino).0;
            let after = open.with_node(ino, node);
            &&& open.has(ino)
            &&& open.node(ino) == file_opened(slab, objects, ino).0.node(ino)
            &&& tidy(after)
            &&& after.node(ino) == node
            &&& walk(after, Set::empty(), ROOT_INODE, path) == Some(ino)
        }),
{
    let first = file_opened(slab, objects, ino).0;
    if path.len() == 0 {
        assert(slab.node(ROOT_INODE).is_dir());
    }
    assert(slab.has(ino));
    if first != slab {
        keeps_with_node(slab, ino, first.node(ino));
    }
    assert(first.has(ino) && first.node(ino) is DirtyFile);
    assert(nothing_ignored(first)) by {
        assert forall|i: InodeId| first.has(i) implies !(#[trigger] first.at(i)).ignored by {
            assert(!slab.at(i).ignored);
        }
    }
    lemma_leads_refile(slab, first, objects, path, ino, path.len() as int);
    assert(path.take(path.len() as int) =~= path);
    let d = first.at(ino).parent;
    let open = opened_upward(first, objects, d).0;
    lemma_child_is_reached(first, objects, path);
    lemma_upward_stays(first, objects, d, ino);
    upward_keeps(first, objects, d);
    lemma_upward_ignored(first, objects, d);
    let after = open.with_node(ino, node);
    keeps_with_node(open, ino, node);
    assert(nothing_ignored(after)) by {
        assert forall|i: InodeId| after.has(i) implies !(#[trigger] after.at(i)).ignored by {
            assert(!open.at(i).ignored);
        }
    }
    assert forall|p: InodeId, name: Seq<char>, c: InodeId|
        p != ino && #[trigger] open.attached(p, name, c) implies after.attached(p, name, c) by {
        assert(after.at(p) == open.at(p));
    }
    lemma_walk_kept(open, after, objects, path, path.len() as int, ino);
}

/// A path leads where it led if only a file took another node.
proof fn lemma_leads_refile(
    slab: SlabView,
    first: SlabView,
    objects: Objects,
    path: Seq<Seq<char>>,
    ino: InodeId,
    n: int,
)
    requires
        0 <= n <= path.len(),
        slab.has(ino),
        !slab.node(ino).is_dir(),
        !first.node(ino).is_dir(),
        first == slab || first == slab.with_node(ino, first.node(ino)),
    ensures
        leads(first, objects, path.take(n)) == leads(slab, objects, path.take(n)),
    decreases n,
{
    if n > 0 {
        assert(path.take(n).drop_last() =~= path.take(n - 1));
        lemma_leads_refile(slab, first, objects, path, ino, n - 1);
        if let Some(d) = leads(slab, objects, path.take(n - 1)) {
            if slab.has(d) && d != ino {
                assert(first.at(d) == slab.at(d));
            }
        }
    }
}

/// What a file holds, where it can be read.
pub open spec fn content_of(slab: SlabView, objects: Objects, ino: InodeId) -> Seq<u8> {
    file_opened(slab, objects, ino).0.node(ino)->DirtyFile_content
}

/// What was written is in the next snapshot: its tree holds the bytes at the path
/// of the file, whether the snapshot is the first one or not.
pub proof fn written_bytes_are_in_the_snapshot(
    slab: SlabView,
    objects: Objects,
    path: Seq<Seq<char>>,
    ino: InodeId,
    offset: u64,
    data: Seq<u8>,
    last: SlabView,
    now: Objects,
    id: Id,
)
    requires
        in_place(slab),
        nothing_ignored(slab),
        leads(slab, objects, path) == Some(ino),
        bytes_written(slab, objects, ino, offset, data).1 is Ok,
        bytes_written(slab, objects, ino, offset, data).0.inodes.len() <= u64::MAX,
        stored_below_root(
            bytes_written(slab, objects, ino, offset, data).0,
            objects,
            last,
            now,
            Ok(id),
        ),
        no_collision(bytes_written(slab, objects, ino, offset, data).0, Set::empty(), now),
    ensures
        stored(now, NodeView::Tree(id), path) matches Found::File { content, .. } && content
            == spliced(content_of(slab, objects, ino), offset as nat, data),
{
    let open = file_opened_upward(slab, objects, ino).0;
    let after = bytes_written(slab, objects, ino, offset, data).0;
    let node = NodeView::DirtyFile {
        content: spliced(open.node(ino)->DirtyFile_content, offset as nat, data),
        executable: open.node(ino)->DirtyFile_executable,
    };
    assert(after == open.with_node(ino, node));
    lemma_changed_is_reached(slab, objects, path, ino, node);
    snapshot_keeps_content(after, objects, last, now, id, path);
    lemma_seen_at_end(after, now, ROOT_INODE, path, Seq::empty());
    assert(path + Seq::<Seq<char>>::empty() =~= path);
}

/// A changed mode or length is in the next snapshot, and the rest of the file as
/// it was.
pub proof fn changed_file_is_in_the_snapshot(
    slab: SlabView,
    objects: Objects,
    path: Seq<Seq<char>>,
    ino: InodeId,
    size: Option<u64>,
    executable: Option<bool>,
    last: SlabView,
    now: Objects,
    id: Id,
)
    requires
        in_place(slab),
        nothing_ignored(slab),
        leads(slab, objects, path) == Some(ino),
        size is Some || executable is Some,
        attr_changed(slab, objects, ino, size, executable).1 is Ok,
        attr_changed(slab, objects, ino, size, executable).0.inodes.len() <= u64::MAX,
        stored_below_root(
            attr_changed(slab, objects, ino, size, executable).0,
            objects,
            last,
            now,
            Ok(id),
        ),
        no_collision(
            attr_changed(slab, objects, ino, size, executable).0,
            Set::empty(),
            now,
        ),
    ensures
        ({
            let changed = attr_changed(slab, objects, ino, size, executable).0.node(ino);
            &&& changed is DirtyFile
            &&& stored(now, NodeView::Tree(id), path) == Found::File {
                content: changed->DirtyFile_content,
                executable: changed->DirtyFile_executable,
            }
            &&& size is None ==> changed->DirtyFile_content == content_of(slab, objects, ino)
            &&& executable matches Some(x) ==> changed->DirtyFile_executable == x
            &&& size matches Some(n) ==> changed->DirtyFile_content.len() == n
        }),
{
    let open = file_opened_upward(slab, objects, ino).0;
    let after = attr_changed(slab, objects, ino, size, executable).0;
    let first = file_opened(slab, objects, ino).0;
    assert(first.has(ino) && first.node(ino) is DirtyFile);
    lemma_upward_stays(first, objects, first.at(ino).parent, ino);
    let node = after.node(ino);
    assert(node is DirtyFile);
    assert(after =~= open.with_node(ino, node));
    lemma_changed_is_reached(slab, objects, path, ino, node);
    snapshot_keeps_content(after, objects, last, now, id, path);
    lemma_seen_at_end(after, now, ROOT_INODE, path, Seq::empty());
    assert(path + Seq::<Seq<char>>::empty() =~= path);
}

/// A directory whose entries change is reached by a walk along its path.
proof fn lemma_directory_is_reached(
    slab: SlabView,
    objects: Objects,
    path: Seq<Seq<char>>,
    dir: InodeId,
    after: SlabView,
)
    requires
        in_place(slab),
        nothing_ignored(slab),
        leads(slab, objects, path) == Some(dir),
        opened_upward(slab, objects, dir).1 is Ok,
        opened_upward(slab, objects, dir).0.inodes.len() <= after.inodes.len() <= u64::MAX,
        nothing_ignored(after),
        forall|i: InodeId| #[trigger]
            opened_upward(slab, objects, dir).0.has(i) && i != dir ==> after.at(i)
                == opened_upward(slab, objects, dir).0.at(i),
    ensures
        walk(after, Set::empty(), ROOT_INODE, path) == Some(dir),
{
    let open = opened_upward(slab, objects, dir).0;
    upward_keeps(slab, objects, dir);
    lemma_upward_is_reached(slab, objects, path);
    assert forall|p: InodeId, name: Seq<char>, c: InodeId|
        p != dir && #[trigger] open.attached(p, name, c) implies after.attached(p, name, c) by {
        assert(after.at(p) == open.at(p));
    }
    lemma_walk_kept(open, after, objects, path, path.len() as int, dir);
    assert(path.take(path.len() as int) =~= path);
}

/// A new entry is in the next snapshot, under its name in its directory.
pub proof fn created_entry_is_in_the_snapshot(
    slab: SlabView,
    objects: Objects,
    path: Seq<Seq<char>>,
    parent: InodeId,
    name: Seq<char>,
    node: NodeView,
    last: SlabView,
    now: Objects,
    id: Id,
)
    requires
        in_place(slab),
        nothing_ignored(slab),
        childless(node),
        node.is_dirty(),
        leads(slab, objects, path) == Some(parent),
        entry_added(slab, objects, parent, name, node).1 is Ok,
        entry_added(slab, objects, parent, name, node).0.inodes.len() <= u64::MAX,
        stored_below_root(
            entry_added(slab, objects, parent, name, node).0,
            objects,
            last,
            now,
            Ok(id),
        ),
        no_collision(entry_added(slab, objects, parent, name, node).0, Set::empty(), now),
    ensures
        stored(now, NodeView::Tree(id), path.push(name)) == match node {
            NodeView::DirtyFile { content, executable } => Found::File { content, executable },
            NodeView::DirtySymlink(target) => Found::Link(target),
            _ => Found::Dir,
        },
{
    let open = opened_upward(slab, objects, parent).0;
    let child = open.next_id() as InodeId;
    let inode = InodeView { parent, name, node, ignored: false };
    let more = open.with_inode(inode);
    let after = entry_added(slab, objects, parent, name, node).0;
    assert(after == more.with_child(parent, name, child));
    assert(open.inodes.len() <= after.inodes.len());
    upward_keeps(slab, objects, parent);
    lemma_upward_ignored(slab, objects, parent);
    keeps_with_inode(open, inode);
    keeps_with_child(more, parent, name, child);
    assert(nothing_ignored(after)) by {
        assert forall|i: InodeId| after.has(i) implies !(#[trigger] after.at(i)).ignored by {
            if open.has(i) {
                assert(!open.at(i).ignored);
            }
        }
    }
    lemma_directory_is_reached(slab, objects, path, parent, after);
    snapshot_keeps_content(after, objects, last, now, id, path.push(name));
    lemma_seen_at_end(after, now, ROOT_INODE, path, seq![name]);
    assert(path + seq![name] =~= path.push(name));
    assert(seq![name][0] == name);
    let rest = seq![name].drop_first();
    assert(after.node(parent)->DirtyTree_0[name] == child);
    assert(!after.at(child).ignored);
    assert(after.node(child) == node);
    assert(seen(after, now, Set::empty(), parent, seq![name]) == seen(
        after,
        now,
        Set::empty(),
        child,
        rest,
    ));
}

/// A removed entry is not in the next snapshot.
pub proof fn removed_entry_is_not_in_the_snapshot(
    slab: SlabView,
    objects: Objects,
    path: Seq<Seq<char>>,
    parent: InodeId,
    name: Seq<char>,
    last: SlabView,
    now: Objects,
    id: Id,
)
    requires
        in_place(slab),
        nothing_ignored(slab),
        leads(slab, objects, path) == Some(parent),
        entry_removed(slab, objects, parent, name).1 is Ok,
        entry_removed(slab, objects, parent, name).0.inodes.len() <= u64::MAX,
        stored_below_root(
            entry_removed(slab, objects, parent, name).0,
            objects,
            last,
            now,
            Ok(id),
        ),
        no_collision(entry_removed(slab, objects, parent, name).0, Set::empty(), now),
    ensures
        stored(now, NodeView::Tree(id), path.push(name)) == Found::Nothing,
{
    let open = opened_upward(slab, objects, parent).0;
    let after = entry_removed(slab, objects, parent, name).0;
    assert(after == open.without_child(parent, name));
    upward_keeps(slab, objects, parent);
    lemma_upward_ignored(slab, objects, parent);
    let child = open.node(parent)->DirtyTree_0[name];
    assert(open.attached(parent, name, child));
    keeps_without_child(open, parent, name, child);
    assert(nothing_ignored(after)) by {
        assert forall|i: InodeId| after.has(i) implies !(#[trigger] after.at(i)).ignored by {
            assert(!open.at(i).ignored);
        }
    }
    lemma_directory_is_reached(slab, objects, path, parent, after);
    snapshot_keeps_content(after, objects, last, now, id, path.push(name));
    lemma_seen_at_end(after, now, ROOT_INODE, path, seq![name]);
    assert(path + seq![name] =~= path.push(name));
    assert(seq![name][0] == name);
}

/// A walk along a path comes past an inode before its end or ends there.
pub open spec fn comes_past(slab: SlabView, path: Seq<Seq<char>>, i: InodeId) -> bool {
    exists|n: int|
        0 < n <= path.len() && #[trigger] walk(slab, Set::empty(), ROOT_INODE, path.take(n)) == Some(
            i,
        )
}

/// A walk that does not come past an inode stays the same if that inode is taken
/// from its place.
proof fn lemma_walk_around(
    before: SlabView,
    after: SlabView,
    objects: Objects,
    path: Seq<Seq<char>>,
    n: int,
    end: InodeId,
    taken: InodeId,
)
    requires
        tidy(before),
        walk(before, Set::empty(), ROOT_INODE, path) == Some(end),
        !comes_past(before, path, taken),
        nothing_ignored(after),
        before.inodes.len() <= after.inodes.len(),
        forall|p: InodeId, name: Seq<char>, c: InodeId|
            p != end && c != taken && #[trigger] before.attached(p, name, c) ==> after.attached(
                p,
                name,
                c,
            ),
        0 <= n <= path.len(),
    ensures
        walk(after, Set::empty(), ROOT_INODE, path.take(n)) == walk(
            before,
            Set::empty(),
            ROOT_INODE,
            path.take(n),
        ),
        walk(before, Set::empty(), ROOT_INODE, path.take(n)) is Some,
    decreases n,
{
    let none = Set::<Seq<char>>::empty();
    if n > 0 {
        let front = path.take(n - 1);
        let name = path[n - 1];
        assert(path.take(n) =~= front.push(name));
        lemma_walk_around(before, after, objects, path, n - 1, end, taken);
        lemma_walk_push(before, none, ROOT_INODE, front, name);
        lemma_walk_push(after, none, ROOT_INODE, front, name);
        let d = walk(before, none, ROOT_INODE, front)->0;
        lemma_walk_leads(before, objects, front);
        lemma_walk_leads(before, objects, path);
        lemma_leads_has(before, objects, front);
        if d == end {
            one_path(before, objects, front, path);
            assert(front.len() == path.len());
        }
        lemma_walk_front(before, path, n);
        let one = seq![name];
        assert(one[0] == name);
        let c = before.node(d)->DirtyTree_0[name];
        assert(walk(before, none, d, one) == walk(before, none, c, one.drop_first()));
        assert(walk(before, none, ROOT_INODE, path.take(n)) == Some(c));
        assert(c != taken);
        assert(before.attached(d, name, c));
        assert(after.attached(d, name, c));
        assert(before.by_parent.contains_key((d, name)));
        assert(!after.at(c).ignored);
        assert(walk(after, none, d, one) == walk(after, none, c, one.drop_first()));
    }
}

/// A moved entry is in the next snapshot under its new name in its new directory,
/// unless it was moved below itself.
pub proof fn moved_entry_is_in_the_snapshot(
    slab: SlabView,
    objects: Objects,
    parent: InodeId,
    name: Seq<char>,
    new_path: Seq<Seq<char>>,
    new_parent: InodeId,
    new_name: Seq<char>,
    last: SlabView,
    now: Objects,
    id: Id,
)
    requires
        in_place(slab),
        nothing_ignored(slab),
        leads(
            if new_parent == parent {
                slab
            } else {
                opened_upward(slab, objects, parent).0
            },
            objects,
            new_path,
        ) == Some(new_parent),
        opened_upward(opened_upward(slab, objects, parent).0, objects, new_parent).0.inodes.len()
            <= u64::MAX,
        entry_moved(slab, objects, parent, name, new_parent, new_name).1 is Ok,
        ({
            let open = opened_to_move(slab, objects, parent, new_parent);
            !comes_past(open, new_path, open.node(parent)->DirtyTree_0[name])
        }),
        stored_below_root(
            entry_moved(slab, objects, parent, name, new_parent, new_name).0,
            objects,
            last,
            now,
            Ok(id),
        ),
        no_collision(
            entry_moved(slab, objects, parent, name, new_parent, new_name).0,
            Set::empty(),
            now,
        ),
    ensures
        ({
            let open = opened_to_move(slab, objects, parent, new_parent);
            let child = open.node(parent)->DirtyTree_0[name];
            let after = entry_moved(slab, objects, parent, name, new_parent, new_name).0;
            &&& stored(now, NodeView::Tree(id), new_path.push(new_name)) == found_at(
                now,
                after.node(child),
            )
            &&& !open.node(child).is_dir() ==> after.node(child) == open.node(child)
        }),
{
    let first = opened_upward(slab, objects, parent).0;
    let open = opened_to_move(slab, objects, parent, new_parent);
    let child = open.node(parent)->DirtyTree_0[name];
    let after = entry_moved(slab, objects, parent, name, new_parent, new_name).0;
    lemma_upward_len(first, objects, new_parent);
    upward_keeps(slab, objects, parent);
    lemma_upward_ignored(slab, objects, parent);
    upward_keeps(first, objects, new_parent);
    if new_parent == parent {
        lemma_upward_is_reached(slab, objects, new_path);
    } else {
        lemma_upward_is_reached(first, objects, new_path);
    }
    moving_ignores_nothing(slab, objects, parent, name, new_parent, new_name);
    lemma_moved_reached(open, objects, parent, name, new_parent, new_name, new_path, after);
    let longer = new_path.push(new_name);
    snapshot_keeps_content(after, objects, last, now, id, longer);
    lemma_seen_at_end(after, now, ROOT_INODE, new_path, seq![new_name]);
    assert(new_path + seq![new_name] =~= longer);
    assert(seq![new_name][0] == new_name);
    let rest = seq![new_name].drop_first();
    assert(seen(after, now, Set::empty(), new_parent, seq![new_name]) == seen(
        after,
        now,
        Set::empty(),
        child,
        rest,
    ));
}

/// The directory that an entry is moved into is reached along its path, and the
/// entry is in it.
proof fn lemma_moved_reached(
    open: SlabView,
    objects: Objects,
    parent: InodeId,
    name: Seq<char>,
    new_parent: InodeId,
    new_name: Seq<char>,
    new_path: Seq<Seq<char>>,
    after: SlabView,
)
    requires
        tidy(open),
        walk(open, Set::empty(), ROOT_INODE, new_path) == Some(new_parent),
        !comes_past(open, new_path, open.node(parent)->DirtyTree_0[name]),
        moved(open, objects, parent, name, new_parent, new_name).1 is Ok,
        ({
            let (linked, r) = moved(open, objects, parent, name, new_parent, new_name);
            after == match r {
                Ok(Some(c)) => linked.reparented(c, new_parent, new_name),
                _ => linked,
            }
        }),
        nothing_ignored(after),
    ensures
        ({
            let child = open.node(parent)->DirtyTree_0[name];
            &&& tidy(after)
            &&& walk(after, Set::empty(), ROOT_INODE, new_path) == Some(new_parent)
            &&& after.attached(new_parent, new_name, child)
            &&& after.has(child)
            &&& !open.node(child).is_dir() ==> after.node(child) == open.node(child)
        }),
{
    let child = open.node(parent)->DirtyTree_0[name];
    let (linked, r) = moved(open, objects, parent, name, new_parent, new_name);
    keeps_moved(open, objects, parent, name, new_parent, new_name);
    lemma_moved_is_found(open, objects, parent, name, new_parent, new_name);
    assert forall|p: InodeId, n: Seq<char>, c: InodeId|
        p != new_parent && c != child && #[trigger] open.attached(p, n, c) implies after.attached(
        p,
        n,
        c,
    ) by {
        if p == parent {
            assert(n != name);
        }
        let out = open.without_child(new_parent, new_name);
        assert(out.at(p) == open.at(p));
        assert(linked.attached(p, n, c));
        assert(after.node(p) == linked.node(p));
    }
    lemma_walk_around(open, after, objects, new_path, new_path.len() as int, new_parent, child);
    assert(new_path.take(new_path.len() as int) =~= new_path);
}

/// A name that was looked up along a path prolongs the path: what lookups found
/// has a path.
pub proof fn looked_up_entry_has_a_path(
    slab: SlabView,
    objects: Objects,
    path: Seq<Seq<char>>,
    parent: InodeId,
    name: Seq<char>,
)
    requires
        in_place(slab),
        leads(slab, objects, path) == Some(parent),
        looked_up(slab, objects, parent, name).1 is Ok,
        looked_up(slab, objects, parent, name).0.inodes.len() <= u64::MAX,
    ensures
        leads(looked_up(slab, objects, parent, name).0, objects, path.push(name)) == Some(
            looked_up(slab, objects, parent, name).1->Ok_0,
        ),
{
    let after = looked_up(slab, objects, parent, name).0;
    lemma_leads_more(slab, after, objects, path, path.len() as int);
    assert(path.take(path.len() as int) =~= path);
    assert(path.push(name).drop_last() =~= path);
    lemma_leads_has(slab, objects, path);
    assert(after.at(parent) == slab.at(parent));
    if let NodeView::DirtyTree(children) = slab.node(parent) {
        assert(slab.attached(parent, name, children[name]));
    }
}

/// A new entry has a path: that of its directory and its name.
pub proof fn created_entry_has_a_path(
    slab: SlabView,
    objects: Objects,
    path: Seq<Seq<char>>,
    parent: InodeId,
    name: Seq<char>,
    node: NodeView,
)
    requires
        in_place(slab),
        nothing_ignored(slab),
        childless(node),
        leads(slab, objects, path) == Some(parent),
        entry_added(slab, objects, parent, name, node).1 is Ok,
        entry_added(slab, objects, parent, name, node).0.inodes.len() <= u64::MAX,
    ensures
        ({
            let (after, r) = entry_added(slab, objects, parent, name, node);
            leads(after, objects, path.push(name)) == Some((r->Ok_0).0)
        }),
{
    let open = opened_upward(slab, objects, parent).0;
    let child = open.next_id() as InodeId;
    let inode = InodeView { parent, name, node, ignored: false };
    let more = open.with_inode(inode);
    let after = entry_added(slab, objects, parent, name, node).0;
    assert(after == more.with_child(parent, name, child));
    assert(open.inodes.len() <= after.inodes.len());
    upward_keeps(slab, objects, parent);
    lemma_upward_ignored(slab, objects, parent);
    keeps_with_inode(open, inode);
    keeps_with_child(more, parent, name, child);
    assert(nothing_ignored(after)) by {
        assert forall|i: InodeId| after.has(i) implies !(#[trigger] after.at(i)).ignored by {
            if open.has(i) {
                assert(!open.at(i).ignored);
            }
        }
    }
    lemma_directory_is_reached(slab, objects, path, parent, after);
    lemma_walk_leads(after, objects, path);
    assert(path.push(name).drop_last() =~= path);
    assert(after.has(parent));
}

/// A snapshot leaves every path as it was: it leads to the inode that it led to.
pub proof fn snapshot_keeps_paths(
    before: SlabView,
    objects: Objects,
    after: SlabView,
    now: Objects,
    id: Id,
    path: Seq<Seq<char>>,
)
    requires
        tidy(before),
        stored_below_root(before, objects, after, now, Ok(id)),
        no_collision(before, Set::empty(), now),
        leads(before, objects, path) is Some,
    ensures
        leads(after, now, path) == leads(before, objects, path),
    decreases path.len(),
{
    let none = Set::<Seq<char>>::empty();
    if path.len() > 0 {
        let front = path.drop_last();
        let name = path.last();
        snapshot_keeps_paths(before, objects, after, now, id, front);
        let d = leads(before, objects, front)->0;
        if after.at(d) != before.at(d) {
            let f = choose|f: nat| cleaned(before, none, after, d, f);
            assert(cleaned(before, none, after, d, f));
            let children = before.node(d)->DirtyTree_0;
            assert(children.contains_key(name));
            assert(complete(before, none, after, now, d, f));
            lemma_tree_stored(before, now, none, d, f);
            lemma_tree_leads(before, none, d, f, name);
            assert(!skipped(before, none, d, name, children[name]));
        } else if let NodeView::Tree(t) = before.node(d) {
            assert(tree_at(now, t) == tree_at(objects, t));
        }
    }
}

proof fn lemma_leads_more(
    slab: SlabView,
    after: SlabView,
    objects: Objects,
    path: Seq<Seq<char>>,
    n: int,
)
    requires
        tidy(slab),
        leads(slab, objects, path) is Some,
        0 <= n <= path.len(),
        forall|i: InodeId| slab.has(i) ==> after.has(i) && #[trigger] after.at(i) == slab.at(i),
        forall|k: (InodeId, Seq<char>)| #[trigger]
            slab.by_parent.contains_key(k) ==> after.by_parent.contains_key(k)
                && after.by_parent[k] == slab.by_parent[k],
    ensures
        leads(after, objects, path.take(n)) == leads(slab, objects, path.take(n)),
        leads(slab, objects, path.take(n)) is Some,
    decreases n,
{
    crate::vfs::yak_open::lemma_leads_front(slab, objects, path, n);
    if n > 0 {
        assert(path.take(n).drop_last() =~= path.take(n - 1));
        lemma_leads_more(slab, after, objects, path, n - 1);
        let d = leads(slab, objects, path.take(n - 1))->0;
        assert(slab.has(d));
        assert(after.at(d) == slab.at(d));
    }
}

proof fn lemma_listed_ignored(slab: SlabView, dir: InodeId, entries: Seq<EntryView>)
    requires
        nothing_ignored(slab),
        listed(slab, dir, entries, Set::empty()).inodes.len() <= u64::MAX,
    ensures
        nothing_ignored(listed(slab, dir, entries, Set::empty())),
    decreases entries.len(),
{
    if entries.len() > 0 {
        let before = listed(slab, dir, entries.drop_last(), Set::empty());
        let after = listed(slab, dir, entries, Set::empty());
        assert(before.inodes.len() <= after.inodes.len());
        lemma_listed_ignored(slab, dir, entries.drop_last());
        assert forall|i: InodeId| after.has(i) implies !(#[trigger] after.at(i)).ignored by {
            if before.has(i) {
                assert(!before.at(i).ignored);
            }
        }
    }
}

/// A listing makes nothing ignored.
pub proof fn listing_ignores_nothing(slab: SlabView, objects: Objects, dir: InodeId)
    requires
        nothing_ignored(slab),
        listing(slab, objects, dir, Set::empty()).0.inodes.len() <= u64::MAX,
    ensures
        nothing_ignored(listing(slab, objects, dir, Set::empty()).0),
{
    if slab.has(dir) {
        if let NodeView::Tree(id) = slab.node(dir) {
            if let Ok(entries) = crate::vfs::tree_ops::tree_result(objects, id) {
                lemma_listed_ignored(slab, dir, entries);
            }
        }
    }
}

/// A move makes nothing ignored.
pub proof fn moving_ignores_nothing(
    slab: SlabView,
    objects: Objects,
    parent: InodeId,
    name: Seq<char>,
    new_parent: InodeId,
    new_name: Seq<char>,
)
    requires
        in_place(slab),
        nothing_ignored(slab),
        opened_upward(opened_upward(slab, objects, parent).0, objects, new_parent).0.inodes.len()
            <= u64::MAX,
    ensures
        nothing_ignored(entry_moved(slab, objects, parent, name, new_parent, new_name).0),
{
    let first = opened_upward(slab, objects, parent).0;
    lemma_upward_len(first, objects, new_parent);
    lemma_upward_ignored(slab, objects, parent);
    lemma_upward_ignored(first, objects, new_parent);
    upward_keeps(slab, objects, parent);
    upward_keeps(first, objects, new_parent);
    let open = opened_to_move(slab, objects, parent, new_parent);
    let (linked, r) = moved(open, objects, parent, name, new_parent, new_name);
    let after = entry_moved(slab, objects, parent, name, new_parent, new_name).0;
    assert forall|i: InodeId| linked.has(i) implies !(#[trigger] linked.at(i)).ignored by {
        assert(open.has(i));
        assert(!open.at(i).ignored);
        if open.has(new_parent) {
            let out = open.without_child(new_parent, new_name);
            assert(out.has(i));
            assert(out.at(i).ignored == open.at(i).ignored);
        }
    }
    if let Ok(Some(c)) = r {
        assert(open.attached(parent, name, c));
        assert(open.by_parent.contains_key((parent, name)));
        assert(linked.has(c));
    }
    assert forall|i: InodeId| after.has(i) implies !(#[trigger] after.at(i)).ignored by {
        if first.has(i) {
            assert(!first.at(i).ignored);
        }
        if open.has(i) {
            assert(!open.at(i).ignored);
        }
        if linked.has(i) {
            assert(!linked.at(i).ignored);
        }
    }
}

/// A snapshot makes nothing ignored.
pub proof fn snapshot_ignores_nothing(
    slab: SlabView,
    objects: Objects,
    after: SlabView,
    now: Objects,
    r: Result<Id, ErrView>,
)
    requires
        nothing_ignored(slab),
        stored_below_root(slab, objects, after, now, r),
    ensures
        nothing_ignored(after),
{
    assert forall|i: InodeId| after.has(i) implies !(#[trigger] after.at(i)).ignored by {
        assert(slab.has(i));
        assert(!slab.at(i).ignored);
        if after.at(i) != slab.at(i) {
            let f = choose|f: nat| cleaned(slab, Set::empty(), after, i, f);
            assert(cleaned(slab, Set::empty(), after, i, f));
        }
    }
}

/// What is looked up, made, written, changed, removed or checked out makes
/// nothing ignored.
pub proof fn nothing_becomes_ignored(
    slab: SlabView,
    objects: Objects,
    parent: InodeId,
    name: Seq<char>,
    node: NodeView,
    ino: InodeId,
    offset: u64,
    data: Seq<u8>,
    size: Option<u64>,
    executable: Option<bool>,
    tree: Id,
)
    requires
        in_place(slab),
        nothing_ignored(slab),
        entry_added(slab, objects, parent, name, node).0.inodes.len() <= u64::MAX,
        bytes_written(slab, objects, ino, offset, data).0.inodes.len() <= u64::MAX,
        slab.next_id() <= u64::MAX,
        opened_upward(slab, objects, parent).0.inodes.len() <= u64::MAX,
    ensures
        nothing_ignored(looked_up(slab, objects, parent, name).0),
        nothing_ignored(entry_added(slab, objects, parent, name, node).0),
        nothing_ignored(bytes_written(slab, objects, ino, offset, data).0),
        nothing_ignored(attr_changed(slab, objects, ino, size, executable).0),
        nothing_ignored(entry_removed(slab, objects, parent, name).0),
        nothing_ignored(switched(slab, objects, tree).0),
{
    let looked = looked_up(slab, objects, parent, name).0;
    assert forall|i: InodeId| looked.has(i) implies !(#[trigger] looked.at(i)).ignored by {
        if slab.has(i) {
            assert(!slab.at(i).ignored);
        }
    }
    let open = opened_upward(slab, objects, parent).0;
    lemma_upward_ignored(slab, objects, parent);
    upward_keeps(slab, objects, parent);
    let added = entry_added(slab, objects, parent, name, node).0;
    assert forall|i: InodeId| added.has(i) implies !(#[trigger] added.at(i)).ignored by {
        if slab.has(i) {
            assert(!slab.at(i).ignored);
        }
        if open.has(i) {
            assert(!open.at(i).ignored);
        }
    }
    let gone = entry_removed(slab, objects, parent, name).0;
    assert forall|i: InodeId| gone.has(i) implies !(#[trigger] gone.at(i)).ignored by {
        assert(open.has(i));
        assert(!open.at(i).ignored);
    }
    let first = file_opened(slab, objects, ino).0;
    assert forall|i: InodeId| first.has(i) implies !(#[trigger] first.at(i)).ignored by {
        assert(!slab.at(i).ignored);
    }
    if file_opened(slab, objects, ino).1 is Ok {
        lemma_upward_ignored(first, objects, first.at(ino).parent);
        lemma_upward_stays(first, objects, first.at(ino).parent, ino);
    }
    let opened_file = file_opened_upward(slab, objects, ino).0;
    let written = bytes_written(slab, objects, ino, offset, data).0;
    assert forall|i: InodeId| written.has(i) implies !(#[trigger] written.at(i)).ignored by {
        assert(!opened_file.at(i).ignored);
    }
    let changed = attr_changed(slab, objects, ino, size, executable).0;
    assert forall|i: InodeId| changed.has(i) implies !(#[trigger] changed.at(i)).ignored by {
        if size is None && executable is None {
            assert(!slab.at(i).ignored);
        } else {
            assert(!opened_file.at(i).ignored);
        }
    }
    let other = switched(slab, objects, tree).0;
    assert forall|i: InodeId| other.has(i) implies !(#[trigger] other.at(i)).ignored by {
        if i != ROOT_INODE {
            assert(!slab.at(i).ignored);
        }
    }
}

} // verus!
