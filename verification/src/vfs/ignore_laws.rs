//! Which entries are ignored, which are redirected, and by which rules.
use vstd::prelude::*;
use vstd::utf8::encode_utf8;
use crate::git_store::{file_at, tree_at, EntryView, Objects};
use crate::ty::Id;
use crate::vfs::inode::{InodeId, InodeView, NodeView, SlabView, ROOT_INODE};
use crate::vfs::io_laws::bytes_of;
use crate::vfs::kiki_fs::{
    named_file, opened_above, outside_tree, path_below_root, snapshotted, KikiView,
};
use crate::vfs::laws::{
    dirtying_keeps, lemma_dirty_stays, no_collision, snapshot_keeps_content, stored, Found,
};
use crate::vfs::model::{distinct, follow, lemma_dirtied_len, lemma_follow_push, lemma_seen_walk};
use crate::vfs::rules::{gitignore_verdict, lossy_text, matchable, paths_from};
use crate::vfs::snapshot::{skipped, walk};
use crate::vfs::tidy::{
    childless, keeps_with_child, keeps_with_inode, lemma_path_short, placed, tidy,
};
use crate::vfs::tree_ops::{file_opened, nodes_of, opened, readlink_result, tree_result};
use crate::vfs::types::ErrView;
use crate::vfs::yak_open::lemma_loaded_names;

verus! {

// ---- paths ---------------------------------------------------------------------------

/// Names with slashes between.
pub open spec fn slashed(path: Seq<Seq<char>>) -> Seq<char>
    decreases path.len(),
{
    if path.len() == 0 {
        Seq::empty()
    } else if path.len() == 1 {
        path[0]
    } else {
        path[0] + "/"@ + slashed(path.drop_first())
    }
}

/// A name that an entry can have.
pub open spec fn proper(name: Seq<char>) -> bool {
    name.len() > 0 && !name.contains('/')
}

/// Names that entries can have.
pub open spec fn all_proper(path: Seq<Seq<char>>) -> bool {
    forall|i: int| 0 <= i < path.len() ==> proper(#[trigger] path[i])
}

proof fn lemma_slashed_push(path: Seq<Seq<char>>, name: Seq<char>)
    ensures
        slashed(path.push(name)) == if path.len() == 0 {
            name
        } else {
            slashed(path) + "/"@ + name
        },
    decreases path.len(),
{
    let longer = path.push(name);
    if path.len() == 0 {
        assert(longer[0] == name);
    } else {
        let rest = path.drop_first();
        assert(longer[0] == path[0]);
        assert(longer.drop_first() =~= rest.push(name));
        lemma_slashed_push(rest, name);
        if path.len() == 1 {
            assert(rest.len() == 0);
        } else {
            assert(slashed(longer) =~= slashed(path) + "/"@ + name);
        }
    }
}

/// Only one path of known names leads to an inode.
proof fn lemma_follow_unique(slab: SlabView, a: Seq<Seq<char>>, b: Seq<Seq<char>>)
    requires
        tidy(slab),
        follow(slab, ROOT_INODE, a) is Some,
        follow(slab, ROOT_INODE, a) == follow(slab, ROOT_INODE, b),
    ensures
        a == b,
    decreases a.len(),
{
    if a.len() > 0 {
        assert(a =~= a.drop_last().push(a.last()));
        lemma_follow_push(slab, ROOT_INODE, a.drop_last(), a.last());
    }
    if b.len() > 0 {
        assert(b =~= b.drop_last().push(b.last()));
        lemma_follow_push(slab, ROOT_INODE, b.drop_last(), b.last());
    }
    if a.len() > 0 && b.len() > 0 {
        let ka = (follow(slab, ROOT_INODE, a.drop_last())->0, a.last());
        let kb = (follow(slab, ROOT_INODE, b.drop_last())->0, b.last());
        assert(slab.by_parent.contains_key(ka) && slab.by_parent.contains_key(kb));
        assert(ka == kb);
        lemma_follow_unique(slab, a.drop_last(), b.drop_last());
    } else if a.len() > 0 {
        let ka = (follow(slab, ROOT_INODE, a.drop_last())->0, a.last());
        assert(slab.by_parent.contains_key(ka));
    } else if b.len() > 0 {
        let kb = (follow(slab, ROOT_INODE, b.drop_last())->0, b.last());
        assert(slab.by_parent.contains_key(kb));
    } else {
        assert(a =~= b);
    }
}

proof fn lemma_follow_front(slab: SlabView, path: Seq<Seq<char>>, n: int)
    requires
        tidy(slab),
        0 <= n <= path.len(),
        follow(slab, ROOT_INODE, path) is Some,
    ensures
        follow(slab, ROOT_INODE, path.take(n)) is Some,
        slab.has(follow(slab, ROOT_INODE, path.take(n))->0),
    decreases path.len(),
{
    if n == path.len() {
        assert(path.take(n) =~= path);
        if path.len() > 0 {
            assert(path =~= path.drop_last().push(path.last()));
            lemma_follow_push(slab, ROOT_INODE, path.drop_last(), path.last());
            let key = (follow(slab, ROOT_INODE, path.drop_last())->0, path.last());
            assert(slab.by_parent.contains_key(key));
        }
    } else {
        assert(path =~= path.drop_last().push(path.last()));
        lemma_follow_push(slab, ROOT_INODE, path.drop_last(), path.last());
        assert(path.drop_last().take(n) =~= path.take(n));
        lemma_follow_front(slab, path.drop_last(), n);
    }
}

proof fn lemma_follow_short(slab: SlabView, path: Seq<Seq<char>>)
    requires
        tidy(slab),
        follow(slab, ROOT_INODE, path) is Some,
    ensures
        path.len() < slab.inodes.len(),
{
    let ids = Seq::new(path.len() + 1, |n: int| follow(slab, ROOT_INODE, path.take(n))->0);
    assert forall|n: int| 0 <= n < ids.len() implies slab.has(#[trigger] ids[n]) by {
        lemma_follow_front(slab, path, n);
    }
    assert forall|a: int, b: int| 0 <= a < b < ids.len() implies ids[a] != ids[b] by {
        lemma_follow_front(slab, path, a);
        lemma_follow_front(slab, path, b);
        if ids[a] == ids[b] {
            lemma_follow_unique(slab, path.take(a), path.take(b));
            assert(path.take(a).len() == a && path.take(b).len() == b);
        }
    }
    assert(ids.no_duplicates());
    lemma_path_short(slab, ids);
}

proof fn lemma_path_below(
    slab: SlabView,
    path: Seq<Seq<char>>,
    tail: Seq<char>,
    steps: nat,
)
    requires
        tidy(slab),
        placed(slab),
        follow(slab, ROOT_INODE, path) is Some,
        steps >= path.len(),
    ensures
        path_below_root(slab, follow(slab, ROOT_INODE, path)->0, tail, steps) == if path.len() == 0 {
            tail
        } else {
            slashed(path) + "/"@ + tail
        },
    decreases path.len(),
{
    let current = follow(slab, ROOT_INODE, path)->0;
    if path.len() > 0 {
        let front = path.drop_last();
        let name = path.last();
        assert(path =~= front.push(name));
        lemma_follow_push(slab, ROOT_INODE, front, name);
        let d = follow(slab, ROOT_INODE, front)->0;
        assert(slab.by_parent.contains_key((d, name)));
        if d == current {
            lemma_follow_unique(slab, front, path);
            assert(front.len() == path.len());
        }
        lemma_path_below(slab, front, name + "/"@ + tail, (steps - 1) as nat);
        lemma_slashed_push(front, name);
        if front.len() == 0 {
            assert(name + "/"@ + tail =~= slashed(path) + "/"@ + tail);
        } else {
            assert(slashed(front) + "/"@ + (name + "/"@ + tail) =~= slashed(path) + "/"@ + tail);
        }
    }
}

/// The path that the ignore rules are asked about is made of the names from the
/// root down to the entry, with slashes between, at every depth.
pub proof fn rules_are_asked_about_the_whole_path(
    v: KikiView,
    path: Seq<Seq<char>>,
    parent: InodeId,
    name: Seq<char>,
)
    requires
        v.wf(),
        follow(v.slab, ROOT_INODE, path) == Some(parent),
    ensures
        v.repo_path(parent, name) == slashed(path.push(name)),
{
    lemma_follow_short(v.slab, path);
    lemma_path_below(v.slab, path, name, v.slab.inodes.len());
    lemma_slashed_push(path, name);
}

proof fn lemma_slashed_starts(path: Seq<Seq<char>>)
    requires
        path.len() > 0,
        all_proper(path),
    ensures
        slashed(path).len() > 0,
        slashed(path)[0] == path[0][0],
        slashed(path)[0] != '/',
{
    let first = path[0];
    assert(proper(first));
    assert(first.contains(first[0]));
}

/// A path of proper names can be matched, as a file and as a directory.
pub proof fn proper_paths_can_be_matched(path: Seq<Seq<char>>)
    requires
        path.len() > 0,
        all_proper(path),
    ensures
        matchable(slashed(path)),
        matchable(slashed(path) + "/"@),
{
    reveal_strlit("/");
    lemma_slashed_starts(path);
    let text = slashed(path);
    let first = path[0];
    assert(proper(first));
    assert forall|i: int| 0 <= i < first.len() implies first[i] != '/' by {
        assert(first.contains(first[i]));
    }
    if path.len() == 1 {
        let dir = text + "/"@;
        assert(dir[dir.len() - 1] == '/');
        if text.len() >= 2 {
            assert(dir[1] == text[1]);
        }
    } else {
        let rest = path.drop_first();
        assert forall|i: int| 0 <= i < rest.len() implies proper(#[trigger] rest[i]) by {
            assert(path[i + 1] == rest[i]);
        }
        lemma_slashed_starts(rest);
        let more = slashed(rest);
        assert(text == first + "/"@ + more);
        assert(text[first.len() as int] == '/');
        assert(text[first.len() as int + 1] == more[0]);
        let dir = text + "/"@;
        assert forall|i: int| 0 <= i < text.len() implies dir[i] == text[i] by {}
        if first.len() >= 2 {
            assert(text[1] == first[1]);
        }
        if text[0] == '.' && text[1] == '/' {
            assert(first.len() == 1);
            assert(text.skip(2)[0] == more[0]);
            assert(dir.skip(2)[0] == more[0]);
        }
    }
}

// ---- what is ignored ---------------------------------------------------------------------

/// The rules of a `.gitignore` file ignore what stands at a path.
pub open spec fn ignored_by(
    rules: Option<Seq<u8>>,
    path: Seq<Seq<char>>,
    is_dir: bool,
) -> bool {
    rules matches Some(file) && gitignore_verdict(
        file,
        if is_dir {
            slashed(path) + "/"@
        } else {
            slashed(path)
        },
    ) == Some(true)
}

/// An entry is ignored exactly if its directory is or the rules ignore its path
/// from the root; that of a directory is asked about with a slash behind it.
pub proof fn entries_are_ignored_by_their_path(
    v: KikiView,
    path: Seq<Seq<char>>,
    parent: InodeId,
    name: Seq<char>,
    is_dir: bool,
)
    requires
        v.wf(),
        follow(v.slab, ROOT_INODE, path) == Some(parent),
        all_proper(path.push(name)),
    ensures
        v.is_ignored(parent, name, is_dir) <==> v.slab.at(parent).ignored || ignored_by(
            v.rules,
            path.push(name),
            is_dir,
        ),
{
    rules_are_asked_about_the_whole_path(v, path, parent, name);
    proper_paths_can_be_matched(path.push(name));
    lemma_slashed_starts(path.push(name));
    lemma_follow_front(v.slab, path, path.len() as int);
    assert(path.take(path.len() as int) =~= path);
}

/// Opening directories for changes keeps the names that are known.
proof fn lemma_opened_names(slab: SlabView, objects: Objects, dir: InodeId)
    ensures
        forall|k: (InodeId, Seq<char>)| #[trigger]
            slab.by_parent.contains_key(k) ==> opened(slab, objects, dir).0.by_parent.contains_key(k)
                && opened(slab, objects, dir).0.by_parent[k] == slab.by_parent[k],
{
    if slab.has(dir) {
        if let NodeView::Tree(id) = slab.node(dir) {
            if let Ok(entries) = tree_result(objects, id) {
                lemma_loaded_names(slab, dir, nodes_of(entries));
            }
        }
    }
}

proof fn lemma_above_names(slab: SlabView, objects: Objects, current: InodeId, steps: nat)
    ensures
        forall|k: (InodeId, Seq<char>)| #[trigger]
            slab.by_parent.contains_key(k) ==> opened_above(
                slab,
                objects,
                current,
                steps,
            ).0.by_parent.contains_key(k) && opened_above(slab, objects, current, steps).0.by_parent[k]
                == slab.by_parent[k],
    decreases steps,
{
    if steps > 0 && slab.has(current) {
        let parent = slab.at(current).parent;
        if parent != current && slab.has(parent) && !(slab.node(parent) is DirtyTree) {
            lemma_opened_names(slab, objects, parent);
            lemma_above_names(
                opened(slab, objects, parent).0,
                objects,
                parent,
                (steps - 1) as nat,
            );
        }
    }
}

/// Opening a directory for changes keeps the names that are known.
pub proof fn lemma_dirtied_names(v: KikiView, objects: Objects, dir: InodeId)
    ensures
        forall|k: (InodeId, Seq<char>)| #[trigger]
            v.slab.by_parent.contains_key(k) ==> v.dirtied(objects, dir).0.by_parent.contains_key(k)
                && v.dirtied(objects, dir).0.by_parent[k] == v.slab.by_parent[k],
{
    lemma_opened_names(v.slab, objects, dir);
    let mid = opened(v.slab, objects, dir).0;
    lemma_above_names(mid, objects, dir, mid.inodes.len());
}

proof fn lemma_opened_places(slab: SlabView, objects: Objects, dir: InodeId, i: InodeId)
    requires
        slab.has(i),
    ensures
        opened(slab, objects, dir).0.has(i),
        opened(slab, objects, dir).0.at(i).ignored == slab.at(i).ignored,
        opened(slab, objects, dir).0.at(i).name == slab.at(i).name,
{
    if slab.has(dir) {
        if let NodeView::Tree(id) = slab.node(dir) {
            if let Ok(entries) = tree_result(objects, id) {
                crate::vfs::inode::lemma_loaded_keeps(slab, dir, nodes_of(entries), i);
                crate::vfs::inode::lemma_loaded_keeps(slab, dir, nodes_of(entries), dir);
            }
        }
    }
}

proof fn lemma_above_places(
    slab: SlabView,
    objects: Objects,
    current: InodeId,
    steps: nat,
    i: InodeId,
)
    requires
        slab.has(i),
    ensures
        opened_above(slab, objects, current, steps).0.has(i),
        opened_above(slab, objects, current, steps).0.at(i).ignored == slab.at(i).ignored,
        opened_above(slab, objects, current, steps).0.at(i).name == slab.at(i).name,
    decreases steps,
{
    if steps > 0 && slab.has(current) {
        let parent = slab.at(current).parent;
        if parent != current && slab.has(parent) && !(slab.node(parent) is DirtyTree) {
            lemma_opened_places(slab, objects, parent, i);
            lemma_above_places(
                opened(slab, objects, parent).0,
                objects,
                parent,
                (steps - 1) as nat,
                i,
            );
        }
    }
}

/// Opening a directory for changes leaves each inode ignored or not, under its name.
pub proof fn lemma_dirtied_places(v: KikiView, objects: Objects, dir: InodeId, i: InodeId)
    requires
        v.slab.has(i),
    ensures
        v.dirtied(objects, dir).0.has(i),
        v.dirtied(objects, dir).0.at(i).ignored == v.slab.at(i).ignored,
        v.dirtied(objects, dir).0.at(i).name == v.slab.at(i).name,
{
    lemma_opened_places(v.slab, objects, dir, i);
    let mid = opened(v.slab, objects, dir).0;
    lemma_above_places(mid, objects, dir, mid.inodes.len(), i);
}

proof fn lemma_follow_kept(a: SlabView, b: SlabView, i: InodeId, path: Seq<Seq<char>>)
    requires
        forall|k: (InodeId, Seq<char>)| #[trigger]
            a.by_parent.contains_key(k) ==> b.by_parent.contains_key(k) && b.by_parent[k]
                == a.by_parent[k],
        follow(a, i, path) is Some,
    ensures
        follow(b, i, path) == follow(a, i, path),
    decreases path.len(),
{
    if path.len() > 0 {
        assert(a.by_parent.contains_key((i, path[0])));
        lemma_follow_kept(a, b, a.by_parent[(i, path[0])], path.drop_first());
    }
}

/// A new file, symlink or directory at a path is marked ignored exactly if its
/// directory is or the rules ignore the path from the root. What is ignored is
/// reached by no walk from the root, so that it is at no path of a snapshot.
pub proof fn new_entries_are_ignored_by_their_path(
    v: KikiView,
    objects: Objects,
    path: Seq<Seq<char>>,
    parent: InodeId,
    name: Seq<char>,
    node: NodeView,
    p: Seq<Seq<char>>,
)
    requires
        v.wf(),
        follow(v.slab, ROOT_INODE, path) == Some(parent),
        all_proper(path.push(name)),
        childless(node),
        v.add_entry(objects, parent, name, node).1 is Ok,
        v.add_entry(objects, parent, name, node).0.slab.inodes.len() <= u64::MAX,
    ensures
        ({
            let (after, r) = v.add_entry(objects, parent, name, node);
            let child = (r->Ok_0).0;
            &&& after.slab.attached(parent, name, child)
            &&& after.slab.node(child) == node
            &&& after.slab.at(child).ignored <==> v.slab.at(parent).ignored || ignored_by(
                v.rules,
                path.push(name),
                node is DirtyTree,
            )
            &&& after.slab.at(child).ignored ==> walk(
                after.slab,
                outside_tree(),
                ROOT_INODE,
                p,
            ) != Some(child)
        }),
{
    let (room, ok) = v.make_room(objects, parent, name);
    let (after, r) = v.add_entry(objects, parent, name, node);
    let s = room.slab;
    let child = (r->Ok_0).0;
    assert(s == v.dirtied(objects, parent).0);
    let ignored = room.is_ignored(parent, name, node is DirtyTree);
    let inode = InodeView { parent, name, node, ignored };
    let more = s.with_inode(inode);
    assert(more.inodes.len() == s.inodes.len() + 1);
    assert(after.slab == more.with_child(parent, name, child));
    dirtying_keeps(v, objects, parent);
    lemma_dirtied_names(v, objects, parent);
    lemma_follow_kept(v.slab, s, ROOT_INODE, path);
    lemma_follow_front(v.slab, path, path.len() as int);
    assert(path.take(path.len() as int) =~= path);
    lemma_dirtied_places(v, objects, parent, parent);
    keeps_with_inode(s, inode);
    keeps_with_child(more, parent, name, child);
    // The rules are asked in the opened working copy, whose names are the same.
    lemma_follow_short(s, path);
    lemma_path_below(s, path, name, s.inodes.len());
    lemma_slashed_push(path, name);
    proper_paths_can_be_matched(path.push(name));
    lemma_slashed_starts(path.push(name));
    assert(after.slab.at(child) == inode);
    if ignored {
        lemma_ignored_unreached(after.slab, child, ROOT_INODE, p);
    }
}

/// An ignored inode is reached by no walk from elsewhere.
proof fn lemma_ignored_unreached(
    slab: SlabView,
    target: InodeId,
    i: InodeId,
    path: Seq<Seq<char>>,
)
    requires
        slab.at(target).ignored,
        i != target,
    ensures
        walk(slab, outside_tree(), i, path) != Some(target),
    decreases path.len(),
{
    if path.len() > 0 {
        if let NodeView::DirtyTree(children) = slab.node(i) {
            if children.contains_key(path[0]) && !skipped(
                slab,
                outside_tree(),
                i,
                path[0],
                children[path[0]],
            ) {
                lemma_ignored_unreached(slab, target, children[path[0]], path.drop_first());
            }
        }
    }
}

/// What the rules ignore is not in the snapshot: below the path of an ignored
/// entry, and at it, the tree of the next snapshot holds nothing.
pub proof fn ignored_entry_is_not_in_the_snapshot(
    v: KikiView,
    objects: Objects,
    parent: InodeId,
    name: Seq<char>,
    child: InodeId,
    path: Seq<Seq<char>>,
    rest: Seq<Seq<char>>,
    after: KikiView,
    now: Objects,
    id: Id,
)
    requires
        v.wf(),
        v.slab.attached(parent, name, child),
        v.slab.at(child).ignored,
        walk(v.slab, outside_tree(), ROOT_INODE, path) == Some(parent),
        snapshotted(v, objects, after, now, Ok(id)),
        no_collision(v.slab, outside_tree(), now),
    ensures
        stored(now, NodeView::Tree(id), path + seq![name] + rest) == Found::Nothing,
{
    let whole = path + seq![name] + rest;
    let tail = seq![name] + rest;
    assert(whole =~= path + tail);
    snapshot_keeps_content(v, objects, after, now, id, whole);
    lemma_seen_walk(v.slab, now, ROOT_INODE, path, parent, tail);
    assert(tail[0] == name);
}

// ---- where the rules come from --------------------------------------------------------------

/// The root of a tree holds a file of this name and content, and no other entry of
/// that name.
pub open spec fn root_holds(
    objects: Objects,
    tree: Id,
    name: Seq<char>,
    content: Seq<u8>,
) -> bool {
    tree_at(objects, tree) matches Ok(Some(entries)) && distinct(entries) && exists|k: int|
        {
            &&& 0 <= k < entries.len()
            &&& (#[trigger] entries[k]).name == name
            &&& entries[k].kind is File
            &&& objects.contains_key(entries[k].id)
            &&& objects[entries[k].id].kind is Blob
            &&& objects[entries[k].id].data == content
        }
}

/// The root of a tree has no entry of this name.
pub open spec fn root_lacks(objects: Objects, tree: Id, name: Seq<char>) -> bool {
    tree_at(objects, tree) matches Ok(Some(entries)) && forall|k: int|
        0 <= k < entries.len() ==> (#[trigger] entries[k]).name != name
}

proof fn lemma_named_file(
    objects: Objects,
    entries: Seq<EntryView>,
    name: Seq<char>,
    k: int,
    content: Seq<u8>,
)
    requires
        distinct(entries),
        0 <= k < entries.len(),
        entries[k].name == name,
        entries[k].kind is File,
        file_at(objects, entries[k].id) == Ok::<Option<Seq<u8>>, crate::git_store::StoreFault>(
            Some(content),
        ),
    ensures
        named_file(objects, entries, name) == Some(content),
    decreases entries.len(),
{
    let front = entries.drop_last();
    if k < entries.len() - 1 {
        assert forall|a: int, b: int|
            0 <= a < front.len() && 0 <= b < front.len() && (#[trigger] front[a]).name == (
            #[trigger] front[b]).name implies a == b by {
            assert(entries[a].name == entries[b].name);
        }
        assert(front[k] == entries[k]);
        lemma_named_file(objects, front, name, k, content);
    } else {
        assert forall|j: int| 0 <= j < front.len() implies (#[trigger] front[j]).name != name by {
            assert(entries[j].name == front[j].name);
            if entries[j].name == entries[k].name {
                assert(j == k);
            }
        }
        lemma_no_named_file(objects, front, name);
    }
}

proof fn lemma_no_named_file(objects: Objects, entries: Seq<EntryView>, name: Seq<char>)
    requires
        forall|k: int| 0 <= k < entries.len() ==> (#[trigger] entries[k]).name != name,
    ensures
        named_file(objects, entries, name) is None,
    decreases entries.len(),
{
    if entries.len() > 0 {
        let front = entries.drop_last();
        assert forall|j: int| 0 <= j < front.len() implies (#[trigger] front[j]).name != name by {
            assert(entries[j] == front[j]);
        }
        lemma_no_named_file(objects, front, name);
        assert(entries[entries.len() - 1].name != name);
    }
}

/// A working copy follows the rules of a tree: it ignores what the `.gitignore` at
/// its root ignores and redirects what its `.kiki-redirections` names, and without
/// such a file nothing.
pub open spec fn follows_rules_of(v: KikiView, objects: Objects, tree: Id) -> bool {
    &&& forall|rules: Seq<u8>|
        #![trigger root_holds(objects, tree, ".gitignore"@, rules)]
        root_holds(objects, tree, ".gitignore"@, rules) ==> v.rules == Some(rules)
    &&& root_lacks(objects, tree, ".gitignore"@) ==> v.rules is None
    &&& forall|text: Seq<u8>, name: Seq<char>|
        #![trigger root_holds(objects, tree, ".kiki-redirections"@, text),
            v.is_redirection(ROOT_INODE, name)]
        root_holds(objects, tree, ".kiki-redirections"@, text) ==> (v.is_redirection(
            ROOT_INODE,
            name,
        ) <==> paths_from(lossy_text(text), 0).contains(name))
    &&& root_lacks(objects, tree, ".kiki-redirections"@) ==> forall|name: Seq<char>|
        !#[trigger] v.is_redirection(ROOT_INODE, name)
    &&& forall|parent: InodeId, name: Seq<char>|
        parent != ROOT_INODE ==> !#[trigger] v.is_redirection(parent, name)
}

proof fn lemma_rules_loaded(v: KikiView, objects: Objects, tree: Id)
    requires
        v.rules == crate::vfs::kiki_fs::root_file(objects, tree, ".gitignore"@),
        v.redirections == crate::vfs::kiki_fs::tree_redirections(objects, tree),
    ensures
        follows_rules_of(v, objects, tree),
{
    assert forall|name: Seq<char>, content: Seq<u8>| #[trigger]
        root_holds(objects, tree, name, content) implies crate::vfs::kiki_fs::root_file(
        objects,
        tree,
        name,
    ) == Some(content) by {
        let entries = tree_at(objects, tree)->Ok_0->0;
        let k = choose|k: int|
            {
                &&& 0 <= k < entries.len()
                &&& (#[trigger] entries[k]).name == name
                &&& entries[k].kind is File
                &&& objects.contains_key(entries[k].id)
                &&& objects[entries[k].id].kind is Blob
                &&& objects[entries[k].id].data == content
            };
        lemma_named_file(objects, entries, name, k, content);
    }
    assert forall|name: Seq<char>| #[trigger]
        root_lacks(objects, tree, name) implies crate::vfs::kiki_fs::root_file(
        objects,
        tree,
        name,
    ) is None by {
        lemma_no_named_file(objects, tree_at(objects, tree)->Ok_0->0, name);
    }
}

/// A working copy that is made of a tree follows its rules.
pub proof fn fresh_follows_the_rules(
    objects: Objects,
    tree: Id,
    gitdir: Seq<char>,
    scratch_dir: Option<Seq<char>>,
    mtime: i64,
)
    ensures
        follows_rules_of(
            KikiView::fresh(objects, tree, gitdir, scratch_dir, mtime),
            objects,
            tree,
        ),
{
    lemma_rules_loaded(
        KikiView::fresh(objects, tree, gitdir, scratch_dir, mtime),
        objects,
        tree,
    );
}

/// After a check-out the working copy follows the rules of the new tree, whatever
/// it followed before: it ignores and redirects what a working copy made anew of
/// that tree does. The time of the commit is shown from then on, if it is known.
pub proof fn check_out_follows_the_rules(
    v: KikiView,
    objects: Objects,
    tree: Id,
    mtime: i64,
    gitdir: Seq<char>,
    scratch_dir: Option<Seq<char>>,
    made: i64,
    name: Seq<char>,
    is_dir: bool,
    path: Seq<Seq<char>>,
    parent: InodeId,
)
    requires
        v.wf(),
        v.check_out(objects, tree, mtime).1 is Ok,
    ensures
        ({
            let after = v.check_out(objects, tree, mtime).0;
            let fresh = KikiView::fresh(objects, tree, gitdir, scratch_dir, made);
            &&& follows_rules_of(after, objects, tree)
            &&& after.is_ignored(ROOT_INODE, name, is_dir) == fresh.is_ignored(
                ROOT_INODE,
                name,
                is_dir,
            )
            &&& after.is_redirection(parent, name) == fresh.is_redirection(parent, name)
            &&& after.wf() && follow(after.slab, ROOT_INODE, path) == Some(parent)
                && !after.slab.at(parent).ignored && all_proper(path.push(name)) ==> (
            after.is_ignored(parent, name, is_dir) <==> ignored_by(
                fresh.rules,
                path.push(name),
                is_dir,
            ))
            &&& after.scratch_dir == v.scratch_dir
            &&& mtime != 0 ==> after.commit_mtime == mtime
            &&& mtime == 0 ==> after.commit_mtime == v.commit_mtime
        }),
{
    let after = v.check_out(objects, tree, mtime).0;
    lemma_rules_loaded(after, objects, tree);
    if after.wf() && follow(after.slab, ROOT_INODE, path) == Some(parent) && all_proper(
        path.push(name),
    ) {
        entries_are_ignored_by_their_path(after, path, parent, name, is_dir);
    }
}

/// A write to a `.gitignore` puts its new content in force, and a write to a
/// `.kiki-redirections` what it names; a write to any other file leaves the rules
/// as they are.
pub proof fn written_rules_are_in_force(
    v: KikiView,
    objects: Objects,
    ino: InodeId,
    offset: u64,
    data: Seq<u8>,
    name: Seq<char>,
)
    requires
        v.write(objects, ino, offset, data).1 is Ok,
        v.slab.has(ino),
    ensures
        ({
            let after = v.write(objects, ino, offset, data).0;
            let own = v.slab.at(ino).name;
            let bytes = bytes_of(after.slab, objects, ino)->0;
            &&& bytes_of(after.slab, objects, ino) is Some
            &&& own == ".gitignore"@ ==> after.rules == Some(bytes)
            &&& own != ".gitignore"@ ==> after.rules == v.rules
            &&& own == ".kiki-redirections"@ ==> (after.is_redirection(ROOT_INODE, name)
                <==> paths_from(lossy_text(bytes), 0).contains(name))
            &&& own != ".kiki-redirections"@ ==> after.redirections == v.redirections
        }),
{
    reveal_strlit(".gitignore");
    reveal_strlit(".kiki-redirections");
    assert(".gitignore"@.len() != ".kiki-redirections"@.len());
    let (after, r) = v.write(objects, ino, offset, data);
    let first = file_opened(v.slab, objects, ino).0;
    let w = v.with_slab(first);
    lemma_dirtied_places(w, objects, first.at(ino).parent, ino);
    lemma_dirty_stays(w, objects, first.at(ino).parent, ino);
    let s = v.file_dirtied(objects, ino).0.slab;
    assert(first.at(ino).name == v.slab.at(ino).name);
    assert(s.at(ino).name == v.slab.at(ino).name);
    assert(after.slab.at(ino).name == v.slab.at(ino).name);
    assert(after.slab.node(ino) is DirtyFile);
    assert(bytes_of(after.slab, objects, ino) == Some(after.slab.node(ino)->DirtyFile_content));
}

/// The `.git` file of a new working copy is found at the root and points at the
/// git directory.
pub proof fn git_file_points_at_the_repository(
    objects: Objects,
    tree: Id,
    gitdir: Seq<char>,
    scratch_dir: Option<Seq<char>>,
    mtime: i64,
)
    ensures
        ({
            let v = KikiView::fresh(objects, tree, gitdir, scratch_dir, mtime);
            v.lookup(objects, ROOT_INODE, ".git"@).1 matches Ok(ino) && bytes_of(
                v.slab,
                objects,
                ino,
            ) == Some(encode_utf8("gitdir: "@ + gitdir + "\n"@))
        }),
{
}

/// A directory of a name that is redirected is made as a symlink into the scratch
/// directory, under the same name; it is ignored. Any other new directory is an
/// empty directory.
pub proof fn redirected_directories_are_links(
    v: KikiView,
    objects: Objects,
    parent: InodeId,
    name: Seq<char>,
    fault: Option<Seq<char>>,
)
    requires
        v.wf(),
        name != ".jj"@,
        v.mkdir(objects, parent, name, fault).1 is Ok,
        v.mkdir(objects, parent, name, fault).0.slab.inodes.len() <= u64::MAX,
    ensures
        ({
            let (after, r) = v.mkdir(objects, parent, name, fault);
            let child = (r->Ok_0).0;
            &&& after.slab.attached(parent, name, child)
            &&& match v.scratch_dir {
                Some(scratch) if v.is_redirection(parent, name) => {
                    &&& fault is None
                    &&& after.slab.at(child).ignored
                    &&& readlink_result(after.slab, objects, child) == Ok::<Seq<char>, ErrView>(
                        crate::text::joined(scratch, name),
                    )
                },
                _ => after.slab.node(child) == NodeView::DirtyTree(
                    Map::<Seq<char>, InodeId>::empty(),
                ),
            }
        }),
{
    let room = v.make_room(objects, parent, name).0;
    let (after, r) = v.mkdir(objects, parent, name, fault);
    let child = (r->Ok_0).0;
    lemma_dirtied_len(v, objects, parent);
    assert(room.slab.next_id() == child);
    assert(after.slab.inodes.len() == room.slab.inodes.len() + 1);
}

/// The scratch directory that has to be made before a directory is told exactly for a
/// name at the root that is redirected and free, and is the one that the directory then
/// links to.
pub proof fn redirect_target_is_what_is_linked(
    v: KikiView,
    objects: Objects,
    parent: InodeId,
    name: Seq<char>,
)
    ensures
        v.redirect_target(objects, parent, name) is Some <==> {
            &&& parent == ROOT_INODE
            &&& v.redirections.contains(name)
            &&& v.scratch_dir is Some
            &&& name != ".jj"@
            &&& v.child_exists(objects, parent, name) == Ok::<bool, ErrView>(false)
        },
        v.redirect_target(objects, parent, name) matches Some(target) ==> target == crate::text::joined(
            v.scratch_dir->Some_0,
            name,
        ),
        v.redirect_target(objects, parent, name) is None && name != ".jj"@ && v.mkdir(
            objects,
            parent,
            name,
            None,
        ).1 is Ok ==> v.mkdir(objects, parent, name, None) == v.add_entry(
            objects,
            parent,
            name,
            NodeView::DirtyTree(Map::empty()),
        ),
        v.is_redirection(parent, name) <==> parent == ROOT_INODE && v.redirections.contains(name),
{
}

/// The `.git` file and the pinned `.jj` directory are found under their names at the
/// root, whatever the tree holds, and their names are taken.
pub proof fn kept_names_are_found(v: KikiView, objects: Objects)
    ensures
        v.lookup(objects, ROOT_INODE, ".git"@) == (v, Ok::<InodeId, ErrView>(v.git_file)),
        v.child_exists(objects, ROOT_INODE, ".git"@) == Ok::<bool, ErrView>(true),
        v.jj_subtree matches Some(jj) ==> v.lookup(objects, ROOT_INODE, ".jj"@) == (
            v,
            Ok::<InodeId, ErrView>(jj),
        ) && v.child_exists(objects, ROOT_INODE, ".jj"@) == Ok::<bool, ErrView>(true),
{
    reveal_strlit(".jj");
    reveal_strlit(".git");
    assert(".jj"@.len() != ".git"@.len());
}

/// No request makes the working copy forget its `.git` file, its scratch directory or
/// its pinned directory, but for the removal of the latter.
pub proof fn kept_names_stay(
    v: KikiView,
    objects: Objects,
    ino: InodeId,
    name: Seq<char>,
    new_parent: InodeId,
    new_name: Seq<char>,
    node: NodeView,
    fault: Option<Seq<char>>,
    offset: u64,
    data: Seq<u8>,
    size: Option<u64>,
    bit: Option<bool>,
    tree: Id,
    mtime: i64,
)
    ensures
        keeps_its_own(v, v.lookup(objects, ino, name).0),
        keeps_its_own(v, v.readdir(objects, ino).0),
        keeps_its_own(v, v.write(objects, ino, offset, data).0),
        keeps_its_own(v, v.setattr(objects, ino, size, bit).0),
        keeps_its_own(v, v.add_entry(objects, ino, name, node).0),
        keeps_its_own(v, v.mkdir(objects, ino, name, fault).0),
        keeps_its_own(v, v.rename(objects, ino, name, new_parent, new_name).0),
        keeps_its_own(v, v.check_out(objects, tree, mtime).0),
        ino != ROOT_INODE || name != ".jj"@ ==> keeps_its_own(v, v.remove(objects, ino, name).0),
{
}

/// The working copy has what it keeps for itself.
pub open spec fn keeps_its_own(before: KikiView, after: KikiView) -> bool {
    &&& after.git_file == before.git_file
    &&& after.scratch_dir == before.scratch_dir
    &&& before.jj_subtree is Some ==> after.jj_subtree == before.jj_subtree
}

} // verus!
