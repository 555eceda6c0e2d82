//! What requests do to the tree that a working copy shows.
//!
//! A working copy stands for a tree of files, directories and symlinks: at each
//! path there is what [`seen`] says. Opening directories and files for changes
//! leaves that tree alone, and each changing request changes it at one place.
use vstd::prelude::*;
use crate::git_store::{
    key_order, key_order_contains, lemma_names_fit_ordered, order_key, parse_encoded_tree,
    read_order, tree_at, tree_order, with_entry, with_entry_contains, EntryView, Objects,
    StoreFault, EMPTY_TREE,
};
use crate::ty::Id;
use crate::vfs::inode::{InodeId, InodeView, NodeView, SlabView, ROOT_INODE};
use crate::vfs::kiki_fs::{lies_under, opened_above, outside_tree, reached, snapshotted, KikiView};
use crate::vfs::laws::{
    found_at, lemma_entries, lemma_seen_after, lemma_seen_grown, lemma_tree_leads,
    lemma_tree_stored, no_collision, seen, stored, Found,
};
use crate::vfs::name_map::{ascending, in_order, in_order_of_finite};
use crate::vfs::snapshot::{
    cleaned, complete, content_entries, content_id, content_object, deep, grown,
    lemma_complete_below, lemma_deep_more, only_content, skipped, walk,
};
use crate::vfs::tidy::{
    deep_below_nameless, keeps, keeps_opened, keeps_refl, keeps_trans, keeps_with_node, nameless, placed,
    root_nameless, tidy,
};
use crate::vfs::tree_ops::{
    child_result, entry_index, entry_node, file_changed, file_opened, file_written,
    lemma_entry_index, listed, moved, nodes_of, opened, resized, spliced, tree_result,
};
use crate::vfs::types::ErrView;

verus! {

/// The inode that known names lead to from `i` on.
pub open spec fn follow(slab: SlabView, i: InodeId, path: Seq<Seq<char>>) -> Option<InodeId>
    decreases path.len(),
{
    if path.len() == 0 {
        Some(i)
    } else if slab.by_parent.contains_key((i, path[0])) {
        follow(slab, slab.by_parent[(i, path[0])], path.drop_first())
    } else {
        None
    }
}

/// Names lead from the root to the inode.
pub open spec fn in_tree(slab: SlabView, d: InodeId) -> bool {
    exists|path: Seq<Seq<char>>| follow(slab, ROOT_INODE, path) == Some(d)
}

/// What `name` leads to in the clean directory `dir` is what the directory's
/// tree holds under that name: the same clean node or, for the inode `open`, an
/// opened one that shows the same.
pub open spec fn agrees(
    slab: SlabView,
    objects: Objects,
    dir: InodeId,
    name: Seq<char>,
    open: Option<InodeId>,
) -> bool {
    in_tree(slab, dir) && slab.has(dir) && slab.by_parent.contains_key((dir, name)) ==> {
        let c = slab.by_parent[(dir, name)];
        slab.node(dir) matches NodeView::Tree(id) ==> (tree_at(objects, id) matches Ok(
            Some(entries),
        ) && (entry_index(entries, name) matches Some(k) ==> {
            &&& c != dir
            &&& !slab.at(c).ignored
            &&& slab.node(c) == entry_node(entries[k]) || (Some(c) == open && slab.node(
                c,
            ).is_dirty() && forall|path: Seq<Seq<char>>| #[trigger]
                seen(slab, objects, outside_tree(), c, path) == stored(
                    objects,
                    entry_node(entries[k]),
                    path,
                ))
        }))
    }
}

/// No edit hides below a clean directory of the tree, but for the inode `open`.
pub open spec fn coherent(slab: SlabView, objects: Objects, open: Option<InodeId>) -> bool {
    forall|dir: InodeId, name: Seq<char>| #[trigger] agrees(slab, objects, dir, name, open)
}

/// The names of a tree are distinct.
pub open spec fn distinct(entries: Seq<EntryView>) -> bool {
    forall|a: int, b: int|
        0 <= a < entries.len() && 0 <= b < entries.len() && (#[trigger] entries[a]).name == (
        #[trigger] entries[b]).name ==> a == b
}

/// The names of every tree in a store are distinct.
pub open spec fn distinct_trees(objects: Objects) -> bool {
    forall|id: Id|
        (#[trigger] tree_at(objects, id)) matches Ok(Some(entries)) ==> distinct(entries)
}

/// The tree of a clean root can be read and holds none of the names that lie
/// outside it.
pub open spec fn plain_root(slab: SlabView, objects: Objects) -> bool {
    slab.node(ROOT_INODE) matches NodeView::Tree(id) ==> (tree_at(objects, id) matches Ok(
        Some(entries),
    ) && forall|name: Seq<char>|
        outside_tree().contains(name) ==> (#[trigger] entry_index(entries, name)) is None)
}

/// Names are known below inodes that exist, and every inode has a parent that
/// exists.
pub open spec fn grounded(slab: SlabView) -> bool {
    &&& forall|k: (InodeId, Seq<char>)| #[trigger]
        slab.by_parent.contains_key(k) ==> slab.has(k.0)
    &&& forall|i: InodeId| slab.has(i) ==> slab.has((#[trigger] slab.at(i)).parent)
}

/// Everything that the tree of a working copy rests on.
pub open spec fn sound(slab: SlabView, objects: Objects, open: Option<InodeId>) -> bool {
    &&& tidy(slab)
    &&& placed(slab)
    &&& grounded(slab)
    &&& coherent(slab, objects, open)
    &&& plain_root(slab, objects)
    &&& distinct_trees(objects)
}

/// At every path below every inode of the tree there is the same as before.
pub open spec fn same_tree(before: SlabView, after: SlabView, objects: Objects) -> bool {
    forall|i: InodeId, path: Seq<Seq<char>>|
        in_tree(before, i) ==> #[trigger] seen(after, objects, outside_tree(), i, path) == seen(
            before,
            objects,
            outside_tree(),
            i,
            path,
        )
}

/// Inodes keep their place, names keep leading to their inodes, and modified
/// nodes stay as they are.
pub open spec fn extends(before: SlabView, after: SlabView) -> bool {
    &&& before.inodes.len() <= after.inodes.len()
    &&& forall|i: InodeId|
        before.has(i) ==> (#[trigger] after.at(i)).parent == before.at(i).parent && after.at(i).name
            == before.at(i).name && after.at(i).ignored == before.at(i).ignored && (before.node(
            i,
        ).is_dirty() ==> after.node(i) == before.node(i))
    &&& forall|k: (InodeId, Seq<char>)| #[trigger]
        before.by_parent.contains_key(k) ==> after.by_parent.contains_key(k) && after.by_parent[k]
            == before.by_parent[k]
}

pub proof fn extends_trans(a: SlabView, b: SlabView, c: SlabView)
    requires
        extends(a, b),
        extends(b, c),
    ensures
        extends(a, c),
{
    assert forall|i: InodeId| a.has(i) implies (#[trigger] c.at(i)).parent == a.at(i).parent && c.at(
        i,
    ).name == a.at(i).name && c.at(i).ignored == a.at(i).ignored && (a.node(i).is_dirty()
        ==> c.node(i) == a.node(i)) by {
        assert(b.at(i).parent == a.at(i).parent);
    }
}

proof fn lemma_follow_extends(a: SlabView, b: SlabView, i: InodeId, path: Seq<Seq<char>>)
    requires
        extends(a, b),
        follow(a, i, path) is Some,
    ensures
        follow(b, i, path) == follow(a, i, path),
    decreases path.len(),
{
    if path.len() > 0 {
        lemma_follow_extends(a, b, a.by_parent[(i, path[0])], path.drop_first());
    }
}

proof fn lemma_in_tree_extends(a: SlabView, b: SlabView, d: InodeId)
    requires
        extends(a, b),
        in_tree(a, d),
    ensures
        in_tree(b, d),
{
    let path = choose|path: Seq<Seq<char>>| follow(a, ROOT_INODE, path) == Some(d);
    lemma_follow_extends(a, b, ROOT_INODE, path);
}

pub proof fn same_tree_trans(a: SlabView, b: SlabView, c: SlabView, objects: Objects)
    requires
        same_tree(a, b, objects),
        same_tree(b, c, objects),
        extends(a, b),
    ensures
        same_tree(a, c, objects),
{
    assert forall|i: InodeId, path: Seq<Seq<char>>| in_tree(a, i) implies #[trigger] seen(
        c,
        objects,
        outside_tree(),
        i,
        path,
    ) == seen(a, objects, outside_tree(), i, path) by {
        lemma_in_tree_extends(a, b, i);
        assert(seen(b, objects, outside_tree(), i, path) == seen(
            a,
            objects,
            outside_tree(),
            i,
            path,
        ));
    }
}

pub proof fn lemma_follow_push(slab: SlabView, i: InodeId, path: Seq<Seq<char>>, name: Seq<char>)
    ensures
        follow(slab, i, path.push(name)) == (match follow(slab, i, path) {
            Some(d) => if slab.by_parent.contains_key((d, name)) {
                Some(slab.by_parent[(d, name)])
            } else {
                None
            },
            None => None,
        }),
    decreases path.len(),
{
    let longer = path.push(name);
    reveal_with_fuel(follow, 2);
    if path.len() == 0 {
        assert(longer[0] == name);
        assert(longer.drop_first() =~= seq![]);
    } else {
        assert(longer[0] == path[0]);
        assert(longer.drop_first() =~= path.drop_first().push(name));
        if slab.by_parent.contains_key((i, path[0])) {
            lemma_follow_push(slab, slab.by_parent[(i, path[0])], path.drop_first(), name);
        }
    }
}

/// What a name of the tree leads to is in the tree.
proof fn lemma_child_in_tree(slab: SlabView, d: InodeId, name: Seq<char>)
    requires
        in_tree(slab, d),
        slab.by_parent.contains_key((d, name)),
    ensures
        in_tree(slab, slab.by_parent[(d, name)]),
{
    let path = choose|path: Seq<Seq<char>>| follow(slab, ROOT_INODE, path) == Some(d);
    lemma_follow_push(slab, ROOT_INODE, path, name);
    assert(follow(slab, ROOT_INODE, path.push(name)) == Some(slab.by_parent[(d, name)]));
}

/// The root is in the tree.
pub proof fn lemma_root_in_tree(slab: SlabView)
    ensures
        in_tree(slab, ROOT_INODE),
{
    assert(follow(slab, ROOT_INODE, seq![]) == Some(ROOT_INODE));
}

/// An inode of the tree is the root, or a name in a directory of the tree leads
/// to it.
proof fn lemma_tree_parent(slab: SlabView, d: InodeId) -> (key: (InodeId, Seq<char>))
    requires
        in_tree(slab, d),
        d != ROOT_INODE,
    ensures
        slab.by_parent.contains_key(key),
        slab.by_parent[key] == d,
        in_tree(slab, key.0),
{
    let path = choose|path: Seq<Seq<char>>| follow(slab, ROOT_INODE, path) == Some(d);
    assert(path.len() > 0);
    let front = path.drop_last();
    assert(front.push(path.last()) =~= path);
    lemma_follow_push(slab, ROOT_INODE, front, path.last());
    let p = follow(slab, ROOT_INODE, front)->0;
    assert(follow(slab, ROOT_INODE, front) == Some(p));
    (p, path.last())
}

proof fn lemma_tree_has(slab: SlabView, d: InodeId)
    requires
        tidy(slab),
        in_tree(slab, d),
    ensures
        slab.has(d),
{
    if d != ROOT_INODE {
        let key = lemma_tree_parent(slab, d);
        assert(slab.by_parent.contains_key(key));
    }
}

// ---- opening a directory -----------------------------------------------------

/// What bringing in the entries of a tree does, if every known clean inode
/// among them holds its entry already.
proof fn lemma_loaded(slab: SlabView, dir: InodeId, entries: Seq<(Seq<char>, NodeView)>)
    requires
        tidy(slab),
        slab.has(dir),
        slab.loaded(dir, entries).inodes.len() <= u64::MAX,
        forall|a: int, b: int|
            0 <= a < entries.len() && 0 <= b < entries.len() && (#[trigger] entries[a]).0 == (
            #[trigger] entries[b]).0 ==> a == b,
        forall|k: int| #![trigger entries[k]]
            0 <= k < entries.len() ==> !entries[k].1.is_dirty(),
    ensures
        ({
            let after = slab.loaded(dir, entries);
            let children = slab.loaded_children(dir, entries);
            &&& slab.inodes.len() <= after.inodes.len()
            &&& forall|i: InodeId|
                slab.has(i) ==> #[trigger] after.at(i) == slab.at(i) || exists|k: int|
                    0 <= k < entries.len() && slab.by_parent.contains_key(
                        (dir, (#[trigger] entries[k]).0),
                    ) && slab.by_parent[(dir, entries[k].0)] == i && !slab.node(i).is_dirty()
                        && after.at(i) == (InodeView { node: entries[k].1, ..slab.at(i) })
            &&& forall|k: (InodeId, Seq<char>)| #[trigger]
                after.by_parent.contains_key(k) ==> (slab.by_parent.contains_key(k)
                    && after.by_parent[k] == slab.by_parent[k]) || (k.0 == dir && !slab.has(
                    after.by_parent[k],
                ))
            &&& forall|k: (InodeId, Seq<char>)| #[trigger]
                slab.by_parent.contains_key(k) ==> after.by_parent.contains_key(k)
                    && after.by_parent[k] == slab.by_parent[k]
            &&& forall|n: Seq<char>| #[trigger]
                children.contains_key(n) ==> exists|k: int|
                    0 <= k < entries.len() && (#[trigger] entries[k]).0 == n
            &&& forall|k: int| #![trigger entries[k]]
                0 <= k < entries.len() ==> {
                    let n = entries[k].0;
                    let c = children[n];
                    &&& children.contains_key(n)
                    &&& after.by_parent.contains_key((dir, n))
                    &&& after.by_parent[(dir, n)] == c
                    &&& after.has(c)
                    &&& slab.by_parent.contains_key((dir, n)) ==> c == slab.by_parent[(dir, n)]
                    &&& !slab.by_parent.contains_key((dir, n)) ==> !slab.has(c) && after.at(c) == (
                    InodeView { parent: dir, name: n, node: entries[k].1, ignored: false })
                    &&& slab.by_parent.contains_key((dir, n)) && !slab.node(c).is_dirty()
                        ==> after.node(c) == entries[k].1
                }
            &&& forall|j: InodeId|
                after.has(j) && !slab.has(j) ==> (#[trigger] after.at(j)).parent == dir
                    && !after.node(j).is_dirty()
        }),
    decreases entries.len(),
{
    if entries.len() > 0 {
        let front = entries.drop_last();
        assert(front =~= entries.take(entries.len() - 1));
        crate::vfs::tidy::lemma_loaded_len(slab, dir, entries, entries.len() - 1);
        assert forall|k: int| 0 <= k < front.len() implies #[trigger] front[k] == entries[k] by {}
        lemma_loaded(slab, dir, front);
        let mid = slab.loaded(dir, front);
        let ch = slab.loaded_children(dir, front);
        let (name, node) = entries.last();
        assert(entries[entries.len() - 1] == (name, node));
        let after = slab.loaded(dir, entries);
        let children = slab.loaded_children(dir, entries);
        assert(!ch.contains_key(name)) by {
            if ch.contains_key(name) {
                let k = choose|k: int| 0 <= k < front.len() && (#[trigger] front[k]).0 == name;
                assert(entries[k].0 == entries[entries.len() - 1].0);
            }
        }
        if mid.by_parent.contains_key((dir, name)) {
            let c = mid.by_parent[(dir, name)];
            if !slab.by_parent.contains_key((dir, name)) {
                lemma_loaded_names(slab, dir, front, name);
                let k = choose|k: int| 0 <= k < front.len() && (#[trigger] front[k]).0 == name;
                assert(entries[k].0 == entries[entries.len() - 1].0);
            }
            assert(slab.by_parent.contains_key((dir, name)));
            assert(slab.has(c));
            if mid.at(c) != slab.at(c) {
                let k = choose|k: int|
                    0 <= k < front.len() && slab.by_parent.contains_key(
                        (dir, (#[trigger] front[k]).0),
                    ) && slab.by_parent[(dir, front[k].0)] == c && !slab.node(c).is_dirty()
                        && mid.at(c) == (InodeView { node: front[k].1, ..slab.at(c) });
                assert(slab.by_parent.contains_key((dir, front[k].0)));
                assert((dir, front[k].0) == (dir, name));
                assert(entries[k].0 == entries[entries.len() - 1].0);
            }
            assert(mid.at(c) == slab.at(c));
        } else {
            assert(after.inodes == mid.inodes.push(
                InodeView { parent: dir, name, node, ignored: false },
            ));
            assert(after.inodes.len() <= u64::MAX);
            assert(mid.interned_id(dir, name) == mid.inodes.len() + 1);
        }
        assert(children == ch.insert(name, mid.interned_id(dir, name)));
        assert forall|k: int| #![trigger entries[k]] 0 <= k < entries.len() implies {
            let n = entries[k].0;
            let c = children[n];
            &&& children.contains_key(n)
            &&& after.by_parent.contains_key((dir, n))
            &&& after.by_parent[(dir, n)] == c
            &&& after.has(c)
            &&& slab.by_parent.contains_key((dir, n)) ==> c == slab.by_parent[(dir, n)]
            &&& !slab.by_parent.contains_key((dir, n)) ==> !slab.has(c) && after.at(c) == (
            InodeView { parent: dir, name: n, node: entries[k].1, ignored: false })
            &&& slab.by_parent.contains_key((dir, n)) && !slab.node(c).is_dirty() ==> after.node(c)
                == entries[k].1
        } by {
            if k < front.len() {
                assert(front[k] == entries[k]);
                assert(entries[k].0 != name) by {
                    if entries[k].0 == name {
                        assert(entries[k].0 == entries[entries.len() - 1].0);
                    }
                }
                let n = entries[k].0;
                let c = ch[n];
                assert(mid.has(c));
                if mid.by_parent.contains_key((dir, name)) {
                    let d = mid.by_parent[(dir, name)];
                    if d == c {
                        assert(slab.by_parent.contains_key((dir, name)));
                        assert(slab.by_parent.contains_key((dir, n)));
                        assert((dir, name) == (dir, n));
                    }
                }
                assert(after.at(c) == mid.at(c));
            }
        }
        assert forall|n: Seq<char>| #[trigger] children.contains_key(n) implies exists|k: int|
            0 <= k < entries.len() && (#[trigger] entries[k]).0 == n by {
            if n == name {
                assert(entries[entries.len() - 1].0 == n);
            } else {
                assert(ch.contains_key(n));
                let k = choose|k: int| 0 <= k < front.len() && (#[trigger] front[k]).0 == n;
                assert(entries[k].0 == n);
            }
        }
        assert forall|i: InodeId| slab.has(i) implies #[trigger] after.at(i) == slab.at(i) || exists|
            k: int,
        |
            0 <= k < entries.len() && slab.by_parent.contains_key((dir, (#[trigger] entries[k]).0))
                && slab.by_parent[(dir, entries[k].0)] == i && !slab.node(i).is_dirty() && after.at(i)
                == (InodeView { node: entries[k].1, ..slab.at(i) }) by {
            if after.at(i) != slab.at(i) {
                if after.at(i) == mid.at(i) {
                    let k = choose|k: int|
                        0 <= k < front.len() && slab.by_parent.contains_key(
                            (dir, (#[trigger] front[k]).0),
                        ) && slab.by_parent[(dir, front[k].0)] == i && !slab.node(i).is_dirty()
                            && mid.at(i) == (InodeView { node: front[k].1, ..slab.at(i) });
                    assert(entries[k] == front[k]);
                } else {
                    assert(entries[entries.len() - 1] == (name, node));
                }
            }
        }
        assert forall|j: InodeId| after.has(j) && !slab.has(j) implies (#[trigger] after.at(j)).parent
            == dir && !after.node(j).is_dirty() by {
            if mid.has(j) {
                assert(mid.at(j).parent == dir);
                if mid.by_parent.contains_key((dir, name)) && mid.by_parent[(dir, name)] == j {
                    assert(slab.by_parent.contains_key((dir, name)));
                }
            }
        }
    }
}

/// A name that bringing in entries made known is one of theirs.
proof fn lemma_loaded_names(
    slab: SlabView,
    dir: InodeId,
    entries: Seq<(Seq<char>, NodeView)>,
    name: Seq<char>,
)
    requires
        slab.loaded(dir, entries).by_parent.contains_key((dir, name)),
        !slab.by_parent.contains_key((dir, name)),
    ensures
        exists|k: int| 0 <= k < entries.len() && (#[trigger] entries[k]).0 == name,
    decreases entries.len(),
{
    if entries.len() > 0 {
        let front = entries.drop_last();
        if entries.last().0 == name {
            assert(entries[entries.len() - 1].0 == name);
        } else {
            lemma_loaded_names(slab, dir, front, name);
            let k = choose|k: int| 0 <= k < front.len() && (#[trigger] front[k]).0 == name;
            assert(entries[k].0 == name);
        }
    }
}

/// The entry of this name was brought in when its directory was opened: a known
/// name leads to its inode as before, and a new one to a new inode.
spec fn brought(
    slab: SlabView,
    after: SlabView,
    dir: InodeId,
    entries: Seq<EntryView>,
    n: Seq<char>,
) -> bool {
    let c = after.node(dir)->DirtyTree_0[n];
    let e = entry_node(entries[entry_index(entries, n)->0]);
    &&& after.by_parent.contains_key((dir, n))
    &&& after.by_parent[(dir, n)] == c
    &&& slab.by_parent.contains_key((dir, n)) ==> c == slab.by_parent[(dir, n)]
    &&& !slab.by_parent.contains_key((dir, n)) ==> !slab.has(c) && after.node(c) == e && !after.at(
        c,
    ).ignored
    &&& slab.by_parent.contains_key((dir, n)) && !slab.node(c).is_dirty() && c != dir ==> after.node(
        c,
    ) == e
}

/// The facts about an opened directory that the rest needs.
proof fn lemma_opened(slab: SlabView, objects: Objects, dir: InodeId, entries: Seq<EntryView>)
    requires
        tidy(slab),
        placed(slab),
        grounded(slab),
        slab.has(dir),
        slab.node(dir) is Tree,
        tree_result(objects, slab.node(dir)->Tree_0) == Ok::<Seq<EntryView>, ErrView>(entries),
        distinct(entries),
        opened(slab, objects, dir).0.inodes.len() <= u64::MAX,
    ensures
        ({
            let after = opened(slab, objects, dir).0;
            &&& extends(slab, after)
            &&& tidy(after)
            &&& placed(after)
            &&& grounded(after)
            &&& after.node(dir) is DirtyTree
            &&& forall|k: (InodeId, Seq<char>)| #[trigger]
                after.by_parent.contains_key(k) ==> (slab.by_parent.contains_key(k)
                    && after.by_parent[k] == slab.by_parent[k]) || (k.0 == dir && !slab.has(
                    after.by_parent[k],
                ))
            &&& forall|i: InodeId|
                slab.has(i) && i != dir && !slab.node(i).is_dirty() ==> #[trigger] after.node(i)
                    == slab.node(i) || exists|k: int|
                    0 <= k < entries.len() && slab.by_parent.contains_key(
                        (dir, (#[trigger] entries[k]).name),
                    ) && slab.by_parent[(dir, entries[k].name)] == i && after.node(i) == entry_node(
                        entries[k],
                    )
            &&& forall|n: Seq<char>| #[trigger]
                after.node(dir)->DirtyTree_0.contains_key(n) == (entry_index(entries, n) is Some)
            &&& forall|n: Seq<char>| #![trigger entry_index(entries, n)]
                entry_index(entries, n) is Some ==> brought(slab, after, dir, entries, n)
        }),
{
    keeps_opened(slab, objects, dir);
    let after = opened(slab, objects, dir).0;
    let nodes = nodes_of(entries);
    let mid = slab.loaded(dir, nodes);
    let children = slab.loaded_children(dir, nodes);
    assert(after == mid.with_node(dir, NodeView::DirtyTree(children)));
    assert forall|k: int| #![trigger nodes[k]] 0 <= k < nodes.len()
        implies !nodes[k].1.is_dirty() by {
        assert(nodes[k] == (entries[k].name, entry_node(entries[k])));
    }
    assert forall|a: int, b: int|
        0 <= a < nodes.len() && 0 <= b < nodes.len() && (#[trigger] nodes[a]).0 == (
        #[trigger] nodes[b]).0 implies a == b by {
        assert(entries[a].name == entries[b].name);
    }
    lemma_loaded(slab, dir, nodes);
    assert forall|i: InodeId| slab.has(i) implies (#[trigger] after.at(i)).parent == slab.at(i).parent
        && after.at(i).name == slab.at(i).name && after.at(i).ignored == slab.at(i).ignored && (
    slab.node(i).is_dirty() ==> after.node(i) == slab.node(i)) by {
        crate::vfs::inode::lemma_loaded_keeps(slab, dir, nodes, i);
    }
    assert forall|i: InodeId|
        slab.has(i) && i != dir && !slab.node(i).is_dirty() implies #[trigger] after.node(i)
        == slab.node(i) || exists|k: int|
        0 <= k < entries.len() && slab.by_parent.contains_key((dir, (#[trigger] entries[k]).name))
            && slab.by_parent[(dir, entries[k].name)] == i && after.node(i) == entry_node(
            entries[k],
        ) by {
        assert(after.at(i) == mid.at(i));
        if mid.at(i) != slab.at(i) {
            let k = choose|k: int|
                0 <= k < nodes.len() && slab.by_parent.contains_key((dir, (#[trigger] nodes[k]).0))
                    && slab.by_parent[(dir, nodes[k].0)] == i && !slab.node(i).is_dirty() && mid.at(
                    i,
                ) == (InodeView { node: nodes[k].1, ..slab.at(i) });
            assert(nodes[k] == (entries[k].name, entry_node(entries[k])));
        }
    }
    assert forall|n: Seq<char>| #[trigger] children.contains_key(n) == (entry_index(entries, n)
        is Some) by {
        lemma_entry_index(entries, n);
        if children.contains_key(n) {
            let k = choose|k: int| 0 <= k < nodes.len() && (#[trigger] nodes[k]).0 == n;
            assert(entries[k].name == n);
        }
        if let Some(k) = entry_index(entries, n) {
            assert(nodes[k].0 == n);
        }
    }
    assert forall|n: Seq<char>| #![trigger entry_index(entries, n)] entry_index(entries, n)
        is Some implies brought(slab, after, dir, entries, n) by {
        lemma_entry_index(entries, n);
        let k = entry_index(entries, n)->0;
        assert(nodes[k] == (entries[k].name, entry_node(entries[k])));
        assert(children.contains_key(nodes[k].0));
    }
    assert forall|i: InodeId| after.has(i) implies after.has((#[trigger] after.at(i)).parent) by {
        if slab.has(i) {
            assert(after.at(i).parent == slab.at(i).parent);
            assert(slab.has(slab.at(i).parent));
        } else {
            assert(mid.at(i).parent == dir);
            assert(after.at(i).parent == dir);
        }
    }
    assert forall|k: (InodeId, Seq<char>)| #[trigger] after.by_parent.contains_key(k) implies after.has(
        k.0,
    ) by {
        assert(mid.by_parent.contains_key(k));
        if slab.by_parent.contains_key(k) {
            assert(slab.has(k.0));
        }
    }
}

/// An old inode that is in the tree after a directory was opened was there
/// before.
proof fn lemma_opened_in_tree(
    slab: SlabView,
    after: SlabView,
    dir: InodeId,
    i: InodeId,
    path: Seq<Seq<char>>,
)
    requires
        grounded(slab),
        tidy(slab),
        forall|k: (InodeId, Seq<char>)| #[trigger]
            after.by_parent.contains_key(k) ==> (slab.by_parent.contains_key(k)
                && after.by_parent[k] == slab.by_parent[k]) || (k.0 == dir && !slab.has(
                after.by_parent[k],
            )),
        slab.has(dir),
        slab.has(i),
        follow(after, i, path) matches Some(d) && slab.has(d),
    ensures
        follow(slab, i, path) == follow(after, i, path),
    decreases path.len(),
{
    if path.len() > 0 {
        let k = (i, path[0]);
        let c = after.by_parent[k];
        assert(after.by_parent.contains_key(k));
        if slab.by_parent.contains_key(k) && after.by_parent[k] == slab.by_parent[k] {
            assert(slab.has(c));
            lemma_opened_in_tree(slab, after, dir, c, path.drop_first());
        } else {
            // A new inode has no names below it.
            let rest = path.drop_first();
            if rest.len() > 0 {
                assert(after.by_parent.contains_key((c, rest[0])));
                assert(slab.by_parent.contains_key((c, rest[0])));
            }
        }
    }
}

/// Opening a directory for changes leaves the tree alone.
proof fn lemma_opened_seen(
    slab: SlabView,
    objects: Objects,
    dir: InodeId,
    entries: Seq<EntryView>,
    open: Option<InodeId>,
    i: InodeId,
    path: Seq<Seq<char>>,
)
    requires
        sound(slab, objects, open),
        slab.has(dir),
        slab.node(dir) is Tree,
        tree_result(objects, slab.node(dir)->Tree_0) == Ok::<Seq<EntryView>, ErrView>(entries),
        opened(slab, objects, dir).0.inodes.len() <= u64::MAX,
        in_tree(slab, i),
    ensures
        seen(opened(slab, objects, dir).0, objects, outside_tree(), i, path) == seen(
            slab,
            objects,
            outside_tree(),
            i,
            path,
        ),
    decreases path.len(),
{
    let after = opened(slab, objects, dir).0;
    let h = outside_tree();
    let id = slab.node(dir)->Tree_0;
    assert(tree_at(objects, id) == Ok::<Option<Seq<EntryView>>, StoreFault>(Some(entries)));
    assert(distinct(entries));
    lemma_opened(slab, objects, dir, entries);
    lemma_tree_has(slab, i);
    if i == dir {
        if path.len() > 0 {
            let n = path[0];
            let rest = path.drop_first();
            let children = after.node(dir)->DirtyTree_0;
            assert(children.contains_key(n) == (entry_index(entries, n) is Some));
            if let Some(k) = entry_index(entries, n) {
                let c = children[n];
                let e = entry_node(entries[k]);
                if slab.by_parent.contains_key((dir, n)) {
                    assert(agrees(slab, objects, dir, n, open));
                    lemma_child_in_tree(slab, dir, n);
                    lemma_tree_has(slab, c);
                    assert(after.at(c).ignored == slab.at(c).ignored);
                    lemma_opened_seen(slab, objects, dir, entries, open, c, rest);
                    if slab.node(c) == e {
                        assert(seen(slab, objects, h, c, rest) == stored(objects, e, rest));
                    }
                } else {
                    assert(after.node(c) == e);
                    assert(seen(after, objects, h, c, rest) == stored(objects, e, rest));
                }
                assert(!skipped(after, h, dir, n, c));
            }
        }
    } else {
        match slab.node(i) {
            NodeView::DirtyTree(children) => {
                assert(after.at(i).parent == slab.at(i).parent);
                assert(after.node(i) == slab.node(i));
                if path.len() > 0 && children.contains_key(path[0]) {
                    let c = children[path[0]];
                    assert(slab.attached(i, path[0], c));
                    lemma_child_in_tree(slab, i, path[0]);
                    lemma_tree_has(slab, c);
                    assert(after.at(c).ignored == slab.at(c).ignored);
                    if !skipped(slab, h, i, path[0], c) {
                        lemma_opened_seen(slab, objects, dir, entries, open, c, path.drop_first());
                    }
                }
            },
            _ => {
                if slab.node(i).is_dirty() {
                    assert(after.at(i).parent == slab.at(i).parent);
                } else if after.node(i) != slab.node(i) {
                    let k = choose|k: int|
                        0 <= k < entries.len() && slab.by_parent.contains_key(
                            (dir, (#[trigger] entries[k]).name),
                        ) && slab.by_parent[(dir, entries[k].name)] == i && after.node(i)
                            == entry_node(entries[k]);
                    let name = entries[k].name;
                    assert(slab.by_parent.contains_key((dir, name)));
                    let key = lemma_tree_parent(slab, i);
                    assert(slab.by_parent.contains_key(key));
                    assert(key == (dir, name));
                    assert(agrees(slab, objects, dir, name, open));
                    lemma_entry_index(entries, name);
                    let m = entry_index(entries, name)->0;
                    assert(entries[m].name == entries[k].name);
                    assert(seen(slab, objects, h, i, path) == stored(
                        objects,
                        entry_node(entries[k]),
                        path,
                    ));
                }
            },
        }
    }
}

/// Opening a directory for changes leaves the tree alone. A directory of the
/// tree that was opened may now stand open below a clean one.
proof fn opening_keeps_tree(slab: SlabView, objects: Objects, dir: InodeId, open: Option<InodeId>)
    requires
        sound(slab, objects, open),
        open is None || open == Some(dir) || slab.at(open->0).parent == dir || nameless(
            slab,
            open->0,
        ),
        open matches Some(x) ==> slab.has(x),
        opened(slab, objects, dir).0.inodes.len() <= u64::MAX,
        opened(slab, objects, dir).1 is Ok,
    ensures
        sound(opened(slab, objects, dir).0, objects, Some(dir)),
        same_tree(slab, opened(slab, objects, dir).0, objects),
        extends(slab, opened(slab, objects, dir).0),
        opened(slab, objects, dir).0.node(dir) is DirtyTree,
        slab.has(dir),
        keeps(slab, opened(slab, objects, dir).0),
{
    keeps_opened(slab, objects, dir);
    let after = opened(slab, objects, dir).0;
    let h = outside_tree();
    if slab.node(dir) is DirtyTree {
        assert forall|d: InodeId, name: Seq<char>| #[trigger]
            agrees(slab, objects, d, name, Some(dir)) by {
            assert(agrees(slab, objects, d, name, open));
            if slab.by_parent.contains_key((d, name)) && open == Some(
                slab.by_parent[(d, name)],
            ) && open != Some(dir) {
                assert(slab.at(slab.by_parent[(d, name)]).parent == d);
            }
        }
    } else {
        let id = slab.node(dir)->Tree_0;
        let entries = tree_result(objects, id)->Ok_0;
        assert(tree_at(objects, id) == Ok::<Option<Seq<EntryView>>, StoreFault>(Some(entries)));
        assert(distinct(entries));
        lemma_opened(slab, objects, dir, entries);
        assert(same_tree(slab, after, objects)) by {
            assert forall|i: InodeId, path: Seq<Seq<char>>| in_tree(slab, i) implies #[trigger] seen(
                after,
                objects,
                h,
                i,
                path,
            ) == seen(slab, objects, h, i, path) by {
                lemma_opened_seen(slab, objects, dir, entries, open, i, path);
            }
        }
        assert forall|d: InodeId, name: Seq<char>| #[trigger]
            agrees(after, objects, d, name, Some(dir)) by {
            if in_tree(after, d) && after.has(d) && after.by_parent.contains_key((d, name)) && after.node(
                d,
            ) is Tree {
                assert(d != dir);
                let c = after.by_parent[(d, name)];
                assert(slab.by_parent.contains_key((d, name)));
                assert(slab.has(d));
                let path = choose|path: Seq<Seq<char>>| follow(after, ROOT_INODE, path) == Some(d);
                lemma_opened_in_tree(slab, after, dir, ROOT_INODE, path);
                assert(in_tree(slab, d));
                assert(agrees(slab, objects, d, name, open));
                lemma_child_in_tree(slab, d, name);
                lemma_tree_has(slab, c);
                assert(after.at(c).ignored == slab.at(c).ignored);
                assert(after.at(d).parent == slab.at(d).parent);
                assert(after.node(d) == slab.node(d)) by {
                    if after.node(d) != slab.node(d) {
                        let k = choose|k: int|
                            0 <= k < entries.len() && slab.by_parent.contains_key(
                                (dir, (#[trigger] entries[k]).name),
                            ) && slab.by_parent[(dir, entries[k].name)] == d && after.node(d)
                                == entry_node(entries[k]);
                        let nm = entries[k].name;
                        assert(slab.by_parent.contains_key((dir, nm)));
                        let key = lemma_tree_parent(slab, d);
                        assert(slab.by_parent.contains_key(key));
                        assert(key == (dir, nm));
                        assert(agrees(slab, objects, dir, nm, open));
                        lemma_entry_index(entries, nm);
                        let m = entry_index(entries, nm)->0;
                        assert(entries[m].name == entries[k].name);
                        if slab.node(d) != entry_node(entries[k]) {
                            // An opened directory is no clean one.
                            assert(slab.node(d).is_dirty());
                        }
                    }
                }
            }
        }
        assert(plain_root(after, objects)) by {
            if dir != ROOT_INODE {
                assert(after.at(ROOT_INODE).parent == slab.at(ROOT_INODE).parent);
                if after.node(ROOT_INODE) != slab.node(ROOT_INODE) && !slab.node(
                    ROOT_INODE,
                ).is_dirty() {
                    let k = choose|k: int|
                        0 <= k < entries.len() && slab.by_parent.contains_key(
                            (dir, (#[trigger] entries[k]).name),
                        ) && slab.by_parent[(dir, entries[k].name)] == ROOT_INODE && after.node(
                            ROOT_INODE,
                        ) == entry_node(entries[k]);
                    assert(slab.by_parent.contains_key((dir, entries[k].name)));
                }
            }
        }
    }
}

/// Once everything above it stands open, an opened directory hides no edit.
proof fn lemma_opened_above(
    first: SlabView,
    slab: SlabView,
    objects: Objects,
    current: InodeId,
    steps: nat,
    visited: Seq<InodeId>,
)
    requires
        sound(slab, objects, Some(current)),
        slab.has(current),
        slab.node(current) is DirtyTree,
        opened_above(slab, objects, current, steps).1 is Ok,
        opened_above(slab, objects, current, steps).0.inodes.len() <= u64::MAX,
        grounded(first),
        extends(first, slab),
        visited.no_duplicates(),
        visited.len() > 0,
        visited.last() == current,
        visited.len() + steps == first.inodes.len() + 1,
        forall|k: int| 0 <= k < visited.len() ==> first.has(#[trigger] visited[k]),
        forall|k: int| 0 <= k < visited.len() ==> slab.node(#[trigger] visited[k]) is DirtyTree,
    ensures
        sound(opened_above(slab, objects, current, steps).0, objects, None),
        same_tree(slab, opened_above(slab, objects, current, steps).0, objects),
        extends(slab, opened_above(slab, objects, current, steps).0),
        keeps(slab, opened_above(slab, objects, current, steps).0),
    decreases steps,
{
    keeps_refl(slab);
    if steps == 0 {
        crate::vfs::tidy::lemma_path_short(first, visited);
        assert(false);
    }
    let parent = slab.at(current).parent;
    assert(first.has(visited[visited.len() - 1]));
    assert(first.has(first.at(current).parent));
    assert(slab.at(current).parent == first.at(current).parent);
    if parent == current || slab.node(parent) is DirtyTree {
        assert forall|d: InodeId, name: Seq<char>| #[trigger]
            agrees(slab, objects, d, name, None) by {
            assert(agrees(slab, objects, d, name, Some(current)));
            if slab.by_parent.contains_key((d, name)) && slab.by_parent[(d, name)] == current {
                assert(slab.at(current).parent == d);
            }
        }
    } else {
        let up = opened(slab, objects, parent).0;
        lemma_above_len(up, objects, parent, (steps - 1) as nat);
        opening_keeps_tree(slab, objects, parent, Some(current));
        let longer = visited.push(parent);
        assert forall|k: int| 0 <= k < longer.len() implies first.has(#[trigger] longer[k]) by {
            if k < visited.len() {
                assert(first.has(visited[k]));
            }
        }
        assert forall|k: int| 0 <= k < longer.len() implies up.node(#[trigger] longer[k])
            is DirtyTree by {
            if k < visited.len() {
                assert(slab.node(visited[k]) is DirtyTree);
                assert(first.has(visited[k]));
                assert(up.at(visited[k]).parent == slab.at(visited[k]).parent);
            }
        }
        assert(!visited.contains(parent)) by {
            if visited.contains(parent) {
                let k = choose|k: int| 0 <= k < visited.len() && visited[k] == parent;
                assert(slab.node(visited[k]) is DirtyTree);
            }
        }
        extends_trans(first, slab, up);
        lemma_opened_above(first, up, objects, parent, (steps - 1) as nat, longer);
        let after = opened_above(slab, objects, current, steps).0;
        extends_trans(slab, up, after);
        keeps_trans(slab, up, after);
        same_tree_trans(slab, up, after, objects);
    }
}

/// Opening further directories drops no inode.
pub proof fn lemma_above_len(slab: SlabView, objects: Objects, current: InodeId, steps: nat)
    ensures
        slab.inodes.len() <= opened_above(slab, objects, current, steps).0.inodes.len(),
    decreases steps,
{
    if steps > 0 && slab.has(current) {
        let parent = slab.at(current).parent;
        if parent != current && slab.has(parent) && !(slab.node(parent) is DirtyTree) {
            lemma_opened_len(slab, objects, parent);
            lemma_above_len(opened(slab, objects, parent).0, objects, parent, (steps - 1) as nat);
        }
    }
}

/// Opening a directory takes no inode away.
pub proof fn lemma_opened_len(slab: SlabView, objects: Objects, dir: InodeId)
    ensures
        slab.inodes.len() <= opened(slab, objects, dir).0.inodes.len(),
{
    if slab.has(dir) {
        if let NodeView::Tree(id) = slab.node(dir) {
            if let Ok(entries) = tree_result(objects, id) {
                crate::vfs::inode::lemma_loaded_keeps(slab, dir, nodes_of(entries), dir);
            }
        }
    }
}

/// An inode of the tree does not lie below one that no name leads to.
proof fn lemma_not_under(slab: SlabView, x: InodeId, jj: InodeId, steps: nat)
    requires
        tidy(slab),
        placed(slab),
        in_tree(slab, x),
        nameless(slab, jj),
        jj != ROOT_INODE,
    ensures
        lies_under(slab, x, jj, steps) != Ok::<bool, ErrView>(true),
    decreases steps,
{
    if x == ROOT_INODE {
    } else {
        let key = lemma_tree_parent(slab, x);
        assert(slab.by_parent.contains_key(key));
        assert(slab.at(x).parent == key.0);
        if slab.has(x) && slab.at(x).parent != x && steps > 0 {
            lemma_not_under(slab, key.0, jj, (steps - 1) as nat);
        }
    }
}

/// Opening a directory and everything above it leaves the tree alone, and no
/// edit hides below a clean directory afterwards.
pub proof fn lemma_dirtied(v: KikiView, objects: Objects, dir: InodeId, open: Option<InodeId>)
    requires
        v.wf(),
        sound(v.slab, objects, open),
        open is None || v.slab.at(open->0).parent == dir || nameless(v.slab, open->0),
        open matches Some(x) ==> v.slab.has(x),
        v.dirtied(objects, dir).1 is Ok,
        v.dirtied(objects, dir).0.inodes.len() <= u64::MAX,
    ensures
        sound(v.dirtied(objects, dir).0, objects, None),
        same_tree(v.slab, v.dirtied(objects, dir).0, objects),
        extends(v.slab, v.dirtied(objects, dir).0),
        v.slab.has(dir),
        v.dirtied(objects, dir).0.node(dir) is DirtyTree,
        keeps(v.slab, v.dirtied(objects, dir).0),
{
    let slab = v.slab;
    let inside = match v.jj_subtree {
        Some(jj) => lies_under(slab, dir, jj, slab.inodes.len()),
        None => Ok(false),
    };
    let mid = opened(slab, objects, dir).0;
    let after = v.dirtied(objects, dir).0;
    if inside != Ok::<bool, ErrView>(true) {
        lemma_above_len(mid, objects, dir, mid.inodes.len());
    }
    opening_keeps_tree(slab, objects, dir, open);
    if inside == Ok::<bool, ErrView>(true) {
        let jj = v.jj_subtree->0;
        assert forall|d: InodeId, name: Seq<char>| #[trigger] agrees(mid, objects, d, name, None) by {
            assert(agrees(mid, objects, d, name, Some(dir)));
            if in_tree(mid, d) && mid.by_parent.contains_key((d, name)) && mid.by_parent[(d, name)]
                == dir {
                lemma_child_in_tree(mid, d, name);
                if slab.node(dir) is Tree {
                    let entries = tree_result(objects, slab.node(dir)->Tree_0)->Ok_0;
                    assert(tree_at(objects, slab.node(dir)->Tree_0) == Ok::<
                        Option<Seq<EntryView>>,
                        StoreFault,
                    >(Some(entries)));
                    assert(distinct(entries));
                    lemma_opened(slab, objects, dir, entries);
                    let path = choose|path: Seq<Seq<char>>|
                        follow(mid, ROOT_INODE, path) == Some(dir);
                    lemma_opened_in_tree(slab, mid, dir, ROOT_INODE, path);
                }
                assert(in_tree(slab, dir));
                lemma_not_under(slab, dir, jj, slab.inodes.len());
            }
        }
    } else {
        let visited = seq![dir];
        assert(visited[0] == dir);
        keep_extends(mid);
        lemma_opened_above(mid, mid, objects, dir, mid.inodes.len(), visited);
        extends_trans(slab, mid, after);
        keeps_trans(slab, mid, after);
        same_tree_trans(slab, mid, after, objects);
        assert(after.at(dir).parent == mid.at(dir).parent);
    }
}

proof fn keep_extends(slab: SlabView)
    ensures
        extends(slab, slab),
{
}

// ---- opening a file ------------------------------------------------------------

/// Opening a file leaves the tree alone.
proof fn lemma_refile_seen(
    slab: SlabView,
    objects: Objects,
    ino: InodeId,
    i: InodeId,
    path: Seq<Seq<char>>,
)
    requires
        tidy(slab),
        slab.has(i),
        file_opened(slab, objects, ino).1 is Ok,
    ensures
        seen(file_opened(slab, objects, ino).0, objects, outside_tree(), i, path) == seen(
            slab,
            objects,
            outside_tree(),
            i,
            path,
        ),
    decreases path.len(),
{
    let after = file_opened(slab, objects, ino).0;
    if i == ino {
        if let NodeView::File { id, executable } = slab.node(ino) {
            assert(after.node(ino) is DirtyFile);
        }
    } else if after != slab {
        assert(after.at(i) == slab.at(i));
        if let NodeView::DirtyTree(children) = slab.node(i) {
            if path.len() > 0 && children.contains_key(path[0]) {
                let c = children[path[0]];
                assert(slab.attached(i, path[0], c));
                assert(slab.by_parent.contains_key((i, path[0])));
                assert(after.at(c).ignored == slab.at(c).ignored);
                lemma_refile_seen(slab, objects, ino, c, path.drop_first());
            }
        }
    }
}

proof fn lemma_file_opened(slab: SlabView, objects: Objects, ino: InodeId)
    requires
        sound(slab, objects, None),
        file_opened(slab, objects, ino).1 is Ok,
    ensures
        sound(file_opened(slab, objects, ino).0, objects, Some(ino)),
        same_tree(slab, file_opened(slab, objects, ino).0, objects),
        slab.has(ino),
        file_opened(slab, objects, ino).0.node(ino) is DirtyFile,
        file_opened(slab, objects, ino).0.by_parent == slab.by_parent,
        file_opened(slab, objects, ino).0.inodes.len() == slab.inodes.len(),
        file_opened(slab, objects, ino).0.at(ino).parent == slab.at(ino).parent,
        file_opened(slab, objects, ino).0.at(ino).name == slab.at(ino).name,
        found_at(objects, file_opened(slab, objects, ino).0.node(ino)) == found_at(
            objects,
            slab.node(ino),
        ),
{
    let after = file_opened(slab, objects, ino).0;
    assert forall|i: InodeId, path: Seq<Seq<char>>| in_tree(slab, i) implies #[trigger] seen(
        after,
        objects,
        outside_tree(),
        i,
        path,
    ) == seen(slab, objects, outside_tree(), i, path) by {
        lemma_tree_has(slab, i);
        lemma_refile_seen(slab, objects, ino, i, path);
    }
    assert forall|d: InodeId| in_tree(after, d) == in_tree(slab, d) by {
        lemma_same_names(slab, after, d);
    }
    assert forall|d: InodeId, name: Seq<char>| #[trigger]
        agrees(after, objects, d, name, Some(ino)) by {
        assert(agrees(slab, objects, d, name, None));
        if slab.has(d) && in_tree(slab, d) && slab.by_parent.contains_key((d, name)) {
            let c = slab.by_parent[(d, name)];
            lemma_child_in_tree(slab, d, name);
            if c != ino {
                assert(after.at(c) == slab.at(c));
            }
            if d != ino {
                assert(after.at(d) == slab.at(d));
            }
            if let NodeView::Tree(id) = slab.node(d) {
                if let Ok(Some(entries)) = tree_at(objects, id) {
                    if let Some(k) = entry_index(entries, name) {
                        if after.node(c) != entry_node(entries[k]) {
                            assert(c == ino);
                            assert forall|path: Seq<Seq<char>>| #[trigger]
                                seen(after, objects, outside_tree(), c, path) == stored(
                                    objects,
                                    entry_node(entries[k]),
                                    path,
                                ) by {
                                lemma_tree_has(slab, c);
                                lemma_refile_seen(slab, objects, ino, c, path);
                            }
                        }
                    }
                }
            }
        }
    }
    if after != slab {
        keeps_with_node(slab, ino, after.node(ino));
        assert forall|i: InodeId| after.has(i)
            implies after.has((#[trigger] after.at(i)).parent) by {
            assert(slab.has(slab.at(i).parent));
        }
    } else {
        assert forall|d: InodeId, name: Seq<char>| #[trigger]
            agrees(slab, objects, d, name, Some(ino)) by {
            assert(agrees(slab, objects, d, name, None));
        }
    }
}

/// The tree is a matter of names.
proof fn lemma_same_names(a: SlabView, b: SlabView, d: InodeId)
    requires
        a.by_parent == b.by_parent,
    ensures
        in_tree(a, d) == in_tree(b, d),
{
    if in_tree(a, d) {
        let path = choose|path: Seq<Seq<char>>| follow(a, ROOT_INODE, path) == Some(d);
        lemma_same_follow(a, b, ROOT_INODE, path);
    }
    if in_tree(b, d) {
        let path = choose|path: Seq<Seq<char>>| follow(b, ROOT_INODE, path) == Some(d);
        lemma_same_follow(a, b, ROOT_INODE, path);
    }
}

proof fn lemma_same_follow(a: SlabView, b: SlabView, i: InodeId, path: Seq<Seq<char>>)
    requires
        a.by_parent == b.by_parent,
    ensures
        follow(a, i, path) == follow(b, i, path),
    decreases path.len(),
{
    if path.len() > 0 && a.by_parent.contains_key((i, path[0])) {
        lemma_same_follow(a, b, a.by_parent[(i, path[0])], path.drop_first());
    }
}

// ---- edits ----------------------------------------------------------------------

/// The path leads from `i` through the entry `name` of the directory `dir`.
pub open spec fn passes(
    slab: SlabView,
    i: InodeId,
    path: Seq<Seq<char>>,
    dir: InodeId,
    name: Seq<char>,
) -> bool
    decreases path.len(),
{
    path.len() > 0 && ((i == dir && path[0] == name) || (slab.node(i) matches NodeView::DirtyTree(
        children,
    ) && children.contains_key(path[0]) && !skipped(
        slab,
        outside_tree(),
        i,
        path[0],
        children[path[0]],
    ) && passes(slab, children[path[0]], path.drop_first(), dir, name)))
}

/// What stands at a path from the root.
pub open spec fn shown(slab: SlabView, objects: Objects, path: Seq<Seq<char>>) -> Found {
    seen(slab, objects, outside_tree(), ROOT_INODE, path)
}

/// Two slabs differ in the entry `name` of the directory `dir` alone, as far as
/// the inodes of the first go.
spec fn differ_in_entry(a: SlabView, b: SlabView, dir: InodeId, name: Seq<char>) -> bool {
    &&& forall|j: InodeId|
        a.has(j) ==> (#[trigger] b.at(j)).ignored == a.at(j).ignored && (j != dir ==> b.node(j)
            == a.node(j))
    &&& a.node(dir) is DirtyTree
    &&& b.node(dir) is DirtyTree
    &&& forall|n: Seq<char>|
        n != name ==> #[trigger] a.node(dir)->DirtyTree_0.contains_key(n) == b.node(
            dir,
        )->DirtyTree_0.contains_key(n) && a.node(dir)->DirtyTree_0[n] == b.node(dir)->DirtyTree_0[n]
}

/// A path that does not pass a changed entry shows the same as before.
proof fn lemma_edit_seen(
    a: SlabView,
    b: SlabView,
    objects: Objects,
    dir: InodeId,
    name: Seq<char>,
    i: InodeId,
    path: Seq<Seq<char>>,
)
    requires
        tidy(a),
        a.has(i),
        differ_in_entry(a, b, dir, name),
        !passes(a, i, path, dir, name),
    ensures
        seen(b, objects, outside_tree(), i, path) == seen(a, objects, outside_tree(), i, path),
    decreases path.len(),
{
    assert(b.at(i).ignored == a.at(i).ignored);
    if let NodeView::DirtyTree(children) = a.node(i) {
        if path.len() > 0 {
            let n = path[0];
            if i == dir {
                assert(n != name);
                assert(children.contains_key(n) == b.node(dir)->DirtyTree_0.contains_key(n));
            }
            if children.contains_key(n) {
                let c = children[n];
                assert(a.attached(i, n, c));
                assert(a.by_parent.contains_key((i, n)));
                assert(b.at(c).ignored == a.at(c).ignored);
                if !skipped(a, outside_tree(), i, n, c) {
                    lemma_edit_seen(a, b, objects, dir, name, c, path.drop_first());
                }
            }
        }
    }
}

/// A walk leads on from where it ends.
pub proof fn lemma_seen_walk(
    slab: SlabView,
    objects: Objects,
    i: InodeId,
    front: Seq<Seq<char>>,
    d: InodeId,
    rest: Seq<Seq<char>>,
)
    requires
        walk(slab, outside_tree(), i, front) == Some(d),
    ensures
        seen(slab, objects, outside_tree(), i, front + rest) == seen(
            slab,
            objects,
            outside_tree(),
            d,
            rest,
        ),
    decreases front.len(),
{
    if front.len() == 0 {
        assert(front + rest =~= rest);
    } else {
        let all = front + rest;
        assert(all[0] == front[0]);
        assert(all.drop_first() =~= front.drop_first() + rest);
        let children = slab.node(i)->DirtyTree_0;
        lemma_seen_walk(slab, objects, children[front[0]], front.drop_first(), d, rest);
    }
}

/// What is new shows as its node says.
proof fn lemma_new_shows(
    slab: SlabView,
    objects: Objects,
    dir: InodeId,
    name: Seq<char>,
    rest: Seq<Seq<char>>,
)
    requires
        slab.node(dir) is DirtyTree,
        slab.node(dir)->DirtyTree_0.contains_key(name),
        crate::vfs::tidy::childless(slab.node(slab.node(dir)->DirtyTree_0[name])),
        slab.node(slab.node(dir)->DirtyTree_0[name]).is_dirty(),
    ensures
        ({
            let c = slab.node(dir)->DirtyTree_0[name];
            seen(slab, objects, outside_tree(), dir, seq![name] + rest) == (if skipped(
                slab,
                outside_tree(),
                dir,
                name,
                c,
            ) || rest.len() > 0 {
                Found::Nothing
            } else {
                found_at(objects, slab.node(c))
            })
        }),
{
    let path = seq![name] + rest;
    let c = slab.node(dir)->DirtyTree_0[name];
    assert(path[0] == name);
    assert(path.drop_first() =~= rest);
    reveal_with_fuel(seen, 2);
}

/// Making an entry shows in the tree at one place: at the new name there is
/// what was made, unless it is left out of snapshots, and at every path that
/// does not lead through the new name there is what was there before.
pub proof fn adding_shows_one_entry(
    v: KikiView,
    objects: Objects,
    parent: InodeId,
    name: Seq<char>,
    node: NodeView,
    ignored: bool,
    path: Seq<Seq<char>>,
    front: Seq<Seq<char>>,
    rest: Seq<Seq<char>>,
)
    requires
        v.wf(),
        sound(v.slab, objects, None),
        v.make_room(objects, parent, name).1 is Ok,
        node.is_dirty(),
        crate::vfs::tidy::childless(node),
        ({
            let (made, r) = v.make_room(objects, parent, name).0.attach_new(
                objects,
                parent,
                name,
                node,
                ignored,
            );
            r is Ok && made.slab.inodes.len() <= u64::MAX
        }),
    ensures
        ({
            let made = v.make_room(objects, parent, name).0.attach_new(
                objects,
                parent,
                name,
                node,
                ignored,
            ).0;
            &&& sound(made.slab, objects, None)
            &&& !passes(made.slab, ROOT_INODE, path, parent, name) ==> shown(
                made.slab,
                objects,
                path,
            ) == shown(v.slab, objects, path)
            &&& walk(made.slab, outside_tree(), ROOT_INODE, front) == Some(parent) ==> shown(
                made.slab,
                objects,
                front + seq![name] + rest,
            ) == (if ignored || rest.len() > 0 || (parent == ROOT_INODE && outside_tree().contains(
                name,
            )) {
                Found::Nothing
            } else {
                found_at(objects, node)
            })
        }),
{
    let room = v.make_room(objects, parent, name).0;
    let s = room.slab;
    let (made, r) = room.attach_new(objects, parent, name, node, ignored);
    let inode = InodeView { parent, name, node, ignored };
    let more = s.with_inode(inode);
    let child = s.next_id() as InodeId;
    assert(s == v.dirtied(objects, parent).0);
    assert(more.inodes.len() == s.inodes.len() + 1);
    lemma_dirtied(v, objects, parent, None);
    lemma_root_in_tree(v.slab);
    crate::vfs::tidy::keeps_with_inode(s, inode);
    crate::vfs::tidy::keeps_with_child(more, parent, name, child);
    let t = made.slab;
    assert(t == more.with_child(parent, name, child));
    assert(more.at(child) == inode);
    assert forall|i: InodeId| s.has(i) implies more.at(i) == #[trigger] s.at(i) by {}
    // The new slab is sound.
    assert forall|i: InodeId| t.has(i) implies t.has((#[trigger] t.at(i)).parent) by {
        if i != child {
            assert(s.has(s.at(i).parent));
        }
    }
    assert forall|k: (InodeId, Seq<char>)| #[trigger] t.by_parent.contains_key(k)
        implies t.has(k.0) by {
        if k != (parent, name) {
            assert(s.by_parent.contains_key(k));
        }
    }
    assert forall|d: InodeId, n: Seq<char>| #[trigger] agrees(t, objects, d, n, None) by {
        if in_tree(t, d) && t.has(d) && t.by_parent.contains_key((d, n)) && t.node(d) is Tree {
            assert(d != parent);
            assert(d != child);
            assert(s.by_parent.contains_key((d, n)));
            lemma_added_in_tree(s, t, parent, name, child, d);
            assert(agrees(s, objects, d, n, None));
            let c = s.by_parent[(d, n)];
            assert(s.has(c));
            if c == parent {
                assert(t.at(c).ignored == s.at(c).ignored);
            } else {
                assert(t.at(c) == s.at(c));
            }
        }
    }
    assert(plain_root(t, objects));
    if !passes(t, ROOT_INODE, path, parent, name) {
        assert(differ_in_entry(t, more, parent, name)) by {
            assert forall|j: InodeId| t.has(j)
                implies (#[trigger] more.at(j)).ignored == t.at(j).ignored
                && (j != parent ==> more.node(j) == t.node(j)) by {}
        }
        lemma_edit_seen(t, more, objects, parent, name, ROOT_INODE, path);
        lemma_more_seen(s, inode, objects, ROOT_INODE, path);
    }
    if walk(t, outside_tree(), ROOT_INODE, front) == Some(parent) {
        assert(front + seq![name] + rest =~= front + (seq![name] + rest));
        lemma_seen_walk(t, objects, ROOT_INODE, front, parent, seq![name] + rest);
        assert(t.node(child) == node);
        lemma_new_shows(t, objects, parent, name, rest);
    }
}

/// An inode that no name leads to shows nowhere.
proof fn lemma_more_seen(
    slab: SlabView,
    inode: InodeView,
    objects: Objects,
    i: InodeId,
    path: Seq<Seq<char>>,
)
    requires
        tidy(slab),
        slab.has(i),
    ensures
        seen(slab.with_inode(inode), objects, outside_tree(), i, path) == seen(
            slab,
            objects,
            outside_tree(),
            i,
            path,
        ),
    decreases path.len(),
{
    let more = slab.with_inode(inode);
    assert(more.at(i) == slab.at(i));
    if let NodeView::DirtyTree(children) = slab.node(i) {
        if path.len() > 0 && children.contains_key(path[0]) {
            let c = children[path[0]];
            assert(slab.attached(i, path[0], c));
            assert(slab.by_parent.contains_key((i, path[0])));
            assert(more.at(c) == slab.at(c));
            lemma_more_seen(slab, inode, objects, c, path.drop_first());
        }
    }
}

/// A new name adds its inode to the tree and nothing else.
proof fn lemma_added_in_tree(
    s: SlabView,
    t: SlabView,
    parent: InodeId,
    name: Seq<char>,
    child: InodeId,
    d: InodeId,
)
    requires
        t.by_parent == s.by_parent.insert((parent, name), child),
        grounded(s),
        !s.has(child),
        child != parent,
        child != ROOT_INODE,
        in_tree(t, d),
        d != child,
    ensures
        in_tree(s, d),
{
    let path = choose|path: Seq<Seq<char>>| follow(t, ROOT_INODE, path) == Some(d);
    lemma_added_follow(s, t, parent, name, child, ROOT_INODE, path, d);
}

proof fn lemma_added_follow(
    s: SlabView,
    t: SlabView,
    parent: InodeId,
    name: Seq<char>,
    child: InodeId,
    i: InodeId,
    path: Seq<Seq<char>>,
    d: InodeId,
)
    requires
        t.by_parent == s.by_parent.insert((parent, name), child),
        grounded(s),
        !s.has(child),
        child != parent,
        follow(t, i, path) == Some(d),
        d != child,
        i != child,
    ensures
        follow(s, i, path) == Some(d),
    decreases path.len(),
{
    reveal_with_fuel(follow, 2);
    if path.len() > 0 {
        let k = (i, path[0]);
        let c = t.by_parent[k];
        if c == child {
            let rest = path.drop_first();
            assert(rest.len() > 0);
            assert(t.by_parent.contains_key((child, rest[0])));
            assert(s.by_parent.contains_key((child, rest[0])));
        } else {
            assert(k != (parent, name));
            lemma_added_follow(s, t, parent, name, child, c, path.drop_first(), d);
        }
    }
}

/// Removing an entry shows in the tree at one place: at the name there is
/// nothing left, and at every path that does not lead through it there is what
/// was there before.
pub proof fn removing_hides_one_entry(
    v: KikiView,
    objects: Objects,
    parent: InodeId,
    name: Seq<char>,
    path: Seq<Seq<char>>,
    front: Seq<Seq<char>>,
    rest: Seq<Seq<char>>,
)
    requires
        v.wf(),
        sound(v.slab, objects, None),
        v.remove_from_slab(objects, parent, name).1 is Ok,
        v.remove_from_slab(objects, parent, name).0.slab.inodes.len() <= u64::MAX,
    ensures
        ({
            let t = v.remove_from_slab(objects, parent, name).0.slab;
            &&& sound(t, objects, None)
            &&& !passes(t, ROOT_INODE, path, parent, name) ==> shown(t, objects, path) == shown(
                v.slab,
                objects,
                path,
            )
            &&& walk(t, outside_tree(), ROOT_INODE, front) == Some(parent) ==> shown(
                t,
                objects,
                front + seq![name] + rest,
            ) == Found::Nothing
        }),
{
    let s = v.dirtied(objects, parent).0;
    let t = v.remove_from_slab(objects, parent, name).0.slab;
    lemma_root_in_tree(v.slab);
    assert(t.inodes.len() == s.inodes.len());
    lemma_dirtied(v, objects, parent, None);
    let child = s.node(parent)->DirtyTree_0[name];
    assert(s.attached(parent, name, child));
    crate::vfs::tidy::keeps_without_child(s, parent, name, child);
    assert forall|i: InodeId| t.has(i) implies t.has((#[trigger] t.at(i)).parent) by {
        assert(s.has(s.at(i).parent));
    }
    assert forall|k: (InodeId, Seq<char>)| #[trigger] t.by_parent.contains_key(k)
        implies t.has(k.0) by {
        assert(s.by_parent.contains_key(k));
    }
    assert forall|d: InodeId, n: Seq<char>| #[trigger] agrees(t, objects, d, n, None) by {
        if in_tree(t, d) && t.has(d) && t.by_parent.contains_key((d, n)) && t.node(d) is Tree {
            assert(d != parent);
            let p = choose|p: Seq<Seq<char>>| follow(t, ROOT_INODE, p) == Some(d);
            lemma_fewer_names(t, s, ROOT_INODE, p);
            assert(in_tree(s, d));
            assert(s.by_parent.contains_key((d, n)));
            assert(agrees(s, objects, d, n, None));
        }
    }
    if !passes(t, ROOT_INODE, path, parent, name) {
        lemma_edit_seen(t, s, objects, parent, name, ROOT_INODE, path);
    }
    if walk(t, outside_tree(), ROOT_INODE, front) == Some(parent) {
        assert(front + seq![name] + rest =~= front + (seq![name] + rest));
        lemma_seen_walk(t, objects, ROOT_INODE, front, parent, seq![name] + rest);
    }
}

/// A slab that knows fewer names leads to the same inodes by them.
proof fn lemma_fewer_names(t: SlabView, s: SlabView, i: InodeId, path: Seq<Seq<char>>)
    requires
        forall|k: (InodeId, Seq<char>)| #[trigger]
            t.by_parent.contains_key(k) ==> s.by_parent.contains_key(k) && s.by_parent[k]
                == t.by_parent[k],
        follow(t, i, path) is Some,
    ensures
        follow(s, i, path) == follow(t, i, path),
    decreases path.len(),
{
    if path.len() > 0 {
        assert(t.by_parent.contains_key((i, path[0])));
        lemma_fewer_names(t, s, t.by_parent[(i, path[0])], path.drop_first());
    }
}

// ---- changing files --------------------------------------------------------------

/// A path shows another content exactly where it leads to the file.
proof fn lemma_rewrite_seen(
    s: SlabView,
    objects: Objects,
    ino: InodeId,
    node: NodeView,
    i: InodeId,
    path: Seq<Seq<char>>,
)
    requires
        tidy(s),
        s.has(i),
        s.has(ino),
        s.node(ino) is DirtyFile,
        node is DirtyFile,
    ensures
        ({
            let t = s.with_node(ino, node);
            &&& walk(t, outside_tree(), i, path) == walk(s, outside_tree(), i, path)
            &&& if walk(t, outside_tree(), i, path) == Some(ino) {
                &&& seen(s, objects, outside_tree(), i, path) == found_at(objects, s.node(ino))
                &&& seen(t, objects, outside_tree(), i, path) == found_at(objects, node)
            } else {
                seen(t, objects, outside_tree(), i, path) == seen(
                    s,
                    objects,
                    outside_tree(),
                    i,
                    path,
                )
            }
        }),
    decreases path.len(),
{
    let t = s.with_node(ino, node);
    if i != ino {
        assert(t.at(i) == s.at(i));
        if let NodeView::DirtyTree(children) = s.node(i) {
            if path.len() > 0 && children.contains_key(path[0]) {
                let c = children[path[0]];
                assert(s.attached(i, path[0], c));
                assert(s.by_parent.contains_key((i, path[0])));
                assert(t.at(c).ignored == s.at(c).ignored);
                lemma_rewrite_seen(s, objects, ino, node, c, path.drop_first());
            }
        }
    }
}

/// Changing a file's content shows in the tree where names lead to the file,
/// and nowhere else.
proof fn lemma_changed_file(
    v: KikiView,
    objects: Objects,
    ino: InodeId,
    node: NodeView,
    path: Seq<Seq<char>>,
)
    requires
        v.wf(),
        sound(v.slab, objects, None),
        v.file_dirtied(objects, ino).1 is Ok,
        v.file_dirtied(objects, ino).0.slab.inodes.len() <= u64::MAX,
        v.file_dirtied(objects, ino).0.slab.node(ino) is DirtyFile,
        node is DirtyFile,
    ensures
        ({
            let s = v.file_dirtied(objects, ino).0.slab;
            let t = s.with_node(ino, node);
            &&& s.has(ino)
            &&& sound(t, objects, None)
            &&& found_at(objects, s.node(ino)) == found_at(objects, v.slab.node(ino))
            &&& if walk(t, outside_tree(), ROOT_INODE, path) == Some(ino) {
                &&& shown(v.slab, objects, path) == found_at(objects, s.node(ino))
                &&& shown(t, objects, path) == found_at(objects, node)
            } else {
                shown(t, objects, path) == shown(v.slab, objects, path)
            }
        }),
{
    let first = file_opened(v.slab, objects, ino).0;
    let s = v.file_dirtied(objects, ino).0.slab;
    let t = s.with_node(ino, node);
    let parent = first.at(ino).parent;
    lemma_file_opened(v.slab, objects, ino);
    lemma_root_in_tree(v.slab);
    if first != v.slab {
        keeps_with_node(v.slab, ino, first.node(ino));
    } else {
        keeps_refl(first);
    }
    crate::vfs::kiki_fs::wf_kept(v, first);
    lemma_dirtied(v.with_slab(first), objects, parent, Some(ino));
    assert(s.at(ino).parent == first.at(ino).parent);
    assert(s.node(ino) == first.node(ino));
    lemma_same_names(v.slab, first, ROOT_INODE);
    assert(shown(s, objects, path) == shown(first, objects, path));
    keeps_with_node(s, ino, node);
    assert forall|d: InodeId, n: Seq<char>| #[trigger] agrees(t, objects, d, n, None) by {
        lemma_same_names(s, t, d);
        assert(agrees(s, objects, d, n, None));
        if s.has(d) && s.by_parent.contains_key((d, n)) {
            let c = s.by_parent[(d, n)];
            assert(s.has(c));
            if d != ino {
                assert(t.at(d) == s.at(d));
            }
            if c != ino {
                assert(t.at(c) == s.at(c));
            }
        }
    }
    assert forall|i: InodeId| t.has(i) implies t.has((#[trigger] t.at(i)).parent) by {
        assert(s.has(s.at(i).parent));
    }
    lemma_rewrite_seen(s, objects, ino, node, ROOT_INODE, path);
}

/// A write shows in the tree where names lead to the file: the bytes are in
/// place there, and the mode is as before. Everything else is as before.
pub proof fn writing_shows_the_bytes(
    v: KikiView,
    objects: Objects,
    ino: InodeId,
    offset: u64,
    data: Seq<u8>,
    path: Seq<Seq<char>>,
)
    requires
        v.wf(),
        sound(v.slab, objects, None),
        v.write(objects, ino, offset, data).1 is Ok,
        v.write(objects, ino, offset, data).0.slab.inodes.len() <= u64::MAX,
    ensures
        ({
            let t = v.write(objects, ino, offset, data).0.slab;
            &&& sound(t, objects, None)
            &&& if walk(t, outside_tree(), ROOT_INODE, path) == Some(ino) {
                &&& shown(v.slab, objects, path) matches Found::File { content, executable }
                    && shown(t, objects, path) == (Found::File {
                    content: spliced(content, offset as nat, data),
                    executable,
                })
            } else {
                shown(t, objects, path) == shown(v.slab, objects, path)
            }
        }),
{
    let s = v.file_dirtied(objects, ino).0.slab;
    let node = NodeView::DirtyFile {
        content: spliced(s.node(ino)->DirtyFile_content, offset as nat, data),
        executable: s.node(ino)->DirtyFile_executable,
    };
    assert(file_written(s, ino, offset, data) == s.with_node(ino, node));
    lemma_changed_file(v, objects, ino, node, path);
}

/// Changing the length or the mode of a file shows in the tree where names lead
/// to the file. Everything else is as before.
pub proof fn setattr_shows_the_change(
    v: KikiView,
    objects: Objects,
    ino: InodeId,
    size: Option<u64>,
    executable: Option<bool>,
    path: Seq<Seq<char>>,
)
    requires
        v.wf(),
        sound(v.slab, objects, None),
        v.setattr(objects, ino, size, executable).1 is Ok,
        v.setattr(objects, ino, size, executable).0.slab.inodes.len() <= u64::MAX,
        size is Some || executable is Some,
    ensures
        ({
            let t = v.setattr(objects, ino, size, executable).0.slab;
            &&& sound(t, objects, None)
            &&& if walk(t, outside_tree(), ROOT_INODE, path) == Some(ino) {
                &&& shown(v.slab, objects, path) matches Found::File { content, executable: bit }
                    && shown(t, objects, path) == (Found::File {
                    content: match size {
                        Some(len) => resized(content, len as nat),
                        None => content,
                    },
                    executable: match executable {
                        Some(new_bit) => new_bit,
                        None => bit,
                    },
                })
            } else {
                shown(t, objects, path) == shown(v.slab, objects, path)
            }
        }),
{
    let s = v.file_dirtied(objects, ino).0.slab;
    let node = file_changed(s, ino, size, executable).node(ino);
    assert(s.node(ino) is DirtyFile);
    let made = NodeView::DirtyFile {
        content: match size {
            Some(len) => resized(s.node(ino)->DirtyFile_content, len as nat),
            None => s.node(ino)->DirtyFile_content,
        },
        executable: match executable {
            Some(bit) => bit,
            None => s.node(ino)->DirtyFile_executable,
        },
    };
    assert(file_changed(s, ino, size, executable) == s.with_node(ino, made));
    lemma_changed_file(v, objects, ino, made, path);
}

// ---- moving entries -----------------------------------------------------------------

/// A path that avoids a changed entry passes the other entries as before.
proof fn lemma_edit_passes(
    a: SlabView,
    b: SlabView,
    dir: InodeId,
    name: Seq<char>,
    i: InodeId,
    path: Seq<Seq<char>>,
    other_dir: InodeId,
    other: Seq<char>,
)
    requires
        tidy(a),
        a.has(i),
        differ_in_entry(a, b, dir, name),
        !passes(a, i, path, dir, name),
    ensures
        passes(b, i, path, other_dir, other) == passes(a, i, path, other_dir, other),
        !passes(b, i, path, dir, name),
    decreases path.len(),
{
    assert(b.at(i).ignored == a.at(i).ignored);
    if path.len() > 0 {
        let n = path[0];
        if let NodeView::DirtyTree(children) = a.node(i) {
            if i == dir {
                assert(n != name);
                assert(children.contains_key(n) == b.node(dir)->DirtyTree_0.contains_key(n));
            }
            if children.contains_key(n) {
                let c = children[n];
                assert(a.attached(i, n, c));
                assert(a.by_parent.contains_key((i, n)));
                assert(b.at(c).ignored == a.at(c).ignored);
                if !skipped(a, outside_tree(), i, n, c) {
                    lemma_edit_passes(
                        a,
                        b,
                        dir,
                        name,
                        c,
                        path.drop_first(),
                        other_dir,
                        other,
                    );
                }
            }
        }
    }
}

/// Where an inode believes to be does not show.
proof fn lemma_reparent_seen(
    a: SlabView,
    b: SlabView,
    objects: Objects,
    i: InodeId,
    path: Seq<Seq<char>>,
    dir: InodeId,
    name: Seq<char>,
)
    requires
        tidy(a),
        a.has(i),
        forall|j: InodeId|
            a.has(j) ==> (#[trigger] b.at(j)).ignored == a.at(j).ignored && b.node(j) == a.node(j),
    ensures
        seen(b, objects, outside_tree(), i, path) == seen(a, objects, outside_tree(), i, path),
        passes(b, i, path, dir, name) == passes(a, i, path, dir, name),
        walk(b, outside_tree(), i, path) == walk(a, outside_tree(), i, path),
    decreases path.len(),
{
    assert(b.at(i).ignored == a.at(i).ignored);
    if let NodeView::DirtyTree(children) = a.node(i) {
        if path.len() > 0 && children.contains_key(path[0]) {
            let c = children[path[0]];
            assert(a.attached(i, path[0], c));
            assert(a.by_parent.contains_key((i, path[0])));
            assert(b.at(c).ignored == a.at(c).ignored);
            lemma_reparent_seen(a, b, objects, c, path.drop_first(), dir, name);
        }
    }
}

/// The slabs on the way of a move.
proof fn lemma_moved(
    s: SlabView,
    objects: Objects,
    parent: InodeId,
    name: Seq<char>,
    new_parent: InodeId,
    new_name: Seq<char>,
    i: InodeId,
    path: Seq<Seq<char>>,
)
    requires
        sound(s, objects, None),
        moved(s, objects, parent, name, new_parent, new_name).1 matches Ok(Some(_)),
        s.has(i),
    ensures
        ({
            let (t, r) = moved(s, objects, parent, name, new_parent, new_name);
            let src = r->Ok_0->0;
            let u = t.reparented(src, new_parent, new_name);
            &&& tidy(u)
            &&& placed(u)
            &&& u.inodes.len() == s.inodes.len()
            &&& s.attached(parent, name, src)
            &&& u.attached(new_parent, new_name, src)
            &&& (parent, name) != (new_parent, new_name)
            &&& u.node(parent) is DirtyTree
            &&& !u.node(parent)->DirtyTree_0.contains_key(name)
            &&& u.at(src).ignored == s.at(src).ignored
            &&& forall|k: (InodeId, Seq<char>)| #[trigger]
                u.by_parent.contains_key(k) ==> if k == (new_parent, new_name) {
                    u.by_parent[k] == src
                } else {
                    k != (parent, name) && s.by_parent.contains_key(k) && s.by_parent[k]
                        == u.by_parent[k]
                }
            &&& forall|j: InodeId|
                s.has(j) ==> (#[trigger] u.at(j)).ignored == s.at(j).ignored && (j != parent && j
                    != new_parent ==> u.node(j) == s.node(j))
            &&& forall|j: InodeId| u.has(j) && j != src ==> (#[trigger] u.at(j)).parent == s.at(j).parent
            &&& u.at(src).parent == new_parent
            &&& u.node(new_parent) is DirtyTree
            &&& s.node(new_parent) is DirtyTree
            &&& s.node(parent) is DirtyTree
            &&& s.has(new_parent) && s.has(src)
            &&& !passes(u, i, path, new_parent, new_name) && !passes(u, i, path, parent, name)
                ==> seen(u, objects, outside_tree(), i, path) == seen(
                s,
                objects,
                outside_tree(),
                i,
                path,
            )
        }),
{
    let (t, r) = moved(s, objects, parent, name, new_parent, new_name);
    let src = r->Ok_0->0;
    let u = t.reparented(src, new_parent, new_name);
    crate::vfs::tidy::keeps_moved(s, objects, parent, name, new_parent, new_name);
    assert(s.attached(parent, name, src));
    assert(s.by_parent.contains_key((parent, name)));
    let dst = child_result(s, new_parent, new_name);
    let out = if dst is Ok && dst->Ok_0 is Some {
        s.without_child(new_parent, new_name)
    } else {
        s
    };
    let o2 = out.without_child(parent, name);
    assert(t == o2.with_child(new_parent, new_name, src));
    if dst is Ok && dst->Ok_0 is Some {
        let old_child = dst->Ok_0->0;
        assert(s.attached(new_parent, new_name, old_child));
        crate::vfs::tidy::keeps_without_child(s, new_parent, new_name, old_child);
    } else {
        keeps_refl(s);
    }
    assert(out.attached(parent, name, src));
    crate::vfs::tidy::keeps_without_child(out, parent, name, src);
    assert(o2.can_attach(new_parent, new_name));
    crate::vfs::tidy::keeps_with_child(o2, new_parent, new_name, src);
    assert((parent, name) != (new_parent, new_name));
    assert forall|j: InodeId| s.has(j) implies (#[trigger] u.at(j)).ignored == s.at(j).ignored && (j
        != parent && j != new_parent ==> u.node(j) == s.node(j)) by {}
    if !passes(u, i, path, new_parent, new_name) && !passes(u, i, path, parent, name) {
        lemma_reparent_seen(t, u, objects, i, path, new_parent, new_name);
        lemma_reparent_seen(t, u, objects, i, path, parent, name);
        assert(differ_in_entry(t, o2, new_parent, new_name)) by {
            assert forall|j: InodeId| t.has(j) implies (#[trigger] o2.at(j)).ignored == t.at(j).ignored
                && (j != new_parent ==> o2.node(j) == t.node(j)) by {}
        }
        lemma_edit_seen(t, o2, objects, new_parent, new_name, i, path);
        lemma_edit_passes(t, o2, new_parent, new_name, i, path, parent, name);
        assert(differ_in_entry(o2, out, parent, name)) by {
            assert forall|j: InodeId| o2.has(j) implies (#[trigger] out.at(j)).ignored == o2.at(
                j,
            ).ignored && (j != parent ==> out.node(j) == o2.node(j)) by {}
        }
        lemma_edit_seen(o2, out, objects, parent, name, i, path);
        lemma_edit_passes(o2, out, parent, name, i, path, new_parent, new_name);
        if out != s {
            assert(differ_in_entry(out, s, new_parent, new_name)) by {
                assert forall|j: InodeId| out.has(j) implies (#[trigger] s.at(j)).ignored == out.at(
                    j,
                ).ignored && (j != new_parent ==> s.node(j) == out.node(j)) by {}
            }
            lemma_edit_seen(out, s, objects, new_parent, new_name, i, path);
        }
    }
}

/// What a moved entry makes reachable was reachable before.
proof fn lemma_moved_in_tree(
    s: SlabView,
    u: SlabView,
    parent: InodeId,
    name: Seq<char>,
    new_key: (InodeId, Seq<char>),
    src: InodeId,
    i: InodeId,
    path: Seq<Seq<char>>,
    d: InodeId,
)
    requires
        in_tree(s, parent),
        s.by_parent.contains_key((parent, name)),
        s.by_parent[(parent, name)] == src,
        forall|k: (InodeId, Seq<char>)| #[trigger]
            u.by_parent.contains_key(k) ==> if k == new_key {
                u.by_parent[k] == src
            } else {
                s.by_parent.contains_key(k) && s.by_parent[k] == u.by_parent[k]
            },
        in_tree(s, i),
        follow(u, i, path) == Some(d),
    ensures
        in_tree(s, d),
    decreases path.len(),
{
    if path.len() > 0 {
        let k = (i, path[0]);
        assert(u.by_parent.contains_key(k));
        if k == new_key {
            lemma_child_in_tree(s, parent, name);
        } else {
            lemma_child_in_tree(s, i, path[0]);
        }
        lemma_moved_in_tree(
            s,
            u,
            parent,
            name,
            new_key,
            src,
            u.by_parent[k],
            path.drop_first(),
            d,
        );
    }
}

/// The slab after the two directories of a move were opened for changes.
pub open spec fn opened_to_move(
    v: KikiView,
    objects: Objects,
    parent: InodeId,
    new_parent: InodeId,
) -> SlabView {
    let first = v.dirtied(objects, parent).0;
    if new_parent != parent {
        v.with_slab(first).dirtied(objects, new_parent).0
    } else {
        first
    }
}

/// A move shows in the tree at two places. What stood under the old name, with
/// everything below it, stands under the new one; under the old name there is
/// nothing left; and at every path that leads through neither there is what was
/// there before. Where a directory was moved into itself, this says nothing of
/// the paths that lead through it again.
pub proof fn moving_shows_the_entry_elsewhere(
    v: KikiView,
    objects: Objects,
    parent: InodeId,
    name: Seq<char>,
    new_parent: InodeId,
    new_name: Seq<char>,
    path: Seq<Seq<char>>,
    front: Seq<Seq<char>>,
    rest: Seq<Seq<char>>,
)
    requires
        v.wf(),
        sound(v.slab, objects, None),
        in_tree(v.slab, parent),
        v.rename(objects, parent, name, new_parent, new_name).1 is Ok,
        opened_to_move(v, objects, parent, new_parent).inodes.len() <= u64::MAX,
    ensures
        ({
            let u = v.rename(objects, parent, name, new_parent, new_name).0.slab;
            let child = u.node(new_parent)->DirtyTree_0[new_name];
            &&& sound(u, objects, None)
            &&& !passes(u, ROOT_INODE, path, new_parent, new_name) && !passes(
                u,
                ROOT_INODE,
                path,
                parent,
                name,
            ) ==> shown(u, objects, path) == shown(v.slab, objects, path)
            &&& walk(u, outside_tree(), ROOT_INODE, front) == Some(new_parent) && !passes(
                u,
                child,
                rest,
                new_parent,
                new_name,
            ) && !passes(u, child, rest, parent, name) ==> shown(
                u,
                objects,
                front + seq![new_name] + rest,
            ) == seen(v.slab, objects, outside_tree(), parent, seq![name] + rest)
            &&& walk(u, outside_tree(), ROOT_INODE, front) == Some(parent) && (parent, name) != (
                new_parent,
                new_name,
            ) ==> shown(u, objects, front + seq![name] + rest) == Found::Nothing
        }),
{
    let first = v.dirtied(objects, parent).0;
    let v1 = v.with_slab(first);
    let s = opened_to_move(v, objects, parent, new_parent);
    let (t, r) = moved(s, objects, parent, name, new_parent, new_name);
    let u = v.rename(objects, parent, name, new_parent, new_name).0.slab;
    if new_parent != parent {
        lemma_dirtied_len(v1, objects, new_parent);
    }
    lemma_dirtied(v, objects, parent, None);
    crate::vfs::kiki_fs::wf_kept(v, first);
    if new_parent != parent {
        lemma_dirtied(v1, objects, new_parent, None);
        extends_trans(v.slab, first, s);
        same_tree_trans(v.slab, first, s, objects);
    }
    lemma_root_in_tree(v.slab);
    lemma_in_tree_extends(v.slab, s, parent);
    assert(s.at(parent).parent == v.slab.at(parent).parent);
    let whole = seq![new_name] + rest;
    let old_path = seq![name] + rest;
    assert(whole[0] == new_name && whole.drop_first() =~= rest);
    assert(old_path[0] == name && old_path.drop_first() =~= rest);
    assert(front + seq![new_name] + rest =~= front + whole);
    assert(front + seq![name] + rest =~= front + old_path);
    if let Ok(Some(src)) = r {
        assert(u == t.reparented(src, new_parent, new_name));
        lemma_moved(s, objects, parent, name, new_parent, new_name, ROOT_INODE, path);
        assert(s.by_parent.contains_key((parent, name)));
        assert forall|i: InodeId| u.has(i) implies u.has((#[trigger] u.at(i)).parent) by {
            assert(s.has(s.at(i).parent));
        }
        assert forall|k: (InodeId, Seq<char>)| #[trigger] u.by_parent.contains_key(k) implies u.has(
            k.0,
        ) by {
            if k != (new_parent, new_name) {
                assert(s.by_parent.contains_key(k));
            }
        }
        assert forall|d: InodeId, n: Seq<char>| #[trigger] agrees(u, objects, d, n, None) by {
            if in_tree(u, d) && u.has(d) && u.by_parent.contains_key((d, n)) && u.node(d) is Tree {
                assert(d != parent && d != new_parent);
                assert(u.at(d).ignored == s.at(d).ignored);
                let p = choose|p: Seq<Seq<char>>| follow(u, ROOT_INODE, p) == Some(d);
                lemma_root_in_tree(s);
                lemma_moved_in_tree(
                    s,
                    u,
                    parent,
                    name,
                    (new_parent, new_name),
                    src,
                    ROOT_INODE,
                    p,
                    d,
                );
                assert(agrees(s, objects, d, n, None));
                let c = s.by_parent[(d, n)];
                assert(s.has(c));
                assert(u.at(c).ignored == s.at(c).ignored);
            }
        }
        assert(plain_root(u, objects)) by {
            assert(u.at(ROOT_INODE).ignored == s.at(ROOT_INODE).ignored);
        }
        if walk(u, outside_tree(), ROOT_INODE, front) == Some(new_parent) && !passes(
            u,
            src,
            rest,
            new_parent,
            new_name,
        ) && !passes(u, src, rest, parent, name) {
            lemma_seen_walk(u, objects, ROOT_INODE, front, new_parent, whole);
            lemma_moved(s, objects, parent, name, new_parent, new_name, src, rest);
            assert(seen(s, objects, outside_tree(), parent, old_path) == seen(
                v.slab,
                objects,
                outside_tree(),
                parent,
                old_path,
            ));
            assert(skipped(u, outside_tree(), new_parent, new_name, src) == skipped(
                s,
                outside_tree(),
                parent,
                name,
                src,
            ));
        }
        if walk(u, outside_tree(), ROOT_INODE, front) == Some(parent) {
            lemma_seen_walk(u, objects, ROOT_INODE, front, parent, old_path);
        }
    } else {
        assert(r == Ok::<Option<InodeId>, ErrView>(None));
        assert(u == s);
        let src = child_result(s, parent, name)->Ok_0->0;
        assert(s.attached(parent, name, src));
        assert(s.attached(new_parent, new_name, src));
        assert(s.by_parent.contains_key((parent, name)));
        assert(s.by_parent.contains_key((new_parent, new_name)));
        assert((parent, name) == (new_parent, new_name));
        if walk(u, outside_tree(), ROOT_INODE, front) == Some(new_parent) {
            lemma_seen_walk(u, objects, ROOT_INODE, front, new_parent, whole);
            assert(seen(s, objects, outside_tree(), parent, old_path) == seen(
                v.slab,
                objects,
                outside_tree(),
                parent,
                old_path,
            ));
        }
    }
}

/// Opening directories drops no inode.
pub proof fn lemma_dirtied_len(v: KikiView, objects: Objects, dir: InodeId)
    ensures
        v.slab.inodes.len() <= v.dirtied(objects, dir).0.inodes.len(),
{
    lemma_opened_len(v.slab, objects, dir);
    let mid = opened(v.slab, objects, dir).0;
    lemma_above_len(mid, objects, dir, mid.inodes.len());
}

// ---- reading and switching --------------------------------------------------------------

/// Making an entry of a clean directory known leaves the tree alone.
proof fn lemma_interned(
    s: SlabView,
    objects: Objects,
    dir: InodeId,
    entries: Seq<EntryView>,
    k: int,
)
    requires
        sound(s, objects, None),
        s.has(dir),
        s.node(dir) is Tree,
        tree_result(objects, s.node(dir)->Tree_0) == Ok::<Seq<EntryView>, ErrView>(entries),
        0 <= k < entries.len(),
        s.interned(dir, entries[k].name, entry_node(entries[k])).inodes.len() <= u64::MAX,
    ensures
        ({
            let t = s.interned(dir, entries[k].name, entry_node(entries[k]));
            &&& sound(t, objects, None)
            &&& extends(s, t)
            &&& same_tree(s, t, objects)
            &&& t.node(dir) == s.node(dir)
        }),
{
    let name = entries[k].name;
    let node = entry_node(entries[k]);
    let t = s.interned(dir, name, node);
    let id = s.node(dir)->Tree_0;
    assert(tree_at(objects, id) == Ok::<Option<Seq<EntryView>>, StoreFault>(Some(entries)));
    assert(distinct(entries));
    if !s.by_parent.contains_key((dir, name)) {
        let inode = InodeView { parent: dir, name, node, ignored: false };
        let child = s.next_id() as InodeId;
        crate::vfs::tidy::keeps_interned(s, dir, name, node);
        assert(t.inodes == s.with_inode(inode).inodes);
        assert forall|i: InodeId| s.has(i) implies #[trigger] t.at(i) == s.at(i) by {}
        assert forall|i: InodeId| t.has(i) implies t.has((#[trigger] t.at(i)).parent) by {
            if i != child {
                assert(s.has(s.at(i).parent));
            }
        }
        assert forall|key: (InodeId, Seq<char>)| #[trigger] t.by_parent.contains_key(
            key,
        ) implies t.has(key.0) by {
            if key != (dir, name) {
                assert(s.by_parent.contains_key(key));
            }
        }
        assert forall|d: InodeId, n: Seq<char>| #[trigger] agrees(t, objects, d, n, None) by {
            if in_tree(t, d) && t.has(d) && t.by_parent.contains_key((d, n)) && t.node(d) is Tree {
                if (d, n) == (dir, name) {
                    lemma_entry_index(entries, name);
                    let m = entry_index(entries, name)->0;
                    assert(entries[m].name == entries[k].name);
                } else {
                    assert(s.by_parent.contains_key((d, n)));
                    assert(s.has(d));
                    lemma_added_in_tree(s, t, dir, name, child, d);
                    assert(agrees(s, objects, d, n, None));
                    assert(s.has(s.by_parent[(d, n)]));
                    assert(t.at(s.by_parent[(d, n)]) == s.at(s.by_parent[(d, n)]));
                    assert(t.at(d) == s.at(d));
                }
            }
        }
        assert(t.at(ROOT_INODE) == s.at(ROOT_INODE));
        assert forall|i: InodeId, path: Seq<Seq<char>>| in_tree(s, i) implies #[trigger] seen(
            t,
            objects,
            outside_tree(),
            i,
            path,
        ) == seen(s, objects, outside_tree(), i, path) by {
            lemma_tree_has(s, i);
            lemma_more_seen(s, inode, objects, i, path);
            lemma_only_inodes(t, s.with_inode(inode), objects, i, path);
        }
    }
}

/// What shows is a matter of the inodes.
proof fn lemma_only_inodes(
    a: SlabView,
    b: SlabView,
    objects: Objects,
    i: InodeId,
    path: Seq<Seq<char>>,
)
    requires
        a.inodes == b.inodes,
    ensures
        seen(a, objects, outside_tree(), i, path) == seen(b, objects, outside_tree(), i, path),
    decreases path.len(),
{
    if path.len() > 0 {
        if let NodeView::DirtyTree(children) = a.node(i) {
            if children.contains_key(path[0]) {
                lemma_only_inodes(a, b, objects, children[path[0]], path.drop_first());
            }
        }
    }
}

/// A lookup leaves the tree alone.
pub proof fn lookup_leaves_the_tree(
    v: KikiView,
    objects: Objects,
    parent: InodeId,
    name: Seq<char>,
    path: Seq<Seq<char>>,
)
    requires
        sound(v.slab, objects, None),
        v.lookup(objects, parent, name).0.slab.inodes.len() <= u64::MAX,
    ensures
        sound(v.lookup(objects, parent, name).0.slab, objects, None),
        shown(v.lookup(objects, parent, name).0.slab, objects, path) == shown(
            v.slab,
            objects,
            path,
        ),
{
    lemma_root_in_tree(v.slab);
    if v.lookup(objects, parent, name).0 != v {
        let entries = tree_result(objects, v.slab.node(parent)->Tree_0)->Ok_0;
        lemma_entry_index(entries, name);
        lemma_interned(v.slab, objects, parent, entries, entry_index(entries, name)->0);
    }
}

proof fn lemma_listed(
    s: SlabView,
    objects: Objects,
    dir: InodeId,
    entries: Seq<EntryView>,
    n: int,
    hidden: Set<Seq<char>>,
)
    requires
        sound(s, objects, None),
        s.has(dir),
        s.node(dir) is Tree,
        tree_result(objects, s.node(dir)->Tree_0) == Ok::<Seq<EntryView>, ErrView>(entries),
        0 <= n <= entries.len(),
        listed(s, dir, entries.take(n), hidden).inodes.len() <= u64::MAX,
    ensures
        ({
            let t = listed(s, dir, entries.take(n), hidden);
            &&& sound(t, objects, None)
            &&& extends(s, t)
            &&& same_tree(s, t, objects)
            &&& t.node(dir) == s.node(dir)
        }),
    decreases n,
{
    if n == 0 {
        keep_extends(s);
    } else {
        let front = entries.take(n).drop_last();
        assert(front =~= entries.take(n - 1));
        let mid = listed(s, dir, front, hidden);
        let e = entries.take(n).last();
        assert(e == entries[n - 1]);
        let t = listed(s, dir, entries.take(n), hidden);
        assert(mid.inodes.len() <= t.inodes.len());
        lemma_listed(s, objects, dir, entries, n - 1, hidden);
        if !hidden.contains(e.name) {
            lemma_interned(mid, objects, dir, entries, n - 1);
            extends_trans(s, mid, t);
            same_tree_trans(s, mid, t, objects);
        }
    }
}

/// Listing a directory leaves the tree alone.
pub proof fn readdir_leaves_the_tree(
    v: KikiView,
    objects: Objects,
    dir: InodeId,
    path: Seq<Seq<char>>,
)
    requires
        sound(v.slab, objects, None),
        v.readdir(objects, dir).0.slab.inodes.len() <= u64::MAX,
    ensures
        sound(v.readdir(objects, dir).0.slab, objects, None),
        shown(v.readdir(objects, dir).0.slab, objects, path) == shown(v.slab, objects, path),
{
    lemma_root_in_tree(v.slab);
    if v.slab.has(dir) {
        if let NodeView::Tree(id) = v.slab.node(dir) {
            if let Ok(entries) = tree_result(objects, id) {
                assert(entries.take(entries.len() as int) =~= entries);
                lemma_listed(
                    v.slab,
                    objects,
                    dir,
                    entries,
                    entries.len() as int,
                    v.shadowed(dir),
                );
            }
        }
    }
}

/// After a check-out the working copy shows the tree that was checked out, and
/// whatever was pinned or opened before stays under its inode.
pub proof fn check_out_shows_the_tree(
    v: KikiView,
    objects: Objects,
    tree: Id,
    mtime: i64,
    path: Seq<Seq<char>>,
    j: InodeId,
)
    requires
        v.wf(),
        grounded(v.slab),
        distinct_trees(objects),
        plain_root(v.slab.rerooted(tree), objects),
        v.check_out(objects, tree, mtime).1 is Ok,
    ensures
        sound(v.check_out(objects, tree, mtime).0.slab, objects, None),
        shown(v.check_out(objects, tree, mtime).0.slab, objects, path) == stored(
            objects,
            NodeView::Tree(tree),
            path,
        ),
        v.slab.has(j) && j != ROOT_INODE ==> v.check_out(objects, tree, mtime).0.slab.at(j)
            == v.slab.at(j),
        v.check_out(objects, tree, mtime).0.jj_subtree == v.jj_subtree,
{
    let t = v.check_out(objects, tree, mtime).0.slab;
    crate::vfs::tidy::keeps_rerooted(v.slab, tree);
    assert forall|i: InodeId| t.has(i) implies t.has((#[trigger] t.at(i)).parent) by {
        if i != ROOT_INODE {
            assert(v.slab.has(v.slab.at(i).parent));
        }
    }
    assert forall|k: (InodeId, Seq<char>)| #[trigger] t.by_parent.contains_key(k)
        implies t.has(k.0) by {
        assert(v.slab.by_parent.contains_key(k));
    }
    assert forall|d: InodeId, n: Seq<char>| #[trigger] agrees(t, objects, d, n, None) by {
        if in_tree(t, d) && t.by_parent.contains_key((d, n)) {
            let p = choose|p: Seq<Seq<char>>| follow(t, ROOT_INODE, p) == Some(d);
            if p.len() > 0 {
                assert(!t.by_parent.contains_key((ROOT_INODE, p[0])));
            }
        }
    }
}

/// A new working copy shows the tree that it was made of.
pub proof fn fresh_shows_the_tree(
    objects: Objects,
    tree: Id,
    gitdir: Seq<char>,
    scratch_dir: Option<Seq<char>>,
    mtime: i64,
    path: Seq<Seq<char>>,
)
    requires
        distinct_trees(objects),
        plain_root(
            KikiView::fresh(objects, tree, gitdir, scratch_dir, mtime).slab,
            objects,
        ),
    ensures
        sound(
            KikiView::fresh(objects, tree, gitdir, scratch_dir, mtime).slab,
            objects,
            None,
        ),
        shown(
            KikiView::fresh(objects, tree, gitdir, scratch_dir, mtime).slab,
            objects,
            path,
        ) == stored(objects, NodeView::Tree(tree), path),
{
    let t = KikiView::fresh(objects, tree, gitdir, scratch_dir, mtime).slab;
    assert(t.at(ROOT_INODE).node == NodeView::Tree(tree));
    assert forall|p: InodeId, name: Seq<char>, c: InodeId| !#[trigger] t.attached(p, name, c) by {
        assert(p == 1 || p == 2 || !t.has(p));
    }
    assert forall|p: InodeId| t.has(p) implies !((#[trigger] t.node(p)) is DirtyTree) by {
        assert(p == 1 || p == 2);
    }
    assert forall|i: InodeId| t.has(i) implies t.has((#[trigger] t.at(i)).parent) by {
        assert(i == 1 || i == 2);
    }
    assert(sound(t, objects, None));
}

// ---- snapshots -----------------------------------------------------------------------------

/// No name in a directory of the tree leads back to the directory.
proof fn lemma_no_self(slab: SlabView, d: InodeId, name: Seq<char>, path: Seq<Seq<char>>)
    requires
        tidy(slab),
        follow(slab, ROOT_INODE, path) == Some(d),
        slab.by_parent.contains_key((d, name)),
    ensures
        slab.by_parent[(d, name)] != d,
    decreases path.len(),
{
    if slab.by_parent[(d, name)] == d {
        if path.len() > 0 {
            let front = path.drop_last();
            assert(front.push(path.last()) =~= path);
            lemma_follow_push(slab, ROOT_INODE, front, path.last());
            let p = follow(slab, ROOT_INODE, front)->0;
            assert(slab.by_parent.contains_key((p, path.last())));
            assert((p, path.last()) == (d, name));
            lemma_no_self(slab, d, name, front);
        }
    }
}

/// Ordering entries keeps their names distinct.
pub proof fn lemma_ordered_distinct(entries: Seq<EntryView>, slashes: bool)
    requires
        distinct(entries),
    ensures
        distinct(key_order(entries, slashes)),
    decreases entries.len(),
{
    if entries.len() > 0 {
        let front = entries.drop_last();
        let e = entries.last();
        assert(distinct(front)) by {
            assert forall|a: int, b: int|
                0 <= a < front.len() && 0 <= b < front.len() && (#[trigger] front[a]).name == (
                #[trigger] front[b]).name implies a == b by {
                assert(entries[a].name == entries[b].name);
            }
        }
        lemma_ordered_distinct(front, slashes);
        let ordered = key_order(front, slashes);
        assert forall|k: int| 0 <= k < ordered.len()
            implies (#[trigger] ordered[k]).name != e.name by {
            assert(ordered.contains(ordered[k]));
            key_order_contains(front, slashes, ordered[k]);
            let j = choose|j: int| 0 <= j < front.len() && front[j] == ordered[k];
            assert(entries[j].name == ordered[k].name);
            if entries[j].name == e.name {
                assert(entries[j].name == entries[entries.len() - 1].name);
            }
        }
        lemma_with_entry_distinct(ordered, e, slashes);
    }
}

proof fn lemma_with_entry_distinct(entries: Seq<EntryView>, e: EntryView, slashes: bool)
    requires
        distinct(entries),
        forall|k: int| 0 <= k < entries.len() ==> (#[trigger] entries[k]).name != e.name,
    ensures
        distinct(with_entry(entries, e, slashes)),
    decreases entries.len(),
{
    let all = with_entry(entries, e, slashes);
    if entries.len() > 0 && crate::text::bytes_lt(order_key(e, slashes), order_key(entries.last(), slashes)) {
        let front = entries.drop_last();
        assert(distinct(front)) by {
            assert forall|a: int, b: int|
                0 <= a < front.len() && 0 <= b < front.len() && (#[trigger] front[a]).name == (
                #[trigger] front[b]).name implies a == b by {
                assert(entries[a].name == entries[b].name);
            }
        }
        assert forall|k: int| 0 <= k < front.len() implies (#[trigger] front[k]).name != e.name by {
            assert(entries[k] == front[k]);
        }
        lemma_with_entry_distinct(front, e, slashes);
        let first = with_entry(front, e, slashes);
        let last = entries.last();
        assert forall|k: int| 0 <= k < first.len()
            implies (#[trigger] first[k]).name != last.name by {
            with_entry_contains(front, e, slashes, first[k]);
            assert(first.contains(first[k]));
            if front.contains(first[k]) {
                let j = choose|j: int| 0 <= j < front.len() && front[j] == first[k];
                assert(entries[j] == first[k]);
                if entries[j].name == last.name {
                    assert(entries[j].name == entries[entries.len() - 1].name);
                }
            } else {
                assert(entries[entries.len() - 1].name != e.name);
            }
        }
        assert forall|a: int, b: int|
            0 <= a < all.len() && 0 <= b < all.len() && (#[trigger] all[a]).name == (#[trigger]
            all[b]).name implies a == b by {
            if a < first.len() && b < first.len() {
                assert(first[a].name == first[b].name);
            } else if a < first.len() {
                assert(first[a].name != last.name);
            } else if b < first.len() {
                assert(first[b].name != last.name);
            }
        }
    } else {
        assert forall|a: int, b: int|
            0 <= a < all.len() && 0 <= b < all.len() && (#[trigger] all[a]).name == (#[trigger]
            all[b]).name implies a == b by {
            if a < entries.len() && b < entries.len() {
                assert(entries[a].name == entries[b].name);
            } else if a < entries.len() {
                assert(entries[a].name != e.name);
            } else if b < entries.len() {
                assert(entries[b].name != e.name);
            }
        }
    }
}

/// A snapshot leaves the tree alone, and the working copy stays sound over what
/// the store holds then.
pub proof fn snapshot_leaves_the_tree(
    before: KikiView,
    objects: Objects,
    after: KikiView,
    now: Objects,
    id: Id,
    path: Seq<Seq<char>>,
)
    requires
        before.wf(),
        sound(before.slab, objects, None),
        snapshotted(before, objects, after, now, Ok(id)),
        no_collision(before.slab, outside_tree(), now),
    ensures
        sound(after.slab, now, None),
        shown(after.slab, now, path) == shown(before.slab, now, path),
        shown(before.slab, objects, path) != Found::Unreadable ==> shown(after.slab, now, path)
            == shown(before.slab, objects, path),
{
    let base = before.slab;
    let slab = after.slab;
    let h = outside_tree();
    root_nameless(base);
    deep_below_nameless(base, h, ROOT_INODE);
    lemma_seen_after(base, slab, now, h, ROOT_INODE, base.inodes.len(), path);
    if shown(base, objects, path) != Found::Unreadable {
        lemma_seen_grown(base, objects, now, h, ROOT_INODE, path);
    }
    crate::vfs::tidy::keeps_settled(base, h, slab);
    assert forall|i: InodeId| base.has(i) implies (#[trigger] slab.at(i)).parent == base.at(i).parent
        && slab.at(i).ignored == base.at(i).ignored by {
        if slab.at(i) != base.at(i) {
            let f = choose|f: nat| cleaned(base, h, slab, i, f);
            assert(cleaned(base, h, slab, i, f));
        }
    }
    assert forall|i: InodeId| slab.has(i) implies slab.has((#[trigger] slab.at(i)).parent) by {
        assert(base.has(base.at(i).parent));
    }
    assert forall|t: Id| (#[trigger] tree_at(now, t)) matches Ok(Some(entries)) implies distinct(
        tree_at(now, t)->Ok_0->0,
    ) by {
        lemma_stored_trees_distinct(before, objects, now, t);
    }
    assert forall|d: InodeId, n: Seq<char>| #[trigger] agrees(slab, now, d, n, None) by {
        lemma_same_names(base, slab, d);
        if in_tree(base, d) && slab.has(d) && base.by_parent.contains_key((d, n)) && slab.node(d)
            is Tree {
            let c = base.by_parent[(d, n)];
            assert(base.has(c));
            assert(slab.at(c).ignored == base.at(c).ignored);
            if slab.at(d) == base.at(d) {
                assert(agrees(base, objects, d, n, None));
                let t = base.node(d)->Tree_0;
                assert(tree_at(now, t) == tree_at(objects, t));
                if slab.at(c) != base.at(c) {
                    let f = choose|f: nat| cleaned(base, h, slab, c, f);
                    assert(cleaned(base, h, slab, c, f));
                    lemma_not_reached(before, d, n);
                }
            } else {
                let f = choose|f: nat| cleaned(base, h, slab, d, f);
                assert(cleaned(base, h, slab, d, f));
                assert(complete(base, h, slab, now, d, f));
                lemma_tree_stored(base, now, h, d, f);
                lemma_tree_leads(base, h, d, f, n);
                let children = base.node(d)->DirtyTree_0;
                let entries = content_entries(base, h, d, children, in_order(children), f)->Ok_0;
                if let Some(k) = entry_index(read_order(entries), n) {
                    assert(base.attached(d, n, children[n]));
                    assert(c == children[n]);
                    let p = choose|p: Seq<Seq<char>>| follow(base, ROOT_INODE, p) == Some(d);
                    lemma_no_self(base, d, n, p);
                    lemma_complete_below(base, h, slab, now, d, f, n);
                    if slab.at(c) != base.at(c) {
                        let g = choose|g: nat| cleaned(base, h, slab, c, g);
                        assert(cleaned(base, h, slab, c, g));
                        if g <= f - 1 {
                            lemma_deep_more(base, h, c, g, (f - 1) as nat);
                        } else {
                            lemma_deep_more(base, h, c, (f - 1) as nat, g);
                        }
                    }
                }
            }
        }
    }
    assert(plain_root(slab, now)) by {
        if slab.node(ROOT_INODE) is DirtyTree {
        } else if slab.at(ROOT_INODE) == base.at(ROOT_INODE) {
            let t = base.node(ROOT_INODE)->Tree_0;
            assert(tree_at(now, t) == tree_at(objects, t));
        } else {
            let f = choose|f: nat| cleaned(base, h, slab, ROOT_INODE, f);
            assert(cleaned(base, h, slab, ROOT_INODE, f));
            assert(complete(base, h, slab, now, ROOT_INODE, f));
            lemma_tree_stored(base, now, h, ROOT_INODE, f);
            let children = base.node(ROOT_INODE)->DirtyTree_0;
            let entries = content_entries(
                base,
                h,
                ROOT_INODE,
                children,
                in_order(children),
                f,
            )->Ok_0;
            assert forall|name: Seq<char>| h.contains(name) implies (#[trigger] entry_index(
                read_order(entries),
                name,
            )) is None by {
                lemma_tree_leads(base, h, ROOT_INODE, f, name);
            }
        }
    }
}

/// A snapshot does not reach what stands below a clean directory.
proof fn lemma_not_reached(v: KikiView, d: InodeId, n: Seq<char>)
    requires
        v.wf(),
        v.slab.has(d),
        v.slab.by_parent.contains_key((d, n)),
        v.slab.node(d) is Tree,
    ensures
        !reached(v, v.slab.by_parent[(d, n)]),
{
    let c = v.slab.by_parent[(d, n)];
    let h = outside_tree();
    if reached(v, c) {
        let path = choose|path: Seq<Seq<char>>|
            #![trigger walk(v.slab, h, ROOT_INODE, path)]
            walk(v.slab, h, ROOT_INODE, path) == Some(c) || (v.jj_subtree matches Some(jj) && walk(
                v.slab,
                h,
                jj,
                path,
            ) == Some(c));
        if walk(v.slab, h, ROOT_INODE, path) == Some(c) {
            lemma_walk_last(v.slab, ROOT_INODE, path, c, d, n);
        } else {
            lemma_walk_last(v.slab, v.jj_subtree->0, path, c, d, n);
        }
    }
}

proof fn lemma_walk_last(
    slab: SlabView,
    i: InodeId,
    path: Seq<Seq<char>>,
    c: InodeId,
    d: InodeId,
    n: Seq<char>,
)
    requires
        tidy(slab),
        slab.has(i),
        i != c,
        walk(slab, outside_tree(), i, path) == Some(c),
        slab.by_parent.contains_key((d, n)),
        slab.by_parent[(d, n)] == c,
    ensures
        slab.node(d) is DirtyTree,
    decreases path.len(),
{
    let children = slab.node(i)->DirtyTree_0;
    let next = children[path[0]];
    assert(slab.attached(i, path[0], next));
    assert(slab.by_parent.contains_key((i, path[0])));
    if next == c {
        assert((i, path[0]) == (d, n));
    } else {
        lemma_walk_last(slab, next, path.drop_first(), c, d, n);
    }
}

/// The trees that a snapshot writes have distinct names.
proof fn lemma_stored_trees_distinct(before: KikiView, objects: Objects, now: Objects, t: Id)
    requires
        distinct_trees(objects),
        grown(objects, now),
        only_content(before.slab, outside_tree(), objects, now),
        tree_at(now, t) is Ok,
        tree_at(now, t)->Ok_0 is Some,
    ensures
        distinct(tree_at(now, t)->Ok_0->0),
{
    let entries = tree_at(now, t)->Ok_0->0;
    if t == Id(EMPTY_TREE) || objects.contains_key(t) {
        assert(tree_at(objects, t) == tree_at(now, t));
    } else {
        let slab = before.slab;
        let h = outside_tree();
        let (i, fuel) = choose|i: InodeId, fuel: nat|
            {
                &&& deep(slab, h, i, fuel)
                &&& slab.node(i).is_dirty()
                &&& content_id(slab, h, i, fuel) == Ok::<Id, StoreFault>(t)
                &&& now[t] == #[trigger] content_object(slab, h, i, fuel)
            };
        assert(now[t] == content_object(slab, h, i, fuel));
        let children = slab.node(i)->DirtyTree_0;
        let names = in_order(children);
        let listed_entries = content_entries(slab, h, i, children, names, fuel)->Ok_0;
        in_order_of_finite(children);
        lemma_entries_distinct(slab, h, i, children, names, fuel);
        lemma_names_fit_ordered(listed_entries);
        parse_encoded_tree(tree_order(listed_entries));
        lemma_ordered_distinct(listed_entries, true);
        lemma_ordered_distinct(tree_order(listed_entries), false);
    }
}

proof fn lemma_entries_distinct(
    slab: SlabView,
    hidden: Set<Seq<char>>,
    i: InodeId,
    children: Map<Seq<char>, InodeId>,
    names: Seq<Seq<char>>,
    fuel: nat,
)
    requires
        ascending(names),
        content_entries(slab, hidden, i, children, names, fuel) is Ok,
    ensures
        distinct(content_entries(slab, hidden, i, children, names, fuel)->Ok_0),
    decreases names.len(),
{
    if names.len() > 0 {
        let front = names.drop_last();
        assert(ascending(front)) by {
            assert forall|a: int, b: int| 0 <= a < b < front.len() implies crate::text::name_lt(
                #[trigger] front[a],
                #[trigger] front[b],
            ) by {
                assert(names[a] == front[a] && names[b] == front[b]);
            }
        }
        lemma_entries_distinct(slab, hidden, i, children, front, fuel);
        lemma_entries(slab, hidden, i, children, front, fuel);
        let before = content_entries(slab, hidden, i, children, front, fuel)->Ok_0;
        let entries = content_entries(slab, hidden, i, children, names, fuel)->Ok_0;
        assert forall|a: int, b: int|
            0 <= a < entries.len() && 0 <= b < entries.len() && (#[trigger] entries[a]).name == (
            #[trigger] entries[b]).name implies a == b by {
            if a < before.len() && b < before.len() {
                assert(before[a].name == before[b].name);
            } else if a < before.len() {
                lemma_new_name(names, before[a].name);
            } else if b < before.len() {
                lemma_new_name(names, before[b].name);
            }
        }
    }
}

proof fn lemma_new_name(names: Seq<Seq<char>>, n: Seq<char>)
    requires
        ascending(names),
        names.len() > 0,
        names.drop_last().contains(n),
    ensures
        n != names.last(),
{
    let front = names.drop_last();
    let m = choose|m: int| 0 <= m < front.len() && front[m] == n;
    assert(crate::text::name_lt(names[m], names[names.len() - 1]));
    crate::text::name_lt_irreflexive(n);
}

} // verus!
