//! What every request keeps true of a slab.
use vstd::prelude::*;
use crate::git_store::{EntryView, Objects};
use crate::ty::Id;
use crate::vfs::inode::{InodeId, InodeView, NodeView, SlabView, ROOT_INODE};
use crate::vfs::snapshot::{cleaned, deep, settled, skipped};
use crate::vfs::tree_ops::{
    child_result, entry_node, listed, looked_up, moved, nodes_of, opened, relinked,
};

verus! {

/// The slab is in order: the root is there, a directory and its own parent, a
/// name leads to one inode and an inode has at most one name, the root has
/// none, and the children of a modified directory are what its names lead to.
pub open spec fn tidy(slab: SlabView) -> bool {
    &&& slab.has(ROOT_INODE)
    &&& slab.at(ROOT_INODE).parent == ROOT_INODE
    &&& slab.node(ROOT_INODE).is_dir()
    &&& forall|k: (InodeId, Seq<char>)| #[trigger]
        slab.by_parent.contains_key(k) ==> slab.has(slab.by_parent[k]) && slab.by_parent[k]
            != ROOT_INODE
    &&& forall|k: (InodeId, Seq<char>), l: (InodeId, Seq<char>)| #[trigger]
        slab.by_parent.contains_key(k) && #[trigger] slab.by_parent.contains_key(l)
            && slab.by_parent[k] == slab.by_parent[l] ==> k == l
    &&& forall|p: InodeId, name: Seq<char>, c: InodeId| #[trigger]
        slab.attached(p, name, c) ==> slab.by_parent.contains_key((p, name))
            && slab.by_parent[(p, name)] == c
    &&& forall|p: InodeId|
        slab.has(p) && (#[trigger] slab.node(p)) is DirtyTree ==> slab.node(
            p,
        )->DirtyTree_0.dom().finite()
}

/// Every inode that a name leads to knows its place.
pub open spec fn placed(slab: SlabView) -> bool {
    forall|k: (InodeId, Seq<char>)| #[trigger]
        slab.by_parent.contains_key(k) ==> slab.at(slab.by_parent[k]).parent == k.0 && slab.at(
            slab.by_parent[k],
        ).name == k.1
}

/// No name leads to `x`.
pub open spec fn nameless(slab: SlabView, x: InodeId) -> bool {
    forall|k: (InodeId, Seq<char>)| #[trigger]
        slab.by_parent.contains_key(k) ==> slab.by_parent[k] != x
}

/// What a request leaves in order of what it found: the slab stays tidy, inodes
/// keep knowing their place, no inode goes away, and an inode without a name
/// gets none.
pub open spec fn keeps(before: SlabView, after: SlabView) -> bool {
    &&& tidy(after)
    &&& placed(before) ==> placed(after)
    &&& before.inodes.len() <= after.inodes.len()
    &&& forall|x: InodeId| before.has(x) && #[trigger] nameless(before, x) ==> nameless(after, x)
}

pub proof fn keeps_refl(slab: SlabView)
    requires
        tidy(slab),
    ensures
        keeps(slab, slab),
{
}

pub proof fn keeps_trans(a: SlabView, b: SlabView, c: SlabView)
    requires
        keeps(a, b),
        keeps(b, c),
    ensures
        keeps(a, c),
{
    assert forall|x: InodeId| a.has(x) && #[trigger] nameless(a, x) implies nameless(c, x) by {
        assert(nameless(b, x));
    }
}

/// A node that holds no children, or none yet.
pub open spec fn childless(node: NodeView) -> bool {
    node matches NodeView::DirtyTree(children) ==> children == Map::<Seq<char>, InodeId>::empty()
}

/// Putting a node without children in place keeps the slab in order.
pub proof fn keeps_with_node(slab: SlabView, i: InodeId, node: NodeView)
    requires
        tidy(slab),
        slab.has(i),
        childless(node),
        i == ROOT_INODE ==> node.is_dir(),
    ensures
        keeps(slab, slab.with_node(i, node)),
{
    let after = slab.with_node(i, node);
    assert forall|p: InodeId, name: Seq<char>, c: InodeId| #[trigger] after.attached(p, name, c)
        implies after.by_parent.contains_key(
        (p, name),
    ) && after.by_parent[(p, name)] == c by {
        assert(slab.attached(p, name, c));
    }
    assert forall|p: InodeId| after.has(p) && (#[trigger] after.node(p)) is DirtyTree
        implies after.node(
        p,
    )->DirtyTree_0.dom().finite() by {
        assert(slab.has(p));
        if p != i {
            assert(slab.node(p) is DirtyTree);
        }
    }
    assert forall|x: InodeId| slab.has(x) && #[trigger] nameless(slab, x)
        implies nameless(after, x) by {}
}

/// Adding an inode without children keeps the slab in order, and no name leads
/// to the new one.
pub proof fn keeps_with_inode(slab: SlabView, inode: InodeView)
    requires
        tidy(slab),
        childless(inode.node),
        slab.next_id() <= u64::MAX,
    ensures
        keeps(slab, slab.with_inode(inode)),
        nameless(slab.with_inode(inode), slab.next_id() as InodeId),
{
    let after = slab.with_inode(inode);
    assert forall|p: InodeId, name: Seq<char>, c: InodeId| #[trigger] after.attached(p, name, c)
        implies after.by_parent.contains_key(
        (p, name),
    ) && after.by_parent[(p, name)] == c by {
        if p != slab.next_id() {
            assert(slab.attached(p, name, c));
        }
    }
    assert forall|p: InodeId| after.has(p) && (#[trigger] after.node(p)) is DirtyTree
        implies after.node(
        p,
    )->DirtyTree_0.dom().finite() by {
        if p != slab.next_id() {
            assert(slab.node(p) is DirtyTree);
        }
    }
    assert forall|x: InodeId| slab.has(x) && #[trigger] nameless(slab, x)
        implies nameless(after, x) by {}
}

/// Interning a clean entry keeps the slab in order.
pub proof fn keeps_interned(slab: SlabView, parent: InodeId, name: Seq<char>, node: NodeView)
    requires
        tidy(slab),
        !node.is_dirty(),
        slab.next_id() <= u64::MAX,
    ensures
        keeps(slab, slab.interned(parent, name, node)),
        slab.interned(parent, name, node).by_parent.contains_key((parent, name)),
        slab.interned(parent, name, node).by_parent[(parent, name)] == slab.interned_id(
            parent,
            name,
        ),
{
    let after = slab.interned(parent, name, node);
    if !slab.by_parent.contains_key((parent, name)) {
        let new_id = slab.next_id() as InodeId;
        assert forall|p: InodeId, n: Seq<char>, c: InodeId| #[trigger] after.attached(p, n, c)
            implies after.by_parent.contains_key(
            (p, n),
        ) && after.by_parent[(p, n)] == c by {
            if p != new_id {
                assert(slab.attached(p, n, c));
            }
        }
        assert forall|p: InodeId| after.has(p) && (#[trigger] after.node(p)) is DirtyTree
            implies after.node(
            p,
        )->DirtyTree_0.dom().finite() by {
            if p != new_id {
                assert(slab.node(p) is DirtyTree);
            }
        }
        assert forall|x: InodeId| slab.has(x) && #[trigger] nameless(slab, x) implies nameless(
            after,
            x,
        ) by {}
    }
}

proof fn keeps_refreshed(slab: SlabView, dir: InodeId, name: Seq<char>, node: NodeView)
    requires
        tidy(slab),
        !node.is_dirty(),
        slab.next_id() <= u64::MAX,
    ensures
        keeps(slab, slab.refreshed(dir, name, node)),
        slab.refreshed(dir, name, node).by_parent.contains_key((dir, name)),
        slab.refreshed(dir, name, node).by_parent[(dir, name)] == slab.interned_id(dir, name),
        forall|k: (InodeId, Seq<char>)| #[trigger]
            slab.by_parent.contains_key(k) ==> slab.refreshed(dir, name, node).by_parent.contains_key(
                k,
            ) && slab.refreshed(dir, name, node).by_parent[k] == slab.by_parent[k],
{
    if !slab.by_parent.contains_key((dir, name)) {
        keeps_interned(slab, dir, name, node);
    } else {
        let id = slab.by_parent[(dir, name)];
        if slab.has(id) && !slab.node(id).is_dirty() {
            keeps_with_node(slab, id, node);
        } else {
            keeps_refl(slab);
        }
    }
}

/// Every prefix of the work fits the id type.
pub proof fn lemma_loaded_len(
    slab: SlabView,
    dir: InodeId,
    entries: Seq<(Seq<char>, NodeView)>,
    n: int,
)
    requires
        0 <= n <= entries.len(),
    ensures
        slab.loaded(dir, entries.take(n)).inodes.len() <= slab.loaded(dir, entries).inodes.len(),
    decreases entries.len(),
{
    if n < entries.len() {
        assert(entries.drop_last().take(n) =~= entries.take(n));
        lemma_loaded_len(slab, dir, entries.drop_last(), n);
    } else {
        assert(entries.take(n) =~= entries);
    }
}

proof fn keeps_loaded(slab: SlabView, dir: InodeId, entries: Seq<(Seq<char>, NodeView)>)
    requires
        tidy(slab),
        forall|i: int| 0 <= i < entries.len() ==> !(#[trigger] entries[i]).1.is_dirty(),
        slab.loaded(dir, entries).inodes.len() <= u64::MAX,
    ensures
        keeps(slab, slab.loaded(dir, entries)),
        slab.loaded_children(dir, entries).dom().finite(),
        forall|name: Seq<char>| #[trigger]
            slab.loaded_children(dir, entries).contains_key(name) ==> slab.loaded(
                dir,
                entries,
            ).by_parent.contains_key((dir, name)) && slab.loaded(dir, entries).by_parent[(dir, name)]
                == slab.loaded_children(dir, entries)[name],
    decreases entries.len(),
{
    if entries.len() == 0 {
        keeps_refl(slab);
    } else {
        let front = entries.drop_last();
        assert(front =~= entries.take(entries.len() - 1));
        lemma_loaded_len(slab, dir, entries, entries.len() - 1);
        assert forall|i: int| 0 <= i < front.len() implies !(#[trigger] front[i]).1.is_dirty() by {
            assert(front[i] == entries[i]);
        }
        keeps_loaded(slab, dir, front);
        let mid = slab.loaded(dir, front);
        let (name, node) = entries.last();
        assert(entries[entries.len() - 1] == entries.last());
        let after = mid.refreshed(dir, name, node);
        assert(mid.next_id() <= u64::MAX || mid.by_parent.contains_key((dir, name)));
        if mid.by_parent.contains_key((dir, name)) && mid.next_id() > u64::MAX {
            let id = mid.by_parent[(dir, name)];
            if mid.has(id) && !mid.node(id).is_dirty() {
                keeps_with_node(mid, id, node);
            } else {
                keeps_refl(mid);
            }
        } else {
            keeps_refreshed(mid, dir, name, node);
        }
        keeps_trans(slab, mid, after);
    }
}

/// Opening a directory for changes keeps the slab in order.
pub proof fn keeps_materialized(slab: SlabView, dir: InodeId, entries: Seq<EntryView>)
    requires
        tidy(slab),
        slab.has(dir),
        slab.node(dir) is Tree,
        slab.materialized(dir, nodes_of(entries)).inodes.len() <= u64::MAX,
    ensures
        keeps(slab, slab.materialized(dir, nodes_of(entries))),
        slab.materialized(dir, nodes_of(entries)).has(dir),
{
    let nodes = nodes_of(entries);
    assert forall|i: int| 0 <= i < nodes.len() implies !(#[trigger] nodes[i]).1.is_dirty() by {
        assert(nodes[i].1 == entry_node(entries[i]));
    }
    let mid = slab.loaded(dir, nodes);
    let children = slab.loaded_children(dir, nodes);
    crate::vfs::inode::lemma_loaded_keeps(slab, dir, nodes, dir);
    keeps_loaded(slab, dir, nodes);
    let after = mid.with_node(dir, NodeView::DirtyTree(children));
    assert forall|p: InodeId, name: Seq<char>, c: InodeId| #[trigger] after.attached(p, name, c)
        implies after.by_parent.contains_key(
        (p, name),
    ) && after.by_parent[(p, name)] == c by {
        if p != dir {
            assert(mid.attached(p, name, c));
        } else {
            assert(children.contains_key(name));
        }
    }
    assert forall|p: InodeId| after.has(p) && (#[trigger] after.node(p)) is DirtyTree
        implies after.node(
        p,
    )->DirtyTree_0.dom().finite() by {
        if p != dir {
            assert(mid.node(p) is DirtyTree);
        }
    }
    assert forall|x: InodeId| slab.has(x) && #[trigger] nameless(slab, x)
        implies nameless(after, x) by {
        assert(nameless(mid, x));
    }
}

/// Opening a directory for changes keeps the slab in order, whether it works
/// or not.
pub proof fn keeps_opened(slab: SlabView, objects: Objects, dir: InodeId)
    requires
        tidy(slab),
        opened(slab, objects, dir).0.inodes.len() <= u64::MAX,
    ensures
        keeps(slab, opened(slab, objects, dir).0),
        opened(slab, objects, dir).1 is Ok ==> opened(slab, objects, dir).0.has(dir) && opened(
            slab,
            objects,
            dir,
        ).0.node(dir) is DirtyTree,
{
    keeps_refl(slab);
    if slab.has(dir) {
        if let NodeView::Tree(id) = slab.node(dir) {
            if let Ok(entries) = crate::vfs::tree_ops::tree_result(objects, id) {
                keeps_materialized(slab, dir, entries);
                crate::vfs::inode::lemma_loaded_keeps(slab, dir, nodes_of(entries), dir);
            }
        }
    }
}

/// A lookup keeps the slab in order.
pub proof fn keeps_looked_up(slab: SlabView, objects: Objects, dir: InodeId, name: Seq<char>)
    requires
        tidy(slab),
        looked_up(slab, objects, dir, name).0.inodes.len() <= u64::MAX,
    ensures
        keeps(slab, looked_up(slab, objects, dir, name).0),
{
    keeps_refl(slab);
    if slab.has(dir) {
        if let NodeView::Tree(id) = slab.node(dir) {
            if let Ok(entries) = crate::vfs::tree_ops::tree_result(objects, id) {
                if let Some(i) = crate::vfs::tree_ops::entry_index(entries, name) {
                    if !slab.by_parent.contains_key((dir, name)) {
                        keeps_interned(slab, dir, name, entry_node(entries[i]));
                    }
                }
            }
        }
    }
}

/// Listing a clean directory keeps the slab in order.
pub proof fn keeps_listed(
    slab: SlabView,
    dir: InodeId,
    entries: Seq<EntryView>,
    hidden: Set<Seq<char>>,
)
    requires
        tidy(slab),
        listed(slab, dir, entries, hidden).inodes.len() <= u64::MAX,
    ensures
        keeps(slab, listed(slab, dir, entries, hidden)),
    decreases entries.len(),
{
    if entries.len() == 0 {
        keeps_refl(slab);
    } else {
        let front = entries.drop_last();
        let mid = listed(slab, dir, front, hidden);
        let e = entries.last();
        assert(mid.inodes.len() <= listed(slab, dir, entries, hidden).inodes.len());
        keeps_listed(slab, dir, front, hidden);
        if hidden.contains(e.name) || mid.by_parent.contains_key((dir, e.name)) {
            keeps_refl(mid);
        } else {
            keeps_interned(mid, dir, e.name, entry_node(e));
        }
        keeps_trans(slab, mid, listed(slab, dir, entries, hidden));
    }
}

/// Attaching an inode that has no name yet keeps the slab tidy. Only the
/// attached inode gets a name, and inodes know their place if that one does.
pub proof fn keeps_with_child(slab: SlabView, parent: InodeId, name: Seq<char>, child: InodeId)
    requires
        tidy(slab),
        slab.can_attach(parent, name),
        slab.has(child),
        child != ROOT_INODE,
        nameless(slab, child),
    ensures
        tidy(slab.with_child(parent, name, child)),
        slab.with_child(parent, name, child).inodes.len() == slab.inodes.len(),
        placed(slab) && slab.at(child).parent == parent && slab.at(child).name == name ==> placed(
            slab.with_child(parent, name, child),
        ),
        forall|x: InodeId|
            x != child && #[trigger] nameless(slab, x) ==> nameless(
                slab.with_child(parent, name, child),
                x,
            ),
{
    let after = slab.with_child(parent, name, child);
    let children = slab.node(parent)->DirtyTree_0;
    assert forall|p: InodeId, n: Seq<char>, c: InodeId| #[trigger] after.attached(p, n, c)
        implies after.by_parent.contains_key(
        (p, n),
    ) && after.by_parent[(p, n)] == c by {
        if (p, n) != (parent, name) {
            assert(slab.attached(p, n, c));
        }
    }
    assert forall|p: InodeId| after.has(p) && (#[trigger] after.node(p)) is DirtyTree
        implies after.node(
        p,
    )->DirtyTree_0.dom().finite() by {
        assert(slab.node(p) is DirtyTree);
    }
    assert forall|k: (InodeId, Seq<char>)| #[trigger] after.by_parent.contains_key(k) implies after.has(
        after.by_parent[k],
    ) && after.by_parent[k] != ROOT_INODE by {
        if k != (parent, name) {
            assert(slab.by_parent.contains_key(k));
        }
    }
    assert forall|k: (InodeId, Seq<char>), l: (InodeId, Seq<char>)| #[trigger]
        after.by_parent.contains_key(k) && #[trigger] after.by_parent.contains_key(l)
            && after.by_parent[k] == after.by_parent[l] implies k == l by {
        if k != (parent, name) {
            assert(slab.by_parent.contains_key(k));
        }
        if l != (parent, name) {
            assert(slab.by_parent.contains_key(l));
        }
    }
    if placed(slab) && slab.at(child).parent == parent && slab.at(child).name == name {
        assert forall|k: (InodeId, Seq<char>)| #[trigger] after.by_parent.contains_key(k)
            implies after.at(
            after.by_parent[k],
        ).parent == k.0 && after.at(after.by_parent[k]).name == k.1 by {
            if k != (parent, name) {
                assert(slab.by_parent.contains_key(k));
            }
        }
    }
    assert forall|x: InodeId| x != child && #[trigger] nameless(slab, x)
        implies nameless(after, x) by {
        assert forall|k: (InodeId, Seq<char>)| #[trigger] after.by_parent.contains_key(k)
            implies after.by_parent[k]
            != x by {
            if k != (parent, name) {
                assert(slab.by_parent.contains_key(k));
            }
        }
    }
}

/// Detaching an entry keeps the slab in order, and leaves the detached inode
/// without a name.
pub proof fn keeps_without_child(slab: SlabView, parent: InodeId, name: Seq<char>, child: InodeId)
    requires
        tidy(slab),
        slab.attached(parent, name, child),
    ensures
        keeps(slab, slab.without_child(parent, name)),
        nameless(slab.without_child(parent, name), child),
        slab.has(child),
        child != ROOT_INODE,
{
    let after = slab.without_child(parent, name);
    assert(slab.by_parent.contains_key((parent, name)));
    assert forall|p: InodeId, n: Seq<char>, c: InodeId| #[trigger] after.attached(p, n, c)
        implies after.by_parent.contains_key(
        (p, n),
    ) && after.by_parent[(p, n)] == c by {
        assert(slab.attached(p, n, c));
        assert((p, n) != (parent, name));
    }
    assert forall|p: InodeId| after.has(p) && (#[trigger] after.node(p)) is DirtyTree
        implies after.node(
        p,
    )->DirtyTree_0.dom().finite() by {
        assert(slab.node(p) is DirtyTree);
    }
    assert forall|k: (InodeId, Seq<char>)| #[trigger] after.by_parent.contains_key(k) implies after.has(
        after.by_parent[k],
    ) && after.by_parent[k] != ROOT_INODE by {
        assert(slab.by_parent.contains_key(k));
    }
    assert forall|k: (InodeId, Seq<char>)| #[trigger] after.by_parent.contains_key(k)
        implies after.by_parent[k]
        != child by {
        assert(slab.by_parent.contains_key(k));
    }
    if placed(slab) {
        assert forall|k: (InodeId, Seq<char>)| #[trigger] after.by_parent.contains_key(k)
            implies after.at(
            after.by_parent[k],
        ).parent == k.0 && after.at(after.by_parent[k]).name == k.1 by {
            assert(slab.by_parent.contains_key(k));
        }
    }
    assert forall|x: InodeId| slab.has(x) && #[trigger] nameless(slab, x)
        implies nameless(after, x) by {
        assert forall|k: (InodeId, Seq<char>)| #[trigger] after.by_parent.contains_key(k)
            implies after.by_parent[k]
            != x by {
            assert(slab.by_parent.contains_key(k));
        }
    }
}

/// Telling an inode without a name its place keeps the slab in order.
pub proof fn keeps_reparented(slab: SlabView, child: InodeId, parent: InodeId, name: Seq<char>)
    requires
        tidy(slab),
        slab.has(child),
        child != ROOT_INODE,
        nameless(slab, child),
    ensures
        keeps(slab, slab.reparented(child, parent, name)),
{
    let after = slab.reparented(child, parent, name);
    assert forall|p: InodeId, n: Seq<char>, c: InodeId| #[trigger] after.attached(p, n, c)
        implies after.by_parent.contains_key(
        (p, n),
    ) && after.by_parent[(p, n)] == c by {
        assert(slab.attached(p, n, c));
    }
    assert forall|p: InodeId| after.has(p) && (#[trigger] after.node(p)) is DirtyTree
        implies after.node(
        p,
    )->DirtyTree_0.dom().finite() by {
        assert(slab.node(p) is DirtyTree);
    }
    assert forall|x: InodeId| slab.has(x) && #[trigger] nameless(slab, x)
        implies nameless(after, x) by {}
}

/// Moving an entry to a free name keeps the slab tidy, and keeps it in order
/// once the moved inode was told its place.
pub proof fn keeps_relinked(
    slab: SlabView,
    dir: InodeId,
    name: Seq<char>,
    new_dir: InodeId,
    new_name: Seq<char>,
    child: InodeId,
)
    requires
        tidy(slab),
        slab.attached(dir, name, child),
        slab.without_child(dir, name).can_attach(new_dir, new_name),
    ensures
        slab.has(child),
        tidy(relinked(slab, dir, name, new_dir, new_name, child)),
        relinked(slab, dir, name, new_dir, new_name, child).inodes.len() == slab.inodes.len(),
        keeps(
            slab,
            relinked(slab, dir, name, new_dir, new_name, child).reparented(
                child,
                new_dir,
                new_name,
            ),
        ),
{
    keeps_without_child(slab, dir, name, child);
    let out = slab.without_child(dir, name);
    keeps_with_child(out, new_dir, new_name, child);
    keeps_reparented(out, child, new_dir, new_name);
    let told = out.reparented(child, new_dir, new_name);
    assert(told.can_attach(new_dir, new_name));
    assert(nameless(told, child));
    keeps_with_child(told, new_dir, new_name, child);
    let after = told.with_child(new_dir, new_name, child);
    let relinked_slab = out.with_child(new_dir, new_name, child);
    assert(after.inodes =~= relinked_slab.reparented(child, new_dir, new_name).inodes);
    assert(after == relinked_slab.reparented(child, new_dir, new_name));
    assert forall|x: InodeId| slab.has(x) && #[trigger] nameless(slab, x)
        implies nameless(after, x) by {
        assert(slab.by_parent.contains_key((dir, name)));
        assert(x != child);
        assert(nameless(out, x));
        assert(nameless(told, x));
    }
}

/// A move keeps the slab tidy, and keeps it in order once the moved inode was
/// told its place.
pub proof fn keeps_moved(
    slab: SlabView,
    objects: Objects,
    dir: InodeId,
    name: Seq<char>,
    new_dir: InodeId,
    new_name: Seq<char>,
)
    requires
        tidy(slab),
    ensures
        ({
            let (after, r) = moved(slab, objects, dir, name, new_dir, new_name);
            &&& tidy(after)
            &&& after.inodes.len() == slab.inodes.len()
            &&& match r {
                Ok(Some(child)) => after.has(child) && keeps(
                    slab,
                    after.reparented(child, new_dir, new_name),
                ),
                _ => after == slab,
            }
        }),
{
    let src = child_result(slab, dir, name);
    let dst = child_result(slab, new_dir, new_name);
    if let Ok(Some(child)) = src {
        assert(slab.attached(dir, name, child));
        if let Ok(None) = dst {
            keeps_relinked(slab, dir, name, new_dir, new_name, child);
        } else if let Ok(Some(old_child)) = dst {
            if moved(slab, objects, dir, name, new_dir, new_name).1 is Ok && old_child != child {
                assert(slab.attached(new_dir, new_name, old_child));
                keeps_without_child(slab, new_dir, new_name, old_child);
                let out = slab.without_child(new_dir, new_name);
                assert(out.attached(dir, name, child));
                keeps_relinked(out, dir, name, new_dir, new_name, child);
                keeps_trans(
                    slab,
                    out,
                    relinked(out, dir, name, new_dir, new_name, child).reparented(
                        child,
                        new_dir,
                        new_name,
                    ),
                );
            }
        }
    }
}

/// Re-rooting keeps the slab in order.
pub proof fn keeps_rerooted(slab: SlabView, root_tree: Id)
    requires
        tidy(slab),
    ensures
        keeps(slab, slab.rerooted(root_tree)),
{
    let after = slab.rerooted(root_tree);
    assert forall|p: InodeId, n: Seq<char>, c: InodeId| #[trigger] after.attached(p, n, c)
        implies after.by_parent.contains_key(
        (p, n),
    ) && after.by_parent[(p, n)] == c by {
        assert(p != ROOT_INODE);
        assert(slab.attached(p, n, c));
    }
    assert forall|p: InodeId| after.has(p) && (#[trigger] after.node(p)) is DirtyTree
        implies after.node(
        p,
    )->DirtyTree_0.dom().finite() by {
        assert(slab.node(p) is DirtyTree);
    }
    assert forall|k: (InodeId, Seq<char>)| #[trigger] after.by_parent.contains_key(k) implies after.has(
        after.by_parent[k],
    ) && after.by_parent[k] != ROOT_INODE by {
        assert(slab.by_parent.contains_key(k));
    }
    if placed(slab) {
        assert forall|k: (InodeId, Seq<char>)| #[trigger] after.by_parent.contains_key(k)
            implies after.at(
            after.by_parent[k],
        ).parent == k.0 && after.at(after.by_parent[k]).name == k.1 by {
            assert(slab.by_parent.contains_key(k));
        }
    }
    assert forall|x: InodeId| slab.has(x) && #[trigger] nameless(slab, x)
        implies nameless(after, x) by {
        assert forall|k: (InodeId, Seq<char>)| #[trigger] after.by_parent.contains_key(k)
            implies after.by_parent[k]
            != x by {
            assert(slab.by_parent.contains_key(k));
        }
    }
}

/// A snapshot keeps the slab in order.
pub proof fn keeps_settled(base: SlabView, hidden: Set<Seq<char>>, slab: SlabView)
    requires
        tidy(base),
        settled(base, hidden, slab),
    ensures
        keeps(base, slab),
{
    assert forall|p: InodeId| base.has(p) implies (#[trigger] slab.at(p)).parent == base.at(p).parent
        && slab.at(p).name == base.at(p).name && (slab.node(p) is DirtyTree ==> slab.node(p)
        == base.node(p)) by {
        if slab.at(p) != base.at(p) {
            let f = choose|f: nat| cleaned(base, hidden, slab, p, f);
            assert(cleaned(base, hidden, slab, p, f));
        }
    }
    assert forall|p: InodeId, n: Seq<char>, c: InodeId| #[trigger] slab.attached(p, n, c)
        implies slab.by_parent.contains_key(
        (p, n),
    ) && slab.by_parent[(p, n)] == c by {
        assert(slab.at(p).parent == base.at(p).parent);
        assert(base.attached(p, n, c));
    }
    assert forall|p: InodeId| slab.has(p) && (#[trigger] slab.node(p)) is DirtyTree implies slab.node(
        p,
    )->DirtyTree_0.dom().finite() by {
        assert(slab.at(p).parent == base.at(p).parent);
        assert(base.node(p) is DirtyTree);
    }
    if placed(base) {
        assert forall|k: (InodeId, Seq<char>)| #[trigger] slab.by_parent.contains_key(k)
            implies slab.at(
            slab.by_parent[k],
        ).parent == k.0 && slab.at(slab.by_parent[k]).name == k.1 by {
            assert(base.by_parent.contains_key(k));
            assert(base.has(base.by_parent[k]));
        }
    }
    assert forall|x: InodeId| base.has(x) && #[trigger] nameless(base, x)
        implies nameless(slab, x) by {}
}

// ---- no cycle below an inode without a name ---------------------------------

/// Some name in `p` leads to `c`.
pub open spec fn child_of(slab: SlabView, p: InodeId, c: InodeId) -> bool {
    exists|name: Seq<char>| slab.attached(p, name, c)
}

/// The inode at `k` of a path is a child of the one before it.
pub open spec fn linked(slab: SlabView, path: Seq<InodeId>, k: int) -> bool {
    child_of(slab, path[k - 1], path[k])
}

/// A path of inodes, each a child of the one before.
pub open spec fn descends(slab: SlabView, path: Seq<InodeId>) -> bool {
    &&& path.len() > 0
    &&& path.no_duplicates()
    &&& forall|k: int| 0 <= k < path.len() ==> slab.has(#[trigger] path[k])
    &&& forall|k: int| 0 < k < path.len() ==> #[trigger] linked(slab, path, k)
}

/// Distinct inodes are no more than the slab holds.
pub proof fn lemma_path_short(slab: SlabView, path: Seq<InodeId>)
    requires
        path.no_duplicates(),
        forall|k: int| 0 <= k < path.len() ==> slab.has(#[trigger] path[k]),
    ensures
        path.len() <= slab.inodes.len(),
{
    let ints = path.map_values(|i: InodeId| i as int);
    let n = slab.inodes.len() as int;
    assert(ints.no_duplicates()) by {
        assert forall|a: int, b: int|
            0 <= a < ints.len() && 0 <= b < ints.len() && a != b implies ints[a] != ints[b] by {
            assert(path[a] != path[b]);
        }
    }
    ints.unique_seq_to_set();
    let range = vstd::set_lib::set_int_range(1, n + 1);
    vstd::set_lib::lemma_int_range(1, n + 1);
    assert forall|x: int| #[trigger] ints.to_set().contains(x) implies range.contains(x) by {
        let k = choose|k: int| 0 <= k < ints.len() && ints[k] == x;
        assert(slab.has(path[k]));
    }
    vstd::set_lib::lemma_len_subset(ints.to_set(), range);
}

proof fn lemma_deep_path(slab: SlabView, hidden: Set<Seq<char>>, path: Seq<InodeId>)
    requires
        tidy(slab),
        descends(slab, path),
        nameless(slab, path[0]),
    ensures
        path.len() <= slab.inodes.len(),
        deep(slab, hidden, path.last(), (slab.inodes.len() - path.len()) as nat),
    decreases slab.inodes.len() - path.len(),
{
    lemma_path_short(slab, path);
    let i = path.last();
    let fuel = (slab.inodes.len() - path.len()) as nat;
    assert(slab.has(path[path.len() - 1]));
    if let NodeView::DirtyTree(children) = slab.node(i) {
        assert forall|name: Seq<char>| #[trigger] children.contains_key(name) implies slab.has(
            children[name],
        ) && (skipped(slab, hidden, i, name, children[name]) || (fuel > 0 && deep(
            slab,
            hidden,
            children[name],
            (fuel - 1) as nat,
        ))) by {
            let c = children[name];
            assert(slab.attached(i, name, c));
            assert(slab.by_parent.contains_key((i, name)));
            let longer = path.push(c);
            assert(!path.contains(c)) by {
                if path.contains(c) {
                    let k = choose|k: int| 0 <= k < path.len() && path[k] == c;
                    if k > 0 {
                        assert(linked(slab, path, k));
                        let prev = path[k - 1];
                        let cur = path[k];
                        let n2 = choose|n2: Seq<char>| slab.attached(prev, n2, cur);
                        assert(slab.attached(path[k - 1], n2, c));
                        assert(slab.by_parent.contains_key((path[k - 1], n2)));
                        assert((path[k - 1], n2) == (i, name));
                        assert(path[k - 1] == path[path.len() - 1]);
                    }
                }
            }
            assert forall|k: int| 0 <= k < longer.len() implies slab.has(#[trigger] longer[k]) by {
                if k < path.len() {
                    assert(slab.has(path[k]));
                }
            }
            assert forall|k: int| 0 < k < longer.len()
                implies #[trigger] linked(slab, longer, k) by {
                if k < path.len() {
                    assert(linked(slab, path, k));
                    let prev = path[k - 1];
                    let cur = path[k];
                    let n2 = choose|n2: Seq<char>| slab.attached(prev, n2, cur);
                    assert(slab.attached(longer[k - 1], n2, longer[k]));
                } else {
                    assert(slab.attached(longer[k - 1], name, longer[k]));
                }
            }
            lemma_path_short(slab, longer);
            assert(longer[0] == path[0]);
            lemma_deep_path(slab, hidden, longer);
            assert(longer.last() == c);
        }
    }
}

/// Below an inode without a name there is no cycle: everything modified lies
/// within as many levels as there are inodes.
pub proof fn deep_below_nameless(slab: SlabView, hidden: Set<Seq<char>>, i: InodeId)
    requires
        tidy(slab),
        slab.has(i),
        nameless(slab, i),
    ensures
        deep(slab, hidden, i, slab.inodes.len()),
{
    let path = seq![i];
    assert(path[0] == i);
    lemma_deep_path(slab, hidden, path);
    crate::vfs::snapshot::lemma_deep_more(
        slab,
        hidden,
        i,
        (slab.inodes.len() - 1) as nat,
        slab.inodes.len(),
    );
}

/// No name leads to the root.
pub proof fn root_nameless(slab: SlabView)
    requires
        tidy(slab),
    ensures
        nameless(slab, ROOT_INODE),
{
}

} // verus!
