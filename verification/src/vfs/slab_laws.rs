//! What holds of inodes and of listings.
use vstd::prelude::*;
use crate::git_store::{tree_at, EntryView, Objects};
use crate::ty::Id;
use crate::vfs::inode::{lemma_loaded_keeps, InodeId, InodeView, NodeView, SlabView, ROOT_INODE};
use crate::vfs::kiki_fs::{outside_tree, snapshotted, KikiView};
use crate::vfs::laws::{lemma_tree_stored, no_collision, snapshot_keeps_lookups};
use crate::vfs::model::distinct;
use crate::vfs::name_map::{in_order, in_order_of_finite};
use crate::vfs::snapshot::{cleaned, complete};
use crate::vfs::tree_ops::{
    clean_listing, dirty_listing, entry_index, lemma_entry_index, listed, listing, tree_result,
};
use crate::vfs::types::{DirEntryView, ErrView};

verus! {

/// Interning a name twice gives the same inode and changes nothing more.
pub proof fn interning_is_idempotent(
    slab: SlabView,
    parent: InodeId,
    name: Seq<char>,
    node: NodeView,
    again: NodeView,
)
    ensures
        ({
            let once = slab.interned(parent, name, node);
            &&& once.interned(parent, name, again) == once
            &&& once.interned_id(parent, name) == slab.interned_id(parent, name)
        }),
{
}

/// Ids go up and are not used again: a new inode gets an id that no inode had,
/// and no inode is taken away by interning, opening, attaching, detaching,
/// moving or re-rooting.
pub proof fn ids_are_never_reused(
    slab: SlabView,
    dir: InodeId,
    name: Seq<char>,
    node: NodeView,
    inode: InodeView,
    entries: Seq<(Seq<char>, NodeView)>,
    child: InodeId,
    root_tree: Id,
    id: InodeId,
)
    requires
        slab.has(id),
        slab.has(dir),
        slab.inodes.len() < u64::MAX,
    ensures
        !slab.by_parent.contains_key((dir, name)) ==> !slab.has(slab.interned_id(dir, name))
            && slab.interned(dir, name, node).has(slab.interned_id(dir, name)),
        !slab.has(slab.next_id() as InodeId) && slab.with_inode(inode).has(
            slab.next_id() as InodeId,
        ),
        slab.interned(dir, name, node).has(id),
        slab.with_inode(inode).has(id),
        slab.materialized(dir, entries).has(id),
        slab.with_child(dir, name, child).has(id),
        slab.without_child(dir, name).has(id),
        slab.reparented(id, dir, name).has(id),
        slab.rerooted(root_tree).has(id),
{
    lemma_loaded_keeps(slab, dir, entries, id);
    lemma_loaded_keeps(slab, dir, entries, dir);
}

/// Attaching a child and detaching it again leaves the slab as it was, as long
/// as the name was not known before.
pub proof fn attach_then_detach(slab: SlabView, parent: InodeId, name: Seq<char>, child: InodeId)
    requires
        slab.can_attach(parent, name),
        !slab.by_parent.contains_key((parent, name)),
    ensures
        slab.with_child(parent, name, child).attached(parent, name, child),
        slab.with_child(parent, name, child).without_child(parent, name) == slab,
{
    let children = slab.node(parent)->DirtyTree_0;
    assert(children.insert(name, child).remove(name) =~= children);
    let back = slab.with_child(parent, name, child).without_child(parent, name);
    assert(back.inodes =~= slab.inodes);
    assert(back.by_parent =~= slab.by_parent);
}

/// A name is attached once.
pub proof fn second_attach_is_refused(
    slab: SlabView,
    parent: InodeId,
    name: Seq<char>,
    child: InodeId,
)
    requires
        slab.can_attach(parent, name),
    ensures
        !slab.with_child(parent, name, child).can_attach(parent, name),
{
}

/// Re-rooting replaces the root and forgets the names directly below it; every
/// other inode and every other name stays.
pub proof fn rerooting_keeps_the_rest(
    slab: SlabView,
    root_tree: Id,
    id: InodeId,
    parent: InodeId,
    name: Seq<char>,
)
    requires
        slab.has(ROOT_INODE),
    ensures
        slab.rerooted(root_tree).node(ROOT_INODE) == NodeView::Tree(root_tree),
        !slab.rerooted(root_tree).by_parent.contains_key((ROOT_INODE, name)),
        slab.has(id) && id != ROOT_INODE ==> slab.rerooted(root_tree).at(id) == slab.at(id),
        parent != ROOT_INODE && slab.by_parent.contains_key((parent, name)) ==> slab.rerooted(
            root_tree,
        ).by_parent.contains_key((parent, name)) && slab.rerooted(root_tree).by_parent[(
            parent,
            name,
        )] == slab.by_parent[(parent, name)],
{
}

/// Opening a directory for changes leaves modified inodes alone.
pub proof fn opening_keeps_modified_inodes(
    slab: SlabView,
    dir: InodeId,
    entries: Seq<(Seq<char>, NodeView)>,
    id: InodeId,
)
    requires
        slab.has(id),
        slab.has(dir),
        id != dir,
        slab.node(id).is_dirty(),
    ensures
        slab.materialized(dir, entries).at(id) == slab.at(id),
{
    lemma_loaded_keeps(slab, dir, entries, id);
    lemma_loaded_keeps(slab, dir, entries, dir);
}

/// Bringing in entries leaves the names that are known where they lead.
proof fn lemma_loaded_names(
    slab: SlabView,
    dir: InodeId,
    entries: Seq<(Seq<char>, NodeView)>,
    name: Seq<char>,
)
    requires
        slab.by_parent.contains_key((dir, name)),
    ensures
        slab.loaded(dir, entries).by_parent.contains_key((dir, name)),
        slab.loaded(dir, entries).by_parent[(dir, name)] == slab.by_parent[(dir, name)],
    decreases entries.len(),
{
    if entries.len() > 0 {
        lemma_loaded_names(slab, dir, entries.drop_last(), name);
    }
}

proof fn lemma_known_child(
    slab: SlabView,
    dir: InodeId,
    entries: Seq<(Seq<char>, NodeView)>,
    i: int,
)
    requires
        0 <= i < entries.len(),
        slab.by_parent.contains_key((dir, entries[i].0)),
    ensures
        slab.loaded_children(dir, entries).contains_key(entries[i].0),
        slab.loaded_children(dir, entries)[entries[i].0] == slab.by_parent[(dir, entries[i].0)],
    decreases entries.len(),
{
    let name = entries[i].0;
    lemma_loaded_names(slab, dir, entries.drop_last(), name);
    if i < entries.len() - 1 {
        assert(entries.drop_last()[i] == entries[i]);
        lemma_known_child(slab, dir, entries.drop_last(), i);
    }
}

/// Opening a directory for changes gives an entry that was looked up before the
/// inode that it had.
pub proof fn opening_reuses_known_inodes(
    slab: SlabView,
    dir: InodeId,
    entries: Seq<(Seq<char>, NodeView)>,
    i: int,
)
    requires
        slab.has(dir),
        0 <= i < entries.len(),
        slab.by_parent.contains_key((dir, entries[i].0)),
    ensures
        slab.materialized(dir, entries).attached(
            dir,
            entries[i].0,
            slab.by_parent[(dir, entries[i].0)],
        ),
{
    lemma_known_child(slab, dir, entries, i);
    lemma_loaded_keeps(slab, dir, entries, dir);
}

/// Listing a clean directory only adds inodes.
proof fn lemma_listed_keeps(
    slab: SlabView,
    dir: InodeId,
    entries: Seq<EntryView>,
    hidden: Set<Seq<char>>,
    id: InodeId,
    name: Seq<char>,
)
    ensures
        slab.inodes.len() <= listed(slab, dir, entries, hidden).inodes.len(),
        slab.has(id) ==> listed(slab, dir, entries, hidden).at(id) == slab.at(id),
        slab.by_parent.contains_key((dir, name)) ==> listed(
            slab,
            dir,
            entries,
            hidden,
        ).by_parent.contains_key((dir, name)) && listed(slab, dir, entries, hidden).by_parent[(
            dir,
            name,
        )] == slab.by_parent[(dir, name)],
    decreases entries.len(),
{
    if entries.len() > 0 {
        lemma_listed_keeps(slab, dir, entries.drop_last(), hidden, id, name);
    }
}

/// An entry of the listing of a clean directory is an entry of its tree that is
/// not hidden, with the inode that its name leads to.
proof fn lemma_clean_listing(
    slab: SlabView,
    dir: InodeId,
    entries: Seq<EntryView>,
    hidden: Set<Seq<char>>,
    i: int,
)
    requires
        0 <= i < clean_listing(slab, dir, entries, hidden).len(),
    ensures
        ({
            let e = clean_listing(slab, dir, entries, hidden)[i];
            let after = listed(slab, dir, entries, hidden);
            &&& !hidden.contains(e.name)
            &&& entry_index(entries, e.name) is Some
            &&& after.by_parent.contains_key((dir, e.name))
            &&& after.by_parent[(dir, e.name)] == e.inode
        }),
    decreases entries.len(),
{
    let front = entries.drop_last();
    let before = clean_listing(slab, dir, front, hidden);
    let e = clean_listing(slab, dir, entries, hidden)[i];
    lemma_entry_index(entries, e.name);
    if i < before.len() {
        lemma_clean_listing(slab, dir, front, hidden, i);
        lemma_entry_index(front, e.name);
        assert(before[i] == e);
        let k = entry_index(front, e.name)->0;
        assert(entries[k].name == e.name);
    } else {
        assert(entries[entries.len() - 1].name == e.name);
    }
}

/// An entry of a tree that is not hidden is listed.
proof fn lemma_clean_lists(
    slab: SlabView,
    dir: InodeId,
    entries: Seq<EntryView>,
    hidden: Set<Seq<char>>,
    k: int,
) -> (i: int)
    requires
        0 <= k < entries.len(),
        !hidden.contains(entries[k].name),
    ensures
        0 <= i < clean_listing(slab, dir, entries, hidden).len(),
        clean_listing(slab, dir, entries, hidden)[i].name == entries[k].name,
    decreases entries.len(),
{
    if k == entries.len() - 1 {
        clean_listing(slab, dir, entries, hidden).len() - 1
    } else {
        assert(entries.drop_last()[k] == entries[k]);
        lemma_clean_lists(slab, dir, entries.drop_last(), hidden, k)
    }
}

/// An entry of the listing of a modified directory is a child that is not
/// hidden.
proof fn lemma_dirty_listing(
    slab: SlabView,
    children: Map<Seq<char>, InodeId>,
    names: Seq<Seq<char>>,
    hidden: Set<Seq<char>>,
    i: int,
)
    requires
        dirty_listing(slab, children, names, hidden) is Ok,
        0 <= i < dirty_listing(slab, children, names, hidden)->Ok_0.len(),
    ensures
        ({
            let e = dirty_listing(slab, children, names, hidden)->Ok_0[i];
            &&& !hidden.contains(e.name)
            &&& names.contains(e.name)
            &&& e.inode == children[e.name]
        }),
    decreases names.len(),
{
    let front = names.drop_last();
    let before = dirty_listing(slab, children, front, hidden)->Ok_0;
    let e = dirty_listing(slab, children, names, hidden)->Ok_0[i];
    if i < before.len() {
        lemma_dirty_listing(slab, children, front, hidden, i);
        assert(before[i] == e);
        let k = choose|k: int| 0 <= k < front.len() && front[k] == e.name;
        assert(names[k] == e.name);
    } else {
        assert(names[names.len() - 1] == e.name);
    }
}

/// A child that is not hidden is listed.
proof fn lemma_dirty_lists(
    slab: SlabView,
    children: Map<Seq<char>, InodeId>,
    names: Seq<Seq<char>>,
    hidden: Set<Seq<char>>,
    k: int,
) -> (i: int)
    requires
        dirty_listing(slab, children, names, hidden) is Ok,
        0 <= k < names.len(),
        !hidden.contains(names[k]),
    ensures
        0 <= i < dirty_listing(slab, children, names, hidden)->Ok_0.len(),
        dirty_listing(slab, children, names, hidden)->Ok_0[i].name == names[k],
    decreases names.len(),
{
    if k == names.len() - 1 {
        dirty_listing(slab, children, names, hidden)->Ok_0.len() - 1
    } else {
        assert(names.drop_last()[k] == names[k]);
        lemma_dirty_lists(slab, children, names.drop_last(), hidden, k)
    }
}

/// Every entry of a listing is found under its name, with the inode that the
/// listing gave it.
pub proof fn listed_entry_is_found(v: KikiView, objects: Objects, dir: InodeId, i: int)
    requires
        v.wf(),
        v.readdir(objects, dir).1 is Ok,
        0 <= i < v.readdir(objects, dir).1->Ok_0.len(),
    ensures
        ({
            let (after, r) = v.readdir(objects, dir);
            let e = r->Ok_0[i];
            after.lookup(objects, dir, e.name) == (after, Ok::<InodeId, ErrView>(e.inode))
        }),
{
    let hidden = v.shadowed(dir);
    let (after, r) = v.readdir(objects, dir);
    let (slab, inner) = listing(v.slab, objects, dir, hidden);
    let entries = inner->Ok_0;
    let e = r->Ok_0[i];
    reveal_strlit(".git");
    reveal_strlit(".jj");
    assert(".git"@.len() != ".jj"@.len());
    if i >= entries.len() {
        assert(e == v.pinned_entries(dir)[i - entries.len()]);
    } else {
        assert(e == entries[i]);
        match v.slab.node(dir) {
            NodeView::DirtyTree(children) => {
                lemma_dirty_listing(v.slab, children, in_order(children), hidden, i);
                in_order_of_finite(children);
                assert(in_order(children).to_set().contains(e.name));
            },
            NodeView::Tree(id) => {
                let tree = tree_result(objects, id)->Ok_0;
                lemma_clean_listing(v.slab, dir, tree, hidden, i);
                lemma_listed_keeps(v.slab, dir, tree, hidden, dir, e.name);
            },
            _ => {},
        }
    }
    assert(after.lookup(objects, dir, e.name).0.slab =~= after.slab);
}

/// Every name that is found in a directory is listed.
pub proof fn found_entry_is_listed(v: KikiView, objects: Objects, dir: InodeId, name: Seq<char>)
    requires
        v.wf(),
        v.readdir(objects, dir).1 is Ok,
        v.lookup(objects, dir, name).1 is Ok,
    ensures
        exists|i: int|
            0 <= i < v.readdir(objects, dir).1->Ok_0.len() && (#[trigger] v.readdir(
                objects,
                dir,
            ).1->Ok_0[i]).name == name,
{
    let hidden = v.shadowed(dir);
    let entries = listing(v.slab, objects, dir, hidden).1->Ok_0;
    let all = v.readdir(objects, dir).1->Ok_0;
    let pinned = v.pinned_entries(dir);
    reveal_strlit(".git");
    reveal_strlit(".jj");
    if v.is_git_file(dir, name) {
        assert(all[all.len() - 1].name == name);
    } else if v.is_jj_root(dir, name) && v.jj_subtree is Some {
        assert(all[entries.len() as int].name == name);
    } else {
        assert(!hidden.contains(name));
        match v.slab.node(dir) {
            NodeView::DirtyTree(children) => {
                in_order_of_finite(children);
                let names = in_order(children);
                assert(names.to_set().contains(name));
                let k = choose|k: int| 0 <= k < names.len() && names[k] == name;
                let i = lemma_dirty_lists(v.slab, children, names, hidden, k);
                assert(all[i] == entries[i]);
            },
            NodeView::Tree(id) => {
                let tree = tree_result(objects, id)->Ok_0;
                lemma_entry_index(tree, name);
                let k = entry_index(tree, name)->0;
                let i = lemma_clean_lists(v.slab, dir, tree, hidden, k);
                assert(all[i] == entries[i]);
            },
            _ => {},
        }
    }
}

proof fn lemma_dirty_names(
    slab: SlabView,
    children: Map<Seq<char>, InodeId>,
    names: Seq<Seq<char>>,
    hidden: Set<Seq<char>>,
)
    requires
        names.no_duplicates(),
        dirty_listing(slab, children, names, hidden) is Ok,
    ensures
        names_differ(dirty_listing(slab, children, names, hidden)->Ok_0),
    decreases names.len(),
{
    if names.len() > 0 {
        let front = names.drop_last();
        assert(front.no_duplicates()) by {
            assert forall|a: int, b: int|
                0 <= a < front.len() && 0 <= b < front.len() && a != b implies front[a]
                != front[b] by {
                assert(names[a] != names[b]);
            }
        }
        lemma_dirty_names(slab, children, front, hidden);
        let before = dirty_listing(slab, children, front, hidden)->Ok_0;
        let all = dirty_listing(slab, children, names, hidden)->Ok_0;
        assert forall|a: int, b: int| 0 <= a < b < all.len() implies (#[trigger] all[a]).name != (
        #[trigger] all[b]).name by {
            assert(all[a] == before[a]);
            if b < before.len() {
                assert(all[b] == before[b]);
            } else {
                lemma_dirty_listing(slab, children, front, hidden, a);
                let k = choose|k: int| 0 <= k < front.len() && front[k] == before[a].name;
                assert(names[k] != names[names.len() - 1]);
            }
        }
    }
}

proof fn lemma_clean_names(
    slab: SlabView,
    dir: InodeId,
    entries: Seq<EntryView>,
    hidden: Set<Seq<char>>,
)
    requires
        distinct(entries),
    ensures
        names_differ(clean_listing(slab, dir, entries, hidden)),
    decreases entries.len(),
{
    if entries.len() > 0 {
        let front = entries.drop_last();
        assert(distinct(front)) by {
            assert forall|a: int, b: int|
                0 <= a < front.len() && 0 <= b < front.len() && (#[trigger] front[a]).name == (
                #[trigger] front[b]).name implies a == b by {
                assert(entries[a].name == entries[b].name);
            }
        }
        lemma_clean_names(slab, dir, front, hidden);
        let before = clean_listing(slab, dir, front, hidden);
        let all = clean_listing(slab, dir, entries, hidden);
        assert forall|a: int, b: int| 0 <= a < b < all.len() implies (#[trigger] all[a]).name != (
        #[trigger] all[b]).name by {
            assert(all[a] == before[a]);
            if b < before.len() {
                assert(all[b] == before[b]);
            } else {
                lemma_clean_listing(slab, dir, front, hidden, a);
                lemma_entry_index(front, before[a].name);
                let k = entry_index(front, before[a].name)->0;
                assert(entries[k].name == before[a].name);
                if all[b].name == all[a].name {
                    assert(entries[entries.len() - 1].name == entries[k].name);
                }
            }
        }
    }
}

/// The names of a listing are pairwise distinct.
pub open spec fn names_differ(list: Seq<DirEntryView>) -> bool {
    forall|a: int, b: int|
        0 <= a < b < list.len() ==> (#[trigger] list[a]).name != (#[trigger] list[b]).name
}

/// No name is listed twice, in the root with its pinned entries as elsewhere,
/// as long as the stored tree of the directory holds none twice.
pub proof fn listed_names_differ(v: KikiView, objects: Objects, dir: InodeId)
    requires
        v.wf(),
        v.readdir(objects, dir).1 is Ok,
        v.slab.node(dir) matches NodeView::Tree(id) ==> (tree_result(objects, id) matches Ok(
            entries,
        ) && distinct(entries)),
    ensures
        names_differ(v.readdir(objects, dir).1->Ok_0),
{
    let hidden = v.shadowed(dir);
    let entries = listing(v.slab, objects, dir, hidden).1->Ok_0;
    let pinned = v.pinned_entries(dir);
    let all = v.readdir(objects, dir).1->Ok_0;
    reveal_strlit(".git");
    reveal_strlit(".jj");
    assert(".git"@.len() != ".jj"@.len());
    match v.slab.node(dir) {
        NodeView::DirtyTree(children) => {
            in_order_of_finite(children);
            let names = in_order(children);
            assert(names.no_duplicates()) by {
                assert forall|a: int, b: int|
                    0 <= a < names.len() && 0 <= b < names.len() && a != b implies names[a]
                    != names[b] by {
                    crate::text::name_lt_irreflexive(names[a]);
                    if a < b {
                        assert(crate::text::name_lt(names[a], names[b]));
                    } else {
                        assert(crate::text::name_lt(names[b], names[a]));
                    }
                }
            }
            lemma_dirty_names(v.slab, children, names, hidden);
        },
        NodeView::Tree(id) => {
            lemma_clean_names(v.slab, dir, tree_result(objects, id)->Ok_0, hidden);
        },
        _ => {},
    }
    assert forall|a: int, b: int| 0 <= a < b < all.len() implies (#[trigger] all[a]).name != (
    #[trigger] all[b]).name by {
        if b >= entries.len() {
            assert(all[b] == pinned[b - entries.len()]);
            if a >= entries.len() {
                assert(all[a] == pinned[a - entries.len()]);
            } else {
                assert(all[a] == entries[a]);
                match v.slab.node(dir) {
                    NodeView::DirtyTree(children) => {
                        lemma_dirty_listing(v.slab, children, in_order(children), hidden, a);
                    },
                    NodeView::Tree(id) => {
                        let tree = tree_result(objects, id)->Ok_0;
                        lemma_clean_listing(v.slab, dir, tree, hidden, a);
                    },
                    _ => {},
                }
            }
        } else {
            assert(all[a] == entries[a] && all[b] == entries[b]);
        }
    }
}

/// An entry of a listing.
pub open spec fn lists(list: Seq<DirEntryView>, name: Seq<char>, inode: InodeId) -> bool {
    exists|i: int| 0 <= i < list.len() && (#[trigger] list[i]).name == name && list[i].inode == inode
}

/// A listing shows exactly the names that a lookup finds, with the inodes that it
/// finds.
pub proof fn listing_is_what_is_found(
    v: KikiView,
    objects: Objects,
    dir: InodeId,
    name: Seq<char>,
    inode: InodeId,
)
    requires
        v.wf(),
        v.slab.has(dir),
        v.slab.node(dir) is DirtyTree || forall|n: Seq<char>|
            (#[trigger] v.lookup(objects, dir, n)).1 is Ok ==> v.lookup(objects, dir, n).0 == v,
        v.readdir(objects, dir).1 is Ok,
    ensures
        lists(v.readdir(objects, dir).1->Ok_0, name, inode) <==> v.lookup(objects, dir, name).1
            == Ok::<InodeId, ErrView>(inode),
{
    let (after, r) = v.readdir(objects, dir);
    let all = r->Ok_0;
    if lists(all, name, inode) {
        let i = choose|i: int|
            0 <= i < all.len() && (#[trigger] all[i]).name == name && all[i].inode == inode;
        listed_entry_is_found(v, objects, dir, i);
        lemma_found_before(v, objects, dir, name);
    }
    if v.lookup(objects, dir, name).1 == Ok::<InodeId, ErrView>(inode) {
        found_entry_is_listed(v, objects, dir, name);
        let i = choose|i: int| 0 <= i < all.len() && (#[trigger] all[i]).name == name;
        listed_entry_is_found(v, objects, dir, i);
        lemma_found_before(v, objects, dir, name);
    }
}

/// What is found after a listing was found before, where every entry was known.
proof fn lemma_found_before(v: KikiView, objects: Objects, dir: InodeId, name: Seq<char>)
    requires
        v.wf(),
        v.slab.has(dir),
        v.slab.node(dir) is DirtyTree || forall|n: Seq<char>|
            (#[trigger] v.lookup(objects, dir, n)).1 is Ok ==> v.lookup(objects, dir, n).0 == v,
        v.readdir(objects, dir).1 is Ok,
    ensures
        v.readdir(objects, dir).0.lookup(objects, dir, name).1 == v.lookup(objects, dir, name).1,
{
    if let NodeView::Tree(id) = v.slab.node(dir) {
        let tree = tree_result(objects, id)->Ok_0;
        let hidden = v.shadowed(dir);
        lemma_listed_keeps(v.slab, dir, tree, hidden, dir, name);
        if entry_index(tree, name) is Some && !v.is_git_file(dir, name) && !(v.is_jj_root(dir, name)
            && v.jj_subtree is Some) {
            assert(v.lookup(objects, dir, name).0 == v);
            if !v.slab.by_parent.contains_key((dir, name)) {
                assert(v.slab.interned(dir, name, crate::vfs::tree_ops::entry_node(
                    tree[entry_index(tree, name)->0],
                )).inodes.len() == v.slab.inodes.len() + 1);
            }
        }
    }
}

/// The listing of a directory that is not modified depends on the names that are
/// known.
proof fn lemma_same_clean_listing(
    a: SlabView,
    b: SlabView,
    dir: InodeId,
    entries: Seq<EntryView>,
    hidden: Set<Seq<char>>,
)
    requires
        a.by_parent == b.by_parent,
        a.inodes.len() == b.inodes.len(),
    ensures
        listed(a, dir, entries, hidden).by_parent == listed(b, dir, entries, hidden).by_parent,
        listed(a, dir, entries, hidden).inodes.len() == listed(
            b,
            dir,
            entries,
            hidden,
        ).inodes.len(),
        clean_listing(a, dir, entries, hidden) == clean_listing(b, dir, entries, hidden),
    decreases entries.len(),
{
    if entries.len() > 0 {
        lemma_same_clean_listing(a, b, dir, entries.drop_last(), hidden);
    }
}

/// A modified directory can be listed as long as its entries have inodes.
proof fn lemma_dirty_listing_ok(
    a: SlabView,
    b: SlabView,
    children: Map<Seq<char>, InodeId>,
    names: Seq<Seq<char>>,
    hidden: Set<Seq<char>>,
)
    requires
        a.inodes.len() == b.inodes.len(),
        dirty_listing(a, children, names, hidden) is Ok,
    ensures
        dirty_listing(b, children, names, hidden) is Ok,
    decreases names.len(),
{
    if names.len() > 0 {
        lemma_dirty_listing_ok(a, b, children, names.drop_last(), hidden);
    }
}

/// A snapshot takes nothing out of a listing and puts nothing in: a directory that
/// can be listed lists the same names with the same inodes afterwards, whether the
/// snapshot covered them or left them out.
pub proof fn snapshot_keeps_listings(
    before: KikiView,
    objects: Objects,
    after: KikiView,
    now: Objects,
    id: Id,
    dir: InodeId,
    name: Seq<char>,
    inode: InodeId,
)
    requires
        before.wf(),
        after.wf(),
        snapshotted(before, objects, after, now, Ok(id)),
        no_collision(before.slab, outside_tree(), now),
        before.readdir(objects, dir).1 is Ok,
    ensures
        after.readdir(now, dir).1 is Ok,
        lists(after.readdir(now, dir).1->Ok_0, name, inode) <==> lists(
            before.readdir(objects, dir).1->Ok_0,
            name,
            inode,
        ),
{
    let h = outside_tree();
    match before.slab.node(dir) {
        NodeView::DirtyTree(children) => {
            if after.slab.at(dir) != before.slab.at(dir) {
                let f = choose|f: nat| cleaned(before.slab, h, after.slab, dir, f);
                assert(cleaned(before.slab, h, after.slab, dir, f));
                assert(complete(before.slab, h, after.slab, now, dir, f));
                lemma_tree_stored(before.slab, now, h, dir, f);
            } else {
                lemma_dirty_listing_ok(
                    before.slab,
                    after.slab,
                    children,
                    in_order(children),
                    before.shadowed(dir),
                );
            }
            assert(after.readdir(now, dir).1 is Ok);
            assert forall|n: Seq<char>|
                (#[trigger] after.lookup(now, dir, n)).1 is Ok implies after.lookup(now, dir, n).0
                == after by {
                snapshot_keeps_lookups(before, objects, after, now, id, dir, n);
            }
            snapshot_keeps_lookups(before, objects, after, now, id, dir, name);
            listing_is_what_is_found(before, objects, dir, name, inode);
            listing_is_what_is_found(after, now, dir, name, inode);
        },
        NodeView::Tree(t) => {
            if after.slab.at(dir) != before.slab.at(dir) {
                let f = choose|f: nat| cleaned(before.slab, h, after.slab, dir, f);
                assert(cleaned(before.slab, h, after.slab, dir, f));
            }
            assert(tree_at(now, t) == tree_at(objects, t));
            let entries = tree_result(objects, t)->Ok_0;
            lemma_same_clean_listing(
                before.slab,
                after.slab,
                dir,
                entries,
                before.shadowed(dir),
            );
        },
        _ => {},
    }
}

} // verus!
