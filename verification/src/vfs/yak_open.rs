//! Opening a directory and everything above it for changes, up to the root, so
//! that a snapshot from the root reaches the change.
use vstd::prelude::*;
use crate::git_store::{GitContentStore, Objects};
use crate::vfs::inode::{
    lemma_loaded_keeps, InodeId, InodeSlab, NodeView, SlabView, ROOT_INODE,
};
use crate::vfs::model::lemma_opened_len;
use crate::vfs::snapshot::walk;
use crate::vfs::tidy::{
    keeps, keeps_opened, keeps_refl, keeps_trans, lemma_path_short, placed, tidy,
};
use crate::vfs::tree_ops::{
    entry_index, has_entry, lemma_entry_index, materialize_single_tree, nodes_of, opened,
    tree_result,
};
use crate::vfs::types::{outcome, ErrView, FsError};

verus! {

/// The slab after every directory above `current` was opened for changes, at most
/// `steps` of them.
pub open spec fn opened_to_root(
    slab: SlabView,
    objects: Objects,
    current: InodeId,
    steps: nat,
) -> (SlabView, Result<(), ErrView>)
    decreases steps,
{
    if steps == 0 {
        (slab, Ok(()))
    } else if !slab.has(current) {
        (slab, Err(ErrView::NotFound))
    } else {
        let parent = slab.at(current).parent;
        if parent == current {
            (slab, Ok(()))
        } else {
            let (up, r) = opened(slab, objects, parent);
            match r {
                Err(e) => (up, Err(e)),
                Ok(()) => opened_to_root(up, objects, parent, (steps - 1) as nat),
            }
        }
    }
}

/// The slab after a directory and everything above it was opened for changes.
pub open spec fn opened_upward(slab: SlabView, objects: Objects, dir: InodeId) -> (
    SlabView,
    Result<(), ErrView>,
) {
    let (first, r) = opened(slab, objects, dir);
    match r {
        Err(e) => (first, Err(e)),
        Ok(()) => opened_to_root(first, objects, dir, first.inodes.len()),
    }
}

/// Open a directory and everything above it for changes.
pub(crate) fn open_upward(slab: &mut InodeSlab, store: &GitContentStore, dir: InodeId) -> (r: Result<
    (),
    FsError,
>)
    requires
        tidy(old(slab)@),
    ensures
        (final(slab)@, outcome(r)) == opened_upward(old(slab)@, store@, dir),
        keeps(old(slab)@, final(slab)@),
{
    let ghost before = slab@;
    let r = materialize_single_tree(slab, store, dir);
    let ghost first = slab@;
    proof {
        slab.lemma_ids_fit();
        keeps_opened(before, store@, dir);
    }
    if r.is_err() {
        return r;
    }
    let mut current: InodeId = dir;
    let mut steps: usize = slab.len();
    while steps > 0
        invariant
            keeps(before, slab@),
            before == old(slab)@,
            opened_to_root(slab@, store@, current, steps as nat) == opened_upward(
                before,
                store@,
                dir,
            ),
        decreases steps,
    {
        let parent: InodeId = match slab.inode(current) {
            None => {
                return Err(FsError::NotFound);
            },
            Some(inode) => inode.parent,
        };
        if parent == current {
            return Ok(());
        }
        let ghost mid = slab@;
        let r = materialize_single_tree(slab, store, parent);
        proof {
            slab.lemma_ids_fit();
            keeps_opened(mid, store@, parent);
            keeps_trans(before, mid, slab@);
        }
        if r.is_err() {
            return r;
        }
        current = parent;
        steps = steps - 1;
    }
    Ok(())
}

// ---- what opening leaves as it is --------------------------------------------------

/// Opening a directory leaves modified inodes as they are, and every inode in its
/// place.
proof fn lemma_opened_stays(slab: SlabView, objects: Objects, dir: InodeId, i: InodeId)
    requires
        slab.has(i),
    ensures
        opened(slab, objects, dir).0.has(i),
        opened(slab, objects, dir).0.at(i).ignored == slab.at(i).ignored,
        opened(slab, objects, dir).0.at(i).parent == slab.at(i).parent,
        slab.node(i).is_dirty() ==> opened(slab, objects, dir).0.node(i) == slab.node(i),
{
    if slab.has(dir) {
        if let NodeView::Tree(id) = slab.node(dir) {
            if let Ok(entries) = tree_result(objects, id) {
                lemma_loaded_keeps(slab, dir, nodes_of(entries), i);
                lemma_loaded_keeps(slab, dir, nodes_of(entries), dir);
            }
        }
    }
}

pub proof fn lemma_to_root_stays(
    slab: SlabView,
    objects: Objects,
    current: InodeId,
    steps: nat,
    i: InodeId,
)
    requires
        slab.has(i),
    ensures
        opened_to_root(slab, objects, current, steps).0.has(i),
        opened_to_root(slab, objects, current, steps).0.at(i).ignored == slab.at(i).ignored,
        slab.node(i).is_dirty() ==> opened_to_root(slab, objects, current, steps).0.node(i)
            == slab.node(i),
    decreases steps,
{
    if steps > 0 && slab.has(current) {
        let parent = slab.at(current).parent;
        if parent != current {
            lemma_opened_stays(slab, objects, parent, i);
            lemma_to_root_stays(
                opened(slab, objects, parent).0,
                objects,
                parent,
                (steps - 1) as nat,
                i,
            );
        }
    }
}

/// Opening a directory and everything above it leaves modified inodes as they are.
pub proof fn lemma_upward_stays(slab: SlabView, objects: Objects, dir: InodeId, i: InodeId)
    requires
        slab.has(i),
    ensures
        opened_upward(slab, objects, dir).0.has(i),
        opened_upward(slab, objects, dir).0.at(i).ignored == slab.at(i).ignored,
        slab.node(i).is_dirty() ==> opened_upward(slab, objects, dir).0.node(i) == slab.node(i),
{
    lemma_opened_stays(slab, objects, dir, i);
    let mid = opened(slab, objects, dir).0;
    lemma_to_root_stays(mid, objects, dir, mid.inodes.len(), i);
}

pub proof fn lemma_to_root_len(slab: SlabView, objects: Objects, current: InodeId, steps: nat)
    ensures
        slab.inodes.len() <= opened_to_root(slab, objects, current, steps).0.inodes.len(),
    decreases steps,
{
    if steps > 0 && slab.has(current) {
        let parent = slab.at(current).parent;
        if parent != current {
            lemma_opened_len(slab, objects, parent);
            lemma_to_root_len(opened(slab, objects, parent).0, objects, parent, (steps - 1) as nat);
        }
    }
}

/// Opening a directory and everything above it takes no inode away.
pub proof fn lemma_upward_len(slab: SlabView, objects: Objects, dir: InodeId)
    ensures
        slab.inodes.len() <= opened(slab, objects, dir).0.inodes.len(),
        opened(slab, objects, dir).0.inodes.len() <= opened_upward(slab, objects, dir).0.inodes.len(),
{
    lemma_opened_len(slab, objects, dir);
    let mid = opened(slab, objects, dir).0;
    lemma_to_root_len(mid, objects, dir, mid.inodes.len());
}

proof fn to_root_keeps(slab: SlabView, objects: Objects, current: InodeId, steps: nat)
    requires
        tidy(slab),
        opened_to_root(slab, objects, current, steps).0.inodes.len() <= u64::MAX,
    ensures
        keeps(slab, opened_to_root(slab, objects, current, steps).0),
    decreases steps,
{
    keeps_refl(slab);
    if steps > 0 && slab.has(current) {
        let parent = slab.at(current).parent;
        if parent != current {
            let up = opened(slab, objects, parent).0;
            lemma_to_root_len(up, objects, parent, (steps - 1) as nat);
            keeps_opened(slab, objects, parent);
            if opened(slab, objects, parent).1 is Ok {
                to_root_keeps(up, objects, parent, (steps - 1) as nat);
                keeps_trans(slab, up, opened_to_root(slab, objects, current, steps).0);
            }
        }
    }
}

/// Opening a directory and everything above it keeps the inodes in order, and the
/// directory is open then.
pub proof fn upward_keeps(slab: SlabView, objects: Objects, dir: InodeId)
    requires
        tidy(slab),
        opened_upward(slab, objects, dir).0.inodes.len() <= u64::MAX,
    ensures
        keeps(slab, opened_upward(slab, objects, dir).0),
        opened_upward(slab, objects, dir).1 is Ok ==> opened_upward(slab, objects, dir).0.has(dir)
            && opened_upward(slab, objects, dir).0.node(dir) is DirtyTree,
{
    lemma_upward_len(slab, objects, dir);
    keeps_opened(slab, objects, dir);
    let (mid, r) = opened(slab, objects, dir);
    if r is Ok {
        to_root_keeps(mid, objects, dir, mid.inodes.len());
        keeps_trans(slab, mid, opened_upward(slab, objects, dir).0);
        assert(mid.has(dir) && mid.node(dir) is DirtyTree);
        lemma_to_root_stays(mid, objects, dir, mid.inodes.len(), dir);
    }
}

// ---- paths ---------------------------------------------------------------------------

/// Where a path leads: each name is an entry of its directory and leads to an
/// inode.
pub open spec fn leads(slab: SlabView, objects: Objects, path: Seq<Seq<char>>) -> Option<InodeId>
    decreases path.len(),
{
    if path.len() == 0 {
        Some(ROOT_INODE)
    } else {
        match leads(slab, objects, path.drop_last()) {
            None => None,
            Some(d) => {
                let key = (d, path.last());
                if has_entry(slab, objects, d, path.last()) == Ok::<bool, ErrView>(true)
                    && slab.by_parent.contains_key(key) {
                    Some(slab.by_parent[key])
                } else {
                    None
                }
            },
        }
    }
}

/// Nothing is ignored.
pub open spec fn nothing_ignored(slab: SlabView) -> bool {
    forall|i: InodeId| slab.has(i) ==> !(#[trigger] slab.at(i)).ignored
}

/// Only one path leads to an inode.
pub proof fn one_path(slab: SlabView, objects: Objects, a: Seq<Seq<char>>, b: Seq<Seq<char>>)
    requires
        tidy(slab),
        leads(slab, objects, a) is Some,
        leads(slab, objects, a) == leads(slab, objects, b),
    ensures
        a == b,
    decreases a.len(),
{
    if a.len() > 0 && b.len() > 0 {
        let ka = (leads(slab, objects, a.drop_last())->0, a.last());
        let kb = (leads(slab, objects, b.drop_last())->0, b.last());
        assert(slab.by_parent.contains_key(ka) && slab.by_parent.contains_key(kb));
        assert(ka == kb);
        one_path(slab, objects, a.drop_last(), b.drop_last());
        assert(a =~= a.drop_last().push(a.last()));
        assert(b =~= b.drop_last().push(b.last()));
    } else if a.len() > 0 {
        let ka = (leads(slab, objects, a.drop_last())->0, a.last());
        assert(slab.by_parent.contains_key(ka));
    } else if b.len() > 0 {
        let kb = (leads(slab, objects, b.drop_last())->0, b.last());
        assert(slab.by_parent.contains_key(kb));
    } else {
        assert(a =~= b);
    }
}

pub proof fn lemma_leads_has(slab: SlabView, objects: Objects, path: Seq<Seq<char>>)
    requires
        tidy(slab),
        leads(slab, objects, path) is Some,
    ensures
        slab.has(leads(slab, objects, path)->0),
{
    if path.len() > 0 {
        let key = (leads(slab, objects, path.drop_last())->0, path.last());
        assert(slab.by_parent.contains_key(key));
    }
}

/// The front of a path leads somewhere, too.
pub proof fn lemma_leads_front(slab: SlabView, objects: Objects, path: Seq<Seq<char>>, n: int)
    requires
        0 <= n <= path.len(),
        leads(slab, objects, path) is Some,
    ensures
        leads(slab, objects, path.take(n)) is Some,
    decreases path.len(),
{
    if n == path.len() {
        assert(path.take(n) =~= path);
    } else {
        assert(path.drop_last().take(n) =~= path.take(n));
        lemma_leads_front(slab, objects, path.drop_last(), n);
    }
}

/// A path is shorter than the slab.
proof fn lemma_leads_short(slab: SlabView, objects: Objects, path: Seq<Seq<char>>)
    requires
        tidy(slab),
        leads(slab, objects, path) is Some,
    ensures
        path.len() < slab.inodes.len(),
{
    let ids = Seq::new(path.len() + 1, |n: int| leads(slab, objects, path.take(n))->0);
    assert forall|n: int| 0 <= n < ids.len() implies slab.has(#[trigger] ids[n]) by {
        lemma_leads_front(slab, objects, path, n);
        lemma_leads_has(slab, objects, path.take(n));
    }
    assert forall|a: int, b: int| 0 <= a < b < ids.len() implies ids[a] != ids[b] by {
        lemma_leads_front(slab, objects, path, a);
        lemma_leads_front(slab, objects, path, b);
        if ids[a] == ids[b] {
            one_path(slab, objects, path.take(a), path.take(b));
            assert(path.take(a).len() == a && path.take(b).len() == b);
        }
    }
    assert(ids.no_duplicates());
    lemma_path_short(slab, ids);
}

/// Bringing entries in leaves known names, and every inode that is not among
/// them.
proof fn lemma_loaded_apart(
    slab: SlabView,
    dir: InodeId,
    entries: Seq<(Seq<char>, NodeView)>,
    i: InodeId,
)
    requires
        slab.has(i),
        slab.loaded(dir, entries).inodes.len() <= u64::MAX,
        forall|k: (InodeId, Seq<char>)| #[trigger]
            slab.by_parent.contains_key(k) && k.0 == dir ==> slab.by_parent[k] != i,
    ensures
        slab.loaded(dir, entries).at(i) == slab.at(i),
        forall|k: (InodeId, Seq<char>)| #[trigger]
            slab.loaded(dir, entries).by_parent.contains_key(k) && k.0 == dir ==> slab.loaded(
                dir,
                entries,
            ).by_parent[k] != i,
    decreases entries.len(),
{
    if entries.len() > 0 {
        let before = slab.loaded(dir, entries.drop_last());
        let (name, node) = entries.last();
        lemma_loaded_keeps(slab, dir, entries.drop_last(), i);
        lemma_loaded_keeps(before, dir, seq![(name, node)], i);
        assert(seq![(name, node)].drop_last() =~= Seq::<(Seq<char>, NodeView)>::empty());
        lemma_loaded_apart(slab, dir, entries.drop_last(), i);
    }
}

pub proof fn lemma_loaded_names(slab: SlabView, dir: InodeId, entries: Seq<(Seq<char>, NodeView)>)
    ensures
        forall|k: (InodeId, Seq<char>)| #[trigger]
            slab.by_parent.contains_key(k) ==> slab.loaded(dir, entries).by_parent.contains_key(k)
                && slab.loaded(dir, entries).by_parent[k] == slab.by_parent[k],
        forall|n: int|
            0 <= n < entries.len() ==> slab.loaded_children(dir, entries).contains_key(
                (#[trigger] entries[n]).0,
            ),
    decreases entries.len(),
{
    if entries.len() > 0 {
        lemma_loaded_names(slab, dir, entries.drop_last());
        assert forall|n: int| 0 <= n < entries.len() implies slab.loaded_children(
            dir,
            entries,
        ).contains_key((#[trigger] entries[n]).0) by {
            if n < entries.len() - 1 {
                assert(entries.drop_last()[n] == entries[n]);
            }
        }
    }
}

/// An entry of a directory that leads to an inode does so after the directory was
/// opened.
proof fn lemma_opened_entry(
    slab: SlabView,
    objects: Objects,
    dir: InodeId,
    name: Seq<char>,
)
    requires
        tidy(slab),
        opened(slab, objects, dir).1 is Ok,
        opened(slab, objects, dir).0.inodes.len() <= u64::MAX,
        has_entry(slab, objects, dir, name) == Ok::<bool, ErrView>(true),
        slab.by_parent.contains_key((dir, name)),
    ensures
        opened(slab, objects, dir).0.attached(dir, name, slab.by_parent[(dir, name)]),
{
    let up = opened(slab, objects, dir).0;
    keeps_opened(slab, objects, dir);
    if let NodeView::Tree(id) = slab.node(dir) {
        let entries = tree_result(objects, id)->Ok_0;
        let nodes = nodes_of(entries);
        lemma_entry_index(entries, name);
        lemma_loaded_names(slab, dir, nodes);
        lemma_loaded_keeps(slab, dir, nodes, dir);
        let n = entry_index(entries, name)->0;
        assert(nodes[n].0 == name);
        assert(up.node(dir) == NodeView::DirtyTree(slab.loaded_children(dir, nodes)));
    }
    let child = up.node(dir)->DirtyTree_0[name];
    assert(up.attached(dir, name, child));
}

/// A path to a directory leads there after the directory was opened, and so do
/// the paths above it.
proof fn lemma_leads_opened(
    slab: SlabView,
    objects: Objects,
    path: Seq<Seq<char>>,
    n: int,
)
    requires
        tidy(slab),
        leads(slab, objects, path) is Some,
        opened(slab, objects, leads(slab, objects, path)->0).1 is Ok,
        opened(slab, objects, leads(slab, objects, path)->0).0.inodes.len() <= u64::MAX,
        0 <= n <= path.len(),
    ensures
        leads(opened(slab, objects, leads(slab, objects, path)->0).0, objects, path.take(n))
            == leads(slab, objects, path.take(n)),
    decreases n,
{
    let dir = leads(slab, objects, path)->0;
    let up = opened(slab, objects, dir).0;
    if n > 0 {
        let front = path.take(n - 1);
        assert(path.take(n).drop_last() =~= front);
        assert(path.take(n).last() == path[n - 1]);
        lemma_leads_opened(slab, objects, path, n - 1);
        lemma_leads_front(slab, objects, path, n - 1);
        lemma_leads_front(slab, objects, path, n);
        let d = leads(slab, objects, front)->0;
        lemma_leads_has(slab, objects, front);
        if d == dir {
            one_path(slab, objects, front, path);
            assert(front.len() == path.len());
        }
        if let NodeView::Tree(id) = slab.node(dir) {
            let entries = tree_result(objects, id)->Ok_0;
            let nodes = nodes_of(entries);
            lemma_loaded_names(slab, dir, nodes);
            assert forall|k: (InodeId, Seq<char>)| #[trigger]
                slab.by_parent.contains_key(k) && k.0 == dir implies slab.by_parent[k] != d by {
                if slab.by_parent[k] == d {
                    if n - 1 > 0 {
                        let above = front.drop_last();
                        let key = (leads(slab, objects, above)->0, front.last());
                        assert(slab.by_parent.contains_key(key));
                        assert(key == k);
                        one_path(slab, objects, above, path);
                        assert(above.len() == path.len());
                    }
                }
            }
            lemma_loaded_keeps(slab, dir, nodes, d);
            lemma_loaded_keeps(slab, dir, nodes, dir);
            lemma_loaded_apart(slab, dir, nodes, d);
            assert(up.at(d) == slab.at(d));
            assert(up.has(d));
            assert(up.by_parent.contains_key((d, path[n - 1])));
        }
    }
}

/// A walk goes on by a name.
pub proof fn lemma_walk_push(
    slab: SlabView,
    hidden: Set<Seq<char>>,
    i: InodeId,
    path: Seq<Seq<char>>,
    name: Seq<char>,
)
    ensures
        walk(slab, hidden, i, path.push(name)) == match walk(slab, hidden, i, path) {
            Some(d) => walk(slab, hidden, d, seq![name]),
            None => None,
        },
    decreases path.len(),
{
    let longer = path.push(name);
    if path.len() == 0 {
        assert(longer =~= seq![name]);
    } else {
        assert(longer[0] == path[0]);
        assert(longer.drop_first() =~= path.drop_first().push(name));
        if let NodeView::DirtyTree(children) = slab.node(i) {
            lemma_walk_push(slab, hidden, children[path[0]], path.drop_first(), name);
        }
    }
}

/// Once everything above a modified inode is open, a walk from the root reaches it
/// by its path.
pub proof fn lemma_opened_is_reached(
    slab: SlabView,
    objects: Objects,
    path: Seq<Seq<char>>,
    steps: nat,
)
    requires
        tidy(slab),
        placed(slab),
        nothing_ignored(slab),
        leads(slab, objects, path) is Some,
        slab.node(leads(slab, objects, path)->0).is_dirty(),
        steps >= path.len(),
        opened_to_root(slab, objects, leads(slab, objects, path)->0, steps).1 is Ok,
        opened_to_root(slab, objects, leads(slab, objects, path)->0, steps).0.inodes.len()
            <= u64::MAX,
    ensures
        walk(
            opened_to_root(slab, objects, leads(slab, objects, path)->0, steps).0,
            Set::empty(),
            ROOT_INODE,
            path,
        ) == leads(slab, objects, path),
    decreases path.len(),
{
    let i = leads(slab, objects, path)->0;
    let after = opened_to_root(slab, objects, i, steps).0;
    lemma_leads_has(slab, objects, path);
    if path.len() > 0 {
        let front = path.drop_last();
        let name = path.last();
        let d = leads(slab, objects, front)->0;
        assert(slab.by_parent.contains_key((d, name)));
        assert(slab.at(i).parent == d);
        lemma_leads_has(slab, objects, front);
        if d == i {
            one_path(slab, objects, front, path);
            assert(front.len() == path.len());
        }
        let up = opened(slab, objects, d).0;
        assert(opened(slab, objects, d).1 is Ok);
        lemma_to_root_len(up, objects, d, (steps - 1) as nat);
        keeps_opened(slab, objects, d);
        lemma_opened_entry(slab, objects, d, name);
        lemma_leads_opened(slab, objects, front, front.len() as int);
        assert(front.take(front.len() as int) =~= front);
        lemma_opened_ignored(slab, objects, d);
        lemma_opened_is_reached(up, objects, front, (steps - 1) as nat);
        lemma_to_root_stays(up, objects, d, (steps - 1) as nat, d);
        lemma_opened_stays(slab, objects, d, i);
        lemma_to_root_stays(up, objects, d, (steps - 1) as nat, i);
        lemma_walk_push(after, Set::empty(), ROOT_INODE, front, name);
        assert(path =~= front.push(name));
        let one = seq![name];
        assert(one[0] == name);
        assert(walk(after, Set::empty(), i, one.drop_first()) == Some(i));
        assert(walk(after, Set::empty(), d, one) == Some(i));
    }
}

proof fn lemma_loaded_ignored(slab: SlabView, dir: InodeId, entries: Seq<(Seq<char>, NodeView)>)
    requires
        nothing_ignored(slab),
        slab.loaded(dir, entries).inodes.len() <= u64::MAX,
    ensures
        nothing_ignored(slab.loaded(dir, entries)),
    decreases entries.len(),
{
    if entries.len() > 0 {
        let before = slab.loaded(dir, entries.drop_last());
        let after = slab.loaded(dir, entries);
        let (name, node) = entries.last();
        assert(before.inodes.len() <= after.inodes.len());
        lemma_loaded_ignored(slab, dir, entries.drop_last());
        assert forall|i: InodeId| after.has(i) implies !(#[trigger] after.at(i)).ignored by {
            if before.has(i) {
                assert(!before.at(i).ignored);
            }
        }
    }
}

/// Opening a directory makes nothing ignored.
pub proof fn lemma_opened_ignored(slab: SlabView, objects: Objects, dir: InodeId)
    requires
        nothing_ignored(slab),
        opened(slab, objects, dir).0.inodes.len() <= u64::MAX,
    ensures
        nothing_ignored(opened(slab, objects, dir).0),
{
    if slab.has(dir) {
        if let NodeView::Tree(id) = slab.node(dir) {
            if let Ok(entries) = tree_result(objects, id) {
                let nodes = nodes_of(entries);
                lemma_loaded_keeps(slab, dir, nodes, dir);
                lemma_loaded_ignored(slab, dir, nodes);
                let mid = slab.loaded(dir, nodes);
                let after = opened(slab, objects, dir).0;
                assert forall|i: InodeId| after.has(i) implies !(#[trigger] after.at(i)).ignored by {
                    assert(!mid.at(i).ignored);
                }
            }
        }
    }
}

proof fn lemma_to_root_ignored(slab: SlabView, objects: Objects, current: InodeId, steps: nat)
    requires
        nothing_ignored(slab),
        opened_to_root(slab, objects, current, steps).0.inodes.len() <= u64::MAX,
    ensures
        nothing_ignored(opened_to_root(slab, objects, current, steps).0),
    decreases steps,
{
    if steps > 0 && slab.has(current) {
        let parent = slab.at(current).parent;
        if parent != current {
            let up = opened(slab, objects, parent).0;
            lemma_to_root_len(up, objects, parent, (steps - 1) as nat);
            lemma_opened_ignored(slab, objects, parent);
            if opened(slab, objects, parent).1 is Ok {
                lemma_to_root_ignored(up, objects, parent, (steps - 1) as nat);
            }
        }
    }
}

/// Opening a directory and everything above it makes nothing ignored.
pub proof fn lemma_upward_ignored(slab: SlabView, objects: Objects, dir: InodeId)
    requires
        nothing_ignored(slab),
        opened_upward(slab, objects, dir).0.inodes.len() <= u64::MAX,
    ensures
        nothing_ignored(opened_upward(slab, objects, dir).0),
{
    lemma_upward_len(slab, objects, dir);
    lemma_opened_ignored(slab, objects, dir);
    let mid = opened(slab, objects, dir).0;
    if opened(slab, objects, dir).1 is Ok {
        lemma_to_root_ignored(mid, objects, dir, mid.inodes.len());
    }
}

/// A directory that was opened with everything above it is reached by a walk from
/// the root along its path.
pub proof fn lemma_upward_is_reached(slab: SlabView, objects: Objects, path: Seq<Seq<char>>)
    requires
        tidy(slab),
        placed(slab),
        nothing_ignored(slab),
        leads(slab, objects, path) is Some,
        opened_upward(slab, objects, leads(slab, objects, path)->0).1 is Ok,
        opened_upward(slab, objects, leads(slab, objects, path)->0).0.inodes.len() <= u64::MAX,
    ensures
        walk(
            opened_upward(slab, objects, leads(slab, objects, path)->0).0,
            Set::empty(),
            ROOT_INODE,
            path,
        ) == leads(slab, objects, path),
{
    let dir = leads(slab, objects, path)->0;
    lemma_upward_len(slab, objects, dir);
    keeps_opened(slab, objects, dir);
    lemma_opened_ignored(slab, objects, dir);
    let mid = opened(slab, objects, dir).0;
    lemma_leads_opened(slab, objects, path, path.len() as int);
    assert(path.take(path.len() as int) =~= path);
    lemma_leads_short(mid, objects, path);
    lemma_opened_is_reached(mid, objects, path, mid.inodes.len());
}

/// A modified inode is reached by a walk from the root along its path once its
/// directory was opened with everything above it.
pub proof fn lemma_child_is_reached(slab: SlabView, objects: Objects, path: Seq<Seq<char>>)
    requires
        tidy(slab),
        placed(slab),
        nothing_ignored(slab),
        path.len() > 0,
        leads(slab, objects, path) is Some,
        slab.node(leads(slab, objects, path)->0).is_dirty(),
        ({
            let i = leads(slab, objects, path)->0;
            let (after, r) = opened_upward(slab, objects, slab.at(i).parent);
            r is Ok && after.inodes.len() <= u64::MAX
        }),
    ensures
        ({
            let i = leads(slab, objects, path)->0;
            let after = opened_upward(slab, objects, slab.at(i).parent).0;
            walk(after, Set::empty(), ROOT_INODE, path) == Some(i)
        }),
{
    let i = leads(slab, objects, path)->0;
    lemma_leads_has(slab, objects, path);
    let front = path.drop_last();
    let d = leads(slab, objects, front)->0;
    assert(slab.by_parent.contains_key((d, path.last())));
    assert(slab.at(i).parent == d);
    if d == i {
        one_path(slab, objects, front, path);
        assert(front.len() == path.len());
    }
    let up = opened(slab, objects, d).0;
    lemma_leads_short(slab, objects, path);
    lemma_upward_len(slab, objects, d);
    assert(opened_to_root(slab, objects, i, up.inodes.len() + 1) == opened_upward(slab, objects, d));
    lemma_opened_is_reached(slab, objects, path, up.inodes.len() + 1);
}

} // verus!
