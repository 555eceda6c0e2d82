//! What a working copy promises as a whole.
use vstd::prelude::*;
use vstd::utf8::{encode_utf8_decode_utf8, encode_utf8_valid_utf8};
use crate::git_store::{
    file_at, lemma_names_fit_ordered, link_at, parse_encoded_tree, read_order, read_order_contains,
    tree_at, tree_order, EntryView, Objects, StoreFault, EMPTY_TREE,
};
use crate::ty::Id;
use crate::text::joined;
use crate::vfs::inode::{lemma_loaded_keeps, InodeId, InodeView, NodeView, SlabView, ROOT_INODE};
use crate::vfs::kiki_fs::{opened_above, outside_tree, reached, snapshotted, KikiView};
use crate::vfs::model::{lemma_above_len, lemma_dirtied_len, opened_to_move};
use crate::vfs::name_map::{ascending, in_order, in_order_of_finite};
use crate::vfs::snapshot::{
    clean_node, cleaned, complete, content_entries, content_id, content_object, deep, entry_kind_of,
    finished, grown, lemma_complete_below, lemma_deep_more, partly_covered, settled, skipped, walk,
};
use crate::vfs::tidy::{
    deep_below_nameless, keeps, keeps_opened, keeps_refl, keeps_trans, root_nameless, tidy,
};
use crate::vfs::tree_ops::{
    attr_result, entry_index, entry_node, file_opened, file_written, lemma_entry_index, moved,
    nodes_of, opened, range_of, read_result, removed, spliced, tree_result,
};
use crate::vfs::types::{Attr, ErrView};

verus! {

/// What stands at a path.
pub enum Found {
    Nothing,
    Dir,
    File { content: Seq<u8>, executable: bool },
    Link(Seq<char>),
    /// The store does not give back what should be there.
    Unreadable,
}

/// What a node is.
pub open spec fn found_at(objects: Objects, node: NodeView) -> Found {
    match node {
        NodeView::Tree(_) => Found::Dir,
        NodeView::DirtyTree(_) => Found::Dir,
        NodeView::DirtyFile { content, executable } => Found::File { content, executable },
        NodeView::DirtySymlink(target) => Found::Link(target),
        NodeView::File { id, executable } => match file_at(objects, id) {
            Ok(Some(content)) => Found::File { content, executable },
            _ => Found::Unreadable,
        },
        NodeView::Symlink(id) => match link_at(objects, id) {
            Ok(Some(target)) => Found::Link(target),
            _ => Found::Unreadable,
        },
    }
}

/// What stands at a path below a stored node.
pub open spec fn stored(objects: Objects, node: NodeView, path: Seq<Seq<char>>) -> Found
    decreases path.len(),
{
    if path.len() == 0 {
        found_at(objects, node)
    } else {
        match node {
            NodeView::Tree(id) => match tree_at(objects, id) {
                Ok(Some(entries)) => match entry_index(entries, path[0]) {
                    Some(k) => stored(objects, entry_node(entries[k]), path.drop_first()),
                    None => Found::Nothing,
                },
                _ => Found::Unreadable,
            },
            _ => Found::Nothing,
        }
    }
}

/// What stands at a path below the inode `i`, as far as a snapshot covers it.
pub open spec fn seen(
    slab: SlabView,
    objects: Objects,
    hidden: Set<Seq<char>>,
    i: InodeId,
    path: Seq<Seq<char>>,
) -> Found
    decreases path.len(),
{
    match slab.node(i) {
        NodeView::DirtyTree(children) => if path.len() == 0 {
            Found::Dir
        } else if children.contains_key(path[0]) && !skipped(
            slab,
            hidden,
            i,
            path[0],
            children[path[0]],
        ) {
            seen(slab, objects, hidden, children[path[0]], path.drop_first())
        } else {
            Found::Nothing
        },
        node => stored(objects, node, path),
    }
}

/// No two objects share an id, as far as the modified inodes of a slab and the
/// objects of a store go.
pub open spec fn no_collision(slab: SlabView, hidden: Set<Seq<char>>, objects: Objects) -> bool {
    forall|i: InodeId, fuel: nat|
        slab.has(i) && slab.node(i).is_dirty() && #[trigger] deep(slab, hidden, i, fuel) ==> (
        content_id(slab, hidden, i, fuel) matches Ok(id) ==> {
            &&& objects.contains_key(id) ==> objects[id] == content_object(slab, hidden, i, fuel)
            &&& id == Id(EMPTY_TREE) ==> content_object(slab, hidden, i, fuel).data == Seq::<
                u8,
            >::empty()
        })
}

/// The entries that a directory is stored with: one for each child that a
/// snapshot covers, under its name.
pub proof fn lemma_entries(
    slab: SlabView,
    hidden: Set<Seq<char>>,
    i: InodeId,
    children: Map<Seq<char>, InodeId>,
    names: Seq<Seq<char>>,
    fuel: nat,
)
    requires
        ascending(names),
        content_entries(slab, hidden, i, children, names, fuel) is Ok,
    ensures
        ({
            let entries = content_entries(slab, hidden, i, children, names, fuel)->Ok_0;
            &&& forall|k: int| #![trigger entries[k]]
                0 <= k < entries.len() ==> {
                    let e = entries[k];
                    &&& names.contains(e.name)
                    &&& !skipped(slab, hidden, i, e.name, children[e.name])
                    &&& fuel > 0
                    &&& content_id(slab, hidden, children[e.name], (fuel - 1) as nat) == Ok::<
                        Id,
                        StoreFault,
                    >(e.id)
                    &&& e.kind == entry_kind_of(slab.node(children[e.name]))
                }
            &&& forall|n: Seq<char>|
                names.contains(n) && !skipped(slab, hidden, i, n, children[n]) ==> exists|k: int|
                    0 <= k < entries.len() && (#[trigger] entries[k]).name == n
        }),
    decreases names.len(),
{
    if names.len() > 0 {
        let front = names.drop_last();
        let name = names.last();
        assert(ascending(front)) by {
            assert forall|a: int, b: int| 0 <= a < b < front.len() implies crate::text::name_lt(
                #[trigger] front[a],
                #[trigger] front[b],
            ) by {
                assert(names[a] == front[a] && names[b] == front[b]);
            }
        }
        lemma_entries(slab, hidden, i, children, front, fuel);
        let before = content_entries(slab, hidden, i, children, front, fuel)->Ok_0;
        let entries = content_entries(slab, hidden, i, children, names, fuel)->Ok_0;
        assert forall|k: int| #![trigger entries[k]] 0 <= k < entries.len() implies {
            let e = entries[k];
            &&& names.contains(e.name)
            &&& !skipped(slab, hidden, i, e.name, children[e.name])
            &&& fuel > 0
            &&& content_id(slab, hidden, children[e.name], (fuel - 1) as nat) == Ok::<
                Id,
                StoreFault,
            >(e.id)
            &&& e.kind == entry_kind_of(slab.node(children[e.name]))
        } by {
            if k < before.len() {
                assert(entries[k] == before[k]);
                let m = choose|m: int| 0 <= m < front.len() && front[m] == before[k].name;
                assert(names[m] == before[k].name);
            } else {
                assert(names[names.len() - 1] == name);
            }
        }
        assert forall|n: Seq<char>| names.contains(n) && !skipped(
            slab,
            hidden,
            i,
            n,
            children[n],
        ) implies exists|k: int| 0 <= k < entries.len() && (#[trigger] entries[k]).name == n by {
            if n == name {
                assert(entries[entries.len() - 1].name == n);
            } else {
                let m = choose|m: int| 0 <= m < names.len() && names[m] == n;
                assert(front[m] == n);
                assert(front.contains(n));
                let k = choose|k: int| 0 <= k < before.len() && (#[trigger] before[k]).name == n;
                assert(entries[k] == before[k]);
            }
        }
    }
}

/// The tree of a directory leads from each covered name to the child's content.
pub proof fn lemma_tree_leads(
    slab: SlabView,
    hidden: Set<Seq<char>>,
    i: InodeId,
    fuel: nat,
    name: Seq<char>,
)
    requires
        deep(slab, hidden, i, fuel),
        slab.node(i) is DirtyTree,
        content_id(slab, hidden, i, fuel) is Ok,
    ensures
        ({
            let children = slab.node(i)->DirtyTree_0;
            let entries = content_entries(
                slab,
                hidden,
                i,
                children,
                in_order(children),
                fuel,
            )->Ok_0;
            let ordered = read_order(entries);
            match entry_index(ordered, name) {
                None => !children.contains_key(name) || skipped(
                    slab,
                    hidden,
                    i,
                    name,
                    children[name],
                ),
                Some(k) => {
                    &&& children.contains_key(name)
                    &&& !skipped(slab, hidden, i, name, children[name])
                    &&& fuel > 0
                    &&& deep(slab, hidden, children[name], (fuel - 1) as nat)
                    &&& content_id(slab, hidden, children[name], (fuel - 1) as nat) matches Ok(
                        id,
                    ) && entry_node(ordered[k]) == clean_node(slab.node(children[name]), id)
                },
            }
        }),
{
    let children = slab.node(i)->DirtyTree_0;
    in_order_of_finite(children);
    let names = in_order(children);
    let entries = content_entries(slab, hidden, i, children, names, fuel)->Ok_0;
    let ordered = read_order(entries);
    lemma_entries(slab, hidden, i, children, names, fuel);
    lemma_entry_index(ordered, name);
    assert forall|n: Seq<char>| names.contains(n) == children.contains_key(n) by {
        assert(names.to_set().contains(n) == children.dom().contains(n));
    }
    match entry_index(ordered, name) {
        None => {
            if children.contains_key(name) && !skipped(slab, hidden, i, name, children[name]) {
                let k = choose|k: int| 0 <= k < entries.len() && (#[trigger] entries[k]).name == name;
                let e = entries[k];
                assert(entries.contains(e));
                read_order_contains(entries, e);
                let j = choose|j: int| 0 <= j < ordered.len() && ordered[j] == e;
                assert(ordered[j].name == name);
            }
        },
        Some(k) => {
            let e = ordered[k];
            assert(ordered.contains(e));
            read_order_contains(entries, e);
            let j = choose|j: int| 0 <= j < entries.len() && entries[j] == e;
            assert(entries[j] == e);
            assert(children.contains_key(name));
        },
    }
}

/// A directory whose content the store holds was stored as the tree of its covered
/// children.
pub proof fn lemma_tree_stored(
    base: SlabView,
    objects: Objects,
    hidden: Set<Seq<char>>,
    i: InodeId,
    fuel: nat,
)
    requires
        no_collision(base, hidden, objects),
        deep(base, hidden, i, fuel),
        base.node(i) is DirtyTree,
        content_id(base, hidden, i, fuel) is Ok,
        objects.contains_key(content_id(base, hidden, i, fuel)->Ok_0),
    ensures
        ({
            let children = base.node(i)->DirtyTree_0;
            let entries = content_entries(
                base,
                hidden,
                i,
                children,
                in_order(children),
                fuel,
            )->Ok_0;
            tree_at(objects, content_id(base, hidden, i, fuel)->Ok_0) == Ok::<
                Option<Seq<EntryView>>,
                StoreFault,
            >(Some(read_order(entries)))
        }),
{
    let id = content_id(base, hidden, i, fuel)->Ok_0;
    assert(objects[id] == content_object(base, hidden, i, fuel));
    let children = base.node(i)->DirtyTree_0;
    let entries = content_entries(base, hidden, i, children, in_order(children), fuel)->Ok_0;
    lemma_names_fit_ordered(entries);
    parse_encoded_tree(tree_order(entries));
    if id == Id(EMPTY_TREE) {
        lemma_empty_tree(tree_order(entries));
    }
}

/// What an inode was stored as is what it held.
pub proof fn lemma_stored(
    base: SlabView,
    slab: SlabView,
    objects: Objects,
    hidden: Set<Seq<char>>,
    i: InodeId,
    fuel: nat,
    path: Seq<Seq<char>>,
)
    requires
        no_collision(base, hidden, objects),
        deep(base, hidden, i, fuel),
        complete(base, hidden, slab, objects, i, fuel),
    ensures
        content_id(base, hidden, i, fuel) matches Ok(id) && stored(
            objects,
            clean_node(base.node(i), id),
            path,
        ) == seen(base, objects, hidden, i, path),
    decreases path.len(),
{
    let node = base.node(i);
    if node.is_dirty() {
        let id = content_id(base, hidden, i, fuel)->Ok_0;
        assert(objects.contains_key(id));
        let o = content_object(base, hidden, i, fuel);
        assert(objects[id] == o);
        match node {
            NodeView::DirtySymlink(target) => {
                encode_utf8_valid_utf8(target);
                encode_utf8_decode_utf8(target);
            },
            NodeView::DirtyTree(children) => {
                if path.len() > 0 {
                    let entries = content_entries(
                        base,
                        hidden,
                        i,
                        children,
                        in_order(children),
                        fuel,
                    )->Ok_0;
                    let name = path[0];
                    lemma_tree_leads(base, hidden, i, fuel, name);
                    lemma_tree_stored(base, objects, hidden, i, fuel);
                    if let Some(k) = entry_index(read_order(entries), name) {
                        let child = children[name];
                        lemma_complete_below(base, hidden, slab, objects, i, fuel, name);
                        lemma_stored(
                            base,
                            slab,
                            objects,
                            hidden,
                            child,
                            (fuel - 1) as nat,
                            path.drop_first(),
                        );
                    }
                }
            },
            _ => {},
        }
    }
}

/// After a snapshot there is at every path below an inode what was there before.
pub proof fn lemma_seen_after(
    base: SlabView,
    slab: SlabView,
    objects: Objects,
    hidden: Set<Seq<char>>,
    i: InodeId,
    fuel: nat,
    path: Seq<Seq<char>>,
)
    requires
        settled(base, hidden, slab),
        finished(base, hidden, slab, objects),
        no_collision(base, hidden, objects),
        deep(base, hidden, i, fuel),
    ensures
        seen(slab, objects, hidden, i, path) == seen(base, objects, hidden, i, path),
    decreases path.len(),
{
    if slab.at(i) != base.at(i) {
        let f = choose|f: nat| cleaned(base, hidden, slab, i, f);
        assert(cleaned(base, hidden, slab, i, f));
        lemma_stored(base, slab, objects, hidden, i, f, path);
    } else if let NodeView::DirtyTree(children) = base.node(i) {
        if path.len() > 0 && children.contains_key(path[0]) {
            let c = children[path[0]];
            if slab.at(c) != base.at(c) {
                let f = choose|f: nat| cleaned(base, hidden, slab, c, f);
                assert(cleaned(base, hidden, slab, c, f));
            }
            if !skipped(base, hidden, i, path[0], c) {
                lemma_seen_after(
                    base,
                    slab,
                    objects,
                    hidden,
                    c,
                    (fuel - 1) as nat,
                    path.drop_first(),
                );
            }
        }
    }
}

/// After a snapshot an inode has the content that it had, and a snapshot covers as
/// much of it.
pub proof fn lemma_content_after(
    base: SlabView,
    slab: SlabView,
    hidden: Set<Seq<char>>,
    i: InodeId,
    fuel: nat,
)
    requires
        settled(base, hidden, slab),
        deep(base, hidden, i, fuel),
    ensures
        deep(slab, hidden, i, fuel),
        content_id(slab, hidden, i, fuel) == content_id(base, hidden, i, fuel),
        partly_covered(slab, hidden, i, fuel) == partly_covered(base, hidden, i, fuel),
    decreases fuel,
{
    if slab.at(i) != base.at(i) {
        let f = choose|f: nat| cleaned(base, hidden, slab, i, f);
        assert(cleaned(base, hidden, slab, i, f));
        if f <= fuel {
            lemma_deep_more(base, hidden, i, f, fuel);
        } else {
            lemma_deep_more(base, hidden, i, fuel, f);
        }
    } else if let NodeView::DirtyTree(children) = base.node(i) {
        assert forall|name: Seq<char>| #[trigger] children.contains_key(name) implies slab.has(
            children[name],
        ) && skipped(slab, hidden, i, name, children[name]) == skipped(
            base,
            hidden,
            i,
            name,
            children[name],
        ) && entry_kind_of(slab.node(children[name])) == entry_kind_of(base.node(children[name]))
            && (!skipped(base, hidden, i, name, children[name]) ==> fuel > 0 && deep(
            slab,
            hidden,
            children[name],
            (fuel - 1) as nat,
        ) && content_id(slab, hidden, children[name], (fuel - 1) as nat) == content_id(
            base,
            hidden,
            children[name],
            (fuel - 1) as nat,
        ) && partly_covered(slab, hidden, children[name], (fuel - 1) as nat) == partly_covered(
            base,
            hidden,
            children[name],
            (fuel - 1) as nat,
        )) by {
            let c = children[name];
            if slab.at(c) != base.at(c) {
                let f = choose|f: nat| cleaned(base, hidden, slab, c, f);
                assert(cleaned(base, hidden, slab, c, f));
            }
            if !skipped(base, hidden, i, name, c) {
                lemma_content_after(base, slab, hidden, c, (fuel - 1) as nat);
            }
        }
        in_order_of_finite(children);
        lemma_entries_after(base, slab, hidden, i, children, in_order(children), fuel);
        if partly_covered(base, hidden, i, fuel) {
            let name = choose|name: Seq<char>| #[trigger]
                children.contains_key(name) && (skipped(base, hidden, i, name, children[name]) || (
                fuel > 0 && partly_covered(base, hidden, children[name], (fuel - 1) as nat)));
            assert(children.contains_key(name));
        }
        if partly_covered(slab, hidden, i, fuel) {
            let name = choose|name: Seq<char>| #[trigger]
                children.contains_key(name) && (skipped(slab, hidden, i, name, children[name]) || (
                fuel > 0 && partly_covered(slab, hidden, children[name], (fuel - 1) as nat)));
            assert(children.contains_key(name));
        }
    }
}

proof fn lemma_entries_after(
    base: SlabView,
    slab: SlabView,
    hidden: Set<Seq<char>>,
    i: InodeId,
    children: Map<Seq<char>, InodeId>,
    names: Seq<Seq<char>>,
    fuel: nat,
)
    requires
        forall|k: int| 0 <= k < names.len() ==> children.contains_key(#[trigger] names[k]),
        forall|name: Seq<char>| #[trigger]
            children.contains_key(name) ==> skipped(slab, hidden, i, name, children[name])
                == skipped(base, hidden, i, name, children[name]) && entry_kind_of(
                slab.node(children[name]),
            ) == entry_kind_of(base.node(children[name])) && (!skipped(
                base,
                hidden,
                i,
                name,
                children[name],
            ) ==> content_id(slab, hidden, children[name], (fuel - 1) as nat) == content_id(
                base,
                hidden,
                children[name],
                (fuel - 1) as nat,
            )),
    ensures
        content_entries(slab, hidden, i, children, names, fuel) == content_entries(
            base,
            hidden,
            i,
            children,
            names,
            fuel,
        ),
    decreases names.len(),
{
    if names.len() > 0 {
        let front = names.drop_last();
        assert forall|k: int| 0 <= k < front.len()
            implies children.contains_key(#[trigger] front[k]) by {
            assert(front[k] == names[k]);
        }
        lemma_entries_after(base, slab, hidden, i, children, front, fuel);
        assert(children.contains_key(names[names.len() - 1]));
    }
}

/// Only the empty tree is stored as no bytes.
proof fn lemma_empty_tree(entries: Seq<EntryView>)
    requires
        crate::git_store::encode_tree(entries).len() == 0,
    ensures
        entries == Seq::<EntryView>::empty(),
{
    if entries.len() > 0 {
        let e = entries[0];
        assert(crate::git_store::encode_entry(e).len() > 0);
    }
    assert(entries =~= Seq::<EntryView>::empty());
}

/// What could be read stays as it was when objects are added.
proof fn lemma_stored_grown(
    before: Objects,
    after: Objects,
    node: NodeView,
    path: Seq<Seq<char>>,
)
    requires
        grown(before, after),
        stored(before, node, path) != Found::Unreadable,
    ensures
        stored(after, node, path) == stored(before, node, path),
    decreases path.len(),
{
    if path.len() > 0 {
        if let NodeView::Tree(id) = node {
            if let Ok(Some(entries)) = tree_at(before, id) {
                assert(tree_at(after, id) == tree_at(before, id));
                if let Some(k) = entry_index(entries, path[0]) {
                    lemma_stored_grown(before, after, entry_node(entries[k]), path.drop_first());
                }
            }
        }
    }
}

/// What could be seen stays as it was when objects are added.
pub proof fn lemma_seen_grown(
    slab: SlabView,
    before: Objects,
    after: Objects,
    hidden: Set<Seq<char>>,
    i: InodeId,
    path: Seq<Seq<char>>,
)
    requires
        grown(before, after),
        seen(slab, before, hidden, i, path) != Found::Unreadable,
    ensures
        seen(slab, after, hidden, i, path) == seen(slab, before, hidden, i, path),
    decreases path.len(),
{
    match slab.node(i) {
        NodeView::DirtyTree(children) => {
            if path.len() > 0 && children.contains_key(path[0]) && !skipped(
                slab,
                hidden,
                i,
                path[0],
                children[path[0]],
            ) {
                lemma_seen_grown(
                    slab,
                    before,
                    after,
                    hidden,
                    children[path[0]],
                    path.drop_first(),
                );
            }
        },
        node => {
            lemma_stored_grown(before, after, node, path);
        },
    }
}

/// A snapshot loses nothing: at every path, the tree that it returns holds what
/// the working copy held there. Ignored entries and the pinned `.jj` and `.git`
/// are not part of the tree.
pub proof fn snapshot_keeps_content(
    before: KikiView,
    objects: Objects,
    after: KikiView,
    now: Objects,
    id: Id,
    path: Seq<Seq<char>>,
)
    requires
        before.wf(),
        snapshotted(before, objects, after, now, Ok(id)),
        no_collision(before.slab, outside_tree(), now),
    ensures
        stored(now, NodeView::Tree(id), path) == seen(
            before.slab,
            now,
            outside_tree(),
            ROOT_INODE,
            path,
        ),
        seen(before.slab, objects, outside_tree(), ROOT_INODE, path) != Found::Unreadable ==> stored(
            now,
            NodeView::Tree(id),
            path,
        ) == seen(before.slab, objects, outside_tree(), ROOT_INODE, path),
{
    let n = before.slab.inodes.len();
    root_nameless(before.slab);
    deep_below_nameless(before.slab, outside_tree(), ROOT_INODE);
    lemma_stored(before.slab, after.slab, now, outside_tree(), ROOT_INODE, n, path);
    assert(before.slab.node(ROOT_INODE).is_dir());
    assert(clean_node(before.slab.node(ROOT_INODE), id) == NodeView::Tree(id));
    if seen(before.slab, objects, outside_tree(), ROOT_INODE, path) != Found::Unreadable {
        lemma_seen_grown(before.slab, objects, now, outside_tree(), ROOT_INODE, path);
    }
}

/// Crash recovery: a working copy that is made anew of the last snapshot shows at
/// every path what the snapshotted one held there, and nothing else.
pub proof fn recovery_shows_the_snapshot(
    before: KikiView,
    objects: Objects,
    after: KikiView,
    now: Objects,
    id: Id,
    gitdir: Seq<char>,
    scratch_dir: Option<Seq<char>>,
    mtime: i64,
    path: Seq<Seq<char>>,
)
    requires
        before.wf(),
        snapshotted(before, objects, after, now, Ok(id)),
        no_collision(before.slab, outside_tree(), now),
    ensures
        seen(
            KikiView::fresh(now, id, gitdir, scratch_dir, mtime).slab,
            now,
            outside_tree(),
            ROOT_INODE,
            path,
        ) == seen(before.slab, now, outside_tree(), ROOT_INODE, path),
{
    snapshot_keeps_content(before, objects, after, now, id, path);
    let fresh = KikiView::fresh(now, id, gitdir, scratch_dir, mtime);
    assert(fresh.slab.node(ROOT_INODE) == NodeView::Tree(id));
}

/// What a snapshot reaches below a complete inode is complete.
pub proof fn lemma_walk_complete(
    base: SlabView,
    hidden: Set<Seq<char>>,
    slab: SlabView,
    objects: Objects,
    i: InodeId,
    fuel: nat,
    path: Seq<Seq<char>>,
    j: InodeId,
) -> (f: nat)
    requires
        deep(base, hidden, i, fuel),
        complete(base, hidden, slab, objects, i, fuel),
        walk(base, hidden, i, path) == Some(j),
    ensures
        f <= fuel,
        deep(base, hidden, j, f),
        complete(base, hidden, slab, objects, j, f),
    decreases path.len(),
{
    if path.len() == 0 {
        fuel
    } else {
        let c = base.node(i)->DirtyTree_0[path[0]];
        lemma_complete_below(base, hidden, slab, objects, i, fuel, path[0]);
        lemma_walk_complete(
            base,
            hidden,
            slab,
            objects,
            c,
            (fuel - 1) as nat,
            path.drop_first(),
            j,
        )
    }
}

/// What a snapshot reaches is modified afterwards exactly if the snapshot does not
/// cover it as a whole.
pub proof fn lemma_walk_clean(
    base: SlabView,
    hidden: Set<Seq<char>>,
    slab: SlabView,
    objects: Objects,
    i: InodeId,
    path: Seq<Seq<char>>,
    j: InodeId,
)
    requires
        settled(base, hidden, slab),
        deep(base, hidden, i, base.inodes.len()),
        complete(base, hidden, slab, objects, i, base.inodes.len()),
        walk(base, hidden, i, path) == Some(j),
    ensures
        deep(base, hidden, j, base.inodes.len()),
        slab.node(j).is_dirty() == partly_covered(base, hidden, j, base.inodes.len()),
{
    let n = base.inodes.len();
    let f = lemma_walk_complete(base, hidden, slab, objects, i, n, path, j);
    lemma_deep_more(base, hidden, j, f, n);
    if slab.at(j) != base.at(j) {
        let g = choose|g: nat| cleaned(base, hidden, slab, j, g);
        assert(cleaned(base, hidden, slab, j, g));
        if g <= n {
            lemma_deep_more(base, hidden, j, g, n);
        } else {
            lemma_deep_more(base, hidden, j, n, g);
        }
    }
}

/// After a snapshot nothing that it reached is modified any more, but for the
/// directories with an entry that it left out, at whatever depth.
pub proof fn snapshot_cleans_what_it_reaches(
    before: KikiView,
    objects: Objects,
    after: KikiView,
    now: Objects,
    id: Id,
    j: InodeId,
)
    requires
        before.wf(),
        snapshotted(before, objects, after, now, Ok(id)),
        reached(before, j),
    ensures
        after.slab.node(j).is_dirty() == partly_covered(
            before.slab,
            outside_tree(),
            j,
            before.slab.inodes.len(),
        ),
        deep(before.slab, outside_tree(), j, before.slab.inodes.len()),
{
    let h = outside_tree();
    root_nameless(before.slab);
    deep_below_nameless(before.slab, h, ROOT_INODE);
    let path = choose|path: Seq<Seq<char>>|
        #![trigger walk(before.slab, h, ROOT_INODE, path)]
        walk(before.slab, h, ROOT_INODE, path) == Some(j) || (before.jj_subtree matches Some(jj)
            && walk(before.slab, h, jj, path) == Some(j));
    if walk(before.slab, h, ROOT_INODE, path) == Some(j) {
        lemma_walk_clean(before.slab, h, after.slab, now, ROOT_INODE, path, j);
    } else {
        let jj = before.jj_subtree->0;
        deep_below_nameless(before.slab, h, jj);
        lemma_walk_clean(before.slab, h, after.slab, now, jj, path, j);
    }
}

/// A snapshot takes nothing out of a working copy: in every directory that can be
/// read each name leads where it led, whether the snapshot covered it or left it
/// out.
pub proof fn snapshot_keeps_lookups(
    before: KikiView,
    objects: Objects,
    after: KikiView,
    now: Objects,
    id: Id,
    dir: InodeId,
    name: Seq<char>,
)
    requires
        before.wf(),
        snapshotted(before, objects, after, now, Ok(id)),
        no_collision(before.slab, outside_tree(), now),
        before.slab.node(dir) matches NodeView::Tree(t) ==> tree_result(objects, t) is Ok,
    ensures
        after.lookup(now, dir, name).1 == before.lookup(objects, dir, name).1,
        before.slab.has(dir) && before.slab.node(dir) is DirtyTree ==> after.lookup(now, dir, name).0
            == after,
{
    let h = outside_tree();
    if before.slab.has(dir) {
        if after.slab.at(dir) != before.slab.at(dir) {
            let f = choose|f: nat| cleaned(before.slab, h, after.slab, dir, f);
            assert(cleaned(before.slab, h, after.slab, dir, f));
            if let NodeView::DirtyTree(children) = before.slab.node(dir) {
                assert(complete(before.slab, h, after.slab, now, dir, f));
                lemma_tree_stored(before.slab, now, h, dir, f);
                lemma_tree_leads(before.slab, h, dir, f, name);
                if children.contains_key(name) {
                    assert(!skipped(before.slab, h, dir, name, children[name]));
                    assert(before.slab.attached(dir, name, children[name]));
                }
            }
        } else if let NodeView::Tree(t) = before.slab.node(dir) {
            assert(tree_at(now, t) == tree_at(objects, t));
        }
    }
}

/// A snapshot keeps inode ids: no inode comes or goes, each stays in its place
/// under its name, and names lead to the inodes they led to.
pub proof fn snapshot_keeps_inodes(
    before: KikiView,
    objects: Objects,
    after: KikiView,
    now: Objects,
    r: Result<Id, ErrView>,
    i: InodeId,
)
    requires
        before.wf(),
        snapshotted(before, objects, after, now, r),
    ensures
        after.slab.has(i) == before.slab.has(i),
        after.slab.by_parent == before.slab.by_parent,
        before.slab.has(i) ==> after.slab.at(i).parent == before.slab.at(i).parent && after.slab.at(
            i,
        ).name == before.slab.at(i).name && after.slab.at(i).ignored == before.slab.at(i).ignored
            && entry_kind_of(after.slab.node(i)) == entry_kind_of(before.slab.node(i)),
{
    if before.slab.has(i) && after.slab.at(i) != before.slab.at(i) {
        let f = choose|f: nat| cleaned(before.slab, outside_tree(), after.slab, i, f);
        assert(cleaned(before.slab, outside_tree(), after.slab, i, f));
    }
}

/// What a second snapshot would reach, the first one reached.
pub proof fn lemma_walk_before(
    base: SlabView,
    slab: SlabView,
    hidden: Set<Seq<char>>,
    i: InodeId,
    path: Seq<Seq<char>>,
)
    requires
        tidy(base),
        settled(base, hidden, slab),
        base.has(i),
        walk(slab, hidden, i, path) is Some,
    ensures
        walk(base, hidden, i, path) == walk(slab, hidden, i, path),
    decreases path.len(),
{
    if path.len() > 0 {
        if slab.at(i) != base.at(i) {
            let f = choose|f: nat| cleaned(base, hidden, slab, i, f);
            assert(cleaned(base, hidden, slab, i, f));
        }
        let c = slab.node(i)->DirtyTree_0[path[0]];
        assert(base.attached(i, path[0], c));
        assert(base.by_parent.contains_key((i, path[0])));
        if slab.at(c) != base.at(c) {
            let f = choose|f: nat| cleaned(base, hidden, slab, c, f);
            assert(cleaned(base, hidden, slab, c, f));
        }
        lemma_walk_before(base, slab, hidden, c, path.drop_first());
    }
}

/// A second snapshot with nothing in between gives the same id and leaves the
/// working copy as it is.
pub proof fn snapshot_twice_is_once(
    before: KikiView,
    objects: Objects,
    after: KikiView,
    now: Objects,
    id: Id,
    last: KikiView,
    last_objects: Objects,
    r: Result<Id, ErrView>,
)
    requires
        before.wf(),
        after.wf(),
        snapshotted(before, objects, after, now, Ok(id)),
        snapshotted(after, now, last, last_objects, r),
        after.slab.inodes.len() <= u64::MAX,
    ensures
        r == Ok::<Id, ErrView>(id),
        last == after,
{
    let h = outside_tree();
    let n = before.slab.inodes.len();
    root_nameless(before.slab);
    deep_below_nameless(before.slab, h, ROOT_INODE);
    lemma_content_after(before.slab, after.slab, h, ROOT_INODE, n);
    if let Some(jj) = before.jj_subtree {
        deep_below_nameless(before.slab, h, jj);
        lemma_content_after(before.slab, after.slab, h, jj, n);
    }
    assert(after.snapshot_id() == Ok::<Id, StoreFault>(id));
    assert forall|j: InodeId| after.slab.has(j) implies #[trigger] last.slab.at(j) == after.slab.at(
        j,
    ) by {
        if last.slab.at(j) != after.slab.at(j) {
            let f = choose|f: nat| cleaned(after.slab, h, last.slab, j, f);
            assert(cleaned(after.slab, h, last.slab, j, f));
            assert(reached(after, j));
            let path = choose|path: Seq<Seq<char>>|
                #![trigger walk(after.slab, h, ROOT_INODE, path)]
                walk(after.slab, h, ROOT_INODE, path) == Some(j) || (after.jj_subtree matches Some(
                    jj,
                ) && walk(after.slab, h, jj, path) == Some(j));
            if walk(after.slab, h, ROOT_INODE, path) == Some(j) {
                lemma_walk_before(before.slab, after.slab, h, ROOT_INODE, path);
            } else {
                lemma_walk_before(before.slab, after.slab, h, before.jj_subtree->0, path);
            }
            assert(walk(before.slab, h, ROOT_INODE, path) == walk(
                before.slab,
                h,
                ROOT_INODE,
                path,
            ));
            assert(reached(before, j));
            snapshot_cleans_what_it_reaches(before, objects, after, now, id, j);
            lemma_content_after(before.slab, after.slab, h, j, n);
            if f <= n {
                lemma_deep_more(after.slab, h, j, f, n);
            } else {
                lemma_deep_more(after.slab, h, j, n, f);
            }
        }
    }
    assert(last.slab.inodes =~= after.slab.inodes) by {
        assert forall|k: int| 0 <= k < last.slab.inodes.len() implies last.slab.inodes[k]
            == after.slab.inodes[k] by {
            let j = (k + 1) as InodeId;
            assert(after.slab.has(j));
            assert(last.slab.at(j) == after.slab.at(j));
        }
    }
    assert(last.slab == after.slab);
}

// ---- single requests ---------------------------------------------------------------------

/// What was written is what is read: after a write, a read of the same range
/// gives the bytes back.
pub proof fn read_gives_what_was_written(
    v: KikiView,
    objects: Objects,
    ino: InodeId,
    offset: u64,
    data: Seq<u8>,
)
    requires
        v.write(objects, ino, offset, data).1 is Ok,
        data.len() <= u32::MAX,
    ensures
        read_result(
            v.write(objects, ino, offset, data).0.slab,
            objects,
            ino,
            offset,
            data.len() as u32,
        ) matches Ok((bytes, _)) && bytes == data,
{
    let t = v.write(objects, ino, offset, data).0.slab;
    let s = v.file_dirtied(objects, ino).0.slab;
    let first = file_opened(v.slab, objects, ino).0;
    lemma_dirty_stays(v.with_slab(first), objects, first.at(ino).parent, ino);
    let content = s.node(ino)->DirtyFile_content;
    let new = spliced(content, offset as nat, data);
    assert(t == file_written(s, ino, offset, data));
    assert(s.has(ino) && t.node(ino)->DirtyFile_content == new);
    let got = range_of(new, offset, data.len() as u32).0;
    assert(got =~= data);
}

/// A second lookup gives the same inode and changes nothing.
pub proof fn lookup_is_stable(v: KikiView, objects: Objects, parent: InodeId, name: Seq<char>)
    requires
        v.wf(),
        v.lookup(objects, parent, name).1 is Ok,
        v.slab.next_id() <= u64::MAX,
    ensures
        v.lookup(objects, parent, name).0.lookup(objects, parent, name) == v.lookup(
            objects,
            parent,
            name,
        ),
{
    let (v1, r) = v.lookup(objects, parent, name);
    if !v.is_git_file(parent, name) && !(v.is_jj_root(parent, name) && v.jj_subtree is Some) {
        assert(v1.slab.at(parent) == v.slab.at(parent));
    }
}

/// A new entry is found under its name, under an inode that did not exist
/// before, and the name is taken then.
pub proof fn created_entry_is_found(
    v: KikiView,
    objects: Objects,
    parent: InodeId,
    name: Seq<char>,
    node: NodeView,
)
    requires
        v.wf(),
        v.add_entry(objects, parent, name, node).1 is Ok,
        v.add_entry(objects, parent, name, node).0.slab.inodes.len() <= u64::MAX,
    ensures
        ({
            let (after, r) = v.add_entry(objects, parent, name, node);
            let (ino, attr) = r->Ok_0;
            &&& !v.slab.has(ino)
            &&& after.lookup(objects, parent, name) == (after, Ok::<InodeId, ErrView>(ino))
            &&& after.child_exists(objects, parent, name) == Ok::<bool, ErrView>(true)
            &&& after.add_entry(objects, parent, name, node) == (
                after,
                Err::<(InodeId, Attr), ErrView>(ErrView::AlreadyExists),
            )
            &&& attr_result(after.slab, objects, ino, v.commit_mtime) == Ok::<Attr, ErrView>(attr)
        }),
{
    let room = v.make_room(objects, parent, name).0;
    let ignored = room.is_ignored(parent, name, node is DirtyTree);
    lemma_attached_is_found(v, objects, parent, name, node, ignored);
}

/// A new directory is found under its name, under an inode that did not exist
/// before, and the name is taken then. This holds of the pinned `.jj` directory
/// and of redirected directories, too.
pub proof fn made_directory_is_found(
    v: KikiView,
    objects: Objects,
    parent: InodeId,
    name: Seq<char>,
    fault: Option<Seq<char>>,
)
    requires
        v.wf(),
        v.mkdir(objects, parent, name, fault).1 is Ok,
        v.mkdir(objects, parent, name, fault).0.slab.inodes.len() <= u64::MAX,
    ensures
        ({
            let (after, r) = v.mkdir(objects, parent, name, fault);
            let (ino, attr) = r->Ok_0;
            &&& !v.slab.has(ino)
            &&& after.lookup(objects, parent, name) == (after, Ok::<InodeId, ErrView>(ino))
            &&& after.child_exists(objects, parent, name) == Ok::<bool, ErrView>(true)
            &&& after.mkdir(objects, parent, name, fault) == (
                after,
                Err::<(InodeId, Attr), ErrView>(ErrView::AlreadyExists),
            )
            &&& attr_result(after.slab, objects, ino, v.commit_mtime) == Ok::<Attr, ErrView>(attr)
        }),
{
    reveal_strlit(".jj");
    reveal_strlit(".git");
    let room = v.make_room(objects, parent, name).0;
    if v.is_jj_root(parent, name) {
        assert(!v.is_git_file(parent, name)) by {
            assert(".jj"@.len() != ".git"@.len());
        }
    } else if v.is_redirection(parent, name) && v.scratch_dir is Some {
        let link = NodeView::DirtySymlink(joined(v.scratch_dir->0, name));
        lemma_attached_is_found(v, objects, parent, name, link, true);
    } else {
        let empty = NodeView::DirtyTree(Map::empty());
        let ignored = room.is_ignored(parent, name, true);
        lemma_attached_is_found(v, objects, parent, name, empty, ignored);
    }
}

/// An inode that was attached under a name with room is found there.
proof fn lemma_attached_is_found(
    v: KikiView,
    objects: Objects,
    parent: InodeId,
    name: Seq<char>,
    node: NodeView,
    ignored: bool,
)
    requires
        v.wf(),
        v.make_room(objects, parent, name).1 is Ok,
        v.make_room(objects, parent, name).0.attach_new(objects, parent, name, node, ignored).1
            is Ok,
        v.make_room(objects, parent, name).0.slab.next_id() <= u64::MAX,
    ensures
        ({
            let (after, r) = v.make_room(objects, parent, name).0.attach_new(
                objects,
                parent,
                name,
                node,
                ignored,
            );
            let (ino, attr) = r->Ok_0;
            &&& !v.slab.has(ino)
            &&& after.lookup(objects, parent, name) == (after, Ok::<InodeId, ErrView>(ino))
            &&& after.child_exists(objects, parent, name) == Ok::<bool, ErrView>(true)
            &&& attr_result(after.slab, objects, ino, v.commit_mtime) == Ok::<Attr, ErrView>(attr)
        }),
{
    let room = v.make_room(objects, parent, name).0;
    let (after, r) = room.attach_new(objects, parent, name, node, ignored);
    assert(after.slab.node(parent) is DirtyTree);
    assert(after.slab.has(parent));
    lemma_dirtied_len(v, objects, parent);
}

/// A removed entry is not found any more, and its inode stays as it was.
pub proof fn removed_entry_is_gone(v: KikiView, objects: Objects, parent: InodeId, name: Seq<char>)
    requires
        v.wf(),
        !(v.is_jj_root(parent, name) && v.jj_subtree is Some),
        v.remove(objects, parent, name).1 is Ok,
    ensures
        ({
            let open = v.dirtied(objects, parent).0;
            let after = v.remove(objects, parent, name).0;
            let child = open.node(parent)->DirtyTree_0[name];
            &&& open.attached(parent, name, child)
            &&& child != parent ==> after.slab.at(child) == open.at(child)
            &&& after.lookup(objects, parent, name).1 == Err::<InodeId, ErrView>(ErrView::NotFound)
            &&& after.remove(objects, parent, name).1 is Err
        }),
{
    let s = v.dirtied(objects, parent).0;
    let after = v.remove(objects, parent, name).0;
    assert(after.slab == s.without_child(parent, name));
    assert(after.slab.has(parent));
    assert(after.slab.node(parent) == NodeView::DirtyTree(
        s.node(parent)->DirtyTree_0.remove(name),
    ));
    let (again, r) = after.dirtied(objects, parent);
    if r is Ok {
        lemma_dirty_stays(after, objects, parent, parent);
    }
}

/// A moved entry is found under its new name, under the inode that it had, and
/// not under its old one.
pub proof fn moved_entry_is_found(
    v: KikiView,
    objects: Objects,
    parent: InodeId,
    name: Seq<char>,
    new_parent: InodeId,
    new_name: Seq<char>,
)
    requires
        v.wf(),
        v.rename(objects, parent, name, new_parent, new_name).1 is Ok,
        opened_to_move(v, objects, parent, new_parent).inodes.len() <= u64::MAX,
    ensures
        ({
            let open = opened_to_move(v, objects, parent, new_parent);
            let after = v.rename(objects, parent, name, new_parent, new_name).0;
            let child = open.node(parent)->DirtyTree_0[name];
            &&& open.attached(parent, name, child)
            &&& after.lookup(objects, new_parent, new_name) == (after, Ok::<InodeId, ErrView>(child))
            &&& (parent, name) != (new_parent, new_name) ==> after.lookup(objects, parent, name) == (
                after,
                Err::<InodeId, ErrView>(ErrView::NotFound),
            )
        }),
{
    let first = v.dirtied(objects, parent).0;
    let open = opened_to_move(v, objects, parent, new_parent);
    if new_parent != parent {
        lemma_dirtied_len(v.with_slab(first), objects, new_parent);
    }
    dirtying_keeps(v, objects, parent);
    if new_parent != parent {
        dirtying_keeps(v.with_slab(first), objects, new_parent);
        lemma_dirty_stays(v.with_slab(first), objects, new_parent, parent);
    }
    lemma_moved_is_found(open, objects, parent, name, new_parent, new_name);
}

/// A move between open directories takes the entry from the one to the other.
pub proof fn lemma_moved_is_found(
    s: SlabView,
    objects: Objects,
    parent: InodeId,
    name: Seq<char>,
    new_parent: InodeId,
    new_name: Seq<char>,
)
    requires
        tidy(s),
        moved(s, objects, parent, name, new_parent, new_name).1 is Ok,
    ensures
        ({
            let (t, r) = moved(s, objects, parent, name, new_parent, new_name);
            let child = s.node(parent)->DirtyTree_0[name];
            &&& s.attached(parent, name, child)
            &&& s.has(child)
            &&& t.has(child)
            &&& r matches Ok(Some(c)) ==> c == child
            &&& t.attached(new_parent, new_name, child)
            &&& t.has(parent)
            &&& t.node(parent) is DirtyTree
            &&& (parent, name) != (new_parent, new_name)
                ==> !t.node(parent)->DirtyTree_0.contains_key(name)
        }),
{
    let (t, r) = moved(s, objects, parent, name, new_parent, new_name);
    let child = s.node(parent)->DirtyTree_0[name];
    assert(s.attached(parent, name, child));
    assert(s.by_parent.contains_key((parent, name)));
    if r->Ok_0 is None {
        assert(s.attached(new_parent, new_name, child));
        assert(s.by_parent.contains_key((new_parent, new_name)));
    }
}

/// Opening a directory leaves modified inodes as they are.
pub proof fn lemma_opened_stays(slab: SlabView, objects: Objects, dir: InodeId, i: InodeId)
    requires
        slab.has(i),
    ensures
        opened(slab, objects, dir).0.has(i),
        slab.node(i).is_dirty() ==> opened(slab, objects, dir).0.node(i) == slab.node(i),
{
    if slab.has(dir) {
        if let NodeView::Tree(id) = slab.node(dir) {
            if let Ok(entries) = tree_result(objects, id) {
                lemma_loaded_keeps(slab, dir, nodes_of(entries), i);
                lemma_loaded_keeps(slab, dir, nodes_of(entries), dir);
            }
        }
    }
}

pub proof fn lemma_above_stays(
    slab: SlabView,
    objects: Objects,
    current: InodeId,
    steps: nat,
    i: InodeId,
)
    requires
        slab.has(i),
    ensures
        opened_above(slab, objects, current, steps).0.has(i),
        slab.node(i).is_dirty() ==> opened_above(slab, objects, current, steps).0.node(i)
            == slab.node(i),
    decreases steps,
{
    if steps > 0 && slab.has(current) {
        let parent = slab.at(current).parent;
        if parent != current && slab.has(parent) && !(slab.node(parent) is DirtyTree) {
            lemma_opened_stays(slab, objects, parent, i);
            lemma_above_stays(
                opened(slab, objects, parent).0,
                objects,
                parent,
                (steps - 1) as nat,
                i,
            );
        }
    }
}

/// Opening directories leaves modified inodes as they are.
pub proof fn lemma_dirty_stays(v: KikiView, objects: Objects, dir: InodeId, i: InodeId)
    requires
        v.slab.has(i),
    ensures
        v.dirtied(objects, dir).0.has(i),
        v.slab.node(i).is_dirty() ==> v.dirtied(objects, dir).0.node(i) == v.slab.node(i),
{
    lemma_opened_stays(v.slab, objects, dir, i);
    let mid = opened(v.slab, objects, dir).0;
    lemma_above_stays(mid, objects, dir, mid.inodes.len(), i);
}

proof fn above_keeps(slab: SlabView, objects: Objects, current: InodeId, steps: nat)
    requires
        tidy(slab),
        opened_above(slab, objects, current, steps).0.inodes.len() <= u64::MAX,
    ensures
        keeps(slab, opened_above(slab, objects, current, steps).0),
    decreases steps,
{
    keeps_refl(slab);
    if steps > 0 && slab.has(current) {
        let parent = slab.at(current).parent;
        if parent != current && slab.has(parent) && !(slab.node(parent) is DirtyTree) {
            let up = opened(slab, objects, parent).0;
            lemma_above_len(up, objects, parent, (steps - 1) as nat);
            keeps_opened(slab, objects, parent);
            if opened(slab, objects, parent).1 is Ok {
                above_keeps(up, objects, parent, (steps - 1) as nat);
                keeps_trans(slab, up, opened_above(slab, objects, current, steps).0);
            }
        }
    }
}

/// Opening a directory and everything above it keeps the slab in order.
pub proof fn dirtying_keeps(v: KikiView, objects: Objects, dir: InodeId)
    requires
        tidy(v.slab),
        v.dirtied(objects, dir).0.inodes.len() <= u64::MAX,
    ensures
        keeps(v.slab, v.dirtied(objects, dir).0),
{
    keeps_refl(v.slab);
    let mid = opened(v.slab, objects, dir).0;
    let after = v.dirtied(objects, dir).0;
    if after != v.slab {
        lemma_above_len(mid, objects, dir, mid.inodes.len());
        keeps_opened(v.slab, objects, dir);
        if after != mid {
            above_keeps(mid, objects, dir, mid.inodes.len());
            keeps_trans(v.slab, mid, after);
        }
    }
}

/// The node is a modified file or symlink.
pub open spec fn edited(node: NodeView) -> bool {
    node is DirtyFile || node is DirtySymlink
}

/// An edit is not lost: whatever is made, removed or moved, and whatever else is
/// written, a modified file or symlink keeps its content under its inode.
pub proof fn edits_stay(
    v: KikiView,
    objects: Objects,
    i: InodeId,
    parent: InodeId,
    name: Seq<char>,
    new_parent: InodeId,
    new_name: Seq<char>,
    node: NodeView,
    fault: Option<Seq<char>>,
    ino: InodeId,
    offset: u64,
    data: Seq<u8>,
)
    requires
        v.wf(),
        v.slab.has(i),
        edited(v.slab.node(i)),
        ino != i,
        opened_to_move(v, objects, parent, new_parent).inodes.len() <= u64::MAX,
    ensures
        v.add_entry(objects, parent, name, node).0.slab.node(i) == v.slab.node(i),
        v.mkdir(objects, parent, name, fault).0.slab.node(i) == v.slab.node(i),
        v.remove(objects, parent, name).0.slab.node(i) == v.slab.node(i),
        v.write(objects, ino, offset, data).0.slab.node(i) == v.slab.node(i),
        v.rename(objects, parent, name, new_parent, new_name).0.slab.node(i) == v.slab.node(i),
{
    lemma_dirty_stays(v, objects, parent, i);
    let s = v.dirtied(objects, parent).0;
    assert(s.has(i));
    // a new entry
    lemma_attach_stays(v, objects, parent, name, node, false, i);
    lemma_attach_stays(v, objects, parent, name, node, true, i);
    lemma_attach_stays(v, objects, parent, name, NodeView::DirtyTree(Map::empty()), false, i);
    lemma_attach_stays(v, objects, parent, name, NodeView::DirtyTree(Map::empty()), true, i);
    if v.scratch_dir is Some {
        let link = NodeView::DirtySymlink(joined(v.scratch_dir->0, name));
        lemma_attach_stays(v, objects, parent, name, link, true, i);
    }
    // a write elsewhere
    let first = file_opened(v.slab, objects, ino).0;
    assert(first.has(i) && first.node(i) == v.slab.node(i));
    lemma_dirty_stays(v.with_slab(first), objects, first.at(ino).parent, i);
    if v.slab.has(ino) {
        lemma_dirty_stays(v.with_slab(first), objects, first.at(ino).parent, ino);
    }
    // a removal
    assert(removed(s, objects, parent, name).0.node(i) == s.node(i)) by {
        if removed(s, objects, parent, name).1 is Ok {
            assert(i != parent);
        }
    }
    // a move
    lemma_dirty_stays(v.with_slab(s), objects, new_parent, i);
    let s2 = opened_to_move(v, objects, parent, new_parent);
    lemma_dirtied_len(v.with_slab(s), objects, new_parent);
    dirtying_keeps(v, objects, parent);
    if new_parent != parent {
        dirtying_keeps(v.with_slab(s), objects, new_parent);
    }
    lemma_moved_stays(s2, objects, parent, name, new_parent, new_name, i);
}

/// A move leaves modified files and symlinks as they are.
pub proof fn lemma_moved_stays(
    s: SlabView,
    objects: Objects,
    parent: InodeId,
    name: Seq<char>,
    new_parent: InodeId,
    new_name: Seq<char>,
    i: InodeId,
)
    requires
        tidy(s),
        s.has(i),
        edited(s.node(i)),
    ensures
        ({
            let (t, r) = moved(s, objects, parent, name, new_parent, new_name);
            &&& t.node(i) == s.node(i)
            &&& r matches Ok(Some(c)) ==> t.reparented(c, new_parent, new_name).node(i) == s.node(i)
        }),
{
    let (t, r) = moved(s, objects, parent, name, new_parent, new_name);
    if r is Ok && r->Ok_0 is Some {
        assert(i != parent && i != new_parent);
        let c = r->Ok_0->0;
        let out = s.without_child(new_parent, new_name);
        assert(out.node(i) == s.node(i));
        assert(t.has(i) && t.node(i) == s.node(i));
        let u = t.reparented(c, new_parent, new_name);
        assert(s.attached(parent, name, c));
        assert(s.by_parent.contains_key((parent, name)));
        assert(t.has(c));
        assert(u.node(i) == t.node(i));
    }
}

proof fn lemma_attach_stays(
    v: KikiView,
    objects: Objects,
    parent: InodeId,
    name: Seq<char>,
    node: NodeView,
    ignored: bool,
    i: InodeId,
)
    requires
        v.slab.has(i),
        edited(v.slab.node(i)),
    ensures
        v.make_room(objects, parent, name).0.attach_new(
            objects,
            parent,
            name,
            node,
            ignored,
        ).0.slab.node(i) == v.slab.node(i),
        v.make_room(objects, parent, name).0.slab.node(i) == v.slab.node(i),
{
    lemma_dirty_stays(v, objects, parent, i);
    let room = v.make_room(objects, parent, name).0;
    let more = room.slab.with_inode(InodeView { parent, name, node, ignored });
    assert(more.node(i) == v.slab.node(i));
    if more.can_attach(parent, name) {
        assert(parent != i);
    }
}

} // verus!
