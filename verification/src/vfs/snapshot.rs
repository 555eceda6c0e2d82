//! Writing the modified part of a slab into the content store.
use vstd::prelude::*;
use vstd::utf8::encode_utf8;
use crate::git_store::{
    blob_id, tree_data, tree_id, tree_view, written, EntryView, GitContentStore, GitEntryKind,
    GitObjectKind, GitTreeEntry, ObjectView, Objects, StoreFault,
};
use crate::text::same_str;
use crate::ty::Id;
use crate::vfs::inode::{InodeId, InodeSlab, InodeView, NodeRef, NodeView, SlabView, ROOT_INODE};
use crate::vfs::name_map::{in_order, NameMap};
use crate::vfs::tree_ops::hidden_set;
use crate::vfs::types::{fault_view, store_err, FsError};

verus! {

broadcast use vstd::string::group_string_axioms;

/// A snapshot leaves out the entry `name` of the directory `dir`: it is one of
/// the hidden names of the root, or the entry is ignored.
pub open spec fn skipped(
    slab: SlabView,
    hidden: Set<Seq<char>>,
    dir: InodeId,
    name: Seq<char>,
    child: InodeId,
) -> bool {
    (dir == ROOT_INODE && hidden.contains(name)) || slab.at(child).ignored
}

/// Everything modified below `i` that a snapshot covers lies within `fuel`
/// levels.
pub open spec fn deep(slab: SlabView, hidden: Set<Seq<char>>, i: InodeId, fuel: nat) -> bool
    decreases fuel,
{
    &&& slab.has(i)
    &&& slab.node(i) matches NodeView::DirtyTree(children) ==> {
        &&& children.dom().finite()
        &&& forall|name: Seq<char>| #[trigger]
            children.contains_key(name) ==> slab.has(children[name]) && (skipped(
                slab,
                hidden,
                i,
                name,
                children[name],
            ) || (fuel > 0 && deep(slab, hidden, children[name], (fuel - 1) as nat)))
    }
}

/// The kind of entry that a node is written as.
pub open spec fn entry_kind_of(node: NodeView) -> GitEntryKind {
    match node {
        NodeView::Tree(_) => GitEntryKind::Tree,
        NodeView::DirtyTree(_) => GitEntryKind::Tree,
        NodeView::File { executable, .. } => GitEntryKind::File { executable },
        NodeView::DirtyFile { executable, .. } => GitEntryKind::File { executable },
        NodeView::Symlink(_) => GitEntryKind::Symlink,
        NodeView::DirtySymlink(_) => GitEntryKind::Symlink,
    }
}

/// The id of what `i` holds: a clean node has one, and a dirty one gets the id
/// under which its content is stored.
pub open spec fn content_id(
    slab: SlabView,
    hidden: Set<Seq<char>>,
    i: InodeId,
    fuel: nat,
) -> Result<
    Id,
    StoreFault,
>
    decreases fuel, 1nat, 0nat,
{
    match slab.node(i) {
        NodeView::Tree(id) => Ok(id),
        NodeView::File { id, .. } => Ok(id),
        NodeView::Symlink(id) => Ok(id),
        NodeView::DirtyFile { content, .. } => blob_id(content),
        NodeView::DirtySymlink(target) => blob_id(encode_utf8(target)),
        NodeView::DirtyTree(children) => match content_entries(
            slab,
            hidden,
            i,
            children,
            in_order(children),
            fuel,
        ) {
            Ok(entries) => tree_id(entries),
            Err(e) => Err(e),
        },
    }
}

/// The tree entries of the children of `i` that stand in `names`.
pub open spec fn content_entries(
    slab: SlabView,
    hidden: Set<Seq<char>>,
    i: InodeId,
    children: Map<Seq<char>, InodeId>,
    names: Seq<Seq<char>>,
    fuel: nat,
) -> Result<Seq<EntryView>, StoreFault>
    decreases fuel, 0nat, names.len(),
{
    if names.len() == 0 {
        Ok(seq![])
    } else {
        let name = names.last();
        let child = children[name];
        match content_entries(slab, hidden, i, children, names.drop_last(), fuel) {
            Err(e) => Err(e),
            Ok(before) => if skipped(slab, hidden, i, name, child) {
                Ok(before)
            } else if fuel == 0 {
                Err(StoreFault::HashRefused)
            } else {
                match content_id(slab, hidden, child, (fuel - 1) as nat) {
                    Ok(id) => Ok(
                        before.push(
                            EntryView { name, kind: entry_kind_of(slab.node(child)), id },
                        ),
                    ),
                    Err(e) => Err(e),
                }
            },
        }
    }
}

/// A snapshot does not cover everything below `i`: in a modified directory on the
/// way down there is an entry that it leaves out.
pub open spec fn partly_covered(
    slab: SlabView,
    hidden: Set<Seq<char>>,
    i: InodeId,
    fuel: nat,
) -> bool
    decreases fuel,
{
    slab.node(i) matches NodeView::DirtyTree(children) && exists|name: Seq<char>| #[trigger]
        children.contains_key(name) && (skipped(slab, hidden, i, name, children[name]) || (fuel > 0
            && partly_covered(slab, hidden, children[name], (fuel - 1) as nat)))
}

/// The clean node that stands for a dirty one.
pub open spec fn clean_node(node: NodeView, id: Id) -> NodeView {
    match node {
        NodeView::DirtyFile { executable, .. } => NodeView::File { id, executable },
        NodeView::DirtySymlink(_) => NodeView::Symlink(id),
        NodeView::DirtyTree(_) => NodeView::Tree(id),
        _ => node,
    }
}

/// The id that a clean node points at.
pub open spec fn node_id(node: NodeView) -> Id {
    match node {
        NodeView::Tree(id) => id,
        NodeView::File { id, .. } => id,
        NodeView::Symlink(id) => id,
        _ => arbitrary(),
    }
}

/// The object under which the content of a dirty inode is stored.
pub open spec fn content_object(
    slab: SlabView,
    hidden: Set<Seq<char>>,
    i: InodeId,
    fuel: nat,
) -> ObjectView {
    match slab.node(i) {
        NodeView::DirtyFile { content, .. } => ObjectView {
            kind: GitObjectKind::Blob,
            data: content,
        },
        NodeView::DirtySymlink(target) => ObjectView {
            kind: GitObjectKind::Blob,
            data: encode_utf8(target),
        },
        NodeView::DirtyTree(children) => match content_entries(
            slab,
            hidden,
            i,
            children,
            in_order(children),
            fuel,
        ) {
            Ok(entries) => ObjectView { kind: GitObjectKind::Tree, data: tree_data(entries) },
            Err(_) => arbitrary(),
        },
        _ => arbitrary(),
    }
}

/// `i` was dirty in `base` and is clean in `slab`, under the id of what it
/// held. That is for what a snapshot covers as a whole: a directory with an entry
/// that is left out keeps its entries.
pub open spec fn cleaned(
    base: SlabView,
    hidden: Set<Seq<char>>,
    slab: SlabView,
    i: InodeId,
    fuel: nat,
) -> bool {
    &&& base.node(i).is_dirty()
    &&& deep(base, hidden, i, fuel)
    &&& !partly_covered(base, hidden, i, fuel)
    &&& content_id(base, hidden, i, fuel) matches Ok(id) && slab.at(i) == (InodeView {
        node: clean_node(base.node(i), id),
        ..base.at(i)
    })
}

/// `slab` is `base` with some dirty inodes cleaned.
pub open spec fn settled(base: SlabView, hidden: Set<Seq<char>>, slab: SlabView) -> bool {
    &&& slab.inodes.len() == base.inodes.len()
    &&& slab.by_parent == base.by_parent
    &&& forall|i: InodeId|
        base.has(i) ==> #[trigger] slab.at(i) == base.at(i) || exists|fuel: nat|
            cleaned(base, hidden, slab, i, fuel)
}

/// Everything below `i` that a snapshot covers is in the store, and what it covers
/// as a whole is clean.
pub open spec fn complete(
    base: SlabView,
    hidden: Set<Seq<char>>,
    slab: SlabView,
    objects: Objects,
    i: InodeId,
    fuel: nat,
) -> bool
    decreases fuel,
{
    &&& base.node(i).is_dirty() ==> (content_id(base, hidden, i, fuel) matches Ok(id)
        && objects.contains_key(id))
    &&& !partly_covered(base, hidden, i, fuel) ==> !slab.node(i).is_dirty()
    &&& base.node(i) matches NodeView::DirtyTree(children) ==> forall|name: Seq<char>| #[trigger]
        children.contains_key(name) && !skipped(base, hidden, i, name, children[name]) ==> fuel > 0
            && complete(base, hidden, slab, objects, children[name], (fuel - 1) as nat)
}

/// Below every inode that was cleaned, everything is complete.
pub open spec fn finished(
    base: SlabView,
    hidden: Set<Seq<char>>,
    slab: SlabView,
    objects: Objects,
) -> bool {
    forall|i: InodeId, fuel: nat|
        base.has(i) && slab.at(i) != base.at(i) && #[trigger] deep(base, hidden, i, fuel)
            ==> complete(base, hidden, slab, objects, i, fuel)
}

/// Everything in `before` is in `after` unchanged.
pub open spec fn grown(before: Objects, after: Objects) -> bool {
    forall|id: Id| #[trigger]
        before.contains_key(id) ==> after.contains_key(id) && after[id] == before[id]
}

/// Everything that is new in `after` is the content of some dirty inode.
pub open spec fn only_content(
    base: SlabView,
    hidden: Set<Seq<char>>,
    before: Objects,
    after: Objects,
) -> bool {
    forall|id: Id| #[trigger]
        after.contains_key(id) && !before.contains_key(id) ==> exists|i: InodeId, fuel: nat|
            {
                &&& deep(base, hidden, i, fuel)
                &&& base.node(i).is_dirty()
                &&& content_id(base, hidden, i, fuel) == Ok::<Id, StoreFault>(id)
                &&& after[id] == #[trigger] content_object(base, hidden, i, fuel)
            }
}

/// The inode that a path of names leads to from `i` on, through modified
/// directories and what a snapshot covers.
pub open spec fn walk(
    slab: SlabView,
    hidden: Set<Seq<char>>,
    i: InodeId,
    path: Seq<Seq<char>>,
) -> Option<InodeId>
    decreases path.len(),
{
    if path.len() == 0 {
        Some(i)
    } else {
        match slab.node(i) {
            NodeView::DirtyTree(children) => if children.contains_key(path[0]) && !skipped(
                slab,
                hidden,
                i,
                path[0],
                children[path[0]],
            ) {
                walk(slab, hidden, children[path[0]], path.drop_first())
            } else {
                None
            },
            _ => None,
        }
    }
}

/// Every inode that changed lies below `i`.
pub open spec fn changed_below(
    base: SlabView,
    hidden: Set<Seq<char>>,
    before: SlabView,
    after: SlabView,
    i: InodeId,
) -> bool {
    forall|j: InodeId|
        base.has(j) && #[trigger] after.at(j) != before.at(j) ==> exists|path: Seq<Seq<char>>|
            walk(base, hidden, i, path) == Some(j)
}

/// More levels give the same id.
pub proof fn lemma_deep_more(
    slab: SlabView,
    hidden: Set<Seq<char>>,
    i: InodeId,
    few: nat,
    many: nat,
)
    requires
        deep(slab, hidden, i, few),
        few <= many,
    ensures
        deep(slab, hidden, i, many),
        content_id(slab, hidden, i, many) == content_id(slab, hidden, i, few),
        content_object(slab, hidden, i, many) == content_object(slab, hidden, i, few),
        partly_covered(slab, hidden, i, many) == partly_covered(slab, hidden, i, few),
    decreases few,
{
    if let NodeView::DirtyTree(children) = slab.node(i) {
        assert forall|name: Seq<char>| #[trigger] children.contains_key(name) && !skipped(
            slab,
            hidden,
            i,
            name,
            children[name],
        ) implies many > 0 && deep(slab, hidden, children[name], (many - 1) as nat) && content_id(
            slab,
            hidden,
            children[name],
            (many - 1) as nat,
        ) == content_id(slab, hidden, children[name], (few - 1) as nat) && few > 0
            && partly_covered(slab, hidden, children[name], (many - 1) as nat) == partly_covered(
            slab,
            hidden,
            children[name],
            (few - 1) as nat,
        ) by {
            lemma_deep_more(slab, hidden, children[name], (few - 1) as nat, (many - 1) as nat);
        }
        crate::vfs::name_map::in_order_of_finite(children);
        lemma_entries_more(slab, hidden, i, children, in_order(children), few, many);
        if partly_covered(slab, hidden, i, few) {
            let name = choose|name: Seq<char>| #[trigger]
                children.contains_key(name) && (skipped(slab, hidden, i, name, children[name]) || (
                few > 0 && partly_covered(slab, hidden, children[name], (few - 1) as nat)));
            assert(children.contains_key(name));
        }
        if partly_covered(slab, hidden, i, many) {
            let name = choose|name: Seq<char>| #[trigger]
                children.contains_key(name) && (skipped(slab, hidden, i, name, children[name]) || (
                many > 0 && partly_covered(slab, hidden, children[name], (many - 1) as nat)));
            assert(children.contains_key(name));
        }
    }
}

/// More levels make no difference to what is complete.
proof fn lemma_complete_more(
    base: SlabView,
    hidden: Set<Seq<char>>,
    slab: SlabView,
    objects: Objects,
    i: InodeId,
    few: nat,
    many: nat,
)
    requires
        deep(base, hidden, i, few),
        few <= many,
    ensures
        complete(base, hidden, slab, objects, i, many) == complete(
            base,
            hidden,
            slab,
            objects,
            i,
            few,
        ),
    decreases few,
{
    lemma_deep_more(base, hidden, i, few, many);
    if let NodeView::DirtyTree(children) = base.node(i) {
        assert forall|name: Seq<char>| #[trigger] children.contains_key(name) && !skipped(
            base,
            hidden,
            i,
            name,
            children[name],
        ) implies few > 0 && complete(
            base,
            hidden,
            slab,
            objects,
            children[name],
            (many - 1) as nat,
        ) == complete(base, hidden, slab, objects, children[name], (few - 1) as nat) by {
            lemma_complete_more(
                base,
                hidden,
                slab,
                objects,
                children[name],
                (few - 1) as nat,
                (many - 1) as nat,
            );
        }
    }
}

/// What is complete below a directory is complete below its entries.
pub proof fn lemma_complete_below(
    base: SlabView,
    hidden: Set<Seq<char>>,
    slab: SlabView,
    objects: Objects,
    i: InodeId,
    fuel: nat,
    name: Seq<char>,
)
    requires
        complete(base, hidden, slab, objects, i, fuel),
        deep(base, hidden, i, fuel),
        base.node(i) is DirtyTree,
        base.node(i)->DirtyTree_0.contains_key(name),
        !skipped(base, hidden, i, name, base.node(i)->DirtyTree_0[name]),
    ensures
        fuel > 0,
        complete(base, hidden, slab, objects, base.node(i)->DirtyTree_0[name], (fuel - 1) as nat),
        deep(base, hidden, base.node(i)->DirtyTree_0[name], (fuel - 1) as nat),
        !partly_covered(base, hidden, i, fuel) ==> !partly_covered(
            base,
            hidden,
            base.node(i)->DirtyTree_0[name],
            (fuel - 1) as nat,
        ) && !slab.node(base.node(i)->DirtyTree_0[name]).is_dirty(),
{
    let children = base.node(i)->DirtyTree_0;
    assert(children.contains_key(name));
}

proof fn lemma_entries_more(
    slab: SlabView,
    hidden: Set<Seq<char>>,
    i: InodeId,
    children: Map<Seq<char>, InodeId>,
    names: Seq<Seq<char>>,
    few: nat,
    many: nat,
)
    requires
        few <= many,
        forall|k: int| 0 <= k < names.len() ==> children.contains_key(#[trigger] names[k]),
        forall|name: Seq<char>| #[trigger]
            children.contains_key(name) && !skipped(slab, hidden, i, name, children[name]) ==> few
                > 0 && content_id(slab, hidden, children[name], (many - 1) as nat) == content_id(
                slab,
                hidden,
                children[name],
                (few - 1) as nat,
            ),
    ensures
        content_entries(slab, hidden, i, children, names, many) == content_entries(
            slab,
            hidden,
            i,
            children,
            names,
            few,
        ),
    decreases names.len(),
{
    if names.len() > 0 {
        let front = names.drop_last();
        assert forall|k: int| 0 <= k < front.len()
            implies children.contains_key(#[trigger] front[k]) by {
            assert(front[k] == names[k]);
        }
        lemma_entries_more(slab, hidden, i, children, front, few, many);
        assert(children.contains_key(names[names.len() - 1]));
    }
}

proof fn lemma_entries_error(
    slab: SlabView,
    hidden: Set<Seq<char>>,
    i: InodeId,
    children: Map<Seq<char>, InodeId>,
    names: Seq<Seq<char>>,
    n: int,
    fuel: nat,
)
    requires
        0 <= n <= names.len(),
        content_entries(slab, hidden, i, children, names.take(n), fuel) is Err,
    ensures
        content_entries(slab, hidden, i, children, names, fuel) == content_entries(
            slab,
            hidden,
            i,
            children,
            names.take(n),
            fuel,
        ),
    decreases names.len(),
{
    if n < names.len() {
        assert(names.drop_last().take(n) =~= names.take(n));
        lemma_entries_error(slab, hidden, i, children, names.drop_last(), n, fuel);
    } else {
        assert(names.take(n) =~= names);
    }
}

/// What was cleaned stays as it is.
pub open spec fn kept(base: SlabView, before: SlabView, after: SlabView) -> bool {
    forall|j: InodeId|
        base.has(j) && before.at(j) != base.at(j) ==> #[trigger] after.at(j) == before.at(j)
}

/// The state of a snapshot in progress.
#[verifier::opaque]
pub open spec fn in_progress(
    base: SlabView,
    hidden: Set<Seq<char>>,
    first: Objects,
    slab: SlabView,
    objects: Objects,
) -> bool {
    &&& settled(base, hidden, slab)
    &&& finished(base, hidden, slab, objects)
    &&& grown(first, objects)
    &&& only_content(base, hidden, first, objects)
}

/// At its start a snapshot has done nothing yet.
pub proof fn begin(base: SlabView, hidden: Set<Seq<char>>, objects: Objects)
    ensures
        in_progress(base, hidden, objects, base, objects),
{
    reveal(in_progress);
}

/// What holds in the middle of a snapshot, and at its end.
pub proof fn lemma_in_progress(
    base: SlabView,
    hidden: Set<Seq<char>>,
    first: Objects,
    slab: SlabView,
    objects: Objects,
)
    requires
        in_progress(base, hidden, first, slab, objects),
    ensures
        settled(base, hidden, slab),
        finished(base, hidden, slab, objects),
        grown(first, objects),
        only_content(base, hidden, first, objects),
{
    reveal(in_progress);
}

/// An inode in the middle of a snapshot: it is as it was, or clean under the
/// id of what it held.
proof fn lemma_at(
    base: SlabView,
    hidden: Set<Seq<char>>,
    first: Objects,
    slab: SlabView,
    objects: Objects,
    i: InodeId,
)
    requires
        in_progress(base, hidden, first, slab, objects),
        base.has(i),
    ensures
        slab.has(i),
        slab.at(i).ignored == base.at(i).ignored,
        entry_kind_of(slab.node(i)) == entry_kind_of(base.node(i)),
        slab.at(i) == base.at(i) || (base.node(i).is_dirty() && !slab.node(i).is_dirty()),
        forall|fuel: nat|
            slab.at(i) != base.at(i) && #[trigger] deep(base, hidden, i, fuel) ==> content_id(
                base,
                hidden,
                i,
                fuel,
            ) == Ok::<Id, StoreFault>(node_id(slab.node(i))) && !partly_covered(
                base,
                hidden,
                i,
                fuel,
            ) && complete(base, hidden, slab, objects, i, fuel),
{
    reveal(in_progress);
    if slab.at(i) != base.at(i) {
        let f = choose|f: nat| cleaned(base, hidden, slab, i, f);
        assert(cleaned(base, hidden, slab, i, f));
        assert forall|fuel: nat| #[trigger] deep(base, hidden, i, fuel) implies content_id(
            base,
            hidden,
            i,
            fuel,
        ) == Ok::<Id, StoreFault>(node_id(slab.node(i))) && !partly_covered(base, hidden, i, fuel)
            && complete(base, hidden, slab, objects, i, fuel) by {
            if f <= fuel {
                lemma_deep_more(base, hidden, i, f, fuel);
            } else {
                lemma_deep_more(base, hidden, i, fuel, f);
            }
        }
    }
}

/// What is complete stays complete.
pub proof fn lemma_stays_complete(
    base: SlabView,
    hidden: Set<Seq<char>>,
    first: Objects,
    before: SlabView,
    objects: Objects,
    after: SlabView,
    later: Objects,
    i: InodeId,
    fuel: nat,
)
    requires
        in_progress(base, hidden, first, before, objects),
        settled(base, hidden, after),
        kept(base, before, after),
        grown(objects, later),
        deep(base, hidden, i, fuel),
        complete(base, hidden, before, objects, i, fuel),
    ensures
        complete(base, hidden, after, later, i, fuel),
    decreases fuel,
{
    lemma_at(base, hidden, first, before, objects, i);
    if after.at(i) != base.at(i) {
        let f = choose|f: nat| cleaned(base, hidden, after, i, f);
        assert(cleaned(base, hidden, after, i, f));
    }
    if before.at(i) != base.at(i) {
        assert(after.at(i) == before.at(i));
    }
    if let NodeView::DirtyTree(children) = base.node(i) {
        assert forall|name: Seq<char>| #[trigger] children.contains_key(name) && !skipped(
            base,
            hidden,
            i,
            name,
            children[name],
        ) implies fuel > 0 && complete(
            base,
            hidden,
            after,
            later,
            children[name],
            (fuel - 1) as nat,
        ) by {
            lemma_stays_complete(
                base,
                hidden,
                first,
                before,
                objects,
                after,
                later,
                children[name],
                (fuel - 1) as nat,
            );
        }
    }
}

proof fn lemma_kept_through(base: SlabView, a: SlabView, b: SlabView, c: SlabView)
    requires
        kept(base, a, b),
        kept(base, b, c),
    ensures
        kept(base, a, c),
{
    assert forall|j: InodeId| base.has(j) && a.at(j) != base.at(j)
        implies #[trigger] c.at(j) == a.at(j) by {
        assert(b.at(j) == a.at(j));
    }
}

/// The content of one dirty inode was stored.
proof fn lemma_store_one(
    base: SlabView,
    hidden: Set<Seq<char>>,
    first: Objects,
    slab: SlabView,
    objects: Objects,
    i: InodeId,
    fuel: nat,
    id: Id,
    stored: Objects,
)
    requires
        in_progress(base, hidden, first, slab, objects),
        deep(base, hidden, i, fuel),
        base.node(i).is_dirty(),
        content_id(base, hidden, i, fuel) == Ok::<Id, StoreFault>(id),
        stored == written(
            objects,
            content_object(base, hidden, i, fuel).kind,
            content_object(base, hidden, i, fuel).data,
        ),
        crate::git_store::object_id(
            content_object(base, hidden, i, fuel).kind,
            content_object(base, hidden, i, fuel).data,
        ) == Some(id),
    ensures
        in_progress(base, hidden, first, slab, stored),
        grown(objects, stored),
{
    assert(settled(base, hidden, slab) && finished(base, hidden, slab, objects)) by {
        reveal(in_progress);
    }
    assert(grown(objects, stored));
    assert(kept(base, slab, slab));
    assert(finished(base, hidden, slab, stored)) by {
        assert forall|k: InodeId, f: nat|
            base.has(k) && slab.at(k) != base.at(k) && #[trigger] deep(base, hidden, k, f)
                implies complete(base, hidden, slab, stored, k, f) by {
            lemma_stays_complete(base, hidden, first, slab, objects, slab, stored, k, f);
        }
    }
    reveal(in_progress);
    assert forall|x: Id| #[trigger] stored.contains_key(x) && !first.contains_key(x) implies exists|
        j: InodeId,
        f: nat,
    |
        {
            &&& deep(base, hidden, j, f)
            &&& base.node(j).is_dirty()
            &&& content_id(base, hidden, j, f) == Ok::<Id, StoreFault>(x)
            &&& stored[x] == #[trigger] content_object(base, hidden, j, f)
        } by {
        if objects.contains_key(x) {
            let (j, f) = choose|j: InodeId, f: nat|
                {
                    &&& deep(base, hidden, j, f)
                    &&& base.node(j).is_dirty()
                    &&& content_id(base, hidden, j, f) == Ok::<Id, StoreFault>(x)
                    &&& objects[x] == #[trigger] content_object(base, hidden, j, f)
                };
            assert(stored[x] == content_object(base, hidden, j, f));
        } else {
            assert(x == id);
            assert(stored[x] == content_object(base, hidden, i, fuel));
        }
    }
}

/// One dirty inode, whose content the store holds, was cleaned.
proof fn lemma_clean_one(
    base: SlabView,
    hidden: Set<Seq<char>>,
    first: Objects,
    slab: SlabView,
    objects: Objects,
    i: InodeId,
    fuel: nat,
    id: Id,
    after: SlabView,
)
    requires
        in_progress(base, hidden, first, slab, objects),
        deep(base, hidden, i, fuel),
        base.node(i).is_dirty(),
        !partly_covered(base, hidden, i, fuel),
        content_id(base, hidden, i, fuel) == Ok::<Id, StoreFault>(id),
        base.node(i) matches NodeView::DirtyTree(children) ==> forall|name: Seq<char>| #[trigger]
            children.contains_key(name) ==> fuel > 0 && complete(
                base,
                hidden,
                slab,
                objects,
                children[name],
                (fuel - 1) as nat,
            ),
        after == slab.with_node(i, clean_node(base.node(i), id)),
        objects.contains_key(id),
    ensures
        in_progress(base, hidden, first, after, objects),
        complete(base, hidden, after, objects, i, fuel),
        kept(base, slab, after),
        forall|j: InodeId| base.has(j) && j != i ==> #[trigger] after.at(j) == slab.at(j),
{
    let node = clean_node(base.node(i), id);
    let target = InodeView { node, ..base.at(i) };
    assert(settled(base, hidden, slab)) by {
        reveal(in_progress);
    }
    lemma_at(base, hidden, first, slab, objects, i);
    assert(after.at(i) == target) by {
        if slab.at(i) != base.at(i) {
            let f = choose|f: nat| cleaned(base, hidden, slab, i, f);
            assert(cleaned(base, hidden, slab, i, f));
        }
    }
    assert(cleaned(base, hidden, after, i, fuel));
    assert forall|j: InodeId| base.has(j) && j != i
        implies #[trigger] after.at(j) == slab.at(j) by {}
    assert(settled(base, hidden, after)) by {
        assert forall|j: InodeId| base.has(j) implies #[trigger] after.at(j) == base.at(j)
            || exists|f: nat| cleaned(base, hidden, after, j, f) by {
            if j != i && slab.at(j) != base.at(j) {
                let f = choose|f: nat| cleaned(base, hidden, slab, j, f);
                assert(cleaned(base, hidden, after, j, f));
            }
        }
    }
    assert(kept(base, slab, after)) by {
        if slab.at(i) != base.at(i) {
            let f = choose|f: nat| cleaned(base, hidden, slab, i, f);
            assert(cleaned(base, hidden, slab, i, f));
            if f <= fuel {
                lemma_deep_more(base, hidden, i, f, fuel);
            } else {
                lemma_deep_more(base, hidden, i, fuel, f);
            }
            assert(slab.at(i) == after.at(i));
        }
    }
    assert(complete(base, hidden, after, objects, i, fuel)) by {
        if let NodeView::DirtyTree(children) = base.node(i) {
            assert forall|name: Seq<char>| #[trigger] children.contains_key(name) && !skipped(
                base,
                hidden,
                i,
                name,
                children[name],
            ) implies fuel > 0 && complete(
                base,
                hidden,
                after,
                objects,
                children[name],
                (fuel - 1) as nat,
            ) by {
                lemma_stays_complete(
                    base,
                    hidden,
                    first,
                    slab,
                    objects,
                    after,
                    objects,
                    children[name],
                    (fuel - 1) as nat,
                );
            }
        }
    }
    assert(finished(base, hidden, after, objects)) by {
        assert forall|k: InodeId, f: nat|
            base.has(k) && after.at(k) != base.at(k) && #[trigger] deep(base, hidden, k, f)
                implies complete(base, hidden, after, objects, k, f) by {
            if k == i {
                if f <= fuel {
                    lemma_complete_more(base, hidden, after, objects, i, f, fuel);
                } else {
                    lemma_complete_more(base, hidden, after, objects, i, fuel, f);
                }
            } else {
                assert(slab.at(k) != base.at(k));
                lemma_at(base, hidden, first, slab, objects, k);
                lemma_stays_complete(base, hidden, first, slab, objects, after, objects, k, f);
            }
        }
    }
    reveal(in_progress);
}

fn kind_for_entry(node: &NodeRef) -> (k: GitEntryKind)
    ensures
        k == entry_kind_of(node@),
{
    match node {
        NodeRef::Tree(_) => GitEntryKind::Tree,
        NodeRef::DirtyTree { .. } => GitEntryKind::Tree,
        NodeRef::File { executable, .. } => GitEntryKind::File { executable: *executable },
        NodeRef::DirtyFile { executable, .. } => GitEntryKind::File { executable: *executable },
        NodeRef::Symlink(_) => GitEntryKind::Symlink,
        NodeRef::DirtySymlink { .. } => GitEntryKind::Symlink,
    }
}

fn name_hidden(name: &str, hidden: &Vec<&str>) -> (r: bool)
    ensures
        r == hidden_set(hidden@).contains(name@),
{
    let mut i: usize = 0;
    while i < hidden.len()
        invariant
            i <= hidden@.len(),
            forall|j: int| 0 <= j < i ==> hidden@[j]@ != name@,
        decreases hidden@.len() - i,
    {
        if same_str(hidden[i], name) {
            assert(hidden@[i as int]@ == name@);
            return true;
        }
        i = i + 1;
    }
    false
}

/// Store everything modified below `ino` that is not skipped, let the slab
/// point at what was stored, and return the id of `ino`.
pub(crate) fn snapshot_node(
    slab: &mut InodeSlab,
    store: &mut GitContentStore,
    hidden: &Vec<&str>,
    ino: InodeId,
    Ghost(base): Ghost<SlabView>,
    Ghost(first): Ghost<Objects>,
    Ghost(fuel): Ghost<nat>,
) -> (r: Result<Id, FsError>)
    requires
        in_progress(base, hidden_set(hidden@), first, old(slab)@, old(store)@),
        deep(base, hidden_set(hidden@), ino, fuel),
    ensures
        in_progress(base, hidden_set(hidden@), first, final(slab)@, final(store)@),
        kept(base, old(slab)@, final(slab)@),
        changed_below(base, hidden_set(hidden@), old(slab)@, final(slab)@, ino),
        grown(old(store)@, final(store)@),
        final(store).path() == old(store).path(),
        match content_id(base, hidden_set(hidden@), ino, fuel) {
            Ok(id) => {
                &&& r == Ok::<Id, FsError>(id)
                &&& complete(
                    base,
                    hidden_set(hidden@),
                    final(slab)@,
                    final(store)@,
                    ino,
                    fuel,
                )
                &&& final(slab)@.node(ino).is_dirty() == partly_covered(
                    base,
                    hidden_set(hidden@),
                    ino,
                    fuel,
                )
            },
            Err(fault) => r matches Err(e) && e@ == fault_view(fault),
        },
    decreases fuel, 1nat,
{
    let ghost h = hidden_set(hidden@);
    let ghost slab0 = slab@;
    let ghost store0 = store@;
    proof {
        assert(walk(base, h, ino, seq![]) == Some(ino));
        lemma_at(base, h, first, slab0, store0, ino);
    }
    let inode = match slab.inode(ino) {
        Some(inode) => inode,
        None => {
            return Err(FsError::NotFound);
        },
    };
    match &inode.node {
        NodeRef::Tree(id) => Ok(*id),
        NodeRef::File { id, .. } => Ok(*id),
        NodeRef::Symlink(id) => Ok(*id),
        NodeRef::DirtyFile { content, executable } => {
            let executable: bool = *executable;
            match store.write_file(content.as_slice()) {
                Ok(id) => {
                    let _ = slab.replace_node(ino, NodeRef::File { id, executable });
                    proof {
                        lemma_store_one(base, h, first, slab0, store0, ino, fuel, id, store@);
                        lemma_clean_one(base, h, first, slab0, store@, ino, fuel, id, slab@);
                    }
                    Ok(id)
                },
                Err(fault) => Err(store_err(fault)),
            }
        },
        NodeRef::DirtySymlink { target } => match store.write_symlink(target.as_str()) {
            Ok(id) => {
                let _ = slab.replace_node(ino, NodeRef::Symlink(id));
                proof {
                    lemma_store_one(base, h, first, slab0, store0, ino, fuel, id, store@);
                    lemma_clean_one(base, h, first, slab0, store@, ino, fuel, id, slab@);
                }
                Ok(id)
            },
            Err(fault) => Err(store_err(fault)),
        },
        NodeRef::DirtyTree { children } => {
            let children = children.copy();
            snapshot_dir(slab, store, hidden, ino, &children, Ghost(base), Ghost(first), Ghost(fuel))
        },
    }
}

/// Store a modified directory after everything below it. It keeps its entries
/// where some of them, or some below them, are left out.
fn snapshot_dir(
    slab: &mut InodeSlab,
    store: &mut GitContentStore,
    hidden: &Vec<&str>,
    ino: InodeId,
    children: &NameMap<u64>,
    Ghost(base): Ghost<SlabView>,
    Ghost(first): Ghost<Objects>,
    Ghost(fuel): Ghost<nat>,
) -> (r: Result<Id, FsError>)
    requires
        in_progress(base, hidden_set(hidden@), first, old(slab)@, old(store)@),
        deep(base, hidden_set(hidden@), ino, fuel),
        base.node(ino) == NodeView::DirtyTree(children@),
        old(slab)@.at(ino) == base.at(ino),
    ensures
        in_progress(base, hidden_set(hidden@), first, final(slab)@, final(store)@),
        kept(base, old(slab)@, final(slab)@),
        changed_below(base, hidden_set(hidden@), old(slab)@, final(slab)@, ino),
        grown(old(store)@, final(store)@),
        final(store).path() == old(store).path(),
        match content_id(base, hidden_set(hidden@), ino, fuel) {
            Ok(id) => {
                &&& r == Ok::<Id, FsError>(id)
                &&& complete(
                    base,
                    hidden_set(hidden@),
                    final(slab)@,
                    final(store)@,
                    ino,
                    fuel,
                )
                &&& final(slab)@.node(ino).is_dirty() == partly_covered(
                    base,
                    hidden_set(hidden@),
                    ino,
                    fuel,
                )
            },
            Err(fault) => r matches Err(e) && e@ == fault_view(fault),
        },
    decreases fuel, 0nat,
{
    let ghost h = hidden_set(hidden@);
    let ghost slab0 = slab@;
    let ghost store0 = store@;
    let ghost map = children@;
    let ghost order = in_order(map);
    let n: usize = children.len();
    let mut entries: Vec<GitTreeEntry> = Vec::new();
    assert(tree_view(entries@) =~= seq![]);
    let mut partly: bool = false;
    let mut k: usize = 0;
    while k < n
        invariant
            k <= n,
            n == order.len(),
            h == hidden_set(hidden@),
            slab0 == old(slab)@,
            store0 == old(store)@,
            map == children@,
            order == in_order(map),
            order.to_set() == map.dom(),
            base.node(ino) == NodeView::DirtyTree(map),
            deep(base, h, ino, fuel),
            in_progress(base, h, first, slab@, store@),
            kept(base, slab0, slab@),
            changed_below(base, h, slab0, slab@, ino),
            grown(store0, store@),
            store.path() == old(store).path(),
            content_entries(base, h, ino, map, order.take(k as int), fuel) == Ok::<
                Seq<EntryView>,
                StoreFault,
            >(tree_view(entries@)),
            forall|j: int|
                0 <= j < k && !skipped(base, h, ino, #[trigger] order[j], map[order[j]]) ==> fuel
                    > 0 && complete(base, h, slab@, store@, map[order[j]], (fuel - 1) as nat),
            partly == exists|j: int|
                0 <= j < k && (skipped(base, h, ino, #[trigger] order[j], map[order[j]]) || (fuel > 0
                    && partly_covered(base, h, map[order[j]], (fuel - 1) as nat))),
        decreases n - k,
    {
        let (name, child) = children.at(k);
        let child: InodeId = *child;
        proof {
            assert(order.take(k + 1).drop_last() =~= order.take(k as int));
            assert(order.take(k + 1).last() == name@);
            assert(map.contains_key(name@));
            assert(base.has(child));
            lemma_at(base, h, first, slab@, store@, child);
        }
        let skip = (ino == ROOT_INODE && name_hidden(name, hidden)) || match slab.inode(child) {
            Some(c) => c.ignored,
            None => false,
        };
        let ghost was = partly;
        if skip {
            partly = true;
            assert(skipped(base, h, ino, order[k as int], map[order[k as int]]));
        } else {
            let kind = match slab.inode(child) {
                Some(c) => kind_for_entry(&c.node),
                None => {
                    assert(false);
                    return Err(FsError::NotFound);
                },
            };
            let ghost before = slab@;
            let ghost stored = store@;
            match snapshot_node(
                slab,
                store,
                hidden,
                child,
                Ghost(base),
                Ghost(first),
                Ghost((fuel - 1) as nat),
            ) {
                Ok(id) => {
                    let e = GitTreeEntry { name: name.to_owned(), kind, id };
                    let ghost value = e@;
                    let ghost listed = tree_view(entries@);
                    entries.push(e);
                    assert(tree_view(entries@) =~= listed.push(value));
                },
                Err(e) => {
                    proof {
                        lemma_entries_error(base, h, ino, map, order, k + 1, fuel);
                        lemma_changed_through(base, h, slab0, before, slab@, ino, name@, child);
                        lemma_kept_through(base, slab0, before, slab@);
                    }
                    return Err(e);
                },
            }
            if let Some(c) = slab.inode(child) {
                if c.node.is_dirty() {
                    partly = true;
                    assert(partly_covered(base, h, map[order[k as int]], (fuel - 1) as nat));
                }
            }
            proof {
                lemma_in_progress(base, h, first, slab@, store@);
                lemma_changed_through(base, h, slab0, before, slab@, ino, name@, child);
                lemma_kept_through(base, slab0, before, slab@);
                assert forall|j: int|
                    0 <= j < k + 1 && !skipped(base, h, ino, #[trigger] order[j], map[order[j]])
                        implies fuel > 0 && complete(
                    base,
                    h,
                    slab@,
                    store@,
                    map[order[j]],
                    (fuel - 1) as nat,
                ) by {
                    if j < k {
                        let c = map[order[j]];
                        assert(map.contains_key(order[j]));
                        lemma_stays_complete(
                            base,
                            h,
                            first,
                            before,
                            stored,
                            slab@,
                            store@,
                            c,
                            (fuel - 1) as nat,
                        );
                    }
                }
            }
        }
        proof {
            if was {
                let j = choose|j: int|
                    0 <= j < k && (skipped(base, h, ino, #[trigger] order[j], map[order[j]]) || (fuel
                        > 0 && partly_covered(base, h, map[order[j]], (fuel - 1) as nat)));
                assert(0 <= j < k + 1);
                assert(skipped(base, h, ino, order[j], map[order[j]]) || (fuel > 0
                    && partly_covered(base, h, map[order[j]], (fuel - 1) as nat)));
            }
        }
        k = k + 1;
    }
    assert(order.take(k as int) =~= order);
    let ghost slab1 = slab@;
    let ghost store1 = store@;
    proof {
        lemma_at(base, h, first, slab1, store1, ino);
    }
    proof {
        assert forall|name: Seq<char>| #[trigger] map.contains_key(name) && !skipped(
            base,
            h,
            ino,
            name,
            map[name],
        ) implies fuel > 0 && complete(base, h, slab1, store1, map[name], (fuel - 1) as nat) by {
            assert(order.to_set().contains(name));
            let j = choose|j: int| 0 <= j < order.len() && order[j] == name;
            assert(!skipped(base, h, ino, order[j], map[order[j]]));
        }
        if partly {
            let j = choose|j: int|
                0 <= j < k && (skipped(base, h, ino, #[trigger] order[j], map[order[j]]) || (fuel > 0
                    && partly_covered(base, h, map[order[j]], (fuel - 1) as nat)));
            assert(order.to_set().contains(order[j]));
            assert(map.contains_key(order[j]));
        }
        if partly_covered(base, h, ino, fuel) {
            let name = choose|name: Seq<char>| #[trigger]
                map.contains_key(name) && (skipped(base, h, ino, name, map[name]) || (fuel > 0
                    && partly_covered(base, h, map[name], (fuel - 1) as nat)));
            assert(order.to_set().contains(name));
            let j = choose|j: int| 0 <= j < order.len() && order[j] == name;
            assert(skipped(base, h, ino, order[j], map[order[j]]) || (fuel > 0 && partly_covered(
                base,
                h,
                map[order[j]],
                (fuel - 1) as nat,
            )));
        }
        assert(partly == partly_covered(base, h, ino, fuel));
    }
    match store.write_tree(&entries) {
        Ok(id) => {
            proof {
                lemma_store_one(base, h, first, slab1, store1, ino, fuel, id, store@);
                lemma_in_progress(base, h, first, slab1, store@);
                assert(kept(base, slab1, slab1));
                assert forall|name: Seq<char>| #[trigger] map.contains_key(name) && !skipped(
                    base,
                    h,
                    ino,
                    name,
                    map[name],
                ) implies fuel > 0 && complete(
                    base,
                    h,
                    slab1,
                    store@,
                    map[name],
                    (fuel - 1) as nat,
                ) by {
                    lemma_stays_complete(
                        base,
                        h,
                        first,
                        slab1,
                        store1,
                        slab1,
                        store@,
                        map[name],
                        (fuel - 1) as nat,
                    );
                }
            }
            if partly {
                return Ok(id);
            }
            let _ = slab.replace_node(ino, NodeRef::Tree(id));
            proof {
                assert forall|name: Seq<char>| #[trigger] map.contains_key(name) implies fuel > 0
                    && complete(base, h, slab1, store@, map[name], (fuel - 1) as nat) by {
                    assert(!skipped(base, h, ino, name, map[name]));
                }
                lemma_clean_one(base, h, first, slab1, store@, ino, fuel, id, slab@);
                lemma_kept_through(base, slab0, slab1, slab@);
                assert(walk(base, h, ino, seq![]) == Some(ino));
                assert forall|j: InodeId| base.has(j) && #[trigger] slab@.at(j) != slab0.at(j)
                    implies exists|
                    path: Seq<Seq<char>>,
                |
                    walk(base, h, ino, path) == Some(j) by {
                    if j != ino {
                        assert(slab@.at(j) == slab1.at(j));
                    }
                }
            }
            Ok(id)
        },
        Err(fault) => Err(store_err(fault)),
    }
}

proof fn lemma_changed_through(
    base: SlabView,
    hidden: Set<Seq<char>>,
    slab0: SlabView,
    before: SlabView,
    after: SlabView,
    i: InodeId,
    name: Seq<char>,
    child: InodeId,
)
    requires
        base.node(i) matches NodeView::DirtyTree(m) && m.contains_key(name) && m[name] == child,
        !skipped(base, hidden, i, name, child),
        changed_below(base, hidden, slab0, before, i),
        changed_below(base, hidden, before, after, child),
    ensures
        changed_below(base, hidden, slab0, after, i),
{
    assert forall|j: InodeId| base.has(j) && #[trigger] after.at(j) != slab0.at(j) implies exists|
        path: Seq<Seq<char>>,
    |
        walk(base, hidden, i, path) == Some(j) by {
        if after.at(j) != before.at(j) {
            let path = choose|path: Seq<Seq<char>>| walk(base, hidden, child, path) == Some(j);
            let full = seq![name] + path;
            assert(full.drop_first() =~= path);
            assert(full[0] == name);
            assert(walk(base, hidden, i, full) == Some(j));
        } else {
            assert(before.at(j) != slab0.at(j));
        }
    }
}

} // verus!
