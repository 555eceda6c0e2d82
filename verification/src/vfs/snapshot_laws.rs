//! What a snapshot stores, entry by entry, and what it leaves out.
use vstd::prelude::*;
use vstd::utf8::encode_utf8;
use crate::git_store::{
    blob_id, tree_data, tree_id, EntryView, GitEntryKind, GitObjectKind, Objects, StoreFault,
};
use crate::ty::Id;
use crate::vfs::inode::{InodeId, NodeView, SlabView, ROOT_INODE};
use crate::vfs::kiki_fs::{outside_tree, snapshotted, KikiView};
use crate::vfs::laws::lemma_entries;
use crate::vfs::name_map::{ascending, in_order, in_order_of_finite};
use crate::vfs::snapshot::{
    clean_node, content_entries, content_id, content_object, entry_kind_of, skipped,
};
use crate::vfs::types::ErrView;

verus! {

/// A snapshot leaves out what is ignored, and of the entries of the root those that the
/// working copy keeps apart: `.jj` and `.git`. It leaves out nothing else.
pub proof fn only_ignored_and_kept_names_are_left_out(
    slab: SlabView,
    hidden: Set<Seq<char>>,
    dir: InodeId,
    name: Seq<char>,
    child: InodeId,
)
    ensures
        skipped(slab, hidden, dir, name, child) <==> slab.inodes[child - 1].ignored || (dir
            == ROOT_INODE && hidden.contains(name)),
        outside_tree().contains(name) <==> name == ".jj"@ || name == ".git"@,
{
}

/// A node is written as the kind that it is, with its mode.
pub proof fn nodes_are_written_as_their_kind(node: NodeView, id: Id)
    ensures
        node is Tree || node is DirtyTree <==> entry_kind_of(node) is Tree,
        node is Symlink || node is DirtySymlink <==> entry_kind_of(node) is Symlink,
        node matches NodeView::File { executable, .. } ==> entry_kind_of(node)
            == (GitEntryKind::File { executable }),
        node matches NodeView::DirtyFile { executable, .. } ==> entry_kind_of(node)
            == (GitEntryKind::File { executable }),
        node is DirtyTree ==> clean_node(node, id) == NodeView::Tree(id),
        node is DirtySymlink ==> clean_node(node, id) == NodeView::Symlink(id),
        node matches NodeView::DirtyFile { executable, .. } ==> clean_node(node, id)
            == (NodeView::File { id, executable }),
        !node.is_dirty() ==> clean_node(node, id) == node,
{
}

/// What is stored of an inode: a clean one is stored already, under its id; a file as
/// its bytes, and a symlink as the bytes of its target.
pub proof fn leaves_are_stored_as_their_bytes(
    slab: SlabView,
    hidden: Set<Seq<char>>,
    i: InodeId,
    fuel: nat,
)
    requires
        1 <= i <= slab.inodes.len(),
    ensures
        match slab.inodes[i - 1].node {
            NodeView::Tree(id) => content_id(slab, hidden, i, fuel) == Ok::<Id, StoreFault>(id),
            NodeView::File { id, .. } => content_id(slab, hidden, i, fuel) == Ok::<Id, StoreFault>(
                id,
            ),
            NodeView::Symlink(id) => content_id(slab, hidden, i, fuel) == Ok::<Id, StoreFault>(id),
            NodeView::DirtyFile { content, .. } => {
                &&& content_id(slab, hidden, i, fuel) == blob_id(content)
                &&& content_object(slab, hidden, i, fuel).kind == GitObjectKind::Blob
                &&& content_object(slab, hidden, i, fuel).data == content
            },
            NodeView::DirtySymlink(target) => {
                &&& content_id(slab, hidden, i, fuel) == blob_id(encode_utf8(target))
                &&& content_object(slab, hidden, i, fuel).kind == GitObjectKind::Blob
                &&& content_object(slab, hidden, i, fuel).data == encode_utf8(target)
            },
            NodeView::DirtyTree(_) => true,
        },
{
}

/// The entries are those of the children: one for each child that is not left out, with
/// its name, its kind and the id of its content.
pub open spec fn entries_of_children(
    slab: SlabView,
    hidden: Set<Seq<char>>,
    i: InodeId,
    children: Map<Seq<char>, InodeId>,
    fuel: nat,
    entries: Seq<EntryView>,
) -> bool {
    &&& forall|name: Seq<char>| #[trigger]
        children.contains_key(name) && !slab.inodes[children[name] - 1].ignored && !(i == ROOT_INODE
            && hidden.contains(name)) ==> exists|k: int|
            0 <= k < entries.len() && (#[trigger] entries[k]).name == name
    &&& forall|k: int|
        0 <= k < entries.len() ==> {
            let e = #[trigger] entries[k];
            let child = children[e.name];
            &&& children.contains_key(e.name)
            &&& !slab.inodes[child - 1].ignored
            &&& !(i == ROOT_INODE && hidden.contains(e.name))
            &&& e.kind == entry_kind_of(slab.inodes[child - 1].node)
            &&& content_id(slab, hidden, child, (fuel - 1) as nat) == Ok::<Id, StoreFault>(e.id)
        }
    &&& forall|a: int, b: int|
        0 <= a < b < entries.len() ==> (#[trigger] entries[a]).name != (#[trigger] entries[b]).name
}

proof fn lemma_entry_names(
    slab: SlabView,
    hidden: Set<Seq<char>>,
    i: InodeId,
    children: Map<Seq<char>, InodeId>,
    names: Seq<Seq<char>>,
    fuel: nat,
)
    requires
        ascending(names),
        content_entries(slab, hidden, i, children, names, fuel) is Ok,
    ensures
        ({
            let entries = content_entries(slab, hidden, i, children, names, fuel)->Ok_0;
            &&& forall|k: int|
                0 <= k < entries.len() ==> names.contains((#[trigger] entries[k]).name)
            &&& forall|a: int, b: int|
                0 <= a < b < entries.len() ==> (#[trigger] entries[a]).name != (
                #[trigger] entries[b]).name
        }),
    decreases names.len(),
{
    if names.len() > 0 {
        let front = names.drop_last();
        let name = names.last();
        lemma_front_ascends(names);
        lemma_entry_names(slab, hidden, i, children, front, fuel);
        let before = content_entries(slab, hidden, i, children, front, fuel)->Ok_0;
        let entries = content_entries(slab, hidden, i, children, names, fuel)->Ok_0;
        assert forall|k: int| 0 <= k < entries.len() implies names.contains(
            (#[trigger] entries[k]).name,
        ) by {
            if k < before.len() {
                assert(entries[k] == before[k]);
                let m = choose|m: int| 0 <= m < front.len() && front[m] == before[k].name;
                assert(names[m] == before[k].name);
            } else {
                assert(names[names.len() - 1] == name);
            }
        }
        assert forall|a: int, b: int| 0 <= a < b < entries.len() implies (
        #[trigger] entries[a]).name != (#[trigger] entries[b]).name by {
            assert(entries[a] == before[a]);
            if b < before.len() {
                assert(entries[b] == before[b]);
            } else {
                let m = choose|m: int| 0 <= m < front.len() && front[m] == before[a].name;
                assert(names[m] == before[a].name);
                assert(crate::text::name_lt(names[m], names[names.len() - 1]));
                crate::text::name_lt_irreflexive(name);
            }
        }
    }
}

proof fn lemma_front_ascends(names: Seq<Seq<char>>)
    requires
        ascending(names),
        names.len() > 0,
    ensures
        ascending(names.drop_last()),
{
    let front = names.drop_last();
    assert forall|a: int, b: int| 0 <= a < b < front.len() implies crate::text::name_lt(
        #[trigger] front[a],
        #[trigger] front[b],
    ) by {
        assert(names[a] == front[a] && names[b] == front[b]);
    }
}

/// A directory is stored as the tree of its children: one entry for each that is not
/// left out, under its name, with its kind and the id of its content.
pub proof fn directories_are_stored_as_their_children(
    slab: SlabView,
    hidden: Set<Seq<char>>,
    i: InodeId,
    children: Map<Seq<char>, InodeId>,
    fuel: nat,
)
    requires
        1 <= i <= slab.inodes.len(),
        slab.inodes[i - 1].node == NodeView::DirtyTree(children),
        children.dom().finite(),
        content_id(slab, hidden, i, fuel) is Ok,
    ensures
        exists|entries: Seq<EntryView>| #[trigger]
            entries_of_children(slab, hidden, i, children, fuel, entries) && content_id(
                slab,
                hidden,
                i,
                fuel,
            ) == tree_id(entries) && content_object(slab, hidden, i, fuel).kind
                == GitObjectKind::Tree && content_object(slab, hidden, i, fuel).data == tree_data(
                entries,
            ),
{
    in_order_of_finite(children);
    let names = in_order(children);
    let entries = content_entries(slab, hidden, i, children, names, fuel)->Ok_0;
    lemma_entries(slab, hidden, i, children, names, fuel);
    lemma_entry_names(slab, hidden, i, children, names, fuel);
    assert forall|name: Seq<char>| #[trigger]
        children.contains_key(name) && !slab.inodes[children[name] - 1].ignored && !(i == ROOT_INODE
            && hidden.contains(name)) implies exists|k: int|
        0 <= k < entries.len() && (#[trigger] entries[k]).name == name by {
        assert(names.to_set().contains(name));
        assert(names.contains(name));
        assert(!skipped(slab, hidden, i, name, children[name]));
    }
    assert forall|k: int| 0 <= k < entries.len() implies {
        let e = #[trigger] entries[k];
        let child = children[e.name];
        &&& children.contains_key(e.name)
        &&& !slab.inodes[child - 1].ignored
        &&& !(i == ROOT_INODE && hidden.contains(e.name))
        &&& e.kind == entry_kind_of(slab.inodes[child - 1].node)
        &&& content_id(slab, hidden, child, (fuel - 1) as nat) == Ok::<Id, StoreFault>(e.id)
    } by {
        assert(names.contains(entries[k].name));
        assert(names.to_set().contains(entries[k].name));
    }
    assert(entries_of_children(slab, hidden, i, children, fuel, entries));
}

proof fn lemma_entries_succeed(
    slab: SlabView,
    hidden: Set<Seq<char>>,
    i: InodeId,
    children: Map<Seq<char>, InodeId>,
    names: Seq<Seq<char>>,
    fuel: nat,
)
    requires
        fuel > 0,
        forall|k: int|
            0 <= k < names.len() && !skipped(slab, hidden, i, #[trigger] names[k], children[names[k]])
                ==> content_id(slab, hidden, children[names[k]], (fuel - 1) as nat) is Ok,
    ensures
        content_entries(slab, hidden, i, children, names, fuel) is Ok,
    decreases names.len(),
{
    if names.len() > 0 {
        let front = names.drop_last();
        assert forall|k: int| 0 <= k < front.len() && !skipped(
            slab,
            hidden,
            i,
            #[trigger] front[k],
            children[front[k]],
        ) implies content_id(slab, hidden, children[front[k]], (fuel - 1) as nat) is Ok by {
            assert(names[k] == front[k]);
        }
        lemma_entries_succeed(slab, hidden, i, children, front, fuel);
        assert(names[names.len() - 1] == names.last());
    }
}

/// A directory has an id if every child that is not left out has one, unless its own
/// tree cannot be written: then the fault is that of writing the tree.
pub proof fn directories_have_ids_where_their_children_do(
    slab: SlabView,
    hidden: Set<Seq<char>>,
    i: InodeId,
    children: Map<Seq<char>, InodeId>,
    fuel: nat,
)
    requires
        1 <= i <= slab.inodes.len(),
        slab.inodes[i - 1].node == NodeView::DirtyTree(children),
        children.dom().finite(),
        fuel > 0,
        forall|name: Seq<char>| #[trigger]
            children.contains_key(name) && !slab.inodes[children[name] - 1].ignored ==> content_id(
                slab,
                hidden,
                children[name],
                (fuel - 1) as nat,
            ) is Ok,
    ensures
        exists|entries: Seq<EntryView>| #[trigger]
            entries_of_children(slab, hidden, i, children, fuel, entries) && content_id(
                slab,
                hidden,
                i,
                fuel,
            ) == tree_id(entries),
{
    in_order_of_finite(children);
    let names = in_order(children);
    assert forall|k: int| 0 <= k < names.len() && !skipped(
        slab,
        hidden,
        i,
        #[trigger] names[k],
        children[names[k]],
    ) implies content_id(slab, hidden, children[names[k]], (fuel - 1) as nat) is Ok by {
        assert(names.to_set().contains(names[k]));
        assert(children.contains_key(names[k]));
    }
    lemma_entries_succeed(slab, hidden, i, children, names, fuel);
    let entries = content_entries(slab, hidden, i, children, names, fuel)->Ok_0;
    lemma_entries(slab, hidden, i, children, names, fuel);
    lemma_entry_names(slab, hidden, i, children, names, fuel);
    assert forall|name: Seq<char>| #[trigger]
        children.contains_key(name) && !slab.inodes[children[name] - 1].ignored && !(i == ROOT_INODE
            && hidden.contains(name)) implies exists|k: int|
        0 <= k < entries.len() && (#[trigger] entries[k]).name == name by {
        assert(names.to_set().contains(name));
        assert(names.contains(name));
        assert(!skipped(slab, hidden, i, name, children[name]));
    }
    assert forall|k: int| 0 <= k < entries.len() implies {
        let e = #[trigger] entries[k];
        let child = children[e.name];
        &&& children.contains_key(e.name)
        &&& !slab.inodes[child - 1].ignored
        &&& !(i == ROOT_INODE && hidden.contains(e.name))
        &&& e.kind == entry_kind_of(slab.inodes[child - 1].node)
        &&& content_id(slab, hidden, child, (fuel - 1) as nat) == Ok::<Id, StoreFault>(e.id)
    } by {
        assert(names.contains(entries[k].name));
        assert(names.to_set().contains(entries[k].name));
    }
    assert(entries_of_children(slab, hidden, i, children, fuel, entries));
}

/// A snapshot changes no object and no rule, and moves no inode: it adds objects, and
/// makes modified inodes clean. What it answers is the id of everything below the root.
pub proof fn snapshots_only_add_objects(
    before: KikiView,
    stored: Objects,
    after: KikiView,
    now: Objects,
    r: Result<Id, ErrView>,
    object: Id,
    ino: InodeId,
)
    requires
        snapshotted(before, stored, after, now, r),
    ensures
        stored.contains_key(object) ==> now.contains_key(object) && now[object] == stored[object],
        after.rules == before.rules,
        after.redirections == before.redirections,
        after.scratch_dir == before.scratch_dir,
        after.commit_mtime == before.commit_mtime,
        after.git_file == before.git_file,
        after.jj_subtree == before.jj_subtree,
        after.slab.by_parent == before.slab.by_parent,
        after.slab.inodes.len() == before.slab.inodes.len(),
        before.slab.has(ino) ==> {
            &&& after.slab.at(ino).parent == before.slab.at(ino).parent
            &&& after.slab.at(ino).name == before.slab.at(ino).name
            &&& after.slab.at(ino).ignored == before.slab.at(ino).ignored
            &&& !before.slab.node(ino).is_dirty() ==> after.slab.at(ino) == before.slab.at(ino)
            &&& entry_kind_of(after.slab.node(ino)) == entry_kind_of(before.slab.node(ino))
        },
        r matches Ok(id) ==> content_id(
            before.slab,
            outside_tree(),
            ROOT_INODE,
            before.slab.inodes.len(),
        ) == Ok::<Id, StoreFault>(id),
        r matches Err(e) ==> e is StoreError,
{
    if before.slab.has(ino) {
        let s = after.slab.at(ino);
        if s != before.slab.at(ino) {
            let fuel = choose|fuel: nat|
                crate::vfs::snapshot::cleaned(before.slab, outside_tree(), after.slab, ino, fuel);
            assert(crate::vfs::snapshot::cleaned(
                before.slab,
                outside_tree(),
                after.slab,
                ino,
                fuel,
            ));
        }
    }
}

} // verus!
