//! What listings hold, in what order, and when directories can be listed and trees be
//! checked out.
use vstd::prelude::*;
use crate::git_store::{tree_at, EntryView, Objects};
use crate::ty::Id;
use crate::vfs::entry_laws::readable_dir;
use crate::vfs::inode::{InodeId, NodeView, SlabView, ROOT_INODE};
use crate::vfs::io_laws::bytes_of;
use crate::vfs::kiki_fs::KikiView;
use crate::vfs::name_map::{ascending, in_order, in_order_of_finite};
use crate::vfs::tidy::tidy;
use crate::vfs::tree_ops::{
    attr_result, clean_listing, dirty_listing, listed, listing, readlink_result,
};
use crate::vfs::types::{DirEntryView, ErrView, FileKind};

verus! {

/// A stored directory is listed entry by entry, in the order of its tree: each that is
/// not hidden shows under its name, as the kind that it is. The others do not show.
pub proof fn stored_directories_are_listed_in_order(
    slab: SlabView,
    dir: InodeId,
    front: Seq<EntryView>,
    e: EntryView,
    hidden: Set<Seq<char>>,
)
    ensures
        clean_listing(slab, dir, Seq::<EntryView>::empty(), hidden).len() == 0,
        hidden.contains(e.name) ==> clean_listing(slab, dir, front.push(e), hidden)
            == clean_listing(slab, dir, front, hidden),
        !hidden.contains(e.name) ==> {
            let all = clean_listing(slab, dir, front.push(e), hidden);
            &&& all.len() == clean_listing(slab, dir, front, hidden).len() + 1
            &&& all.drop_last() == clean_listing(slab, dir, front, hidden)
            &&& all.last().name == e.name
            &&& e.kind is Tree ==> all.last().kind == FileKind::Directory
            &&& e.kind is Symlink ==> all.last().kind == FileKind::Symlink
            &&& e.kind is File || e.kind is Submodule ==> all.last().kind == FileKind::Regular
            &&& all.last().inode == listed(slab, dir, front, hidden).interned_id(dir, e.name)
        },
{
    assert(front.push(e).drop_last() =~= front);
    if !hidden.contains(e.name) {
        let all = clean_listing(slab, dir, front.push(e), hidden);
        assert(all.drop_last() =~= clean_listing(slab, dir, front, hidden));
    }
}

/// The listing holds what the names lead to: each name once, in their order, that is not
/// hidden, with the inode and the kind of its child.
pub open spec fn lists_children(
    slab: SlabView,
    children: Map<Seq<char>, InodeId>,
    hidden: Set<Seq<char>>,
    list: Seq<DirEntryView>,
) -> bool {
    &&& forall|i: int|
        0 <= i < list.len() ==> {
            let e = #[trigger] list[i];
            &&& children.contains_key(e.name)
            &&& !hidden.contains(e.name)
            &&& e.inode == children[e.name]
            &&& match slab.inodes[e.inode - 1].node {
                NodeView::Tree(_) | NodeView::DirtyTree(_) => e.kind == FileKind::Directory,
                NodeView::File { .. } | NodeView::DirtyFile { .. } => e.kind == FileKind::Regular,
                NodeView::Symlink(_) | NodeView::DirtySymlink(_) => e.kind == FileKind::Symlink,
            }
        }
    &&& forall|name: Seq<char>| #[trigger]
        children.contains_key(name) && !hidden.contains(name) ==> exists|i: int|
            0 <= i < list.len() && (#[trigger] list[i]).name == name
    &&& forall|i: int, j: int|
        0 <= i < j < list.len() ==> crate::text::name_lt(
            (#[trigger] list[i]).name,
            (#[trigger] list[j]).name,
        )
}

proof fn lemma_lists_names(
    slab: SlabView,
    children: Map<Seq<char>, InodeId>,
    names: Seq<Seq<char>>,
    hidden: Set<Seq<char>>,
)
    requires
        ascending(names),
        forall|k: int|
            0 <= k < names.len() ==> children.contains_key(#[trigger] names[k]) && slab.has(
                children[names[k]],
            ),
    ensures
        dirty_listing(slab, children, names, hidden) is Ok,
        ({
            let list = dirty_listing(slab, children, names, hidden)->Ok_0;
            &&& forall|i: int|
                0 <= i < list.len() ==> {
                    let e = #[trigger] list[i];
                    &&& names.contains(e.name)
                    &&& !hidden.contains(e.name)
                    &&& e.inode == children[e.name]
                    &&& e.kind == crate::vfs::tree_ops::kind_of_node(slab.node(e.inode))
                }
            &&& forall|k: int|
                0 <= k < names.len() && !hidden.contains(#[trigger] names[k]) ==> exists|i: int|
                    0 <= i < list.len() && (#[trigger] list[i]).name == names[k]
            &&& forall|i: int, j: int|
                0 <= i < j < list.len() ==> crate::text::name_lt(
                    (#[trigger] list[i]).name,
                    (#[trigger] list[j]).name,
                )
        }),
    decreases names.len(),
{
    if names.len() > 0 {
        let front = names.drop_last();
        let name = names.last();
        assert(names[names.len() - 1] == name);
        assert(children.contains_key(names[names.len() - 1]));
        assert forall|a: int, b: int| 0 <= a < b < front.len() implies crate::text::name_lt(
            #[trigger] front[a],
            #[trigger] front[b],
        ) by {
            assert(names[a] == front[a] && names[b] == front[b]);
        }
        assert forall|k: int| 0 <= k < front.len() implies children.contains_key(#[trigger] front[k])
            && slab.has(children[front[k]]) by {
            assert(names[k] == front[k]);
        }
        lemma_lists_names(slab, children, front, hidden);
        let before = dirty_listing(slab, children, front, hidden)->Ok_0;
        let list = dirty_listing(slab, children, names, hidden)->Ok_0;
        assert forall|i: int| 0 <= i < list.len() implies {
            let e = #[trigger] list[i];
            &&& names.contains(e.name)
            &&& !hidden.contains(e.name)
            &&& e.inode == children[e.name]
            &&& e.kind == crate::vfs::tree_ops::kind_of_node(slab.node(e.inode))
        } by {
            if i < before.len() {
                assert(list[i] == before[i]);
                let m = choose|m: int| 0 <= m < front.len() && front[m] == before[i].name;
                assert(names[m] == before[i].name);
            }
        }
        assert forall|k: int| 0 <= k < names.len() && !hidden.contains(
            #[trigger] names[k],
        ) implies exists|i: int| 0 <= i < list.len() && (#[trigger] list[i]).name == names[k] by {
            if k < front.len() {
                assert(front[k] == names[k]);
                let i = choose|i: int|
                    0 <= i < before.len() && (#[trigger] before[i]).name == front[k];
                assert(list[i] == before[i]);
            } else {
                assert(list[list.len() - 1].name == name);
            }
        }
        assert forall|i: int, j: int| 0 <= i < j < list.len() implies crate::text::name_lt(
            (#[trigger] list[i]).name,
            (#[trigger] list[j]).name,
        ) by {
            assert(list[i] == before[i]);
            if j < before.len() {
                assert(list[j] == before[j]);
            } else {
                let m = choose|m: int| 0 <= m < front.len() && front[m] == before[i].name;
                assert(names[m] == before[i].name);
                assert(crate::text::name_lt(names[m], names[names.len() - 1]));
            }
        }
    }
}

/// A directory in memory lists its children by their names.
pub proof fn open_directories_are_listed_by_name(
    slab: SlabView,
    objects: Objects,
    dir: InodeId,
    children: Map<Seq<char>, InodeId>,
    hidden: Set<Seq<char>>,
)
    requires
        tidy(slab),
        1 <= dir <= slab.inodes.len(),
        slab.inodes[dir - 1].node == NodeView::DirtyTree(children),
    ensures
        listing(slab, objects, dir, hidden).0 == slab,
        listing(slab, objects, dir, hidden).1 matches Ok(list) && lists_children(
            slab,
            children,
            hidden,
            list,
        ),
{
    assert(slab.node(dir) is DirtyTree);
    in_order_of_finite(children);
    let names = in_order(children);
    assert forall|k: int| 0 <= k < names.len() implies children.contains_key(#[trigger] names[k])
        && slab.has(children[names[k]]) by {
        assert(names.to_set().contains(names[k]));
        assert(slab.attached(dir, names[k], children[names[k]]));
    }
    lemma_lists_names(slab, children, names, hidden);
    let list = dirty_listing(slab, children, names, hidden)->Ok_0;
    assert forall|i: int| 0 <= i < list.len() implies {
        let e = #[trigger] list[i];
        &&& children.contains_key(e.name)
        &&& !hidden.contains(e.name)
        &&& e.inode == children[e.name]
        &&& match slab.inodes[e.inode - 1].node {
            NodeView::Tree(_) | NodeView::DirtyTree(_) => e.kind == FileKind::Directory,
            NodeView::File { .. } | NodeView::DirtyFile { .. } => e.kind == FileKind::Regular,
            NodeView::Symlink(_) | NodeView::DirtySymlink(_) => e.kind == FileKind::Symlink,
        }
    } by {
        let e = list[i];
        assert(names.contains(e.name));
        assert(names.to_set().contains(e.name));
    }
    assert forall|name: Seq<char>| #[trigger]
        children.contains_key(name) && !hidden.contains(name) implies exists|i: int|
        0 <= i < list.len() && (#[trigger] list[i]).name == name by {
        assert(names.to_set().contains(name));
        let k = choose|k: int| 0 <= k < names.len() && names[k] == name;
        assert(!hidden.contains(names[k]));
    }
}

/// A directory can be listed exactly if it can be read. The root shows, behind what its
/// tree holds, the pinned `.jj` directory, if there is one, and the `.git` file, in
/// place of entries of those names.
pub proof fn readable_directories_can_be_listed(v: KikiView, objects: Objects, dir: InodeId)
    requires
        v.wf(),
    ensures
        v.readdir(objects, dir).1 is Ok <==> readable_dir(v.slab, objects, dir),
        dir != ROOT_INODE ==> v.readdir(objects, dir).1 == listing(
            v.slab,
            objects,
            dir,
            Set::<Seq<char>>::empty(),
        ).1,
        v.readdir(objects, ROOT_INODE).1 matches Ok(all) ==> {
            let git = all.last();
            &&& all.len() > 0
            &&& git.name == ".git"@ && git.inode == v.git_file && git.kind == FileKind::Regular
            &&& v.jj_subtree matches Some(jj) ==> {
                let pinned = all[all.len() - 2];
                let hidden = Set::<Seq<char>>::empty().insert(".git"@).insert(".jj"@);
                &&& all.len() > 1
                &&& pinned.name == ".jj"@ && pinned.inode == jj && pinned.kind
                    == FileKind::Directory
                &&& listing(v.slab, objects, ROOT_INODE, hidden).1 == Ok::<
                    Seq<DirEntryView>,
                    ErrView,
                >(all.take(all.len() - 2))
            }
            &&& v.jj_subtree is None ==> listing(
                v.slab,
                objects,
                ROOT_INODE,
                Set::<Seq<char>>::empty().insert(".git"@),
            ).1 == Ok::<Seq<DirEntryView>, ErrView>(all.take(all.len() - 1))
        },
{
    if v.slab.has(dir) {
        if let NodeView::DirtyTree(children) = v.slab.node(dir) {
            open_directories_are_listed_by_name(v.slab, objects, dir, children, v.shadowed(dir));
        }
    }
    if dir != ROOT_INODE {
        if let Ok(list) = listing(v.slab, objects, dir, Set::<Seq<char>>::empty()).1 {
            assert(list + v.pinned_entries(dir) =~= list);
        }
    }
    if let Ok(list) = listing(v.slab, objects, ROOT_INODE, v.shadowed(ROOT_INODE)).1 {
        let all = list + v.pinned_entries(ROOT_INODE);
        assert(v.readdir(objects, ROOT_INODE).1 == Ok::<Seq<DirEntryView>, ErrView>(all));
        if v.jj_subtree is Some {
            assert(all.take(all.len() - 2) =~= list);
        } else {
            assert(all.take(all.len() - 1) =~= list);
        }
    }
}

/// A tree can be checked out exactly if the store holds it, whatever was modified; one
/// that cannot leaves everything as it was.
pub proof fn stored_trees_can_be_checked_out(
    v: KikiView,
    objects: Objects,
    tree: Id,
    mtime: i64,
    other: InodeId,
)
    requires
        v.wf(),
    ensures
        ({
            let (after, r) = v.check_out(objects, tree, mtime);
            &&& r is Ok <==> (tree_at(objects, tree) matches Ok(Some(_)))
            &&& r is Err ==> after == v
            &&& (tree_at(objects, tree) matches Ok(None)) ==> r == Err::<(), ErrView>(
                ErrView::StoreMiss,
            )
            &&& r is Ok ==> {
                &&& after.slab.node(ROOT_INODE) == NodeView::Tree(tree)
                &&& after.slab.inodes.len() == v.slab.inodes.len()
                &&& v.slab.has(other) && other != ROOT_INODE ==> after.slab.at(other)
                    == v.slab.at(other)
                &&& after.git_file == v.git_file
                &&& after.jj_subtree == v.jj_subtree
            }
        }),
{
}

/// Attributes are told of every inode whose content can be read; a directory needs none.
pub proof fn readable_inodes_have_attributes(
    slab: SlabView,
    objects: Objects,
    ino: InodeId,
    mtime: i64,
)
    requires
        1 <= ino <= slab.inodes.len(),
    ensures
        match slab.inodes[ino - 1].node {
            NodeView::Tree(_) | NodeView::DirtyTree(_) => attr_result(slab, objects, ino, mtime)
                is Ok,
            NodeView::File { .. } | NodeView::DirtyFile { .. } => attr_result(
                slab,
                objects,
                ino,
                mtime,
            ) is Ok <==> bytes_of(slab, objects, ino) is Some,
            NodeView::Symlink(_) | NodeView::DirtySymlink(_) => attr_result(
                slab,
                objects,
                ino,
                mtime,
            ) is Ok <==> readlink_result(slab, objects, ino) is Ok,
        },
{
}

} // verus!
