//! What inodes stand for, what the store has to say of them, and what is said of a
//! request for the wrong kind of inode.
use vstd::prelude::*;
use vstd::utf8::{decode_utf8, valid_utf8};
use crate::git_store::{EntryView, GitEntryKind, Objects, StoreFault, EMPTY_TREE};
use crate::remote::FetchView;
use crate::ty::{id_ext, Id};
use crate::vfs::inode::{InodeId, NodeView, SlabView, ROOT_INODE};
use crate::vfs::kiki_fs::{lacks, missing_above, KikiView};
use crate::vfs::tidy::lemma_path_short;
use crate::vfs::tree_ops::{
    attr_result, entry_node, file_result, kind_of_entry, kind_of_node, link_result, listing,
    looked_up, read_result, readlink_result, tree_result,
};
use crate::vfs::types::{fault_view, fetch_failure, Attr, DirEntryView, ErrView, FileKind};

verus! {

/// An entry of a tree shows as what it is: a directory, a symlink, or a file with its
/// mode. A submodule shows as a plain file.
pub proof fn entries_show_as_what_they_are(e: EntryView)
    ensures
        kind_of_node(entry_node(e)) == kind_of_entry(e.kind),
        e.kind is Tree ==> entry_node(e) == NodeView::Tree(e.id) && kind_of_entry(e.kind)
            == FileKind::Directory,
        e.kind is Symlink ==> entry_node(e) == NodeView::Symlink(e.id) && kind_of_entry(e.kind)
            == FileKind::Symlink,
        e.kind matches GitEntryKind::File { executable } ==> entry_node(e) == (NodeView::File {
            id: e.id,
            executable,
        }) && kind_of_entry(e.kind) == FileKind::Regular,
        e.kind is Submodule ==> entry_node(e) == (NodeView::File { id: e.id, executable: false })
            && kind_of_entry(e.kind) == FileKind::Regular,
{
}

/// A modified inode shows as the same kind as a clean one.
pub proof fn nodes_show_as_what_they_are(node: NodeView)
    ensures
        kind_of_node(node) == FileKind::Directory <==> node is Tree || node is DirtyTree,
        kind_of_node(node) == FileKind::Regular <==> node is File || node is DirtyFile,
        kind_of_node(node) == FileKind::Symlink <==> node is Symlink || node is DirtySymlink,
        node.is_dir() <==> node is Tree || node is DirtyTree,
        node.is_dirty() <==> node is DirtyTree || node is DirtyFile || node is DirtySymlink,
{
}

/// What an id stands for is what the store holds under it. What it does not hold is a
/// miss; what is of another kind is a fault of the store.
pub proof fn ids_stand_for_what_the_store_holds(objects: Objects, id: Id)
    ensures
        !objects.contains_key(id) ==> {
            &&& file_result(objects, id) == Err::<Seq<u8>, ErrView>(ErrView::StoreMiss)
            &&& link_result(objects, id) == Err::<Seq<char>, ErrView>(ErrView::StoreMiss)
            &&& id@ != EMPTY_TREE@ ==> tree_result(objects, id) == Err::<Seq<EntryView>, ErrView>(
                ErrView::StoreMiss,
            )
        },
        id@ == EMPTY_TREE@ ==> (tree_result(objects, id) matches Ok(entries) && entries.len() == 0),
        objects.contains_key(id) && objects[id].kind is Blob ==> {
            &&& file_result(objects, id) == Ok::<Seq<u8>, ErrView>(objects[id].data)
            &&& valid_utf8(objects[id].data) ==> link_result(objects, id) == Ok::<
                Seq<char>,
                ErrView,
            >(decode_utf8(objects[id].data))
            &&& !valid_utf8(objects[id].data) ==> (link_result(objects, id) matches Err(e) && e
                is StoreError)
        },
        objects.contains_key(id) && !(objects[id].kind is Blob) ==> {
            &&& file_result(objects, id) matches Err(e) && e is StoreError
            &&& link_result(objects, id) matches Err(e) && e is StoreError
        },
        objects.contains_key(id) && !(objects[id].kind is Tree) && id@ != EMPTY_TREE@ ==> (
        tree_result(objects, id) matches Err(e) && e is StoreError),
{
    id_ext(id, Id(EMPTY_TREE));
}

/// A request for an inode that is not there finds nothing, whatever it asks for.
pub proof fn unknown_inodes_are_not_found(
    v: KikiView,
    objects: Objects,
    ino: InodeId,
    name: Seq<char>,
    offset: u64,
    count: u32,
    data: Seq<u8>,
    size: Option<u64>,
    bit: Option<bool>,
    node: NodeView,
    hidden: Set<Seq<char>>,
    mtime: i64,
)
    requires
        v.wf(),
        !v.slab.has(ino),
        v.jj_subtree is None,
    ensures
        attr_result(v.slab, objects, ino, mtime) == Err::<Attr, ErrView>(ErrView::NotFound),
        read_result(v.slab, objects, ino, offset, count) == Err::<(Seq<u8>, bool), ErrView>(
            ErrView::NotFound,
        ),
        readlink_result(v.slab, objects, ino) == Err::<Seq<char>, ErrView>(ErrView::NotFound),
        looked_up(v.slab, objects, ino, name) == (
            v.slab,
            Err::<InodeId, ErrView>(ErrView::NotFound),
        ),
        listing(v.slab, objects, ino, hidden) == (
            v.slab,
            Err::<Seq<DirEntryView>, ErrView>(ErrView::NotFound),
        ),
        v.write(objects, ino, offset, data) == (v, Err::<u32, ErrView>(ErrView::NotFound)),
        v.setattr(objects, ino, size, bit) == (v, Err::<Attr, ErrView>(ErrView::NotFound)),
        v.add_entry(objects, ino, name, node) == (
            v,
            Err::<(InodeId, Attr), ErrView>(ErrView::NotFound),
        ),
        v.remove(objects, ino, name) == (v, Err::<(), ErrView>(ErrView::NotFound)),
{
}

/// Only directories have entries, only files have bytes, and only symlinks have a
/// target; a request for anything else is told so, and changes nothing.
pub proof fn wrong_kinds_are_told(
    v: KikiView,
    objects: Objects,
    ino: InodeId,
    name: Seq<char>,
    offset: u64,
    count: u32,
    data: Seq<u8>,
    hidden: Set<Seq<char>>,
    node: NodeView,
)
    requires
        v.wf(),
        v.slab.has(ino),
    ensures
        !v.slab.node(ino).is_dir() ==> {
            &&& looked_up(v.slab, objects, ino, name) == (
                v.slab,
                Err::<InodeId, ErrView>(ErrView::NotADirectory),
            )
            &&& listing(v.slab, objects, ino, hidden) == (
                v.slab,
                Err::<Seq<DirEntryView>, ErrView>(ErrView::NotADirectory),
            )
            &&& v.add_entry(objects, ino, name, node) == (
                v,
                Err::<(InodeId, Attr), ErrView>(ErrView::NotADirectory),
            )
        },
        kind_of_node(v.slab.node(ino)) != FileKind::Regular ==> {
            &&& read_result(v.slab, objects, ino, offset, count) == Err::<
                (Seq<u8>, bool),
                ErrView,
            >(ErrView::NotAFile)
            &&& ino != v.git_file ==> v.write(objects, ino, offset, data) == (
                v,
                Err::<u32, ErrView>(ErrView::NotAFile),
            )
        },
        kind_of_node(v.slab.node(ino)) != FileKind::Symlink ==> readlink_result(
            v.slab,
            objects,
            ino,
        ) == Err::<Seq<char>, ErrView>(ErrView::NotASymlink),
{
}

/// A fault of the store is told in its words; a failed fetch is a miss where nobody has
/// the object, and is told in its words else.
pub proof fn failures_keep_their_words(fault: StoreFault, kind: Seq<char>, id: Seq<char>, cause: Seq<char>)
    ensures
        fault_view(fault) == ErrView::StoreError(fault.message()),
        fetch_failure(FetchView::NotFound { kind, id }) == ErrView::StoreMiss,
        fetch_failure(FetchView::DataLoss(cause)) == ErrView::StoreError(cause),
        fetch_failure(FetchView::LocalWrite(cause)) == ErrView::StoreError(cause),
        fetch_failure(FetchView::Remote(cause)) == ErrView::StoreError(cause),
{
}

/// The inode refers to this object, and the store does not have it.
pub open spec fn refers_to_missing(
    slab: SlabView,
    objects: Objects,
    ino: InodeId,
    id: Id,
    is_tree: bool,
) -> bool {
    1 <= ino <= slab.inodes.len() && !objects.contains_key(id) && match slab.inodes[ino - 1].node {
        NodeView::Tree(own) => own == id && is_tree && id@ != EMPTY_TREE@,
        NodeView::File { id: own, .. } => own == id && !is_tree,
        NodeView::Symlink(own) => own == id && !is_tree,
        _ => false,
    }
}

/// The inodes lead up: each is the parent of the one before.
pub open spec fn leads_up(slab: SlabView, way: Seq<InodeId>) -> bool {
    &&& way.len() > 0
    &&& way.no_duplicates()
    &&& forall|k: int| 0 <= k < way.len() ==> slab.has(#[trigger] way[k])
    &&& forall|k: int| 0 <= k < way.len() - 1 ==> slab.at(#[trigger] way[k]).parent == way[k + 1]
}

proof fn lemma_lacks(slab: SlabView, objects: Objects, ino: InodeId)
    requires
        slab.has(ino),
    ensures
        lacks(objects, slab.node(ino)) <==> exists|id: Id, is_tree: bool| #[trigger]
            refers_to_missing(slab, objects, ino, id, is_tree),
        lacks(objects, slab.node(ino)) ==> refers_to_missing(
            slab,
            objects,
            ino,
            crate::vfs::snapshot::node_id(slab.node(ino)),
            slab.node(ino).is_dir(),
        ),
{
    let node = slab.node(ino);
    if let NodeView::Tree(id) = node {
        id_ext(id, Id(EMPTY_TREE));
    }
    if lacks(objects, node) {
        assert(refers_to_missing(
            slab,
            objects,
            ino,
            crate::vfs::snapshot::node_id(node),
            node.is_dir(),
        ));
    }
    if exists|id: Id, is_tree: bool| #[trigger]
        refers_to_missing(slab, objects, ino, id, is_tree) {
        let (id, is_tree) = choose|id: Id, is_tree: bool| #[trigger]
            refers_to_missing(slab, objects, ino, id, is_tree);
        assert(refers_to_missing(slab, objects, ino, id, is_tree));
    }
}

proof fn lemma_missing_at(
    slab: SlabView,
    objects: Objects,
    way: Seq<InodeId>,
    n: int,
    k: int,
    steps: nat,
)
    requires
        leads_up(slab, way),
        0 <= k <= n < way.len(),
        steps >= n - k,
        forall|m: int, id: Id, is_tree: bool|
            k <= m < n ==> !#[trigger] refers_to_missing(slab, objects, way[m], id, is_tree),
    ensures
        lacks(objects, slab.node(way[n])) ==> missing_above(slab, objects, way[k], steps) == Some(
            (crate::vfs::snapshot::node_id(slab.node(way[n])), slab.node(way[n]).is_dir()),
        ),
        !lacks(objects, slab.node(way[n])) && slab.at(way[n]).parent == way[n] ==> missing_above(
            slab,
            objects,
            way[k],
            steps,
        ) is None,
    decreases n - k,
{
    assert(slab.has(way[k]));
    if k < n {
        lemma_lacks(slab, objects, way[k]);
        assert(slab.at(way[k]).parent == way[k + 1]);
        assert(way[k] != way[k + 1]);
        lemma_missing_at(slab, objects, way, n, k + 1, (steps - 1) as nat);
    }
}

/// The object that is said to be missing is the one of the first inode, from the one
/// that is asked for up to the root, whose object the store does not have; where it has
/// them all, none is.
pub proof fn first_missing_object_is_named(
    slab: SlabView,
    objects: Objects,
    way: Seq<InodeId>,
    n: int,
    id: Id,
    is_tree: bool,
)
    requires
        leads_up(slab, way),
        0 <= n < way.len(),
        forall|m: int, other: Id, kind: bool|
            0 <= m < n ==> !#[trigger] refers_to_missing(slab, objects, way[m], other, kind),
    ensures
        refers_to_missing(slab, objects, way[n], id, is_tree) ==> missing_above(
            slab,
            objects,
            way[0],
            slab.inodes.len(),
        ) == Some((id, is_tree)),
        way[n] == ROOT_INODE && slab.at(ROOT_INODE).parent == ROOT_INODE && (forall|
            other: Id,
            kind: bool,
        | !#[trigger] refers_to_missing(slab, objects, way[n], other, kind)) ==> missing_above(
            slab,
            objects,
            way[0],
            slab.inodes.len(),
        ) is None,
{
    lemma_path_short(slab, way);
    lemma_missing_at(slab, objects, way, n, 0, slab.inodes.len());
    assert(slab.has(way[n]));
    lemma_lacks(slab, objects, way[n]);
}

} // verus!
