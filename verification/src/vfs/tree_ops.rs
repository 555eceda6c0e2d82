//! Requests on a slab of inodes over a content store.
use vstd::prelude::*;
use vstd::utf8::encode_utf8;
use crate::git_store::{
    file_at, link_at, tree_at, tree_view, EntryView, GitContentStore, GitEntryKind, GitTreeEntry,
    Objects,
};
use crate::text::{copy_bytes, same_str};
use crate::ty::Id;
use crate::vfs::inode::{entries_view, InodeId, InodeSlab, NodeRef, NodeView, SlabView};
use crate::vfs::name_map::{in_order, NameMap};
use crate::vfs::types::{
    fault_view, listing_view, outcome, store_err, Attr, DirEntry, DirEntryView, ErrView, FileKind,
    FsError,
};

verus! {

broadcast use vstd::string::group_string_axioms;

// ---- reading the store -------------------------------------------------------

/// What reading a directory's tree gives.
pub open spec fn tree_result(objects: Objects, id: Id) -> Result<Seq<EntryView>, ErrView> {
    match tree_at(objects, id) {
        Ok(Some(entries)) => Ok(entries),
        Ok(None) => Err(ErrView::StoreMiss),
        Err(fault) => Err(fault_view(fault)),
    }
}

/// What reading a file's content gives.
pub open spec fn file_result(objects: Objects, id: Id) -> Result<Seq<u8>, ErrView> {
    match file_at(objects, id) {
        Ok(Some(content)) => Ok(content),
        Ok(None) => Err(ErrView::StoreMiss),
        Err(fault) => Err(fault_view(fault)),
    }
}

/// What reading a symlink's target gives.
pub open spec fn link_result(objects: Objects, id: Id) -> Result<Seq<char>, ErrView> {
    match link_at(objects, id) {
        Ok(Some(target)) => Ok(target),
        Ok(None) => Err(ErrView::StoreMiss),
        Err(fault) => Err(fault_view(fault)),
    }
}

/// Read a directory's tree.
pub fn read_tree(store: &GitContentStore, id: &Id) -> (r: Result<Vec<GitTreeEntry>, FsError>)
    ensures
        (match r {
            Ok(entries) => Ok(tree_view(entries@)),
            Err(e) => Err(e@),
        }) == tree_result(store@, *id),
{
    match store.read_tree(id) {
        Ok(Some(entries)) => Ok(entries),
        Ok(None) => Err(FsError::StoreMiss),
        Err(fault) => Err(store_err(fault)),
    }
}

/// Read a file's content.
pub fn read_file(store: &GitContentStore, id: &Id) -> (r: Result<Vec<u8>, FsError>)
    ensures
        (match r {
            Ok(content) => Ok(content@),
            Err(e) => Err(e@),
        }) == file_result(store@, *id),
{
    match store.read_file(id) {
        Ok(Some(content)) => Ok(content),
        Ok(None) => Err(FsError::StoreMiss),
        Err(fault) => Err(store_err(fault)),
    }
}

/// Read a symlink's target.
pub fn read_symlink(store: &GitContentStore, id: &Id) -> (r: Result<String, FsError>)
    ensures
        (match r {
            Ok(target) => Ok(target@),
            Err(e) => Err(e@),
        }) == link_result(store@, *id),
{
    match store.read_symlink(id) {
        Ok(Some(target)) => Ok(target),
        Ok(None) => Err(FsError::StoreMiss),
        Err(fault) => Err(store_err(fault)),
    }
}

/// The node that a tree entry stands for. A submodule shows as a plain file.
pub open spec fn entry_node(e: EntryView) -> NodeView {
    match e.kind {
        GitEntryKind::File { executable } => NodeView::File { id: e.id, executable },
        GitEntryKind::Tree => NodeView::Tree(e.id),
        GitEntryKind::Symlink => NodeView::Symlink(e.id),
        GitEntryKind::Submodule => NodeView::File { id: e.id, executable: false },
    }
}

/// The node that a tree entry stands for.
pub fn entry_to_node(entry: &GitTreeEntry) -> (n: NodeRef)
    ensures
        n@ == entry_node(entry@),
{
    match entry.kind {
        GitEntryKind::File { executable } => NodeRef::File { id: entry.id, executable },
        GitEntryKind::Tree => NodeRef::Tree(entry.id),
        GitEntryKind::Symlink => NodeRef::Symlink(entry.id),
        GitEntryKind::Submodule => NodeRef::File { id: entry.id, executable: false },
    }
}

/// What a tree entry shows as.
pub open spec fn kind_of_entry(kind: GitEntryKind) -> FileKind {
    match kind {
        GitEntryKind::Tree => FileKind::Directory,
        GitEntryKind::Symlink => FileKind::Symlink,
        _ => FileKind::Regular,
    }
}

/// What a tree entry shows as.
pub fn entry_kind(entry: &GitTreeEntry) -> (k: FileKind)
    ensures
        k == kind_of_entry(entry.kind),
{
    match entry.kind {
        GitEntryKind::Tree => FileKind::Directory,
        GitEntryKind::Symlink => FileKind::Symlink,
        GitEntryKind::File { .. } => FileKind::Regular,
        GitEntryKind::Submodule => FileKind::Regular,
    }
}

/// What a node shows as.
pub open spec fn kind_of_node(node: NodeView) -> FileKind {
    match node {
        NodeView::Tree(_) => FileKind::Directory,
        NodeView::DirtyTree(_) => FileKind::Directory,
        NodeView::File { .. } => FileKind::Regular,
        NodeView::DirtyFile { .. } => FileKind::Regular,
        NodeView::Symlink(_) => FileKind::Symlink,
        NodeView::DirtySymlink(_) => FileKind::Symlink,
    }
}

/// What a node shows as.
pub fn node_kind(node: &NodeRef) -> (k: FileKind)
    ensures
        k == kind_of_node(node@),
{
    match node {
        NodeRef::Tree(_) => FileKind::Directory,
        NodeRef::DirtyTree { .. } => FileKind::Directory,
        NodeRef::File { .. } => FileKind::Regular,
        NodeRef::DirtyFile { .. } => FileKind::Regular,
        NodeRef::Symlink(_) => FileKind::Symlink,
        NodeRef::DirtySymlink { .. } => FileKind::Symlink,
    }
}

/// The position of the first entry with this name.
pub open spec fn entry_index(entries: Seq<EntryView>, name: Seq<char>) -> Option<int>
    decreases entries.len(),
{
    if entries.len() == 0 {
        None
    } else {
        match entry_index(entries.drop_last(), name) {
            Some(i) => Some(i),
            None => if entries.last().name == name {
                Some(entries.len() - 1)
            } else {
                None
            },
        }
    }
}

/// Find the first entry with this name.
pub fn find_entry(entries: &Vec<GitTreeEntry>, name: &str) -> (r: Option<usize>)
    ensures
        match r {
            Some(i) => i < entries@.len() && entry_index(tree_view(entries@), name@) == Some(
                i as int,
            ),
            None => entry_index(tree_view(entries@), name@) is None,
        },
{
    let ghost all = tree_view(entries@);
    let mut i: usize = 0;
    while i < entries.len()
        invariant
            i <= entries@.len(),
            all == tree_view(entries@),
            entry_index(all.take(i as int), name@) is None,
        decreases entries@.len() - i,
    {
        let same = same_str(entries[i].name.as_str(), name);
        proof {
            assert(all.take(i + 1).drop_last() =~= all.take(i as int));
            assert(all.take(i + 1).last() == entries@[i as int]@);
        }
        if same {
            proof {
                lemma_entry_index_prefix(all, i + 1, name@);
            }
            return Some(i);
        }
        i = i + 1;
    }
    assert(all.take(i as int) =~= all);
    None
}

proof fn lemma_entry_index_prefix(entries: Seq<EntryView>, n: int, name: Seq<char>)
    requires
        0 <= n <= entries.len(),
        entry_index(entries.take(n), name) is Some,
    ensures
        entry_index(entries, name) == entry_index(entries.take(n), name),
    decreases entries.len(),
{
    if n < entries.len() {
        assert(entries.drop_last().take(n) =~= entries.take(n));
        lemma_entry_index_prefix(entries.drop_last(), n, name);
    } else {
        assert(entries.take(n) =~= entries);
    }
}

/// The first entry with a name has the name, and none before it has.
pub proof fn lemma_entry_index(entries: Seq<EntryView>, name: Seq<char>)
    ensures
        match entry_index(entries, name) {
            Some(i) => 0 <= i < entries.len() && entries[i].name == name && forall|j: int|
                0 <= j < i ==> (#[trigger] entries[j]).name != name,
            None => forall|j: int| 0 <= j < entries.len() ==> (#[trigger] entries[j]).name != name,
        },
    decreases entries.len(),
{
    if entries.len() > 0 {
        lemma_entry_index(entries.drop_last(), name);
        assert forall|j: int| 0 <= j < entries.len() - 1 implies entries.drop_last()[j]
            == #[trigger] entries[j] by {}
    }
}

// ---- opening nodes for changes ----------------------------------------------

/// The nodes of a tree's entries, by name.
pub open spec fn nodes_of(entries: Seq<EntryView>) -> Seq<(Seq<char>, NodeView)> {
    entries.map_values(|e: EntryView| (e.name, entry_node(e)))
}

/// The slab after the directory `dir` was opened for changes, and whether that
/// worked. A directory that is open already stays as it is.
pub open spec fn opened(slab: SlabView, objects: Objects, dir: InodeId) -> (
    SlabView,
    Result<(), ErrView>,
) {
    if !slab.has(dir) {
        (slab, Err(ErrView::NotFound))
    } else {
        match slab.node(dir) {
            NodeView::DirtyTree(_) => (slab, Ok(())),
            NodeView::Tree(id) => match tree_result(objects, id) {
                Ok(entries) => (slab.materialized(dir, nodes_of(entries)), Ok(())),
                Err(e) => (slab, Err(e)),
            },
            _ => (slab, Err(ErrView::NotADirectory)),
        }
    }
}

fn load_nodes(entries: &Vec<GitTreeEntry>) -> (out: Vec<(String, NodeRef)>)
    ensures
        entries_view(out@) == nodes_of(tree_view(entries@)),
{
    let mut out: Vec<(String, NodeRef)> = Vec::new();
    let mut i: usize = 0;
    while i < entries.len()
        invariant
            i <= entries@.len(),
            entries_view(out@) == nodes_of(tree_view(entries@).take(i as int)),
        decreases entries@.len() - i,
    {
        let e = &entries[i];
        let ghost before = entries_view(out@);
        let node = entry_to_node(e);
        let ghost pair = (e.name@, node@);
        out.push((e.name.clone(), node));
        proof {
            assert(entries_view(out@) =~= before.push(pair));
            let all = tree_view(entries@);
            assert(all[i as int] == e@);
            assert(nodes_of(all.take(i + 1)) =~= nodes_of(all.take(i as int)).push(pair));
        }
        i = i + 1;
    }
    assert(tree_view(entries@).take(i as int) =~= tree_view(entries@));
    out
}

/// Open one directory for changes.
pub fn materialize_single_tree(
    slab: &mut InodeSlab,
    store: &GitContentStore,
    dir: InodeId,
) -> (r: Result<(), FsError>)
    ensures
        (final(slab)@, outcome(r)) == opened(old(slab)@, store@, dir),
{
    let id = match slab.inode(dir) {
        None => {
            return Err(FsError::NotFound);
        },
        Some(inode) => match &inode.node {
            NodeRef::DirtyTree { .. } => {
                return Ok(());
            },
            NodeRef::Tree(id) => *id,
            _ => {
                return Err(FsError::NotADirectory);
            },
        },
    };
    let entries = match read_tree(store, &id) {
        Ok(entries) => entries,
        Err(e) => {
            return Err(e);
        },
    };
    let nodes = load_nodes(&entries);
    let _ = slab.materialize(dir, nodes);
    Ok(())
}

/// The slab after the file `ino` was opened for changes, and whether that
/// worked.
pub open spec fn file_opened(slab: SlabView, objects: Objects, ino: InodeId) -> (
    SlabView,
    Result<(), ErrView>,
) {
    if !slab.has(ino) {
        (slab, Err(ErrView::NotFound))
    } else {
        match slab.node(ino) {
            NodeView::DirtyFile { .. } => (slab, Ok(())),
            NodeView::File { id, executable } => match file_result(objects, id) {
                Ok(content) => (
                    slab.with_node(ino, NodeView::DirtyFile { content, executable }),
                    Ok(()),
                ),
                Err(e) => (slab, Err(e)),
            },
            _ => (slab, Err(ErrView::NotAFile)),
        }
    }
}

/// Open a file for changes: bring its content into memory.
pub fn ensure_dirty_file(
    slab: &mut InodeSlab,
    store: &GitContentStore,
    ino: InodeId,
) -> (r: Result<(), FsError>)
    ensures
        (final(slab)@, outcome(r)) == file_opened(old(slab)@, store@, ino),
{
    let (id, executable) = match slab.inode(ino) {
        None => {
            return Err(FsError::NotFound);
        },
        Some(inode) => match &inode.node {
            NodeRef::DirtyFile { .. } => {
                return Ok(());
            },
            NodeRef::File { id, executable } => (*id, *executable),
            _ => {
                return Err(FsError::NotAFile);
            },
        },
    };
    let content = match read_file(store, &id) {
        Ok(content) => content,
        Err(e) => {
            return Err(e);
        },
    };
    let _ = slab.replace_node(ino, NodeRef::DirtyFile { content, executable });
    Ok(())
}

// ---- attributes and content ---------------------------------------------------

/// The size that a node has.
pub open spec fn size_of_node(node: NodeView, objects: Objects) -> Result<nat, ErrView> {
    match node {
        NodeView::Tree(_) => Ok(0),
        NodeView::DirtyTree(_) => Ok(0),
        NodeView::File { id, .. } => match file_result(objects, id) {
            Ok(content) => Ok(content.len()),
            Err(e) => Err(e),
        },
        NodeView::DirtyFile { content, .. } => Ok(content.len()),
        NodeView::Symlink(id) => match link_result(objects, id) {
            Ok(target) => Ok(encode_utf8(target).len()),
            Err(e) => Err(e),
        },
        NodeView::DirtySymlink(target) => Ok(encode_utf8(target).len()),
    }
}

/// Whether a node is an executable file.
pub open spec fn executable_node(node: NodeView) -> bool {
    match node {
        NodeView::File { executable, .. } => executable,
        NodeView::DirtyFile { executable, .. } => executable,
        _ => false,
    }
}

/// The attributes of an inode.
pub open spec fn attr_result(
    slab: SlabView,
    objects: Objects,
    ino: InodeId,
    mtime: i64,
) -> Result<Attr, ErrView> {
    if !slab.has(ino) {
        Err(ErrView::NotFound)
    } else {
        let node = slab.node(ino);
        match size_of_node(node, objects) {
            Ok(size) => Ok(
                Attr {
                    inode: ino,
                    kind: kind_of_node(node),
                    size: size as u64,
                    executable: executable_node(node),
                    mtime_secs: mtime,
                },
            ),
            Err(e) => Err(e),
        }
    }
}

/// The attributes of an inode.
pub fn attr_for(slab: &InodeSlab, store: &GitContentStore, ino: InodeId, mtime: i64) -> (r: Result<
    Attr,
    FsError,
>)
    ensures
        outcome(r) == attr_result(slab@, store@, ino, mtime),
{
    let inode = match slab.inode(ino) {
        Some(inode) => inode,
        None => {
            return Err(FsError::NotFound);
        },
    };
    let kind = node_kind(&inode.node);
    match &inode.node {
        NodeRef::Tree(_) => Ok(Attr { inode: ino, kind, size: 0, executable: false, mtime_secs: mtime }),
        NodeRef::DirtyTree { .. } => Ok(
            Attr { inode: ino, kind, size: 0, executable: false, mtime_secs: mtime },
        ),
        NodeRef::File { id, executable } => match read_file(store, id) {
            Ok(content) => Ok(
                Attr {
                    inode: ino,
                    kind,
                    size: content.len() as u64,
                    executable: *executable,
                    mtime_secs: mtime,
                },
            ),
            Err(e) => Err(e),
        },
        NodeRef::DirtyFile { content, executable } => Ok(
            Attr {
                inode: ino,
                kind,
                size: content.len() as u64,
                executable: *executable,
                mtime_secs: mtime,
            },
        ),
        NodeRef::Symlink(id) => match read_symlink(store, id) {
            Ok(target) => Ok(
                Attr {
                    inode: ino,
                    kind,
                    size: target.as_str().as_bytes().len() as u64,
                    executable: false,
                    mtime_secs: mtime,
                },
            ),
            Err(e) => Err(e),
        },
        NodeRef::DirtySymlink { target } => Ok(
            Attr {
                inode: ino,
                kind,
                size: target.as_str().as_bytes().len() as u64,
                executable: false,
                mtime_secs: mtime,
            },
        ),
    }
}

/// The part of `content` that a read of `count` bytes from `offset` on gives,
/// and whether it reaches the end.
pub open spec fn range_of(content: Seq<u8>, offset: u64, count: u32) -> (Seq<u8>, bool) {
    if offset >= content.len() {
        (seq![], true)
    } else if offset + count >= content.len() {
        (content.skip(offset as int), true)
    } else {
        (content.subrange(offset as int, offset + count), false)
    }
}

/// Cut a read out of a file's content.
pub fn read_range(content: &[u8], offset: u64, count: u32) -> (r: (Vec<u8>, bool))
    ensures
        (r.0@, r.1) == range_of(content@, offset, count),
{
    let len = content.len() as u64;
    if offset >= len {
        let none: Vec<u8> = Vec::new();
        assert(none@ =~= seq![]);
        return (none, true);
    }
    let left: u64 = len - offset;
    let n: u64 = if (count as u64) < left {
        count as u64
    } else {
        left
    };
    let start: usize = offset as usize;
    let end: usize = (offset + n) as usize;
    let data = copy_bytes(vstd::slice::slice_subrange(content, start, end));
    proof {
        if end == content@.len() {
            assert(content@.skip(start as int) =~= content@.subrange(start as int, end as int));
        }
    }
    (data, end == content.len())
}

/// What a read of a file gives.
pub open spec fn read_result(
    slab: SlabView,
    objects: Objects,
    ino: InodeId,
    offset: u64,
    count: u32,
) -> Result<(Seq<u8>, bool), ErrView> {
    if !slab.has(ino) {
        Err(ErrView::NotFound)
    } else {
        match slab.node(ino) {
            NodeView::File { id, .. } => match file_result(objects, id) {
                Ok(content) => Ok(range_of(content, offset, count)),
                Err(e) => Err(e),
            },
            NodeView::DirtyFile { content, .. } => Ok(range_of(content, offset, count)),
            _ => Err(ErrView::NotAFile),
        }
    }
}

/// Read from a file.
pub fn read_node(
    slab: &InodeSlab,
    store: &GitContentStore,
    ino: InodeId,
    offset: u64,
    count: u32,
) -> (r: Result<(Vec<u8>, bool), FsError>)
    ensures
        (match r {
            Ok((data, eof)) => Ok((data@, eof)),
            Err(e) => Err(e@),
        }) == read_result(slab@, store@, ino, offset, count),
{
    match slab.inode(ino) {
        None => Err(FsError::NotFound),
        Some(inode) => match &inode.node {
            NodeRef::File { id, .. } => match read_file(store, id) {
                Ok(content) => Ok(read_range(content.as_slice(), offset, count)),
                Err(e) => Err(e),
            },
            NodeRef::DirtyFile { content, .. } => Ok(
                read_range(content.as_slice(), offset, count),
            ),
            _ => Err(FsError::NotAFile),
        },
    }
}

/// What reading a symlink gives.
pub open spec fn readlink_result(slab: SlabView, objects: Objects, ino: InodeId) -> Result<
    Seq<char>,
    ErrView,
> {
    if !slab.has(ino) {
        Err(ErrView::NotFound)
    } else {
        match slab.node(ino) {
            NodeView::Symlink(id) => link_result(objects, id),
            NodeView::DirtySymlink(target) => Ok(target),
            _ => Err(ErrView::NotASymlink),
        }
    }
}

/// Read a symlink.
pub fn readlink_node(slab: &InodeSlab, store: &GitContentStore, ino: InodeId) -> (r: Result<
    String,
    FsError,
>)
    ensures
        (match r {
            Ok(target) => Ok(target@),
            Err(e) => Err(e@),
        }) == readlink_result(slab@, store@, ino),
{
    match slab.inode(ino) {
        None => Err(FsError::NotFound),
        Some(inode) => match &inode.node {
            NodeRef::Symlink(id) => read_symlink(store, id),
            NodeRef::DirtySymlink { target } => Ok(target.clone()),
            _ => Err(FsError::NotASymlink),
        },
    }
}

/// The content after `data` was written at `offset`: what lies between the old
/// end and the offset is filled with zero bytes.
pub open spec fn spliced(content: Seq<u8>, offset: nat, data: Seq<u8>) -> Seq<u8> {
    let len = if content.len() < offset + data.len() {
        offset + data.len()
    } else {
        content.len()
    };
    Seq::new(
        len,
        |i: int|
            if offset <= i < offset + data.len() {
                data[i - offset]
            } else if i < content.len() {
                content[i]
            } else {
                0u8
            },
    )
}

/// The content cut or zero-filled to a length.
pub open spec fn resized(content: Seq<u8>, len: nat) -> Seq<u8> {
    Seq::new(
        len,
        |i: int|
            if i < content.len() {
                content[i]
            } else {
                0u8
            },
    )
}

/// Cut or zero-fill a buffer.
pub fn resize_buffer(content: &mut Vec<u8>, len: usize)
    ensures
        final(content)@ == resized(old(content)@, len as nat),
{
    let ghost before = content@;
    content.resize(len, 0);
    proof {
        assert forall|i: int| 0 <= i < len
            implies content@[i] == resized(before, len as nat)[i] by {
            if i < before.len() {
                if len <= before.len() {
                    assert(content@[i] == before.subrange(0, len as int)[i]);
                } else {
                    assert(content@.subrange(0, before.len() as int)[i] == before[i]);
                }
            }
        }
        assert(content@ =~= resized(before, len as nat));
    }
}

/// Write `data` into a buffer at `offset`.
pub fn splice_buffer(content: &mut Vec<u8>, offset: usize, data: &[u8])
    requires
        offset + data.len() <= usize::MAX,
    ensures
        final(content)@ == spliced(old(content)@, offset as nat, data@),
{
    let ghost before = content@;
    let end: usize = offset + data.len();
    if content.len() < end {
        resize_buffer(content, end);
    }
    let ghost grown = content@;
    let mut i: usize = 0;
    while i < data.len()
        invariant
            i <= data.len(),
            end == offset + data.len(),
            end <= content@.len(),
            content@.len() == grown.len(),
            forall|j: int|
                0 <= j < content@.len() ==> #[trigger] content@[j] == (if offset <= j < offset + i {
                    data@[j - offset]
                } else {
                    grown[j]
                }),
        decreases data.len() - i,
    {
        content.set(offset + i, data[i]);
        i = i + 1;
    }
    assert(content@ =~= spliced(before, offset as nat, data@));
}

// ---- finding entries ----------------------------------------------------------

/// Whether a directory has an entry of this name.
pub open spec fn has_entry(
    slab: SlabView,
    objects: Objects,
    dir: InodeId,
    name: Seq<char>,
) -> Result<
    bool,
    ErrView,
> {
    if !slab.has(dir) {
        Err(ErrView::NotFound)
    } else {
        match slab.node(dir) {
            NodeView::DirtyTree(children) => Ok(children.contains_key(name)),
            NodeView::Tree(id) => match tree_result(objects, id) {
                Ok(entries) => Ok(entry_index(entries, name) is Some),
                Err(e) => Err(e),
            },
            _ => Err(ErrView::NotADirectory),
        }
    }
}

/// Whether a directory has an entry of this name.
pub fn entry_exists(
    slab: &InodeSlab,
    store: &GitContentStore,
    dir: InodeId,
    name: &str,
) -> (r: Result<
    bool,
    FsError,
>)
    ensures
        outcome(r) == has_entry(slab@, store@, dir, name@),
{
    match slab.inode(dir) {
        None => Err(FsError::NotFound),
        Some(inode) => match &inode.node {
            NodeRef::DirtyTree { children } => Ok(children.contains_key(name)),
            NodeRef::Tree(id) => match read_tree(store, id) {
                Ok(entries) => Ok(find_entry(&entries, name).is_some()),
                Err(e) => Err(e),
            },
            _ => Err(FsError::NotADirectory),
        },
    }
}

/// The slab after a lookup, and the inode that was found.
pub open spec fn looked_up(slab: SlabView, objects: Objects, dir: InodeId, name: Seq<char>) -> (
    SlabView,
    Result<InodeId, ErrView>,
) {
    if !slab.has(dir) {
        (slab, Err(ErrView::NotFound))
    } else {
        match slab.node(dir) {
            NodeView::DirtyTree(children) => if children.contains_key(name) {
                (slab, Ok(children[name]))
            } else {
                (slab, Err(ErrView::NotFound))
            },
            NodeView::Tree(id) => match tree_result(objects, id) {
                Ok(entries) => match entry_index(entries, name) {
                    Some(i) => (
                        slab.interned(dir, name, entry_node(entries[i])),
                        Ok(slab.interned_id(dir, name)),
                    ),
                    None => (slab, Err(ErrView::NotFound)),
                },
                Err(e) => (slab, Err(e)),
            },
            _ => (slab, Err(ErrView::NotADirectory)),
        }
    }
}

/// Find an entry by name, and give it an inode if it has none yet.
pub fn lookup_entry(slab: &mut InodeSlab, store: &GitContentStore, dir: InodeId, name: &str) -> (r:
    Result<InodeId, FsError>)
    ensures
        (final(slab)@, outcome(r)) == looked_up(old(slab)@, store@, dir, name@),
{
    let id = match slab.inode(dir) {
        None => {
            return Err(FsError::NotFound);
        },
        Some(inode) => match &inode.node {
            NodeRef::DirtyTree { children } => {
                return match children.get(name) {
                    Some(child) => Ok(*child),
                    None => Err(FsError::NotFound),
                };
            },
            NodeRef::Tree(id) => *id,
            _ => {
                return Err(FsError::NotADirectory);
            },
        },
    };
    let entries = match read_tree(store, &id) {
        Ok(entries) => entries,
        Err(e) => {
            return Err(e);
        },
    };
    match find_entry(&entries, name) {
        Some(i) => {
            let node = entry_to_node(&entries[i]);
            assert(tree_view(entries@)[i as int] == entries@[i as int]@);
            Ok(slab.intern(dir, name, node))
        },
        None => Err(FsError::NotFound),
    }
}

// ---- listing directories --------------------------------------------------------

/// The listing of a modified directory, in the order of `names`.
pub open spec fn dirty_listing(
    slab: SlabView,
    children: Map<Seq<char>, InodeId>,
    names: Seq<Seq<char>>,
    hidden: Set<Seq<char>>,
) -> Result<Seq<DirEntryView>, ErrView>
    decreases names.len(),
{
    if names.len() == 0 {
        Ok(seq![])
    } else {
        let name = names.last();
        match dirty_listing(slab, children, names.drop_last(), hidden) {
            Err(e) => Err(e),
            Ok(before) => if hidden.contains(name) {
                Ok(before)
            } else if !slab.has(children[name]) {
                Err(ErrView::NotFound)
            } else {
                Ok(
                    before.push(
                        DirEntryView {
                            inode: children[name],
                            name,
                            kind: kind_of_node(slab.node(children[name])),
                        },
                    ),
                )
            },
        }
    }
}

/// The slab after the entries of a clean directory were listed: each entry
/// that shows has an inode.
pub open spec fn listed(
    slab: SlabView,
    dir: InodeId,
    entries: Seq<EntryView>,
    hidden: Set<Seq<char>>,
) -> SlabView
    decreases entries.len(),
{
    if entries.len() == 0 {
        slab
    } else {
        let before = listed(slab, dir, entries.drop_last(), hidden);
        let e = entries.last();
        if hidden.contains(e.name) {
            before
        } else {
            before.interned(dir, e.name, entry_node(e))
        }
    }
}

/// The listing of a clean directory.
pub open spec fn clean_listing(
    slab: SlabView,
    dir: InodeId,
    entries: Seq<EntryView>,
    hidden: Set<Seq<char>>,
) -> Seq<DirEntryView>
    decreases entries.len(),
{
    if entries.len() == 0 {
        seq![]
    } else {
        let before = clean_listing(slab, dir, entries.drop_last(), hidden);
        let e = entries.last();
        if hidden.contains(e.name) {
            before
        } else {
            before.push(
                DirEntryView {
                    inode: listed(slab, dir, entries.drop_last(), hidden).interned_id(dir, e.name),
                    name: e.name,
                    kind: kind_of_entry(e.kind),
                },
            )
        }
    }
}

/// The slab after a directory was listed, and the listing.
pub open spec fn listing(
    slab: SlabView,
    objects: Objects,
    dir: InodeId,
    hidden: Set<Seq<char>>,
) -> (SlabView, Result<Seq<DirEntryView>, ErrView>) {
    if !slab.has(dir) {
        (slab, Err(ErrView::NotFound))
    } else {
        match slab.node(dir) {
            NodeView::DirtyTree(children) => (
                slab,
                dirty_listing(slab, children, in_order(children), hidden),
            ),
            NodeView::Tree(id) => match tree_result(objects, id) {
                Ok(entries) => (
                    listed(slab, dir, entries, hidden),
                    Ok(clean_listing(slab, dir, entries, hidden)),
                ),
                Err(e) => (slab, Err(e)),
            },
            _ => (slab, Err(ErrView::NotADirectory)),
        }
    }
}

fn is_hidden(name: &str, hidden: &Vec<&str>) -> (r: bool)
    ensures
        r == hidden_set(hidden@).contains(name@),
{
    let mut i: usize = 0;
    while i < hidden.len()
        invariant
            i <= hidden@.len(),
            forall|j: int| 0 <= j < i ==> hidden@[j]@ != name@,
        decreases hidden@.len() - i,
    {
        if same_str(hidden[i], name) {
            assert(hidden@[i as int]@ == name@);
            return true;
        }
        i = i + 1;
    }
    false
}

/// The names of a list.
pub open spec fn hidden_set(hidden: Seq<&str>) -> Set<Seq<char>> {
    Set::new(|n: Seq<char>| exists|i: int| 0 <= i < hidden.len() && (#[trigger] hidden[i])@ == n)
}

fn list_children(slab: &InodeSlab, children: &NameMap<u64>, hidden: &Vec<&str>) -> (r: Result<
    Vec<DirEntry>,
    FsError,
>)
    ensures
        (match r {
            Ok(out) => Ok(listing_view(out@)),
            Err(e) => Err(e@),
        }) == dirty_listing(slab@, children@, in_order(children@), hidden_set(hidden@)),
{
    let mut out: Vec<DirEntry> = Vec::new();
    let n: usize = children.len();
    let ghost order = in_order(children@);
    let ghost hid = hidden_set(hidden@);
    assert(listing_view(out@) =~= seq![]);
    let mut i: usize = 0;
    while i < n
        invariant
            i <= n,
            n == order.len(),
            order == in_order(children@),
            hid == hidden_set(hidden@),
            dirty_listing(slab@, children@, order.take(i as int), hid) == Ok::<
                Seq<DirEntryView>,
                ErrView,
            >(listing_view(out@)),
        decreases n - i,
    {
        let (name, id) = children.at(i);
        proof {
            assert(order.take(i + 1).drop_last() =~= order.take(i as int));
            assert(order.take(i + 1).last() == name@);
        }
        if !is_hidden(name, hidden) {
            match slab.inode(*id) {
                None => {
                    proof {
                        lemma_listing_error(slab@, children@, order, i + 1, hid);
                    }
                    return Err(FsError::NotFound);
                },
                Some(inode) => {
                    let kind = node_kind(&inode.node);
                    let ghost before = listing_view(out@);
                    let e = DirEntry { inode: *id, name: name.to_owned(), kind };
                    let ghost value = e@;
                    out.push(e);
                    assert(listing_view(out@) =~= before.push(value));
                },
            }
        }
        i = i + 1;
    }
    assert(order.take(i as int) =~= order);
    Ok(out)
}

proof fn lemma_listing_error(
    slab: SlabView,
    children: Map<Seq<char>, InodeId>,
    names: Seq<Seq<char>>,
    n: int,
    hidden: Set<Seq<char>>,
)
    requires
        0 <= n <= names.len(),
        dirty_listing(slab, children, names.take(n), hidden) is Err,
    ensures
        dirty_listing(slab, children, names, hidden) == dirty_listing(
            slab,
            children,
            names.take(n),
            hidden,
        ),
    decreases names.len(),
{
    if n < names.len() {
        assert(names.drop_last().take(n) =~= names.take(n));
        lemma_listing_error(slab, children, names.drop_last(), n, hidden);
    } else {
        assert(names.take(n) =~= names);
    }
}

/// List a directory, and give each entry that shows an inode.
pub fn list_dir(
    slab: &mut InodeSlab,
    store: &GitContentStore,
    dir: InodeId,
    hidden: &Vec<&str>,
) -> (r: Result<Vec<DirEntry>, FsError>)
    ensures
        (
            final(slab)@,
            match r {
                Ok(out) => Ok(listing_view(out@)),
                Err(e) => Err(e@),
            },
        ) == listing(old(slab)@, store@, dir, hidden_set(hidden@)),
{
    let id = match slab.inode(dir) {
        None => {
            return Err(FsError::NotFound);
        },
        Some(inode) => match &inode.node {
            NodeRef::DirtyTree { children } => {
                return list_children(slab, children, hidden);
            },
            NodeRef::Tree(id) => *id,
            _ => {
                return Err(FsError::NotADirectory);
            },
        },
    };
    let entries = match read_tree(store, &id) {
        Ok(entries) => entries,
        Err(e) => {
            return Err(e);
        },
    };
    let ghost before = slab@;
    let ghost all = tree_view(entries@);
    let ghost hid = hidden_set(hidden@);
    let mut out: Vec<DirEntry> = Vec::new();
    assert(listing_view(out@) =~= seq![]);
    let mut i: usize = 0;
    while i < entries.len()
        invariant
            i <= entries@.len(),
            all == tree_view(entries@),
            hid == hidden_set(hidden@),
            slab@ == listed(before, dir, all.take(i as int), hid),
            listing_view(out@) == clean_listing(before, dir, all.take(i as int), hid),
        decreases entries@.len() - i,
    {
        let e = &entries[i];
        proof {
            assert(all.take(i + 1).drop_last() =~= all.take(i as int));
            assert(all.take(i + 1).last() == e@);
        }
        if !is_hidden(e.name.as_str(), hidden) {
            let kind = entry_kind(e);
            let node = entry_to_node(e);
            let inode = slab.intern(dir, e.name.as_str(), node);
            let ghost shown = listing_view(out@);
            let entry = DirEntry { inode, name: e.name.clone(), kind };
            let ghost value = entry@;
            out.push(entry);
            assert(listing_view(out@) =~= shown.push(value));
        }
        i = i + 1;
    }
    assert(all.take(i as int) =~= all);
    Ok(out)
}

// ---- removing and moving entries ------------------------------------------------

/// Whether an inode may be dropped from its directory as far as its children
/// go: everything but a directory with entries.
pub open spec fn droppable(slab: SlabView, objects: Objects, i: InodeId) -> Result<bool, ErrView> {
    match slab.node(i) {
        NodeView::DirtyTree(children) => Ok(children == Map::<Seq<char>, InodeId>::empty()),
        NodeView::Tree(id) => match tree_result(objects, id) {
            Ok(entries) => Ok(entries.len() == 0),
            Err(e) => Err(e),
        },
        _ => Ok(true),
    }
}

/// Whether an inode may be dropped from its directory.
pub fn can_drop(slab: &InodeSlab, store: &GitContentStore, i: InodeId) -> (r: Result<bool, FsError>)
    requires
        slab@.has(i),
    ensures
        outcome(r) == droppable(slab@, store@, i),
{
    match slab.inode(i) {
        None => {
            assert(false);
            Ok(true)
        },
        Some(inode) => match &inode.node {
            NodeRef::DirtyTree { children } => Ok(children.is_empty()),
            NodeRef::Tree(id) => match read_tree(store, id) {
                Ok(entries) => Ok(entries.len() == 0),
                Err(e) => Err(e),
            },
            _ => Ok(true),
        },
    }
}

/// The child that a name leads to in a modified directory.
pub open spec fn child_result(slab: SlabView, dir: InodeId, name: Seq<char>) -> Result<
    Option<InodeId>,
    ErrView,
> {
    if !slab.has(dir) {
        Err(ErrView::NotFound)
    } else {
        match slab.node(dir) {
            NodeView::DirtyTree(children) => if children.contains_key(name) {
                Ok(Some(children[name]))
            } else {
                Ok(None)
            },
            _ => Err(ErrView::NotADirectory),
        }
    }
}

fn child_of_dir(slab: &InodeSlab, dir: InodeId, name: &str) -> (r: Result<Option<InodeId>, FsError>)
    ensures
        outcome(r) == child_result(slab@, dir, name@),
{
    match slab.inode(dir) {
        None => Err(FsError::NotFound),
        Some(inode) => match &inode.node {
            NodeRef::DirtyTree { children } => match children.get(name) {
                Some(child) => Ok(Some(*child)),
                None => Ok(None),
            },
            _ => Err(FsError::NotADirectory),
        },
    }
}

/// The slab after an entry of a modified directory was removed. A directory
/// that has entries is not removed.
pub open spec fn removed(slab: SlabView, objects: Objects, dir: InodeId, name: Seq<char>) -> (
    SlabView,
    Result<(), ErrView>,
) {
    match child_result(slab, dir, name) {
        Err(e) => (slab, Err(e)),
        Ok(None) => (slab, Err(ErrView::NotFound)),
        Ok(Some(child)) => if !slab.has(child) {
            (slab, Err(ErrView::NotFound))
        } else {
            match droppable(slab, objects, child) {
                Err(e) => (slab, Err(e)),
                Ok(false) => (slab, Err(ErrView::NotEmpty)),
                Ok(true) => (slab.without_child(dir, name), Ok(())),
            }
        },
    }
}

/// Remove an entry of a modified directory.
pub fn remove_entry(slab: &mut InodeSlab, store: &GitContentStore, dir: InodeId, name: &str) -> (r:
    Result<(), FsError>)
    ensures
        (final(slab)@, outcome(r)) == removed(old(slab)@, store@, dir, name@),
{
    let child: InodeId = match child_of_dir(slab, dir, name) {
        Err(e) => {
            return Err(e);
        },
        Ok(None) => {
            return Err(FsError::NotFound);
        },
        Ok(Some(child)) => child,
    };
    if slab.inode(child).is_none() {
        return Err(FsError::NotFound);
    }
    match can_drop(slab, store, child) {
        Err(e) => Err(e),
        Ok(false) => Err(FsError::NotEmpty),
        Ok(true) => {
            assert(slab@.attached(dir, name@, child));
            let _ = slab.detach_child(dir, name);
            Ok(())
        },
    }
}

/// The slab after `child` went from one name to another.
pub open spec fn relinked(
    slab: SlabView,
    dir: InodeId,
    name: Seq<char>,
    new_dir: InodeId,
    new_name: Seq<char>,
    child: InodeId,
) -> SlabView {
    slab.without_child(dir, name).with_child(new_dir, new_name, child)
}

/// The slab after an entry was moved between modified directories, and the
/// inode that was moved, if any was.
///
/// What stands under the new name gives way: a file or symlink to a file or
/// symlink, an empty directory to a directory. Moving an entry onto itself does
/// nothing.
pub open spec fn moved(
    slab: SlabView,
    objects: Objects,
    dir: InodeId,
    name: Seq<char>,
    new_dir: InodeId,
    new_name: Seq<char>,
) -> (SlabView, Result<Option<InodeId>, ErrView>) {
    match (child_result(slab, dir, name), child_result(slab, new_dir, new_name)) {
        (Err(e), _) => (slab, Err(e)),
        (Ok(None), _) => (slab, Err(ErrView::NotFound)),
        (Ok(Some(_)), Err(e)) => (slab, Err(e)),
        (Ok(Some(src)), Ok(None)) => (
            relinked(slab, dir, name, new_dir, new_name, src),
            Ok(Some(src)),
        ),
        (Ok(Some(src)), Ok(Some(dst))) => if dst == src {
            (slab, Ok(None))
        } else if !slab.has(src) || !slab.has(dst) {
            (slab, Err(ErrView::NotFound))
        } else if slab.node(src).is_dir() && !slab.node(dst).is_dir() {
            (slab, Err(ErrView::NotADirectory))
        } else if !slab.node(src).is_dir() && slab.node(dst).is_dir() {
            (slab, Err(ErrView::NotAFile))
        } else {
            match droppable(slab, objects, dst) {
                Err(e) => (slab, Err(e)),
                Ok(false) => (slab, Err(ErrView::NotEmpty)),
                Ok(true) => (
                    relinked(
                        slab.without_child(new_dir, new_name),
                        dir,
                        name,
                        new_dir,
                        new_name,
                        src,
                    ),
                    Ok(Some(src)),
                ),
            }
        },
    }
}

/// Move an entry between modified directories.
pub fn move_entry(
    slab: &mut InodeSlab,
    store: &GitContentStore,
    dir: InodeId,
    name: &str,
    new_dir: InodeId,
    new_name: &str,
) -> (r: Result<Option<InodeId>, FsError>)
    ensures
        (final(slab)@, outcome(r)) == moved(old(slab)@, store@, dir, name@, new_dir, new_name@),
{
    let src: InodeId = match child_of_dir(slab, dir, name) {
        Err(e) => {
            return Err(e);
        },
        Ok(None) => {
            return Err(FsError::NotFound);
        },
        Ok(Some(src)) => src,
    };
    match child_of_dir(slab, new_dir, new_name) {
        Err(e) => {
            return Err(e);
        },
        Ok(None) => {},
        Ok(Some(dst)) => {
            if dst == src {
                return Ok(None);
            }
            let src_is_dir = match slab.inode(src) {
                Some(inode) => inode.node.is_dir(),
                None => {
                    return Err(FsError::NotFound);
                },
            };
            let dst_is_dir = match slab.inode(dst) {
                Some(inode) => inode.node.is_dir(),
                None => {
                    return Err(FsError::NotFound);
                },
            };
            if src_is_dir && !dst_is_dir {
                return Err(FsError::NotADirectory);
            }
            if !src_is_dir && dst_is_dir {
                return Err(FsError::NotAFile);
            }
            match can_drop(slab, store, dst) {
                Err(e) => {
                    return Err(e);
                },
                Ok(false) => {
                    return Err(FsError::NotEmpty);
                },
                Ok(true) => {},
            }
            assert(slab@.attached(new_dir, new_name@, dst));
            let _ = slab.detach_child(new_dir, new_name);
        },
    }
    assert(slab@.attached(dir, name@, src));
    let _ = slab.detach_child(dir, name);
    assert(slab@.can_attach(new_dir, new_name@));
    let _ = slab.attach_child(new_dir, new_name.to_owned(), src);
    Ok(Some(src))
}

// ---- changing files ---------------------------------------------------------------

/// The slab after `data` was written into an opened file, and the result.
pub open spec fn file_written(
    slab: SlabView,
    ino: InodeId,
    offset: u64,
    data: Seq<u8>,
) -> SlabView {
    let content = slab.node(ino)->DirtyFile_content;
    let executable = slab.node(ino)->DirtyFile_executable;
    slab.with_node(
        ino,
        NodeView::DirtyFile { content: spliced(content, offset as nat, data), executable },
    )
}

/// Write into an opened file.
pub fn write_opened(slab: &mut InodeSlab, ino: InodeId, offset: usize, data: &[u8])
    requires
        old(slab)@.has(ino),
        old(slab)@.node(ino) is DirtyFile,
        offset + data@.len() <= usize::MAX,
    ensures
        final(slab)@ == file_written(old(slab)@, ino, offset as u64, data@),
{
    let (mut content, executable) = match slab.inode(ino) {
        Some(inode) => match &inode.node {
            NodeRef::DirtyFile { content, executable } => (
                copy_bytes(content.as_slice()),
                *executable,
            ),
            _ => {
                assert(false);
                return ;
            },
        },
        None => {
            assert(false);
            return ;
        },
    };
    splice_buffer(&mut content, offset, data);
    let _ = slab.replace_node(ino, NodeRef::DirtyFile { content, executable });
}

/// The slab after an opened file got another length or mode.
pub open spec fn file_changed(
    slab: SlabView,
    ino: InodeId,
    size: Option<u64>,
    executable: Option<bool>,
) -> SlabView {
    let content = slab.node(ino)->DirtyFile_content;
    slab.with_node(
        ino,
        NodeView::DirtyFile {
            content: match size {
                Some(len) => resized(content, len as nat),
                None => content,
            },
            executable: match executable {
                Some(bit) => bit,
                None => slab.node(ino)->DirtyFile_executable,
            },
        },
    )
}

/// Change the length or the mode of an opened file.
pub fn change_opened(
    slab: &mut InodeSlab,
    ino: InodeId,
    size: Option<u64>,
    executable: Option<bool>,
)
    requires
        old(slab)@.has(ino),
        old(slab)@.node(ino) is DirtyFile,
        size matches Some(len) ==> len <= usize::MAX,
    ensures
        final(slab)@ == file_changed(old(slab)@, ino, size, executable),
{
    let (mut content, mut bit) = match slab.inode(ino) {
        Some(inode) => match &inode.node {
            NodeRef::DirtyFile { content, executable } => (
                copy_bytes(content.as_slice()),
                *executable,
            ),
            _ => {
                assert(false);
                return ;
            },
        },
        None => {
            assert(false);
            return ;
        },
    };
    if let Some(len) = size {
        resize_buffer(&mut content, len as usize);
    }
    if let Some(new_bit) = executable {
        bit = new_bit;
    }
    let _ = slab.replace_node(ino, NodeRef::DirtyFile { content, executable: bit });
}

} // verus!
