//! What reading, writing and changing files means, byte by byte.
use vstd::prelude::*;
use vstd::utf8::encode_utf8;
use crate::git_store::{link_at, Objects};
use crate::vfs::inode::{InodeId, NodeView, SlabView};
use crate::vfs::kiki_fs::KikiView;
use crate::vfs::laws::lemma_dirty_stays;
use crate::vfs::tree_ops::{attr_result, file_opened, read_result, readlink_result};
use crate::vfs::types::FileKind;
use crate::vfs::yak_fs::{attr_changed, bytes_written};
use crate::vfs::yak_open::lemma_upward_stays;

verus! {

/// The bytes that a file holds, where they can be read: those in memory, or the
/// blob that the store holds.
pub open spec fn bytes_of(slab: SlabView, objects: Objects, ino: InodeId) -> Option<Seq<u8>> {
    if 1 <= ino <= slab.inodes.len() {
        match slab.inodes[ino - 1].node {
            NodeView::DirtyFile { content, .. } => Some(content),
            NodeView::File { id, .. } => if objects.contains_key(id) && objects[id].kind is Blob {
                Some(objects[id].data)
            } else {
                None
            },
            _ => None,
        }
    } else {
        None
    }
}

/// The execute bit of a file.
pub open spec fn bit_of(slab: SlabView, ino: InodeId) -> bool {
    match slab.inodes[ino - 1].node {
        NodeView::DirtyFile { executable, .. } => executable,
        NodeView::File { executable, .. } => executable,
        _ => false,
    }
}

/// A read succeeds exactly on a file that can be read. It gives as many bytes as
/// were asked for, or as many as there are from the offset on if that is less: byte
/// for byte those of the file. It reports the end of the file exactly if what was
/// asked for reaches it.
pub proof fn read_gives_the_bytes(
    slab: SlabView,
    objects: Objects,
    ino: InodeId,
    offset: u64,
    count: u32,
)
    ensures
        match (read_result(slab, objects, ino, offset, count), bytes_of(slab, objects, ino)) {
            (Ok((bytes, eof)), Some(content)) => {
                &&& offset >= content.len() ==> bytes.len() == 0
                &&& offset < content.len() && offset + count <= content.len() ==> bytes.len()
                    == count
                &&& offset < content.len() && offset + count > content.len() ==> bytes.len()
                    == content.len() - offset
                &&& forall|i: int|
                    0 <= i < bytes.len() ==> #[trigger] bytes[i] == content[offset + i]
                &&& eof <==> offset + count >= content.len()
            },
            (Ok(_), None) => false,
            (Err(_), Some(_)) => false,
            (Err(_), None) => true,
        },
{
}

/// The first `n` pages of a file, joined.
pub open spec fn pages(
    slab: SlabView,
    objects: Objects,
    ino: InodeId,
    count: u32,
    n: nat,
) -> Seq<u8>
    decreases n,
{
    if n == 0 {
        Seq::empty()
    } else {
        pages(slab, objects, ino, count, (n - 1) as nat) + match read_result(
            slab,
            objects,
            ino,
            ((n - 1) * count) as u64,
            count,
        ) {
            Ok((bytes, _)) => bytes,
            Err(_) => Seq::empty(),
        }
    }
}

/// A file that is read page after page until a page reaches its end is the whole
/// file, whatever the size of a page.
pub proof fn pages_make_the_file(
    slab: SlabView,
    objects: Objects,
    ino: InodeId,
    count: u32,
    n: nat,
)
    requires
        bytes_of(slab, objects, ino) is Some,
        n * count <= u64::MAX,
    ensures
        n * count >= (bytes_of(slab, objects, ino)->0).len() ==> pages(
            slab,
            objects,
            ino,
            count,
            n,
        ) == bytes_of(slab, objects, ino)->0,
        n * count < (bytes_of(slab, objects, ino)->0).len() ==> pages(
            slab,
            objects,
            ino,
            count,
            n,
        ) == (bytes_of(slab, objects, ino)->0).take((n * count) as int),
    decreases n,
{
    let content = bytes_of(slab, objects, ino)->0;
    let all = pages(slab, objects, ino, count, n);
    if n == 0 {
        assert(0 * count == 0) by (nonlinear_arith);
        assert(all =~= content.take(0));
        if content.len() == 0 {
            assert(all =~= content);
        }
    } else {
        let m = (n - 1) as nat;
        assert(n * count == m * count + count) by (nonlinear_arith)
            requires
                n == m + 1,
        ;
        pages_make_the_file(slab, objects, ino, count, m);
        read_gives_the_bytes(slab, objects, ino, (m * count) as u64, count);
        let bytes = read_result(slab, objects, ino, (m * count) as u64, count)->Ok_0.0;
        if n * count >= content.len() {
            assert(all =~= content);
        } else {
            assert(all =~= content.take((n * count) as int));
        }
    }
}

/// What a file holds after bytes were put at an offset: they stand there, what was
/// elsewhere stays, a gap is filled with zeros, and the file is as long as it was
/// or reaches to the end of the bytes.
pub open spec fn holds_written(
    before: Seq<u8>,
    offset: int,
    data: Seq<u8>,
    after: Seq<u8>,
) -> bool {
    &&& after.len() >= before.len()
    &&& after.len() >= offset + data.len()
    &&& after.len() == before.len() || after.len() == offset + data.len()
    &&& forall|i: int| 0 <= i < data.len() ==> #[trigger] data[i] == after[offset + i]
    &&& forall|i: int|
        0 <= i < before.len() && !(offset <= i < offset + data.len()) ==> #[trigger] before[i]
            == after[i]
    &&& forall|i: int|
        before.len() <= i < after.len() && !(offset <= i < offset + data.len())
            ==> #[trigger] after[i] == 0u8
}

/// What a file holds after its length was set: it is cut there or filled with
/// zeros.
pub open spec fn holds_resized(before: Seq<u8>, len: int, after: Seq<u8>) -> bool {
    &&& after.len() == len
    &&& forall|i: int| 0 <= i < len && i < before.len() ==> #[trigger] after[i] == before[i]
    &&& forall|i: int| before.len() <= i < len ==> #[trigger] after[i] == 0u8
}

/// A write that succeeds was to a file that could be read. It reports that all
/// bytes were written, and the file holds them then; its mode stays.
pub proof fn write_puts_the_bytes(
    v: KikiView,
    objects: Objects,
    ino: InodeId,
    offset: u64,
    data: Seq<u8>,
)
    requires
        data.len() <= u32::MAX,
    ensures
        ({
            let (after, r) = v.write(objects, ino, offset, data);
            &&& ino == v.git_file || bytes_of(v.slab, objects, ino) is None ==> r is Err
            &&& r matches Ok(n) ==> {
                &&& n == data.len()
                &&& bytes_of(v.slab, objects, ino) matches Some(old_bytes)
                &&& bytes_of(after.slab, objects, ino) matches Some(new_bytes)
                &&& holds_written(old_bytes, offset as int, data, new_bytes)
                &&& bit_of(after.slab, ino) == bit_of(v.slab, ino)
            }
        }),
{
    let (after, r) = v.write(objects, ino, offset, data);
    if r is Ok {
        let first = file_opened(v.slab, objects, ino).0;
        lemma_dirty_stays(v.with_slab(first), objects, first.at(ino).parent, ino);
        let content = bytes_of(v.slab, objects, ino)->0;
        let new_bytes = bytes_of(after.slab, objects, ino)->0;
        assert forall|i: int| 0 <= i < data.len() implies #[trigger] data[i] == new_bytes[offset
            + i] by {}
    }
}

/// Setting the length or the mode of a file sets these and nothing else, and gives
/// the attributes that the file has then.
pub proof fn setattr_sets_length_and_mode(
    v: KikiView,
    objects: Objects,
    ino: InodeId,
    size: Option<u64>,
    executable: Option<bool>,
)
    ensures
        ({
            let (after, r) = v.setattr(objects, ino, size, executable);
            &&& ino == v.git_file ==> r is Err
            &&& size is None && executable is None ==> after == v
            &&& (size is Some || executable is Some) && r is Ok ==> {
                &&& bytes_of(v.slab, objects, ino) matches Some(old_bytes)
                &&& bytes_of(after.slab, objects, ino) matches Some(new_bytes)
                &&& size matches Some(len) ==> holds_resized(old_bytes, len as int, new_bytes)
                &&& size is None ==> new_bytes == old_bytes
                &&& bit_of(after.slab, ino) == match executable {
                    Some(bit) => bit,
                    None => bit_of(v.slab, ino),
                }
            }
            &&& r matches Ok(attr) ==> attr.inode == ino && (bytes_of(
                after.slab,
                objects,
                ino,
            ) matches Some(now) ==> (now.len() <= u64::MAX ==> attr.size == now.len())
                && attr.executable == bit_of(after.slab, ino) && attr.kind == FileKind::Regular)
        }),
{
    let (after, r) = v.setattr(objects, ino, size, executable);
    if r is Ok && ino != v.git_file && (size is Some || executable is Some) {
        let first = file_opened(v.slab, objects, ino).0;
        lemma_dirty_stays(v.with_slab(first), objects, first.at(ino).parent, ino);
    }
}

/// The attributes of an inode are its own: its kind, how many bytes a read of the
/// whole file or link gives, and its mode. A directory has no size.
pub proof fn attributes_are_those_of_the_inode(
    slab: SlabView,
    objects: Objects,
    ino: InodeId,
    mtime: i64,
)
    ensures
        attr_result(slab, objects, ino, mtime) matches Ok(attr) ==> {
            &&& 1 <= ino <= slab.inodes.len()
            &&& attr.inode == ino
            &&& attr.mtime_secs == mtime
            &&& match slab.inodes[ino - 1].node {
                NodeView::Tree(_) | NodeView::DirtyTree(_) => attr.kind == FileKind::Directory
                    && attr.size == 0 && !attr.executable,
                NodeView::File { .. } | NodeView::DirtyFile { .. } => {
                    &&& attr.kind == FileKind::Regular
                    &&& attr.executable == bit_of(slab, ino)
                    &&& bytes_of(slab, objects, ino) matches Some(content) && (content.len()
                        <= u64::MAX ==> attr.size == content.len())
                },
                NodeView::Symlink(_) | NodeView::DirtySymlink(_) => {
                    &&& attr.kind == FileKind::Symlink
                    &&& !attr.executable
                    &&& readlink_result(slab, objects, ino) matches Ok(target) && (encode_utf8(
                        target,
                    ).len() <= u64::MAX ==> attr.size == encode_utf8(target).len())
                },
            }
        },
        !(1 <= ino <= slab.inodes.len()) ==> attr_result(slab, objects, ino, mtime) is Err,
{
}

/// Reading a symlink gives the target that is in memory, or the one that the store
/// holds as a blob.
pub proof fn readlink_gives_the_target(slab: SlabView, objects: Objects, ino: InodeId)
    ensures
        readlink_result(slab, objects, ino) matches Ok(target) ==> 1 <= ino <= slab.inodes.len()
            && match slab.inodes[ino - 1].node {
            NodeView::DirtySymlink(own) => target == own,
            NodeView::Symlink(id) => objects.contains_key(id) && objects[id].kind is Blob
                && encode_utf8(target) == objects[id].data,
            _ => false,
        },
        1 <= ino <= slab.inodes.len() && slab.inodes[ino - 1].node is DirtySymlink
            ==> readlink_result(slab, objects, ino) is Ok,
        1 <= ino <= slab.inodes.len() && (slab.inodes[ino - 1].node matches NodeView::Symlink(id)
            && link_at(objects, id) matches Ok(Some(_))) ==> readlink_result(slab, objects, ino)
            is Ok,
{
    if 1 <= ino <= slab.inodes.len() {
        if let NodeView::Symlink(id) = slab.inodes[ino - 1].node {
            if objects.contains_key(id) && vstd::utf8::valid_utf8(objects[id].data) {
                vstd::utf8::decode_utf8_encode_utf8(objects[id].data);
            }
        }
    }
}

/// In the plain filesystem, too, a write that succeeds puts all bytes in place and
/// keeps the mode.
pub proof fn plain_write_puts_the_bytes(
    slab: SlabView,
    objects: Objects,
    ino: InodeId,
    offset: u64,
    data: Seq<u8>,
)
    requires
        data.len() <= u32::MAX,
    ensures
        ({
            let (after, r) = bytes_written(slab, objects, ino, offset, data);
            &&& bytes_of(slab, objects, ino) is None ==> r is Err
            &&& r matches Ok(n) ==> {
                &&& n == data.len()
                &&& bytes_of(slab, objects, ino) matches Some(old_bytes)
                &&& bytes_of(after, objects, ino) matches Some(new_bytes)
                &&& holds_written(old_bytes, offset as int, data, new_bytes)
                &&& bit_of(after, ino) == bit_of(slab, ino)
            }
        }),
{
    let (after, r) = bytes_written(slab, objects, ino, offset, data);
    if r is Ok {
        let first = file_opened(slab, objects, ino).0;
        lemma_upward_stays(first, objects, first.at(ino).parent, ino);
        let new_bytes = bytes_of(after, objects, ino)->0;
        assert forall|i: int| 0 <= i < data.len() implies #[trigger] data[i] == new_bytes[offset
            + i] by {}
    }
}

/// In the plain filesystem, too, setting the length or the mode of a file sets
/// these and nothing else.
pub proof fn plain_setattr_sets_length_and_mode(
    slab: SlabView,
    objects: Objects,
    ino: InodeId,
    size: Option<u64>,
    executable: Option<bool>,
)
    ensures
        ({
            let (after, r) = attr_changed(slab, objects, ino, size, executable);
            &&& size is None && executable is None ==> after == slab
            &&& (size is Some || executable is Some) && r is Ok ==> {
                &&& bytes_of(slab, objects, ino) matches Some(old_bytes)
                &&& bytes_of(after, objects, ino) matches Some(new_bytes)
                &&& size matches Some(len) ==> holds_resized(old_bytes, len as int, new_bytes)
                &&& size is None ==> new_bytes == old_bytes
                &&& bit_of(after, ino) == match executable {
                    Some(bit) => bit,
                    None => bit_of(slab, ino),
                }
            }
            &&& r matches Ok(attr) ==> attr.inode == ino && (bytes_of(
                after,
                objects,
                ino,
            ) matches Some(now) ==> (now.len() <= u64::MAX ==> attr.size == now.len())
                && attr.executable == bit_of(after, ino) && attr.kind == FileKind::Regular)
        }),
{
    let (after, r) = attr_changed(slab, objects, ino, size, executable);
    if r is Ok && (size is Some || executable is Some) {
        let first = file_opened(slab, objects, ino).0;
        lemma_upward_stays(first, objects, first.at(ino).parent, ino);
    }
}

} // verus!
