//! What the kernel is told is what the filesystem says.
use vstd::prelude::*;
use vstd::utf8::{decode_utf8_encode_utf8, encode_utf8, encode_utf8_decode_utf8, encode_utf8_valid_utf8, valid_utf8};
use crate::vfs::fuse_adapter::{
    errno, executable_mode, full_listing, fuse_attr, listing_behind, looked_up_attr, name_text,
    reply, Errno,
};
use crate::vfs::inode::InodeId;
use crate::vfs::kiki_fs::JjKikiFs;
use crate::vfs::nfs_adapter::{
    created_sized, nfs_attr, nfs_reply, nfs_text, page_attrs, page_end, page_start,
    pages_follow_each_other, status, written_attr, NfsStatus, Owner,
};
use crate::vfs::types::{Attr, DirEntryView, ErrView, FileKind};

verus! {

/// Every error of the filesystem is told by its own number; a failure of the store
/// is told as one of input and output.
pub proof fn errors_are_told_apart(e: ErrView)
    ensures
        errno(e) == Errno::Enoent <==> e is NotFound,
        errno(e) == Errno::Enotdir <==> e is NotADirectory,
        errno(e) == Errno::Eisdir <==> e is NotAFile,
        errno(e) == Errno::Einval <==> e is NotASymlink,
        errno(e) == Errno::Eexist <==> e is AlreadyExists,
        errno(e) == Errno::Enotempty <==> e is NotEmpty,
        errno(e) == Errno::Eacces <==> e is PermissionDenied,
        errno(e) == Errno::Exdev <==> e is CrossDevice,
        errno(e) == Errno::Eio <==> e is StoreMiss || e is StoreError,
        status(e) == NfsStatus::NoEnt <==> e is NotFound,
        status(e) == NfsStatus::NotDir <==> e is NotADirectory,
        status(e) == NfsStatus::IsDir <==> e is NotAFile,
        status(e) == NfsStatus::Inval <==> e is NotASymlink,
        status(e) == NfsStatus::Exist <==> e is AlreadyExists,
        status(e) == NfsStatus::NotEmpty <==> e is NotEmpty,
        status(e) == NfsStatus::Acces <==> e is PermissionDenied,
        status(e) == NfsStatus::XDev <==> e is CrossDevice,
        status(e) == NfsStatus::Io <==> e is StoreMiss || e is StoreError,
{
}

/// A reply is the answer of the filesystem, or the number of its error.
pub proof fn replies_are_answers<T, U>(r: Result<T, ErrView>, f: spec_fn(T) -> U)
    ensures
        match r {
            Ok(x) => reply(r, f) == Ok::<U, Errno>(f(x)) && nfs_reply(r, f) == Ok::<
                U,
                NfsStatus,
            >(f(x)),
            Err(e) => reply(r, f) == Err::<U, Errno>(errno(e)) && nfs_reply(r, f) == Err::<
                U,
                NfsStatus,
            >(status(e)),
        },
{
}

/// A mode makes a file executable exactly if anyone may execute it.
pub proof fn any_execute_bit_counts(mode: u32)
    ensures
        executable_mode(mode) <==> mode & 0o100 != 0 || mode & 0o010 != 0 || mode & 0o001 != 0,
{
    assert(mode & 0o111 != 0 <==> mode & 0o100 != 0 || mode & 0o010 != 0 || mode & 0o001 != 0)
        by (bit_vector);
}

/// The attributes that are shown are those of the inode. The mode lets everyone
/// read and the owner write; it lets everyone execute exactly what is a directory, a
/// symlink or an executable file, and read back it says the same of a file.
pub proof fn attributes_are_shown(owner: Owner, a: Attr)
    ensures
        ({
            let f = fuse_attr(a);
            let n = nfs_attr(owner, a);
            let may_run = a.kind != FileKind::Regular || a.executable;
            &&& f.ino == a.inode && n.fileid == a.inode
            &&& f.size == a.size && n.size == a.size
            &&& f.kind == a.kind && n.kind == a.kind
            &&& f.blocks * 512 >= a.size && (f.blocks - 1) * 512 < a.size
            &&& n.uid == owner.uid && n.gid == owner.gid
            &&& n.mode == f.perm
            &&& a.kind == FileKind::Directory ==> f.perm == 0o755
            &&& a.kind == FileKind::Symlink ==> f.perm == 0o777
            &&& a.kind == FileKind::Regular && a.executable ==> f.perm == 0o755
            &&& a.kind == FileKind::Regular && !a.executable ==> f.perm == 0o644
            &&& f.nlink == 1 && n.nlink == 1
            &&& f.uid == 0 && f.gid == 0 && f.rdev == 0 && f.blksize == 4096
            &&& n.used == a.size
            &&& f.perm & 0o644 == 0o644
            &&& f.perm <= 0o777
            &&& may_run ==> f.perm & 0o111 == 0o111
            &&& !may_run ==> f.perm & 0o111 == 0
            &&& a.kind == FileKind::Regular ==> executable_mode(n.mode) == a.executable && f.perm
                & 0o022 == 0
        }),
{
    assert(0o755u16 & 0o644 == 0o644 && 0o777u16 & 0o644 == 0o644 && 0o644u16 & 0o644 == 0o644)
        by (bit_vector);
    assert(0o755u16 & 0o111 == 0o111 && 0o777u16 & 0o111 == 0o111 && 0o644u16 & 0o111 == 0)
        by (bit_vector);
    assert(0o755u16 & 0o022 == 0 && 0o644u16 & 0o022 == 0) by (bit_vector);
    assert(0o755u32 & 0o111 != 0 && 0o644u32 & 0o111 == 0) by (bit_vector);
}

/// A name is taken exactly if it is text, and then it is that text: encoded again it
/// is the same bytes, and every text can be named.
pub proof fn names_are_their_text(name: Seq<u8>, text: Seq<char>)
    ensures
        name_text(name) is Ok <==> valid_utf8(name),
        nfs_text(name) is Ok <==> valid_utf8(name),
        name_text(name) matches Ok(t) ==> encode_utf8(t) == name,
        nfs_text(name) matches Ok(t) ==> encode_utf8(t) == name,
        name_text(encode_utf8(text)) == Ok::<Seq<char>, Errno>(text),
        nfs_text(encode_utf8(text)) == Ok::<Seq<char>, NfsStatus>(text),
        name_text(name) matches Err(e) ==> e == Errno::Enoent,
        nfs_text(name) matches Err(e) ==> e == NfsStatus::Inval,
{
    if valid_utf8(name) {
        decode_utf8_encode_utf8(name);
    }
    encode_utf8_valid_utf8(text);
    encode_utf8_decode_utf8(text);
}

/// A listing holds the directory itself, the one above it, and every entry in its
/// turn, under its name, inode and kind; what follows an offset is the rest, in
/// turn.
pub proof fn listing_holds_every_entry(
    dir: InodeId,
    entries: Seq<DirEntryView>,
    offset: i64,
    i: int,
)
    requires
        entries.len() + 2 <= i64::MAX,
    ensures
        ({
            let all = full_listing(dir, entries);
            let rest = listing_behind(all, offset);
            let from = if offset <= 0 {
                0
            } else {
                offset as int
            };
            &&& all.len() == entries.len() + 2
            &&& all[0].name == "."@ && all[0].inode == dir && all[0].kind == FileKind::Directory
            &&& all[1].name == ".."@ && all[1].inode == dir && all[1].kind == FileKind::Directory
            &&& 0 <= i < entries.len() ==> all[i + 2].name == entries[i].name && all[i + 2].inode
                == entries[i].inode && all[i + 2].kind == entries[i].kind
            &&& from <= all.len() ==> rest.len() == all.len() - from
            &&& from > all.len() ==> rest.len() == 0
            &&& 0 <= i < rest.len() ==> rest[i] == all[from + i]
            &&& 0 <= i < all.len() ==> all[i].offset == i + 1
        }),
{
}

/// An entry is looked up and then asked for its attributes.
pub proof fn lookup_gives_the_attributes<F: JjKikiFs>(
    s: F::State,
    parent: InodeId,
    name: Seq<char>,
)
    ensures
        match F::lookup_step(s, parent, name).1 {
            Ok(ino) => looked_up_attr::<F>(s, parent, name) == F::getattr_step(
                F::lookup_step(s, parent, name).0,
                ino,
            ),
            Err(e) => looked_up_attr::<F>(s, parent, name) == (
                F::lookup_step(s, parent, name).0,
                Err::<Attr, ErrView>(e),
            ),
        },
{
}

/// What NFS is told after a write are the attributes of the written file.
pub proof fn write_gives_the_attributes<F: JjKikiFs>(
    s: F::State,
    ino: InodeId,
    offset: u64,
    data: Seq<u8>,
)
    ensures
        match F::write_step(s, ino, offset, data).1 {
            Ok(_) => written_attr::<F>(s, ino, offset, data) == F::getattr_step(
                F::write_step(s, ino, offset, data).0,
                ino,
            ),
            Err(e) => written_attr::<F>(s, ino, offset, data) == (
                F::write_step(s, ino, offset, data).0,
                Err::<Attr, ErrView>(e),
            ),
        },
{
}

/// A file that is created with a size has that size set and nothing else; without
/// one it is as it was created.
pub proof fn created_file_has_its_size<F: JjKikiFs>(
    s: F::State,
    dir: InodeId,
    name: Seq<char>,
    executable: bool,
    size: Option<u64>,
)
    ensures
        ({
            let (made, r) = F::create_step(s, dir, name, executable);
            let (after, given) = created_sized::<F>(s, dir, name, executable, size);
            &&& r is Err || size is None ==> (after, given) == (made, r)
            &&& r is Ok && size is Some ==> {
                let (ino, _) = r->Ok_0;
                let (set, attr) = F::setattr_step(made, ino, size, None);
                &&& after == set
                &&& attr is Err ==> given is Err
                &&& attr matches Ok(a) ==> given == Ok::<(InodeId, Attr), ErrView>((ino, a))
            }
        }),
{
}

/// A page of a listing tells of each entry in its turn: its inode, its name and the
/// attributes that the filesystem gives when it is asked for them.
pub proof fn page_tells_of_each_entry<F: JjKikiFs>(
    s: F::State,
    owner: Owner,
    entries: Seq<DirEntryView>,
    i: int,
)
    requires
        0 <= i < entries.len(),
        page_attrs::<F>(s, owner, entries).1 is Ok,
    ensures
        ({
            let shown = page_attrs::<F>(s, owner, entries).1->Ok_0;
            let then = page_attrs::<F>(s, owner, entries.take(i)).0;
            &&& shown.len() == entries.len()
            &&& shown[i].fileid == entries[i].inode
            &&& shown[i].name == encode_utf8(entries[i].name)
            &&& F::getattr_step(then, entries[i].inode).1 matches Ok(a) && shown[i].attr
                == nfs_attr(owner, a)
        }),
    decreases entries.len(),
{
    let front = entries.drop_last();
    let shown = page_attrs::<F>(s, owner, entries).1->Ok_0;
    let before = page_attrs::<F>(s, owner, front).1->Ok_0;
    lemma_page_len::<F>(s, owner, front);
    if i < entries.len() - 1 {
        page_tells_of_each_entry::<F>(s, owner, front, i);
        assert(front.take(i) =~= entries.take(i));
        assert(shown[i] == before[i]);
    } else {
        assert(front =~= entries.take(i));
    }
}

proof fn lemma_page_len<F: JjKikiFs>(s: F::State, owner: Owner, entries: Seq<DirEntryView>)
    ensures
        page_attrs::<F>(s, owner, entries).1 matches Ok(shown) ==> shown.len() == entries.len(),
    decreases entries.len(),
{
    if entries.len() > 0 {
        lemma_page_len::<F>(s, owner, entries.drop_last());
    }
}

/// At most `n` pages of a listing, joined: the first one behind an inode, each other
/// one behind the last entry of the one before it, until one reaches the end.
pub open spec fn joined_pages(
    entries: Seq<DirEntryView>,
    after: InodeId,
    max: int,
    n: nat,
) -> Seq<DirEntryView>
    decreases n,
{
    if n == 0 {
        Seq::empty()
    } else {
        let start = page_start(entries, after);
        let end = page_end(entries, start, max);
        let page = entries.subrange(start, end);
        if end == entries.len() {
            page
        } else {
            page + joined_pages(entries, entries[end - 1].inode, max, (n - 1) as nat)
        }
    }
}

proof fn lemma_pages_from(
    entries: Seq<DirEntryView>,
    after: InodeId,
    start: int,
    max: int,
    n: nat,
)
    requires
        max > 0,
        page_start(entries, after) == start,
        0 <= start <= entries.len(),
        n * max >= entries.len() - start,
        n > 0,
        forall|i: int| 0 <= i < entries.len() ==> (#[trigger] entries[i]).inode != 0,
        forall|i: int, j: int|
            0 <= i < j < entries.len() ==> (#[trigger] entries[i]).inode != (
            #[trigger] entries[j]).inode,
    ensures
        joined_pages(entries, after, max, n) == entries.skip(start),
    decreases n,
{
    let end = page_end(entries, start, max);
    let page = entries.subrange(start, end);
    if start == entries.len() {
        assert(page =~= entries.skip(start));
    } else {
        pages_follow_each_other(entries, start, max);
        if end == entries.len() {
            assert(page =~= entries.skip(start));
        } else {
            let m = (n - 1) as nat;
            assert(n * max == m * max + max) by (nonlinear_arith)
                requires
                    n == m + 1,
            ;
            assert(m > 0) by {
                if m == 0 {
                    assert(m * max == 0) by (nonlinear_arith)
                        requires
                            m == 0,
                    ;
                }
            }
            lemma_pages_from(entries, entries[end - 1].inode, end, max, m);
            assert(page + entries.skip(end) =~= entries.skip(start));
        }
    }
}

/// A listing that is asked for page after page is the whole listing, in order, with
/// nothing left out and nothing twice, whatever the size of a page.
pub proof fn pages_make_the_listing(entries: Seq<DirEntryView>, max: int, n: nat)
    requires
        max > 0,
        n > 0,
        n * max >= entries.len(),
        forall|i: int| 0 <= i < entries.len() ==> (#[trigger] entries[i]).inode != 0,
        forall|i: int, j: int|
            0 <= i < j < entries.len() ==> (#[trigger] entries[i]).inode != (
            #[trigger] entries[j]).inode,
    ensures
        joined_pages(entries, 0, max, n) == entries,
{
    lemma_pages_from(entries, 0, 0, max, n);
    assert(entries.skip(0) =~= entries);
}

/// A page has as many entries as were asked for, or what is left; the first one
/// begins with the first entry, and none comes behind an inode that is not listed.
pub proof fn pages_are_no_longer_than_asked(
    entries: Seq<DirEntryView>,
    after: InodeId,
    start: int,
    max: int,
)
    requires
        max >= 0,
        0 <= start <= entries.len(),
    ensures
        page_start(entries, 0) == 0,
        after != 0 && (forall|i: int|
            0 <= i < entries.len() ==> (#[trigger] entries[i]).inode != after) ==> page_start(
            entries,
            after,
        ) == entries.len(),
        0 <= page_start(entries, after) <= entries.len(),
        page_start(entries, after) > 0 && page_start(entries, after) < entries.len()
            ==> entries[page_start(entries, after) - 1].inode == after,
        start + max <= entries.len() ==> page_end(entries, start, max) == start + max,
        start + max > entries.len() ==> page_end(entries, start, max) == entries.len(),
{
    crate::vfs::nfs_adapter::lemma_inode_at(entries, after);
}

} // verus!
