//! A filesystem as FUSE sees it.
//!
//! Names arrive as bytes, errors leave as error numbers, and a directory listing
//! begins with `.` and `..` and can be continued at an offset. File handles
//! carry no state.
use vstd::prelude::*;
use vstd::utf8::{decode_utf8, valid_utf8};
use crate::git_store::utf8_string;
use crate::text::copy_bytes;
use crate::vfs::inode::InodeId;
use crate::vfs::kiki_fs::JjKikiFs;
use crate::vfs::types::{listing_view, Attr, DirEntry, DirEntryView, ErrView, FileKind, FsError};

verus! {

broadcast use vstd::string::group_string_axioms;

/// The error numbers that are reported.
#[derive(Debug, Clone, Copy, PartialEq, Eq, Structural)]
pub enum Errno {
    Enoent,
    Enotdir,
    Eisdir,
    Einval,
    Eexist,
    Enotempty,
    Eacces,
    Exdev,
    Eio,
}

/// The error number of an error.
pub open spec fn errno(e: ErrView) -> Errno {
    match e {
        ErrView::NotFound => Errno::Enoent,
        ErrView::NotADirectory => Errno::Enotdir,
        ErrView::NotAFile => Errno::Eisdir,
        ErrView::NotASymlink => Errno::Einval,
        ErrView::AlreadyExists => Errno::Eexist,
        ErrView::NotEmpty => Errno::Enotempty,
        ErrView::PermissionDenied => Errno::Eacces,
        ErrView::CrossDevice => Errno::Exdev,
        ErrView::StoreMiss => Errno::Eio,
        ErrView::StoreError(_) => Errno::Eio,
    }
}

/// The error number of an error.
pub fn fs_err_to_errno(e: FsError) -> (r: Errno)
    ensures
        r == errno(e@),
{
    match e {
        FsError::NotFound => Errno::Enoent,
        FsError::NotADirectory => Errno::Enotdir,
        FsError::NotAFile => Errno::Eisdir,
        FsError::NotASymlink => Errno::Einval,
        FsError::AlreadyExists => Errno::Eexist,
        FsError::NotEmpty => Errno::Enotempty,
        FsError::PermissionDenied => Errno::Eacces,
        FsError::CrossDevice => Errno::Exdev,
        FsError::StoreMiss => Errno::Eio,
        FsError::StoreError(_) => Errno::Eio,
    }
}

/// The text of a name; one that is not UTF-8 names nothing.
pub open spec fn name_text(name: Seq<u8>) -> Result<Seq<char>, Errno> {
    if valid_utf8(name) {
        Ok(decode_utf8(name))
    } else {
        Err(Errno::Enoent)
    }
}

/// The text of a name.
pub fn name_to_str(name: &[u8]) -> (r: Result<String, Errno>)
    ensures
        (match r {
            Ok(text) => Ok(text@),
            Err(e) => Err(e),
        }) == name_text(name@),
{
    match utf8_string(name) {
        Some(text) => Ok(text),
        None => Err(Errno::Enoent),
    }
}

/// Attributes as FUSE takes them.
#[derive(Debug, Clone, Copy, PartialEq, Eq, Structural)]
pub struct FileAttr {
    pub ino: u64,
    pub size: u64,
    /// Size in sectors of 512 bytes, rounded up.
    pub blocks: u64,
    pub kind: FileKind,
    pub perm: u16,
    pub nlink: u32,
    pub uid: u32,
    pub gid: u32,
    pub rdev: u32,
    pub blksize: u32,
}

/// The permission bits that a file shows.
pub open spec fn perm_of(a: Attr) -> u16 {
    match a.kind {
        FileKind::Directory => 0o755,
        FileKind::Symlink => 0o777,
        FileKind::Regular => if a.executable {
            0o755
        } else {
            0o644
        },
    }
}

/// Attributes as FUSE takes them.
pub open spec fn fuse_attr(a: Attr) -> FileAttr {
    FileAttr {
        ino: a.inode,
        size: a.size,
        blocks: ((a.size + 511) / 512) as u64,
        kind: a.kind,
        perm: perm_of(a),
        nlink: 1,
        uid: 0,
        gid: 0,
        rdev: 0,
        blksize: 4096,
    }
}

/// Attributes as FUSE takes them.
pub fn to_file_attr(a: Attr) -> (r: FileAttr)
    ensures
        r == fuse_attr(a),
{
    let perm: u16 = match a.kind {
        FileKind::Directory => 0o755,
        FileKind::Symlink => 0o777,
        FileKind::Regular => if a.executable {
            0o755
        } else {
            0o644
        },
    };
    let whole: u64 = a.size / 512;
    let blocks: u64 = if a.size % 512 == 0 {
        whole
    } else {
        whole + 1
    };
    FileAttr {
        ino: a.inode,
        size: a.size,
        blocks,
        kind: a.kind,
        perm,
        nlink: 1,
        uid: 0,
        gid: 0,
        rdev: 0,
        blksize: 4096,
    }
}

/// Any execute bit of a mode makes a file executable.
pub open spec fn executable_mode(mode: u32) -> bool {
    mode & 0o111 != 0
}

/// Any execute bit of a mode makes a file executable.
pub fn mode_executable(mode: u32) -> (r: bool)
    ensures
        r == executable_mode(mode),
{
    mode & 0o111 != 0
}

/// An entry of a listing as FUSE takes it; `offset` continues behind it.
#[derive(Debug, Clone)]
pub struct DirectoryEntry {
    pub inode: u64,
    pub kind: FileKind,
    pub name: String,
    pub offset: i64,
}

/// The value of a [`DirectoryEntry`].
pub struct DirectoryEntryView {
    pub inode: u64,
    pub kind: FileKind,
    pub name: Seq<char>,
    pub offset: int,
}

impl View for DirectoryEntry {
    type V = DirectoryEntryView;

    open spec fn view(&self) -> DirectoryEntryView {
        DirectoryEntryView {
            inode: self.inode,
            kind: self.kind,
            name: self.name@,
            offset: self.offset as int,
        }
    }
}

/// The whole listing of a directory: itself, the directory above it, for which
/// its own inode stands in, and its entries, with offsets from 1 on.
pub open spec fn full_listing(dir: InodeId, entries: Seq<DirEntryView>) -> Seq<DirectoryEntryView> {
    Seq::new(
        entries.len() + 2,
        |i: int|
            if i == 0 {
                DirectoryEntryView {
                    inode: dir,
                    kind: FileKind::Directory,
                    name: "."@,
                    offset: 1,
                }
            } else if i == 1 {
                DirectoryEntryView {
                    inode: dir,
                    kind: FileKind::Directory,
                    name: ".."@,
                    offset: 2,
                }
            } else {
                DirectoryEntryView {
                    inode: entries[i - 2].inode,
                    kind: entries[i - 2].kind,
                    name: entries[i - 2].name,
                    offset: i + 1,
                }
            },
    )
}

/// What is left of a listing behind an offset.
pub open spec fn listing_behind(all: Seq<DirectoryEntryView>, offset: i64) -> Seq<
    DirectoryEntryView,
> {
    if offset <= 0 {
        all
    } else if offset >= all.len() {
        seq![]
    } else {
        all.skip(offset as int)
    }
}

/// Continuing a listing at the offset of its last entry gives the rest: nothing
/// is left out and nothing comes twice.
pub proof fn listing_resumes(dir: InodeId, entries: Seq<DirEntryView>, n: int)
    requires
        0 < n <= entries.len() + 2,
        entries.len() + 2 <= i64::MAX,
    ensures
        ({
            let all = full_listing(dir, entries);
            let last = all[n - 1];
            all.take(n) + listing_behind(all, last.offset as i64) == all
        }),
{
    let all = full_listing(dir, entries);
    let rest = listing_behind(all, all[n - 1].offset as i64);
    assert(all[n - 1].offset == n);
    assert(all.take(n) + rest =~= all);
}

/// Build the part of a listing behind an offset.
pub fn directory_page(dir: InodeId, entries: &Vec<DirEntry>, offset: i64) -> (out: Vec<
    DirectoryEntry,
>)
    requires
        entries@.len() + 2 <= i64::MAX,
    ensures
        out@.map_values(|e: DirectoryEntry| e@) == listing_behind(
            full_listing(dir, listing_view(entries@)),
            offset,
        ),
{
    let ghost all = full_listing(dir, listing_view(entries@));
    let n: usize = entries.len();
    let start: i64 = if offset <= 0 {
        0
    } else {
        offset
    };
    let mut out: Vec<DirectoryEntry> = Vec::new();
    let mut i: i64 = 0;
    while i < n as i64 + 2
        invariant
            0 <= i <= n + 2,
            n == entries@.len(),
            n + 2 <= i64::MAX,
            start >= 0,
            all == full_listing(dir, listing_view(entries@)),
            out@.map_values(|e: DirectoryEntry| e@) == (if start >= i {
                seq![]
            } else {
                all.subrange(start as int, i as int)
            }),
        decreases n + 2 - i,
    {
        if i >= start {
            let ghost before = out@.map_values(|e: DirectoryEntry| e@);
            let entry = if i == 0 {
                DirectoryEntry {
                    inode: dir,
                    kind: FileKind::Directory,
                    name: ".".to_owned(),
                    offset: 1,
                }
            } else if i == 1 {
                DirectoryEntry {
                    inode: dir,
                    kind: FileKind::Directory,
                    name: "..".to_owned(),
                    offset: 2,
                }
            } else {
                let e = &entries[(i - 2) as usize];
                assert(listing_view(entries@)[i - 2] == e@);
                DirectoryEntry {
                    inode: e.inode,
                    kind: e.kind,
                    name: e.name.clone(),
                    offset: i + 1,
                }
            };
            let ghost value = entry@;
            out.push(entry);
            proof {
                assert(value == all[i as int]);
                assert(out@.map_values(|e: DirectoryEntry| e@) =~= before.push(value));
                assert(all.subrange(start as int, i + 1) =~= before.push(value));
            }
        }
        i = i + 1;
    }
    proof {
        assert(i == all.len());
        if start < i {
            assert(all.subrange(start as int, i as int) =~= listing_behind(all, offset));
        }
    }
    out
}

/// The FUSE side of a filesystem.
#[derive(Debug)]
pub struct FuseAdapter<F: JjKikiFs> {
    inner: F,
}

/// A result with its error as FUSE reports it.
pub open spec fn reply<T, U>(r: Result<T, ErrView>, f: spec_fn(T) -> U) -> Result<U, Errno> {
    match r {
        Ok(x) => Ok(f(x)),
        Err(e) => Err(errno(e)),
    }
}

/// What looking up an entry and then its attributes does and gives.
pub open spec fn looked_up_attr<F: JjKikiFs>(s: F::State, parent: InodeId, name: Seq<char>) -> (
    F::State,
    Result<Attr, ErrView>,
) {
    let (s1, r) = F::lookup_step(s, parent, name);
    match r {
        Err(e) => (s1, Err(e)),
        Ok(ino) => F::getattr_step(s1, ino),
    }
}

impl<F: JjKikiFs> FuseAdapter<F> {
    /// The filesystem behind the adapter.
    pub closed spec fn inner(&self) -> F {
        self.inner
    }

    /// The state of the filesystem behind the adapter.
    pub open spec fn state(&self) -> F::State {
        self.inner().state()
    }

    /// Serve a filesystem.
    pub fn new(inner: F) -> (a: FuseAdapter<F>)
        ensures
            a.inner() == inner,
    {
        FuseAdapter { inner }
    }

    /// The filesystem, to be used directly.
    pub fn into_inner(self) -> (fs: F)
        ensures
            fs == self.inner(),
    {
        self.inner
    }

    /// Find an entry and give its attributes.
    pub fn lookup(&mut self, parent: InodeId, name: &[u8]) -> (r: Result<FileAttr, Errno>)
        requires
            old(self).inner().in_order(),
        ensures
            final(self).inner().in_order(),
            match name_text(name@) {
                Err(e) => final(self).state() == old(self).state() && r == Err::<FileAttr, Errno>(e),
                Ok(text) => {
                    let (s, attr) = looked_up_attr::<F>(old(self).state(), parent, text);
                    final(self).state() == s && r == reply(attr, |a: Attr| fuse_attr(a))
                },
            },
    {
        let text = match name_to_str(name) {
            Ok(text) => text,
            Err(e) => {
                return Err(e);
            },
        };
        let ino: InodeId = match self.inner.lookup(parent, text.as_str()) {
            Ok(ino) => ino,
            Err(e) => {
                return Err(fs_err_to_errno(e));
            },
        };
        match self.inner.getattr(ino) {
            Ok(a) => Ok(to_file_attr(a)),
            Err(e) => Err(fs_err_to_errno(e)),
        }
    }

    /// The attributes of an inode.
    pub fn getattr(&mut self, inode: InodeId) -> (r: Result<FileAttr, Errno>)
        requires
            old(self).inner().in_order(),
        ensures
            final(self).inner().in_order(),
            (final(self).state(), r) == ({
                let (s, attr) = F::getattr_step(old(self).state(), inode);
                (s, reply(attr, |a: Attr| fuse_attr(a)))
            }),
    {
        match self.inner.getattr(inode) {
            Ok(a) => Ok(to_file_attr(a)),
            Err(e) => Err(fs_err_to_errno(e)),
        }
    }

    /// Read from a file. The end of the file shows in the length.
    pub fn read(&mut self, inode: InodeId, offset: u64, size: u32) -> (r: Result<Vec<u8>, Errno>)
        requires
            old(self).inner().in_order(),
        ensures
            final(self).inner().in_order(),
            ({
                let (s, read) = F::read_step(old(self).state(), inode, offset, size);
                &&& final(self).state() == s
                &&& match read {
                    Ok((bytes, _)) => r matches Ok(data) && data@ == bytes,
                    Err(e) => r matches Err(n) && n == errno(e),
                }
            }),
    {
        match self.inner.read(inode, offset, size) {
            Ok((data, _)) => Ok(data),
            Err(e) => Err(fs_err_to_errno(e)),
        }
    }

    /// List a directory behind an offset.
    pub fn readdir(
        &mut self,
        parent: InodeId,
        offset: i64,
    ) -> (r: Result<Vec<DirectoryEntry>, Errno>)
        requires
            old(self).inner().in_order(),
        ensures
            final(self).inner().in_order(),
            ({
                let (s, list) = F::readdir_step(old(self).state(), parent);
                &&& final(self).state() == s
                &&& match list {
                    Ok(entries) => if entries.len() + 2 <= i64::MAX {
                        r matches Ok(out) && out@.map_values(|e: DirectoryEntry| e@)
                            == listing_behind(full_listing(parent, entries), offset)
                    } else {
                        r matches Err(n) && n == Errno::Eio
                    },
                    Err(e) => r matches Err(n) && n == errno(e),
                }
            }),
    {
        match self.inner.readdir(parent) {
            Ok(entries) => {
                assert(listing_view(entries@).len() == entries@.len());
                if entries.len() as u64 > 0x7fff_ffff_ffff_fffd {
                    return Err(Errno::Eio);
                }
                Ok(directory_page(parent, &entries, offset))
            },
            Err(e) => Err(fs_err_to_errno(e)),
        }
    }

    /// Read a symlink.
    pub fn readlink(&mut self, inode: InodeId) -> (r: Result<Vec<u8>, Errno>)
        requires
            old(self).inner().in_order(),
        ensures
            final(self).inner().in_order(),
            ({
                let (s, target) = F::readlink_step(old(self).state(), inode);
                &&& final(self).state() == s
                &&& match target {
                    Ok(text) => r matches Ok(data) && data@ == vstd::utf8::encode_utf8(text),
                    Err(e) => r matches Err(n) && n == errno(e),
                }
            }),
    {
        match self.inner.readlink(inode) {
            Ok(target) => Ok(copy_bytes(target.as_str().as_bytes())),
            Err(e) => Err(fs_err_to_errno(e)),
        }
    }

    /// Create a file. Only the execute bits of the mode count.
    pub fn create(
        &mut self,
        parent: InodeId,
        name: &[u8],
        mode: u32,
    ) -> (r: Result<FileAttr, Errno>)
        requires
            old(self).inner().in_order(),
        ensures
            final(self).inner().in_order(),
            match name_text(name@) {
                Err(e) => final(self).state() == old(self).state() && r == Err::<FileAttr, Errno>(e),
                Ok(text) => {
                    let (s, made) = F::create_step(
                        old(self).state(),
                        parent,
                        text,
                        executable_mode(mode),
                    );
                    final(self).state() == s && r == reply(
                        made,
                        |x: (InodeId, Attr)| fuse_attr(x.1),
                    )
                },
            },
    {
        let text = match name_to_str(name) {
            Ok(text) => text,
            Err(e) => {
                return Err(e);
            },
        };
        match self.inner.create_file(parent, text.as_str(), mode_executable(mode)) {
            Ok((_, a)) => Ok(to_file_attr(a)),
            Err(e) => Err(fs_err_to_errno(e)),
        }
    }

    /// Create a file; device numbers do not count.
    pub fn mknod(&mut self, parent: InodeId, name: &[u8], mode: u32) -> (r: Result<FileAttr, Errno>)
        requires
            old(self).inner().in_order(),
        ensures
            final(self).inner().in_order(),
            match name_text(name@) {
                Err(e) => final(self).state() == old(self).state() && r == Err::<FileAttr, Errno>(e),
                Ok(text) => {
                    let (s, made) = F::create_step(
                        old(self).state(),
                        parent,
                        text,
                        executable_mode(mode),
                    );
                    final(self).state() == s && r == reply(
                        made,
                        |x: (InodeId, Attr)| fuse_attr(x.1),
                    )
                },
            },
    {
        self.create(parent, name, mode)
    }

    /// The scratch directory that has to exist before a redirected directory is
    /// made.
    pub fn redirect_target(&mut self, parent: InodeId, name: &[u8]) -> (r: Option<String>)
        requires
            old(self).inner().in_order(),
        ensures
            final(self).inner().in_order(),
            match name_text(name@) {
                Err(_) => final(self).state() == old(self).state() && r is None,
                Ok(text) => (final(self).state(), crate::text::text_in(r)) == F::redirect_step(
                    old(self).state(),
                    parent,
                    text,
                ),
            },
    {
        match name_to_str(name) {
            Ok(text) => self.inner.redirect_target(parent, text.as_str()),
            Err(_) => None,
        }
    }

    /// Create a directory.
    pub fn mkdir(
        &mut self,
        parent: InodeId,
        name: &[u8],
        scratch_fault: Option<String>,
    ) -> (r: Result<
        FileAttr,
        Errno,
    >)
        requires
            old(self).inner().in_order(),
        ensures
            final(self).inner().in_order(),
            match name_text(name@) {
                Err(e) => final(self).state() == old(self).state() && r == Err::<FileAttr, Errno>(e),
                Ok(text) => {
                    let (s, made) = F::mkdir_step(
                        old(self).state(),
                        parent,
                        text,
                        crate::text::text_in(scratch_fault),
                    );
                    final(self).state() == s && r == reply(
                        made,
                        |x: (InodeId, Attr)| fuse_attr(x.1),
                    )
                },
            },
    {
        let text = match name_to_str(name) {
            Ok(text) => text,
            Err(e) => {
                return Err(e);
            },
        };
        match self.inner.mkdir(parent, text.as_str(), scratch_fault) {
            Ok((_, a)) => Ok(to_file_attr(a)),
            Err(e) => Err(fs_err_to_errno(e)),
        }
    }

    /// Create a symlink.
    pub fn symlink(
        &mut self,
        parent: InodeId,
        name: &[u8],
        link: &[u8],
    ) -> (r: Result<FileAttr, Errno>)
        requires
            old(self).inner().in_order(),
        ensures
            final(self).inner().in_order(),
            match (name_text(name@), name_text(link@)) {
                (Err(e), _) => final(self).state() == old(self).state() && r == Err::<
                    FileAttr,
                    Errno,
                >(e),
                (Ok(_), Err(e)) => final(self).state() == old(self).state() && r == Err::<
                    FileAttr,
                    Errno,
                >(e),
                (Ok(text), Ok(target)) => {
                    let (s, made) = F::symlink_step(old(self).state(), parent, text, target);
                    final(self).state() == s && r == reply(
                        made,
                        |x: (InodeId, Attr)| fuse_attr(x.1),
                    )
                },
            },
    {
        let text = match name_to_str(name) {
            Ok(text) => text,
            Err(e) => {
                return Err(e);
            },
        };
        let target = match name_to_str(link) {
            Ok(target) => target,
            Err(e) => {
                return Err(e);
            },
        };
        match self.inner.symlink(parent, text.as_str(), target.as_str()) {
            Ok((_, a)) => Ok(to_file_attr(a)),
            Err(e) => Err(fs_err_to_errno(e)),
        }
    }

    /// Remove a file.
    pub fn unlink(&mut self, parent: InodeId, name: &[u8]) -> (r: Result<(), Errno>)
        requires
            old(self).inner().in_order(),
        ensures
            final(self).inner().in_order(),
            match name_text(name@) {
                Err(e) => final(self).state() == old(self).state() && r == Err::<(), Errno>(e),
                Ok(text) => {
                    let (s, gone) = F::remove_step(old(self).state(), parent, text);
                    final(self).state() == s && r == reply(gone, |x: ()| x)
                },
            },
    {
        let text = match name_to_str(name) {
            Ok(text) => text,
            Err(e) => {
                return Err(e);
            },
        };
        match self.inner.remove(parent, text.as_str()) {
            Ok(()) => Ok(()),
            Err(e) => Err(fs_err_to_errno(e)),
        }
    }

    /// Remove a directory.
    pub fn rmdir(&mut self, parent: InodeId, name: &[u8]) -> (r: Result<(), Errno>)
        requires
            old(self).inner().in_order(),
        ensures
            final(self).inner().in_order(),
            match name_text(name@) {
                Err(e) => final(self).state() == old(self).state() && r == Err::<(), Errno>(e),
                Ok(text) => {
                    let (s, gone) = F::remove_step(old(self).state(), parent, text);
                    final(self).state() == s && r == reply(gone, |x: ()| x)
                },
            },
    {
        self.unlink(parent, name)
    }

    /// Write into a file.
    pub fn write(&mut self, inode: InodeId, offset: u64, data: &[u8]) -> (r: Result<u32, Errno>)
        requires
            old(self).inner().in_order(),
            offset + data@.len() <= usize::MAX,
        ensures
            final(self).inner().in_order(),
            (final(self).state(), r) == ({
                let (s, n) = F::write_step(old(self).state(), inode, offset, data@);
                (s, reply(n, |x: u32| x))
            }),
    {
        match self.inner.write(inode, offset, data) {
            Ok(n) => Ok(n),
            Err(e) => Err(fs_err_to_errno(e)),
        }
    }

    /// Change the length or the mode of a file. Only the execute bits of the
    /// mode count.
    pub fn setattr(&mut self, inode: InodeId, size: Option<u64>, mode: Option<u32>) -> (r: Result<
        FileAttr,
        Errno,
    >)
        requires
            old(self).inner().in_order(),
            size matches Some(len) ==> len <= usize::MAX,
        ensures
            final(self).inner().in_order(),
            (final(self).state(), r) == ({
                let executable = match mode {
                    Some(m) => Some(executable_mode(m)),
                    None => None,
                };
                let (s, attr) = F::setattr_step(old(self).state(), inode, size, executable);
                (s, reply(attr, |a: Attr| fuse_attr(a)))
            }),
    {
        let executable = match mode {
            Some(m) => Some(mode_executable(m)),
            None => None,
        };
        match self.inner.setattr(inode, size, executable) {
            Ok(a) => Ok(to_file_attr(a)),
            Err(e) => Err(fs_err_to_errno(e)),
        }
    }
}

} // verus!
