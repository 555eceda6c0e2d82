//! A filesystem as NFS sees it.
//!
//! Names arrive as bytes, errors leave as NFS status codes, and a directory
//! listing is handed out in pages, each of which continues behind an inode.
use vstd::prelude::*;
use vstd::utf8::{decode_utf8, encode_utf8, valid_utf8};
use crate::git_store::utf8_string;
use crate::text::{copy_bytes, text_in};
use crate::vfs::fuse_adapter::{executable_mode, mode_executable, perm_of};
use crate::vfs::inode::{InodeId, ROOT_INODE};
use crate::vfs::kiki_fs::JjKikiFs;
use crate::vfs::types::{listing_view, Attr, DirEntry, DirEntryView, ErrView, FileKind, FsError};

verus! {

broadcast use vstd::string::group_string_axioms;

/// The NFS status codes that are reported.
#[derive(Debug, Clone, Copy, PartialEq, Eq, Structural)]
pub enum NfsStatus {
    NoEnt,
    NotDir,
    IsDir,
    Inval,
    Exist,
    NotEmpty,
    Acces,
    XDev,
    Io,
}

/// The status code of an error.
pub open spec fn status(e: ErrView) -> NfsStatus {
    match e {
        ErrView::NotFound => NfsStatus::NoEnt,
        ErrView::NotADirectory => NfsStatus::NotDir,
        ErrView::NotAFile => NfsStatus::IsDir,
        ErrView::NotASymlink => NfsStatus::Inval,
        ErrView::AlreadyExists => NfsStatus::Exist,
        ErrView::NotEmpty => NfsStatus::NotEmpty,
        ErrView::PermissionDenied => NfsStatus::Acces,
        ErrView::CrossDevice => NfsStatus::XDev,
        ErrView::StoreMiss => NfsStatus::Io,
        ErrView::StoreError(_) => NfsStatus::Io,
    }
}

/// The status code of an error.
pub fn fs_err_to_nfs(e: FsError) -> (r: NfsStatus)
    ensures
        r == status(e@),
{
    match e {
        FsError::NotFound => NfsStatus::NoEnt,
        FsError::NotADirectory => NfsStatus::NotDir,
        FsError::NotAFile => NfsStatus::IsDir,
        FsError::NotASymlink => NfsStatus::Inval,
        FsError::AlreadyExists => NfsStatus::Exist,
        FsError::NotEmpty => NfsStatus::NotEmpty,
        FsError::PermissionDenied => NfsStatus::Acces,
        FsError::CrossDevice => NfsStatus::XDev,
        FsError::StoreMiss => NfsStatus::Io,
        FsError::StoreError(_) => NfsStatus::Io,
    }
}

/// The text of a name; one that is not UTF-8 is invalid.
pub open spec fn nfs_text(name: Seq<u8>) -> Result<Seq<char>, NfsStatus> {
    if valid_utf8(name) {
        Ok(decode_utf8(name))
    } else {
        Err(NfsStatus::Inval)
    }
}

/// The text of a name.
pub fn name_to_string(name: &[u8]) -> (r: Result<String, NfsStatus>)
    ensures
        (match r {
            Ok(text) => Ok(text@),
            Err(e) => Err(e),
        }) == nfs_text(name@),
{
    match utf8_string(name) {
        Some(text) => Ok(text),
        None => Err(NfsStatus::Inval),
    }
}

/// Attributes as NFS takes them.
#[derive(Debug, Clone, Copy, PartialEq, Eq, Structural)]
pub struct NfsAttr {
    pub kind: FileKind,
    pub mode: u32,
    pub nlink: u32,
    pub uid: u32,
    pub gid: u32,
    pub size: u64,
    pub used: u64,
    pub fileid: u64,
}

/// The user and group that every file belongs to.
#[derive(Debug, Clone, Copy, PartialEq, Eq, Structural)]
pub struct Owner {
    pub uid: u32,
    pub gid: u32,
}

/// Attributes as NFS takes them.
pub open spec fn nfs_attr(owner: Owner, a: Attr) -> NfsAttr {
    NfsAttr {
        kind: a.kind,
        mode: perm_of(a) as u32,
        nlink: 1,
        uid: owner.uid,
        gid: owner.gid,
        size: a.size,
        used: a.size,
        fileid: a.inode,
    }
}

/// Attributes as NFS takes them.
pub fn to_fattr3(owner: Owner, a: Attr) -> (r: NfsAttr)
    ensures
        r == nfs_attr(owner, a),
{
    let mode: u32 = match a.kind {
        FileKind::Directory => 0o755,
        FileKind::Symlink => 0o777,
        FileKind::Regular => if a.executable {
            0o755
        } else {
            0o644
        },
    };
    NfsAttr {
        kind: a.kind,
        mode,
        nlink: 1,
        uid: owner.uid,
        gid: owner.gid,
        size: a.size,
        used: a.size,
        fileid: a.inode,
    }
}

/// The position of the first entry with this inode.
pub open spec fn inode_at(entries: Seq<DirEntryView>, ino: InodeId) -> Option<int>
    decreases entries.len(),
{
    if entries.len() == 0 {
        None
    } else {
        match inode_at(entries.drop_last(), ino) {
            Some(i) => Some(i),
            None => if entries.last().inode == ino {
                Some(entries.len() - 1)
            } else {
                None
            },
        }
    }
}

/// Where a page begins: at the start for the inode 0, else behind the given
/// inode. An inode that is not in the listing leaves nothing.
pub open spec fn page_start(entries: Seq<DirEntryView>, start_after: InodeId) -> int {
    if start_after == 0 {
        0
    } else {
        match inode_at(entries, start_after) {
            Some(i) => i + 1,
            None => entries.len() as int,
        }
    }
}

/// Where a page ends.
pub open spec fn page_end(entries: Seq<DirEntryView>, start: int, max_entries: int) -> int {
    if start + max_entries < entries.len() {
        start + max_entries
    } else {
        entries.len() as int
    }
}

pub proof fn lemma_inode_at(entries: Seq<DirEntryView>, ino: InodeId)
    ensures
        match inode_at(entries, ino) {
            Some(i) => 0 <= i < entries.len() && entries[i].inode == ino,
            None => forall|i: int| 0 <= i < entries.len() ==> (#[trigger] entries[i]).inode != ino,
        },
    decreases entries.len(),
{
    if entries.len() > 0 {
        lemma_inode_at(entries.drop_last(), ino);
        assert forall|i: int| 0 <= i < entries.len() - 1 implies entries.drop_last()[i]
            == #[trigger] entries[i] by {}
    }
}

proof fn lemma_inode_prefix(entries: Seq<DirEntryView>, n: int, ino: InodeId)
    requires
        0 <= n <= entries.len(),
        inode_at(entries.take(n), ino) is Some,
    ensures
        inode_at(entries, ino) == inode_at(entries.take(n), ino),
    decreases entries.len(),
{
    if n < entries.len() {
        assert(entries.drop_last().take(n) =~= entries.take(n));
        lemma_inode_prefix(entries.drop_last(), n, ino);
    } else {
        assert(entries.take(n) =~= entries);
    }
}

/// Find where a page begins.
pub fn start_of_page(entries: &Vec<DirEntry>, start_after: InodeId) -> (start: usize)
    ensures
        start == page_start(listing_view(entries@), start_after),
        start <= entries@.len(),
{
    if start_after == 0 {
        return 0;
    }
    let ghost all = listing_view(entries@);
    let mut i: usize = 0;
    while i < entries.len()
        invariant
            i <= entries@.len(),
            all == listing_view(entries@),
            start_after != 0,
            inode_at(all.take(i as int), start_after) is None,
        decreases entries@.len() - i,
    {
        proof {
            assert(all.take(i + 1).drop_last() =~= all.take(i as int));
            assert(all.take(i + 1).last() == entries@[i as int]@);
        }
        if entries[i].inode == start_after {
            proof {
                lemma_inode_prefix(all, i + 1, start_after);
            }
            return i + 1;
        }
        i = i + 1;
    }
    assert(all.take(i as int) =~= all);
    entries.len()
}

/// Pages put together give the listing: each page begins where the one before it
/// ended, as long as no inode is listed twice.
pub proof fn pages_follow_each_other(entries: Seq<DirEntryView>, start: int, max_entries: int)
    requires
        0 <= start < entries.len(),
        max_entries > 0,
        forall|i: int| 0 <= i < entries.len() ==> (#[trigger] entries[i]).inode != 0,
        forall|i: int, j: int|
            0 <= i < j < entries.len() ==> (#[trigger] entries[i]).inode != (
            #[trigger] entries[j]).inode,
    ensures
        ({
            let end = page_end(entries, start, max_entries);
            start < end <= entries.len() && page_start(entries, entries[end - 1].inode) == end
        }),
{
    let end = page_end(entries, start, max_entries);
    let ino = entries[end - 1].inode;
    lemma_inode_at(entries, ino);
    let i = inode_at(entries, ino)->0;
    if i < end - 1 {
        assert(entries[i].inode != entries[end - 1].inode);
    }
    if i > end - 1 {
        assert(entries[end - 1].inode != entries[i].inode);
    }
}

/// An entry of a page.
#[derive(Debug, Clone)]
pub struct NfsDirEntry {
    pub fileid: u64,
    pub name: Vec<u8>,
    pub attr: NfsAttr,
}

/// The value of an [`NfsDirEntry`].
pub struct NfsEntryView {
    pub fileid: u64,
    pub name: Seq<u8>,
    pub attr: NfsAttr,
}

impl View for NfsDirEntry {
    type V = NfsEntryView;

    open spec fn view(&self) -> NfsEntryView {
        NfsEntryView { fileid: self.fileid, name: self.name@, attr: self.attr }
    }
}

/// A page of a listing, and whether it is the last one.
#[derive(Debug)]
pub struct ReadDirResult {
    pub entries: Vec<NfsDirEntry>,
    pub end: bool,
}

/// What asking for the attributes of each entry in turn does and gives.
pub open spec fn page_attrs<F: JjKikiFs>(s: F::State, owner: Owner, entries: Seq<DirEntryView>) -> (
    F::State,
    Result<Seq<NfsEntryView>, ErrView>,
)
    decreases entries.len(),
{
    if entries.len() == 0 {
        (s, Ok(seq![]))
    } else {
        let (s1, r) = page_attrs::<F>(s, owner, entries.drop_last());
        let e = entries.last();
        match r {
            Err(err) => (s1, Err(err)),
            Ok(before) => {
                let (s2, attr) = F::getattr_step(s1, e.inode);
                match attr {
                    Err(err) => (s2, Err(err)),
                    Ok(a) => (
                        s2,
                        Ok(
                            before.push(
                                NfsEntryView {
                                    fileid: e.inode,
                                    name: encode_utf8(e.name),
                                    attr: nfs_attr(owner, a),
                                },
                            ),
                        ),
                    ),
                }
            },
        }
    }
}

/// A failed page fails with everything behind it.
proof fn lemma_page_error<F: JjKikiFs>(
    s: F::State,
    owner: Owner,
    entries: Seq<DirEntryView>,
    n: int,
)
    requires
        0 <= n <= entries.len(),
        page_attrs::<F>(s, owner, entries.take(n)).1 is Err,
    ensures
        page_attrs::<F>(s, owner, entries) == page_attrs::<F>(s, owner, entries.take(n)),
    decreases entries.len(),
{
    if n < entries.len() {
        assert(entries.drop_last().take(n) =~= entries.take(n));
        lemma_page_error::<F>(s, owner, entries.drop_last(), n);
    } else {
        assert(entries.take(n) =~= entries);
    }
}

/// The NFS side of a filesystem.
#[derive(Debug)]
pub struct NfsAdapter<F: JjKikiFs> {
    inner: F,
    owner: Owner,
}

/// A result with its error as NFS reports it.
pub open spec fn nfs_reply<T, U>(r: Result<T, ErrView>, f: spec_fn(T) -> U) -> Result<
    U,
    NfsStatus,
> {
    match r {
        Ok(x) => Ok(f(x)),
        Err(e) => Err(status(e)),
    }
}

/// What writing and then asking for the attributes does and gives.
pub open spec fn written_attr<F: JjKikiFs>(
    s: F::State,
    ino: InodeId,
    offset: u64,
    data: Seq<u8>,
) -> (F::State, Result<Attr, ErrView>) {
    let (s1, r) = F::write_step(s, ino, offset, data);
    match r {
        Err(e) => (s1, Err(e)),
        Ok(_) => F::getattr_step(s1, ino),
    }
}

/// What creating a file, with a size where one is given, does and gives.
pub open spec fn created_sized<F: JjKikiFs>(
    s: F::State,
    dir: InodeId,
    name: Seq<char>,
    executable: bool,
    size: Option<u64>,
) -> (F::State, Result<(InodeId, Attr), ErrView>) {
    let (s1, r) = F::create_step(s, dir, name, executable);
    match (r, size) {
        (Ok((id, _)), Some(len)) => {
            let (s2, attr) = F::setattr_step(s1, id, Some(len), None);
            (
                s2,
                match attr {
                    Ok(a) => Ok((id, a)),
                    Err(e) => Err(e),
                },
            )
        },
        _ => (s1, r),
    }
}

impl<F: JjKikiFs> NfsAdapter<F> {
    /// The filesystem behind the adapter.
    pub closed spec fn inner(&self) -> F {
        self.inner
    }

    /// The owner that every file shows.
    pub closed spec fn owner(&self) -> Owner {
        self.owner
    }

    /// The state of the filesystem behind the adapter.
    pub open spec fn state(&self) -> F::State {
        self.inner().state()
    }

    /// Serve a filesystem.
    pub fn new(inner: F, owner: Owner) -> (a: NfsAdapter<F>)
        ensures
            a.inner() == inner,
            a.owner() == owner,
    {
        NfsAdapter { inner, owner }
    }

    /// The filesystem, to be used directly.
    pub fn into_inner(self) -> (fs: F)
        ensures
            fs == self.inner(),
    {
        self.inner
    }

    /// The inode of the root directory.
    pub fn root_dir(&self) -> (r: InodeId)
        ensures
            r == ROOT_INODE,
    {
        self.inner.root()
    }

    /// Find an entry.
    pub fn lookup(&mut self, dirid: InodeId, name: &[u8]) -> (r: Result<InodeId, NfsStatus>)
        requires
            old(self).inner().in_order(),
        ensures
            final(self).inner().in_order(),
            final(self).owner() == old(self).owner(),
            match nfs_text(name@) {
                Err(e) => final(self).state() == old(self).state() && r == Err::<InodeId, NfsStatus>(
                    e,
                ),
                Ok(text) => {
                    let (s, x) = F::lookup_step(old(self).state(), dirid, text);
                    final(self).state() == s && r == nfs_reply(x, |i: InodeId| i)
                },
            },
    {
        let text = match name_to_string(name) {
            Ok(text) => text,
            Err(e) => {
                return Err(e);
            },
        };
        match self.inner.lookup(dirid, text.as_str()) {
            Ok(ino) => Ok(ino),
            Err(e) => Err(fs_err_to_nfs(e)),
        }
    }

    /// The attributes of an inode.
    pub fn getattr(&mut self, id: InodeId) -> (r: Result<NfsAttr, NfsStatus>)
        requires
            old(self).inner().in_order(),
        ensures
            final(self).inner().in_order(),
            final(self).owner() == old(self).owner(),
            ({
                let (s, x) = F::getattr_step(old(self).state(), id);
                final(self).state() == s && r == nfs_reply(
                    x,
                    |a: Attr| nfs_attr(old(self).owner(), a),
                )
            }),
    {
        match self.inner.getattr(id) {
            Ok(a) => Ok(to_fattr3(self.owner, a)),
            Err(e) => Err(fs_err_to_nfs(e)),
        }
    }

    /// Read from a file; the flag says whether the read reached its end.
    pub fn read(&mut self, id: InodeId, offset: u64, count: u32) -> (r: Result<
        (Vec<u8>, bool),
        NfsStatus,
    >)
        requires
            old(self).inner().in_order(),
        ensures
            final(self).inner().in_order(),
            final(self).owner() == old(self).owner(),
            ({
                let (s, x) = F::read_step(old(self).state(), id, offset, count);
                &&& final(self).state() == s
                &&& match x {
                    Ok((bytes, end)) => r matches Ok((data, eof)) && data@ == bytes && eof == end,
                    Err(e) => r matches Err(n) && n == status(e),
                }
            }),
    {
        match self.inner.read(id, offset, count) {
            Ok(x) => Ok(x),
            Err(e) => Err(fs_err_to_nfs(e)),
        }
    }

    /// Hand out a page of a listing: at most `max_entries` entries behind the
    /// inode `start_after`.
    pub fn readdir(
        &mut self,
        dirid: InodeId,
        start_after: InodeId,
        max_entries: usize,
    ) -> (r: Result<
        ReadDirResult,
        NfsStatus,
    >)
        requires
            old(self).inner().in_order(),
        ensures
            final(self).inner().in_order(),
            final(self).owner() == old(self).owner(),
            ({
                let (s, list) = F::readdir_step(old(self).state(), dirid);
                match list {
                    Err(e) => {
                        &&& final(self).state() == s
                        &&& r matches Err(n) && n == status(e)
                    },
                    Ok(all) => {
                        let start = page_start(all, start_after);
                        let end = page_end(all, start, max_entries as int);
                        let (s2, page) = page_attrs::<F>(
                            s,
                            old(self).owner(),
                            all.subrange(start, end),
                        );
                        &&& final(self).state() == s2
                        &&& match page {
                            Err(e) => r matches Err(n) && n == status(e),
                            Ok(shown) => r matches Ok(out) && out.entries@.map_values(
                                |e: NfsDirEntry| e@,
                            ) == shown && out.end == (end == all.len()),
                        }
                    },
                }
            }),
    {
        let entries = match self.inner.readdir(dirid) {
            Ok(entries) => entries,
            Err(e) => {
                return Err(fs_err_to_nfs(e));
            },
        };
        let ghost all = listing_view(entries@);
        let ghost s = self.state();
        let ghost owner = self.owner;
        let start: usize = start_of_page(&entries, start_after);
        let left: usize = entries.len() - start;
        let end: usize = if max_entries < left {
            start + max_entries
        } else {
            entries.len()
        };
        let ghost page = all.subrange(start as int, end as int);
        let mut out: Vec<NfsDirEntry> = Vec::new();
        assert(out@.map_values(|e: NfsDirEntry| e@) =~= seq![]);
        assert(page.take(0) =~= seq![]);
        let mut i: usize = start;
        while i < end
            invariant
                start <= i <= end <= entries@.len(),
                all == listing_view(entries@),
                page == all.subrange(start as int, end as int),
                self.inner.in_order(),
                self.owner == owner,
                owner == old(self).owner,
                page_attrs::<F>(s, owner, page.take(i - start)) == (
                    self.inner.state(),
                    Ok::<Seq<NfsEntryView>, ErrView>(out@.map_values(|e: NfsDirEntry| e@)),
                ),
                F::readdir_step(old(self).state(), dirid) == (
                    s,
                    Ok::<Seq<DirEntryView>, ErrView>(all),
                ),
                start == page_start(all, start_after),
                end == page_end(all, start as int, max_entries as int),
            decreases end - i,
        {
            let e = &entries[i];
            proof {
                assert(all[i as int] == e@);
                assert(page.take(i - start + 1).drop_last() =~= page.take(i - start));
                assert(page.take(i - start + 1).last() == e@);
            }
            match self.inner.getattr(e.inode) {
                Ok(a) => {
                    let ghost before = out@.map_values(|e: NfsDirEntry| e@);
                    let entry = NfsDirEntry {
                        fileid: e.inode,
                        name: copy_bytes(e.name.as_str().as_bytes()),
                        attr: to_fattr3(self.owner, a),
                    };
                    let ghost value = entry@;
                    out.push(entry);
                    assert(out@.map_values(|e: NfsDirEntry| e@) =~= before.push(value));
                },
                Err(err) => {
                    proof {
                        lemma_page_error::<F>(s, owner, page, i - start + 1);
                    }
                    return Err(fs_err_to_nfs(err));
                },
            }
            i = i + 1;
        }
        assert(page.take(end - start) =~= page);
        Ok(ReadDirResult { entries: out, end: end == entries.len() })
    }

    /// Read a symlink.
    pub fn readlink(&mut self, id: InodeId) -> (r: Result<Vec<u8>, NfsStatus>)
        requires
            old(self).inner().in_order(),
        ensures
            final(self).inner().in_order(),
            final(self).owner() == old(self).owner(),
            ({
                let (s, x) = F::readlink_step(old(self).state(), id);
                &&& final(self).state() == s
                &&& match x {
                    Ok(text) => r matches Ok(data) && data@ == encode_utf8(text),
                    Err(e) => r matches Err(n) && n == status(e),
                }
            }),
    {
        match self.inner.readlink(id) {
            Ok(target) => Ok(copy_bytes(target.as_str().as_bytes())),
            Err(e) => Err(fs_err_to_nfs(e)),
        }
    }

    /// Write into a file and give its attributes.
    pub fn write(
        &mut self,
        id: InodeId,
        offset: u64,
        data: &[u8],
    ) -> (r: Result<NfsAttr, NfsStatus>)
        requires
            old(self).inner().in_order(),
            offset + data@.len() <= usize::MAX,
        ensures
            final(self).inner().in_order(),
            final(self).owner() == old(self).owner(),
            ({
                let (s, x) = written_attr::<F>(old(self).state(), id, offset, data@);
                final(self).state() == s && r == nfs_reply(
                    x,
                    |a: Attr| nfs_attr(old(self).owner(), a),
                )
            }),
    {
        match self.inner.write(id, offset, data) {
            Ok(_) => {},
            Err(e) => {
                return Err(fs_err_to_nfs(e));
            },
        }
        match self.inner.getattr(id) {
            Ok(a) => Ok(to_fattr3(self.owner, a)),
            Err(e) => Err(fs_err_to_nfs(e)),
        }
    }

    /// Create a file, executable if a mode says so and of the given size.
    pub fn create(
        &mut self,
        dirid: InodeId,
        name: &[u8],
        mode: Option<u32>,
        size: Option<u64>,
    ) -> (r: Result<(InodeId, NfsAttr), NfsStatus>)
        requires
            old(self).inner().in_order(),
            size matches Some(len) ==> len <= usize::MAX,
        ensures
            final(self).inner().in_order(),
            final(self).owner() == old(self).owner(),
            match nfs_text(name@) {
                Err(e) => final(self).state() == old(self).state() && r == Err::<(InodeId, NfsAttr), NfsStatus>(
                    e,
                ),
                Ok(text) => {
                    let (s, x) = created_sized::<F>(
                        old(self).state(),
                        dirid,
                        text,
                        mode matches Some(m) && executable_mode(m),
                        size,
                    );
                    final(self).state() == s && r == nfs_reply(
                        x,
                        |x: (InodeId, Attr)| (x.0, nfs_attr(old(self).owner(), x.1)),
                    )
                },
            },
    {
        let text = match name_to_string(name) {
            Ok(text) => text,
            Err(e) => {
                return Err(e);
            },
        };
        let executable: bool = match mode {
            Some(m) => mode_executable(m),
            None => false,
        };
        let (id, a) = match self.inner.create_file(dirid, text.as_str(), executable) {
            Ok(x) => x,
            Err(e) => {
                return Err(fs_err_to_nfs(e));
            },
        };
        match size {
            None => Ok((id, to_fattr3(self.owner, a))),
            Some(len) => match self.inner.setattr(id, Some(len), None) {
                Ok(a) => Ok((id, to_fattr3(self.owner, a))),
                Err(e) => Err(fs_err_to_nfs(e)),
            },
        }
    }

    /// Create a file that must not exist.
    pub fn create_exclusive(
        &mut self,
        dirid: InodeId,
        name: &[u8],
    ) -> (r: Result<InodeId, NfsStatus>)
        requires
            old(self).inner().in_order(),
        ensures
            final(self).inner().in_order(),
            final(self).owner() == old(self).owner(),
            match nfs_text(name@) {
                Err(e) => final(self).state() == old(self).state() && r == Err::<InodeId, NfsStatus>(
                    e,
                ),
                Ok(text) => {
                    let (s, x) = F::create_step(old(self).state(), dirid, text, false);
                    final(self).state() == s && r == nfs_reply(x, |x: (InodeId, Attr)| x.0)
                },
            },
    {
        let text = match name_to_string(name) {
            Ok(text) => text,
            Err(e) => {
                return Err(e);
            },
        };
        match self.inner.create_file(dirid, text.as_str(), false) {
            Ok((id, _)) => Ok(id),
            Err(e) => Err(fs_err_to_nfs(e)),
        }
    }

    /// Change the length or the mode of a file.
    pub fn setattr(&mut self, id: InodeId, size: Option<u64>, mode: Option<u32>) -> (r: Result<
        NfsAttr,
        NfsStatus,
    >)
        requires
            old(self).inner().in_order(),
            size matches Some(len) ==> len <= usize::MAX,
        ensures
            final(self).inner().in_order(),
            final(self).owner() == old(self).owner(),
            ({
                let executable = match mode {
                    Some(m) => Some(executable_mode(m)),
                    None => None,
                };
                let (s, x) = F::setattr_step(old(self).state(), id, size, executable);
                final(self).state() == s && r == nfs_reply(
                    x,
                    |a: Attr| nfs_attr(old(self).owner(), a),
                )
            }),
    {
        let executable = match mode {
            Some(m) => Some(mode_executable(m)),
            None => None,
        };
        match self.inner.setattr(id, size, executable) {
            Ok(a) => Ok(to_fattr3(self.owner, a)),
            Err(e) => Err(fs_err_to_nfs(e)),
        }
    }

    /// Remove an entry.
    pub fn remove(&mut self, dirid: InodeId, name: &[u8]) -> (r: Result<(), NfsStatus>)
        requires
            old(self).inner().in_order(),
        ensures
            final(self).inner().in_order(),
            final(self).owner() == old(self).owner(),
            match nfs_text(name@) {
                Err(e) => final(self).state() == old(self).state() && r == Err::<(), NfsStatus>(
                    e,
                ),
                Ok(text) => {
                    let (s, x) = F::remove_step(old(self).state(), dirid, text);
                    final(self).state() == s && r == nfs_reply(x, |x: ()| x)
                },
            },
    {
        let text = match name_to_string(name) {
            Ok(text) => text,
            Err(e) => {
                return Err(e);
            },
        };
        match self.inner.remove(dirid, text.as_str()) {
            Ok(()) => Ok(()),
            Err(e) => Err(fs_err_to_nfs(e)),
        }
    }

    /// Move an entry.
    pub fn rename(
        &mut self,
        from_dirid: InodeId,
        name: &[u8],
        to_dirid: InodeId,
        to_name: &[u8],
    ) -> (r:
        Result<(), NfsStatus>)
        requires
            old(self).inner().in_order(),
        ensures
            final(self).inner().in_order(),
            final(self).owner() == old(self).owner(),
            match (nfs_text(name@), nfs_text(to_name@)) {
                (Ok(from), Ok(to)) => {
                    let (s, x) = F::rename_step(old(self).state(), from_dirid, from, to_dirid, to);
                    final(self).state() == s && r == nfs_reply(x, |x: ()| x)
                },
                _ => final(self).state() == old(self).state() && r == Err::<(), NfsStatus>(
                    NfsStatus::Inval,
                ),
            },
    {
        let text = match name_to_string(name) {
            Ok(text) => text,
            Err(e) => {
                return Err(e);
            },
        };
        let to = match name_to_string(to_name) {
            Ok(to) => to,
            Err(e) => {
                return Err(e);
            },
        };
        match self.inner.rename(from_dirid, text.as_str(), to_dirid, to.as_str()) {
            Ok(()) => Ok(()),
            Err(e) => Err(fs_err_to_nfs(e)),
        }
    }

    /// The scratch directory that has to exist before a redirected directory is
    /// made.
    pub fn redirect_target(&mut self, dirid: InodeId, name: &[u8]) -> (r: Option<String>)
        requires
            old(self).inner().in_order(),
        ensures
            final(self).inner().in_order(),
            final(self).owner() == old(self).owner(),
            match nfs_text(name@) {
                Err(_) => final(self).state() == old(self).state() && r is None,
                Ok(text) => (final(self).state(), text_in(r)) == F::redirect_step(old(self).state(), dirid, text),
            },
    {
        match name_to_string(name) {
            Ok(text) => self.inner.redirect_target(dirid, text.as_str()),
            Err(_) => None,
        }
    }

    /// Create a directory.
    pub fn mkdir(
        &mut self,
        dirid: InodeId,
        name: &[u8],
        scratch_fault: Option<String>,
    ) -> (r: Result<
        (InodeId, NfsAttr),
        NfsStatus,
    >)
        requires
            old(self).inner().in_order(),
        ensures
            final(self).inner().in_order(),
            final(self).owner() == old(self).owner(),
            match nfs_text(name@) {
                Err(e) => final(self).state() == old(self).state() && r == Err::<(InodeId, NfsAttr), NfsStatus>(
                    e,
                ),
                Ok(text) => {
                    let (s, x) = F::mkdir_step(old(self).state(), dirid, text, text_in(scratch_fault));
                    final(self).state() == s && r == nfs_reply(
                        x,
                        |x: (InodeId, Attr)| (x.0, nfs_attr(old(self).owner(), x.1)),
                    )
                },
            },
    {
        let text = match name_to_string(name) {
            Ok(text) => text,
            Err(e) => {
                return Err(e);
            },
        };
        match self.inner.mkdir(dirid, text.as_str(), scratch_fault) {
            Ok((id, a)) => Ok((id, to_fattr3(self.owner, a))),
            Err(e) => Err(fs_err_to_nfs(e)),
        }
    }

    /// Create a symlink.
    pub fn symlink(&mut self, dirid: InodeId, name: &[u8], target: &[u8]) -> (r: Result<
        (InodeId, NfsAttr),
        NfsStatus,
    >)
        requires
            old(self).inner().in_order(),
        ensures
            final(self).inner().in_order(),
            final(self).owner() == old(self).owner(),
            match (nfs_text(name@), nfs_text(target@)) {
                (Ok(text), Ok(to)) => {
                    let (s, x) = F::symlink_step(old(self).state(), dirid, text, to);
                    final(self).state() == s && r == nfs_reply(
                        x,
                        |x: (InodeId, Attr)| (x.0, nfs_attr(old(self).owner(), x.1)),
                    )
                },
                _ => final(self).state() == old(self).state() && r == Err::<
                    (InodeId, NfsAttr),
                    NfsStatus,
                >(NfsStatus::Inval),
            },
    {
        let text = match name_to_string(name) {
            Ok(text) => text,
            Err(e) => {
                return Err(e);
            },
        };
        let to = match name_to_string(target) {
            Ok(to) => to,
            Err(e) => {
                return Err(e);
            },
        };
        match self.inner.symlink(dirid, text.as_str(), to.as_str()) {
            Ok((id, a)) => Ok((id, to_fattr3(self.owner, a))),
            Err(e) => Err(fs_err_to_nfs(e)),
        }
    }
}

} // verus!
