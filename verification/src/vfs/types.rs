//! What a filesystem request takes and gives.
use vstd::prelude::*;
use crate::git_store::StoreFault;
use crate::remote::{FetchError, FetchView};
use crate::vfs::inode::InodeId;

verus! {

/// Kind of filesystem object.
#[derive(Debug, Clone, Copy, PartialEq, Eq, Structural)]
pub enum FileKind {
    Regular,
    Directory,
    Symlink,
}

/// Attributes of an inode.
#[derive(Debug, Clone, Copy, PartialEq, Eq, Structural)]
pub struct Attr {
    pub inode: InodeId,
    pub kind: FileKind,
    /// Content length of a file, byte length of a symlink's target, or 0 for a
    /// directory.
    pub size: u64,
    /// Only meaningful for a regular file.
    pub executable: bool,
    /// Modification time in seconds since the Unix epoch; 0 means unknown.
    pub mtime_secs: i64,
}

/// One entry of a directory listing.
#[derive(Debug, Clone)]
pub struct DirEntry {
    pub inode: InodeId,
    pub name: String,
    pub kind: FileKind,
}

/// The value of a [`DirEntry`].
pub struct DirEntryView {
    pub inode: InodeId,
    pub name: Seq<char>,
    pub kind: FileKind,
}

impl View for DirEntry {
    type V = DirEntryView;

    open spec fn view(&self) -> DirEntryView {
        DirEntryView { inode: self.inode, name: self.name@, kind: self.kind }
    }
}

/// The values of a listing.
pub open spec fn listing_view(entries: Seq<DirEntry>) -> Seq<DirEntryView> {
    entries.map_values(|e: DirEntry| e@)
}

/// Filesystem-level error.
#[derive(Debug, Clone, PartialEq, Eq)]
pub enum FsError {
    /// Inode not in the slab, or directory entry not found by name.
    NotFound,
    /// A directory operation hit a file or symlink.
    NotADirectory,
    /// A file operation hit a directory or symlink.
    NotAFile,
    /// `readlink` on something else than a symlink.
    NotASymlink,
    /// A new entry collided with an existing one.
    AlreadyExists,
    /// The directory still has children.
    NotEmpty,
    /// Operation not permitted on this target.
    PermissionDenied,
    /// Rename across workspace boundaries.
    CrossDevice,
    /// An id that an inode points at is missing from the store.
    StoreMiss,
    /// The store failed, with its description.
    StoreError(String),
}

/// The value of an [`FsError`].
pub enum ErrView {
    NotFound,
    NotADirectory,
    NotAFile,
    NotASymlink,
    AlreadyExists,
    NotEmpty,
    PermissionDenied,
    CrossDevice,
    StoreMiss,
    StoreError(Seq<char>),
}

impl View for FsError {
    type V = ErrView;

    open spec fn view(&self) -> ErrView {
        match self {
            FsError::NotFound => ErrView::NotFound,
            FsError::NotADirectory => ErrView::NotADirectory,
            FsError::NotAFile => ErrView::NotAFile,
            FsError::NotASymlink => ErrView::NotASymlink,
            FsError::AlreadyExists => ErrView::AlreadyExists,
            FsError::NotEmpty => ErrView::NotEmpty,
            FsError::PermissionDenied => ErrView::PermissionDenied,
            FsError::CrossDevice => ErrView::CrossDevice,
            FsError::StoreMiss => ErrView::StoreMiss,
            FsError::StoreError(msg) => ErrView::StoreError(msg@),
        }
    }
}

impl ErrView {
    /// What the error says.
    pub open spec fn message(self) -> Seq<char> {
        match self {
            ErrView::NotFound => "inode or directory entry not found"@,
            ErrView::NotADirectory => "not a directory"@,
            ErrView::NotAFile => "not a regular file"@,
            ErrView::NotASymlink => "not a symlink"@,
            ErrView::AlreadyExists => "entry already exists"@,
            ErrView::NotEmpty => "directory not empty"@,
            ErrView::PermissionDenied => "permission denied"@,
            ErrView::CrossDevice => "cross-device operation"@,
            ErrView::StoreMiss => "missing entry in content store"@,
            ErrView::StoreError(msg) => "store error: "@ + msg,
        }
    }
}

impl FsError {
    /// The message of the error.
    pub fn to_string(&self) -> (s: String)
        ensures
            s@ == self@.message(),
    {
        match self {
            FsError::NotFound => "inode or directory entry not found".to_owned(),
            FsError::NotADirectory => "not a directory".to_owned(),
            FsError::NotAFile => "not a regular file".to_owned(),
            FsError::NotASymlink => "not a symlink".to_owned(),
            FsError::AlreadyExists => "entry already exists".to_owned(),
            FsError::NotEmpty => "directory not empty".to_owned(),
            FsError::PermissionDenied => "permission denied".to_owned(),
            FsError::CrossDevice => "cross-device operation".to_owned(),
            FsError::StoreMiss => "missing entry in content store".to_owned(),
            FsError::StoreError(msg) => {
                let mut s = "store error: ".to_owned();
                s.append(msg.as_str());
                s
            },
        }
    }
}

/// The error of a failed store request.
pub open spec fn fault_view(fault: StoreFault) -> ErrView {
    ErrView::StoreError(fault.message())
}

/// Turn a failed store request into a filesystem error.
pub fn store_err(fault: StoreFault) -> (e: FsError)
    ensures
        e@ == fault_view(fault),
{
    FsError::StoreError(fault.to_string())
}

/// What a failed fetch means to a caller: an object that nobody has is a miss.
pub open spec fn fetch_failure(e: FetchView) -> ErrView {
    match e {
        FetchView::NotFound { .. } => ErrView::StoreMiss,
        FetchView::DataLoss(cause) => ErrView::StoreError(cause),
        FetchView::LocalWrite(cause) => ErrView::StoreError(cause),
        FetchView::Remote(cause) => ErrView::StoreError(cause),
    }
}

/// What a failed fetch means to a caller.
pub fn fetch_err(e: FetchError) -> (r: FsError)
    ensures
        r@ == fetch_failure(e@),
{
    match e {
        FetchError::NotFound { .. } => FsError::StoreMiss,
        FetchError::DataLoss(cause) => FsError::StoreError(cause),
        FetchError::LocalWrite(cause) => FsError::StoreError(cause),
        FetchError::Remote(cause) => FsError::StoreError(cause),
    }
}

/// The value of a request's result.
pub open spec fn outcome<T>(r: Result<T, FsError>) -> Result<T, ErrView> {
    match r {
        Ok(t) => Ok(t),
        Err(e) => Err(e@),
    }
}

/// The value of a read's result.
pub open spec fn read_outcome(r: Result<(Vec<u8>, bool), FsError>) -> Result<
    (Seq<u8>, bool),
    ErrView,
> {
    match r {
        Ok((data, eof)) => Ok((data@, eof)),
        Err(e) => Err(e@),
    }
}

/// The value of a listing's result.
pub open spec fn listing_outcome(r: Result<Vec<DirEntry>, FsError>) -> Result<
    Seq<DirEntryView>,
    ErrView,
> {
    match r {
        Ok(out) => Ok(listing_view(out@)),
        Err(e) => Err(e@),
    }
}

/// The value of a result that is text.
pub open spec fn text_outcome(r: Result<String, FsError>) -> Result<Seq<char>, ErrView> {
    match r {
        Ok(text) => Ok(text@),
        Err(e) => Err(e@),
    }
}

} // verus!
