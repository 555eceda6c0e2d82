//! What errors say.
use vstd::prelude::*;
use crate::git_store::StoreFault;
use crate::mountpoint::MountpointError;
use crate::remote::{quoted_text, RefNameError, RemoteUrlError};
use crate::service::setup::{already_mounted, remote_text, tunnel_text, unmount_text};
use crate::service::working_copy::snapshot_refusal;
use crate::status::{in_context, no_mount, refusal, Code};
use crate::text::decimal;
use crate::ty::IdLengthError;
use crate::vfs::types::ErrView;
use crate::vfs_mgr::BindError;

verus! {

/// A refusal has the code and the words that it was made with; where a context is
/// given, it stands in front of the cause.
pub proof fn refusals_say_what_they_were_made_with(
    code: Code,
    text: Seq<char>,
    cause: Seq<char>,
    path: Seq<char>,
)
    ensures
        refusal(code, text).code == code,
        refusal(code, text).message == text,
        in_context(code, text, cause).code == code,
        in_context(code, text, cause).message == text + ": "@ + cause,
        no_mount(path).code == Code::NotFound,
        no_mount(path).message == "no mount at "@ + path,
{
}

/// What is said of a mount that cannot be taken up again, or whose snapshot fails: the
/// remote or the path, and the cause.
pub proof fn lost_mounts_are_named(remote: Seq<char>, path: Seq<char>, cause: Seq<char>, e: ErrView)
    ensures
        remote_text(remote, cause) == "parsing remote URL "@ + quoted_text(remote) + ": "@ + cause,
        tunnel_text(remote, cause) == "re-establishing SSH tunnel for "@ + quoted_text(remote) + ": "@
            + cause,
        unmount_text(path, cause) == "force-unmounting stale mount at "@ + path
            + " — try `umount -f "@ + path + "` manually: "@ + cause,
        already_mounted(path).code == Code::AlreadyExists,
        already_mounted(path).message == "mount already initialized at "@ + path,
        snapshot_refusal(path, e).code == Code::Internal,
        snapshot_refusal(path, e).message == "snapshot failed for "@ + path + ": "@ + e.message(),
{
}

/// What errors of the filesystem say.
pub proof fn filesystem_errors_have_their_words(cause: Seq<char>)
    ensures
        ErrView::NotFound.message() == "inode or directory entry not found"@,
        ErrView::NotADirectory.message() == "not a directory"@,
        ErrView::NotAFile.message() == "not a regular file"@,
        ErrView::NotASymlink.message() == "not a symlink"@,
        ErrView::AlreadyExists.message() == "entry already exists"@,
        ErrView::NotEmpty.message() == "directory not empty"@,
        ErrView::PermissionDenied.message() == "permission denied"@,
        ErrView::CrossDevice.message() == "cross-device operation"@,
        ErrView::StoreMiss.message() == "missing entry in content store"@,
        ErrView::StoreError(cause).message() == "store error: "@ + cause,
{
}

/// What faults of the content store say.
pub proof fn store_faults_have_their_words()
    ensures
        StoreFault::NotABlob.message() == "object is not a blob"@,
        StoreFault::NotATree.message() == "object is not a tree"@,
        StoreFault::NotACommit.message() == "object is not a commit"@,
        StoreFault::MalformedTree.message() == "malformed tree object"@,
        StoreFault::TargetNotUtf8.message() == "symlink target is not UTF-8"@,
        StoreFault::ZeroInName.message()
            == "Nullbytes are invalid in file paths as they are separators"@,
        StoreFault::HashRefused.message() == "object hash refused"@,
        StoreFault::IdMismatch.message() == "object bytes do not match their id"@,
{
}

/// What is said of paths that cannot be mounted on, of names, of remotes, of ports and
/// of ids: each names what is wrong.
pub proof fn errors_name_what_is_wrong(
    path: String,
    cause: String,
    name: String,
    rest: String,
    low: u16,
    high: u16,
    actual: usize,
)
    ensures
        MountpointError::Missing(path).message() == "path does not exist: "@ + path@,
        MountpointError::NotADirectory(path).message() == "path is not a directory: "@ + path@,
        MountpointError::NotEmpty(path).message() == "directory is not empty: "@ + path@,
        MountpointError::AlreadyMounted(path).message() == "path is already a mountpoint: "@ + path@,
        MountpointError::Io(path, cause).message() == "failed to inspect "@ + path@ + ": "@ + cause@,
        RefNameError::Empty.message() == "ref name must not be empty"@,
        RefNameError::Nul(name).message() == "ref name "@ + quoted_text(name@) + " contains NUL"@,
        RefNameError::Slash(name).message() == "ref name "@ + quoted_text(name@)
            + " contains '/' (refs are flat)"@,
        RefNameError::Reserved(name).message() == "ref name "@ + quoted_text(name@)
            + " is a reserved path component"@,
        RemoteUrlError::NoScheme(rest).message() == "remote "@ + quoted_text(rest@)
            + " has no scheme; expected dir://…, s3://…, kiki+ssh://…, or kiki://…"@,
        RemoteUrlError::Relative(rest).message()
            == "dir:// remote must use absolute path (got dir://"@ + rest@ + ")"@,
        RemoteUrlError::OtherScheme(rest).message()
            == "store::parse_dir only handles dir://; got scheme "@ + quoted_text(rest@),
        BindError::ManagerGone.message() == "VFS manager has shut down"@,
        BindError::FuseMount(cause).message() == "FUSE mount failed: "@ + cause@,
        BindError::UnsupportedPlatform.message() == "no VFS transport available on this platform"@,
        (BindError::NfsBind { min: low, max: high, last_error: cause }).message()
            == "NFS bind exhausted port range "@ + decimal(low as nat) + "..="@ + decimal(
            high as nat,
        ) + ": "@ + cause@,
        (IdLengthError { actual }).message() == "expected 20-byte id, got "@ + decimal(actual as nat)
            + " bytes"@,
{
}

} // verus!
