//! Whether a directory can be mounted on.
use vstd::prelude::*;
use crate::paths::{parent_of, parent_path, plain_dir, plain_name, under};
use crate::status::{refusal, Code, Status};
use crate::text::{concat2, text_in};

verus! {

/// Why a path cannot be mounted on. Each error names the path.
#[derive(Clone, Debug)]
pub enum MountpointError {
    Missing(String),
    NotADirectory(String),
    NotEmpty(String),
    AlreadyMounted(String),
    Io(String, String),
}

impl MountpointError {
    /// What the error says.
    pub open spec fn message(self) -> Seq<char> {
        match self {
            MountpointError::Missing(path) => "path does not exist: "@ + path@,
            MountpointError::NotADirectory(path) => "path is not a directory: "@ + path@,
            MountpointError::NotEmpty(path) => "directory is not empty: "@ + path@,
            MountpointError::AlreadyMounted(path) => "path is already a mountpoint: "@ + path@,
            MountpointError::Io(path, cause) => "failed to inspect "@ + path@ + ": "@ + cause@,
        }
    }

    /// The message of the error.
    pub fn to_string(&self) -> (s: String)
        ensures
            s@ == self.message(),
    {
        match self {
            MountpointError::Missing(path) => concat2("path does not exist: ", path.as_str()),
            MountpointError::NotADirectory(path) => concat2(
                "path is not a directory: ",
                path.as_str(),
            ),
            MountpointError::NotEmpty(path) => concat2("directory is not empty: ", path.as_str()),
            MountpointError::AlreadyMounted(path) => concat2(
                "path is already a mountpoint: ",
                path.as_str(),
            ),
            MountpointError::Io(path, cause) => {
                let mut s = concat2("failed to inspect ", path.as_str());
                s.append(": ");
                s.append(cause.as_str());
                s
            },
        }
    }
}

/// What is at a path.
#[derive(Clone, Debug)]
pub enum PathKind {
    Missing,
    /// It could not be found out.
    Failed(String),
    Directory,
    Other,
}

/// What was found at a path that is to be mounted on.
#[derive(Debug)]
pub struct Inspection {
    pub kind: PathKind,
    /// Whether the directory has an entry.
    pub occupied: Result<bool, String>,
    /// Whether the path is a mountpoint.
    pub mounted: Result<bool, String>,
}

/// A path can be mounted on: it is an empty directory on which nothing is
/// mounted.
pub open spec fn can_mount_on(found: Inspection) -> bool {
    found.kind is Directory && found.occupied == Ok::<bool, String>(false) && found.mounted == Ok::<
        bool,
        String,
    >(false)
}

/// The error is the first one that the findings give.
pub open spec fn explains(path: Seq<char>, found: Inspection, e: MountpointError) -> bool {
    match found.kind {
        PathKind::Missing => e matches MountpointError::Missing(p) && p@ == path,
        PathKind::Failed(cause) => e matches MountpointError::Io(p, c) && p@ == path && c@ == cause@,
        PathKind::Other => e matches MountpointError::NotADirectory(p) && p@ == path,
        PathKind::Directory => match found.occupied {
            Err(cause) => e matches MountpointError::Io(p, c) && p@ == path && c@ == cause@,
            Ok(true) => e matches MountpointError::NotEmpty(p) && p@ == path,
            Ok(false) => match found.mounted {
                Err(cause) => e matches MountpointError::Io(p, c) && p@ == path && c@ == cause@,
                Ok(true) => e matches MountpointError::AlreadyMounted(p) && p@ == path,
                Ok(false) => false,
            },
        },
    }
}

/// What is said of a path that cannot be mounted on.
pub open spec fn mountpoint_message(path: Seq<char>, found: Inspection) -> Seq<char> {
    match found.kind {
        PathKind::Missing => "path does not exist: "@ + path,
        PathKind::Failed(cause) => "failed to inspect "@ + path + ": "@ + cause@,
        PathKind::Other => "path is not a directory: "@ + path,
        PathKind::Directory => match found.occupied {
            Err(cause) => "failed to inspect "@ + path + ": "@ + cause@,
            Ok(true) => "directory is not empty: "@ + path,
            Ok(false) => match found.mounted {
                Err(cause) => "failed to inspect "@ + path + ": "@ + cause@,
                _ => "path is already a mountpoint: "@ + path,
            },
        },
    }
}

/// Refuse a path on which a mount would lose data or hide another mount.
pub fn validate_mountpoint(path: &str, found: &Inspection) -> (r: Result<(), MountpointError>)
    ensures
        match r {
            Ok(_) => can_mount_on(*found),
            Err(e) => {
                &&& !can_mount_on(*found)
                &&& explains(path@, *found, e)
                &&& e.message() == mountpoint_message(path@, *found)
            },
        },
{
    match &found.kind {
        PathKind::Missing => {
            return Err(MountpointError::Missing(path.to_owned()));
        },
        PathKind::Failed(cause) => {
            return Err(MountpointError::Io(path.to_owned(), cause.as_str().to_owned()));
        },
        PathKind::Other => {
            return Err(MountpointError::NotADirectory(path.to_owned()));
        },
        PathKind::Directory => {},
    }
    match &found.occupied {
        Err(cause) => {
            return Err(MountpointError::Io(path.to_owned(), cause.as_str().to_owned()));
        },
        Ok(occupied) => {
            if *occupied {
                return Err(MountpointError::NotEmpty(path.to_owned()));
            }
        },
    }
    match &found.mounted {
        Err(cause) => Err(MountpointError::Io(path.to_owned(), cause.as_str().to_owned())),
        Ok(mounted) => if *mounted {
            Err(MountpointError::AlreadyMounted(path.to_owned()))
        } else {
            Ok(())
        },
    }
}

/// How a path that cannot be mounted on is answered.
pub fn mountpoint_status(e: MountpointError) -> (s: Status)
    ensures
        s@ == refusal(Code::FailedPrecondition, e.message()),
{
    Status::new(Code::FailedPrecondition, e.to_string())
}

/// The directory that holds a path, if it has a name.
pub open spec fn holder(path: Seq<char>) -> Option<Seq<char>> {
    match parent_path(path) {
        Some(dir) => if dir.len() > 0 {
            Some(dir)
        } else {
            None
        },
        None => None,
    }
}

/// The directory whose device tells whether a path is a mountpoint. Without one
/// the path is taken for a mountpoint.
pub fn mountpoint_parent(path: &str) -> (r: Option<String>)
    ensures
        text_in(r) == holder(path@),
        forall|dir: Seq<char>, name: Seq<char>|
            plain_dir(dir) && plain_name(name) && path@ == #[trigger] under(dir, name) ==> text_in(
                r,
            ) == Some(dir),
        plain_name(path@) ==> r is None,
{
    match parent_of(path) {
        Some(dir) => if dir.as_str().unicode_len() > 0 {
            Some(dir)
        } else {
            None
        },
        None => None,
    }
}

/// Whether a path is a mountpoint: it lies on another device than the directory
/// that holds it. `parent` is the device of that directory, if there is one.
pub fn is_mountpoint(
    device: Result<u64, String>,
    parent: Option<Result<u64, String>>,
) -> (r: Result<
    bool,
    String,
>)
    ensures
        match (device, parent) {
            (Err(e), _) => r == Err::<bool, String>(e),
            (Ok(_), None) => r == Ok::<bool, String>(true),
            (Ok(_), Some(Err(e))) => r == Err::<bool, String>(e),
            (Ok(d), Some(Ok(p))) => r == Ok::<bool, String>(d != p),
        },
{
    let own: u64 = match device {
        Ok(d) => d,
        Err(e) => {
            return Err(e);
        },
    };
    match parent {
        None => Ok(true),
        Some(Err(e)) => Err(e),
        Some(Ok(p)) => Ok(own != p),
    }
}

} // verus!
