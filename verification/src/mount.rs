//! What the daemon keeps of one mount.
use vstd::prelude::*;
use crate::op_blobs::{bookmark_values, Bookmark, BookmarkValue};
use crate::store::{Rows, Store};
use crate::text::{copy_bytes, join_path, joined, text_in};
use crate::vfs::kiki_fs::{JjKikiFs, KikiFs, KikiFsView};

verus! {

/// Where the state of mounts is kept.
#[derive(Clone, Debug)]
pub enum StorageConfig {
    /// In a directory per mount below `<root>/mounts`.
    OnDisk { root: String },
    /// Nowhere; it is gone with the daemon.
    InMemory,
}

impl StorageConfig {
    /// The directory of a mount, by the name that its path hashes to.
    pub open spec fn mount_dir(self, key: Seq<char>) -> Option<Seq<char>> {
        match self {
            StorageConfig::OnDisk { root } => Some(joined(joined(root@, "mounts"@), key)),
            StorageConfig::InMemory => None,
        }
    }

    /// A file or directory in the directory of a mount.
    pub open spec fn place(self, key: Seq<char>, name: Seq<char>) -> Option<Seq<char>> {
        match self.mount_dir(key) {
            Some(dir) => Some(joined(dir, name)),
            None => None,
        }
    }

    /// Keep the state of mounts below a directory.
    pub fn on_disk(root: String) -> (s: StorageConfig)
        ensures
            s == (StorageConfig::OnDisk { root }),
    {
        StorageConfig::OnDisk { root }
    }

    fn place_for(&self, key: &str, name: &str) -> (r: Option<String>)
        ensures
            text_in(r) == self.place(key@, name@),
    {
        match self {
            StorageConfig::OnDisk { root } => {
                let mounts = join_path(root.as_str(), "mounts");
                let dir = join_path(mounts.as_str(), key);
                Some(join_path(dir.as_str(), name))
            },
            StorageConfig::InMemory => None,
        }
    }

    /// Where the database of a mount is.
    pub fn redb_path_for(&self, key: &str) -> (r: Option<String>)
        ensures
            text_in(r) == self.place(key@, "store.redb"@),
    {
        self.place_for(key, "store.redb")
    }

    /// Where the content store of a mount is.
    pub fn git_store_path_for(&self, key: &str) -> (r: Option<String>)
        ensures
            text_in(r) == self.place(key@, "git_store"@),
    {
        self.place_for(key, "git_store")
    }

    /// Where the metadata of a mount is saved.
    pub fn meta_path_for(&self, key: &str) -> (r: Option<String>)
        ensures
            text_in(r) == self.place(key@, "mount.toml"@),
    {
        self.place_for(key, "mount.toml")
    }

    /// Where redirected directories of a mount go.
    pub fn scratch_dir_for(&self, key: &str) -> (r: Option<String>)
        ensures
            text_in(r) == self.place(key@, "scratch"@),
    {
        self.place_for(key, "scratch")
    }
}

/// The part of a mount that outlives the daemon.
#[derive(Clone, Debug)]
pub struct MountMetadata {
    pub working_copy_path: String,
    pub remote: String,
    pub op_id: Vec<u8>,
    pub workspace_id: Vec<u8>,
    pub root_tree_id: Vec<u8>,
}

/// The value of a [`MountMetadata`].
pub struct MetadataView {
    pub working_copy_path: Seq<char>,
    pub remote: Seq<char>,
    pub op_id: Seq<u8>,
    pub workspace_id: Seq<u8>,
    pub root_tree_id: Seq<u8>,
}

impl View for MountMetadata {
    type V = MetadataView;

    open spec fn view(&self) -> MetadataView {
        MetadataView {
            working_copy_path: self.working_copy_path@,
            remote: self.remote@,
            op_id: self.op_id@,
            workspace_id: self.workspace_id@,
            root_tree_id: self.root_tree_id@,
        }
    }
}

/// One mount.
#[derive(Debug)]
pub struct Mount {
    /// The remote as it was given.
    pub remote: String,
    /// Whether there is a remote to talk to.
    pub connected: bool,
    /// The operation that was last checked out; empty until one is set.
    pub op_id: Vec<u8>,
    /// The workspace; empty until it is set.
    pub workspace_id: Vec<u8>,
    /// The root tree that is checked out.
    pub root_tree_id: Vec<u8>,
    /// The filesystem with its content store.
    pub fs: KikiFs,
    /// The operation log and the refs.
    pub ops: Store,
    /// Where the metadata is saved.
    pub meta_path: Option<String>,
    /// The head that was last exported to git; empty until one was.
    pub last_exported_head: Vec<u8>,
    /// The bookmarks that were last exported to git.
    pub last_exported_bookmarks: Option<Vec<Bookmark>>,
}

/// The value of a [`Mount`].
pub struct MountView {
    pub remote: Seq<char>,
    pub connected: bool,
    pub op_id: Seq<u8>,
    pub workspace_id: Seq<u8>,
    pub root_tree_id: Seq<u8>,
    pub fs: KikiFsView,
    pub rows: Rows,
    pub meta_path: Option<Seq<char>>,
    pub last_exported_head: Seq<u8>,
    pub last_exported_bookmarks: Option<Seq<BookmarkValue>>,
}

/// The values of bookmarks that may have been exported.
pub open spec fn exported_in(list: Option<Vec<Bookmark>>) -> Option<Seq<BookmarkValue>> {
    match list {
        Some(l) => Some(bookmark_values(l@)),
        None => None,
    }
}

impl View for Mount {
    type V = MountView;

    open spec fn view(&self) -> MountView {
        MountView {
            remote: self.remote@,
            connected: self.connected,
            op_id: self.op_id@,
            workspace_id: self.workspace_id@,
            root_tree_id: self.root_tree_id@,
            fs: self.fs.state(),
            rows: self.ops@,
            meta_path: text_in(self.meta_path),
            last_exported_head: self.last_exported_head@,
            last_exported_bookmarks: exported_in(self.last_exported_bookmarks),
        }
    }
}

impl MountView {
    /// The part that outlives the daemon.
    pub open spec fn metadata(self, path: Seq<char>) -> MetadataView {
        MetadataView {
            working_copy_path: path,
            remote: self.remote,
            op_id: self.op_id,
            workspace_id: self.workspace_id,
            root_tree_id: self.root_tree_id,
        }
    }

    /// The mount with another checkout state.
    pub open spec fn with_checkout(self, op_id: Seq<u8>, workspace_id: Seq<u8>) -> MountView {
        MountView { op_id, workspace_id, ..self }
    }

    /// The mount with another root tree.
    pub open spec fn with_root(self, root_tree_id: Seq<u8>) -> MountView {
        MountView { root_tree_id, ..self }
    }

    /// The mount with another filesystem state.
    pub open spec fn with_fs(self, fs: KikiFsView) -> MountView {
        MountView { fs, ..self }
    }
}

impl Mount {
    /// The part that outlives the daemon.
    pub fn metadata(&self, path: &str) -> (m: MountMetadata)
        ensures
            m@ == self@.metadata(path@),
    {
        MountMetadata {
            working_copy_path: path.to_owned(),
            remote: self.remote.as_str().to_owned(),
            op_id: copy_bytes(self.op_id.as_slice()),
            workspace_id: copy_bytes(self.workspace_id.as_slice()),
            root_tree_id: copy_bytes(self.root_tree_id.as_slice()),
        }
    }
}

} // verus!
