//! How mounts come to be: by a request, or from what an earlier daemon left.
//!
//! Both go through the same outside work: opening the stores, reading the URL of
//! the remote and connecting to it, looking at the mountpoint and attaching the
//! filesystem. Each event tells what came of one of these, and the answer says what
//! is next.
use vstd::prelude::*;
use crate::git_store::{GitContentStore, EMPTY_TREE};
use crate::mount::{MetadataView, Mount, MountMetadata, MountView};
use crate::mountpoint::{
    can_mount_on, mountpoint_message, mountpoint_status, validate_mountpoint, Inspection,
};
use crate::remote::{
    located, parse_dir, quoted, quoted_text, RemoteLocation, RemoteUrlError,
};
use crate::service::{save_in, JujutsuService, SaveRequest, ServiceView};
use crate::status::{in_context, refusal, status_in, Code, Status, StatusView};
use crate::store::Store;
use crate::text::{concat2, concat3, copy_bytes, decimal, text_in};
use crate::ty::{Id, ID_LEN};
use crate::vfs::kiki_fs::{JjKikiFs, KikiFs, KikiFsView, KikiView};
use crate::vfs_mgr::{transport_reply, transport_to_proto, BindError, TransportInfo, TransportReply};

verus! {

/// What the reader of `ssh://` URLs says of a remote.
#[derive(Debug)]
pub enum SshUrl {
    /// It is reached over SSH.
    Ssh,
    /// It is not.
    Other,
    /// It cannot be read.
    Malformed(String),
}

/// What came of the outside work.
#[derive(Debug)]
pub enum SetupEvent {
    /// Nothing was done yet.
    Begun,
    /// The stores were opened, or could not be.
    Opened { fault: Option<String> },
    /// The remote was read as an `ssh://` URL.
    Read(SshUrl),
    /// The remote was connected to, or its URL could not be used.
    Connected { fault: Option<String> },
    /// The remote was reached through a tunnel, or could not be.
    Tunneled { fault: Option<String> },
    /// Whether something is mounted already.
    Probed { mounted: bool },
    /// What was mounted was unmounted, or could not be.
    Unmounted { fault: Option<String> },
    /// What is at the mountpoint.
    Inspected(Inspection),
    /// The filesystem was attached.
    Attached(TransportInfo),
    /// The filesystem could not be attached.
    NotAttached(BindError),
}

/// What is to be done next.
#[derive(Debug)]
pub enum SetupAction {
    OpenStores,
    /// Read the remote as an `ssh://` URL.
    ReadUrl(String),
    Connect(RemoteLocation),
    /// Connect to what the URL names. Its scheme is one that is not handled here.
    ConnectTo(String),
    /// Reach the remote through a tunnel, whose socket goes into the directory.
    Tunnel(String),
    Probe,
    Unmount,
    Inspect,
    Attach,
    /// Everything is there, and the mount can be registered.
    Register(Option<TransportInfo>),
}

/// The refusal of a second mount at a path.
pub open spec fn already_mounted(path: Seq<char>) -> StatusView {
    refusal(Code::AlreadyExists, "mount already initialized at "@ + path)
}

fn already_mounted_status(path: &str) -> (s: Status)
    ensures
        s@ == already_mounted(path@),
{
    Status::new(Code::AlreadyExists, concat2("mount already initialized at ", path))
}

/// An answer is as a step of a new mount demands.
pub open spec fn initialize_answer(
    v: ServiceView,
    path: Seq<char>,
    remote: Seq<char>,
    event: SetupEvent,
    r: Result<SetupAction, Status>,
) -> bool {
    match event {
        SetupEvent::Begun => if v.mounts.contains_key(path) {
            r matches Err(s) && s@ == already_mounted(path)
        } else {
            r matches Ok(a) && a == SetupAction::OpenStores
        },
        SetupEvent::Opened { fault: Some(cause) } => r matches Err(s) && s@ == in_context(
            Code::Internal,
            "opening store for "@ + path,
            cause@,
        ),
        SetupEvent::Opened { fault: None } => r matches Ok(SetupAction::ReadUrl(url)) && url@
            == remote,
        SetupEvent::Read(SshUrl::Malformed(cause)) => r matches Err(s) && s@ == in_context(
            Code::InvalidArgument,
            "remote"@,
            cause@,
        ),
        SetupEvent::Read(SshUrl::Ssh) => match v.tunnels_dir {
            Some(dir) => r matches Ok(SetupAction::Tunnel(d)) && d@ == dir,
            None => r matches Err(s) && s@ == refusal(
                Code::Internal,
                "SSH tunnels not available in test mode"@,
            ),
        },
        SetupEvent::Read(SshUrl::Other) => exists|place: Result<RemoteLocation, RemoteUrlError>|
         #[trigger]
            located(remote, place) && match place {
                Ok(location) => r matches Ok(a) && a == SetupAction::Connect(location),
                Err(RemoteUrlError::OtherScheme(_)) => r matches Ok(SetupAction::ConnectTo(url))
                    && url@ == remote,
                Err(e) => r matches Err(s) && s@ == in_context(
                    Code::InvalidArgument,
                    "remote"@,
                    e.message(),
                ),
            },
        SetupEvent::Connected { fault: Some(cause) } => r matches Err(s) && s@ == in_context(
            Code::InvalidArgument,
            "remote"@,
            cause@,
        ),
        SetupEvent::Tunneled { fault: Some(cause) } => r matches Err(s) && s@ == in_context(
            Code::Internal,
            "SSH tunnel"@,
            cause@,
        ),
        SetupEvent::Connected { fault: None } | SetupEvent::Tunneled { fault: None } => r matches Ok(
            a,
        ) && a == (if v.attaches {
            SetupAction::Inspect
        } else {
            SetupAction::Register(None)
        }),
        SetupEvent::Probed { .. } => r matches Ok(a) && a == SetupAction::Inspect,
        SetupEvent::Unmounted { .. } => r matches Ok(a) && a == SetupAction::Inspect,
        SetupEvent::Inspected(found) => if can_mount_on(found) {
            r matches Ok(a) && a == SetupAction::Attach
        } else {
            r matches Err(s) && s@ == refusal(
                Code::FailedPrecondition,
                mountpoint_message(path, found),
            )
        },
        SetupEvent::Attached(info) => r matches Ok(a) && a == SetupAction::Register(Some(info)),
        SetupEvent::NotAttached(e) => r matches Err(s) && s@ == in_context(
            Code::Internal,
            "VFS bind failed"@,
            e.message(),
        ),
    }
}

/// The root tree of a mount that was left behind: the empty tree until another
/// one was checked out.
pub open spec fn kept_root(meta: MetadataView) -> Option<Id> {
    if meta.root_tree_id.len() == 0 {
        Some(Id(EMPTY_TREE))
    } else if meta.root_tree_id.len() == ID_LEN {
        Some(crate::git_store::id_of(meta.root_tree_id))
    } else {
        None
    }
}

/// What is said of a remote that cannot be used any more.
pub open spec fn remote_text(remote: Seq<char>, cause: Seq<char>) -> Seq<char> {
    "parsing remote URL "@ + quoted_text(remote) + ": "@ + cause
}

/// What is said of a remote that cannot be reached through a tunnel any more.
pub open spec fn tunnel_text(remote: Seq<char>, cause: Seq<char>) -> Seq<char> {
    "re-establishing SSH tunnel for "@ + quoted_text(remote) + ": "@ + cause
}

/// What is said of a stale mount that cannot be unmounted.
pub open spec fn unmount_text(path: Seq<char>, cause: Seq<char>) -> Seq<char> {
    "force-unmounting stale mount at "@ + path + " — try `umount -f "@ + path + "` manually: "@
        + cause
}

/// An answer is as a step of a mount that was left behind demands.
pub open spec fn rehydrate_answer(
    v: ServiceView,
    meta: MetadataView,
    event: SetupEvent,
    r: Result<SetupAction, String>,
) -> bool {
    match event {
        SetupEvent::Begun => r matches Ok(a) && a == SetupAction::OpenStores,
        SetupEvent::Opened { fault: Some(cause) } => r matches Err(text) && text@ == cause@,
        SetupEvent::Opened { fault: None } => if kept_root(meta) is None {
            r matches Err(text) && text@ == "decoding stored root_tree_id: expected 20-byte id, got "@
                + decimal(meta.root_tree_id.len()) + " bytes"@
        } else {
            r matches Ok(SetupAction::ReadUrl(url)) && url@ == meta.remote
        },
        SetupEvent::Read(SshUrl::Malformed(cause)) => r matches Err(text) && text@ == remote_text(
            meta.remote,
            cause@,
        ),
        SetupEvent::Read(url) => if url is Ssh && v.tunnels_dir is Some {
            r matches Ok(SetupAction::Tunnel(d)) && Some(d@) == v.tunnels_dir
        } else {
            exists|place: Result<RemoteLocation, RemoteUrlError>| #[trigger]
                located(meta.remote, place) && match place {
                    Ok(location) => r matches Ok(a) && a == SetupAction::Connect(location),
                    Err(RemoteUrlError::OtherScheme(_)) => r matches Ok(SetupAction::ConnectTo(url))
                        && url@ == meta.remote,
                    Err(e) => r matches Err(text) && text@ == remote_text(meta.remote, e.message()),
                }
        },
        SetupEvent::Connected { fault: Some(cause) } => r matches Err(text) && text@
            == remote_text(meta.remote, cause@),
        SetupEvent::Tunneled { fault: Some(cause) } => r matches Err(text) && text@ == tunnel_text(
            meta.remote,
            cause@,
        ),
        SetupEvent::Connected { fault: None } | SetupEvent::Tunneled { fault: None } => r matches Ok(
            a,
        ) && a == (if v.attaches {
            SetupAction::Probe
        } else {
            SetupAction::Register(None)
        }),
        SetupEvent::Probed { mounted } => r matches Ok(a) && a == (if mounted {
            SetupAction::Unmount
        } else {
            SetupAction::Inspect
        }),
        SetupEvent::Unmounted { fault: Some(cause) } => r matches Err(text) && text@
            == unmount_text(meta.working_copy_path, cause@),
        SetupEvent::Unmounted { fault: None } => r matches Ok(a) && a == SetupAction::Inspect,
        SetupEvent::Inspected(found) => if can_mount_on(found) {
            r matches Ok(a) && a == SetupAction::Attach
        } else {
            r matches Err(text) && text@ == "mountpoint no longer valid for rehydrate: "@
                + mountpoint_message(meta.working_copy_path, found)
        },
        SetupEvent::Attached(info) => r matches Ok(a) && a == SetupAction::Register(Some(info)),
        SetupEvent::NotAttached(e) => r matches Err(text) && text@ == "vfs bind failed: "@
            + e.message(),
    }
}

/// A mount as it begins: its filesystem shows the root tree.
pub open spec fn begun(
    v: ServiceView,
    key: Seq<char>,
    meta: MetadataView,
    root: Id,
    connected: bool,
    store: GitContentStore,
    ops: Store,
) -> MountView {
    MountView {
        remote: meta.remote,
        connected,
        op_id: meta.op_id,
        workspace_id: meta.workspace_id,
        root_tree_id: root@,
        fs: KikiFsView {
            tree: KikiView::fresh(
                store@,
                root,
                store.path(),
                v.storage.place(key, "scratch"@),
                0,
            ),
            objects: store@,
            git_path: store.path(),
        },
        rows: ops@,
        meta_path: v.storage.place(key, "mount.toml"@),
        last_exported_head: seq![],
        last_exported_bookmarks: None,
    }
}

/// What is known of a new mount.
pub open spec fn new_metadata(path: Seq<char>, remote: Seq<char>) -> MetadataView {
    MetadataView {
        working_copy_path: path,
        remote,
        op_id: seq![],
        workspace_id: seq![],
        root_tree_id: Id(EMPTY_TREE)@,
    }
}

/// What registering a new mount does and gives. It is registered only once it is
/// saved.
pub open spec fn registered(
    v: ServiceView,
    path: Seq<char>,
    mount: MountView,
    transport: Option<TransportInfo>,
    fault: Option<Seq<char>>,
) -> (ServiceView, Result<Option<TransportReply>, StatusView>) {
    if v.mounts.contains_key(path) {
        (v, Err(already_mounted(path)))
    } else {
        match (mount.meta_path, fault) {
            (Some(_), Some(cause)) => (
                v,
                Err(
                    in_context(
                        Code::Internal,
                        "writing initial mount.toml for "@ + path,
                        cause,
                    ),
                ),
            ),
            _ => (
                v.with_mount(path, mount),
                Ok(
                    match transport {
                        Some(info) => Some(transport_reply(info)),
                        None => None,
                    },
                ),
            ),
        }
    }
}

fn remote_problem(remote: &str, cause: &str) -> (s: String)
    ensures
        s@ == remote_text(remote@, cause@),
{
    let mut s = concat3("parsing remote URL ", quoted(remote).as_str(), ": ");
    s.append(cause);
    s
}

impl JujutsuService {
    /// The next step of making a new mount.
    pub fn initialize(&self, path: &str, remote: &str, event: SetupEvent) -> (r: Result<
        SetupAction,
        Status,
    >)
        ensures
            initialize_answer(self@, path@, remote@, event, r),
    {
        match event {
            SetupEvent::Begun => {
                if self.mount(path).is_some() {
                    return Err(already_mounted_status(path));
                }
                Ok(SetupAction::OpenStores)
            },
            SetupEvent::Opened { fault } => match fault {
                Some(cause) => Err(
                    status_in(
                        Code::Internal,
                        concat2("opening store for ", path).as_str(),
                        cause.as_str(),
                    ),
                ),
                None => Ok(SetupAction::ReadUrl(remote.to_owned())),
            },
            SetupEvent::Read(url) => match url {
                SshUrl::Malformed(cause) => Err(
                    status_in(Code::InvalidArgument, "remote", cause.as_str()),
                ),
                SshUrl::Ssh => match self.tunnels_dir() {
                    Some(dir) => Ok(SetupAction::Tunnel(dir.to_owned())),
                    None => Err(
                        Status::with_text(
                            Code::Internal,
                            "SSH tunnels not available in test mode",
                        ),
                    ),
                },
                SshUrl::Other => {
                    let place = parse_dir(remote);
                    assert(located(remote@, place));
                    match place {
                        Ok(location) => Ok(SetupAction::Connect(location)),
                        Err(RemoteUrlError::OtherScheme(_)) => Ok(
                            SetupAction::ConnectTo(remote.to_owned()),
                        ),
                        Err(e) => Err(
                            status_in(Code::InvalidArgument, "remote", e.to_string().as_str()),
                        ),
                    }
                },
            },
            SetupEvent::Connected { fault } => match fault {
                Some(cause) => Err(status_in(Code::InvalidArgument, "remote", cause.as_str())),
                None => if self.attaches() {
                    Ok(SetupAction::Inspect)
                } else {
                    Ok(SetupAction::Register(None))
                },
            },
            SetupEvent::Tunneled { fault } => match fault {
                Some(cause) => Err(status_in(Code::Internal, "SSH tunnel", cause.as_str())),
                None => if self.attaches() {
                    Ok(SetupAction::Inspect)
                } else {
                    Ok(SetupAction::Register(None))
                },
            },
            SetupEvent::Probed { mounted: _ } => Ok(SetupAction::Inspect),
            SetupEvent::Unmounted { fault: _ } => Ok(SetupAction::Inspect),
            SetupEvent::Inspected(found) => match validate_mountpoint(path, &found) {
                Ok(()) => Ok(SetupAction::Attach),
                Err(e) => Err(mountpoint_status(e)),
            },
            SetupEvent::Attached(info) => Ok(SetupAction::Register(Some(info))),
            SetupEvent::NotAttached(e) => Err(
                status_in(Code::Internal, "VFS bind failed", e.to_string().as_str()),
            ),
        }
    }

    /// The next step of taking up a mount that was left behind.
    pub fn rehydrate_one(&self, meta: &MountMetadata, event: SetupEvent) -> (r: Result<
        SetupAction,
        String,
    >)
        ensures
            rehydrate_answer(self@, meta@, event, r),
    {
        let path = meta.working_copy_path.as_str();
        match event {
            SetupEvent::Begun => Ok(SetupAction::OpenStores),
            SetupEvent::Opened { fault } => match fault {
                Some(cause) => Err(cause),
                None => {
                    if meta.root_tree_id.len() != 0 {
                        match Id::from_bytes(meta.root_tree_id.as_slice()) {
                            Ok(_) => {},
                            Err(e) => {
                                proof {
                                    reveal_strlit("decoding stored root_tree_id: ");
                                    reveal_strlit("expected 20-byte id, got ");
                                    reveal_strlit(
                                        "decoding stored root_tree_id: expected 20-byte id, got ",
                                    );
                                    assert("decoding stored root_tree_id: "@
                                        + "expected 20-byte id, got "@
                                        =~= "decoding stored root_tree_id: expected 20-byte id, got "@);
                                    assert("decoding stored root_tree_id: "@ + e.message()
                                        =~= "decoding stored root_tree_id: expected 20-byte id, got "@
                                        + decimal(meta@.root_tree_id.len()) + " bytes"@);
                                }
                                return Err(
                                    concat2(
                                        "decoding stored root_tree_id: ",
                                        e.to_string().as_str(),
                                    ),
                                );
                            },
                        }
                    }
                    Ok(SetupAction::ReadUrl(meta.remote.as_str().to_owned()))
                },
            },
            SetupEvent::Read(url) => {
                match url {
                    SshUrl::Malformed(cause) => {
                        return Err(remote_problem(meta.remote.as_str(), cause.as_str()));
                    },
                    SshUrl::Ssh => match self.tunnels_dir() {
                        Some(dir) => {
                            return Ok(SetupAction::Tunnel(dir.to_owned()));
                        },
                        None => {},
                    },
                    SshUrl::Other => {},
                }
                let place = parse_dir(meta.remote.as_str());
                assert(located(meta@.remote, place));
                match place {
                    Ok(location) => Ok(SetupAction::Connect(location)),
                    Err(RemoteUrlError::OtherScheme(_)) => Ok(
                        SetupAction::ConnectTo(meta.remote.as_str().to_owned()),
                    ),
                    Err(e) => Err(remote_problem(meta.remote.as_str(), e.to_string().as_str())),
                }
            },
            SetupEvent::Connected { fault } => match fault {
                Some(cause) => Err(remote_problem(meta.remote.as_str(), cause.as_str())),
                None => if self.attaches() {
                    Ok(SetupAction::Probe)
                } else {
                    Ok(SetupAction::Register(None))
                },
            },
            SetupEvent::Tunneled { fault } => match fault {
                Some(cause) => {
                    let mut text = concat3(
                        "re-establishing SSH tunnel for ",
                        quoted(meta.remote.as_str()).as_str(),
                        ": ",
                    );
                    text.append(cause.as_str());
                    Err(text)
                },
                None => if self.attaches() {
                    Ok(SetupAction::Probe)
                } else {
                    Ok(SetupAction::Register(None))
                },
            },
            SetupEvent::Probed { mounted } => if mounted {
                Ok(SetupAction::Unmount)
            } else {
                Ok(SetupAction::Inspect)
            },
            SetupEvent::Unmounted { fault } => match fault {
                Some(cause) => {
                    let mut text = concat3(
                        "force-unmounting stale mount at ",
                        path,
                        " — try `umount -f ",
                    );
                    text.append(path);
                    text.append("` manually: ");
                    text.append(cause.as_str());
                    Err(text)
                },
                None => Ok(SetupAction::Inspect),
            },
            SetupEvent::Inspected(found) => match validate_mountpoint(path, &found) {
                Ok(()) => Ok(SetupAction::Attach),
                Err(e) => Err(
                    concat2("mountpoint no longer valid for rehydrate: ", e.to_string().as_str()),
                ),
            },
            SetupEvent::Attached(info) => Ok(SetupAction::Register(Some(info))),
            SetupEvent::NotAttached(e) => Err(
                concat2("vfs bind failed: ", e.to_string().as_str()),
            ),
        }
    }

    /// Make the filesystem of a mount that shows a root tree.
    pub fn filesystem_for(&self, key: &str, store: GitContentStore, root: Id) -> (fs: KikiFs)
        ensures
            fs.state() == (KikiFsView {
                tree: KikiView::fresh(
                    store@,
                    root,
                    store.path(),
                    self@.storage.place(key@, "scratch"@),
                    0,
                ),
                objects: store@,
                git_path: store.path(),
            }),
            fs.in_order(),
    {
        let scratch = self.storage().scratch_dir_for(key);
        KikiFs::new(store, root, scratch, None, 0)
    }

    /// What has to be saved before a new mount is registered. A path that was
    /// taken in the meantime is refused.
    pub fn mount_to_save(&self, path: &str, key: &str, remote: &str) -> (r: Result<
        Option<SaveRequest>,
        Status,
    >)
        ensures
            if self@.mounts.contains_key(path@) {
                r matches Err(s) && s@ == already_mounted(path@)
            } else {
                r matches Ok(request) && save_in(request) == match self@.storage.place(
                    key@,
                    "mount.toml"@,
                ) {
                    Some(file) => Some((file, new_metadata(path@, remote@))),
                    None => None,
                }
            },
    {
        if self.mount(path).is_some() {
            return Err(already_mounted_status(path));
        }
        match self.storage().meta_path_for(key) {
            Some(file) => {
                let metadata = MountMetadata {
                    working_copy_path: path.to_owned(),
                    remote: remote.to_owned(),
                    op_id: Vec::new(),
                    workspace_id: Vec::new(),
                    root_tree_id: Id(EMPTY_TREE).to_vec(),
                };
                Ok(Some(SaveRequest { file, metadata }))
            },
            None => Ok(None),
        }
    }

    /// Register a new mount. `fault` is why it could not be saved, if it could
    /// not.
    pub fn register(
        &mut self,
        path: &str,
        key: &str,
        remote: &str,
        connected: bool,
        store: GitContentStore,
        ops: Store,
        transport: Option<TransportInfo>,
        fault: Option<String>,
    ) -> (r: Result<Option<TransportReply>, Status>)
        requires
            old(self)@.wf(),
        ensures
            final(self)@.wf(),
            (final(self)@, crate::service::answered(r)) == registered(
                old(self)@,
                path@,
                begun(
                    old(self)@,
                    key@,
                    new_metadata(path@, remote@),
                    Id(EMPTY_TREE),
                    connected,
                    store,
                    ops,
                ),
                transport,
                text_in(fault),
            ),
    {
        if self.mount(path).is_some() {
            return Err(already_mounted_status(path));
        }
        let meta_path = self.storage().meta_path_for(key);
        match (&meta_path, fault) {
            (Some(_), Some(cause)) => {
                return Err(
                    status_in(
                        Code::Internal,
                        concat2("writing initial mount.toml for ", path).as_str(),
                        cause.as_str(),
                    ),
                );
            },
            _ => {},
        }
        let root = store.empty_tree_id();
        let fs = self.filesystem_for(key, store, root);
        let m = Mount {
            remote: remote.to_owned(),
            connected,
            op_id: Vec::new(),
            workspace_id: Vec::new(),
            root_tree_id: root.to_vec(),
            fs,
            ops,
            meta_path,
            last_exported_head: Vec::new(),
            last_exported_bookmarks: None,
        };
        self.put_mount(path, m);
        Ok(
            match transport {
                Some(info) => Some(transport_to_proto(info)),
                None => None,
            },
        )
    }

    /// Register a mount that was left behind, in place of one at the same path.
    pub fn register_kept(
        &mut self,
        meta: &MountMetadata,
        key: &str,
        connected: bool,
        store: GitContentStore,
        ops: Store,
    )
        requires
            old(self)@.wf(),
            kept_root(meta@) is Some,
        ensures
            final(self)@.wf(),
            final(self)@ == old(self)@.with_mount(
                meta@.working_copy_path,
                begun(old(self)@, key@, meta@, kept_root(meta@)->0, connected, store, ops),
            ),
    {
        let root = if meta.root_tree_id.len() == 0 {
            store.empty_tree_id()
        } else {
            let id = Id::from_bytes(meta.root_tree_id.as_slice()).unwrap();
            proof {
                crate::ty::id_ext(id, crate::git_store::id_of(meta@.root_tree_id));
            }
            id
        };
        let meta_path = self.storage().meta_path_for(key);
        let fs = self.filesystem_for(key, store, root);
        let m = Mount {
            remote: meta.remote.as_str().to_owned(),
            connected,
            op_id: copy_bytes(meta.op_id.as_slice()),
            workspace_id: copy_bytes(meta.workspace_id.as_slice()),
            root_tree_id: root.to_vec(),
            fs,
            ops,
            meta_path,
            last_exported_head: Vec::new(),
            last_exported_bookmarks: None,
        };
        self.put_mount(meta.working_copy_path.as_str(), m);
    }
}

/// A mount comes back as it was saved: what outlives the daemon is what it was,
/// once a root tree was on record.
pub proof fn restart_keeps_the_mount(
    v: ServiceView,
    key: Seq<char>,
    path: Seq<char>,
    m: MountView,
    connected: bool,
    store: GitContentStore,
    ops: Store,
)
    requires
        m.root_tree_id.len() == ID_LEN,
    ensures
        kept_root(m.metadata(path)) is Some,
        begun(
            v,
            key,
            m.metadata(path),
            kept_root(m.metadata(path))->0,
            connected,
            store,
            ops,
        ).metadata(path) == m.metadata(path),
{
    crate::git_store::id_of_bytes(m.root_tree_id);
}

/// A refused mount leaves everything as it was, and an accepted one changes no
/// other mount.
pub proof fn registration_adds_one_mount(
    v: ServiceView,
    path: Seq<char>,
    mount: MountView,
    transport: Option<TransportInfo>,
    fault: Option<Seq<char>>,
    other: Seq<char>,
)
    ensures
        ({
            let (after, r) = registered(v, path, mount, transport, fault);
            &&& r is Err ==> after == v
            &&& r is Ok ==> !v.mounts.contains_key(path) && after.at(path) == Ok::<
                MountView,
                StatusView,
            >(mount)
            &&& other != path ==> after.at(other) == v.at(other)
        }),
{
}

/// A path is mounted once: a second registration is refused.
pub proof fn second_registration_is_refused(
    v: ServiceView,
    path: Seq<char>,
    mount: MountView,
    again: MountView,
    transport: Option<TransportInfo>,
    fault: Option<Seq<char>>,
)
    requires
        registered(v, path, mount, transport, None).1 is Ok,
    ensures
        registered(registered(v, path, mount, transport, None).0, path, again, transport, fault).1
            == Err::<Option<TransportReply>, StatusView>(already_mounted(path)),
{
}

} // verus!
