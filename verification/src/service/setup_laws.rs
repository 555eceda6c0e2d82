//! What a mount goes through until it is registered.
use vstd::prelude::*;
use crate::git_store::{id_of_bytes, GitContentStore, EMPTY_TREE};
use crate::mount::{MetadataView, MountView, StorageConfig};
use crate::mountpoint::{mountpoint_message, Inspection};
use crate::remote::{located, quoted_text, RemoteLocation, RemoteUrlError};
use crate::service::rehydrate::{
    rehydrate_step, with_kept, RehydrateStep, RehydrationView, TakenView,
};
use crate::service::setup::{
    begun, initialize_answer, kept_root, new_metadata, registered, rehydrate_answer, SetupAction,
    SetupEvent, SshUrl,
};
use crate::service::ServiceView;
use crate::status::{Code, Status};
use crate::store::Store;
use crate::text::decimal;
use crate::ty::Id;
use crate::vfs::kiki_fs::KikiView;
use crate::vfs_mgr::{BindError, TransportInfo, TransportReply};
use crate::wire_laws::{no_scheme_before, remote_of};

verus! {

/// The findings are those of an empty directory on which nothing is mounted.
pub open spec fn free_directory(found: Inspection) -> bool {
    &&& found.kind is Directory
    &&& found.occupied matches Ok(occupied) && !occupied
    &&& found.mounted matches Ok(mounted) && !mounted
}

/// The step may follow the event: the work that the event tells of went well, and the
/// step is the next one. A mount that was left behind may have to be unmounted first.
pub open spec fn leads_to(
    v: ServiceView,
    left_behind: bool,
    remote: Seq<char>,
    event: SetupEvent,
    action: SetupAction,
) -> bool {
    match action {
        SetupAction::OpenStores => event is Begun,
        SetupAction::ReadUrl(url) => url@ == remote && (event matches SetupEvent::Opened { fault }
            && fault is None),
        SetupAction::Connect(location) => event is Read && located(
            remote,
            Ok::<RemoteLocation, RemoteUrlError>(location),
        ),
        SetupAction::ConnectTo(url) => event is Read && url@ == remote,
        SetupAction::Tunnel(dir) => v.tunnels_dir == Some(dir@) && (event matches SetupEvent::Read(
            SshUrl::Ssh,
        )),
        SetupAction::Probe => left_behind && v.attaches && reached(event),
        SetupAction::Unmount => left_behind && (event matches SetupEvent::Probed { mounted }
            && mounted),
        SetupAction::Inspect => match event {
            SetupEvent::Probed { mounted } => !left_behind || !mounted,
            SetupEvent::Unmounted { fault } => !left_behind || fault is None,
            _ => !left_behind && v.attaches && reached(event),
        },
        SetupAction::Attach => event matches SetupEvent::Inspected(found) && free_directory(found),
        SetupAction::Register(None) => !v.attaches && reached(event),
        SetupAction::Register(Some(info)) => event == SetupEvent::Attached(info),
    }
}

/// The remote was reached, in one way or the other.
pub open spec fn reached(event: SetupEvent) -> bool {
    match event {
        SetupEvent::Connected { fault } => fault is None,
        SetupEvent::Tunneled { fault } => fault is None,
        _ => false,
    }
}

/// The work that the event tells of failed.
pub open spec fn failed(event: SetupEvent) -> bool {
    match event {
        SetupEvent::Opened { fault } => fault is Some,
        SetupEvent::Connected { fault } => fault is Some,
        SetupEvent::Tunneled { fault } => fault is Some,
        SetupEvent::Read(url) => url is Malformed,
        SetupEvent::Inspected(found) => !free_directory(found),
        SetupEvent::NotAttached(_) => true,
        _ => false,
    }
}

/// A new mount is made step by step: each step follows on work that went well, and
/// failed work ends it. It attaches only to an empty directory, and is registered only
/// once it is attached, or where nothing is attached at all.
pub proof fn new_mounts_are_made_step_by_step(
    v: ServiceView,
    path: Seq<char>,
    remote: Seq<char>,
    event: SetupEvent,
    r: Result<SetupAction, Status>,
)
    requires
        initialize_answer(v, path, remote, event, r),
    ensures
        r matches Ok(action) ==> leads_to(v, false, remote, event, action),
        failed(event) ==> r is Err,
        event is Begun ==> (r is Err <==> v.mounts.contains_key(path)),
        event is Begun ==> (r matches Err(s) ==> s@.code == Code::AlreadyExists),
        reached(event) ==> r is Ok,
        event is Attached ==> r is Ok,
        event matches SetupEvent::Opened { fault } ==> (fault is None ==> r is Ok),
        event matches SetupEvent::Inspected(found) ==> (free_directory(found) <==> r is Ok),
        event matches SetupEvent::Inspected(found) ==> (r matches Err(s) ==> s@.code
            == Code::FailedPrecondition && s@.message == mountpoint_message(path, found)),
        event matches SetupEvent::Read(SshUrl::Ssh) ==> (r is Ok <==> v.tunnels_dir is Some),
        event is Read && !(event matches SetupEvent::Read(SshUrl::Ssh)) ==> (r matches Err(s)
            ==> s@.code == Code::InvalidArgument),
{
}

/// A mount that was left behind is taken up step by step: what is still mounted is
/// unmounted first, and the rest is as for a new mount. Its root tree has to be readable.
pub proof fn left_mounts_are_taken_up_step_by_step(
    v: ServiceView,
    meta: MetadataView,
    event: SetupEvent,
    r: Result<SetupAction, String>,
)
    requires
        rehydrate_answer(v, meta, event, r),
    ensures
        r matches Ok(action) ==> leads_to(v, true, meta.remote, event, action),
        failed(event) ==> r is Err,
        event matches SetupEvent::Unmounted { fault } ==> (fault is Some <==> r is Err),
        event is Begun ==> r is Ok,
        reached(event) ==> r is Ok,
        event is Attached ==> r is Ok,
        event is Probed ==> r is Ok,
        event matches SetupEvent::Opened { fault } ==> (r is Ok <==> fault is None && (
        meta.root_tree_id.len() == 0 || meta.root_tree_id.len() == 20)),
        event matches SetupEvent::Inspected(found) ==> (free_directory(found) <==> r is Ok),
{
}

/// A `dir://` remote with an absolute path is connected to as that directory, and no
/// remote as none; a remote of another scheme is handed on as it is.
pub proof fn remotes_are_connected_to(
    v: ServiceView,
    path: Seq<char>,
    remote: Seq<char>,
    scheme: Seq<char>,
    rest: Seq<char>,
    r: Result<SetupAction, Status>,
)
    requires
        initialize_answer(v, path, remote, SetupEvent::Read(SshUrl::Other), r),
    ensures
        remote.len() == 0 ==> r == Ok::<SetupAction, Status>(
            SetupAction::Connect(RemoteLocation::Nowhere),
        ),
        remote == remote_of(scheme, rest) && no_scheme_before(remote, scheme.len() as int) ==> {
            &&& scheme == "dir"@ && rest.len() > 0 && rest[0] == '/' ==> (r matches Ok(
                SetupAction::Connect(RemoteLocation::Dir(dir)),
            ) && dir@ == rest)
            &&& scheme == "dir"@ && (rest.len() == 0 || rest[0] != '/') ==> r is Err
            &&& scheme != "dir"@ ==> (r matches Ok(SetupAction::ConnectTo(url)) && url@ == remote)
        },
{
    let place = choose|place: Result<RemoteLocation, RemoteUrlError>| #[trigger]
        located(remote, place) && match place {
            Ok(location) => r matches Ok(a) && a == SetupAction::Connect(location),
            Err(RemoteUrlError::OtherScheme(_)) => r matches Ok(SetupAction::ConnectTo(url)) && url@
                == remote,
            Err(e) => r matches Err(s) && s@ == crate::status::in_context(
                Code::InvalidArgument,
                "remote"@,
                e.message(),
            ),
        };
    assert(located(remote, place));
    if remote == remote_of(scheme, rest) && no_scheme_before(remote, scheme.len() as int) {
        crate::wire_laws::dir_remotes_name_their_directory(scheme, rest, place);
    }
}

/// The root of a mount that was left behind is the tree on record; where none is, it is
/// the empty tree.
pub proof fn root_on_record_is_kept(meta: MetadataView)
    ensures
        meta.root_tree_id.len() == 0 ==> kept_root(meta) == Some(Id(EMPTY_TREE)),
        meta.root_tree_id.len() == 20 ==> (kept_root(meta) matches Some(id) && id@
            == meta.root_tree_id),
        meta.root_tree_id.len() != 0 && meta.root_tree_id.len() != 20 ==> kept_root(meta) is None,
{
    if meta.root_tree_id.len() == 20 {
        id_of_bytes(meta.root_tree_id);
    }
}

/// A mount begins with what is on record of it, a working copy made anew of its root
/// tree, the contents of its stores, and nothing exported.
pub proof fn mounts_begin_with_what_is_on_record(
    v: ServiceView,
    key: Seq<char>,
    meta: MetadataView,
    root: Id,
    connected: bool,
    store: GitContentStore,
    ops: Store,
)
    ensures
        ({
            let m = begun(v, key, meta, root, connected, store, ops);
            &&& m.remote == meta.remote
            &&& m.connected == connected
            &&& m.op_id == meta.op_id
            &&& m.workspace_id == meta.workspace_id
            &&& m.root_tree_id == root@
            &&& m.fs.objects == store@
            &&& m.fs.git_path == store.path()
            &&& m.fs.tree == KikiView::fresh(
                store@,
                root,
                store.path(),
                v.storage.place(key, "scratch"@),
                0,
            )
            &&& m.rows == ops@
            &&& m.meta_path == v.storage.place(key, "mount.toml"@)
            &&& m.last_exported_head.len() == 0
            &&& m.last_exported_bookmarks is None
        }),
{
}

/// What is on record of a new mount: its path, its remote and the empty tree.
pub proof fn new_record_is_empty(path: Seq<char>, remote: Seq<char>)
    ensures
        new_metadata(path, remote).working_copy_path == path,
        new_metadata(path, remote).remote == remote,
        new_metadata(path, remote).op_id.len() == 0,
        new_metadata(path, remote).workspace_id.len() == 0,
        new_metadata(path, remote).root_tree_id == EMPTY_TREE@,
{
}

/// A mount is registered at its path unless one is there or its record could not be
/// saved; the front end is told the transport. Nothing else changes.
pub proof fn registration_tells_the_transport(
    v: ServiceView,
    path: Seq<char>,
    mount: MountView,
    transport: Option<TransportInfo>,
    fault: Option<Seq<char>>,
)
    ensures
        ({
            let (after, r) = registered(v, path, mount, transport, fault);
            &&& r is Ok <==> !v.mounts.contains_key(path) && (mount.meta_path is None || fault
                is None)
            &&& r is Ok ==> after.mounts == v.mounts.insert(path, mount) && after.attaches
                == v.attaches && after.storage == v.storage && after.tunnels_dir == v.tunnels_dir
            &&& r is Err ==> after == v
            &&& r matches Ok(told) ==> match transport {
                None => told is None,
                Some(TransportInfo::Fuse) => told == Some(TransportReply::Fuse),
                Some(TransportInfo::Nfs { port }) => (told matches Some(
                    TransportReply::Nfs { port: p },
                ) && p == port),
            }
            &&& v.mounts.contains_key(path) ==> (r matches Err(s) && s.code == Code::AlreadyExists)
            &&& !v.mounts.contains_key(path) ==> (r matches Err(s) ==> s.code == Code::Internal)
        }),
{
}

/// What is said where a new mount cannot be made.
pub proof fn refused_mounts_say_why(
    v: ServiceView,
    path: Seq<char>,
    remote: Seq<char>,
    cause: String,
    e: BindError,
    r: Result<SetupAction, Status>,
)
    ensures
        initialize_answer(v, path, remote, SetupEvent::Begun, r) && v.mounts.contains_key(path) ==> (
        r matches Err(s) && s@.message == "mount already initialized at "@ + path),
        initialize_answer(v, path, remote, SetupEvent::Opened { fault: Some(cause) }, r) ==> (
        r matches Err(s) && s@.code == Code::Internal && s@.message == "opening store for "@ + path
            + ": "@ + cause@),
        initialize_answer(v, path, remote, SetupEvent::Read(SshUrl::Malformed(cause)), r) ==> (
        r matches Err(s) && s@.code == Code::InvalidArgument && s@.message == "remote"@ + ": "@
            + cause@),
        initialize_answer(v, path, remote, SetupEvent::Connected { fault: Some(cause) }, r) ==> (
        r matches Err(s) && s@.code == Code::InvalidArgument && s@.message == "remote"@ + ": "@
            + cause@),
        initialize_answer(v, path, remote, SetupEvent::Tunneled { fault: Some(cause) }, r) ==> (
        r matches Err(s) && s@.code == Code::Internal && s@.message == "SSH tunnel"@ + ": "@
            + cause@),
        initialize_answer(v, path, remote, SetupEvent::NotAttached(e), r) ==> (r matches Err(s)
            && s@.code == Code::Internal && s@.message == "VFS bind failed"@ + ": "@ + e.message()),
{
}

/// What is said where a mount that was left behind cannot be taken up.
pub proof fn refused_left_mounts_say_why(
    v: ServiceView,
    meta: MetadataView,
    cause: String,
    e: BindError,
    found: Inspection,
    r: Result<SetupAction, String>,
)
    ensures
        rehydrate_answer(v, meta, SetupEvent::Opened { fault: Some(cause) }, r) ==> (r matches Err(t)
            && t@ == cause@),
        rehydrate_answer(v, meta, SetupEvent::Read(SshUrl::Malformed(cause)), r) ==> (r matches Err(
            t,
        ) && t@ == "parsing remote URL "@ + quoted_text(meta.remote) + ": "@ + cause@),
        rehydrate_answer(v, meta, SetupEvent::Connected { fault: Some(cause) }, r) ==> (r matches Err(
            t,
        ) && t@ == "parsing remote URL "@ + quoted_text(meta.remote) + ": "@ + cause@),
        rehydrate_answer(v, meta, SetupEvent::Tunneled { fault: Some(cause) }, r) ==> (r matches Err(
            t,
        ) && t@ == "re-establishing SSH tunnel for "@ + quoted_text(meta.remote) + ": "@ + cause@),
        rehydrate_answer(v, meta, SetupEvent::Inspected(found), r) && !free_directory(found) ==> (
        r matches Err(t) && t@ == "mountpoint no longer valid for rehydrate: "@ + mountpoint_message(
            meta.working_copy_path,
            found,
        )),
        rehydrate_answer(v, meta, SetupEvent::NotAttached(e), r) ==> (r matches Err(t) && t@
            == "vfs bind failed: "@ + e.message()),
        rehydrate_answer(v, meta, SetupEvent::Opened { fault: None }, r) && meta.root_tree_id.len()
            != 0 && meta.root_tree_id.len() != 20 ==> (r matches Err(t) && t@
            == "decoding stored root_tree_id: expected 20-byte id, got "@ + decimal(
            meta.root_tree_id.len(),
        ) + " bytes"@),
{
}

/// A run begins with all mounts that were left behind on disk, and none without a disk;
/// nothing is taken up then.
pub proof fn runs_begin_with_what_was_left(storage: StorageConfig, metas: Seq<MetadataView>)
    ensures
        storage is OnDisk ==> RehydrationView::fresh(storage, metas).metas == metas,
        storage is InMemory ==> RehydrationView::fresh(storage, metas).metas.len() == 0,
        RehydrationView::fresh(storage, metas).taken.len() == 0,
        !RehydrationView::fresh(storage, metas).ready,
{
}

/// A run takes up one mount after the other: what came of one is put behind what came of
/// those before, and the next one is at hand.
pub proof fn mounts_are_taken_up_in_turn(
    v: ServiceView,
    before: RehydrationView,
    what: TakenView,
    meta: MetadataView,
    m: MountView,
    other: Seq<char>,
)
    ensures
        before.with(what).taken == before.taken.push(what),
        before.with(what).metas == before.metas,
        !before.with(what).ready,
        before.current() == before.metas[before.taken.len() as int],
        with_kept(v, meta, m).mounts == v.mounts.insert(meta.working_copy_path, m),
        with_kept(v, meta, m).attaches == v.attaches,
        with_kept(v, meta, m).storage == v.storage,
        with_kept(v, meta, m).tunnels_dir == v.tunnels_dir,
{
}

/// A step of a run is one of the mount at hand: it is skipped with the cause that is
/// told, or its next work is told, and it is ready once it can be registered.
pub proof fn run_steps_are_of_the_mount_at_hand(
    v: ServiceView,
    before: RehydrationView,
    event: SetupEvent,
    after: RehydrationView,
    step: RehydrateStep,
)
    requires
        rehydrate_step(v, before, event, after, step),
    ensures
        after.metas == before.metas,
        match step {
            RehydrateStep::Done => after == before && before.taken.len() >= before.metas.len(),
            RehydrateStep::Skip { mount, cause } => {
                &&& mount == before.taken.len() && mount < before.metas.len()
                &&& after.taken == before.taken.push(TakenView::Skipped(cause@))
                &&& !after.ready
                &&& rehydrate_answer(v, before.metas[mount as int], event, Err(cause))
            },
            RehydrateStep::Perform { mount, action } => {
                &&& mount == before.taken.len() && mount < before.metas.len()
                &&& after.taken == before.taken
                &&& after.ready <==> action is Register
                &&& rehydrate_answer(v, before.metas[mount as int], event, Ok(action))
            },
        },
{
}

} // verus!
