use std::collections::BTreeMap;

use jj_lib::backend::CommitId;
use jj_lib::object_id::ObjectId as _;
use jj_lib::op_store::{OpStore as _, Operation, OperationId, RootOperationData, View};
use jj_lib::simple_op_store::SimpleOpStore;
use kiki::commit::{encode_commit, CommitParts, ROOT_COMMIT};
use kiki::git_store::{GitContentStore, GitEntryKind, GitObjectKind, GitTreeEntry, EMPTY_TREE};
use kiki::mount::{MountMetadata, StorageConfig};
use kiki::mountpoint::{Inspection, PathKind};
use kiki::op_blobs::{bookmarks_from_view_bytes, Bookmark, Rehashed};
use kiki::push_walk::{PushStep, PushWalk};
use kiki::remote::{is_through_tunnel, BlobKind, CasOutcome, FetchError, RemoteLocation};
use kiki::service::content::{Found, Stored};
use kiki::service::op_log::{CatalogAnswer, LogFound};
use kiki::service::rehydrate::RehydrateStep;
use kiki::service::setup::{SetupAction, SetupEvent, SshUrl};
use kiki::service::working_copy::{check_out_status, SnapshotReply};
use kiki::service::{CheckoutState, JujutsuService};
use kiki::status::{fetch_status, Code, Status};
use kiki::store::Store;
use kiki::text::hex_encode;
use kiki::ty::Id;
use kiki::vfs::kiki_fs::{JjKikiFs, KikiFs};
use kiki::vfs::types::{fetch_err, FsError};
use kiki::vfs_mgr::TransportInfo;
use prost::Message as _;

/// What a remote holds.
#[derive(Default)]
struct Remote {
    blobs: BTreeMap<(String, Vec<u8>), Vec<u8>>,
    refs: BTreeMap<String, Vec<u8>>,
}

impl Remote {
    fn put(&mut self, kind: BlobKind, id: &[u8], bytes: Vec<u8>) {
        self.blobs.insert((kind.to_string(), id.to_vec()), bytes);
    }

    fn get(&self, kind: BlobKind, id: &[u8]) -> Option<Vec<u8>> {
        self.blobs.get(&(kind.to_string(), id.to_vec())).cloned()
    }
}

const DIR: &str = "dir:///srv/remote";

fn read_url(url: &str) -> SshUrl {
    match url.strip_prefix("ssh://") {
        Some("") => SshUrl::Malformed("no host".to_owned()),
        Some(_) => SshUrl::Ssh,
        None => SshUrl::Other,
    }
}

fn try_init(svc: &mut JujutsuService, path: &str, remote: &str) -> Result<(), Status> {
    let mut event = SetupEvent::Begun;
    let mut connected = false;
    loop {
        event = match svc.initialize(path, remote, event)? {
            SetupAction::OpenStores => SetupEvent::Opened { fault: None },
            SetupAction::ReadUrl(url) => SetupEvent::Read(read_url(&url)),
            SetupAction::Connect(location) => {
                connected = location != RemoteLocation::Nowhere;
                SetupEvent::Connected { fault: None }
            }
            SetupAction::ConnectTo(url) => {
                assert_eq!(url, remote);
                connected = true;
                SetupEvent::Connected { fault: None }
            }
            SetupAction::Register(transport) => {
                let store = GitContentStore::new_in_memory();
                let ops = Store::new_in_memory(&[0xee; 32], &[]).expect("in-memory store");
                svc.mount_to_save(path, "key", remote)?;
                svc.register(path, "key", remote, connected, store, ops, transport, None)?;
                return Ok(());
            }
            other => panic!("nothing is attached here: {other:?}"),
        };
    }
}

fn init_mount(svc: &mut JujutsuService, path: &str) {
    try_init(svc, path, "").expect("initialize");
}

fn bare_with(path: &str, remote: &str) -> JujutsuService {
    let mut svc = JujutsuService::bare();
    try_init(&mut svc, path, remote).expect("initialize");
    svc
}

fn edit<T>(svc: &mut JujutsuService, path: &str, change: impl FnOnce(&mut KikiFs) -> T) -> T {
    let mut mount = svc.take_mount(path).expect("mount initialised");
    let result = change(&mut mount.fs);
    svc.put_mount(path, mount);
    result
}

fn push(stored: &Stored, kind: BlobKind, remote: &mut Remote) {
    if let Some(bytes) = &stored.push {
        remote.put(kind, &stored.id.0, bytes.clone());
    }
}

fn snapshot(
    svc: &mut JujutsuService,
    path: &str,
    remote: &mut Remote,
) -> Result<SnapshotReply, Status> {
    let taken = svc.snapshot(path)?;
    if taken.push {
        let store = svc.mount(path).unwrap().fs.store();
        let mut walk = PushWalk::new(taken.root);
        while let PushStep::Offer { kind, id } = walk.advance() {
            let has = remote.get(kind, &id.0).is_some();
            if let Some(data) = walk.answered(has, store).expect("payload") {
                remote.put(kind, &id.0, data);
                walk.confirm();
            }
            if walk.tree_to_open().is_some() {
                assert_eq!(walk.open_tree(store), Ok(true));
            }
        }
    }
    svc.finish_snapshot(path, &taken.root, &taken.exported_head, None, None)
}

fn fetch(
    svc: &mut JujutsuService,
    path: &str,
    id: Id,
    what: BlobKind,
    remote: &Remote,
) -> Result<(), FetchError> {
    let kind = match what {
        BlobKind::Tree => GitObjectKind::Tree,
        BlobKind::Commit => GitObjectKind::Commit,
        _ => GitObjectKind::Blob,
    };
    svc.keep_fetched(path, id, kind, what, remote.get(what, &id.0))
}

fn read_file(
    svc: &mut JujutsuService,
    path: &str,
    id: &[u8],
    remote: &Remote,
) -> Result<Vec<u8>, Status> {
    loop {
        match svc.read_file(path, id)? {
            Found::Here(data) => return Ok(data),
            Found::Elsewhere(missing) => {
                fetch(svc, path, missing, BlobKind::Blob, remote).map_err(fetch_status)?;
            }
        }
    }
}

fn check_out(svc: &mut JujutsuService, path: &str, tree: &[u8]) -> Result<(), Status> {
    svc.check_out(path, tree)?;
    svc.finish_check_out(path, tree, None)
}

fn empty_tree(svc: &JujutsuService, path: &str) -> Vec<u8> {
    svc.get_empty_tree_id(path).expect("empty tree")
}

/// The id of a root view, as the operation store gives it, and its bytes.
fn make_view_blob() -> (Vec<u8>, Vec<u8>) {
    let dir = tempfile::tempdir().unwrap();
    let root = RootOperationData { root_commit_id: CommitId::from_bytes(&[0; 20]) };
    let store = SimpleOpStore::init(dir.path(), root).unwrap();
    let view = View::make_root(CommitId::new(vec![1]));
    let id = futures::executor::block_on(store.write_view(&view)).unwrap();
    let bytes = jj_lib::protos::simple_op_store::View {
        head_ids: vec![vec![1]],
        ..Default::default()
    };
    (id.as_bytes().to_vec(), bytes.encode_to_vec())
}

/// The id of an operation, as the operation store gives it, and its bytes.
fn make_operation_blob() -> (Vec<u8>, Vec<u8>) {
    let dir = tempfile::tempdir().unwrap();
    let root = RootOperationData { root_commit_id: CommitId::from_bytes(&[0; 20]) };
    let store = SimpleOpStore::init(dir.path(), root).unwrap();
    let view = View::make_root(CommitId::new(vec![1]));
    let view_id = futures::executor::block_on(store.write_view(&view)).unwrap();
    let mut operation = Operation::make_root(view_id);
    operation.parents = vec![OperationId::from_bytes(&[0; 64])];
    operation.metadata.description = "non-root".into();
    let id = futures::executor::block_on(store.write_operation(&operation)).unwrap();
    (id.as_bytes().to_vec(), b"operation-proto-bytes".to_vec())
}

fn make_commit(parents: Vec<Id>, description: &str) -> CommitParts {
    CommitParts {
        tree: Id(EMPTY_TREE),
        parents,
        author: " <> 0 +0000".to_owned(),
        committer: " <> 0 +0000".to_owned(),
        description: description.to_owned(),
    }
}

/// The parents and the description of a commit.
fn read_commit(svc: &JujutsuService, path: &str, id: &Id) -> (Vec<String>, String) {
    let data = match svc.read_commit(path, &id.0).unwrap() {
        Found::Here(data) => String::from_utf8(data).unwrap(),
        Found::Elsewhere(_) => panic!("the commit is here"),
    };
    let (head, description) = data.split_once("\n\n").unwrap();
    let parents = head.lines().filter_map(|l| l.strip_prefix("parent ")).map(str::to_owned);
    (parents.collect(), description.to_owned())
}

#[test]
fn write_commit_parents() {
    let path = "/tmp/repo";
    let mut svc = bare_with(path, "");
    let none = make_commit(vec![], "");
    let err = svc.write_commit(path, Some(&none), None).unwrap_err();
    assert_eq!(err.code(), Code::Internal);
    assert!(err.message().contains("no parents"));
    let err = svc.write_commit(path, None, None).unwrap_err();
    assert_eq!(err.code(), Code::InvalidArgument);
    let root = Id(ROOT_COMMIT);
    let first = svc.write_commit(path, Some(&make_commit(vec![root], "first")), None).unwrap().id;
    assert_eq!(first.0.len(), 20);
    // The root commit is no object of git.
    assert_eq!(read_commit(&svc, path, &first), (vec![], "first".to_owned()));
    let second = make_commit(vec![first], "second");
    let second = svc.write_commit(path, Some(&second), None).unwrap().id;
    let parents = vec![first.to_string()];
    assert_eq!(read_commit(&svc, path, &second), (parents, "second".to_owned()));
    let merge = make_commit(vec![first, second], "merge");
    let merge = svc.write_commit(path, Some(&merge), None).unwrap().id;
    let parents = vec![first.to_string(), second.to_string()];
    assert_eq!(read_commit(&svc, path, &merge), (parents, "merge".to_owned()));
    let err = svc.write_commit(path, Some(&make_commit(vec![first, root], "")), None).unwrap_err();
    assert_eq!(err.code(), Code::Internal);
    assert_eq!(
        err.message(),
        "write_commit: The Git backend does not support creating merge commits with the root \
         commit as one of the parents."
    );
}

#[test]
fn commits_are_encoded_as_git_has_them() {
    let parent = Id([0xab; 20]);
    let commit = CommitParts {
        tree: Id(EMPTY_TREE),
        parents: vec![parent],
        author: "A U Thor <a@example.com> 1700000000 +0100".to_owned(),
        committer: "C O Mitter <c@example.com> 1700000001 +0000".to_owned(),
        description: "Größe\n\nbody\n".to_owned(),
    };
    let expected = format!(
        "tree 4b825dc642cb6eb9a060e54bf8d69288fbee4904\nparent {}\n\
         author A U Thor <a@example.com> 1700000000 +0100\n\
         committer C O Mitter <c@example.com> 1700000001 +0000\n\nGröße\n\nbody\n",
        "ab".repeat(20)
    );
    assert_eq!(encode_commit(&commit), expected.into_bytes());
}

#[test]
fn what_is_kept_beside_a_commit_is_pushed_with_it() {
    let path = "/tmp/repo";
    let mut svc = bare_with(path, DIR);
    let commit = make_commit(vec![Id(ROOT_COMMIT)], "pushed");
    let stored = svc.write_commit(path, Some(&commit), Some(b"change".to_vec())).unwrap();
    assert_eq!(
        stored.pushes,
        vec![
            (BlobKind::Commit, encode_commit(&commit)),
            (BlobKind::Extra, b"change".to_vec()),
        ]
    );
    let stored = svc.write_commit(path, Some(&commit), None).unwrap();
    assert_eq!(stored.pushes, vec![(BlobKind::Commit, encode_commit(&commit))]);
    let mut alone = bare_with(path, "");
    let stored = alone.write_commit(path, Some(&commit), Some(b"change".to_vec())).unwrap();
    assert!(stored.pushes.is_empty());
}

#[test]
fn checkout_state_round_trip() {
    let path = "/tmp/repo";
    let mut svc = bare_with(path, "");
    let err = svc.get_checkout_state(path).unwrap_err();
    assert_eq!(err.code(), Code::FailedPrecondition);
    let empty = empty_tree(&svc, path);
    assert_eq!(svc.get_tree_state(path).unwrap(), empty);
    let op_id = vec![0xab; 32];
    let workspace_id = b"default".to_vec();
    let checkout = CheckoutState { op_id: op_id.clone(), workspace_id: workspace_id.clone() };
    assert!(svc.checkout_to_save(path, &checkout).is_none(), "nothing is kept in memory");
    svc.set_checkout_state(path, Some(checkout), None).unwrap();
    let state = svc.get_checkout_state(path).unwrap();
    assert_eq!(state.op_id, op_id);
    assert_eq!(state.workspace_id, workspace_id);
    let snap = snapshot(&mut svc, path, &mut Remote::default()).unwrap();
    assert_eq!(snap.tree_id, empty);
}

#[test]
fn mounts_are_isolated_by_path() {
    let mut svc = JujutsuService::bare();
    for path in ["/tmp/a", "/tmp/b"] {
        init_mount(&mut svc, path);
    }
    let checkout = CheckoutState { op_id: vec![1; 32], workspace_id: b"alpha".to_vec() };
    svc.set_checkout_state("/tmp/a", Some(checkout), None).unwrap();
    assert_eq!(svc.get_checkout_state("/tmp/a").unwrap().workspace_id, b"alpha");
    let err = svc.get_checkout_state("/tmp/b").unwrap_err();
    assert_eq!(err.code(), Code::FailedPrecondition);
    let written = svc.write_file("/tmp/a", b"hello-from-a").unwrap();
    let nobody = Remote::default();
    let from_a = read_file(&mut svc, "/tmp/a", &written.id.0, &nobody).unwrap();
    assert_eq!(from_a, b"hello-from-a");
    let cross_read = read_file(&mut svc, "/tmp/b", &written.id.0, &nobody).unwrap_err();
    assert_eq!(cross_read.code(), Code::NotFound);
    let status = svc.daemon_status();
    let paths: Vec<_> = status.iter().map(|d| d.path.as_str()).collect();
    assert_eq!(paths, vec!["/tmp/a", "/tmp/b"]);
}

#[test]
fn duplicate_initialize_rejected() {
    let mut svc = bare_with("/tmp/repo", "");
    let err = try_init(&mut svc, "/tmp/repo", "").unwrap_err();
    assert_eq!(err.code(), Code::AlreadyExists);
    assert_eq!(err.message(), "mount already initialized at /tmp/repo");
    let err = svc.mount_to_save("/tmp/repo", "key", "").unwrap_err();
    assert_eq!(err.code(), Code::AlreadyExists);
}

#[test]
fn set_checkout_state_requires_initialize() {
    let mut svc = JujutsuService::bare();
    let checkout = CheckoutState { op_id: vec![0; 32], workspace_id: b"default".to_vec() };
    let err = svc.set_checkout_state("/never/initialized", Some(checkout), None).unwrap_err();
    assert_eq!(err.code(), Code::NotFound);
    assert_eq!(err.message(), "no mount at /never/initialized (call Initialize first)");
    let err = svc.set_checkout_state("/never/initialized", None, None).unwrap_err();
    assert_eq!(err.code(), Code::InvalidArgument);
}

#[test]
fn check_out_updates_root_tree_and_validates_input() {
    let path = "/tmp/repo";
    let mut svc = bare_with(path, "");
    let file = svc.write_file(path, b"hello").unwrap();
    let tree = svc
        .write_tree(
            path,
            Some(&vec![GitTreeEntry {
                name: "hello.txt".into(),
                kind: GitEntryKind::File { executable: false },
                id: file.id,
            }]),
        )
        .unwrap();
    check_out(&mut svc, path, &tree.id.0).expect("check_out");
    assert_eq!(svc.get_tree_state(path).unwrap(), tree.id.0);
    let snap = snapshot(&mut svc, path, &mut Remote::default()).unwrap();
    assert_eq!(snap.tree_id, tree.id.0);
    let err = check_out(&mut svc, path, &[0xee; 20]).unwrap_err();
    assert_eq!(err.code(), Code::FailedPrecondition);
    assert_eq!(
        err.message(),
        format!("tree {} not in store; call WriteTree first", "ee".repeat(20))
    );
    assert_eq!(svc.get_tree_state(path).unwrap(), tree.id.0);
    let err = check_out(&mut svc, path, &[0xee; 19]).unwrap_err();
    assert_eq!(err.code(), Code::InvalidArgument);
    assert_eq!(err.message(), "tree id: TreeId: expected 20-byte id, got 19 bytes");
}

#[test]
fn check_out_without_mount_is_not_found() {
    let mut svc = JujutsuService::bare();
    let err = check_out(&mut svc, "/never/initialized", &[0; 20]).unwrap_err();
    assert_eq!(err.code(), Code::NotFound);
}

#[test]
fn store_rpc_without_mount_is_not_found() {
    let mut svc = JujutsuService::bare();
    let err = svc.write_file("/never/initialized", b"hi").unwrap_err();
    assert_eq!(err.code(), Code::NotFound);
    assert_eq!(err.message(), "no mount at /never/initialized");
}

#[test]
fn snapshot_rpc_returns_new_tree_id_after_vfs_write() {
    let path = "/tmp/repo";
    let mut svc = bare_with(path, "");
    let empty = empty_tree(&svc, path);
    edit(&mut svc, path, |fs| {
        let (ino, _) = fs.create_file(fs.root(), "hello.txt", false).expect("create_file");
        fs.write(ino, 0, b"hello").unwrap();
    });
    let snap = snapshot(&mut svc, path, &mut Remote::default()).unwrap();
    assert_ne!(snap.tree_id, empty);
    assert_eq!(svc.get_tree_state(path).unwrap(), snap.tree_id);
}

#[test]
fn snapshot_without_mount_is_not_found() {
    let mut svc = JujutsuService::bare();
    let err = svc.snapshot("/never/initialized").unwrap_err();
    assert_eq!(err.code(), Code::NotFound);
}

#[test]
fn persisted_mount_rehydrates_after_restart() {
    let mount_path = "/tmp/kiki-rehydrate-test";
    let storage = || StorageConfig::on_disk("/var/kiki".to_owned());
    let mut svc1 = JujutsuService::new(false, storage(), "/run/kiki");
    try_init(&mut svc1, mount_path, DIR).expect("initialize");
    let first = svc1.mount_to_save("/tmp/other", "key", DIR).unwrap().expect("kept on disk");
    assert_eq!(first.file, "/var/kiki/mounts/key/mount.toml");
    assert_eq!(first.metadata.remote, DIR);
    assert_eq!(first.metadata.root_tree_id, EMPTY_TREE);
    let op_id = vec![0xab, 0xcd, 0xef];
    let workspace_id = b"default".to_vec();
    let checkout = CheckoutState { op_id: op_id.clone(), workspace_id: workspace_id.clone() };
    let saved = svc1.checkout_to_save(mount_path, &checkout).expect("kept on disk");
    svc1.set_checkout_state(mount_path, Some(checkout), None).expect("set_checkout_state");
    let on_disk = saved.metadata;
    assert_eq!(saved.file, "/var/kiki/mounts/key/mount.toml");
    assert_eq!(on_disk.working_copy_path, mount_path);
    assert_eq!(on_disk.remote, DIR);
    assert_eq!(on_disk.op_id, op_id);
    assert_eq!(on_disk.workspace_id, workspace_id);

    let mut svc2 = JujutsuService::new(false, storage(), "/run/kiki");
    let (done, skipped) = rehydrate(&mut svc2, vec![on_disk], false);
    assert_eq!(done, vec!["connect /srv/remote", "register"]);
    assert!(skipped.is_empty());
    let tree = svc2.get_tree_state(mount_path).expect("get_tree_state");
    assert_eq!(tree, svc1.get_tree_state(mount_path).unwrap());
    let got = svc2.get_checkout_state(mount_path).expect("get_checkout_state");
    assert_eq!(got.op_id, op_id);
    assert_eq!(got.workspace_id, workspace_id);
    let status = svc2.daemon_status();
    assert_eq!(status.len(), 1);
    assert_eq!(status[0].path, mount_path);
    assert_eq!(status[0].remote, DIR);
}

fn on_disk() -> StorageConfig {
    StorageConfig::on_disk("/var/kiki".to_owned())
}

#[test]
fn remotes_behind_a_tunnel() {
    let opened = || SetupEvent::Opened { fault: None };
    let ssh = || SetupEvent::Read(SshUrl::Ssh);
    let remote = "ssh://server/mono";
    let bare = JujutsuService::bare();
    assert_eq!(bare.tunnels_dir(), None);
    let action = bare.initialize("/m", remote, opened()).unwrap();
    assert!(matches!(action, SetupAction::ReadUrl(url) if url == remote));
    let err = bare.initialize("/m", remote, ssh()).unwrap_err();
    assert_eq!(err.code(), Code::Internal);
    assert_eq!(err.message(), "SSH tunnels not available in test mode");

    let svc = JujutsuService::new(false, StorageConfig::InMemory, "/run/kiki");
    let tunnels = "/run/kiki/tunnels";
    assert_eq!(svc.tunnels_dir(), Some(tunnels));
    let action = svc.initialize("/m", remote, ssh()).unwrap();
    assert!(matches!(action, SetupAction::Tunnel(dir) if dir == tunnels));
    let fault = || SetupEvent::Tunneled { fault: Some("no route".to_owned()) };
    let err = svc.initialize("/m", remote, fault()).unwrap_err();
    assert_eq!(err.code(), Code::Internal);
    assert_eq!(err.message(), "SSH tunnel: no route");
    let action = svc.initialize("/m", remote, SetupEvent::Tunneled { fault: None }).unwrap();
    assert!(matches!(action, SetupAction::Register(None)));
    assert!(is_through_tunnel(remote));
    assert!(!is_through_tunnel("dir:///ssh://"));
    assert!(!is_through_tunnel("kiki+ssh://server/mono"));
    assert!(!is_through_tunnel("ssh:/server"));

    // A URL that cannot be read is an invalid argument.
    let broken = || SetupEvent::Read(SshUrl::Malformed("no host".to_owned()));
    for svc in [&bare, &svc] {
        let err = svc.initialize("/m", "ssh://", broken()).unwrap_err();
        assert_eq!(err.code(), Code::InvalidArgument);
        assert_eq!(err.message(), "remote: no host");
    }

    let mut meta = left_behind("/m", remote);
    let action = svc.rehydrate_one(&meta, opened()).unwrap();
    assert!(matches!(action, SetupAction::ReadUrl(url) if url == remote));
    let action = svc.rehydrate_one(&meta, ssh()).unwrap();
    assert!(matches!(action, SetupAction::Tunnel(dir) if dir == tunnels));
    assert_eq!(
        svc.rehydrate_one(&meta, fault()).unwrap_err(),
        "re-establishing SSH tunnel for \"ssh://server/mono\": no route"
    );
    // Without tunnels the URL is one of a scheme that is not handled here.
    let action = bare.rehydrate_one(&meta, ssh()).unwrap();
    assert!(matches!(action, SetupAction::ConnectTo(url) if url == remote));
    let refused = SetupEvent::Connected { fault: Some("no ssh".to_owned()) };
    let text = bare.rehydrate_one(&meta, refused).unwrap_err();
    assert_eq!(text, "parsing remote URL \"ssh://server/mono\": no ssh");
    meta.remote = "ssh://".to_owned();
    let text = svc.rehydrate_one(&meta, broken()).unwrap_err();
    assert_eq!(text, "parsing remote URL \"ssh://\": no host");
}

#[test]
fn remotes_of_another_scheme_are_connected_to() {
    let svc = JujutsuService::bare();
    let other = || SetupEvent::Read(SshUrl::Other);
    for url in ["grpc://127.0.0.1:9000", "grpc+unix:///run/kiki.sock", "https://example.com/r"] {
        let action = svc.initialize("/m", url, other()).unwrap();
        assert!(matches!(action, SetupAction::ConnectTo(to) if to == url));
    }
    let refused = SetupEvent::Connected { fault: Some("connection refused".to_owned()) };
    let err = svc.initialize("/m", "grpc://127.0.0.1:9000", refused).unwrap_err();
    assert_eq!(err.code(), Code::InvalidArgument);
    assert_eq!(err.message(), "remote: connection refused");
    let err = svc.initialize("/m", "dir://relative", other()).unwrap_err();
    assert_eq!(err.code(), Code::InvalidArgument);
}

#[test]
fn two_services_share_blobs_via_grpc_remote() {
    let mut remote = Remote::default();
    let remote_url = "grpc://127.0.0.1:9000";
    let mut svc_a = bare_with("/tmp/a", remote_url);
    let written = svc_a.write_file("/tmp/a", b"grpc-shared").expect("write_file");
    push(&written, BlobKind::Blob, &mut remote);
    let mut svc_b = bare_with("/tmp/b", remote_url);
    let got = read_file(&mut svc_b, "/tmp/b", &written.id.0, &remote).expect("read_file");
    assert_eq!(got, b"grpc-shared");
}

fn left_behind(path: &str, remote: &str) -> MountMetadata {
    MountMetadata {
        working_copy_path: path.to_owned(),
        remote: remote.to_owned(),
        op_id: vec![1],
        workspace_id: b"default".to_vec(),
        root_tree_id: EMPTY_TREE.to_vec(),
    }
}

/// Bring mounts back. What stands at a path that is mounted already can be
/// unmounted. Returns what was done, and which mounts were skipped.
fn rehydrate(
    svc: &mut JujutsuService,
    found: Vec<MountMetadata>,
    mut mounted: bool,
) -> (Vec<String>, Vec<(usize, String)>) {
    let mut run = svc.rehydrate(found);
    let (mut done, mut skipped) = (Vec::new(), Vec::new());
    let mut event = SetupEvent::Begun;
    loop {
        event = match run.advance(svc, event) {
            RehydrateStep::Done => {
                assert!(run.current().is_none());
                return (done, skipped);
            }
            RehydrateStep::Skip { mount, cause } => {
                skipped.push((mount, cause));
                SetupEvent::Begun
            }
            RehydrateStep::Perform { action, .. } => match action {
                SetupAction::OpenStores => SetupEvent::Opened { fault: None },
                SetupAction::ReadUrl(url) => SetupEvent::Read(read_url(&url)),
                SetupAction::Connect(location) => {
                    if let RemoteLocation::Dir(dir) = location {
                        done.push(format!("connect {dir}"));
                    }
                    SetupEvent::Connected { fault: None }
                }
                SetupAction::Probe => SetupEvent::Probed { mounted },
                SetupAction::Unmount => {
                    done.push("unmount".to_owned());
                    mounted = false;
                    SetupEvent::Unmounted { fault: None }
                }
                SetupAction::Inspect => {
                    assert!(!mounted);
                    SetupEvent::Inspected(Inspection {
                        kind: PathKind::Directory,
                        occupied: Ok(false),
                        mounted: Ok(mounted),
                    })
                }
                SetupAction::Attach => {
                    done.push("attach".to_owned());
                    SetupEvent::Attached(TransportInfo::Fuse)
                }
                SetupAction::Register(_) => {
                    done.push("register".to_owned());
                    let store = GitContentStore::new_in_memory();
                    let ops = Store::new_in_memory(&[0xee; 32], &[]).unwrap();
                    run.keep(svc, "key", false, store, ops);
                    SetupEvent::Begun
                }
                other => panic!("unexpected {other:?}"),
            },
        };
    }
}

#[test]
fn rehydrate_with_no_mounts_is_noop() {
    let mut svc = JujutsuService::new(false, on_disk(), "/run/kiki");
    assert_eq!(rehydrate(&mut svc, vec![], false), (vec![], vec![]));
    assert!(svc.daemon_status().is_empty());
    // Without storage on disk nothing was left behind.
    let meta = left_behind("/m", "");
    let bare = JujutsuService::bare();
    let mut run = bare.rehydrate(vec![meta]);
    assert!(matches!(run.advance(&bare, SetupEvent::Begun), RehydrateStep::Done));
}

#[test]
fn rehydrate_force_unmounts_stale_fuse_mount() {
    let mount_path = "/tmp/stale";
    let mut svc = JujutsuService::new(true, on_disk(), "/run/kiki");
    let (done, skipped) = rehydrate(&mut svc, vec![left_behind(mount_path, "")], true);
    assert_eq!(done, vec!["unmount", "attach", "register"]);
    assert!(skipped.is_empty());
    let status = svc.daemon_status();
    assert_eq!(status.len(), 1, "one mount should be rehydrated");
    assert_eq!(status[0].path, mount_path);
}

#[test]
fn a_mount_that_cannot_be_rehydrated_is_skipped() {
    let mut svc = JujutsuService::new(false, on_disk(), "/run/kiki");
    let mut broken = left_behind("/tmp/b", "");
    broken.root_tree_id = vec![1; 3];
    let found = vec![
        left_behind("/tmp/a", ""),
        broken,
        left_behind("/tmp/c", "nope"),
        left_behind("/tmp/d", DIR),
    ];
    let (done, skipped) = rehydrate(&mut svc, found, false);
    assert_eq!(done, vec!["register", "connect /srv/remote", "register"]);
    assert_eq!(skipped.len(), 2);
    assert_eq!(
        skipped[0],
        (1, "decoding stored root_tree_id: expected 20-byte id, got 3 bytes".to_owned())
    );
    assert_eq!(skipped[1].0, 2);
    let paths: Vec<String> = svc.daemon_status().into_iter().map(|l| l.path).collect();
    assert_eq!(paths, vec!["/tmp/a", "/tmp/d"]);
    let checkout = svc.get_checkout_state("/tmp/d").unwrap();
    assert_eq!((checkout.op_id, checkout.workspace_id), (vec![1], b"default".to_vec()));

    // A mount can still be given up when it is to be registered.
    let mut run = svc.rehydrate(vec![left_behind("/tmp/e", "")]);
    let connected = SetupEvent::Connected { fault: None };
    let step = run.advance(&svc, connected);
    assert!(matches!(
        step,
        RehydrateStep::Perform { mount: 0, action: SetupAction::Register(None) }
    ));
    run.give_up("no stores");
    assert!(matches!(run.advance(&svc, SetupEvent::Begun), RehydrateStep::Done));
    assert_eq!(svc.daemon_status().len(), 2);
}

#[test]
fn rehydrate_reports_what_is_wrong() {
    let svc = JujutsuService::new(true, StorageConfig::InMemory, "/run/kiki");
    let mut meta = MountMetadata {
        working_copy_path: "/m".to_owned(),
        remote: "nope".to_owned(),
        op_id: Vec::new(),
        workspace_id: Vec::new(),
        root_tree_id: vec![1; 3],
    };
    let opened = || SetupEvent::Opened { fault: None };
    assert_eq!(
        svc.rehydrate_one(&meta, opened()).unwrap_err(),
        "decoding stored root_tree_id: expected 20-byte id, got 3 bytes"
    );
    meta.root_tree_id = Vec::new();
    let other = SetupEvent::Read(SshUrl::Other);
    let text = svc.rehydrate_one(&meta, other).unwrap_err();
    assert!(text.starts_with("parsing remote URL \"nope\": remote \"nope\" has no scheme"), "{text}");
    let fault = || Some("broken".to_owned());
    assert_eq!(
        svc.rehydrate_one(&meta, SetupEvent::Opened { fault: fault() }).unwrap_err(),
        "broken"
    );
    assert_eq!(
        svc.rehydrate_one(&meta, SetupEvent::Unmounted { fault: fault() }).unwrap_err(),
        "force-unmounting stale mount at /m — try `umount -f /m` manually: broken"
    );
    let probe = svc.rehydrate_one(&meta, SetupEvent::Connected { fault: None }).unwrap();
    assert!(matches!(probe, SetupAction::Probe));
    let stale = svc.rehydrate_one(&meta, SetupEvent::Probed { mounted: true }).unwrap();
    assert!(matches!(stale, SetupAction::Unmount));
    let clean = svc.rehydrate_one(&meta, SetupEvent::Probed { mounted: false }).unwrap();
    assert!(matches!(clean, SetupAction::Inspect));
}

#[test]
fn set_checkout_state_returns_error_when_metadata_persist_fails() {
    let path = "/tmp/persist-fail";
    let mut svc = JujutsuService::new(false, on_disk(), "/run/kiki");
    init_mount(&mut svc, path);
    let checkout = CheckoutState { op_id: vec![1, 2, 3], workspace_id: b"default".to_vec() };
    let fault = Some("Not a directory".to_owned());
    let err = svc.set_checkout_state(path, Some(checkout), fault).unwrap_err();
    assert_eq!(err.code(), Code::Internal);
    assert_eq!(
        err.message(),
        "persist checkout state: persisting /var/kiki/mounts/key/mount.toml: Not a directory"
    );
    let err = svc.get_checkout_state(path).unwrap_err();
    assert_eq!(err.code(), Code::FailedPrecondition);
}

#[test]
fn initialize_rejects_unparseable_remote() {
    let mut svc = JujutsuService::bare();
    let err = try_init(&mut svc, "/tmp/repo", "localhost").unwrap_err();
    assert_eq!(err.code(), Code::InvalidArgument);
    assert!(err.message().contains("no scheme"), "expected scheme error, got: {}", err.message());
    assert!(svc.daemon_status().is_empty());
}

#[test]
fn write_file_pushes_to_dir_remote() {
    let mut remote = Remote::default();
    let path = "/tmp/repo";
    let mut svc = bare_with(path, DIR);
    let written = svc.write_file(path, b"hello-remote").expect("write_file");
    push(&written, BlobKind::Blob, &mut remote);
    assert_eq!(remote.get(BlobKind::Blob, &written.id.0).unwrap(), b"hello-remote");
    let link = svc.write_symlink(path, "to/there").expect("write_symlink");
    assert_eq!(link.push.as_deref(), Some(b"to/there".as_ref()));
    let mut alone = bare_with(path, "");
    assert!(alone.write_file(path, b"hello-remote").unwrap().push.is_none());
}

#[test]
fn read_file_falls_back_to_remote_on_local_miss() {
    let mut remote = Remote::default();
    let mut svc_a = bare_with("/tmp/a", DIR);
    let written = svc_a.write_file("/tmp/a", b"shared-content").unwrap();
    push(&written, BlobKind::Blob, &mut remote);
    let mut svc_b = bare_with("/tmp/b", DIR);
    let got = read_file(&mut svc_b, "/tmp/b", &written.id.0, &remote).expect("read-through");
    assert_eq!(got, b"shared-content");
    let store_b = svc_b.mount("/tmp/b").unwrap().fs.store();
    assert!(store_b.read_file(&written.id).unwrap().is_some(), "the local store has it now");
    let missing = read_file(&mut svc_b, "/tmp/b", &[3; 20], &remote).unwrap_err();
    assert_eq!(missing.code(), Code::NotFound);
    assert_eq!(
        missing.message(),
        format!("blob {} not found locally or on remote", "03".repeat(20))
    );
    remote.put(BlobKind::Blob, &[3; 20], b"forged".to_vec());
    let forged = read_file(&mut svc_b, "/tmp/b", &[3; 20], &remote).unwrap_err();
    assert_eq!(forged.code(), Code::DataLoss);
}

#[test]
fn read_file_local_miss_no_remote_is_not_found() {
    let path = "/tmp/repo";
    let mut svc = bare_with(path, "");
    let err = read_file(&mut svc, path, &[0xff; 20], &Remote::default()).unwrap_err();
    assert_eq!(err.code(), Code::NotFound);
    assert_eq!(err.message(), format!("file {} not found", "ff".repeat(20)));
    let err = svc.read_symlink(path, &[0; 3]).unwrap_err();
    assert_eq!(err.message(), "symlink id: SymlinkId: expected 20-byte id, got 3 bytes");
}

#[test]
fn snapshot_pushes_reachable_blobs_to_remote() {
    let mut remote = Remote::default();
    let path = "/tmp/repo";
    let mut svc = bare_with(path, DIR);
    edit(&mut svc, path, |fs| {
        let (ino, _) = fs.create_file(fs.root(), "hello.txt", false).expect("create_file");
        fs.write(ino, 0, b"snapshot-content").unwrap();
    });
    let snap = snapshot(&mut svc, path, &mut remote).expect("snapshot");
    assert_eq!(snap.tree_id.len(), 20);
    assert!(remote.get(BlobKind::Tree, &snap.tree_id).is_some(), "the tree is on the remote");
    let files: Vec<_> = remote.blobs.iter().filter(|(k, _)| k.0 == "blob").collect();
    assert_eq!(files.len(), 1, "expected one file blob on remote");
    assert_eq!(files[0].1, b"snapshot-content");
}

#[test]
fn snapshot_is_idempotent_against_remote() {
    let mut remote = Remote::default();
    let path = "/tmp/repo";
    let mut svc = bare_with(path, DIR);
    edit(&mut svc, path, |fs| {
        let (ino, _) = fs.create_file(fs.root(), "f.txt", false).unwrap();
        fs.write(ino, 0, b"x").unwrap();
    });
    let first = snapshot(&mut svc, path, &mut remote).unwrap();
    let held = remote.blobs.clone();
    let second = snapshot(&mut svc, path, &mut remote).unwrap();
    assert_eq!(first.tree_id, second.tree_id);
    assert_eq!(held, remote.blobs);
}

/// Ask the filesystem again for as long as objects can be fetched.
fn with_fetches<T>(
    svc: &mut JujutsuService,
    path: &str,
    ino: u64,
    remote: &Remote,
    mut ask: impl FnMut(&mut KikiFs) -> Result<T, FsError>,
) -> Result<T, FsError> {
    loop {
        match edit(svc, path, &mut ask) {
            Err(FsError::StoreMiss) => {
                let missing = svc.mount(path).unwrap().fs.missing_object(ino);
                let (id, is_tree) = missing.ok_or(FsError::StoreMiss)?;
                let what = if is_tree { BlobKind::Tree } else { BlobKind::Blob };
                fetch(svc, path, id, what, remote).map_err(fetch_err)?;
            }
            other => return other,
        }
    }
}

fn shared_tree(name: &str, content: &[u8], remote: &mut Remote) -> Vec<u8> {
    let mut svc_a = bare_with("/tmp/a", DIR);
    edit(&mut svc_a, "/tmp/a", |fs| {
        let (ino, _) = fs.create_file(fs.root(), name, false).expect("create_file");
        fs.write(ino, 0, content).unwrap();
    });
    snapshot(&mut svc_a, "/tmp/a", remote).expect("snapshot").tree_id
}

#[test]
fn fuse_layer_reads_through_remote_on_local_miss() {
    let mut remote = Remote::default();
    let tree = shared_tree("shared.txt", b"read-through-content", &mut remote);
    let mut svc_b = bare_with("/tmp/b", DIR);
    assert_eq!(
        check_out(&mut svc_b, "/tmp/b", &tree).unwrap_err().code(),
        Code::FailedPrecondition
    );
    let tree_id = Id::try_from(tree.clone()).unwrap();
    fetch(&mut svc_b, "/tmp/b", tree_id, BlobKind::Tree, &remote).unwrap();
    check_out(&mut svc_b, "/tmp/b", &tree).expect("check_out via remote read-through");
    let root = 1;
    let ino = with_fetches(&mut svc_b, "/tmp/b", root, &remote, |fs| {
        fs.lookup(fs.root(), "shared.txt")
    })
    .expect("lookup via remote");
    let attr = with_fetches(&mut svc_b, "/tmp/b", ino, &remote, |fs| fs.getattr(ino))
        .expect("getattr via remote");
    assert_eq!(attr.size, b"read-through-content".len() as u64);
    let (data, eof) = with_fetches(&mut svc_b, "/tmp/b", ino, &remote, |fs| fs.read(ino, 0, 1024))
        .expect("read via remote");
    assert!(eof);
    assert_eq!(data, b"read-through-content");
}

#[test]
fn fuse_layer_store_miss_no_remote_is_failed_precondition() {
    let mut svc = bare_with("/tmp/repo", "");
    let err = check_out(&mut svc, "/tmp/repo", &[0xaa; 20]).unwrap_err();
    assert_eq!(err.code(), Code::FailedPrecondition);
}

#[test]
fn fuse_layer_read_through_populates_local_cache() {
    let mut remote = Remote::default();
    let tree = shared_tree("f.txt", b"cached", &mut remote);
    let tree_id = Id::try_from(tree.clone()).unwrap();
    let mut svc_b = bare_with("/tmp/b", DIR);
    fetch(&mut svc_b, "/tmp/b", tree_id, BlobKind::Tree, &remote).unwrap();
    check_out(&mut svc_b, "/tmp/b", &tree).unwrap();
    let ino = edit(&mut svc_b, "/tmp/b", |fs| fs.lookup(fs.root(), "f.txt")).unwrap();
    with_fetches(&mut svc_b, "/tmp/b", ino, &remote, |fs| fs.read(ino, 0, 1024)).unwrap();
    let store_b = svc_b.mount("/tmp/b").unwrap().fs.store();
    let entries = store_b.read_tree(&tree_id).unwrap().expect("tree in local store");
    let file_entry = entries.iter().find(|e| e.name == "f.txt").expect("file in tree");
    assert!(matches!(file_entry.kind, GitEntryKind::File { .. }));
    assert!(store_b.read_file(&file_entry.id).unwrap().is_some(), "file blob is cached");
}

fn local<T>(answer: CatalogAnswer<T>) -> T {
    match answer {
        CatalogAnswer::Local(value) => value,
        CatalogAnswer::Remote => panic!("the refs are local"),
    }
}

#[test]
fn catalog_rpcs_route_to_local_refs_when_no_remote() {
    let path = "/tmp/repo";
    let mut svc = bare_with(path, "");
    let cas = svc.cas_catalog_ref(path, "op_heads", None, Some(b"v0")).unwrap();
    assert_eq!(local(cas), CasOutcome::Updated);
    let got = svc.get_catalog_ref(path, "op_heads").unwrap();
    assert_eq!(local(got), Some(b"v0".to_vec()));
    let cas = svc.cas_catalog_ref(path, "op_heads", Some(b"WRONG"), Some(b"v1")).unwrap();
    assert_eq!(local(cas), CasOutcome::Conflict { actual: Some(b"v0".to_vec()) });
    let names = svc.list_catalog_refs(path).unwrap();
    assert_eq!(local(names), vec!["op_heads".to_string()]);
}

#[test]
fn catalog_rpcs_route_to_remote_when_configured() {
    let mut remote = Remote::default();
    let mut svc_a = bare_with("/tmp/a", DIR);
    let mut svc_b = bare_with("/tmp/b", DIR);
    let cas = svc_a.cas_catalog_ref("/tmp/a", "op_heads", None, Some(b"from-a")).unwrap();
    assert!(matches!(cas, CatalogAnswer::Remote));
    remote.refs.insert("op_heads".to_owned(), b"from-a".to_vec());
    let got = svc_b.get_catalog_ref("/tmp/b", "op_heads").unwrap();
    assert!(matches!(got, CatalogAnswer::Remote));
    assert_eq!(remote.refs.get("op_heads").unwrap(), b"from-a");
    let cas = svc_b.cas_catalog_ref("/tmp/b", "op_heads", None, Some(b"from-b")).unwrap();
    assert!(matches!(cas, CatalogAnswer::Remote));
    assert!(matches!(svc_b.list_catalog_refs("/tmp/b").unwrap(), CatalogAnswer::Remote));
}

#[test]
fn catalog_local_refs_are_per_mount() {
    let mut svc = JujutsuService::bare();
    init_mount(&mut svc, "/tmp/a");
    init_mount(&mut svc, "/tmp/b");
    svc.cas_catalog_ref("/tmp/a", "op_heads", None, Some(b"only-on-a")).unwrap();
    let got = svc.get_catalog_ref("/tmp/b", "op_heads").unwrap();
    assert_eq!(local(got), None);
}

#[test]
fn catalog_rpcs_reject_bad_name() {
    let mut svc = bare_with("/tmp/a", "");
    for bad in ["", "a/b", "..", "a\0b"] {
        let err = svc.get_catalog_ref("/tmp/a", bad).expect_err(bad);
        assert_eq!(err.code(), Code::InvalidArgument);
        let err = svc.cas_catalog_ref("/tmp/a", bad, None, Some(b"x")).expect_err(bad);
        assert_eq!(err.code(), Code::InvalidArgument);
        assert!(err.message().starts_with("ref name: ref name "), "{}", err.message());
    }
}

#[test]
fn catalog_rpcs_unknown_mount_is_not_found() {
    let svc = JujutsuService::bare();
    let err = svc.get_catalog_ref("/never/initialized", "op_heads").unwrap_err();
    assert_eq!(err.code(), Code::NotFound);
    let err = svc.list_catalog_refs("/never/initialized").unwrap_err();
    assert_eq!(err.code(), Code::NotFound);
}

#[test]
fn write_view_rejects_mismatched_id_bytes() {
    let path = "/tmp/m106badview";
    let mut svc = bare_with(path, "");
    let (actual_id, bytes) = make_view_blob();
    let found = Rehashed::Canonical(actual_id);
    let err = svc.write_view(path, &[0x55; 64], &bytes, &found).unwrap_err();
    assert_eq!(err.code(), Code::InvalidArgument);
}

#[test]
fn read_view_rejects_corrupt_remote_blob() {
    let path = "/tmp/m106badviewremote";
    let mut svc = bare_with(path, DIR);
    let (actual_id, bytes) = make_view_blob();
    assert!(matches!(svc.read_view(path, &[0x66; 64]).unwrap(), LogFound::Elsewhere));
    let found = Rehashed::Canonical(actual_id);
    let err = svc.keep_view(path, &[0x66; 64], &bytes, &found).unwrap_err();
    assert_eq!(err.code(), Code::DataLoss);
}

#[test]
fn write_operation_rejects_mismatched_id_bytes() {
    let path = "/tmp/m106badop";
    let mut svc = bare_with(path, "");
    let (actual_id, bytes) = make_operation_blob();
    let found = Rehashed::Canonical(actual_id);
    let err = svc.write_operation(path, &[0x77; 64], &bytes, &found).unwrap_err();
    assert_eq!(err.code(), Code::InvalidArgument);
}

#[test]
fn read_operation_rejects_corrupt_remote_blob() {
    let path = "/tmp/m106badopremote";
    let mut svc = bare_with(path, DIR);
    let (actual_id, bytes) = make_operation_blob();
    assert!(matches!(svc.read_operation(path, &[0x88; 64]).unwrap(), LogFound::Elsewhere));
    let found = Rehashed::Canonical(actual_id);
    let err = svc.keep_operation(path, &[0x88; 64], &bytes, &found).unwrap_err();
    assert_eq!(err.code(), Code::DataLoss);
    assert!(err.message().starts_with("remote operation blob: operation id/bytes mismatch"));
}

#[test]
fn write_view_pushes_to_dir_remote() {
    let path = "/tmp/m106a";
    let mut svc = bare_with(path, DIR);
    let (view_id, view_data) = make_view_blob();
    let found = Rehashed::Canonical(view_id.clone());
    let stored = svc.write_view(path, &view_id, &view_data, &found).expect("write_view");
    assert!(stored.push);
    match svc.read_view(path, &view_id).unwrap() {
        LogFound::Here(data) => assert_eq!(data, view_data),
        other => panic!("unexpected {other:?}"),
    }
}

#[test]
fn read_view_falls_back_to_remote_on_local_miss() {
    let mut svc_a = bare_with("/tmp/m106b_a", DIR);
    let (view_id, view_data) = make_view_blob();
    let found = Rehashed::Canonical(view_id.clone());
    svc_a.write_view("/tmp/m106b_a", &view_id, &view_data, &found).expect("write_view");
    let mut svc_b = bare_with("/tmp/m106b_b", DIR);
    let path = "/tmp/m106b_b";
    assert!(matches!(svc_b.read_view(path, &view_id).unwrap(), LogFound::Elsewhere));
    svc_b.keep_view(path, &view_id, &view_data, &found).expect("the blob has the id");
    match svc_b.read_view(path, &view_id).unwrap() {
        LogFound::Here(data) => assert_eq!(data, view_data),
        other => panic!("unexpected {other:?}"),
    }
}

#[test]
fn read_view_no_remote_miss_returns_not_found() {
    let svc = bare_with("/tmp/m106c", "");
    assert!(matches!(svc.read_view("/tmp/m106c", &[0xee; 64]).unwrap(), LogFound::Nowhere));
    let err = svc.read_view("/tmp/m106c", &[0xee; 63]).unwrap_err();
    assert_eq!(err.message(), "view_id must be 64 bytes, got 63");
}

#[test]
fn write_operation_pushes_and_read_through_works() {
    let mut svc_a = bare_with("/tmp/m106d_a", DIR);
    let (op_id, op_data) = make_operation_blob();
    let found = Rehashed::Canonical(op_id.clone());
    let stored =
        svc_a.write_operation("/tmp/m106d_a", &op_id, &op_data, &found).expect("write_operation");
    assert!(stored.push);
    let path = "/tmp/m106d_b";
    let mut svc_b = bare_with(path, DIR);
    svc_b.keep_operation(path, &op_id, &op_data, &found).expect("keep");
    match svc_b.read_operation(path, &op_id).unwrap() {
        LogFound::Here(data) => assert_eq!(data, op_data),
        other => panic!("unexpected {other:?}"),
    }
}

#[test]
fn resolve_operation_id_prefix_works() {
    let path = "/tmp/m106e";
    let mut svc = bare_with(path, "");
    let (op_id, op_data) = make_operation_blob();
    let found = Rehashed::Canonical(op_id.clone());
    svc.write_operation(path, &op_id, &op_data, &found).expect("write_operation");
    let prefix = hex_encode(&op_id[..4]);
    let got = svc.resolve_operation_id_prefix(path, &prefix).expect("resolve prefix");
    assert_eq!(got.resolution, 1);
    assert_eq!(got.full_id, op_id);
    let got = svc.resolve_operation_id_prefix(path, "ff00").expect("resolve prefix (miss)");
    assert_eq!(got.resolution, 0);
}

#[test]
fn git_detect_bookmark_changes() {
    let path = "/tmp/bookmark_detect";
    let mut svc = bare_with(path, "");
    let commit = make_commit(vec![Id(ROOT_COMMIT)], "test");
    let commit_id = svc.write_commit(path, Some(&commit), None).unwrap().id.to_vec();
    let (view_id, view_data) = make_view_blob();
    let found = Rehashed::Canonical(view_id.clone());
    svc.write_view(path, &view_id, &view_data, &found).expect("write_view");
    let exported = bookmarks_from_view_bytes(&view_data);
    assert!(exported.is_empty());
    svc.bookmarks_exported(path, exported);

    let none: Vec<Bookmark> = Vec::new();
    let reply = svc.git_detect_head_change(path, None, &none).unwrap();
    assert!(reply.bookmark_changes.is_empty(), "no changes before external modification");

    let outside = vec![("external-branch".to_string(), commit_id.clone())];
    let reply = svc.git_detect_head_change(path, None, &outside).unwrap();
    assert_eq!(reply.bookmark_changes.len(), 1);
    assert_eq!(reply.bookmark_changes[0].0, "external-branch");
    assert_eq!(reply.bookmark_changes[0].1, commit_id);

    svc.bookmarks_exported(path, outside.clone());
    let reply = svc.git_detect_head_change(path, None, &outside).unwrap();
    assert!(reply.bookmark_changes.is_empty(), "no changes when refs match exported bookmarks");

    let reply = svc.git_detect_head_change(path, None, &none).unwrap();
    assert_eq!(reply.bookmark_changes.len(), 1);
    assert_eq!(reply.bookmark_changes[0].0, "external-branch");
    assert!(reply.bookmark_changes[0].1.is_empty(), "deleted bookmark has an empty commit_id");

    let svc2 = bare_with("/tmp/bookmark_detect_2", "");
    let reply = svc2.git_detect_head_change("/tmp/bookmark_detect_2", None, &outside).unwrap();
    assert!(reply.bookmark_changes.is_empty(), "no detection before the first export");
}

#[test]
fn external_heads_are_reported() {
    let path = "/tmp/heads";
    let mut svc = bare_with(path, "");
    let head = |svc: &JujutsuService, current: Option<Vec<u8>>| {
        svc.git_detect_head_change(path, current, &Vec::new()).unwrap().new_head_commit_id
    };
    assert!(head(&svc, Some(vec![1; 20])).is_empty(), "nothing was exported yet");
    svc.head_exported(path, vec![1; 20]);
    assert!(head(&svc, Some(vec![1; 20])).is_empty());
    assert!(head(&svc, None).is_empty());
    assert_eq!(head(&svc, Some(vec![2; 20])), vec![2; 20]);
    let taken = svc.snapshot(path).unwrap();
    let reply = svc
        .finish_snapshot(path, &taken.root, &taken.exported_head, None, Some(vec![3; 20]))
        .unwrap();
    assert_eq!(reply.external_git_head, vec![3; 20]);
}

#[test]
fn failed_saves_keep_the_old_root() {
    let path = "/m";
    let mut svc = JujutsuService::new(false, on_disk(), "/run/kiki");
    init_mount(&mut svc, path);
    let before = svc.get_tree_state(path).unwrap();
    edit(&mut svc, path, |fs| fs.create_file(fs.root(), "f", false).map(|_| ())).unwrap();
    let taken = svc.snapshot(path).unwrap();
    let request = svc.root_to_save(path, &taken.root.0).expect("kept on disk");
    assert_eq!(request.metadata.root_tree_id, taken.root.0);
    let err = svc
        .finish_snapshot(path, &taken.root, &taken.exported_head, Some("full".to_owned()), None)
        .unwrap_err();
    assert_eq!(err.code(), Code::Internal);
    assert!(err.message().starts_with("persist snapshot metadata: persisting "));
    assert_eq!(svc.get_tree_state(path).unwrap(), before);
    let gone = svc
        .finish_snapshot("/elsewhere", &taken.root, &taken.exported_head, None, None)
        .unwrap_err();
    assert_eq!(gone.message(), "mount at /elsewhere disappeared during snapshot");
    let other = check_out_status(&taken.root, &FsError::StoreError("bad".to_owned()));
    assert_eq!(other.message(), "check_out failed: store error: bad");
}

#[test]
fn trees_are_written_and_read() {
    let path = "/m";
    let mut svc = bare_with(path, DIR);
    let err = svc.write_tree(path, None).unwrap_err();
    assert_eq!(err.code(), Code::InvalidArgument);
    assert_eq!(err.message(), "WriteTreeReq.tree is required");
    let entry = |name: &str| GitTreeEntry {
        name: name.to_owned(),
        kind: GitEntryKind::File { executable: true },
        id: Id([9; 20]),
    };
    let err = svc.write_tree(path, Some(&vec![entry("a\0b")])).unwrap_err();
    assert_eq!(err.code(), Code::Internal);
    assert!(err.message().starts_with("write_tree: "));
    let stored = svc.write_tree(path, Some(&vec![entry("b"), entry("a")])).unwrap();
    assert!(stored.push.is_some());
    match svc.read_tree(path, &stored.id.0).unwrap() {
        Found::Here(entries) => {
            let names: Vec<_> = entries.iter().map(|e| e.name.as_str()).collect();
            assert_eq!(names, vec!["a", "b"]);
        }
        Found::Elsewhere(_) => panic!("the tree is here"),
    }
    match svc.read_tree(path, &[4; 20]).unwrap() {
        Found::Elsewhere(id) => assert_eq!(id, Id([4; 20])),
        Found::Here(_) => panic!("no such tree"),
    }
    let err = svc.read_file(path, &stored.id.0).unwrap_err();
    assert_eq!(err.message(), "read_file: object is not a blob");
}
