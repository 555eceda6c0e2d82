use kiki::git_store::{GitContentStore, GitEntryKind, GitTreeEntry};
use kiki::remote::CasOutcome;
use kiki::store::Store;
use kiki::ty::Id;
use kiki::vfs::inode::ROOT_INODE;
use kiki::vfs::kiki_fs::JjKikiFs;
use kiki::vfs::root_fs::{
    attr_to_global, slot_of, to_global, to_local, RootFs, WorkspaceHandle, WorkspaceRegistration,
    WorkspaceState, SLOT_LIMIT,
};
use kiki::vfs::types::{Attr, FileKind, FsError};

fn test_store() -> GitContentStore {
    GitContentStore::new_in_memory()
}

fn test_refs() -> Store {
    Store::new_in_memory(&[0xee; 32], &[]).expect("in-memory store")
}

fn ws_reg(
    name: &str,
    slot: u32,
    state: WorkspaceState,
    root_tree_id: Vec<u8>,
    workspace_id: Vec<u8>,
) -> WorkspaceRegistration {
    WorkspaceRegistration {
        name: name.into(),
        slot,
        state,
        root_tree_id,
        op_id: vec![],
        workspace_id,
    }
}

#[test]
fn slot_zero_root_inode() {
    assert_eq!(slot_of(ROOT_INODE), 0);
    assert_eq!(to_local(ROOT_INODE), ROOT_INODE);
}

#[test]
fn to_global_to_local_round_trip() {
    let slot = 42u32;
    let local = 1234u64;
    let global = to_global(slot, local);
    assert_eq!(slot_of(global), slot);
    assert_eq!(to_local(global), local);
}

#[test]
fn slot_zero_synthetic_inodes_stay_in_slot_zero() {
    for ino in 1..1024u64 {
        assert_eq!(slot_of(ino), 0, "inode {ino} should be in slot 0");
    }
}

#[test]
fn workspace_root_inode_is_in_correct_slot() {
    let slot = 1u32;
    let global = to_global(slot, ROOT_INODE);
    assert_eq!(slot_of(global), 1);
    assert_eq!(to_local(global), ROOT_INODE);
}

#[test]
fn max_slot_round_trips() {
    // 24-bit slot max = (1 << 24) - 1 = 16_777_215
    let max_slot = (1u32 << 24) - 1;
    let local = (1u64 << 40) - 1; // max local inode
    let global = to_global(max_slot, local);
    assert_eq!(slot_of(global), max_slot);
    assert_eq!(to_local(global), local);
}

#[test]
fn empty_root_readdir() {
    let mut fs = RootFs::new(
        "/mnt/kiki".to_owned(),
        "/tmp/storage".to_owned(),
        1,
    );
    let entries = fs.synthetic_readdir(ROOT_INODE).unwrap();
    assert!(entries.is_empty());
}

#[test]
fn register_repo_shows_in_readdir() {
    let mut fs = RootFs::new(
        "/mnt/kiki".to_owned(),
        "/tmp/storage".to_owned(),
        1,
    );
    let store = test_store();
    fs.register_repo(
        "monorepo".into(),
        "ssh://server/mono".into(),
        store, test_refs(), false);
    let entries = fs.synthetic_readdir(ROOT_INODE).unwrap();
    assert_eq!(entries.len(), 1);
    assert_eq!(entries[0].name, "monorepo");
    assert_eq!(entries[0].kind, FileKind::Directory);
    // Repo dir inode should be in slot 0.
    assert_eq!(slot_of(entries[0].inode), 0);
}

#[test]
fn register_workspace_active_shows_in_repo_dir() {
    let mut fs = RootFs::new(
        "/mnt/kiki".to_owned(),
        "/tmp/storage".to_owned(),
        1,
    );
    let store = test_store();
    fs.register_repo("repo".into(), "dir:///tmp/r".into(), store, test_refs(), false);
    fs.register_workspace(
        "repo",
        ws_reg("default", 1, WorkspaceState::Active, vec![0; 20], b"default".to_vec()),
    )
    .unwrap();

    // Lookup repo dir.
    let repo_ino = fs.synthetic_lookup(ROOT_INODE, "repo").unwrap();
    let entries = fs.synthetic_readdir(repo_ino).unwrap();
    assert_eq!(entries.len(), 1);
    assert_eq!(entries[0].name, "default");
    // Workspace root inode should be to_global(slot=1, ROOT_INODE).
    assert_eq!(entries[0].inode, to_global(1, ROOT_INODE));
    assert_eq!(slot_of(entries[0].inode), 1);
}

#[test]
fn pending_workspace_hidden_from_readdir_and_lookup() {
    let mut fs = RootFs::new(
        "/mnt/kiki".to_owned(),
        "/tmp/storage".to_owned(),
        1,
    );
    let store = test_store();
    fs.register_repo("repo".into(), "dir:///tmp/r".into(), store, test_refs(), false);
    fs.register_workspace(
        "repo",
        ws_reg("wip", 1, WorkspaceState::Pending, vec![0; 20], vec![]),
    )
    .unwrap();

    let repo_ino = fs.synthetic_lookup(ROOT_INODE, "repo").unwrap();
    let entries = fs.synthetic_readdir(repo_ino).unwrap();
    assert!(entries.is_empty(), "pending workspace should be hidden");

    // Lookup should also fail.
    let result = fs.synthetic_lookup(repo_ino, "wip");
    assert_eq!(result, Err(FsError::NotFound));
}

#[test]
fn finalize_workspace_makes_visible() {
    let mut fs = RootFs::new(
        "/mnt/kiki".to_owned(),
        "/tmp/storage".to_owned(),
        1,
    );
    let store = test_store();
    fs.register_repo("repo".into(), "dir:///tmp/r".into(), store, test_refs(), false);
    fs.register_workspace(
        "repo",
        ws_reg("wip", 1, WorkspaceState::Pending, vec![0; 20], vec![]),
    )
    .unwrap();

    // Finalize.
    fs.finalize_workspace("repo", "wip").unwrap();

    let repo_ino = fs.synthetic_lookup(ROOT_INODE, "repo").unwrap();
    let entries = fs.synthetic_readdir(repo_ino).unwrap();
    assert_eq!(entries.len(), 1);
    assert_eq!(entries[0].name, "wip");
}

#[test]
fn remove_workspace_retires_slot() {
    let mut fs = RootFs::new(
        "/mnt/kiki".to_owned(),
        "/tmp/storage".to_owned(),
        1,
    );
    let store = test_store();
    fs.register_repo("repo".into(), "dir:///tmp/r".into(), store, test_refs(), false);
    fs.register_workspace(
        "repo",
        ws_reg("temp", 1, WorkspaceState::Active, vec![0; 20], vec![]),
    )
    .unwrap();

    let deleted_slot = fs.remove_workspace("repo", "temp").unwrap();
    assert_eq!(deleted_slot, 1);

    // Repo dir should be empty now.
    let repo_ino = fs.synthetic_lookup(ROOT_INODE, "repo").unwrap();
    let entries = fs.synthetic_readdir(repo_ino).unwrap();
    assert!(entries.is_empty());

    // Next slot should be higher (monotonic, never reused).
    let next = fs.alloc_slot();
    assert!(next > deleted_slot, "slot must not be reused");
}

#[test]
fn multiple_repos_and_workspaces() {
    let mut fs = RootFs::new(
        "/mnt/kiki".to_owned(),
        "/tmp/storage".to_owned(),
        1,
    );
    let store1 = test_store();
    let store2 = test_store();
    fs.register_repo("alpha".into(), "dir:///a".into(), store1, test_refs(), false);
    fs.register_repo("beta".into(), "dir:///b".into(), store2, test_refs(), false);

    // Workspaces in alpha.
    fs.register_workspace(
        "alpha",
        ws_reg("default", 1, WorkspaceState::Active, vec![0; 20], b"default".to_vec()),
    ).unwrap();
    fs.register_workspace(
        "alpha",
        ws_reg("fix", 2, WorkspaceState::Active, vec![0; 20], b"fix".to_vec()),
    ).unwrap();

    // Workspace in beta.
    fs.register_workspace(
        "beta",
        ws_reg("default", 3, WorkspaceState::Active, vec![0; 20], b"default".to_vec()),
    ).unwrap();

    // Root has two repos.
    let root_entries = fs.synthetic_readdir(ROOT_INODE).unwrap();
    assert_eq!(root_entries.len(), 2);
    let names: Vec<&str> = root_entries.iter().map(|e| e.name.as_str()).collect();
    assert!(names.contains(&"alpha"));
    assert!(names.contains(&"beta"));

    // Alpha has two workspaces.
    let alpha_ino = fs.synthetic_lookup(ROOT_INODE, "alpha").unwrap();
    let alpha_ws = fs.synthetic_readdir(alpha_ino).unwrap();
    assert_eq!(alpha_ws.len(), 2);

    // Beta has one workspace.
    let beta_ino = fs.synthetic_lookup(ROOT_INODE, "beta").unwrap();
    let beta_ws = fs.synthetic_readdir(beta_ino).unwrap();
    assert_eq!(beta_ws.len(), 1);

    // All workspace inodes are in different slots.
    let mut slots: Vec<u32> = vec![];
    for e in alpha_ws.iter().chain(beta_ws.iter()) {
        let s = slot_of(e.inode);
        assert!(!slots.contains(&s), "slot {s} already used");
        slots.push(s);
    }
}

#[test]
fn duplicate_repo_register_is_noop() {
    let mut fs = RootFs::new(
        "/mnt/kiki".to_owned(),
        "/tmp/storage".to_owned(),
        1,
    );
    let store = test_store();
    fs.register_repo("repo".into(), "url1".into(), store, test_refs(), false);
    fs.register_repo("repo".into(), "url2".into(), test_store(), test_refs(), false);

    let entries = fs.synthetic_readdir(ROOT_INODE).unwrap();
    assert_eq!(entries.len(), 1, "duplicate register should be noop");
}

#[test]
fn duplicate_workspace_returns_already_exists() {
    let mut fs = RootFs::new(
        "/mnt/kiki".to_owned(),
        "/tmp/storage".to_owned(),
        1,
    );
    let store = test_store();
    fs.register_repo("repo".into(), "url".into(), store, test_refs(), false);
    fs.register_workspace(
        "repo",
        ws_reg("ws", 1, WorkspaceState::Active, vec![0; 20], vec![]),
    ).unwrap();
    let err = fs.register_workspace(
        "repo",
        ws_reg("ws", 2, WorkspaceState::Active, vec![0; 20], vec![]),
    );
    assert_eq!(err, Err(FsError::AlreadyExists));
}

#[test]
fn workspace_in_nonexistent_repo_returns_not_found() {
    let mut fs = RootFs::new(
        "/mnt/kiki".to_owned(),
        "/tmp/storage".to_owned(),
        1,
    );
    let err = fs.register_workspace(
        "nope",
        ws_reg("ws", 1, WorkspaceState::Active, vec![0; 20], vec![]),
    );
    assert_eq!(err, Err(FsError::NotFound));
}

#[test]
fn synthetic_getattr_root() {
    let mut fs = RootFs::new(
        "/mnt/kiki".to_owned(),
        "/tmp/storage".to_owned(),
        1,
    );
    let attr = fs.synthetic_getattr(ROOT_INODE).unwrap();
    assert_eq!(attr.inode, ROOT_INODE);
    assert_eq!(attr.kind, FileKind::Directory);
}

#[test]
fn synthetic_getattr_repo_dir() {
    let mut fs = RootFs::new(
        "/mnt/kiki".to_owned(),
        "/tmp/storage".to_owned(),
        1,
    );
    let store = test_store();
    fs.register_repo("repo".into(), "url".into(), store, test_refs(), false);
    let ino = fs.synthetic_lookup(ROOT_INODE, "repo").unwrap();
    let attr = fs.synthetic_getattr(ino).unwrap();
    assert_eq!(attr.inode, ino);
    assert_eq!(attr.kind, FileKind::Directory);
}

#[test]
fn synthetic_lookup_not_found() {
    let mut fs = RootFs::new(
        "/mnt/kiki".to_owned(),
        "/tmp/storage".to_owned(),
        1,
    );
    assert_eq!(
        fs.synthetic_lookup(ROOT_INODE, "nope"),
        Err(FsError::NotFound)
    );
}

#[test]
fn alloc_slot_is_monotonic() {
    let mut fs = RootFs::new(
        "/mnt/kiki".to_owned(),
        "/tmp/storage".to_owned(),
        1,
    );
    let s1 = fs.alloc_slot();
    let s2 = fs.alloc_slot();
    let s3 = fs.alloc_slot();
    assert_eq!(s1, 1);
    assert_eq!(s2, 2);
    assert_eq!(s3, 3);
}

// ── JjKikiFs async trait tests ──────────────────────────────

#[test]
fn jjkikifs_lookup_root_not_found() {
    let mut fs = RootFs::new(
        "/mnt/kiki".to_owned(),
        "/tmp/storage".to_owned(),
        1,
    );
    let result = fs.lookup(ROOT_INODE, "nonexistent");
    assert_eq!(result, Err(FsError::NotFound));
}

#[test]
fn jjkikifs_getattr_root() {
    let mut fs = RootFs::new(
        "/mnt/kiki".to_owned(),
        "/tmp/storage".to_owned(),
        1,
    );
    let attr = fs.getattr(ROOT_INODE).unwrap();
    assert_eq!(attr.inode, ROOT_INODE);
    assert_eq!(attr.kind, FileKind::Directory);
}

#[test]
fn jjkikifs_readdir_root_with_repos() {
    let mut fs = RootFs::new(
        "/mnt/kiki".to_owned(),
        "/tmp/storage".to_owned(),
        1,
    );
    let store = test_store();
    fs.register_repo("myrepo".into(), "url".into(), store, test_refs(), false);
    let entries = fs.readdir(ROOT_INODE).unwrap();
    assert_eq!(entries.len(), 1);
    assert_eq!(entries[0].name, "myrepo");
}

#[test]
fn jjkikifs_read_synthetic_returns_not_a_file() {
    let mut fs = RootFs::new(
        "/mnt/kiki".to_owned(),
        "/tmp/storage".to_owned(),
        1,
    );
    assert_eq!(
        fs.read(ROOT_INODE, 0, 100),
        Err(FsError::NotAFile)
    );
}

#[test]
fn jjkikifs_readlink_synthetic_returns_not_a_symlink() {
    let mut fs = RootFs::new(
        "/mnt/kiki".to_owned(),
        "/tmp/storage".to_owned(),
        1,
    );
    assert_eq!(
        fs.readlink(ROOT_INODE),
        Err(FsError::NotASymlink)
    );
}

#[test]
fn jjkikifs_mutation_on_synthetic_returns_permission_denied() {
    let mut fs = RootFs::new(
        "/mnt/kiki".to_owned(),
        "/tmp/storage".to_owned(),
        1,
    );

    // create_file
    assert_eq!(
        fs.create_file(ROOT_INODE, "foo", false).unwrap_err(),
        FsError::PermissionDenied,
    );
    // mkdir
    assert_eq!(
        fs.mkdir(ROOT_INODE, "bar", None).unwrap_err(),
        FsError::PermissionDenied,
    );
    // symlink
    assert_eq!(
        fs.symlink(ROOT_INODE, "lnk", "/target").unwrap_err(),
        FsError::PermissionDenied,
    );
    // write
    assert_eq!(
        fs.write(ROOT_INODE, 0, b"data"),
        Err(FsError::PermissionDenied),
    );
    // setattr
    assert_eq!(
        fs.setattr(ROOT_INODE, Some(0), None).unwrap_err(),
        FsError::PermissionDenied,
    );
    // remove
    assert_eq!(
        fs.remove(ROOT_INODE, "x"),
        Err(FsError::PermissionDenied),
    );
    // rename (within synthetic)
    assert_eq!(
        fs.rename(ROOT_INODE, "a", ROOT_INODE, "b"),
        Err(FsError::PermissionDenied),
    );
}

#[test]
fn jjkikifs_cross_workspace_rename_returns_cross_device() {
    let mut fs = RootFs::new(
        "/mnt/kiki".to_owned(),
        "/tmp/storage".to_owned(),
        1,
    );
    let src_ino = to_global(1, 100);
    let dst_ino = to_global(2, 200);
    // This will fail with CrossDevice before trying to hydrate
    // (different slots).
    assert_eq!(
        fs.rename(src_ino, "a", dst_ino, "b"),
        Err(FsError::CrossDevice),
    );
}

#[test]
fn jjkikifs_check_out_and_snapshot_return_permission_denied() {
    let mut fs = RootFs::new(
        "/mnt/kiki".to_owned(),
        "/tmp/storage".to_owned(),
        1,
    );
    assert_eq!(
        fs.check_out(Id([0; 20]), 0),
        Err(FsError::PermissionDenied),
    );
    assert_eq!(fs.snapshot(), Err(FsError::PermissionDenied));
}

// ── Integration test with real KikiFs ───────────────────────

#[test]
fn workspace_delegation_through_root_fs() {

    let store = test_store();
    let empty_tree = store.empty_tree_id();

    let mut fs = RootFs::new(
        "/mnt/kiki".to_owned(),
        "/tmp/storage".to_owned(),
        1,
    );
    fs.register_repo("testrepo".into(), "dir:///test".into(), store, test_refs(), false);
    fs.register_workspace(
        "testrepo",
        ws_reg("default", 1, WorkspaceState::Active, empty_tree.0.to_vec(), b"default".to_vec()),
    )
    .unwrap();

    // Lookup repo.
    let repo_ino = fs.lookup(ROOT_INODE, "testrepo").unwrap();
    assert_eq!(slot_of(repo_ino), 0);

    // Lookup workspace -> workspace root inode.
    let ws_root = fs.lookup(repo_ino, "default").unwrap();
    assert_eq!(slot_of(ws_root), 1);
    assert_eq!(to_local(ws_root), ROOT_INODE);

    // getattr on workspace root.
    let attr = fs.getattr(ws_root).unwrap();
    assert_eq!(attr.kind, FileKind::Directory);
    assert_eq!(slot_of(attr.inode), 1);

    // readdir on workspace root — empty tree should have .git
    // (synthesized by KikiFs).
    let entries = fs.readdir(ws_root).unwrap();
    let names: Vec<&str> = entries.iter().map(|e| e.name.as_str()).collect();
    assert!(names.contains(&".git"), "expected .git in workspace root, got: {names:?}");
    // All entry inodes should be in slot 1.
    for e in &entries {
        assert_eq!(slot_of(e.inode), 1, "entry {} should be in slot 1", e.name);
    }
}

#[test]
fn lazy_hydration_deferred() {

    let store = test_store();
    let empty_tree = store.empty_tree_id();

    let mut root_fs = RootFs::new(
        "/mnt/kiki".to_owned(),
        "/tmp/storage".to_owned(),
        1,
    );
    root_fs.register_repo("repo".into(), "dir:///test".into(), store, test_refs(), false);
    root_fs.register_workspace(
        "repo",
        ws_reg("ws1", 1, WorkspaceState::Active, empty_tree.0.to_vec(), b"ws1".to_vec()),
    )
    .unwrap();

    // Before any workspace access, live map should be empty.
    assert!(!root_fs.is_live(1), "no workspace should be hydrated yet");

    // readdir on repo dir shows workspace names (no hydration needed).
    let repo_ino = root_fs.lookup(ROOT_INODE, "repo").unwrap();
    let entries = root_fs.readdir(repo_ino).unwrap();
    assert_eq!(entries.len(), 1);
    assert_eq!(entries[0].name, "ws1");
    assert!(!root_fs.is_live(1), "readdir on repo dir should not hydrate");

    // Now access the workspace (triggers hydration).
    let ws_root = root_fs.lookup(repo_ino, "ws1").unwrap();
    let _entries = root_fs.readdir(ws_root).unwrap();
    assert!(root_fs.is_live(1), "workspace should be hydrated now");
}

#[test]
fn inode_encoding_round_trip() {
    for slot in [0u32, 1, 77, 65_536, (1 << 24) - 1] {
        for local in [0u64, 1, 99, 1 << 32, (1 << 40) - 1] {
            let global = to_global(slot, local);
            assert_eq!(slot_of(global), slot);
            assert_eq!(to_local(global), local);
        }
    }
}

#[test]
fn different_slots_produce_different_globals() {
    for (slot_a, slot_b) in [(1u32, 2u32), (5, 500), ((1 << 24) - 1, 1)] {
        for local in [1u64, 12, (1 << 40) - 1] {
            assert_ne!(to_global(slot_a, local), to_global(slot_b, local));
        }
    }
}

#[test]
fn attributes_get_the_slot() {
    let attr = Attr {
        inode: 7,
        size: 3,
        kind: FileKind::Regular,
        executable: true,
        mtime_secs: 12,
    };
    let shown = attr_to_global(3, attr);
    assert_eq!(shown.inode, (3 << 40) + 7);
    assert_eq!((shown.size, shown.executable, shown.mtime_secs), (3, true, 12));
}

#[test]
fn edits_go_to_the_workspace() {
    let mut fs = RootFs::new("/mnt/kiki".to_owned(), "/tmp/storage".to_owned(), 1);
    fs.register_repo("r".into(), "url".into(), test_store(), test_refs(), false);
    for (name, slot) in [("a", 1), ("b", 2)] {
        fs.register_workspace("r", ws_reg(name, slot, WorkspaceState::Active, vec![], vec![]))
            .unwrap();
    }
    assert_eq!(fs.next_slot(), 3);
    let a = to_global(1, ROOT_INODE);
    let b = to_global(2, ROOT_INODE);
    let (file, _) = fs.create_file(a, "f", false).unwrap();
    assert_eq!(slot_of(file), 1);
    fs.write(file, 0, b"text").unwrap();
    assert_eq!(fs.read(file, 0, 10).unwrap(), (b"text".to_vec(), true));
    assert_eq!(fs.lookup(b, "f"), Err(FsError::NotFound), "workspaces are apart");
    let root = fs.snapshot_workspace(1).unwrap();
    fs.check_out_workspace(2, root, 0).unwrap();
    let seen = fs.lookup(b, "f").unwrap();
    assert_eq!(fs.read(seen, 0, 10).unwrap(), (b"text".to_vec(), true));
    let listed = fs.list_repos();
    assert_eq!(
        listed,
        vec![("r".to_owned(), "url".to_owned(), vec!["a".to_owned(), "b".to_owned()])]
    );
}

#[test]
fn checkout_state_is_kept_per_workspace() {
    let mut fs = RootFs::new("/mnt/kiki".to_owned(), "/tmp/storage".to_owned(), 1);
    fs.register_repo("r".into(), "url".into(), test_store(), test_refs(), false);
    fs.register_workspace("r", ws_reg("a", 1, WorkspaceState::Active, vec![], vec![])).unwrap();
    let config = fs.set_checkout_state("r", "a", vec![1; 64], b"a".to_vec()).unwrap();
    assert_eq!((config.slot, config.op_id, config.workspace_id), (1, vec![1; 64], b"a".to_vec()));
    let config = fs.set_root_tree_id("r", "a", vec![9; 20]).unwrap();
    assert_eq!((config.op_id, config.root_tree_id), (vec![1; 64], vec![9; 20]));
    assert_eq!(
        fs.set_root_tree_id("r", "nope", vec![9; 20]).unwrap_err(),
        FsError::NotFound
    );
}

#[test]
fn get_workspace_finds_only_active_workspaces() {
    let mut fs = RootFs::new("/mnt/kiki".to_owned(), "/tmp/storage".to_owned(), 1);
    fs.register_repo("repo".into(), "dir:///tmp/r".into(), test_store(), test_refs(), false);
    fs.register_workspace(
        "repo",
        ws_reg("wip", 7, WorkspaceState::Pending, vec![], vec![]),
    )
    .unwrap();

    assert!(matches!(fs.get_workspace("repo", "wip"), Err(FsError::NotFound)));
    assert!(matches!(fs.get_workspace("repo", "other"), Err(FsError::NotFound)));
    assert!(matches!(fs.get_workspace("other", "wip"), Err(FsError::NotFound)));

    fs.finalize_workspace("repo", "wip").unwrap();
    assert!(matches!(fs.get_workspace("repo", "wip"), Ok(WorkspaceHandle { slot: 7, connected: false })));
    // A second call finds the same workspace again.
    assert!(matches!(fs.get_workspace("repo", "wip"), Ok(WorkspaceHandle { slot: 7, connected: false })));

    // What the call made ready is served under the slot.
    let file = fs.create_file(to_global(7, ROOT_INODE), "a.txt", false).unwrap();
    assert_eq!(slot_of(file.0), 7);
    fs.remove_workspace("repo", "wip").unwrap();
    assert!(matches!(fs.get_workspace("repo", "wip"), Err(FsError::NotFound)));
}

#[test]
fn repo_store_is_the_registered_one() {
    let mut store = test_store();
    let id: Id = store.write_file(b"kept").unwrap();
    let mut fs = RootFs::new("/mnt/kiki".to_owned(), "/tmp/storage".to_owned(), 1);
    fs.register_repo("repo".into(), "dir:///tmp/r".into(), store, test_refs(), false);

    let found = fs.repo_store("repo").unwrap();
    assert_eq!(found.read_file(&id).unwrap(), Some(b"kept".to_vec()));
    assert!(fs.repo_store("other").is_none());
}

#[test]
fn directories_show_what_is_registered() {
    let mut fs = RootFs::new("/mnt/kiki".to_owned(), "/tmp/storage".to_owned(), 1);
    for name in ["zeta", "alpha"] {
        fs.register_repo(name.into(), "url".into(), test_store(), test_refs(), false);
    }
    let listed = fs.readdir(ROOT_INODE).unwrap();
    let names: Vec<_> = listed.iter().map(|e| e.name.as_str()).collect();
    assert_eq!(names, vec!["alpha", "zeta"]);
    assert!(listed.iter().all(|e| e.kind == FileKind::Directory));
    for entry in &listed {
        assert_eq!(fs.lookup(ROOT_INODE, &entry.name), Ok(entry.inode));
    }
    let alpha = fs.lookup(ROOT_INODE, "alpha").unwrap();
    let zeta = fs.lookup(ROOT_INODE, "zeta").unwrap();
    let ws = |name, slot, state| ws_reg(name, slot, state, vec![], vec![]);
    fs.register_workspace("alpha", ws("w", 1, WorkspaceState::Active)).unwrap();
    fs.register_workspace("alpha", ws("later", 2, WorkspaceState::Pending)).unwrap();
    fs.register_workspace("zeta", ws("w", 3, WorkspaceState::Active)).unwrap();
    assert_eq!(fs.lookup(alpha, "later"), Err(FsError::NotFound), "it is pending");
    assert_eq!(fs.lookup(alpha, "w"), Ok(to_global(1, ROOT_INODE)));
    assert_eq!(fs.lookup(zeta, "w"), Ok(to_global(3, ROOT_INODE)));
    let names: Vec<_> = fs.readdir(alpha).unwrap().into_iter().map(|e| e.name).collect();
    assert_eq!(names, vec!["w"]);
    fs.finalize_workspace("alpha", "later").unwrap();
    let names: Vec<_> = fs.readdir(alpha).unwrap().into_iter().map(|e| e.name).collect();
    assert_eq!(names, vec!["later", "w"]);
    assert_eq!(fs.readdir(99).unwrap_err(), FsError::NotFound);
}

#[test]
fn workspaces_of_a_repository_share_its_objects() {
    let mut fs = RootFs::new("/mnt/kiki".to_owned(), "/tmp/storage".to_owned(), 1);
    for name in ["r", "s"] {
        fs.register_repo(name.into(), "url".into(), test_store(), test_refs(), false);
    }
    for (repo, name) in [("r", "a"), ("r", "b"), ("s", "c")] {
        let slot = fs.alloc_slot();
        let reg = ws_reg(name, slot, WorkspaceState::Active, vec![], vec![]);
        fs.register_workspace(repo, reg).unwrap();
        assert_eq!(fs.get_workspace(repo, name), Ok(WorkspaceHandle { slot, connected: false }));
    }
    let (file, _) = fs.create_file(to_global(1, ROOT_INODE), "f", false).unwrap();
    fs.write(file, 0, b"shared").unwrap();
    let root = fs.snapshot_workspace(1).unwrap();
    assert!(fs.repo_store("r").unwrap().read_tree(&root).unwrap().is_some());
    assert_eq!(fs.check_out_workspace(2, root, 0), Ok(()));
    let seen = fs.lookup(to_global(2, ROOT_INODE), "f").unwrap();
    assert_eq!(fs.read(seen, 0, 10), Ok((b"shared".to_vec(), true)));
    assert!(fs.repo_store("s").unwrap().read_tree(&root).unwrap().is_none());
}

#[test]
fn a_workspace_is_made_of_its_own_tree() {
    let mut store = test_store();
    let file = store.write_file(b"x").unwrap();
    let kind = GitEntryKind::File { executable: false };
    let entry = GitTreeEntry { name: "f".to_owned(), kind, id: file };
    let tree = store.write_tree(&vec![entry]).unwrap();
    let mut fs = RootFs::new("/mnt/kiki".to_owned(), "/tmp/storage".to_owned(), 1);
    fs.register_repo("r".into(), "url".into(), store, test_refs(), false);
    // Two workspaces in one slot: the one that is asked for is made.
    let empty = ws_reg("a", 5, WorkspaceState::Active, vec![], vec![]);
    fs.register_workspace("r", empty).unwrap();
    let mut full = ws_reg("b", 5, WorkspaceState::Active, vec![], vec![]);
    full.root_tree_id = tree.to_vec();
    fs.register_workspace("r", full).unwrap();
    assert_eq!(fs.get_workspace("r", "b").unwrap().slot, 5);
    let seen = fs.lookup(to_global(5, ROOT_INODE), "f").unwrap();
    assert_eq!(fs.read(seen, 0, 9), Ok((b"x".to_vec(), true)));
}

#[test]
fn the_last_slot_fits_into_an_inode() {
    let mut fs = RootFs::new("/mnt/kiki".to_owned(), "/tmp/storage".to_owned(), SLOT_LIMIT - 1);
    let slot = fs.alloc_slot();
    assert_eq!(slot, 0xff_ffff);
    assert_eq!(fs.next_slot(), SLOT_LIMIT);
    let root = to_global(slot, ROOT_INODE);
    assert_eq!((slot_of(root), to_local(root)), (slot, ROOT_INODE));
}

#[test]
fn workspaces_of_a_repository_share_its_refs() {
    let mut fs = RootFs::new("/mnt/kiki".to_owned(), "/tmp/storage".to_owned(), 1);
    fs.register_repo("r".into(), "url".into(), test_store(), test_refs(), true);
    fs.register_repo("s".into(), "url".into(), test_store(), test_refs(), false);
    assert_eq!(fs.repo_remote_store("r"), Some(true));
    assert_eq!(fs.repo_remote_store("s"), Some(false));
    assert_eq!(fs.repo_remote_store("t"), None);
    let mut handles = Vec::new();
    for (repo, name) in [("r", "a"), ("r", "b"), ("s", "c")] {
        let slot = fs.alloc_slot();
        let reg = ws_reg(name, slot, WorkspaceState::Active, vec![], vec![]);
        fs.register_workspace(repo, reg).unwrap();
        assert!(fs.local_refs(slot).is_none(), "nothing asked for it yet");
        handles.push(fs.get_workspace(repo, name).unwrap());
    }
    assert_eq!(handles[0], WorkspaceHandle { slot: 1, connected: true });
    assert_eq!(handles[2], WorkspaceHandle { slot: 3, connected: false });
    let swap = fs.cas_local_ref(1, "op_heads", None, Some(b"v1")).unwrap();
    assert!(matches!(swap, CasOutcome::Updated));
    let late = fs.cas_local_ref(2, "op_heads", None, Some(b"v2")).unwrap();
    assert!(matches!(late, CasOutcome::Conflict { actual: Some(v) } if v == b"v1"));
    // Asking again finds the same workspace with the same refs.
    assert_eq!(fs.get_workspace("r", "a"), Ok(handles[0]));
    for (slot, value) in [(1, Some(b"v1".to_vec())), (2, Some(b"v1".to_vec())), (3, None)] {
        assert_eq!(fs.local_refs(slot).unwrap().get_ref("op_heads").unwrap(), value);
    }
}
