use kiki::git_store::{
    hash_object, GitContentStore, GitEntryKind, GitObjectKind, GitTreeEntry, EMPTY_TREE,
};
use kiki::ty::Id;
use kiki::vfs::kiki_fs::{JjKikiFs, KikiFs};
use kiki::vfs::rules::{is_white_space, parse_redirections, redirections_in};
use kiki::vfs::types::{FileKind, FsError};

fn build_synthetic_tree() -> (GitContentStore, Id) {
    let mut store = GitContentStore::new_in_memory();
    let hello_id = store.write_file(b"hi\n").unwrap();
    let tool_id = store.write_file(b"x").unwrap();
    let link_id = store.write_symlink("hello.txt").unwrap();
    let bin_entries = vec![GitTreeEntry {
        name: "tool".into(),
        kind: GitEntryKind::File { executable: true },
        id: tool_id,
    }];
    let bin_id = store.write_tree(&bin_entries).unwrap();
    let root_entries = vec![
        GitTreeEntry {
            name: "bin".into(),
            kind: GitEntryKind::Tree,
            id: bin_id,
        },
        GitTreeEntry {
            name: "hello.txt".into(),
            kind: GitEntryKind::File { executable: false },
            id: hello_id,
        },
        GitTreeEntry {
            name: "link".into(),
            kind: GitEntryKind::Symlink,
            id: link_id,
        },
    ];
    let root_id = store.write_tree(&root_entries).unwrap();
    (store, root_id)
}

#[test]
fn kiki_fs_empty_repo_has_only_root() {
    let store = GitContentStore::new_in_memory();
    let mut fs = KikiFs::new(store, Id(EMPTY_TREE), None, None, 0);
    let entries = fs.readdir(fs.root()).expect("readdir empty root");
    assert_eq!(entries.len(), 1, "got {entries:?}");
    assert_eq!(entries[0].name, ".git");
    assert_eq!(entries[0].kind, FileKind::Regular);
    let attr = fs.getattr(fs.root()).expect("getattr root");
    assert_eq!(attr.kind, FileKind::Directory);
}

#[test]
fn kiki_fs_lookup_finds_top_level_file() {
    let (store, root) = build_synthetic_tree();
    let mut fs = KikiFs::new(store, root, None, None, 0);
    let id = fs.lookup(fs.root(), "hello.txt").expect("lookup");
    let attr = fs.getattr(id).expect("getattr");
    assert_eq!(attr.kind, FileKind::Regular);
    assert_eq!(attr.size, 3);
    assert!(!attr.executable);
}

#[test]
fn kiki_fs_lookup_traverses_subdirectory() {
    let (store, root) = build_synthetic_tree();
    let mut fs = KikiFs::new(store, root, None, None, 0);
    let bin_id = fs.lookup(fs.root(), "bin").expect("bin");
    let bin_attr = fs.getattr(bin_id).expect("getattr bin");
    assert_eq!(bin_attr.kind, FileKind::Directory);
    let tool_id = fs.lookup(bin_id, "tool").expect("tool");
    let tool_attr = fs.getattr(tool_id).expect("getattr tool");
    assert_eq!(tool_attr.kind, FileKind::Regular);
    assert!(tool_attr.executable);
}

#[test]
fn kiki_fs_lookup_is_idempotent() {
    let (store, root) = build_synthetic_tree();
    let mut fs = KikiFs::new(store, root, None, None, 0);
    let a = fs.lookup(fs.root(), "hello.txt").unwrap();
    let b = fs.lookup(fs.root(), "hello.txt").unwrap();
    assert_eq!(a, b);
}

#[test]
fn kiki_fs_read_returns_file_content_with_eof_flag() {
    let (store, root) = build_synthetic_tree();
    let mut fs = KikiFs::new(store, root, None, None, 0);
    let id = fs.lookup(fs.root(), "hello.txt").unwrap();

    let (data, eof) = fs.read(id, 0, 1024).unwrap();
    assert_eq!(data, b"hi\n");
    assert!(eof);

    let (data, eof) = fs.read(id, 0, 1).unwrap();
    assert_eq!(data, b"h");
    assert!(!eof);

    let (data, eof) = fs.read(id, 99, 1024).unwrap();
    assert!(data.is_empty());
    assert!(eof);
}

#[test]
fn kiki_fs_readdir_lists_all_top_level_entries_with_kind() {
    let (store, root) = build_synthetic_tree();
    let mut fs = KikiFs::new(store, root, None, None, 0);
    let mut entries = fs.readdir(fs.root()).unwrap();
    entries.sort_by(|a, b| a.name.cmp(&b.name));
    let names: Vec<_> = entries.iter().map(|e| e.name.as_str()).collect();
    assert_eq!(names, vec![".git", "bin", "hello.txt", "link"]);
    let kinds: Vec<_> = entries.iter().map(|e| e.kind).collect();
    assert_eq!(
        kinds,
        vec![
            FileKind::Regular,
            FileKind::Directory,
            FileKind::Regular,
            FileKind::Symlink
        ]
    );
}

#[test]
fn kiki_fs_readlink_returns_target() {
    let (store, root) = build_synthetic_tree();
    let mut fs = KikiFs::new(store, root, None, None, 0);
    let id = fs.lookup(fs.root(), "link").unwrap();
    assert_eq!(fs.readlink(id).unwrap(), "hello.txt");
}

#[test]
fn kiki_fs_lookup_unknown_name_is_not_found() {
    let (store, root) = build_synthetic_tree();
    let mut fs = KikiFs::new(store, root, None, None, 0);
    let err = fs.lookup(fs.root(), "missing").unwrap_err();
    assert_eq!(err, FsError::NotFound);
}

#[test]
fn kiki_fs_read_on_directory_is_not_a_file() {
    let (store, root) = build_synthetic_tree();
    let mut fs = KikiFs::new(store, root, None, None, 0);
    let err = fs.read(fs.root(), 0, 16).unwrap_err();
    assert_eq!(err, FsError::NotAFile);
}

#[test]
fn kiki_fs_readdir_on_file_is_not_a_directory() {
    let (store, root) = build_synthetic_tree();
    let mut fs = KikiFs::new(store, root, None, None, 0);
    let id = fs.lookup(fs.root(), "hello.txt").unwrap();
    let err = fs.readdir(id).unwrap_err();
    assert_eq!(err, FsError::NotADirectory);
}

#[test]
fn kiki_fs_getattr_on_unknown_inode_is_not_found() {
    let (store, root) = build_synthetic_tree();
    let mut fs = KikiFs::new(store, root, None, None, 0);
    let err = fs.getattr(99_999).unwrap_err();
    assert_eq!(err, FsError::NotFound);
}

#[test]
fn kiki_fs_check_out_swaps_visible_tree() {
    let mut store = GitContentStore::new_in_memory();
    let a_content_id = store.write_file(b"a-content").unwrap();
    let b_content_id = store.write_file(b"b-content").unwrap();
    let tree_a = store.write_tree(&vec![GitTreeEntry {
            name: "only-in-a.txt".into(),
            kind: GitEntryKind::File { executable: false },
            id: a_content_id,
        }])
        .unwrap();
    let tree_b = store.write_tree(&vec![GitTreeEntry {
            name: "only-in-b.txt".into(),
            kind: GitEntryKind::File { executable: false },
            id: b_content_id,
        }])
        .unwrap();

    let mut fs = KikiFs::new(store, tree_a, None, None, 0);
    fs.lookup(fs.root(), "only-in-a.txt").expect("A");
    assert_eq!(
        fs.lookup(fs.root(), "only-in-b.txt").unwrap_err(),
        FsError::NotFound
    );

    fs.check_out(tree_b, 0).expect("check_out");
    fs.lookup(fs.root(), "only-in-b.txt").expect("B");
    assert_eq!(
        fs.lookup(fs.root(), "only-in-a.txt").unwrap_err(),
        FsError::NotFound
    );
}

#[test]
fn kiki_fs_check_out_unknown_tree_is_store_miss() {
    let (store, root) = build_synthetic_tree();
    let mut fs = KikiFs::new(store, root, None, None, 0);
    let err = fs.check_out(Id([0xff; 20]), 0).unwrap_err();
    assert_eq!(err, FsError::StoreMiss);
    fs.lookup(fs.root(), "hello.txt").expect("still A");
}

fn read_tree(store: &GitContentStore, id: Id) -> Vec<GitTreeEntry> {
    store
        .read_tree(&id)
        .expect("read_tree")
        .expect("tree present")
}

fn read_file_content(store: &GitContentStore, id: Id) -> Vec<u8> {
    store
        .read_file(&id)
        .expect("read_file")
        .expect("file present")
}

fn read_symlink_target(store: &GitContentStore, id: Id) -> String {
    store
        .read_symlink(&id)
        .expect("read_symlink")
        .expect("symlink present")
}

fn find_entry<'a>(entries: &'a [GitTreeEntry], name: &str) -> &'a GitTreeEntry {
    entries.iter().find(|e| e.name == name).expect(name)
}

#[test]
fn kiki_fs_create_write_read_round_trips() {
    let store = GitContentStore::new_in_memory();
    let mut fs = KikiFs::new(store, Id(EMPTY_TREE), None, None, 0);
    let (file_ino, attr) = fs
        .create_file(fs.root(), "hello.txt", false)
        .expect("create_file");
    assert_eq!(attr.kind, FileKind::Regular);
    assert_eq!(attr.size, 0);

    let n = fs.write(file_ino, 0, b"hello world").unwrap();
    assert_eq!(n, 11);

    let (data, eof) = fs.read(file_ino, 0, 1024).unwrap();
    assert_eq!(data, b"hello world");
    assert!(eof);

    let new_root = fs.snapshot().expect("snapshot");
    assert_ne!(new_root, Id(EMPTY_TREE));
    let tree = read_tree(fs.store(), new_root);
    let entry = find_entry(&tree, "hello.txt");
    assert!(matches!(entry.kind, GitEntryKind::File { .. }));

    let (data, _) = fs.read(file_ino, 0, 1024).unwrap();
    assert_eq!(data, b"hello world");
}

#[test]
fn kiki_fs_mkdir_then_create_inside_round_trips() {
    let store = GitContentStore::new_in_memory();
    let mut fs = KikiFs::new(store, Id(EMPTY_TREE), None, None, 0);

    let (dir_ino, _) = fs.mkdir(fs.root(), "dir", None).expect("mkdir");
    let (file_ino, _) = fs
        .create_file(dir_ino, "file", false)
        .expect("create_file");
    fs.write(file_ino, 0, b"content").unwrap();

    let new_root = fs.snapshot().expect("snapshot");

    let root_tree = read_tree(fs.store(), new_root);
    let dir_entry = find_entry(&root_tree, "dir");
    assert!(matches!(dir_entry.kind, GitEntryKind::Tree));
    let dir_id = dir_entry.id;
    let dir_tree = read_tree(fs.store(), dir_id);
    let file_entry = find_entry(&dir_tree, "file");
    assert!(matches!(file_entry.kind, GitEntryKind::File { .. }));
    let file_id = file_entry.id;
    let content = read_file_content(fs.store(), file_id);
    assert_eq!(content, b"content");
}

#[test]
fn kiki_fs_symlink_round_trips() {
    let store = GitContentStore::new_in_memory();
    let mut fs = KikiFs::new(store, Id(EMPTY_TREE), None, None, 0);
    let (link_ino, attr) = fs
        .symlink(fs.root(), "link", "target")
        .expect("symlink");
    assert_eq!(attr.kind, FileKind::Symlink);
    assert_eq!(fs.readlink(link_ino).unwrap(), "target");

    let new_root = fs.snapshot().expect("snapshot");
    let root_tree = read_tree(fs.store(), new_root);
    let link_entry = find_entry(&root_tree, "link");
    assert!(matches!(link_entry.kind, GitEntryKind::Symlink));
    let symlink_id = link_entry.id;
    let target = read_symlink_target(fs.store(), symlink_id);
    assert_eq!(target, "target");

    assert_eq!(fs.readlink(link_ino).unwrap(), "target");
}

#[test]
fn kiki_fs_create_collision_is_already_exists() {
    let store = GitContentStore::new_in_memory();
    let mut fs = KikiFs::new(store, Id(EMPTY_TREE), None, None, 0);
    fs.create_file(fs.root(), "a", false).unwrap();
    let err = fs
        .create_file(fs.root(), "a", false)
        .expect_err("duplicate must fail");
    assert_eq!(err, FsError::AlreadyExists);
}

#[test]
fn kiki_fs_setattr_truncates_file() {
    let store = GitContentStore::new_in_memory();
    let mut fs = KikiFs::new(store, Id(EMPTY_TREE), None, None, 0);
    let (ino, _) = fs.create_file(fs.root(), "f", false).unwrap();
    fs.write(ino, 0, b"hello").unwrap();

    let attr = fs
        .setattr(ino, Some(0), None)
        .expect("setattr truncate");
    assert_eq!(attr.size, 0);

    let (data, eof) = fs.read(ino, 0, 1024).unwrap();
    assert!(data.is_empty());
    assert!(eof);
}

#[test]
fn kiki_fs_setattr_chmod_preserves_content() {
    let store = GitContentStore::new_in_memory();
    let mut fs = KikiFs::new(store, Id(EMPTY_TREE), None, None, 0);
    let (ino, _) = fs.create_file(fs.root(), "f", false).unwrap();
    fs.write(ino, 0, b"hello").unwrap();

    let attr = fs.setattr(ino, None, Some(true)).expect("chmod");
    assert!(attr.executable);

    let new_root = fs.snapshot().expect("snapshot");
    let tree = read_tree(fs.store(), new_root);
    let entry = find_entry(&tree, "f");
    assert!(matches!(
        entry.kind,
        GitEntryKind::File { executable: true }
    ));
}

#[test]
fn kiki_fs_remove_file_then_lookup_is_not_found() {
    let store = GitContentStore::new_in_memory();
    let mut fs = KikiFs::new(store, Id(EMPTY_TREE), None, None, 0);
    fs.create_file(fs.root(), "f", false).unwrap();
    fs.remove(fs.root(), "f").expect("remove");
    let err = fs.lookup(fs.root(), "f").unwrap_err();
    assert_eq!(err, FsError::NotFound);
}

#[test]
fn kiki_fs_remove_non_empty_directory_is_not_empty() {
    let store = GitContentStore::new_in_memory();
    let mut fs = KikiFs::new(store, Id(EMPTY_TREE), None, None, 0);
    let (dir, _) = fs.mkdir(fs.root(), "dir", None).unwrap();
    fs.create_file(dir, "f", false).unwrap();

    let err = fs.remove(fs.root(), "dir").unwrap_err();
    assert_eq!(err, FsError::NotEmpty);
    fs.lookup(fs.root(), "dir").expect("dir survives");
}

#[test]
fn kiki_fs_snapshot_clean_returns_existing_root() {
    let (store, root) = build_synthetic_tree();
    let mut fs = KikiFs::new(store, root, None, None, 0);
    let id = fs.snapshot().expect("snapshot");
    assert_eq!(id, root);
}

#[test]
fn kiki_fs_snapshot_is_deterministic_under_insertion_order() {
    let store_a = GitContentStore::new_in_memory();
    let mut fs_a = KikiFs::new(store_a, Id(EMPTY_TREE), None, None, 0);
    fs_a.create_file(fs_a.root(), "a", false).unwrap();
    fs_a.create_file(fs_a.root(), "b", false).unwrap();
    let id_a = fs_a.snapshot().unwrap();

    let store_b = GitContentStore::new_in_memory();
    let mut fs_b = KikiFs::new(store_b, Id(EMPTY_TREE), None, None, 0);
    fs_b.create_file(fs_b.root(), "b", false).unwrap();
    fs_b.create_file(fs_b.root(), "a", false).unwrap();
    let id_b = fs_b.snapshot().unwrap();

    assert_eq!(id_a, id_b);
}

#[test]
fn kiki_fs_snapshot_preserves_inode_ids() {
    let store = GitContentStore::new_in_memory();
    let mut fs = KikiFs::new(store, Id(EMPTY_TREE), None, None, 0);
    let (ino, _) = fs.create_file(fs.root(), "f", false).unwrap();
    fs.write(ino, 0, b"x").unwrap();
    fs.snapshot().unwrap();
    let (data, _) = fs.read(ino, 0, 1024).unwrap();
    assert_eq!(data, b"x");
}

#[test]
fn jj_dir_excluded_from_snapshot() {
    let store = GitContentStore::new_in_memory();
    let mut fs = KikiFs::new(store, Id(EMPTY_TREE), None, None, 0);

    let (jj_ino, attr) = fs.mkdir(fs.root(), ".jj", None).expect("mkdir .jj");
    assert_eq!(attr.kind, FileKind::Directory);
    let (jj_file, _) = fs
        .create_file(jj_ino, "config.toml", false)
        .expect("create_file");
    fs.write(jj_file, 0, b"[ui]\n").unwrap();

    let (user_file, _) = fs
        .create_file(fs.root(), "README", false)
        .expect("create_file");
    fs.write(user_file, 0, b"hi").unwrap();

    let mut listing = fs.readdir(fs.root()).unwrap();
    listing.sort_by(|a, b| a.name.cmp(&b.name));
    let names: Vec<_> = listing.iter().map(|e| e.name.as_str()).collect();
    assert_eq!(names, vec![".git", ".jj", "README"]);

    assert_eq!(fs.lookup(fs.root(), ".jj").unwrap(), jj_ino);

    let new_root = fs.snapshot().expect("snapshot");
    let tree = read_tree(fs.store(), new_root);
    let names: Vec<_> = tree.iter().map(|e| e.name.as_str()).collect();
    assert_eq!(names, vec!["README"], "snapshot must not contain .jj");

    assert_eq!(fs.lookup(fs.root(), ".jj").unwrap(), jj_ino);
    let (data, _) = fs.read(jj_file, 0, 1024).unwrap();
    assert_eq!(data, b"[ui]\n");
}

#[test]
fn jj_dir_survives_check_out() {
    let store = GitContentStore::new_in_memory();
    let mut fs = KikiFs::new(store, Id(EMPTY_TREE), None, None, 0);

    let (jj_ino, _) = fs.mkdir(fs.root(), ".jj", None).unwrap();
    let (jj_file, _) = fs.create_file(jj_ino, "marker", false).unwrap();
    fs.write(jj_file, 0, b"present").unwrap();

    let only_a_id = fs.write_object(GitObjectKind::Blob, b"a".to_vec()).unwrap();
    let tree_a = fs.write_tree(&vec![GitTreeEntry {
            name: "only-a.txt".into(),
            kind: GitEntryKind::File { executable: false },
            id: only_a_id,
        }])
        .unwrap();
    fs.check_out(tree_a, 0).expect("check_out");

    fs.lookup(fs.root(), "only-a.txt")
        .expect("user content visible");
    assert_eq!(fs.lookup(fs.root(), ".jj").unwrap(), jj_ino);
    let (data, _) = fs.read(jj_file, 0, 1024).unwrap();
    assert_eq!(data, b"present");

    let mut listing = fs.readdir(fs.root()).unwrap();
    listing.sort_by(|a, b| a.name.cmp(&b.name));
    let names: Vec<_> = listing.iter().map(|e| e.name.as_str()).collect();
    assert_eq!(names, vec![".git", ".jj", "only-a.txt"]);
}

#[test]
fn jj_dir_pin_is_unique() {
    let store = GitContentStore::new_in_memory();
    let mut fs = KikiFs::new(store, Id(EMPTY_TREE), None, None, 0);
    fs.mkdir(fs.root(), ".jj", None).expect("mkdir .jj");
    let err = fs.mkdir(fs.root(), ".jj", None).expect_err("dup mkdir");
    assert_eq!(err, FsError::AlreadyExists);
    let err = fs
        .create_file(fs.root(), ".jj", false)
        .expect_err("file collides with pin");
    assert_eq!(err, FsError::AlreadyExists);
}

#[test]
fn pre_existing_jj_is_shadowed_by_pin() {
    let mut store = GitContentStore::new_in_memory();
    let legacy_content_id = store.write_file(b"legacy").unwrap();
    let legacy_tree = store.write_tree(&vec![GitTreeEntry {
            name: ".jj".into(),
            kind: GitEntryKind::File { executable: false },
            id: legacy_content_id,
        }])
        .unwrap();
    let mut fs = KikiFs::new(store, legacy_tree, None, None, 0);

    let legacy_ino = fs.lookup(fs.root(), ".jj").expect("legacy lookup");
    let attr = fs.getattr(legacy_ino).unwrap();
    assert_eq!(attr.kind, FileKind::Regular);

    let (jj_ino, _) = fs.mkdir(fs.root(), ".jj", None).expect("mkdir pin");
    assert_eq!(fs.lookup(fs.root(), ".jj").unwrap(), jj_ino);
}

#[test]
fn jj_dir_remove_respects_rmdir_empty() {
    let store = GitContentStore::new_in_memory();
    let mut fs = KikiFs::new(store, Id(EMPTY_TREE), None, None, 0);
    let (jj_ino, _) = fs.mkdir(fs.root(), ".jj", None).unwrap();
    fs.create_file(jj_ino, "f", false).unwrap();
    let err = fs.remove(fs.root(), ".jj").unwrap_err();
    assert_eq!(err, FsError::NotEmpty);

    fs.remove(jj_ino, "f").expect("remove inner");
    fs.remove(fs.root(), ".jj").expect("remove pin");
    let err = fs.lookup(fs.root(), ".jj").unwrap_err();
    assert_eq!(err, FsError::NotFound);
}

#[test]
fn jj_dir_dirty_buffers_cleaned_on_snapshot() {
    let store = GitContentStore::new_in_memory();
    let mut fs = KikiFs::new(store, Id(EMPTY_TREE), None, None, 0);
    let (jj_ino, _) = fs.mkdir(fs.root(), ".jj", None).unwrap();
    let (file_ino, _) = fs.create_file(jj_ino, "config", false).unwrap();
    fs.write(file_ino, 0, b"settings").unwrap();

    let new_root = fs.snapshot().unwrap();
    assert_eq!(new_root, Id(EMPTY_TREE));

    let id = hash_object(GitObjectKind::Blob, b"settings").unwrap();
    assert_eq!(read_file_content(fs.store(), id), b"settings");
    let (data, _) = fs.read(file_ino, 0, 1024).unwrap();
    assert_eq!(data, b"settings");
}

#[test]
fn git_file_lookup_read_content() {
    let store = GitContentStore::new("/srv/store/git".to_owned());
    let expected = format!("gitdir: {}\n", store.git_repo_path());
    let mut fs = KikiFs::new(store, Id(EMPTY_TREE), None, None, 0);

    let git_ino = fs.lookup(fs.root(), ".git").expect("lookup .git");

    let attr = fs.getattr(git_ino).expect("getattr .git");
    assert_eq!(attr.kind, FileKind::Regular);
    assert_eq!(attr.size, expected.len() as u64);
    assert!(!attr.executable);

    let (data, eof) = fs.read(git_ino, 0, 4096).expect("read .git");
    assert_eq!(String::from_utf8(data).unwrap(), expected);
    assert!(eof);

    let listing = fs.readdir(fs.root()).unwrap();
    assert!(
        listing.iter().any(|e| e.name == ".git"),
        "readdir must include .git"
    );

    let snap = fs.snapshot().unwrap();
    let tree = read_tree(fs.store(), snap);
    assert!(
        !tree.iter().any(|e| e.name == ".git"),
        "snapshot must not contain .git"
    );
}

#[test]
fn git_file_is_read_only() {
    let store = GitContentStore::new_in_memory();
    let mut fs = KikiFs::new(store, Id(EMPTY_TREE), None, None, 0);
    let git_ino = fs.lookup(fs.root(), ".git").unwrap();

    let err = fs.write(git_ino, 0, b"nope").unwrap_err();
    assert!(matches!(err, FsError::StoreError(_)));

    let err = fs.setattr(git_ino, Some(0), None).unwrap_err();
    assert!(matches!(err, FsError::StoreError(_)));
}

#[test]
fn git_file_cannot_be_removed_or_renamed() {
    let store = GitContentStore::new_in_memory();
    let mut fs = KikiFs::new(store, Id(EMPTY_TREE), None, None, 0);

    let err = fs.remove(fs.root(), ".git").unwrap_err();
    assert!(matches!(err, FsError::StoreError(_)));

    let err = fs
        .create_file(fs.root(), ".git", false)
        .unwrap_err();
    assert_eq!(err, FsError::AlreadyExists);

    let (f, _) = fs.create_file(fs.root(), "tmp", false).unwrap();
    let _ = f; // suppress unused warning
    let err = fs
        .rename(fs.root(), "tmp", fs.root(), ".git")
        .unwrap_err();
    assert_eq!(err, FsError::AlreadyExists);
}

#[test]
fn write_after_snapshot_deep_in_tree_is_visible() {
    let store = GitContentStore::new_in_memory();
    let mut fs = KikiFs::new(store, Id(EMPTY_TREE), None, None, 0);

    let (dir_ino, _) = fs.mkdir(fs.root(), "dir", None).unwrap();
    let (subdir_ino, _) = fs.mkdir(dir_ino, "subdir", None).unwrap();
    let (file_ino, _) = fs.create_file(subdir_ino, "file", false).unwrap();
    fs.write(file_ino, 0, b"original").unwrap();

    let snap1 = fs.snapshot().unwrap();
    assert_ne!(snap1, Id(EMPTY_TREE));

    fs.write(file_ino, 0, b"modified").unwrap();

    let snap2 = fs.snapshot().unwrap();
    assert_ne!(snap2, snap1, "snapshot must detect the deep write");

    let root_tree = read_tree(fs.store(), snap2);
    let dir_entry = find_entry(&root_tree, "dir");
    let dir_id = dir_entry.id;
    let dir_tree = read_tree(fs.store(), dir_id);
    let subdir_entry = find_entry(&dir_tree, "subdir");
    let subdir_id = subdir_entry.id;
    let subdir_tree = read_tree(fs.store(), subdir_id);
    let file_entry = find_entry(&subdir_tree, "file");
    let file_id = file_entry.id;
    let content = read_file_content(fs.store(), file_id);
    assert_eq!(content, b"modified");
}

#[test]
fn remove_after_snapshot_deep_in_tree_is_visible() {
    let store = GitContentStore::new_in_memory();
    let mut fs = KikiFs::new(store, Id(EMPTY_TREE), None, None, 0);

    let (dir_ino, _) = fs.mkdir(fs.root(), "dir", None).unwrap();
    let (file_ino, _) = fs.create_file(dir_ino, "inner", false).unwrap();
    fs.write(file_ino, 0, b"data").unwrap();

    let snap1 = fs.snapshot().unwrap();

    fs.remove(dir_ino, "inner").unwrap();

    let snap2 = fs.snapshot().unwrap();
    assert_ne!(snap2, snap1, "snapshot must detect the removal");

    let root_tree = read_tree(fs.store(), snap2);
    let dir_entry = find_entry(&root_tree, "dir");
    let dir_id = dir_entry.id;
    let dir_tree = read_tree(fs.store(), dir_id);
    assert!(
        dir_tree.is_empty(),
        "dir should be empty after removing its only child"
    );
}

#[test]
fn setattr_after_snapshot_is_visible() {
    let store = GitContentStore::new_in_memory();
    let mut fs = KikiFs::new(store, Id(EMPTY_TREE), None, None, 0);

    let (dir_ino, _) = fs.mkdir(fs.root(), "dir", None).unwrap();
    let (file_ino, _) = fs.create_file(dir_ino, "f", false).unwrap();
    fs.write(file_ino, 0, b"hello").unwrap();

    let snap1 = fs.snapshot().unwrap();

    fs.setattr(file_ino, Some(0), None).unwrap();

    let snap2 = fs.snapshot().unwrap();
    assert_ne!(snap2, snap1, "snapshot must detect the truncation");

    let root_tree = read_tree(fs.store(), snap2);
    let dir_entry = find_entry(&root_tree, "dir");
    let dir_id = dir_entry.id;
    let dir_tree = read_tree(fs.store(), dir_id);
    let file_entry = find_entry(&dir_tree, "f");
    let file_id = file_entry.id;
    let content = read_file_content(fs.store(), file_id);
    assert!(content.is_empty());
}

#[test]
fn write_to_existing_tree_child_survives_materialization() {
    let (store, root_id) = build_synthetic_tree();
    let mut fs = KikiFs::new(store, root_id, None, None, 0);

    let hello_ino = fs.lookup(fs.root(), "hello.txt").unwrap();

    fs.write(hello_ino, 0, b"new content").unwrap();

    let (data, _) = fs.read(hello_ino, 0, 1024).unwrap();
    assert_eq!(data, b"new content");

    let snap = fs.snapshot().unwrap();
    assert_ne!(snap, root_id);
    let root_tree = read_tree(fs.store(), snap);
    let entry = find_entry(&root_tree, "hello.txt");
    let file_id = entry.id;
    let content = read_file_content(fs.store(), file_id);
    assert_eq!(content, b"new content");
}

#[test]
fn rename_atomic_save_pattern() {
    let store = GitContentStore::new_in_memory();
    let mut fs = KikiFs::new(store, Id(EMPTY_TREE), None, None, 0);

    let (orig_ino, _) = fs.create_file(fs.root(), "foo.rs", false).unwrap();
    fs.write(orig_ino, 0, b"fn main() {}").unwrap();
    let snap1 = fs.snapshot().unwrap();

    let (tmp_ino, _) = fs
        .create_file(fs.root(), "foo.rs.tmp", false)
        .unwrap();
    fs.write(tmp_ino, 0, b"fn main() { println!(\"hello\"); }")
        .unwrap();

    fs.rename(fs.root(), "foo.rs.tmp", fs.root(), "foo.rs")
        .unwrap();

    let err = fs.lookup(fs.root(), "foo.rs.tmp").unwrap_err();
    assert_eq!(err, FsError::NotFound);

    let new_ino = fs.lookup(fs.root(), "foo.rs").unwrap();
    let (data, _) = fs.read(new_ino, 0, 4096).unwrap();
    assert_eq!(data, b"fn main() { println!(\"hello\"); }");

    let snap2 = fs.snapshot().unwrap();
    assert_ne!(snap2, snap1);
    let tree = read_tree(fs.store(), snap2);
    let names: Vec<&str> = tree.iter().map(|e| e.name.as_str()).collect();
    assert_eq!(names, vec!["foo.rs"]);
    let file_id = tree[0].id;
    let content = read_file_content(fs.store(), file_id);
    assert_eq!(content, b"fn main() { println!(\"hello\"); }");
}

#[test]
fn write_to_cross_dir_renamed_file_after_snapshot() {
    let store = GitContentStore::new_in_memory();
    let mut fs = KikiFs::new(store, Id(EMPTY_TREE), None, None, 0);

    let (a_ino, _) = fs.mkdir(fs.root(), "a", None).unwrap();
    let (b_ino, _) = fs.mkdir(fs.root(), "b", None).unwrap();
    let (file_ino, _) = fs.create_file(a_ino, "file", false).unwrap();
    fs.write(file_ino, 0, b"v1").unwrap();

    let snap1 = fs.snapshot().unwrap();

    fs.rename(a_ino, "file", b_ino, "file").unwrap();

    let snap2 = fs.snapshot().unwrap();
    assert_ne!(snap2, snap1);

    fs.write(file_ino, 0, b"v2").unwrap();

    let snap3 = fs.snapshot().unwrap();
    assert_ne!(snap3, snap2, "snapshot must detect write to renamed file");

    let root_tree = read_tree(fs.store(), snap3);
    let b_entry = find_entry(&root_tree, "b");
    let b_id = b_entry.id;
    let b_tree = read_tree(fs.store(), b_id);
    let file_entry = find_entry(&b_tree, "file");
    let file_id = file_entry.id;
    let content = read_file_content(fs.store(), file_id);
    assert_eq!(content, b"v2");
}

#[test]
fn create_at_old_name_after_rename() {
    let store = GitContentStore::new_in_memory();
    let mut fs = KikiFs::new(store, Id(EMPTY_TREE), None, None, 0);

    let (a_ino, _) = fs.mkdir(fs.root(), "a", None).unwrap();
    let (b_ino, _) = fs.mkdir(fs.root(), "b", None).unwrap();
    let (old_file, _) = fs.create_file(a_ino, "f", false).unwrap();
    fs.write(old_file, 0, b"old").unwrap();

    fs.rename(a_ino, "f", b_ino, "f").unwrap();

    let (new_file, _) = fs.create_file(a_ino, "f", false).unwrap();
    assert_ne!(
        new_file, old_file,
        "new file must get a distinct inode from the renamed one"
    );
    fs.write(new_file, 0, b"new").unwrap();

    let (data, _) = fs.read(old_file, 0, 1024).unwrap();
    assert_eq!(data, b"old");
    let (data, _) = fs.read(new_file, 0, 1024).unwrap();
    assert_eq!(data, b"new");

    let snap = fs.snapshot().unwrap();
    let root_tree = read_tree(fs.store(), snap);
    assert_eq!(root_tree.len(), 2, "root should have a/ and b/");
}

#[test]
fn same_dir_rename_then_write() {
    let store = GitContentStore::new_in_memory();
    let mut fs = KikiFs::new(store, Id(EMPTY_TREE), None, None, 0);

    let (file_ino, _) = fs.create_file(fs.root(), "old_name", false).unwrap();
    fs.write(file_ino, 0, b"content").unwrap();
    let snap1 = fs.snapshot().unwrap();

    fs.rename(fs.root(), "old_name", fs.root(), "new_name")
        .unwrap();

    fs.write(file_ino, 0, b"updated").unwrap();

    let snap2 = fs.snapshot().unwrap();
    assert_ne!(snap2, snap1);

    let tree = read_tree(fs.store(), snap2);
    let names: Vec<&str> = tree.iter().map(|e| e.name.as_str()).collect();
    assert_eq!(names, vec!["new_name"]);
    let file_id = tree[0].id;
    let content = read_file_content(fs.store(), file_id);
    assert_eq!(content, b"updated");
}

#[test]
fn rename_atomic_save_in_subdirectory() {
    let store = GitContentStore::new_in_memory();
    let mut fs = KikiFs::new(store, Id(EMPTY_TREE), None, None, 0);

    let (src_ino, _) = fs.mkdir(fs.root(), "src", None).unwrap();
    let (orig_ino, _) = fs.create_file(src_ino, "lib.rs", false).unwrap();
    fs.write(orig_ino, 0, b"// v1").unwrap();
    let snap1 = fs.snapshot().unwrap();

    let (tmp_ino, _) = fs.create_file(src_ino, ".lib.rs.swp", false).unwrap();
    fs.write(tmp_ino, 0, b"// v2").unwrap();
    fs.rename(src_ino, ".lib.rs.swp", src_ino, "lib.rs")
        .unwrap();

    let snap2 = fs.snapshot().unwrap();
    assert_ne!(snap2, snap1, "rename in subdir must dirty ancestors");

    let root_tree = read_tree(fs.store(), snap2);
    let src_entry = find_entry(&root_tree, "src");
    let src_id = src_entry.id;
    let src_tree = read_tree(fs.store(), src_id);
    let names: Vec<&str> = src_tree.iter().map(|e| e.name.as_str()).collect();
    assert_eq!(names, vec!["lib.rs"], "swap file should not persist");
    let file_id = src_tree[0].id;
    let content = read_file_content(fs.store(), file_id);
    assert_eq!(content, b"// v2");
}

#[test]
fn three_snapshot_cycles() {
    let store = GitContentStore::new_in_memory();
    let mut fs = KikiFs::new(store, Id(EMPTY_TREE), None, None, 0);

    let (file_ino, _) = fs.create_file(fs.root(), "counter", false).unwrap();
    fs.write(file_ino, 0, b"1").unwrap();
    let snap1 = fs.snapshot().unwrap();

    fs.write(file_ino, 0, b"2").unwrap();
    let snap2 = fs.snapshot().unwrap();
    assert_ne!(snap2, snap1);

    fs.write(file_ino, 0, b"3").unwrap();
    let snap3 = fs.snapshot().unwrap();
    assert_ne!(snap3, snap2);
    assert_ne!(snap3, snap1);

    let tree3 = read_tree(fs.store(), snap3);
    let entry = find_entry(&tree3, "counter");
    let fid = entry.id;
    let content = read_file_content(fs.store(), fid);
    assert_eq!(content, b"3");
}

#[test]
fn modify_after_check_out_to_different_tree() {
    let store = GitContentStore::new_in_memory();
    let mut fs = KikiFs::new(store, Id(EMPTY_TREE), None, None, 0);

    let (file_ino, _) = fs.create_file(fs.root(), "file", false).unwrap();
    fs.write(file_ino, 0, b"aaa").unwrap();
    let _tree_a = fs.snapshot().unwrap();

    let file_b_id = fs.write_object(GitObjectKind::Blob, b"bbb".to_vec()).unwrap();
    let extra_id = fs.write_object(GitObjectKind::Blob, b"xxx".to_vec()).unwrap();
    let tree_b_id = fs.write_tree(&vec![
            GitTreeEntry {
                name: "extra".into(),
                kind: GitEntryKind::File { executable: false },
                id: extra_id,
            },
            GitTreeEntry {
                name: "file".into(),
                kind: GitEntryKind::File { executable: false },
                id: file_b_id,
            },
        ])
        .unwrap();

    fs.check_out(tree_b_id, 0).unwrap();

    let new_file_ino = fs.lookup(fs.root(), "file").unwrap();
    let (data, _) = fs.read(new_file_ino, 0, 1024).unwrap();
    assert_eq!(data, b"bbb");

    let extra_ino = fs.lookup(fs.root(), "extra").unwrap();
    let (data, _) = fs.read(extra_ino, 0, 1024).unwrap();
    assert_eq!(data, b"xxx");

    fs.write(new_file_ino, 0, b"ccc").unwrap();
    let snap = fs.snapshot().unwrap();
    assert_ne!(snap, tree_b_id);

    let tree = read_tree(fs.store(), snap);
    assert_eq!(tree.len(), 2);
    let file_entry = find_entry(&tree, "file");
    let fid = file_entry.id;
    let content = read_file_content(fs.store(), fid);
    assert_eq!(content, b"ccc");
}

#[test]
fn create_file_in_existing_subdirectory() {
    let (store, root_id) = build_synthetic_tree();
    let mut fs = KikiFs::new(store, root_id, None, None, 0);

    let bin_ino = fs.lookup(fs.root(), "bin").unwrap();

    let (new_file, _) = fs.create_file(bin_ino, "helper", false).unwrap();
    fs.write(new_file, 0, b"helper script").unwrap();

    let tool_ino = fs.lookup(bin_ino, "tool").unwrap();
    let (data, _) = fs.read(tool_ino, 0, 1024).unwrap();
    assert_eq!(data, b"x");

    let snap = fs.snapshot().unwrap();
    assert_ne!(snap, root_id);
    let root_tree = read_tree(fs.store(), snap);
    let bin_entry = find_entry(&root_tree, "bin");
    let bin_id = bin_entry.id;
    let bin_tree = read_tree(fs.store(), bin_id);
    let names: Vec<&str> = bin_tree.iter().map(|e| e.name.as_str()).collect();
    assert_eq!(names, vec!["helper", "tool"]);
}

#[test]
fn delete_from_existing_subtree_after_snapshot() {
    let (store, root_id) = build_synthetic_tree();
    let mut fs = KikiFs::new(store, root_id, None, None, 0);

    let snap1 = fs.snapshot().unwrap();
    assert_eq!(snap1, root_id);

    fs.remove(fs.root(), "hello.txt").unwrap();

    let snap2 = fs.snapshot().unwrap();
    assert_ne!(snap2, root_id, "snapshot must detect deletion");

    let tree = read_tree(fs.store(), snap2);
    let names: Vec<&str> = tree.iter().map(|e| e.name.as_str()).collect();
    assert_eq!(names, vec!["bin", "link"], "hello.txt should be gone");
}

fn build_tree_with_gitignore(gitignore_content: &str) -> (GitContentStore, Id) {
    let mut store = GitContentStore::new_in_memory();
    let gi_id = store.write_file(gitignore_content.as_bytes()).unwrap();
    let entries = vec![GitTreeEntry {
        name: ".gitignore".into(),
        kind: GitEntryKind::File { executable: false },
        id: gi_id,
    }];
    let root_id = store.write_tree(&entries).unwrap();
    (store, root_id)
}

#[test]
fn ignored_file_skipped_in_snapshot() {
    let (store, root) = build_tree_with_gitignore("*.log\nnode_modules/\n");
    let mut fs = KikiFs::new(store, root, None, None, 0);
    fs.create_file(fs.root(), "debug.log", false)
        .unwrap();
    fs.create_file(fs.root(), "app.js", false).unwrap();
    let app = fs.lookup(fs.root(), "app.js").unwrap();
    fs.write(app, 0, b"hello").unwrap();
    let snap = fs.snapshot().unwrap();
    let tree = read_tree(fs.store(), snap);
    let names: Vec<&str> = tree.iter().map(|e| e.name.as_str()).collect();
    assert!(names.contains(&".gitignore"));
    assert!(names.contains(&"app.js"));
    assert!(!names.contains(&"debug.log"), "ignored file should not be in snapshot");
}

#[test]
fn ignored_file_still_readable() {
    let (store, root) = build_tree_with_gitignore("*.log\n");
    let mut fs = KikiFs::new(store, root, None, None, 0);
    fs.create_file(fs.root(), "debug.log", false)
        .unwrap();
    let ino = fs.lookup(fs.root(), "debug.log").unwrap();
    fs.write(ino, 0, b"some log data").unwrap();
    let (data, _) = fs.read(ino, 0, 1024).unwrap();
    assert_eq!(data, b"some log data");
}

#[test]
fn ignored_dir_children_inherit() {
    let (store, root) = build_tree_with_gitignore("node_modules/\n");
    let mut fs = KikiFs::new(store, root, None, None, 0);
    fs.mkdir(fs.root(), "node_modules", None).unwrap();
    let nm = fs.lookup(fs.root(), "node_modules").unwrap();
    fs.create_file(nm, "lodash.js", false).unwrap();
    fs.mkdir(nm, "express", None).unwrap();
    let express = fs.lookup(nm, "express").unwrap();
    fs.create_file(express, "index.js", false).unwrap();
    let snap = fs.snapshot().unwrap();
    let tree = read_tree(fs.store(), snap);
    let names: Vec<&str> = tree.iter().map(|e| e.name.as_str()).collect();
    assert!(!names.contains(&"node_modules"), "ignored dir should not be in snapshot");
}

#[test]
fn already_tracked_file_not_ignored() {
    let mut store = GitContentStore::new_in_memory();
    let lib_id = store.write_file(b"lib").unwrap();
    let vendor_entries = vec![GitTreeEntry {
        name: "lib.js".into(),
        kind: GitEntryKind::File { executable: false },
        id: lib_id,
    }];
    let vendor_tree = store.write_tree(&vendor_entries).unwrap();
    let gi_id = store.write_file(b"vendor/\n").unwrap();
    let root_entries = vec![
        GitTreeEntry {
            name: ".gitignore".into(),
            kind: GitEntryKind::File { executable: false },
            id: gi_id,
        },
        GitTreeEntry {
            name: "vendor".into(),
            kind: GitEntryKind::Tree,
            id: vendor_tree,
        },
    ];
    let root_id = store.write_tree(&root_entries).unwrap();
    let root = root_id;

    let mut fs = KikiFs::new(store, root, None, None, 0);
    let vendor = fs.lookup(fs.root(), "vendor").unwrap();
    let lib = fs.lookup(vendor, "lib.js").unwrap();
    fs.write(lib, 0, b"modified lib").unwrap();
    let snap = fs.snapshot().unwrap();
    let tree = read_tree(fs.store(), snap);
    let names: Vec<&str> = tree.iter().map(|e| e.name.as_str()).collect();
    assert!(names.contains(&"vendor"), "already-tracked dir must remain in snapshot");
}

#[test]
fn gitignore_hot_reload() {
    let store = GitContentStore::new_in_memory();
    let empty = Id(EMPTY_TREE);
    let mut fs = KikiFs::new(store, empty, None, None, 0);

    fs.create_file(fs.root(), "tmp.log", false).unwrap();
    let snap1 = fs.snapshot().unwrap();
    let tree1 = read_tree(fs.store(), snap1);
    assert!(
        tree1.iter().any(|e| e.name == "tmp.log"),
        "before .gitignore, tmp.log should be in snapshot"
    );

    fs.create_file(fs.root(), ".gitignore", false)
        .unwrap();
    let gi = fs.lookup(fs.root(), ".gitignore").unwrap();
    fs.write(gi, 0, b"*.log\n").unwrap();

    fs.create_file(fs.root(), "other.log", false)
        .unwrap();

    let snap2 = fs.snapshot().unwrap();
    let tree2 = read_tree(fs.store(), snap2);
    let names: Vec<&str> = tree2.iter().map(|e| e.name.as_str()).collect();
    assert!(names.contains(&".gitignore"));
    assert!(names.contains(&"tmp.log"));
    assert!(!names.contains(&"other.log"), "post-gitignore file should be ignored");
}

#[test]
fn negation_pattern() {
    let (store, root) = build_tree_with_gitignore("*.log\n!important.log\n");
    let mut fs = KikiFs::new(store, root, None, None, 0);
    fs.create_file(fs.root(), "debug.log", false)
        .unwrap();
    fs.create_file(fs.root(), "important.log", false)
        .unwrap();
    let snap = fs.snapshot().unwrap();
    let tree = read_tree(fs.store(), snap);
    let names: Vec<&str> = tree.iter().map(|e| e.name.as_str()).collect();
    assert!(!names.contains(&"debug.log"), "debug.log should be ignored");
    assert!(names.contains(&"important.log"), "!important.log negation should keep it");
}

#[test]
fn redirections_creates_symlink() {
    let mut store = GitContentStore::new_in_memory();
    let redir_id = store.write_file(b"node_modules\n").unwrap();
    let entries = vec![GitTreeEntry {
        name: ".kiki-redirections".into(),
        kind: GitEntryKind::File { executable: false },
        id: redir_id,
    }];
    let root_id = store.write_tree(&entries).unwrap();
    let root = root_id;

    let scratch = tempfile::tempdir().expect("scratch tmpdir");
    let scratch_dir = scratch.path().to_str().unwrap().to_owned();
    let mut fs = KikiFs::new(store, root, Some(scratch_dir), None, 0);
    let wanted = fs.redirect_target(fs.root(), "node_modules").expect("redirected");

    fs.mkdir(fs.root(), "node_modules", None).unwrap();
    let ino = fs.lookup(fs.root(), "node_modules").unwrap();
    let attr = fs.getattr(ino).unwrap();
    assert_eq!(attr.kind, FileKind::Symlink, "redirected dir should be a symlink");

    let target = fs.readlink(ino).unwrap();
    assert!(
        target.starts_with(scratch.path().to_str().unwrap()),
        "symlink should point into scratch dir, got: {target}"
    );

    assert_eq!(target, wanted, "the scratch dir is the one that was asked for");

    let snap = fs.snapshot().unwrap();
    let tree = read_tree(fs.store(), snap);
    let names: Vec<&str> = tree.iter().map(|e| e.name.as_str()).collect();
    assert!(!names.contains(&"node_modules"), "redirected dir should not be in snapshot");
    assert_eq!(fs.lookup(fs.root(), "node_modules"), Ok(ino), "it stays in the working copy");
    assert_eq!(fs.readlink(ino).unwrap(), wanted);
}

#[test]
fn parse_redirections_format() {
    let content = b"# build outputs\ntarget\n\nnode_modules/\n  .venv  \n";
    let result = parse_redirections(content);
    assert_eq!(result, vec!["target", "node_modules", ".venv"]);
}

#[test]
fn failed_scratch_directory_is_reported() {
    let mut store = GitContentStore::new_in_memory();
    let redirections = store.write_file(b"target\n").unwrap();
    let root = store
        .write_tree(&vec![GitTreeEntry {
            name: ".kiki-redirections".into(),
            kind: GitEntryKind::File { executable: false },
            id: redirections,
        }])
        .unwrap();
    let mut fs = KikiFs::new(store, root, Some("/scratch".to_owned()), None, 0);
    let err = fs.mkdir(fs.root(), "target", Some("disk full".to_owned())).unwrap_err();
    assert!(matches!(&err, FsError::StoreError(text) if text.contains("disk full")), "{err:?}");
    assert_eq!(fs.lookup(fs.root(), "target"), Err(FsError::NotFound));
    assert_eq!(fs.redirect_target(fs.root(), "other"), None);
}

#[test]
fn missing_objects_are_named() {
    let mut whole = GitContentStore::new_in_memory();
    let file = whole.write_file(b"far away").unwrap();
    let dir = whole
        .write_tree(&vec![GitTreeEntry {
            name: "f".into(),
            kind: GitEntryKind::File { executable: false },
            id: file,
        }])
        .unwrap();
    let root = whole
        .write_tree(&vec![GitTreeEntry { name: "d".into(), kind: GitEntryKind::Tree, id: dir }])
        .unwrap();
    let mut fs = KikiFs::new(GitContentStore::new_in_memory(), root, None, None, 0);
    assert_eq!(fs.readdir(fs.root()).unwrap_err(), FsError::StoreMiss);
    assert_eq!(fs.missing_object(fs.root()), Some((root, true)));
    let (kind, bytes) = whole.read_git_object_bytes(&root).unwrap();
    fs.import_object(root, kind, bytes).unwrap();
    let d = fs.lookup(fs.root(), "d").unwrap();
    assert_eq!(fs.missing_object(d), Some((dir, true)));
    let (kind, bytes) = whole.read_git_object_bytes(&dir).unwrap();
    fs.import_object(dir, kind, bytes).unwrap();
    let f = fs.lookup(d, "f").unwrap();
    assert_eq!(fs.read(f, 0, 10).unwrap_err(), FsError::StoreMiss);
    assert_eq!(fs.missing_object(f), Some((file, false)));
    assert!(fs.import_object(file, GitObjectKind::Blob, b"forged".to_vec()).is_err());
    fs.import_object(file, GitObjectKind::Blob, b"far away".to_vec()).unwrap();
    assert_eq!(fs.read(f, 0, 8).unwrap(), (b"far away".to_vec(), true));
    assert_eq!(fs.missing_object(f), None);
}

#[test]
fn writes_beyond_the_end_are_filled_with_zeros() {
    let mut fs = KikiFs::new(GitContentStore::new_in_memory(), Id(EMPTY_TREE), None, None, 0);
    let (ino, _) = fs.create_file(fs.root(), "f", false).unwrap();
    fs.write(ino, 3, b"ab").unwrap();
    assert_eq!(fs.read(ino, 0, 10).unwrap(), (vec![0, 0, 0, b'a', b'b'], true));
    let attr = fs.setattr(ino, Some(7), None).unwrap();
    assert_eq!(attr.size, 7);
    assert_eq!(fs.read(ino, 4, 10).unwrap(), (vec![b'b', 0, 0], true));
}

#[test]
fn rename_follows_the_kinds() {
    let mut fs = KikiFs::new(GitContentStore::new_in_memory(), Id(EMPTY_TREE), None, None, 0);
    let root = fs.root();
    let (a, _) = fs.mkdir(root, "a", None).unwrap();
    let (b, _) = fs.mkdir(root, "b", None).unwrap();
    let (f, _) = fs.create_file(root, "f", false).unwrap();
    fs.create_file(b, "inner", false).unwrap();
    assert_eq!(fs.rename(root, "nope", root, "x"), Err(FsError::NotFound));
    assert_eq!(fs.rename(root, "a", root, "b"), Err(FsError::NotEmpty));
    assert_eq!(fs.rename(root, "a", root, "f"), Err(FsError::NotADirectory));
    assert_eq!(fs.rename(root, "f", root, "a"), Err(FsError::NotAFile));
    fs.rename(root, "f", root, "f").unwrap();
    assert_eq!(fs.lookup(root, "f"), Ok(f));
    fs.remove(b, "inner").unwrap();
    fs.rename(root, "a", root, "b").unwrap();
    assert_eq!(fs.lookup(root, "b"), Ok(a));
    assert_eq!(fs.lookup(root, "a"), Err(FsError::NotFound));
}

#[test]
fn listing_and_lookup_agree() {
    let (store, root) = build_synthetic_tree();
    let mut fs = KikiFs::new(store, root, None, None, 0);
    fs.mkdir(fs.root(), ".jj", None).unwrap();
    for entry in fs.readdir(fs.root()).unwrap() {
        assert_eq!(fs.lookup(fs.root(), &entry.name), Ok(entry.inode), "{}", entry.name);
    }
}

#[test]
fn modification_times_come_from_the_commit() {
    let (store, root) = build_synthetic_tree();
    let mut fs = KikiFs::new(store, root, None, None, 1_700_000_000);
    assert_eq!(fs.getattr(fs.root()).unwrap().mtime_secs, 1_700_000_000);
    fs.check_out(root, 0).unwrap();
    assert_eq!(fs.getattr(fs.root()).unwrap().mtime_secs, 1_700_000_000);
    fs.check_out(root, 1_800_000_000).unwrap();
    assert_eq!(fs.getattr(fs.root()).unwrap().mtime_secs, 1_800_000_000);
}

#[test]
fn ignored_file_stays_after_a_snapshot() {
    let (store, root) = build_tree_with_gitignore("*.log\n");
    let mut fs = KikiFs::new(store, root, None, None, 0);
    let (i, _) = fs.create_file(1, "debug.log", false).unwrap();
    assert_eq!(fs.write(i, 0, b"x"), Ok(1));
    let snap = fs.snapshot().unwrap();
    let tree = fs.store().read_tree(&snap).unwrap().unwrap();
    let names: Vec<_> = tree.iter().map(|e| e.name.as_str()).collect();
    assert_eq!(names, vec![".gitignore"]);
    assert_eq!(fs.lookup(1, "debug.log"), Ok(i));
    let listed = fs.readdir(1).unwrap();
    assert_eq!(listed.iter().filter(|e| e.name == "debug.log" && e.inode == i).count(), 1);
    assert_eq!(fs.read(i, 0, 9), Ok((b"x".to_vec(), true)));
    // The working copy goes on from there.
    let (kept, _) = fs.create_file(1, "kept", false).unwrap();
    fs.write(kept, 0, b"k").unwrap();
    let snap = fs.snapshot().unwrap();
    let tree = fs.store().read_tree(&snap).unwrap().unwrap();
    let names: Vec<_> = tree.iter().map(|e| e.name.as_str()).collect();
    assert_eq!(names, vec![".gitignore", "kept"]);
    assert_eq!(fs.lookup(1, "debug.log"), Ok(i));
}

#[test]
fn ignored_entries_of_a_directory_stay_after_a_snapshot() {
    let (store, root) = build_tree_with_gitignore("*.log\n");
    let mut fs = KikiFs::new(store, root, None, None, 0);
    let (dir, _) = fs.mkdir(1, "d", None).unwrap();
    let (log, _) = fs.create_file(dir, "a.log", false).unwrap();
    let (text, _) = fs.create_file(dir, "a.txt", false).unwrap();
    fs.write(text, 0, b"t").unwrap();
    let first = fs.snapshot().unwrap();
    assert_eq!(fs.lookup(dir, "a.log"), Ok(log));
    assert_eq!(fs.lookup(dir, "a.txt"), Ok(text));
    let mut names: Vec<_> = fs.readdir(dir).unwrap().into_iter().map(|e| e.name).collect();
    names.sort();
    assert_eq!(names, vec!["a.log", "a.txt"]);
    assert_eq!(fs.snapshot(), Ok(first), "nothing was changed in between");
    fs.write(text, 0, b"u").unwrap();
    let second = fs.snapshot().unwrap();
    assert_ne!(second, first);
    let sub = fs.store().read_tree(&second).unwrap().unwrap();
    let sub = sub.iter().find(|e| e.name == "d").unwrap().id;
    let sub = fs.store().read_tree(&sub).unwrap().unwrap();
    assert_eq!(sub.len(), 1);
    assert_eq!(fs.store().read_file(&sub[0].id), Ok(Some(b"u".to_vec())));
}

#[test]
fn equal_content_gives_an_equal_snapshot() {
    let mut ids = Vec::new();
    for names in [["a", "b", "c"], ["c", "a", "b"]] {
        let mut fs = KikiFs::new(GitContentStore::new_in_memory(), Id(EMPTY_TREE), None, None, 0);
        let (dir, _) = fs.mkdir(1, "d", None).unwrap();
        for name in names {
            let (file, _) = fs.create_file(dir, name, name == "b").unwrap();
            fs.write(file, 0, name.as_bytes()).unwrap();
        }
        ids.push(fs.snapshot().unwrap());
    }
    assert_eq!(ids[0], ids[1]);
}

#[test]
fn white_space_is_that_of_unicode() {
    for n in 0..0x11_0000u32 {
        if let Some(c) = char::from_u32(n) {
            assert_eq!(is_white_space(c), c.is_whitespace(), "{n:#x}");
        }
    }
}

#[test]
fn redirections_are_named_one_per_line() {
    let text = "# caches\n\n  node_modules/ \r\ntarget//\n\u{a0}out\u{3000}\n#x\nlast";
    assert_eq!(redirections_in(text), vec!["node_modules", "target", "out", "last"]);
    assert_eq!(parse_redirections(text.as_bytes()), redirections_in(text));
    assert!(redirections_in("").is_empty());
}
