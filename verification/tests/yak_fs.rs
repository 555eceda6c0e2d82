use kiki::git_store::{GitContentStore, GitEntryKind, GitTreeEntry, EMPTY_TREE};
use kiki::ty::Id;
use kiki::vfs::types::{FileKind, FsError};
use kiki::vfs::yak_fs::{JjYakFs, YakFs};

fn build_synthetic_tree() -> (GitContentStore, Id) {
    let mut store = GitContentStore::new_in_memory();
    let hello_id = store.write_file(b"hi\n").unwrap();
    let tool_id = store.write_file(b"x").unwrap();
    let link_id = store.write_symlink("hello.txt").unwrap();
    let bin_entries = vec![GitTreeEntry {
        name: "tool".into(),
        kind: GitEntryKind::File { executable: true },
        id: tool_id,
    }];
    let bin_id = store.write_tree(&bin_entries).unwrap();
    let root_entries = vec![
        GitTreeEntry {
            name: "bin".into(),
            kind: GitEntryKind::Tree,
            id: bin_id,
        },
        GitTreeEntry {
            name: "hello.txt".into(),
            kind: GitEntryKind::File { executable: false },
            id: hello_id,
        },
        GitTreeEntry {
            name: "link".into(),
            kind: GitEntryKind::Symlink,
            id: link_id,
        },
    ];
    let root_id = store.write_tree(&root_entries).unwrap();
    (store, root_id)
}

fn read_tree(store: &GitContentStore, id: Id) -> Vec<GitTreeEntry> {
    store
        .read_tree(&id)
        .expect("read_tree")
        .expect("tree present")
}

fn read_file_content(store: &GitContentStore, id: Id) -> Vec<u8> {
    store
        .read_file(&id)
        .expect("read_file")
        .expect("file present")
}

fn read_symlink_target(store: &GitContentStore, id: Id) -> String {
    store
        .read_symlink(&id)
        .expect("read_symlink")
        .expect("symlink present")
}

fn find_entry<'a>(entries: &'a [GitTreeEntry], name: &str) -> &'a GitTreeEntry {
    entries.iter().find(|e| e.name == name).expect(name)
}

#[test]
fn yak_fs_empty_repo_has_only_root() {
    let store = GitContentStore::new_in_memory();
    let mut fs = YakFs::new(store, Id(EMPTY_TREE));
    let entries = fs.readdir(fs.root()).expect("readdir empty root");
    assert!(entries.is_empty(), "got {entries:?}");
    let attr = fs.getattr(fs.root()).expect("getattr root");
    assert_eq!(attr.kind, FileKind::Directory);
}

#[test]
fn yak_fs_lookup_finds_top_level_file() {
    let (store, root) = build_synthetic_tree();
    let mut fs = YakFs::new(store, root);
    let id = fs.lookup(fs.root(), "hello.txt").expect("lookup");
    let attr = fs.getattr(id).expect("getattr");
    assert_eq!(attr.kind, FileKind::Regular);
    assert_eq!(attr.size, 3);
    assert!(!attr.executable);
}

#[test]
fn yak_fs_lookup_traverses_subdirectory() {
    let (store, root) = build_synthetic_tree();
    let mut fs = YakFs::new(store, root);
    let bin_id = fs.lookup(fs.root(), "bin").expect("bin");
    let bin_attr = fs.getattr(bin_id).expect("getattr bin");
    assert_eq!(bin_attr.kind, FileKind::Directory);
    let tool_id = fs.lookup(bin_id, "tool").expect("tool");
    let tool_attr = fs.getattr(tool_id).expect("getattr tool");
    assert_eq!(tool_attr.kind, FileKind::Regular);
    assert!(tool_attr.executable);
}

#[test]
fn yak_fs_lookup_is_idempotent() {
    let (store, root) = build_synthetic_tree();
    let mut fs = YakFs::new(store, root);
    let a = fs.lookup(fs.root(), "hello.txt").unwrap();
    let b = fs.lookup(fs.root(), "hello.txt").unwrap();
    assert_eq!(a, b);
}

#[test]
fn yak_fs_read_returns_file_content_with_eof_flag() {
    let (store, root) = build_synthetic_tree();
    let mut fs = YakFs::new(store, root);
    let id = fs.lookup(fs.root(), "hello.txt").unwrap();

    let (data, eof) = fs.read(id, 0, 1024).unwrap();
    assert_eq!(data, b"hi\n");
    assert!(eof);

    let (data, eof) = fs.read(id, 0, 1).unwrap();
    assert_eq!(data, b"h");
    assert!(!eof);

    let (data, eof) = fs.read(id, 99, 1024).unwrap();
    assert!(data.is_empty());
    assert!(eof);
}

#[test]
fn yak_fs_readdir_lists_all_top_level_entries_with_kind() {
    let (store, root) = build_synthetic_tree();
    let mut fs = YakFs::new(store, root);
    let mut entries = fs.readdir(fs.root()).unwrap();
    entries.sort_by(|a, b| a.name.cmp(&b.name));
    let names: Vec<_> = entries.iter().map(|e| e.name.as_str()).collect();
    assert_eq!(names, vec!["bin", "hello.txt", "link"]);
    let kinds: Vec<_> = entries.iter().map(|e| e.kind).collect();
    assert_eq!(
        kinds,
        vec![
            FileKind::Directory,
            FileKind::Regular,
            FileKind::Symlink
        ]
    );
}

#[test]
fn yak_fs_readlink_returns_target() {
    let (store, root) = build_synthetic_tree();
    let mut fs = YakFs::new(store, root);
    let id = fs.lookup(fs.root(), "link").unwrap();
    assert_eq!(fs.readlink(id).unwrap(), "hello.txt");
}

#[test]
fn yak_fs_lookup_unknown_name_is_not_found() {
    let (store, root) = build_synthetic_tree();
    let mut fs = YakFs::new(store, root);
    let err = fs.lookup(fs.root(), "missing").unwrap_err();
    assert_eq!(err, FsError::NotFound);
}

#[test]
fn yak_fs_read_on_directory_is_not_a_file() {
    let (store, root) = build_synthetic_tree();
    let mut fs = YakFs::new(store, root);
    let err = fs.read(fs.root(), 0, 16).unwrap_err();
    assert_eq!(err, FsError::NotAFile);
}

#[test]
fn yak_fs_readdir_on_file_is_not_a_directory() {
    let (store, root) = build_synthetic_tree();
    let mut fs = YakFs::new(store, root);
    let id = fs.lookup(fs.root(), "hello.txt").unwrap();
    let err = fs.readdir(id).unwrap_err();
    assert_eq!(err, FsError::NotADirectory);
}

#[test]
fn yak_fs_getattr_on_unknown_inode_is_not_found() {
    let (store, root) = build_synthetic_tree();
    let mut fs = YakFs::new(store, root);
    let err = fs.getattr(99_999).unwrap_err();
    assert_eq!(err, FsError::NotFound);
}

#[test]
fn yak_fs_check_out_swaps_visible_tree() {
    let mut store = GitContentStore::new_in_memory();
    let a_content_id = store.write_file(b"a-content").unwrap();
    let b_content_id = store.write_file(b"b-content").unwrap();
    let tree_a = store.write_tree(&vec![GitTreeEntry {
            name: "only-in-a.txt".into(),
            kind: GitEntryKind::File { executable: false },
            id: a_content_id,
        }])
        .unwrap();
    let tree_b = store.write_tree(&vec![GitTreeEntry {
            name: "only-in-b.txt".into(),
            kind: GitEntryKind::File { executable: false },
            id: b_content_id,
        }])
        .unwrap();

    let mut fs = YakFs::new(store, tree_a);
    fs.lookup(fs.root(), "only-in-a.txt").expect("A");
    assert_eq!(
        fs.lookup(fs.root(), "only-in-b.txt").unwrap_err(),
        FsError::NotFound
    );

    fs.check_out(tree_b).expect("check_out");
    fs.lookup(fs.root(), "only-in-b.txt").expect("B");
    assert_eq!(
        fs.lookup(fs.root(), "only-in-a.txt").unwrap_err(),
        FsError::NotFound
    );
}

#[test]
fn yak_fs_check_out_unknown_tree_is_store_miss() {
    let (store, root) = build_synthetic_tree();
    let mut fs = YakFs::new(store, root);
    let err = fs.check_out(Id([0xff; 20])).unwrap_err();
    assert_eq!(err, FsError::StoreMiss);
    fs.lookup(fs.root(), "hello.txt").expect("still A");
}

#[test]
fn yak_fs_create_write_read_round_trips() {
    let store = GitContentStore::new_in_memory();
    let mut fs = YakFs::new(store, Id(EMPTY_TREE));
    let (file_ino, attr) = fs
        .create_file(fs.root(), "hello.txt", false)
        .expect("create_file");
    assert_eq!(attr.kind, FileKind::Regular);
    assert_eq!(attr.size, 0);

    let n = fs.write(file_ino, 0, b"hello world").unwrap();
    assert_eq!(n, 11);

    let (data, eof) = fs.read(file_ino, 0, 1024).unwrap();
    assert_eq!(data, b"hello world");
    assert!(eof);

    let new_root = fs.snapshot().expect("snapshot");
    assert_ne!(new_root, Id(EMPTY_TREE));
    let tree = read_tree(fs.store(), new_root);
    let entry = find_entry(&tree, "hello.txt");
    assert!(matches!(entry.kind, GitEntryKind::File { .. }));

    let (data, _) = fs.read(file_ino, 0, 1024).unwrap();
    assert_eq!(data, b"hello world");
}

#[test]
fn yak_fs_mkdir_then_create_inside_round_trips() {
    let store = GitContentStore::new_in_memory();
    let mut fs = YakFs::new(store, Id(EMPTY_TREE));

    let (dir_ino, _) = fs.mkdir(fs.root(), "dir").expect("mkdir");
    let (file_ino, _) = fs
        .create_file(dir_ino, "file", false)
        .expect("create_file");
    fs.write(file_ino, 0, b"content").unwrap();

    let new_root = fs.snapshot().expect("snapshot");

    let root_tree = read_tree(fs.store(), new_root);
    let dir_entry = find_entry(&root_tree, "dir");
    assert!(matches!(dir_entry.kind, GitEntryKind::Tree));
    let dir_id = dir_entry.id;
    let dir_tree = read_tree(fs.store(), dir_id);
    let file_entry = find_entry(&dir_tree, "file");
    assert!(matches!(file_entry.kind, GitEntryKind::File { .. }));
    let file_id = file_entry.id;
    let content = read_file_content(fs.store(), file_id);
    assert_eq!(content, b"content");
}

#[test]
fn yak_fs_symlink_round_trips() {
    let store = GitContentStore::new_in_memory();
    let mut fs = YakFs::new(store, Id(EMPTY_TREE));
    let (link_ino, attr) = fs
        .symlink(fs.root(), "link", "target")
        .expect("symlink");
    assert_eq!(attr.kind, FileKind::Symlink);
    assert_eq!(fs.readlink(link_ino).unwrap(), "target");

    let new_root = fs.snapshot().expect("snapshot");
    let root_tree = read_tree(fs.store(), new_root);
    let link_entry = find_entry(&root_tree, "link");
    assert!(matches!(link_entry.kind, GitEntryKind::Symlink));
    let symlink_id = link_entry.id;
    let target = read_symlink_target(fs.store(), symlink_id);
    assert_eq!(target, "target");

    assert_eq!(fs.readlink(link_ino).unwrap(), "target");
}

#[test]
fn yak_fs_create_collision_is_already_exists() {
    let store = GitContentStore::new_in_memory();
    let mut fs = YakFs::new(store, Id(EMPTY_TREE));
    fs.create_file(fs.root(), "a", false).unwrap();
    let err = fs
        .create_file(fs.root(), "a", false)
        .expect_err("duplicate must fail");
    assert_eq!(err, FsError::AlreadyExists);
}

#[test]
fn yak_fs_setattr_truncates_file() {
    let store = GitContentStore::new_in_memory();
    let mut fs = YakFs::new(store, Id(EMPTY_TREE));
    let (ino, _) = fs.create_file(fs.root(), "f", false).unwrap();
    fs.write(ino, 0, b"hello").unwrap();

    let attr = fs
        .setattr(ino, Some(0), None)
        .expect("setattr truncate");
    assert_eq!(attr.size, 0);

    let (data, eof) = fs.read(ino, 0, 1024).unwrap();
    assert!(data.is_empty());
    assert!(eof);
}

#[test]
fn yak_fs_setattr_chmod_preserves_content() {
    let store = GitContentStore::new_in_memory();
    let mut fs = YakFs::new(store, Id(EMPTY_TREE));
    let (ino, _) = fs.create_file(fs.root(), "f", false).unwrap();
    fs.write(ino, 0, b"hello").unwrap();

    let attr = fs.setattr(ino, None, Some(true)).expect("chmod");
    assert!(attr.executable);

    let new_root = fs.snapshot().expect("snapshot");
    let tree = read_tree(fs.store(), new_root);
    let entry = find_entry(&tree, "f");
    assert!(matches!(
        entry.kind,
        GitEntryKind::File { executable: true }
    ));
}

#[test]
fn yak_fs_remove_file_then_lookup_is_not_found() {
    let store = GitContentStore::new_in_memory();
    let mut fs = YakFs::new(store, Id(EMPTY_TREE));
    fs.create_file(fs.root(), "f", false).unwrap();
    fs.remove(fs.root(), "f").expect("remove");
    let err = fs.lookup(fs.root(), "f").unwrap_err();
    assert_eq!(err, FsError::NotFound);
}

#[test]
fn yak_fs_remove_non_empty_directory_is_not_empty() {
    let store = GitContentStore::new_in_memory();
    let mut fs = YakFs::new(store, Id(EMPTY_TREE));
    let (dir, _) = fs.mkdir(fs.root(), "dir").unwrap();
    fs.create_file(dir, "f", false).unwrap();

    let err = fs.remove(fs.root(), "dir").unwrap_err();
    assert_eq!(err, FsError::NotEmpty);
    fs.lookup(fs.root(), "dir").expect("dir survives");
}

#[test]
fn yak_fs_snapshot_clean_returns_existing_root() {
    let (store, root) = build_synthetic_tree();
    let mut fs = YakFs::new(store, root);
    let id = fs.snapshot().expect("snapshot");
    assert_eq!(id, root);
}

#[test]
fn yak_fs_snapshot_is_deterministic_under_insertion_order() {
    let store_a = GitContentStore::new_in_memory();
    let mut fs_a = YakFs::new(store_a, Id(EMPTY_TREE));
    fs_a.create_file(fs_a.root(), "a", false).unwrap();
    fs_a.create_file(fs_a.root(), "b", false).unwrap();
    let id_a = fs_a.snapshot().unwrap();

    let store_b = GitContentStore::new_in_memory();
    let mut fs_b = YakFs::new(store_b, Id(EMPTY_TREE));
    fs_b.create_file(fs_b.root(), "b", false).unwrap();
    fs_b.create_file(fs_b.root(), "a", false).unwrap();
    let id_b = fs_b.snapshot().unwrap();

    assert_eq!(id_a, id_b);
}

#[test]
fn yak_fs_snapshot_preserves_inode_ids() {
    let store = GitContentStore::new_in_memory();
    let mut fs = YakFs::new(store, Id(EMPTY_TREE));
    let (ino, _) = fs.create_file(fs.root(), "f", false).unwrap();
    fs.write(ino, 0, b"x").unwrap();
    fs.snapshot().unwrap();
    let (data, _) = fs.read(ino, 0, 1024).unwrap();
    assert_eq!(data, b"x");
}

#[test]
fn yak_fs_rename_moves_the_entry() {
    let mut fs = YakFs::new(GitContentStore::new_in_memory(), Id(EMPTY_TREE));
    let root = fs.root();
    let (dir, _) = fs.mkdir(root, "d").unwrap();
    let (file, _) = fs.create_file(root, "f", false).unwrap();
    fs.write(file, 0, b"moved").unwrap();
    fs.rename(root, "f", dir, "g").unwrap();
    assert_eq!(fs.lookup(root, "f"), Err(FsError::NotFound));
    assert_eq!(fs.lookup(dir, "g"), Ok(file));
    assert_eq!(fs.read(file, 0, 10).unwrap(), (b"moved".to_vec(), true));
    let snap = fs.snapshot().unwrap();
    let dir_id = find_entry(&read_tree(fs.store(), snap), "d").id;
    let file_id = find_entry(&read_tree(fs.store(), dir_id), "g").id;
    assert_eq!(read_file_content(fs.store(), file_id), b"moved");
}

#[test]
fn yak_fs_write_after_a_snapshot_is_in_the_next_one() {
    let mut fs = YakFs::new(GitContentStore::new_in_memory(), Id(EMPTY_TREE));
    let (dir, _) = fs.mkdir(fs.root(), "d").unwrap();
    let (f, _) = fs.create_file(dir, "f", false).unwrap();
    let s1 = fs.snapshot().unwrap();
    fs.write(f, 0, b"x").unwrap();
    let s2 = fs.snapshot().unwrap();
    assert_ne!(s1, s2);
    let sub = find_entry(&read_tree(fs.store(), s2), "d").id;
    let file = find_entry(&read_tree(fs.store(), sub), "f").id;
    assert_eq!(read_file_content(fs.store(), file), b"x");

    fs.setattr(f, None, Some(true)).unwrap();
    fs.symlink(dir, "l", "f").unwrap();
    let s3 = fs.snapshot().unwrap();
    let sub = find_entry(&read_tree(fs.store(), s3), "d").id;
    let entries = read_tree(fs.store(), sub);
    assert_eq!(find_entry(&entries, "f").kind, GitEntryKind::File { executable: true });
    assert_eq!(read_symlink_target(fs.store(), find_entry(&entries, "l").id), "f");

    fs.remove(dir, "f").unwrap();
    let s4 = fs.snapshot().unwrap();
    let sub = find_entry(&read_tree(fs.store(), s4), "d").id;
    let names: Vec<_> = read_tree(fs.store(), sub).into_iter().map(|e| e.name).collect();
    assert_eq!(names, vec!["l"]);
}

#[test]
fn yak_fs_write_to_a_checked_out_file_is_in_the_next_snapshot() {
    let (store, root) = build_synthetic_tree();
    let mut fs = YakFs::new(store, root);
    let bin = fs.lookup(fs.root(), "bin").unwrap();
    let tool = fs.lookup(bin, "tool").unwrap();
    fs.write(tool, 1, b"yz").unwrap();
    let snap = fs.snapshot().unwrap();
    let sub = find_entry(&read_tree(fs.store(), snap), "bin").id;
    let entries = read_tree(fs.store(), sub);
    assert_eq!(read_file_content(fs.store(), find_entry(&entries, "tool").id), b"xyz");
    let top = read_tree(fs.store(), snap);
    assert_eq!(read_file_content(fs.store(), find_entry(&top, "hello.txt").id), b"hi\n");
}
