use kiki::git_store::{GitContentStore, GitEntryKind, GitTreeEntry};
use kiki::vfs::kiki_fs::KikiFs;
use kiki::vfs::nfs_adapter::{
    fs_err_to_nfs, name_to_string, to_fattr3, NfsAdapter, NfsStatus, Owner,
};
use kiki::vfs::types::{Attr, FileKind, FsError};

fn build_adapter() -> NfsAdapter<KikiFs> {
    let mut store = GitContentStore::new_in_memory();
    let hello_id = store.write_file(b"hi").unwrap();
    let root_id = store
        .write_tree(&vec![GitTreeEntry {
            name: "hello.txt".into(),
            kind: GitEntryKind::File { executable: false },
            id: hello_id,
        }])
        .unwrap();
    let fs = KikiFs::new(store, root_id, None, None, 0);
    NfsAdapter::new(fs, Owner { uid: 1000, gid: 100 })
}

#[test]
fn root_attrs_resolve() {
    let mut nfs = build_adapter();
    let attr = nfs.getattr(nfs.root_dir()).expect("getattr");
    assert!(matches!(attr.kind, FileKind::Directory));
}

#[test]
fn nfs_adapter_lookup_then_read_round_trips_through_adapter() {
    let mut nfs = build_adapter();
    let id = nfs.lookup(nfs.root_dir(), b"hello.txt").expect("lookup");
    let attr = nfs.getattr(id).expect("getattr");
    assert!(matches!(attr.kind, FileKind::Regular));
    assert_eq!(attr.size, 2);
    let (data, eof) = nfs.read(id, 0, 16).expect("read");
    assert_eq!(data, b"hi");
    assert!(eof);
}

#[test]
fn readdir_returns_entries_with_attrs() {
    let mut nfs = build_adapter();
    let result = nfs.readdir(nfs.root_dir(), 0, 100).expect("readdir");
    assert!(result.end);
    assert_eq!(result.entries.len(), 2);
    let names: Vec<_> = result.entries.iter().map(|e| e.name.clone()).collect();
    assert!(names.contains(&b"hello.txt".to_vec()));
    assert!(names.contains(&b".git".to_vec()));
    let hello = result.entries.iter().find(|e| e.name == b"hello.txt").unwrap();
    assert!(matches!(hello.attr.kind, FileKind::Regular));
    let git = result.entries.iter().find(|e| e.name == b".git").unwrap();
    assert!(matches!(git.attr.kind, FileKind::Regular));
}

#[test]
fn write_on_directory_is_isdir() {
    let mut nfs = build_adapter();
    let err = nfs.write(nfs.root_dir(), 0, b"x").expect_err("write to a directory must fail");
    assert!(matches!(err, NfsStatus::IsDir), "got {err:?}");
}

#[test]
fn nfs_adapter_create_then_write_then_read_round_trips() {
    let mut nfs = build_adapter();
    let (id, _) = nfs.create(nfs.root_dir(), b"new.txt", None, None).expect("create");
    let post_attr = nfs.write(id, 0, b"hello").expect("write");
    assert_eq!(post_attr.size, 5);
    let (data, eof) = nfs.read(id, 0, 1024).expect("read");
    assert_eq!(data, b"hello");
    assert!(eof);
}

#[test]
fn nfs_adapter_mkdir_then_lookup_round_trips() {
    let mut nfs = build_adapter();
    let (id, attr) = nfs.mkdir(nfs.root_dir(), b"sub", None).expect("mkdir");
    assert!(matches!(attr.kind, FileKind::Directory));
    let looked = nfs.lookup(nfs.root_dir(), b"sub").expect("lookup");
    assert_eq!(looked, id);
}

#[test]
fn symlink_then_readlink_round_trips() {
    let mut nfs = build_adapter();
    let (id, attr) = nfs.symlink(nfs.root_dir(), b"link", b"target").expect("symlink");
    assert!(matches!(attr.kind, FileKind::Symlink));
    let target = nfs.readlink(id).expect("readlink");
    assert_eq!(target, b"target");
}

#[test]
fn nfs_errors() {
    for (e, expected) in [
        (FsError::NotFound, NfsStatus::NoEnt),
        (FsError::NotADirectory, NfsStatus::NotDir),
        (FsError::NotAFile, NfsStatus::IsDir),
        (FsError::NotASymlink, NfsStatus::Inval),
        (FsError::AlreadyExists, NfsStatus::Exist),
        (FsError::NotEmpty, NfsStatus::NotEmpty),
        (FsError::PermissionDenied, NfsStatus::Acces),
        (FsError::CrossDevice, NfsStatus::XDev),
        (FsError::StoreMiss, NfsStatus::Io),
        (FsError::StoreError("broken".to_owned()), NfsStatus::Io),
    ] {
        assert_eq!(fs_err_to_nfs(e), expected);
    }
    assert_eq!(name_to_string(b"\xc3"), Err(NfsStatus::Inval));
    assert_eq!(name_to_string(b"plain"), Ok("plain".to_owned()));
}

#[test]
fn nfs_attributes_belong_to_the_owner() {
    let attr = Attr {
        inode: 5,
        kind: FileKind::Regular,
        size: 12,
        executable: true,
        mtime_secs: 3,
    };
    let shown = to_fattr3(Owner { uid: 1, gid: 2 }, attr);
    assert_eq!((shown.uid, shown.gid, shown.mode, shown.nlink), (1, 2, 0o755, 1));
    assert_eq!((shown.size, shown.used, shown.fileid), (12, 12, 5));
}

#[test]
fn pages_continue_behind_an_inode() {
    let mut nfs = build_adapter();
    let root = nfs.root_dir();
    for name in ["a", "b", "c"] {
        nfs.create(root, name.as_bytes(), Some(0o755), None).expect("create");
    }
    let mut seen = Vec::new();
    let mut last = 0;
    loop {
        let page = nfs.readdir(root, last, 2).expect("readdir");
        assert!(page.entries.len() <= 2);
        for e in &page.entries {
            seen.push(e.name.clone());
            last = e.fileid;
        }
        if page.end {
            break;
        }
    }
    assert_eq!(seen.len(), 5);
    let all = nfs.readdir(root, 0, 100).expect("readdir");
    let names: Vec<_> = all.entries.iter().map(|e| e.name.clone()).collect();
    assert_eq!(seen, names);
    let stale = nfs.readdir(root, 9999, 100).expect("readdir");
    assert!(stale.end && stale.entries.is_empty());
    assert!(!nfs.readdir(root, 0, 0).expect("readdir").end);
}

#[test]
fn create_takes_mode_and_size() {
    let mut nfs = build_adapter();
    let root = nfs.root_dir();
    let (id, attr) = nfs.create(root, b"big", Some(0o700), Some(4)).expect("create");
    assert_eq!((attr.size, attr.mode), (4, 0o755));
    assert_eq!(nfs.read(id, 0, 10).expect("read"), (vec![0; 4], true));
    assert_eq!(nfs.create_exclusive(root, b"big"), Err(NfsStatus::Exist));
    let after = nfs.setattr(id, Some(1), Some(0o644)).expect("setattr");
    assert_eq!((after.size, after.mode), (1, 0o644));
    nfs.rename(root, b"big", root, b"small").expect("rename");
    nfs.remove(root, b"small").expect("remove");
    assert_eq!(nfs.lookup(root, b"small"), Err(NfsStatus::NoEnt));
    assert_eq!(nfs.rename(root, b"\xff", root, b"x"), Err(NfsStatus::Inval));
}
