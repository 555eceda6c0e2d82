use kiki::git_store::{GitContentStore, GitEntryKind, GitTreeEntry};
use kiki::vfs::fuse_adapter::{
    directory_page, fs_err_to_errno, mode_executable, name_to_str, to_file_attr, Errno, FuseAdapter,
};
use kiki::vfs::inode::ROOT_INODE;
use kiki::vfs::types::{Attr, DirEntry, FileKind, FsError};
use kiki::vfs::yak_fs::YakFs;

fn build_adapter() -> FuseAdapter<YakFs> {
    let mut store = GitContentStore::new_in_memory();
    let hello_id = store.write_file(b"hi").unwrap();
    let root_id = store
        .write_tree(&vec![GitTreeEntry {
            name: "hello.txt".into(),
            kind: GitEntryKind::File { executable: false },
            id: hello_id,
        }])
        .unwrap();
    FuseAdapter::new(YakFs::new(store, root_id))
}

#[test]
fn fuse_adapter_lookup_then_read_round_trips_through_adapter() {
    let mut fuse = build_adapter();
    let attr = fuse.lookup(ROOT_INODE, b"hello.txt").expect("lookup");
    assert_eq!(attr.kind, FileKind::Regular);
    assert_eq!(attr.size, 2);
    let data = fuse.read(attr.ino, 0, 16).expect("read");
    assert_eq!(data, b"hi");
}

#[test]
fn getattr_root_is_directory() {
    let mut fuse = build_adapter();
    let attr = fuse.getattr(ROOT_INODE).expect("getattr");
    assert_eq!(attr.kind, FileKind::Directory);
}

#[test]
fn readdir_includes_dot_and_dotdot_then_real_entries() {
    let mut fuse = build_adapter();
    let entries = fuse.readdir(ROOT_INODE, 0).expect("readdir");
    let names: Vec<_> = entries.iter().map(|e| e.name.clone()).collect();
    assert_eq!(names, vec![".".to_string(), "..".to_string(), "hello.txt".to_string()]);
    assert_eq!(entries[0].kind, FileKind::Directory);
    assert_eq!(entries[1].kind, FileKind::Directory);
    assert_eq!(entries[2].kind, FileKind::Regular);
}

#[test]
fn readdir_offset_resumes_after_dotdot() {
    let mut fuse = build_adapter();
    let entries = fuse.readdir(ROOT_INODE, 2).expect("readdir");
    let names: Vec<_> = entries.iter().map(|e| e.name.clone()).collect();
    assert_eq!(names, vec!["hello.txt".to_string()]);
}

#[test]
fn lookup_missing_returns_enoent() {
    let mut fuse = build_adapter();
    let err = fuse.lookup(ROOT_INODE, b"missing").expect_err("expected ENOENT");
    assert_eq!(err, Errno::Enoent);
}

#[test]
fn fuse_adapter_create_then_write_then_read_round_trips() {
    let mut fuse = build_adapter();
    let created = fuse.create(ROOT_INODE, b"new.txt", 0o644).expect("create");
    let written = fuse.write(created.ino, 0, b"hello").expect("write");
    assert_eq!(written, 5);
    let data = fuse.read(created.ino, 0, 1024).expect("read");
    assert_eq!(data, b"hello");
}

#[test]
fn fuse_adapter_mkdir_then_lookup_round_trips() {
    let mut fuse = build_adapter();
    let created = fuse.mkdir(ROOT_INODE, b"sub", None).expect("mkdir");
    assert_eq!(created.kind, FileKind::Directory);
    let looked = fuse.lookup(ROOT_INODE, b"sub").expect("lookup");
    assert_eq!(looked.ino, created.ino);
}

#[test]
fn setattr_truncates_via_adapter() {
    let mut fuse = build_adapter();
    let entry = fuse.lookup(ROOT_INODE, b"hello.txt").unwrap();
    let after = fuse.setattr(entry.ino, Some(0), None).expect("setattr");
    assert_eq!(after.size, 0);
}

#[test]
fn unlink_then_lookup_is_enoent() {
    let mut fuse = build_adapter();
    fuse.unlink(ROOT_INODE, b"hello.txt").expect("unlink");
    let err = fuse.lookup(ROOT_INODE, b"hello.txt").expect_err("ENOENT");
    assert_eq!(err, Errno::Enoent);
}

#[test]
fn fuse_errors() {
    for (e, expected) in [
        (FsError::NotFound, Errno::Enoent),
        (FsError::NotADirectory, Errno::Enotdir),
        (FsError::NotAFile, Errno::Eisdir),
        (FsError::NotASymlink, Errno::Einval),
        (FsError::AlreadyExists, Errno::Eexist),
        (FsError::NotEmpty, Errno::Enotempty),
        (FsError::PermissionDenied, Errno::Eacces),
        (FsError::CrossDevice, Errno::Exdev),
        (FsError::StoreMiss, Errno::Eio),
        (FsError::StoreError("broken".to_owned()), Errno::Eio),
    ] {
        assert_eq!(fs_err_to_errno(e), expected);
    }
    assert_eq!(name_to_str(b"\xff"), Err(Errno::Enoent));
    assert_eq!(name_to_str("caf\u{e9}".as_bytes()), Ok("caf\u{e9}".to_owned()));
}

#[test]
fn fuse_attributes() {
    let mut attr = Attr {
        inode: 9,
        kind: FileKind::Regular,
        size: 513,
        executable: true,
        mtime_secs: 77,
    };
    let shown = to_file_attr(attr);
    assert_eq!((shown.ino, shown.size, shown.blocks, shown.perm, shown.nlink), (9, 513, 2, 0o755, 1));
    attr.executable = false;
    assert_eq!(to_file_attr(attr).perm, 0o644);
    attr.kind = FileKind::Symlink;
    assert_eq!(to_file_attr(attr).perm, 0o777);
    attr.kind = FileKind::Directory;
    assert_eq!(to_file_attr(attr).perm, 0o755);
    assert!(mode_executable(0o100) && mode_executable(0o755) && !mode_executable(0o666));
}

#[test]
fn pages_resume_behind_an_offset() {
    let entries: Vec<DirEntry> = ["a", "b", "c"]
        .iter()
        .enumerate()
        .map(|(i, name)| DirEntry {
            inode: 10 + i as u64,
            name: (*name).to_owned(),
            kind: FileKind::Regular,
        })
        .collect();
    let all = directory_page(7, &entries, 0);
    let names: Vec<_> = all.iter().map(|e| (e.name.as_str(), e.inode)).collect();
    assert_eq!(names, vec![(".", 7), ("..", 7), ("a", 10), ("b", 11), ("c", 12)]);
    let rest = directory_page(7, &entries, all[2].offset);
    let names: Vec<_> = rest.iter().map(|e| e.name.as_str()).collect();
    assert_eq!(names, vec!["b", "c"]);
    assert!(directory_page(7, &entries, all[4].offset).is_empty());
}

#[test]
fn symlinks_and_removals_pass_through() {
    let mut fuse = build_adapter();
    let link = fuse.symlink(ROOT_INODE, b"link", b"hello.txt").expect("symlink");
    assert_eq!(fuse.readlink(link.ino).expect("readlink"), b"hello.txt");
    assert_eq!(fuse.lookup(ROOT_INODE, b"link").unwrap().ino, link.ino);
    let dir = fuse.mkdir(ROOT_INODE, b"d", None).expect("mkdir");
    fuse.mknod(dir.ino, b"x", 0o755).expect("mknod");
    assert_eq!(fuse.rmdir(ROOT_INODE, b"d"), Err(Errno::Enotempty));
    fuse.unlink(dir.ino, b"x").expect("unlink");
    fuse.rmdir(ROOT_INODE, b"d").expect("rmdir");
    assert_eq!(fuse.redirect_target(ROOT_INODE, b"d"), None);
}
