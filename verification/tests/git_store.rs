use kiki::git_store::{
    hash_object, order_entries, tree_from_bytes, tree_to_bytes, GitContentStore, GitEntryKind,
    GitObjectKind, GitTreeEntry, StoreFault, EMPTY_TREE,
};
use kiki::ty::Id;

fn file(name: &str, id: Id) -> GitTreeEntry {
    GitTreeEntry { name: name.to_owned(), kind: GitEntryKind::File { executable: false }, id }
}

fn dir(name: &str, id: Id) -> GitTreeEntry {
    GitTreeEntry { name: name.to_owned(), kind: GitEntryKind::Tree, id }
}

#[test]
fn ids_are_those_of_git() {
    let id = hash_object(GitObjectKind::Blob, b"hello\n").unwrap();
    assert_eq!(id.to_string(), "ce013625030ba8dba906f756967f9e9ca394464a");
    let id = hash_object(GitObjectKind::Tree, b"").unwrap();
    assert_eq!(id.0, EMPTY_TREE);
    assert_eq!(id.to_string(), "4b825dc642cb6eb9a060e54bf8d69288fbee4904");
    let id = hash_object(GitObjectKind::Blob, b"").unwrap();
    assert_eq!(id.to_string(), "e69de29bb2d1d6434b8b29ae775ad8c2e48c5391");
}

#[test]
fn trees_have_the_form_of_git() {
    let id = Id([0x11; 20]);
    let entries = vec![
        file("a", id),
        GitTreeEntry {
            name: "b".to_owned(),
            kind: GitEntryKind::File { executable: true },
            id,
        },
        dir("c", id),
        GitTreeEntry { name: "d".to_owned(), kind: GitEntryKind::Symlink, id },
        GitTreeEntry { name: "e".to_owned(), kind: GitEntryKind::Submodule, id },
    ];
    let bytes = tree_to_bytes(&entries).unwrap();
    let mut expected = Vec::new();
    for head in ["100644 a\0", "100755 b\0", "40000 c\0", "120000 d\0", "160000 e\0"] {
        expected.extend_from_slice(head.as_bytes());
        expected.extend_from_slice(&[0x11; 20]);
    }
    assert_eq!(bytes, expected);
    assert_eq!(tree_from_bytes(&bytes), Some(entries));
    assert_eq!(tree_from_bytes(&bytes[..30]), None);
    assert_eq!(tree_from_bytes(b"100600 x"), None);
    assert_eq!(tree_to_bytes(&vec![file("a\0b", id)]), None);
}

#[test]
fn directories_are_ordered_as_if_they_ended_in_a_slash() {
    let id = Id([1; 20]);
    let ordered = order_entries(&vec![file("foo0", id), dir("foo", id), file("foo.txt", id)]);
    let names: Vec<_> = ordered.iter().map(|e| e.name.as_str()).collect();
    assert_eq!(names, vec!["foo.txt", "foo", "foo0"]);
}

#[test]
fn contents_are_read_back() {
    let mut store = GitContentStore::new_in_memory();
    let id = store.write_file(b"content").unwrap();
    assert_eq!(store.read_file(&id), Ok(Some(b"content".to_vec())));
    assert_eq!(store.read_tree(&id), Err(StoreFault::NotATree));
    assert_eq!(store.read_commit(&id), Err(StoreFault::NotACommit));
    let link = store.write_symlink("../target").unwrap();
    assert_eq!(store.read_symlink(&link), Ok(Some("../target".to_owned())));
    let not_text = store.write_file(&[0xff, 0xfe]).unwrap();
    assert_eq!(store.read_symlink(&not_text), Err(StoreFault::TargetNotUtf8));
    let tree = store.write_tree(&vec![file("z", id), file("a", id)]).unwrap();
    assert_eq!(store.read_tree(&tree), Ok(Some(vec![file("a", id), file("z", id)])));
    assert_eq!(store.read_file(&tree), Err(StoreFault::NotABlob));
    assert_eq!(store.read_tree(&store.empty_tree_id()), Ok(Some(Vec::new())));
    assert_eq!(store.read_file(&Id([7; 20])), Ok(None));
    assert_eq!(store.write_tree(&vec![file("a\0", id)]), Err(StoreFault::ZeroInName));
    let broken = store.write_object(GitObjectKind::Tree, b"broken".to_vec()).unwrap();
    assert_eq!(store.read_tree(&broken), Err(StoreFault::MalformedTree));
}

#[test]
fn imported_objects_must_have_their_id() {
    let mut store = GitContentStore::new("/repo.git".to_owned());
    assert_eq!(store.git_repo_path(), "/repo.git");
    let id = hash_object(GitObjectKind::Blob, b"fetched").unwrap();
    let wrong = store.import_object(id, GitObjectKind::Blob, b"forged".to_vec());
    assert_eq!(wrong, Err(StoreFault::IdMismatch));
    assert!(store.object(&id).is_none());
    assert_eq!(store.import_object(id, GitObjectKind::Blob, b"fetched".to_vec()), Ok(()));
    assert_eq!(
        store.read_git_object_bytes(&id),
        Some((GitObjectKind::Blob, b"fetched".to_vec()))
    );
    let said = StoreFault::IdMismatch.to_string();
    assert_eq!(said, "object bytes do not match their id");
}

#[test]
fn unusual_modes_are_read() {
    let id = Id([0x22; 20]);
    let plain = GitEntryKind::File { executable: false };
    let tool = GitEntryKind::File { executable: true };
    let cases: [(&str, Option<GitEntryKind>); 9] = [
        ("100664", Some(plain)),
        ("100600", Some(plain)),
        ("100775", Some(tool)),
        ("040000", Some(GitEntryKind::Tree)),
        ("40755", Some(GitEntryKind::Tree)),
        ("120777", Some(GitEntryKind::Symlink)),
        ("160000", Some(GitEntryKind::Submodule)),
        ("100684", None),
        ("11111111", None),
    ];
    for (mode, kind) in cases {
        let mut bytes = format!("{mode} n\0").into_bytes();
        bytes.extend_from_slice(&id.0);
        let read = kind.map(|kind| vec![GitTreeEntry { name: "n".to_owned(), kind, id }]);
        assert_eq!(tree_from_bytes(&bytes), read, "mode {mode}");
    }
}

#[test]
fn trees_are_read_in_the_order_of_names() {
    let mut store = GitContentStore::new_in_memory();
    let id = store.write_file(b"x").unwrap();
    let written = vec![file("foo.txt", id), dir("foo", Id(EMPTY_TREE)), file("foo0", id)];
    let tree = store.write_tree(&written).unwrap();
    let read = store.read_tree(&tree).unwrap().unwrap();
    let names: Vec<_> = read.iter().map(|e| e.name.as_str()).collect();
    assert_eq!(names, vec!["foo", "foo.txt", "foo0"]);
}

#[test]
fn the_empty_tree_is_always_there() {
    let store = GitContentStore::new_in_memory();
    let empty_id = store.empty_tree_id();
    let tree = store.read_tree(&empty_id).expect("get_tree").expect("empty tree seeded");
    assert!(tree.is_empty(), "seeded empty tree has no entries");
}
