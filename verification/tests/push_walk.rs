use kiki::git_store::{GitContentStore, GitEntryKind, GitTreeEntry, EMPTY_TREE};
use kiki::push_walk::{PushStep, PushWalk};
use kiki::remote::BlobKind;
use kiki::ty::Id;

fn entry(name: &str, kind: GitEntryKind, id: Id) -> GitTreeEntry {
    GitTreeEntry { name: name.to_owned(), kind, id }
}

/// What a walk offers, with a remote that has everything.
fn offered(store: &GitContentStore, root: Id) -> Vec<(BlobKind, Id)> {
    let mut walk = PushWalk::new(root);
    let mut seen = Vec::new();
    loop {
        match walk.advance() {
            PushStep::Done => return seen,
            PushStep::Offer { kind, id } => {
                seen.push((kind, id));
                walk.confirm();
                if walk.tree_to_open().is_some() {
                    assert_eq!(walk.open_tree(store), Ok(true));
                }
            }
        }
    }
}

#[test]
fn every_reachable_object_is_offered_once_per_tree() {
    let mut store = GitContentStore::new_in_memory();
    let a = store.write_file(b"a").unwrap();
    let b = store.write_symlink("b").unwrap();
    let file = GitEntryKind::File { executable: false };
    let sub = store.write_tree(&vec![entry("a", file, a)]).unwrap();
    let root = store
        .write_tree(&vec![
            entry("l", GitEntryKind::Symlink, b),
            entry("m", GitEntryKind::Submodule, Id([7; 20])),
            entry("x", GitEntryKind::Tree, sub),
            entry("y", GitEntryKind::Tree, sub),
        ])
        .unwrap();
    let seen = offered(&store, root);
    assert_eq!(
        seen,
        vec![
            (BlobKind::Tree, root),
            (BlobKind::Blob, b),
            (BlobKind::Tree, sub),
            (BlobKind::Blob, a),
        ]
    );
}

#[test]
fn empty_tree_is_pushed_as_nothing() {
    let store = GitContentStore::new_in_memory();
    let mut walk = PushWalk::new(Id(EMPTY_TREE));
    assert!(matches!(walk.advance(), PushStep::Offer { kind: BlobKind::Tree, .. }));
    assert_eq!(walk.payload(&store), Ok(Vec::new()));
    walk.confirm();
    assert_eq!(walk.open_tree(&store), Ok(true));
    assert!(matches!(walk.advance(), PushStep::Done));
}

#[test]
fn missing_tree_waits_for_a_fetch() {
    let mut far = GitContentStore::new_in_memory();
    let a = far.write_file(b"a").unwrap();
    let root = far
        .write_tree(&vec![entry("a", GitEntryKind::File { executable: true }, a)])
        .unwrap();
    let mut store = GitContentStore::new_in_memory();
    let mut walk = PushWalk::new(root);
    assert!(matches!(walk.advance(), PushStep::Offer { .. }));
    assert_eq!(
        walk.payload(&store),
        Err(format!("local store missing tree {} during push walk", root.to_string()))
    );
    walk.confirm();
    assert_eq!(walk.open_tree(&store), Ok(false));
    assert_eq!(walk.tree_to_open(), Some(root));
    let (kind, bytes) = far.read_git_object_bytes(&root).unwrap();
    store.import_object(root, kind, bytes).unwrap();
    assert_eq!(walk.open_tree(&store), Ok(true));
    match walk.advance() {
        PushStep::Offer { kind: BlobKind::Blob, id } => assert_eq!(id, a),
        other => panic!("unexpected {other:?}"),
    }
}

#[test]
fn only_what_the_remote_lacks_is_put() {
    let mut store = GitContentStore::new_in_memory();
    let a = store.write_file(b"a").unwrap();
    let b = store.write_file(b"b").unwrap();
    let file = GitEntryKind::File { executable: false };
    let root = store.write_tree(&vec![entry("a", file, a), entry("b", file, b)]).unwrap();
    let mut walk = PushWalk::new(root);
    let mut put = Vec::new();
    while let PushStep::Offer { id, .. } = walk.advance() {
        if let Some(data) = walk.answered(id == a, &store).unwrap() {
            put.push((id, data));
            walk.confirm();
        }
        if walk.tree_to_open().is_some() {
            assert_eq!(walk.open_tree(&store), Ok(true));
        }
    }
    assert_eq!(put.len(), 2);
    assert_eq!(put[0].0, root);
    assert_eq!(put[1], (b, b"b".to_vec()));
    // What the store lacks cannot be put.
    let mut walk = PushWalk::new(Id([9; 20]));
    assert!(matches!(walk.advance(), PushStep::Offer { .. }));
    let text = format!("local store missing tree {} during push walk", "09".repeat(20));
    assert_eq!(walk.answered(false, &store), Err(text));
}
