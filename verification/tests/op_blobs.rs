use jj_lib::backend::CommitId;
use jj_lib::object_id::ObjectId as _;
use jj_lib::op_store::{self, OpStore as _, OperationId, RootOperationData, ViewId};
use jj_lib::protos::simple_op_store::ref_conflict::Term;
use jj_lib::protos::simple_op_store::ref_target::Value;
use jj_lib::protos::simple_op_store::{Bookmark, RefConflict, RefTarget, View};
use jj_lib::simple_op_store::SimpleOpStore;
use kiki::op_blobs::{
    bookmarks_from_view_bytes, check_op_store_id, validate_op_store_blob_id, OpStoreBlobKind,
    Rehashed,
};
use prost::Message as _;

fn op_store(dir: &std::path::Path) -> SimpleOpStore {
    let root = RootOperationData { root_commit_id: CommitId::from_bytes(&[0; 20]) };
    SimpleOpStore::init(dir, root).unwrap()
}

fn view_id(store: &SimpleOpStore) -> ViewId {
    let view = op_store::View::make_root(CommitId::new(vec![1]));
    futures::executor::block_on(store.write_view(&view)).unwrap()
}

fn never_validates(kind: OpStoreBlobKind, canonical: &[u8]) {
    let found = Rehashed::Canonical(canonical.to_vec());
    assert_eq!(validate_op_store_blob_id(kind, canonical, &found), Ok(()));
    for idx in 0..64 {
        for tweak in 1..=255u8 {
            let mut id = canonical.to_vec();
            id[idx] ^= tweak;
            assert!(validate_op_store_blob_id(kind, &id, &found).is_err());
        }
    }
}

#[test]
fn wrong_view_id_never_validates() {
    let dir = tempfile::tempdir().unwrap();
    let id = view_id(&op_store(dir.path()));
    never_validates(OpStoreBlobKind::View, id.as_bytes());
}

#[test]
fn wrong_operation_id_never_validates() {
    let dir = tempfile::tempdir().unwrap();
    let store = op_store(dir.path());
    let mut operation = op_store::Operation::make_root(view_id(&store));
    operation.parents = vec![OperationId::from_bytes(&[0; 64])];
    operation.metadata.description = "non-root".into();
    let id = futures::executor::block_on(store.write_operation(&operation)).unwrap();
    never_validates(OpStoreBlobKind::Operation, id.as_bytes());
}

#[test]
fn blob_ids_are_checked_first() {
    let view = OpStoreBlobKind::View;
    assert_eq!(check_op_store_id(view, &[1; 63]).unwrap_err(), "view id must be 64 bytes, got 63");
    assert_eq!(
        check_op_store_id(OpStoreBlobKind::Operation, &[0; 64]).unwrap_err(),
        "operation id is the reserved all-zero root id and must not be stored"
    );
    assert_eq!(check_op_store_id(view, &[1; 64]), Ok(()));
    let cases = [
        (Rehashed::NoScratch("x".into()), "creating temp op-store scratch dir: x"),
        (Rehashed::NoStore("x".into()), "initializing temp view store: x"),
        (Rehashed::NotWritten("x".into()), "writing temp view blob: x"),
        (Rehashed::NotDecoded("x".into()), "decoding view blob: x"),
        (Rehashed::NotHashed("x".into()), "rehashing view blob: x"),
    ];
    for (found, text) in cases {
        assert_eq!(validate_op_store_blob_id(view, &[1; 64], &found).unwrap_err(), text);
    }
    let found = Rehashed::Canonical(vec![2; 64]);
    assert_eq!(
        validate_op_store_blob_id(view, &[1; 64], &found).unwrap_err(),
        format!(
            "view id/bytes mismatch: requested {} but canonical id is {}",
            "01".repeat(64),
            "02".repeat(64)
        )
    );
}

fn bookmark(name: &str, value: Option<Value>) -> Bookmark {
    Bookmark {
        name: name.to_owned(),
        local_target: Some(RefTarget { value }),
        ..Default::default()
    }
}

fn merge(removes: &[Option<Vec<u8>>], adds: &[Option<Vec<u8>>]) -> Option<Value> {
    let term = |value: &Option<Vec<u8>>| Term { value: value.clone() };
    Some(Value::Conflict(RefConflict {
        removes: removes.iter().map(term).collect(),
        adds: adds.iter().map(term).collect(),
    }))
}

#[test]
fn bookmarks_of_a_view() {
    let one = Some(vec![1; 20]);
    let two = Some(vec![2; 20]);
    let view = View {
        bookmarks: vec![
            bookmark("main", merge(&[], &[one.clone()])),
            bookmark("absent", merge(&[], &[None])),
            bookmark("conflicted", merge(&[one.clone()], &[one.clone(), two.clone()])),
            bookmark("empty", None),
            Bookmark { name: "targetless".to_owned(), ..Default::default() },
            bookmark("dev", merge(&[], &[two.clone()])),
        ],
        ..Default::default()
    };
    let found = bookmarks_from_view_bytes(&view.encode_to_vec());
    assert_eq!(
        found,
        vec![("main".to_owned(), vec![1; 20]), ("dev".to_owned(), vec![2; 20])]
    );
    assert!(bookmarks_from_view_bytes(b"\xff\xff\xff").is_empty(), "not a view");
    assert!(bookmarks_from_view_bytes(b"").is_empty());
}
