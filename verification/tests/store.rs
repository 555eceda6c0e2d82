use kiki::remote::CasOutcome;
use kiki::store::{ref_names, store_answer, swap_refusal, OpPrefixResult, Store};
use kiki::text::hex_encode;

const EMPTY_ID: [u8; 32] = [0xee; 32];

fn store() -> Store {
    Store::new_in_memory(&EMPTY_ID, &[]).expect("in-memory store")
}

#[test]
fn write_then_read_file_roundtrip() {
    let mut store = store();
    let id = [0x07; 32];
    store.write_file(&id, b"hello world").expect("write_file");
    let got = store.get_file_bytes(&id).expect("get_file").expect("file present");
    assert_eq!(got, b"hello world");
}

#[test]
fn missing_tree_returns_none() {
    let store = store();
    let bogus = [0xff; 32];
    let got = store.get_tree_bytes(&bogus).expect("get_tree (missing)");
    assert!(got.is_none(), "non-existent tree should be None");
}

#[test]
fn view_write_then_read_round_trips() {
    let mut store = store();
    let id = [0xab; 64];
    let data = b"view-proto-bytes";
    store.write_view_bytes(&id, data).expect("write_view");
    let got = store.get_view_bytes(&id).expect("get_view").expect("view present");
    assert_eq!(got, data);
}

#[test]
fn operation_write_then_read_round_trips() {
    let mut store = store();
    let id = [0xcd; 64];
    let data = b"operation-proto-bytes";
    store.write_operation_bytes(&id, data).expect("write_op");
    let got = store.get_operation_bytes(&id).expect("get_op").expect("op present");
    assert_eq!(got, data);
}

#[test]
fn missing_view_returns_none() {
    let store = store();
    let bogus = [0xff; 64];
    let got = store.get_view_bytes(&bogus).expect("get_view (missing)");
    assert!(got.is_none());
}

#[test]
fn operation_prefix_no_match() {
    let store = store();
    let result = store.operation_ids_matching_prefix("deadbeef").expect("prefix scan");
    assert_eq!(result, OpPrefixResult::NoMatch);
}

#[test]
fn operation_prefix_single_match() {
    let mut store = store();
    let id = [0xab; 64];
    store.write_operation_bytes(&id, b"data").expect("write");
    let result = store.operation_ids_matching_prefix("abab").expect("prefix scan");
    assert_eq!(result, OpPrefixResult::Single(id.to_vec()));
}

#[test]
fn operation_prefix_ambiguous_match() {
    let mut store = store();
    let mut id1 = [0xab; 64];
    let mut id2 = [0xab; 64];
    id1[63] = 0x01;
    id2[63] = 0x02;
    store.write_operation_bytes(&id1, b"op1").expect("write");
    store.write_operation_bytes(&id2, b"op2").expect("write");
    let result = store.operation_ids_matching_prefix("abab").expect("prefix scan");
    assert_eq!(result, OpPrefixResult::Ambiguous);
}

#[test]
fn operation_prefix_full_length_match() {
    let mut store = store();
    let id = [0xcd; 64];
    store.write_operation_bytes(&id, b"data").expect("write");
    let full_hex = hex_encode(&id);
    let result = store.operation_ids_matching_prefix(&full_hex).expect("prefix scan");
    assert_eq!(result, OpPrefixResult::Single(id.to_vec()));
}

#[test]
fn open_persists_across_reopen() {
    let dir = tempfile::tempdir().expect("tempdir");
    let path = dir.path().join("store.redb");
    let id = [0x33; 32];
    {
        let db = redb::Database::create(&path).expect("open #1");
        let mut store = Store::from_database(db, &EMPTY_ID, &[]).expect("tables #1");
        store.write_file(&id, b"persistent").expect("write_file");
    }
    let db = redb::Database::create(&path).expect("open #2");
    let store2 = Store::from_database(db, &EMPTY_ID, &[]).expect("tables #2");
    let got = store2.get_file_bytes(&id).expect("get_file #2").expect("file persisted");
    assert_eq!(got, b"persistent");
}

#[test]
fn odd_length_prefix_is_a_prefix_too() {
    let mut store = store();
    let id = [0x1f; 64];
    store.write_operation_bytes(&id, b"op").expect("write");
    let found = store.operation_ids_matching_prefix("1f1").expect("prefix scan");
    assert_eq!(found, OpPrefixResult::Single(id.to_vec()));
    let found = store.operation_ids_matching_prefix("1F").expect("prefix scan");
    assert_eq!(found, OpPrefixResult::NoMatch, "digits are lower case");
    let found = store.operation_ids_matching_prefix("").expect("prefix scan");
    assert_eq!(found, OpPrefixResult::Single(id.to_vec()));
}

#[test]
fn tables_are_apart() {
    let mut store = store();
    let id = [0x44; 32];
    store.write_tree(&id, b"tree").expect("write_tree");
    store.write_symlink(&id, b"link").expect("write_symlink");
    store.write_commit(&id, b"commit").expect("write_commit");
    assert_eq!(store.get_tree_bytes(&id).unwrap().unwrap(), b"tree");
    assert_eq!(store.get_symlink_bytes(&id).unwrap().unwrap(), b"link");
    assert_eq!(store.get_commit_bytes(&id).unwrap().unwrap(), b"commit");
    assert!(store.get_file_bytes(&id).unwrap().is_none());
    assert!(store.get_view_bytes(&id).unwrap().is_none());
    store.write_view_bytes(&id, b"v1").expect("write_view");
    store.write_view_bytes(&id, b"v2").expect("write_view again");
    assert_eq!(store.get_view_bytes(&id).unwrap().unwrap(), b"v2");
    assert!(store.get_operation_bytes(&id).unwrap().is_none());
}

#[test]
fn ref_swaps_need_the_expected_value() {
    let mut store = store();
    assert_eq!(store.get_ref("op_heads").unwrap(), None);
    let first = store.cas_ref("op_heads", None, Some(b"one")).unwrap();
    assert_eq!(first, CasOutcome::Updated);
    assert_eq!(store.get_ref("op_heads").unwrap(), Some(b"one".to_vec()));
    let late = store.cas_ref("op_heads", None, Some(b"two")).unwrap();
    assert_eq!(late, CasOutcome::Conflict { actual: Some(b"one".to_vec()) });
    let wrong = store.cas_ref("op_heads", Some(b"two"), None).unwrap();
    assert_eq!(wrong, CasOutcome::Conflict { actual: Some(b"one".to_vec()) });
    store.cas_ref("other", None, Some(b"")).unwrap();
    let mut names = store.list_refs().unwrap();
    names.sort();
    assert_eq!(names, vec!["op_heads".to_owned(), "other".to_owned()]);
    let removed = store.cas_ref("op_heads", Some(b"one"), None).unwrap();
    assert_eq!(removed, CasOutcome::Updated);
    assert_eq!(store.get_ref("op_heads").unwrap(), None);
    assert_eq!(store.get_ref("other").unwrap(), Some(Vec::new()));
    let absent = store.cas_ref("op_heads", Some(b"one"), None).unwrap();
    assert_eq!(absent, CasOutcome::Conflict { actual: None });
    assert_eq!(store.list_refs().unwrap(), vec!["other".to_owned()]);
}

#[test]
fn swaps_are_refused_with_the_present_value() {
    let one = || Some(b"one".to_vec());
    assert_eq!(swap_refusal(one(), Some(b"one")), None);
    assert_eq!(swap_refusal(None, None), None);
    assert_eq!(swap_refusal(one(), Some(b"two")), Some(CasOutcome::Conflict { actual: one() }));
    assert_eq!(swap_refusal(one(), None), Some(CasOutcome::Conflict { actual: one() }));
    assert_eq!(swap_refusal(None, Some(b"")), Some(CasOutcome::Conflict { actual: None }));
}

#[test]
fn keys_that_are_no_text_name_no_ref() {
    let keys = vec![b"b".to_vec(), vec![0xff], "\u{e9}".as_bytes().to_vec(), Vec::new()];
    assert_eq!(ref_names(&keys), vec!["b".to_owned(), "\u{e9}".to_owned(), String::new()]);
    assert!(ref_names(&Vec::new()).is_empty());
}

#[test]
fn faults_of_the_database_become_causes() {
    assert_eq!(store_answer(Ok(7)).unwrap(), 7);
    let failure = store_answer::<u8>(Err(redb::Error::DatabaseAlreadyOpen)).unwrap_err();
    assert!(matches!(failure.cause, redb::Error::DatabaseAlreadyOpen));
}

#[test]
fn open_then_get_empty_tree() {
    let store = store();
    let empty_id = store.get_empty_tree_id();
    assert_eq!(empty_id, EMPTY_ID);
    let tree = store.get_tree_bytes(&empty_id).expect("get_tree").expect("empty tree seeded");
    assert!(tree.is_empty(), "seeded empty tree has no entries");
    assert!(store.get_file_bytes(&empty_id).unwrap().is_none());
}

#[test]
fn the_empty_tree_is_seeded_once() {
    let dir = tempfile::tempdir().unwrap();
    let path = dir.path().join("store.redb");
    {
        let db = redb::Database::create(&path).expect("open #1");
        let mut store = Store::from_database(db, &EMPTY_ID, b"first").expect("tables #1");
        store.write_tree(&[1; 32], b"other").expect("write_tree");
    }
    let db = redb::Database::create(&path).expect("open #2");
    let store = Store::from_database(db, &EMPTY_ID, b"second").expect("tables #2");
    assert_eq!(store.get_tree_bytes(&EMPTY_ID).unwrap().unwrap(), b"first");
    assert_eq!(store.get_tree_bytes(&[1; 32]).unwrap().unwrap(), b"other");
}
