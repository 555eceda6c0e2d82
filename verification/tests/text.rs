use kiki::remote::FetchError;
use kiki::git_store::StoreFault;
use kiki::sorted_map::SortedMap;
use kiki::status::{
    decode_status, fetch_status, metadata_status, no_mount_status, remote_status, store_status,
    unimplemented_status, Code, Status,
};
use kiki::text::{compare_bytes, compare_names, decimal_str, hex_encode, join_path, Relation};

#[test]
fn texts_of_numbers_and_bytes() {
    assert_eq!(decimal_str(0), "0");
    assert_eq!(decimal_str(u64::MAX), "18446744073709551615");
    assert_eq!(hex_encode(&[0x00, 0x0f, 0xa9, 0xff]), "000fa9ff");
    assert_eq!(hex_encode(&[]), "");
}

#[test]
fn paths_are_joined_once() {
    assert_eq!(join_path("/a", "b/c"), "/a/b/c");
    assert_eq!(join_path("/a/", "b"), "/a/b");
    assert_eq!(join_path("", "b"), "b");
    assert_eq!(join_path("/a", "/b"), "/b");
}

#[test]
fn bytes_are_compared_from_the_left() {
    assert_eq!(compare_bytes(b"ab", b"b"), Relation::Below);
    assert_eq!(compare_bytes(b"ab", b"a"), Relation::Above);
    assert_eq!(compare_bytes(b"", b""), Relation::Same);
    assert_eq!(compare_names("é", "z"), Relation::Above);
}

#[test]
fn sorted_maps_keep_one_value_per_key() {
    let mut map: SortedMap<String, u32> = SortedMap::new();
    map.insert("b".to_owned(), 1);
    map.insert("a".to_owned(), 2);
    map.insert("b".to_owned(), 3);
    assert_eq!(map.len(), 2);
    assert_eq!((map.key_at(0).as_str(), *map.value_at(0)), ("a", 2));
    assert_eq!(map.get(b"b"), Some(&3));
    assert_eq!(map.remove(b"b"), Some(3));
    assert_eq!(map.remove(b"b"), None);
    assert_eq!(map.get(b"b"), None);
}

fn shown(status: &Status) -> (Code, &str) {
    (status.code(), status.message())
}

#[test]
fn statuses_say_where_and_what() {
    assert_eq!(shown(&decode_status("tree", "bad")), (Code::InvalidArgument, "tree: bad"));
    assert_eq!(
        shown(&store_status("read_tree", StoreFault::MalformedTree)),
        (Code::Internal, "read_tree: malformed tree object")
    );
    assert_eq!(shown(&remote_status("get", "down")), (Code::Internal, "get: down"));
    assert_eq!(shown(&metadata_status("save", "full")), (Code::Internal, "save: full"));
    assert_eq!(shown(&no_mount_status("/m")), (Code::NotFound, "no mount at /m"));
    assert_eq!(
        shown(&unimplemented_status("GitPush")),
        (Code::Unimplemented, "GitPush not yet implemented (M12)")
    );
}

#[test]
fn failed_fetches_are_told_apart() {
    let missing = FetchError::NotFound { kind: "tree".to_owned(), id: "ab".to_owned() };
    assert_eq!(
        shown(&fetch_status(missing)),
        (Code::NotFound, "tree ab not found locally or on remote")
    );
    let lost = fetch_status(FetchError::DataLoss("forged".to_owned()));
    assert_eq!(shown(&lost), (Code::DataLoss, "forged"));
    let kept = fetch_status(FetchError::LocalWrite("full".to_owned()));
    assert_eq!(shown(&kept), (Code::Internal, "full"));
    let down = fetch_status(FetchError::Remote("down".to_owned()));
    assert_eq!(shown(&down), (Code::Internal, "down"));
}
