use kiki::remote::{
    parse_dir, validate_ref_name, BlobKind, CasOutcome, RefNameError, RemoteLocation,
    RemoteUrlError, WireBlobKind,
};

#[test]
fn ref_name_validation() {
    for name in ["op_heads", "head", "branch.lock", "a.b.c", "🦀"] {
        validate_ref_name(name)
            .unwrap_or_else(|e| panic!("expected {name:?} ok: {}", e.to_string()));
    }
    for (name, snippet) in [
        ("", "must not be empty"),
        ("a/b", "'/'"),
        ("..", "reserved"),
        (".", "reserved"),
        ("a\0b", "NUL"),
    ] {
        let err = validate_ref_name(name).expect_err(name);
        let text = err.to_string();
        assert!(
            text.contains(snippet),
            "expected {name:?} error to contain {snippet:?}, got: {text}"
        );
    }
}

#[test]
fn ref_name_errors_quote_the_name() {
    assert_eq!(
        validate_ref_name("a\0b").unwrap_err().to_string(),
        "ref name \"a\\0b\" contains NUL"
    );
    assert_eq!(
        validate_ref_name("a/\0").unwrap_err(),
        RefNameError::Nul("a/\0".to_owned())
    );
    assert_eq!(
        validate_ref_name("..").unwrap_err().to_string(),
        "ref name \"..\" is a reserved path component"
    );
}

#[test]
fn cas_outcome_eq() {
    assert_eq!(CasOutcome::Updated, CasOutcome::Updated);
    assert_eq!(
        CasOutcome::Conflict { actual: Some(b"x".to_vec()) },
        CasOutcome::Conflict { actual: Some(b"x".to_vec()) }
    );
    assert_ne!(
        CasOutcome::Conflict { actual: None },
        CasOutcome::Conflict { actual: Some(Vec::new()) }
    );
}

#[test]
fn blob_kind_proto_round_trip() {
    for k in [
        BlobKind::Tree,
        BlobKind::Blob,
        BlobKind::Commit,
        BlobKind::View,
        BlobKind::Operation,
        BlobKind::Extra,
    ] {
        assert_eq!(BlobKind::from_proto(k.as_proto()), Some(k));
        assert_eq!(WireBlobKind::from_i32(k.as_proto().to_i32()), Some(k.as_proto()));
    }
    assert_eq!(BlobKind::from_proto(WireBlobKind::Unspecified), None);
    assert_eq!(WireBlobKind::from_i32(7), None);
    assert_eq!(WireBlobKind::from_i32(-1), None);
}

#[test]
fn blob_kind_tags() {
    assert_eq!(BlobKind::Tree.as_str(), "tree");
    assert_eq!(BlobKind::Blob.as_str(), "blob");
    assert_eq!(BlobKind::Commit.as_str(), "commit");
    assert_eq!(BlobKind::View.as_str(), "view");
    assert_eq!(BlobKind::Operation.as_str(), "operation");
    assert_eq!(BlobKind::Extra.as_str(), "extra");
    assert_eq!(BlobKind::Extra.to_string(), "extra");
}

#[test]
fn remote_locations() {
    assert_eq!(parse_dir(""), Ok(RemoteLocation::Nowhere));
    assert_eq!(parse_dir("dir:///tmp/r"), Ok(RemoteLocation::Dir("/tmp/r".to_owned())));
    assert_eq!(parse_dir("dir://tmp"), Err(RemoteUrlError::Relative("tmp".to_owned())));
    assert_eq!(parse_dir("/tmp/r"), Err(RemoteUrlError::NoScheme("/tmp/r".to_owned())));
    assert_eq!(parse_dir("s3://b/k"), Err(RemoteUrlError::OtherScheme("s3".to_owned())));
    assert_eq!(
        parse_dir("dir:///a://b"),
        Ok(RemoteLocation::Dir("/a://b".to_owned())),
        "the first separator counts"
    );
    assert_eq!(
        parse_dir("dir://tmp").unwrap_err().to_string(),
        "dir:// remote must use absolute path (got dir://tmp)"
    );
    assert_eq!(
        parse_dir("nope").unwrap_err().to_string(),
        "remote \"nope\" has no scheme; expected dir://…, s3://…, kiki+ssh://…, or kiki://…"
    );
    assert_eq!(
        parse_dir("s3://b").unwrap_err().to_string(),
        "store::parse_dir only handles dir://; got scheme \"s3\""
    );
}
