use kiki::mountpoint::{
    is_mountpoint, mountpoint_parent, mountpoint_status, validate_mountpoint, Inspection,
    MountpointError, PathKind,
};
use kiki::status::Code;

fn found(kind: PathKind, occupied: bool, mounted: bool) -> Inspection {
    Inspection { kind, occupied: Ok(occupied), mounted: Ok(mounted) }
}

#[test]
fn rejects_missing() {
    let path = "/definitely/does/not/exist/jjkiki";
    let err = validate_mountpoint(path, &found(PathKind::Missing, false, false))
        .expect_err("missing");
    assert!(matches!(err, MountpointError::Missing(_)));
    assert_eq!(err.to_string(), format!("path does not exist: {path}"));
}

#[test]
fn rejects_file() {
    let err = validate_mountpoint("/f", &found(PathKind::Other, false, false))
        .expect_err("not a dir");
    assert!(matches!(err, MountpointError::NotADirectory(_)));
    assert_eq!(err.to_string(), "path is not a directory: /f");
}

#[test]
fn rejects_non_empty_directory() {
    let err = validate_mountpoint("/d", &found(PathKind::Directory, true, false))
        .expect_err("not empty");
    assert!(matches!(err, MountpointError::NotEmpty(_)));
    assert_eq!(err.to_string(), "directory is not empty: /d");
}

#[test]
fn accepts_empty_directory() {
    validate_mountpoint("/d", &found(PathKind::Directory, false, false))
        .expect("empty dir on same fs");
}

#[test]
fn is_mountpoint_detects_real_mountpoints() {
    assert_eq!(mountpoint_parent("/proc"), Some("/".to_owned()));
    let result = is_mountpoint(Ok(23), Some(Ok(1)));
    assert!(matches!(result, Ok(true)), "/proc should be a mountpoint");
    let result = is_mountpoint(Ok(1), Some(Ok(1)));
    assert!(matches!(result, Ok(false)), "tempdir should NOT be a mountpoint");
}

#[test]
fn validate_mountpoint_rejects_non_empty_mountpoint() {
    let result = validate_mountpoint("/proc", &found(PathKind::Directory, true, true));
    assert!(result.is_err(), "/proc should not pass mountpoint validation");
}

#[test]
fn roots_count_as_mounted() {
    assert_eq!(mountpoint_parent("/"), None);
    assert_eq!(mountpoint_parent("relative"), None, "its parent has no name");
    assert_eq!(mountpoint_parent("/a/b"), Some("/a".to_owned()));
    assert_eq!(is_mountpoint(Ok(1), None), Ok(true));
    assert_eq!(is_mountpoint(Err("gone".to_owned()), None), Err("gone".to_owned()));
    assert_eq!(is_mountpoint(Ok(1), Some(Err("no".to_owned()))), Err("no".to_owned()));
}

#[test]
fn refusals_say_what_is_wrong() {
    let err = validate_mountpoint("/m", &found(PathKind::Directory, false, true)).unwrap_err();
    assert!(matches!(err, MountpointError::AlreadyMounted(_)));
    let status = mountpoint_status(err);
    assert_eq!(status.code(), Code::FailedPrecondition);
    assert_eq!(status.message(), "path is already a mountpoint: /m");
    let mut failing = found(PathKind::Failed("denied".to_owned()), false, false);
    let err = validate_mountpoint("/m", &failing).unwrap_err();
    assert_eq!(err.to_string(), "failed to inspect /m: denied");
    failing = found(PathKind::Directory, false, false);
    failing.occupied = Err("unreadable".to_owned());
    let err = validate_mountpoint("/m", &failing).unwrap_err();
    assert_eq!(err.to_string(), "failed to inspect /m: unreadable");
}
