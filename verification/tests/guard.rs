use tailor::error::ExecError;
use tailor::guard::{
    ancestor_chain, device_verdict, ensure_safe_build_dir, ensure_safe_rw_target,
    normalize_absolute_lexical,
};

fn cwd() -> String {
    "/home/me/project".to_owned()
}

#[test]
fn rejects_filesystem_root() {
    let err = ensure_safe_build_dir("/", &cwd(), &vec![true], &vec![true]).unwrap_err();
    assert!(matches!(err, ExecError::UnsafeDir { .. }));
}

#[test]
fn rejects_ancestor_of_current_working_dir() {
    let cwd = cwd();
    let err = ensure_safe_rw_target(&cwd, &cwd).unwrap_err();
    assert!(matches!(err, ExecError::UnsafeDir { .. }));
}

#[test]
fn root_reached_through_parent_segments_is_rejected() {
    let err = ensure_safe_rw_target("/a/../..", "/work").unwrap_err();
    match err {
        ExecError::UnsafeDir { path, reason } => {
            assert_eq!(path, "/");
            assert_eq!(reason, "must not be the filesystem root");
        }
        other => panic!("unexpected {other:?}"),
    }
}

#[test]
fn parent_of_the_working_directory_names_it() {
    let err = ensure_safe_rw_target("/work", "/work/sub").unwrap_err();
    match err {
        ExecError::UnsafeDir { path, reason } => {
            assert_eq!(path, "/work");
            assert_eq!(
                reason,
                "must not contain the current working directory `/work/sub`"
            );
        }
        other => panic!("unexpected {other:?}"),
    }
}

#[test]
fn sibling_with_a_shared_name_prefix_is_not_an_ancestor() {
    assert!(ensure_safe_rw_target("/work/su", "/work/sub").is_ok());
    assert_eq!(
        ensure_safe_build_dir("scratch", "/work/sub", &vec![false, true, true, true], &vec![false, false, false, true])
            .unwrap(),
        "/work/sub/scratch"
    );
}

#[test]
fn normalizes_relative_paths_against_the_working_directory() {
    assert_eq!(normalize_absolute_lexical("../b/./c", "/x/y"), "/x/b/c");
    assert_eq!(
        normalize_absolute_lexical("/dev/shm/../shm/tailor-build-dir", "/"),
        "/dev/shm/tailor-build-dir"
    );
}

#[test]
fn ancestors_run_from_the_directory_up_to_the_root() {
    assert_eq!(
        ancestor_chain("/a/b", "/"),
        vec!["/a/b".to_owned(), "/a".to_owned(), "/".to_owned()]
    );
}

#[test]
fn same_device_ancestor_is_rejected_for_a_build_dir() {
    let err = device_verdict("/tmp/b", "/tmp", true).unwrap_err();
    match err {
        ExecError::UnsafeDir { reason, .. } => {
            assert_eq!(
                reason,
                "nearest existing ancestor `/tmp` is on the same device as `/`"
            );
        }
        other => panic!("unexpected {other:?}"),
    }
    assert!(device_verdict("/dev/shm/b", "/dev/shm", false).is_ok());
}

#[test]
fn same_device_dir_is_rejected_for_build_but_allowed_for_rw_target() {
    // `/home/me/project/tailor-guard-x` exists, on the device of `/`.
    let dir = "/home/me/project/tailor-guard-x";
    let probes = vec![true, true, true, true, true];
    let err = ensure_safe_build_dir(dir, &cwd(), &probes, &vec![true; 5]).unwrap_err();
    match err {
        ExecError::UnsafeDir { path, reason } => {
            assert_eq!(path, dir);
            assert_eq!(
                reason,
                "nearest existing ancestor `/home/me/project/tailor-guard-x` is on the same device as `/`"
            );
        }
        other => panic!("unexpected {other:?}"),
    }
    assert!(ensure_safe_rw_target(dir, &cwd()).is_ok());
}

#[test]
fn separate_filesystem_build_dir_is_allowed() {
    // `/dev/shm` exists on its own device; the leaf does not exist yet.
    let probes = vec![false, true, true, true];
    let devices = vec![true, false, true, true];
    assert_eq!(
        ensure_safe_build_dir("/dev/shm/tailor-build-dir", "/", &probes, &devices).unwrap(),
        "/dev/shm/tailor-build-dir"
    );
}

#[test]
fn normalizes_without_requiring_leaf_to_exist() {
    let probes = vec![false, true, true, true];
    let devices = vec![true, false, true, true];
    assert_eq!(
        ensure_safe_build_dir("/dev/shm/../shm/tailor-build-dir", "/", &probes, &devices).unwrap(),
        "/dev/shm/tailor-build-dir"
    );
}

#[test]
fn nothing_existing_falls_back_to_the_root() {
    let err = ensure_safe_build_dir("/a/b", "/w", &vec![false, false, false], &vec![false, false, true]).unwrap_err();
    match err {
        ExecError::UnsafeDir { reason, .. } => {
            assert_eq!(reason, "nearest existing ancestor `/` is on the same device as `/`");
        }
        other => panic!("unexpected {other:?}"),
    }
}
