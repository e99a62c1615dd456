use rollcron::workdir::{
    choose_work_dir, escapes_root, join_paths, path_within, resolve_work_dir, resolve_work_dir_in,
};

#[test]
fn traversal_falls_back_to_job_root() {
    let r = choose_work_dir(
        "/c/rollcron/m@j".to_string(),
        Some("/etc".to_string()),
        Some("/c/rollcron/m@j".to_string()),
    );
    assert_eq!(r.path, "/c/rollcron/m@j");
    assert!(r.rejected);
}

#[test]
fn traversal_on_disk_falls_back() {
    let r = resolve_work_dir_in("/tmp", &Some("../../etc".to_string()));
    assert_eq!(r.path, "/tmp");
    assert!(r.rejected);
}

#[test]
fn missing_subdir_falls_back() {
    let r = resolve_work_dir_in("/nonexistent-job-root", &Some("sub".to_string()));
    assert_eq!(r.path, "/nonexistent-job-root");
    assert!(r.rejected);
}

#[test]
fn inside_subdir_is_taken() {
    let r = choose_work_dir(
        "/c/m@j".to_string(),
        Some("/c/m@j/scripts".to_string()),
        Some("/c/m@j".to_string()),
    );
    assert_eq!(r.path, "/c/m@j/scripts");
    assert!(!r.rejected);
}

#[test]
fn no_subdir_is_job_root() {
    let r = resolve_work_dir_in("/c/m@j", &None);
    assert_eq!(r.path, "/c/m@j");
    assert!(!r.rejected);
    let r2 = resolve_work_dir("/c/rollcron/m", "j", &None);
    assert!(r2.path.ends_with("/rollcron/m@j"));
}

#[test]
fn containment_is_by_component() {
    assert!(path_within("/a/b", "/a/b"));
    assert!(path_within("/a/b/c", "/a/b"));
    assert!(!path_within("/a/bc", "/a/b"));
    assert!(!path_within("/a", "/a/b"));
    assert!(path_within("/x", "/"));
}

#[test]
fn joining_paths() {
    assert_eq!(join_paths("/a", "b/c"), "/a/b/c");
    assert_eq!(join_paths("/a/", "b"), "/a/b");
    assert_eq!(join_paths("/a", "/etc"), "/etc");
    assert_eq!(join_paths("/a", "../../etc"), "/a/../../etc");
}

#[test]
fn climbing_paths_escape() {
    for d in ["../../etc", "..", "a/../..", "/etc", "./../x", "a/b/../../../c"] {
        assert!(escapes_root(d), "{}", d);
    }
    for d in ["", ".", "a", "a/..", "a/b/../c", "a//b/./", "..a", "a/..b"] {
        assert!(!escapes_root(d), "{}", d);
    }
}

#[test]
fn climbing_dir_rejected_before_disk() {
    let r = resolve_work_dir("/c/rollcron/m", "j", &Some("../../etc".to_string()));
    assert!(r.rejected);
    assert!(r.path.ends_with("/rollcron/m@j"));
    assert_eq!(r.base, None);
}

#[test]
fn accepted_dir_is_confined_to_canonical_base() {
    let r = resolve_work_dir_in("/", &Some("tmp".to_string()));
    assert!(!r.rejected);
    assert_eq!(r.base, Some("/".to_string()));
    assert!(r.path.starts_with('/'));
}
