use rollcron::paths::{
    cache_dir_in, cache_dir_name, get_cache_dir, get_job_dir, get_job_dirs, hash_str, job_dir_in, job_dir_name,
    retired_dir_in, staging_dir_in,
};
use std::hash::{Hash, Hasher};

#[test]
fn cache_dir_from_url() {
    let dir = get_cache_dir("https://github.com/user/myrepo.git");
    assert!(dir.contains("myrepo"));
}

#[test]
fn hash_matches_std_str_hash() {
    for s in ["", "abc", "https://github.com/user/myrepo.git", "/home/me/jobs"] {
        let mut h = std::collections::hash_map::DefaultHasher::new();
        s.hash(&mut h);
        assert_eq!(hash_str(s), h.finish());
    }
}

#[test]
fn cache_dir_name_has_repo_and_tag() {
    let source = "https://github.com/user/myrepo.git";
    let hex = format!("{:x}", hash_str(source));
    let expected = format!("myrepo-{}", &hex[..8.min(hex.len())]);
    assert_eq!(cache_dir_name(source), expected);
}

#[test]
fn cache_dir_name_trims_slashes_and_git_suffixes() {
    let a = cache_dir_name("/srv/repos/jobs.git.git///");
    assert!(a.starts_with("jobs-"));
    assert_eq!(a.len(), "jobs-".len() + 8.min(format!("{:x}", hash_str("/srv/repos/jobs.git.git///")).len()));
    let b = cache_dir_name("plain");
    assert!(b.starts_with("plain-"));
}

#[test]
fn cache_dir_under_base() {
    let d = cache_dir_in("/home/u/.cache", "/srv/jobs");
    assert!(d.starts_with("/home/u/.cache/rollcron/jobs-"));
    let d2 = cache_dir_in("/home/u/.cache/", "/srv/jobs");
    assert_eq!(d, d2);
}

#[test]
fn job_dir_names() {
    assert_eq!(job_dir_name("/c/rollcron/jobs-1234abcd", "backup"), "jobs-1234abcd@backup");
    assert_eq!(job_dir_name("/c/rollcron/jobs-1234abcd/", "backup"), "jobs-1234abcd@backup");
    assert_eq!(job_dir_name("/", "x"), "unknown@x");
    assert_eq!(job_dir_name("/a/..", "x"), "unknown@x");
    assert_eq!(job_dir_in("/tmp", "/c/rollcron/m-1", "j"), "/tmp/rollcron/m-1@j");
}

#[test]
fn job_dir_under_user_cache() {
    let d = get_job_dir("/c/rollcron/m-1", "j");
    assert!(d.ends_with("/rollcron/m-1@j"));
}

#[test]
fn staging_dirs_are_private() {
    assert_eq!(staging_dir_in("/tmp", "/c/rollcron/m-1", "j"), "/tmp/rollcron/.staging/m-1@j");
    let ids = ["a", "a.b", "a.c", "a.tmp", ".staging", "x/y"];
    for i in ids {
        let s = staging_dir_in("/c", "/c/rollcron/m.x", i);
        for k in ids {
            assert_ne!(s, job_dir_in("/c", "/c/rollcron/m.x", k));
            let r = retired_dir_in("/c", "/c/rollcron/m.x", k);
            assert_ne!(r, job_dir_in("/c", "/c/rollcron/m.x", i));
            assert_ne!(s, r);
            if i != k {
                assert_ne!(s, staging_dir_in("/c", "/c/rollcron/m.x", k));
                assert_ne!(r, retired_dir_in("/c", "/c/rollcron/m.x", i));
            }
        }
    }
    let dirs = get_job_dirs("/c/rollcron/m-1", "j");
    assert!(dirs.job_dir.ends_with("/rollcron/m-1@j"));
    assert!(dirs.staging_dir.ends_with("/rollcron/.staging/m-1@j"));
    assert!(dirs.retired_dir.ends_with("/rollcron/.retired/m-1@j"));
}
