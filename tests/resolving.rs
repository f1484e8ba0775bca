use git_bstatus::branch::BranchError;
use git_bstatus::resolve::{choose_remote_head, default_baseline, remote_branch_name, LocalTip};

fn refs(v: &[&str]) -> Vec<String> {
    v.iter().map(|s| s.to_string()).collect()
}

fn tips(v: &[(&str, &str)]) -> Vec<LocalTip> {
    v.iter().map(|(n, t)| LocalTip { name: n.to_string(), tip: t.to_string() }).collect()
}

#[test]
fn origin_preferred_either_order() {
    assert_eq!(choose_remote_head(&refs(&["refs/remotes/upstream/HEAD", "refs/remotes/origin/HEAD"])), Some(1));
    assert_eq!(choose_remote_head(&refs(&["refs/remotes/origin/HEAD", "refs/remotes/upstream/HEAD"])), Some(0));
}

#[test]
fn last_remote_without_origin() {
    assert_eq!(choose_remote_head(&refs(&["refs/remotes/a/HEAD", "refs/remotes/b/HEAD"])), Some(1));
    assert_eq!(choose_remote_head(&refs(&["refs/remotes/origin2/HEAD", "refs/remotes/b/HEAD"])), Some(1));
    assert_eq!(choose_remote_head(&refs(&["refs/heads/HEAD"])), None);
    assert_eq!(choose_remote_head(&[]), None);
}

#[test]
fn remote_branch_parsing() {
    assert_eq!(remote_branch_name("refs/remotes/origin/main"), Ok("main".to_string()));
    assert_eq!(remote_branch_name("refs/remotes/origin/feature/x"), Ok("feature/x".to_string()));
    assert_eq!(remote_branch_name("refs/remotes/origin"), Err(BranchError::MalformedReference));
    assert_eq!(remote_branch_name("refs/heads/main"), Err(BranchError::MalformedReference));
}

#[test]
fn default_baseline_order() {
    let locals = tips(&[("main", "m"), ("master", "ms"), ("dev", "d")]);
    assert_eq!(default_baseline(Some("dev".to_string()), &locals), Ok("d".to_string()));
    assert_eq!(default_baseline(Some("gone".to_string()), &locals), Ok("ms".to_string()));
    assert_eq!(default_baseline(None, &locals), Ok("ms".to_string()));
    let only_main = tips(&[("main", "m"), ("x", "y")]);
    assert_eq!(default_baseline(None, &only_main), Ok("m".to_string()));
    let none = tips(&[("x", "y")]);
    assert_eq!(default_baseline(None, &none), Err(BranchError::DefaultBranchNotFound));
}
