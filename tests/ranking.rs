use git_bstatus::branch::{BranchFilter, BranchRecord};
use git_bstatus::rank::rank;

fn rec(name: &str, timestamp: u64, ahead: usize) -> BranchRecord {
    BranchRecord {
        name: name.to_string(),
        active: false,
        timestamp,
        summary: format!("tip of {}", name),
        ahead,
        tip: format!("{:040}", timestamp),
        upstream: None,
    }
}

fn names(v: &[BranchRecord]) -> Vec<String> {
    v.iter().map(|b| b.name.clone()).collect()
}

fn ten() -> Vec<BranchRecord> {
    (0..10u64).map(|i| rec(&format!("b{}", i), 100 - i, (i % 2) as usize)).collect()
}

#[test]
fn rank_sorts_most_recent_first() {
    let v = vec![rec("old", 10, 0), rec("new", 30, 1), rec("mid", 20, 0)];
    assert_eq!(names(&rank(v, BranchFilter::All, false)), vec!["new", "mid", "old"]);
}

#[test]
fn rank_is_stable_on_equal_times() {
    let v = vec![rec("a", 5, 0), rec("b", 9, 0), rec("c", 5, 0), rec("d", 5, 0)];
    assert_eq!(names(&rank(v, BranchFilter::All, false)), vec!["b", "a", "c", "d"]);
}

#[test]
fn rank_idempotent_on_ranked() {
    let v = vec![rec("a", 5, 0), rec("b", 9, 2), rec("c", 5, 0), rec("d", 7, 1)];
    let once = rank(v, BranchFilter::All, false);
    let first = names(&once);
    let twice = rank(once, BranchFilter::All, false);
    assert_eq!(first, names(&twice));
}

#[test]
fn rank_reverse_twice_restores() {
    let forward = names(&rank(ten(), BranchFilter::Recent, false));
    let backward = rank(ten(), BranchFilter::Recent, true);
    let mut back_names = names(&backward);
    back_names.reverse();
    assert_eq!(forward, back_names);
}

#[test]
fn rank_recent_truncates_before_reverse() {
    let r = rank(ten(), BranchFilter::Recent, true);
    assert_eq!(names(&r), vec!["b4", "b3", "b2", "b1", "b0"]);
    let f = rank(ten(), BranchFilter::Recent, false);
    assert_eq!(names(&f), vec!["b0", "b1", "b2", "b3", "b4"]);
}

#[test]
fn rank_all_keeps_everything() {
    assert_eq!(rank(ten(), BranchFilter::All, false).len(), 10);
    assert!(rank(Vec::new(), BranchFilter::Recent, true).is_empty());
}

#[test]
fn rank_merged_and_unmerged_filters() {
    let m = rank(ten(), BranchFilter::Merged, false);
    assert_eq!(names(&m), vec!["b0", "b2", "b4", "b6", "b8"]);
    assert!(m.iter().all(|b| b.ahead == 0));
    let u = rank(ten(), BranchFilter::Unmerged, false);
    assert_eq!(names(&u), vec!["b1", "b3", "b5", "b7", "b9"]);
    assert!(u.iter().all(|b| b.ahead != 0));
}
