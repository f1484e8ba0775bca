use git_bstatus::branch::{BranchError, BranchFilter};
use git_bstatus::rank::rank;
use git_bstatus::scan::{
    baseline_of, build_set, name_selected, needs_default, select_branches, LocalBranch, Upstream,
};

fn local(name: &str, time: i64, upstream: Option<(&str, &str)>) -> LocalBranch {
    LocalBranch {
        name: name.to_string(),
        active: name == "main",
        tip: format!("{}-tip", name),
        time,
        summary: format!("work on {}", name),
        upstream: upstream.map(|(n, t)| Upstream { name: n.to_string(), tip: t.to_string() }),
    }
}

#[test]
fn name_filter_substring() {
    let pats = vec!["eat".to_string(), "fix".to_string()];
    assert!(name_selected("feature", &pats));
    assert!(name_selected("bugfix-1", &pats));
    assert!(!name_selected("main", &pats));
    assert!(!name_selected("Feature", &vec!["FEAT".to_string()]));
    assert!(name_selected("anything", &[]));
}

#[test]
fn select_keeps_matching_names() {
    let v = vec![local("main", 1, None), local("feature", 2, None), local("featurette", 3, None)];
    let pats = vec!["ture".to_string()];
    let kept: Vec<String> = select_branches(v, &pats).into_iter().map(|b| b.name).collect();
    assert_eq!(kept, vec!["feature", "featurette"]);
    let all = select_branches(vec![local("main", 1, None), local("x", 2, None)], &[]);
    assert_eq!(all.len(), 2);
}

#[test]
fn default_needed_only_without_upstream() {
    let with = vec![local("a", 1, Some(("origin/a", "t")))];
    assert!(!needs_default(&with));
    let without = vec![local("a", 1, Some(("origin/a", "t"))), local("b", 1, None)];
    assert!(needs_default(&without));
}

#[test]
fn baseline_prefers_upstream() {
    let d = Some("default-tip".to_string());
    assert_eq!(baseline_of(&local("a", 1, Some(("origin/a", "up-tip"))), &d), Some("up-tip".to_string()));
    assert_eq!(baseline_of(&local("b", 1, None), &d), Some("default-tip".to_string()));
    assert_eq!(baseline_of(&local("b", 1, None), &None), None);
}

#[test]
fn build_set_counts() {
    let v = vec![local("a", 1, None), local("b", 2, Some(("origin/b", "t"))), local("c", 3, None)];
    let set = match build_set(v, &[0, 2, 0]) {
        Ok(s) => s,
        Err(_) => panic!("scan failed"),
    };
    assert_eq!(set.n_merged, 2);
    assert_eq!(set.n_unmerged, 1);
    assert_eq!(set.branches[1].upstream, Some("origin/b".to_string()));
    assert_eq!(set.branches[1].ahead, 2);
    let unmerged = rank(set.branches, BranchFilter::Unmerged, false);
    assert_eq!(unmerged.len(), 1);
    assert_eq!(unmerged[0].name, "b");
}

#[test]
fn build_set_rejects_negative_time() {
    let v = vec![local("a", 1, None), local("b", -5, None)];
    assert!(matches!(build_set(v, &[0, 0]), Err(BranchError::NegativeTimestamp)));
}

#[test]
fn end_to_end_main_and_feature() {
    let v = vec![local("main", 100, None), local("feature", 200, None)];
    let selected = select_branches(v, &[]);
    assert!(needs_default(&selected));
    let aheads = vec![0usize, 3];
    let set = match build_set(selected, &aheads) {
        Ok(s) => s,
        Err(_) => panic!("scan failed"),
    };
    assert_eq!(set.n_merged, 1);
    assert_eq!(set.n_unmerged, 1);
    let r = rank(set.branches, BranchFilter::All, false);
    let got: Vec<(String, usize)> = r.iter().map(|b| (b.name.clone(), b.ahead)).collect();
    assert_eq!(got, vec![("feature".to_string(), 3), ("main".to_string(), 0)]);
}
