use git_bstatus::branch::{BranchError, BranchRecord, BranchSet};
use git_bstatus::present::{abbrev_id, head_line, layout, show_totals};

fn rec(name: &str, active: bool, timestamp: u64, ahead: usize, upstream: Option<&str>) -> BranchRecord {
    BranchRecord {
        name: name.to_string(),
        active,
        timestamp,
        summary: format!("about {}", name),
        ahead,
        tip: "0123456789abcdef".to_string(),
        upstream: upstream.map(|u| u.to_string()),
    }
}

#[test]
fn layout_pads_columns() {
    let now = 10_000u64;
    let v = vec![
        rec("main", true, now - 90, 0, Some("origin/main")),
        rec("feature-long", false, now - 7200, 12, None),
    ];
    let rows = layout(&v, now, false);
    assert_eq!(rows.len(), 2);
    assert_eq!(rows[0].star, "*");
    assert_eq!(rows[1].star, " ");
    assert_eq!(rows[0].name, "main        ");
    assert_eq!(rows[1].name, "feature-long");
    assert_eq!(rows[0].age, "  1 min");
    assert_eq!(rows[1].age, "2 hours");
    assert_eq!(rows[0].ahead, " +0");
    assert_eq!(rows[1].ahead, "+12");
    assert_eq!(rows[0].upstream, Some("origin/main".to_string()));
    assert_eq!(rows[1].summary, "about feature-long");
    let indented = layout(&v, now, true);
    assert_eq!(indented[0].star, "   *");
}

#[test]
fn layout_empty() {
    assert!(layout(&[], 0, true).is_empty());
}

#[test]
fn head_lines() {
    assert_eq!(head_line("refs/heads/dev", true), Ok("On branch dev".to_string()));
    assert_eq!(head_line("refs/tags/v1", true), Err(BranchError::MalformedReference));
    assert_eq!(head_line("0123456789abcdef", false), Ok("detached HEAD at 01234567".to_string()));
    assert_eq!(abbrev_id("abc"), "abc");
    assert_eq!(abbrev_id("0123456789"), "01234567");
}

#[test]
fn totals_shown_when_more_than_master() {
    let set = |m: usize, u: usize| BranchSet { branches: Vec::new(), n_merged: m, n_unmerged: u };
    assert!(!show_totals(&set(1, 0)));
    assert!(!show_totals(&set(0, 0)));
    assert!(show_totals(&set(2, 0)));
    assert!(show_totals(&set(1, 1)));
}
