//! Turning the local branches of a repository into branch records: name
//! filtering, choice of baseline, and merge classification.

use vstd::prelude::*;
use crate::branch::{
    is_merged, merged_count, unmerged_count, BranchError, BranchFilter, BranchRecord, BranchSet,
};
use crate::rank::retained;
use crate::text::{is_substring, str_contains};

verus! {

/// The configured upstream of a branch: its name and its tip.
pub struct Upstream {
    pub name: String,
    pub tip: String,
}

/// A local branch as the repository reports it, before classification.
pub struct LocalBranch {
    pub name: String,
    pub active: bool,
    pub tip: String,
    /// Commit time of the tip, in seconds since the epoch.
    pub time: i64,
    pub summary: String,
    pub upstream: Option<Upstream>,
}

/// The name passes the patterns: there are none, or one of them occurs in it.
pub open spec fn name_matches(name: Seq<char>, patterns: Seq<String>) -> bool {
    patterns.len() == 0 || exists|i: int| 0 <= i < patterns.len() && is_substring(patterns[i]@, name)
}

/// The branches of `s` whose names pass the patterns, in their order.
pub open spec fn selected(s: Seq<LocalBranch>, patterns: Seq<String>) -> Seq<LocalBranch>
    decreases s.len(),
{
    if s.len() == 0 {
        s
    } else if name_matches(s.last().name@, patterns) {
        selected(s.drop_last(), patterns).push(s.last())
    } else {
        selected(s.drop_last(), patterns)
    }
}

/// The record made of a local branch and its ahead count.
pub open spec fn record_of(b: LocalBranch, ahead: usize) -> BranchRecord {
    BranchRecord {
        name: b.name,
        active: b.active,
        timestamp: b.time as u64,
        summary: b.summary,
        ahead,
        tip: b.tip,
        upstream: match b.upstream {
            Some(u) => Some(u.name),
            None => None,
        },
    }
}

/// Whether `name` passes the patterns (case-sensitive substring match).
pub fn name_selected(name: &str, patterns: &[String]) -> (r: bool)
    ensures
        r == name_matches(name@, patterns@),
{
    if patterns.len() == 0 {
        return true;
    }
    let mut i: usize = 0;
    while i < patterns.len()
        invariant
            i <= patterns@.len(),
            forall|k: int| 0 <= k < i ==> !is_substring(patterns@[k]@, name@),
        decreases patterns@.len() - i,
    {
        if str_contains(name, patterns[i].as_str()) {
            return true;
        }
        i = i + 1;
    }
    false
}

/// Keeps the branches whose names pass the patterns, in their order.
pub fn select_branches(branches: Vec<LocalBranch>, patterns: &[String]) -> (r: Vec<LocalBranch>)
    ensures
        r@ == selected(branches@, patterns@),
        patterns@.len() == 0 ==> r@ == branches@,
{
    let ghost orig = branches@;
    let total: usize = branches.len();
    let mut input = branches;
    let mut out: Vec<LocalBranch> = Vec::new();
    let mut k: usize = 0;
    while input.len() > 0
        invariant
            k <= orig.len(),
            orig.len() == total,
            input@ == orig.skip(k as int),
            out@ == selected(orig.take(k as int), patterns@),
        decreases input@.len(),
    {
        assert(orig.skip(k as int).len() == orig.len() - k);
        let b = input.remove(0);
        proof {
            assert(orig.take(k + 1).drop_last() =~= orig.take(k as int));
            assert(orig.skip(k + 1) =~= orig.skip(k as int).drop_first());
        }
        if name_selected(b.name.as_str(), patterns) {
            out.push(b);
        }
        k = k + 1;
    }
    assert(orig.take(k as int) =~= orig);
    proof {
        if patterns@.len() == 0 {
            lemma_selected_all(orig, patterns@);
        }
    }
    out
}

proof fn lemma_selected_all(s: Seq<LocalBranch>, patterns: Seq<String>)
    requires
        patterns.len() == 0,
    ensures
        selected(s, patterns) == s,
    decreases s.len(),
{
    if s.len() > 0 {
        lemma_selected_all(s.drop_last(), patterns);
        assert(s.drop_last().push(s.last()) =~= s);
    }
}

/// A branch is kept exactly when its name passes the patterns; with no
/// patterns every branch is kept.
pub proof fn lemma_name_filter(s: Seq<LocalBranch>, patterns: Seq<String>)
    ensures
        forall|b: LocalBranch| #[trigger]
            selected(s, patterns).contains(b) <==> s.contains(b) && name_matches(
                b.name@,
                patterns,
            ),
        patterns.len() == 0 ==> selected(s, patterns) == s,
    decreases s.len(),
{
    if s.len() > 0 {
        let t = s.drop_last();
        lemma_name_filter(t, patterns);
        assert(s =~= t.push(s.last()));
        assert forall|b: LocalBranch| #[trigger]
            selected(s, patterns).contains(b) <==> s.contains(b) && name_matches(
                b.name@,
                patterns,
            ) by {
            if s.contains(b) && b != s.last() {
                let i = choose|i: int| 0 <= i < s.len() && s[i] == b;
                assert(t[i] == b);
            }
            if selected(t, patterns).contains(b) {
                let i = choose|i: int| 0 <= i < selected(t, patterns).len() && selected(t, patterns)[i] == b;
                assert(selected(t, patterns).push(s.last())[i] == b);
            }
            if b == s.last() && name_matches(b.name@, patterns) {
                assert(selected(s, patterns).last() == b);
            }
            if t.contains(b) {
                let i = choose|i: int| 0 <= i < t.len() && t[i] == b;
                assert(s[i] == b);
            }
        }
    }
    if patterns.len() == 0 {
        lemma_selected_all(s, patterns);
    }
}

/// Whether some branch has no upstream, so that the default baseline is needed.
pub fn needs_default(branches: &[LocalBranch]) -> (r: bool)
    ensures
        r == exists|i: int| 0 <= i < branches@.len() && branches@[i].upstream is None,
{
    let mut i: usize = 0;
    while i < branches.len()
        invariant
            i <= branches@.len(),
            forall|k: int| 0 <= k < i ==> branches@[k].upstream is Some,
        decreases branches@.len() - i,
    {
        if branches[i].upstream.is_none() {
            return true;
        }
        i = i + 1;
    }
    false
}

/// The tip a branch is compared with: its upstream's, else the default
/// baseline (if one was resolved).
pub fn baseline_of(b: &LocalBranch, default_tip: &Option<String>) -> (r: Option<String>)
    ensures
        r == match b.upstream {
            Some(u) => Some(u.tip),
            None => *default_tip,
        },
{
    match &b.upstream {
        Some(u) => Some(u.tip.clone()),
        None => match default_tip {
            Some(t) => Some(t.clone()),
            None => None,
        },
    }
}

/// Builds the branch set from the selected branches and the ahead count of
/// each, counting merged and unmerged branches. Fails when a commit time lies
/// before the epoch.
pub fn build_set(branches: Vec<LocalBranch>, aheads: &[usize]) -> (r: Result<BranchSet, BranchError>)
    requires
        aheads@.len() == branches@.len(),
    ensures
        match r {
            Ok(set) => {
                &&& forall|i: int| 0 <= i < branches@.len() ==> branches@[i].time >= 0
                &&& set.branches@ == Seq::new(
                    branches@.len(),
                    |i: int| record_of(branches@[i], aheads@[i]),
                )
                &&& set.n_merged == merged_count(set.branches@)
                &&& set.n_unmerged == unmerged_count(set.branches@)
            },
            Err(e) => {
                &&& e == BranchError::NegativeTimestamp
                &&& exists|i: int| 0 <= i < branches@.len() && branches@[i].time < 0
            },
        },
{
    let ghost orig = branches@;
    let total: usize = branches.len();
    let mut input = branches;
    let mut out: Vec<BranchRecord> = Vec::new();
    let mut n_merged: usize = 0;
    let mut n_unmerged: usize = 0;
    let mut k: usize = 0;
    while input.len() > 0
        invariant
            k <= orig.len(),
            orig.len() == total,
            orig == branches@,
            aheads@.len() == total,
            input@ == orig.skip(k as int),
            forall|i: int| 0 <= i < k ==> orig[i].time >= 0,
            out@ == Seq::new(k as nat, |i: int| record_of(orig[i], aheads@[i])),
            n_merged == merged_count(out@),
            n_unmerged == unmerged_count(out@),
            n_merged + n_unmerged == k,
        decreases input@.len(),
    {
        assert(orig.skip(k as int).len() == orig.len() - k);
        let b = input.remove(0);
        assert(orig.skip(k + 1) =~= orig.skip(k as int).drop_first());
        if b.time < 0 {
            assert(orig[k as int] == b);
            assert(orig[k as int].time < 0);
            assert(branches@[k as int].time < 0);
            return Err(BranchError::NegativeTimestamp);
        }
        let ahead = aheads[k];
        let upstream = match b.upstream {
            Some(u) => Some(u.name),
            None => None,
        };
        let rec = BranchRecord {
            name: b.name,
            active: b.active,
            timestamp: b.time as u64,
            summary: b.summary,
            ahead,
            tip: b.tip,
            upstream,
        };
        let ghost before = out@;
        out.push(rec);
        proof {
            assert(out@.drop_last() =~= before);
        }
        if ahead == 0 {
            n_merged = n_merged + 1;
        } else {
            n_unmerged = n_unmerged + 1;
        }
        k = k + 1;
        assert(out@ =~= Seq::new(k as nat, |i: int| record_of(orig[i], aheads@[i])));
    }
    Ok(BranchSet { branches: out, n_merged, n_unmerged })
}

/// Each record is counted as merged or as unmerged, never both; the merged
/// count is what the merged filter keeps and the unmerged count what the
/// unmerged filter keeps, which holds no record with a zero ahead count.
pub proof fn lemma_merge_classification(s: Seq<BranchRecord>)
    ensures
        merged_count(s) + unmerged_count(s) == s.len(),
        merged_count(s) == retained(s, BranchFilter::Merged).len(),
        unmerged_count(s) == retained(s, BranchFilter::Unmerged).len(),
        forall|i: int|
            0 <= i < retained(s, BranchFilter::Unmerged).len() ==> !is_merged(
                #[trigger] retained(s, BranchFilter::Unmerged)[i],
            ),
        forall|i: int|
            0 <= i < retained(s, BranchFilter::Merged).len() ==> is_merged(
                #[trigger] retained(s, BranchFilter::Merged)[i],
            ),
    decreases s.len(),
{
    if s.len() > 0 {
        lemma_merge_classification(s.drop_last());
    }
}

} // verus!
