//! The records that describe local branches, and the set of them that one scan
//! produces.

use vstd::prelude::*;

verus! {

/// One local branch, as the scan found it.
pub struct BranchRecord {
    /// Short name of the branch.
    pub name: String,
    /// Whether this branch is the one checked out.
    pub active: bool,
    /// Commit time of the tip, in seconds since the epoch.
    pub timestamp: u64,
    /// First line of the tip commit's message.
    pub summary: String,
    /// Commits reachable from the tip but not from the baseline.
    pub ahead: usize,
    /// Hexadecimal identifier of the tip commit.
    pub tip: String,
    /// Name of the configured upstream branch, if any.
    pub upstream: Option<String>,
}

/// Which branches a listing shows.
#[derive(Clone, Copy, PartialEq, Eq, Structural, Debug)]
pub enum BranchFilter {
    /// The few most recently committed to.
    Recent,
    /// Every branch.
    All,
    /// Only branches with nothing ahead of their baseline.
    Merged,
    /// Only branches with commits ahead of their baseline.
    Unmerged,
}

/// The records of one scan, with the merged and unmerged counts over every
/// branch that survived the name filter.
pub struct BranchSet {
    pub branches: Vec<BranchRecord>,
    pub n_merged: usize,
    pub n_unmerged: usize,
}

/// Why a scan could not complete.
#[derive(Clone, Copy, PartialEq, Eq, Structural, Debug)]
pub enum BranchError {
    /// No repository at or above the given location.
    RepositoryNotFound,
    /// A branch tip or commit could not be looked up.
    BranchResolutionFailure,
    /// No remote HEAD, `master` or `main` led to a local branch.
    DefaultBranchNotFound,
    /// The ahead/behind query failed.
    GraphQueryFailure,
    /// A remote-tracking reference does not split into remote and branch.
    MalformedReference,
    /// A commit reported a time before the epoch.
    NegativeTimestamp,
}

/// A branch is merged when nothing on it is missing from its baseline.
pub open spec fn is_merged(b: BranchRecord) -> bool {
    b.ahead == 0
}

/// How many records of `s` are merged.
pub open spec fn merged_count(s: Seq<BranchRecord>) -> nat
    decreases s.len(),
{
    if s.len() == 0 {
        0
    } else {
        merged_count(s.drop_last()) + if is_merged(s.last()) {
            1nat
        } else {
            0nat
        }
    }
}

/// How many records of `s` are not merged.
pub open spec fn unmerged_count(s: Seq<BranchRecord>) -> nat
    decreases s.len(),
{
    if s.len() == 0 {
        0
    } else {
        unmerged_count(s.drop_last()) + if is_merged(s.last()) {
            0nat
        } else {
            1nat
        }
    }
}

} // verus!
