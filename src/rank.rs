//! Ordering of scanned branches: filter by merge status, stable sort by commit
//! time (most recent first), keep a recent window, and optionally reverse.

use vstd::prelude::*;
use crate::branch::{BranchFilter, BranchRecord};

verus! {

/// How many branches the recent window holds.
pub const RECENT_N: usize = 5;

/// Whether the filter lets a record through.
pub open spec fn keeps(b: BranchRecord, mode: BranchFilter) -> bool {
    match mode {
        BranchFilter::Merged => b.ahead == 0,
        BranchFilter::Unmerged => b.ahead != 0,
        _ => true,
    }
}

/// The records of `s` that the filter lets through, in their order.
pub open spec fn retained(s: Seq<BranchRecord>, mode: BranchFilter) -> Seq<BranchRecord>
    decreases s.len(),
{
    if s.len() == 0 {
        s
    } else if keeps(s.last(), mode) {
        retained(s.drop_last(), mode).push(s.last())
    } else {
        retained(s.drop_last(), mode)
    }
}

/// The first index at or after `j` whose record is older than `ts`, or the
/// length when there is none.
pub open spec fn pos_from(t: Seq<BranchRecord>, ts: u64, j: int) -> int
    decreases t.len() - j,
{
    if j < 0 || j >= t.len() || t[j].timestamp < ts {
        j
    } else {
        pos_from(t, ts, j + 1)
    }
}

/// `t` with `x` placed after every leading record at least as recent as `x`.
pub open spec fn insert_by_time(t: Seq<BranchRecord>, x: BranchRecord) -> Seq<BranchRecord> {
    let p = pos_from(t, x.timestamp, 0);
    t.take(p).push(x) + t.skip(p)
}

/// Stable insertion sort of `s`, most recent first.
pub open spec fn sort_by_time(s: Seq<BranchRecord>) -> Seq<BranchRecord>
    decreases s.len(),
{
    if s.len() == 0 {
        s
    } else {
        insert_by_time(sort_by_time(s.drop_last()), s.last())
    }
}

/// No record of `s` is more recent than one before it.
pub open spec fn sorted_desc(s: Seq<BranchRecord>) -> bool {
    forall|i: int, j: int| 0 <= i < j < s.len() ==> s[i].timestamp >= s[j].timestamp
}

/// The sorted records, cut to the recent window when the filter asks for it.
pub open spec fn windowed(s: Seq<BranchRecord>, mode: BranchFilter) -> Seq<BranchRecord> {
    if mode == BranchFilter::Recent && s.len() > RECENT_N {
        s.take(RECENT_N as int)
    } else {
        s
    }
}

/// The full ranking of `s`.
pub open spec fn ranked(s: Seq<BranchRecord>, mode: BranchFilter, reverse: bool) -> Seq<
    BranchRecord,
> {
    let w = windowed(sort_by_time(retained(s, mode)), mode);
    if reverse {
        w.reverse()
    } else {
        w
    }
}

/// Filters, sorts, cuts and optionally reverses `branches`, in that order.
pub fn rank(branches: Vec<BranchRecord>, mode: BranchFilter, reverse: bool) -> (r: Vec<
    BranchRecord,
>)
    ensures
        r@ == ranked(branches@, mode, reverse),
{
    let ghost orig = branches@;
    let total: usize = branches.len();
    let mut input = branches;
    let mut sorted: Vec<BranchRecord> = Vec::new();
    let mut k: usize = 0;
    while input.len() > 0
        invariant
            k <= orig.len(),
            orig.len() == total,
            input@ == orig.skip(k as int),
            sorted@ == sort_by_time(retained(orig.take(k as int), mode)),
        decreases input@.len(),
    {
        assert(orig.skip(k as int).len() == orig.len() - k);
        let x = input.remove(0);
        let ghost before = retained(orig.take(k as int), mode);
        proof {
            assert(orig.take(k + 1).drop_last() =~= orig.take(k as int));
            assert(orig.take(k + 1).last() == orig[k as int]);
            assert(orig.skip(k + 1) =~= orig.skip(k as int).drop_first());
            if keeps(x, mode) {
                assert(retained(orig.take(k + 1), mode) == before.push(x));
                assert(before.push(x).drop_last() =~= before);
                assert(sort_by_time(before.push(x)) == insert_by_time(sort_by_time(before), x));
            } else {
                assert(retained(orig.take(k + 1), mode) == before);
            }
        }
        let keep = match mode {
            BranchFilter::Merged => x.ahead == 0,
            BranchFilter::Unmerged => x.ahead != 0,
            _ => true,
        };
        if keep {
            let ghost t = sorted@;
            let mut j: usize = 0;
            while j < sorted.len() && sorted[j].timestamp >= x.timestamp
                invariant
                    j <= sorted@.len(),
                    sorted@ == t,
                    pos_from(t, x.timestamp, j as int) == pos_from(t, x.timestamp, 0),
                decreases sorted@.len() - j,
            {
                j = j + 1;
            }
            sorted.insert(j, x);
            assert(sorted@ =~= insert_by_time(t, x));
        }
        k = k + 1;
    }
    assert(orig.take(k as int) =~= orig);
    if mode == BranchFilter::Recent && sorted.len() > RECENT_N {
        sorted.truncate(RECENT_N);
    }
    if !reverse {
        return sorted;
    }
    let ghost w = sorted@;
    let mut out: Vec<BranchRecord> = Vec::new();
    while sorted.len() > 0
        invariant
            sorted@ == w.take(sorted@.len() as int),
            sorted@.len() <= w.len(),
            out@ == w.skip(sorted@.len() as int).reverse(),
        decreases sorted@.len(),
    {
        let ghost n = sorted@.len();
        let x = sorted.pop().unwrap();
        assert(out@.push(x) =~= w.skip(n - 1).reverse());
        out.push(x);
    }
    assert(w.skip(0) =~= w);
    out
}

proof fn lemma_retained_unfiltered(s: Seq<BranchRecord>, mode: BranchFilter)
    requires
        mode == BranchFilter::All || mode == BranchFilter::Recent,
    ensures
        retained(s, mode) == s,
    decreases s.len(),
{
    if s.len() > 0 {
        lemma_retained_unfiltered(s.drop_last(), mode);
        assert(s.drop_last().push(s.last()) =~= s);
    }
}

proof fn lemma_pos_from(t: Seq<BranchRecord>, ts: u64, j: int)
    requires
        0 <= j <= t.len(),
    ensures
        j <= pos_from(t, ts, j) <= t.len(),
        forall|k: int| j <= k < pos_from(t, ts, j) ==> t[k].timestamp >= ts,
        pos_from(t, ts, j) < t.len() ==> t[pos_from(t, ts, j)].timestamp < ts,
        (forall|k: int| j <= k < t.len() ==> t[k].timestamp >= ts) ==> pos_from(t, ts, j)
            == t.len(),
    decreases t.len() - j,
{
    if j < t.len() && t[j].timestamp >= ts {
        lemma_pos_from(t, ts, j + 1);
    }
}

proof fn lemma_insert_sorted(t: Seq<BranchRecord>, x: BranchRecord)
    requires
        sorted_desc(t),
    ensures
        sorted_desc(insert_by_time(t, x)),
{
    let p = pos_from(t, x.timestamp, 0);
    lemma_pos_from(t, x.timestamp, 0);
    let r = insert_by_time(t, x);
    assert(r.len() == t.len() + 1);
    assert forall|i: int| 0 <= i < r.len() implies r[i] == (if i < p {
        t[i]
    } else if i == p {
        x
    } else {
        t[i - 1]
    }) by {}
    assert forall|i: int, j: int| 0 <= i < j < r.len() implies r[i].timestamp
        >= r[j].timestamp by {
        if j > p && i <= p && p < t.len() {
            assert(t[p].timestamp >= t[j - 1].timestamp);
        }
    }
}

proof fn lemma_sort_is_sorted(s: Seq<BranchRecord>)
    ensures
        sorted_desc(sort_by_time(s)),
    decreases s.len(),
{
    if s.len() > 0 {
        lemma_sort_is_sorted(s.drop_last());
        lemma_insert_sorted(sort_by_time(s.drop_last()), s.last());
    }
}

proof fn lemma_sort_of_sorted(s: Seq<BranchRecord>)
    requires
        sorted_desc(s),
    ensures
        sort_by_time(s) == s,
    decreases s.len(),
{
    if s.len() > 0 {
        let t = s.drop_last();
        assert(sorted_desc(t));
        lemma_sort_of_sorted(t);
        lemma_pos_from(t, s.last().timestamp, 0);
        assert(t.take(t.len() as int).push(s.last()) + t.skip(t.len() as int) =~= s);
    }
}

/// Ranking a sequence that is already ranked over all branches, in the
/// forward direction, leaves its order unchanged.
pub proof fn lemma_rank_idempotent(s: Seq<BranchRecord>)
    ensures
        ranked(ranked(s, BranchFilter::All, false), BranchFilter::All, false) == ranked(
            s,
            BranchFilter::All,
            false,
        ),
{
    let r = ranked(s, BranchFilter::All, false);
    lemma_retained_unfiltered(s, BranchFilter::All);
    lemma_retained_unfiltered(r, BranchFilter::All);
    lemma_sort_is_sorted(s);
    lemma_sort_of_sorted(r);
}

/// Asking for the reverse order gives exactly the forward ranking reversed,
/// and reversing that once more gives the forward ranking back.
pub proof fn lemma_reverse_involution(s: Seq<BranchRecord>, mode: BranchFilter)
    ensures
        ranked(s, mode, true) == ranked(s, mode, false).reverse(),
        ranked(s, mode, true).reverse() == ranked(s, mode, false),
{
    let w = ranked(s, mode, false);
    assert(w.reverse().reverse() =~= w);
}

/// On records already sorted most recent first, the recent window reversed
/// holds the first few records, oldest first, and none of the others.
pub proof fn lemma_window_before_reverse(s: Seq<BranchRecord>)
    requires
        sorted_desc(s),
        s.len() >= RECENT_N,
    ensures
        ranked(s, BranchFilter::Recent, true) == s.take(RECENT_N as int).reverse(),
        forall|i: int|
            0 <= i < RECENT_N ==> #[trigger] ranked(s, BranchFilter::Recent, true)[i] == s[RECENT_N
                - 1 - i],
{
    lemma_retained_unfiltered(s, BranchFilter::Recent);
    lemma_sort_of_sorted(s);
    assert(s.take(RECENT_N as int) =~= s.take(RECENT_N as int));
}

} // verus!
