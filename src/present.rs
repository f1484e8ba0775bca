//! Layout of branch listings: padded columns whose widths are taken over the
//! records being shown, and the lines around the human-oriented summary.

use vstd::prelude::*;
use crate::branch::{BranchError, BranchRecord, BranchSet};
use crate::relative_time::{count_digits, lemma_decimal_len_bound, relative_label, relative_text};
use crate::text::{
    chars_of, decimal, has_prefix, is_prefix, pad_left, pad_right, push_all, push_decimal, push_spaces, string_of,
};

verus! {

/// The columns of one listing line, padded to their widths. Colour is left to
/// the caller.
pub struct Row {
    /// Active marker, right-aligned.
    pub star: String,
    /// Branch name, left-aligned.
    pub name: String,
    /// Relative age, right-aligned.
    pub age: String,
    /// Signed ahead count, right-aligned.
    pub ahead: String,
    /// Upstream name, shown in parentheses when present.
    pub upstream: Option<String>,
    pub summary: String,
}

/// The longest branch name of `s`.
pub open spec fn max_name_width(s: Seq<BranchRecord>) -> nat
    decreases s.len(),
{
    if s.len() == 0 {
        0
    } else {
        let m = max_name_width(s.drop_last());
        let l = s.last().name@.len();
        if l > m {
            l
        } else {
            m
        }
    }
}

/// The longest age label of `s` at `now`.
pub open spec fn max_label_width(s: Seq<BranchRecord>, now: nat) -> nat
    decreases s.len(),
{
    if s.len() == 0 {
        0
    } else {
        let m = max_label_width(s.drop_last(), now);
        let l = relative_text(s.last().timestamp as nat, now).len();
        if l > m {
            l
        } else {
            m
        }
    }
}

/// The largest ahead count of `s`.
pub open spec fn max_ahead(s: Seq<BranchRecord>) -> nat
    decreases s.len(),
{
    if s.len() == 0 {
        0
    } else {
        let m = max_ahead(s.drop_last());
        let l = s.last().ahead as nat;
        if l > m {
            l
        } else {
            m
        }
    }
}

/// The ahead count with its sign.
pub open spec fn ahead_text(n: nat) -> Seq<char> {
    seq!['+'] + decimal(n)
}

/// The marker of a record: "*" for the checked-out branch, else a blank.
pub open spec fn star_text(active: bool) -> Seq<char> {
    if active {
        seq!['*']
    } else {
        seq![' ']
    }
}

/// The width of the marker column: wider in the summary view.
pub open spec fn star_width(indented: bool) -> nat {
    if indented {
        4
    } else {
        1
    }
}

/// Row `i` of the layout of `s` at `now` is laid out as the columns say.
pub open spec fn row_laid_out(row: Row, b: BranchRecord, s: Seq<BranchRecord>, now: nat, indented: bool) -> bool {
    &&& row.star@ == pad_left(star_text(b.active), star_width(indented))
    &&& row.name@ == pad_right(b.name@, max_name_width(s))
    &&& row.age@ == pad_left(relative_text(b.timestamp as nat, now), max_label_width(s, now))
    &&& row.ahead@ == pad_left(ahead_text(b.ahead as nat), decimal(max_ahead(s)).len() + 1)
    &&& row.upstream == b.upstream
    &&& row.summary == b.summary
}

/// `s` preceded by spaces up to `width` characters.
pub fn padded_left(s: &[char], width: usize) -> (r: Vec<char>)
    ensures
        r@ == pad_left(s@, width as nat),
{
    let mut out: Vec<char> = Vec::new();
    if s.len() < width {
        push_spaces(&mut out, width - s.len());
    }
    push_all(&mut out, s);
    assert(out@ =~= pad_left(s@, width as nat));
    out
}

/// `s` followed by spaces up to `width` characters.
pub fn padded_right(s: &[char], width: usize) -> (r: Vec<char>)
    ensures
        r@ == pad_right(s@, width as nat),
{
    let mut out: Vec<char> = Vec::new();
    push_all(&mut out, s);
    if s.len() < width {
        push_spaces(&mut out, width - s.len());
    }
    assert(out@ =~= pad_right(s@, width as nat));
    out
}

/// Lays out `branches` at `now`, each column as wide as its widest entry
/// among these records; `indented` widens the marker column.
pub fn layout(branches: &[BranchRecord], now: u64, indented: bool) -> (r: Vec<Row>)
    ensures
        r@.len() == branches@.len(),
        forall|i: int|
            0 <= i < branches@.len() ==> row_laid_out(
                #[trigger] r@[i],
                branches@[i],
                branches@,
                now as nat,
                indented,
            ),
{
    let ghost s = branches@;
    let mut labels: Vec<Vec<char>> = Vec::new();
    let mut names: Vec<Vec<char>> = Vec::new();
    let mut name_w: usize = 0;
    let mut label_w: usize = 0;
    let mut top: usize = 0;
    let mut i: usize = 0;
    while i < branches.len()
        invariant
            i <= s.len(),
            s == branches@,
            labels@.len() == i,
            names@.len() == i,
            forall|k: int| 0 <= k < i ==> #[trigger] labels@[k]@ == relative_text(s[k].timestamp as nat, now as nat),
            forall|k: int| 0 <= k < i ==> #[trigger] names@[k]@ == s[k].name@,
            name_w == max_name_width(s.take(i as int)),
            label_w == max_label_width(s.take(i as int), now as nat),
            top == max_ahead(s.take(i as int)),
        decreases s.len() - i,
    {
        let ghost t = s.take(i + 1);
        assert(t.drop_last() =~= s.take(i as int));
        let label = chars_of(relative_label(branches[i].timestamp, now).as_str());
        let name = chars_of(branches[i].name.as_str());
        if name.len() > name_w {
            name_w = name.len();
        }
        if label.len() > label_w {
            label_w = label.len();
        }
        if branches[i].ahead > top {
            top = branches[i].ahead;
        }
        labels.push(label);
        names.push(name);
        i = i + 1;
    }
    assert(s.take(i as int) =~= s);
    let digits = count_digits(top);
    proof {
        if top >= 1 {
            lemma_decimal_len_bound(top as nat);
        }
    }
    let ahead_w: usize = digits + 1;
    let mut rows: Vec<Row> = Vec::new();
    let mut j: usize = 0;
    while j < branches.len()
        invariant
            j <= s.len(),
            s == branches@,
            labels@.len() == s.len(),
            names@.len() == s.len(),
            forall|k: int| 0 <= k < s.len() ==> #[trigger] labels@[k]@ == relative_text(s[k].timestamp as nat, now as nat),
            forall|k: int| 0 <= k < s.len() ==> #[trigger] names@[k]@ == s[k].name@,
            name_w == max_name_width(s),
            label_w == max_label_width(s, now as nat),
            ahead_w == decimal(max_ahead(s)).len() + 1,
            rows@.len() == j,
            forall|k: int| 0 <= k < j ==> row_laid_out(#[trigger] rows@[k], s[k], s, now as nat, indented),
        decreases s.len() - j,
    {
        let b = &branches[j];
        let marker: Vec<char> = if b.active { vec!['*'] } else { vec![' '] };
        let sw: usize = if indented { 4 } else { 1 };
        let star = padded_left(marker.as_slice(), sw);
        let name = padded_right(names[j].as_slice(), name_w);
        let age = padded_left(labels[j].as_slice(), label_w);
        let mut signed: Vec<char> = vec!['+'];
        push_decimal(&mut signed, b.ahead as u64);
        let ahead = padded_left(signed.as_slice(), ahead_w);
        proof {
            assert(marker@ =~= star_text(b.active));
            assert(signed@ =~= ahead_text(b.ahead as nat));
        }
        let upstream = match &b.upstream {
            Some(u) => Some(u.clone()),
            None => None,
        };
        let row = Row {
            star: string_of(star.as_slice()),
            name: string_of(name.as_slice()),
            age: string_of(age.as_slice()),
            ahead: string_of(ahead.as_slice()),
            upstream,
            summary: b.summary.clone(),
        };
        rows.push(row);
        j = j + 1;
    }
    rows
}

/// How many characters of a commit identifier are shown.
pub const ABBREV_LEN: usize = 8;

/// The first characters of a commit identifier.
pub open spec fn abbrev_text(id: Seq<char>) -> Seq<char> {
    if id.len() > ABBREV_LEN {
        id.take(ABBREV_LEN as int)
    } else {
        id
    }
}

/// The line naming what is checked out: the branch (given as its full
/// reference name under "refs/heads/"), or the abbreviated commit of a
/// detached HEAD. `None` when a branch reference lies outside "refs/heads/".
pub open spec fn head_text(head: Seq<char>, on_branch: bool) -> Option<Seq<char>> {
    if on_branch {
        if is_prefix("refs/heads/"@, head) {
            Some("On branch "@ + head.skip("refs/heads/"@.len() as int))
        } else {
            None
        }
    } else {
        Some("detached HEAD at "@ + abbrev_text(head))
    }
}

/// The abbreviated form of a commit identifier.
pub fn abbrev_id(id: &str) -> (r: String)
    ensures
        r@ == abbrev_text(id@),
{
    let chars = chars_of(id);
    let mut out: Vec<char> = Vec::new();
    let mut i: usize = 0;
    while i < chars.len() && i < ABBREV_LEN
        invariant
            i <= chars@.len(),
            i <= ABBREV_LEN,
            out@ == chars@.take(i as int),
        decreases chars@.len() - i,
    {
        out.push(chars[i]);
        i = i + 1;
        assert(out@ =~= chars@.take(i as int));
    }
    assert(out@ =~= abbrev_text(id@));
    string_of(out.as_slice())
}

/// The line naming what is checked out; a branch reference outside
/// "refs/heads/" is malformed.
pub fn head_line(head: &str, on_branch: bool) -> (r: Result<String, BranchError>)
    ensures
        match r {
            Ok(l) => head_text(head@, on_branch) == Some(l@),
            Err(e) => head_text(head@, on_branch) is None && e == BranchError::MalformedReference,
        },
{
    let chars = chars_of(head);
    if on_branch {
        let prefix = chars_of("refs/heads/");
        if !has_prefix(chars.as_slice(), prefix.as_slice()) {
            return Err(BranchError::MalformedReference);
        }
        let mut out = chars_of("On branch ");
        let ghost start = out@;
        let mut i: usize = prefix.len();
        while i < chars.len()
            invariant
                prefix@.len() <= i <= chars@.len(),
                out@ == start + chars@.subrange(prefix@.len() as int, i as int),
            decreases chars@.len() - i,
        {
            out.push(chars[i]);
            i = i + 1;
            assert(out@ =~= start + chars@.subrange(prefix@.len() as int, i as int));
        }
        assert(chars@.subrange(prefix@.len() as int, i as int) =~= head@.skip(
            "refs/heads/"@.len() as int,
        ));
        Ok(string_of(out.as_slice()))
    } else {
        let mut out = chars_of("detached HEAD at ");
        let short = chars_of(abbrev_id(head).as_str());
        push_all(&mut out, short.as_slice());
        Ok(string_of(out.as_slice()))
    }
}

/// Whether the summary view ends with the branch totals: not when the only
/// branch is a single merged one.
pub fn show_totals(set: &BranchSet) -> (r: bool)
    ensures
        r == (set.n_unmerged > 0 || set.n_merged > 1),
{
    set.n_unmerged > 0 || set.n_merged > 1
}

} // verus!
