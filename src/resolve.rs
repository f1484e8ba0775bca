//! Choice of the default baseline: the local branch that a remote's HEAD
//! points at, preferring the remote `origin`, else `master`, else `main`.

use vstd::prelude::*;
use crate::branch::BranchError;
use crate::text::{chars_of, has_prefix, is_prefix, string_of};

verus! {

/// A local branch name with the identifier of its tip commit.
pub struct LocalTip {
    pub name: String,
    pub tip: String,
}

/// A reference under the remote-tracking namespace.
pub open spec fn is_remote_ref(n: Seq<char>) -> bool {
    is_prefix("refs/remotes/"@, n)
}

/// A reference of the remote named `origin`.
pub open spec fn is_origin_ref(n: Seq<char>) -> bool {
    is_prefix("refs/remotes/origin/"@, n)
}

/// Which remote HEAD pointer of `s` is used, walking `s` in order: the first
/// one of `origin`, else the last remote-tracking one.
pub open spec fn chosen_head(s: Seq<String>) -> Option<int>
    decreases s.len(),
{
    if s.len() == 0 {
        None
    } else {
        let prev = chosen_head(s.drop_last());
        if prev is Some && is_origin_ref(s[prev->0]@) {
            prev
        } else if is_remote_ref(s.last()@) {
            Some(s.len() - 1)
        } else {
            prev
        }
    }
}

/// The index of the first '/' of `s` at or after `j`, or the length.
pub open spec fn find_slash(s: Seq<char>, j: int) -> int
    decreases s.len() - j,
{
    if j < 0 || j >= s.len() {
        s.len() as int
    } else if s[j] == '/' {
        j
    } else {
        find_slash(s, j + 1)
    }
}

/// The branch name in a remote-tracking reference
/// "refs/remotes/<remote>/<branch>", if it has that shape.
pub open spec fn remote_branch_of(target: Seq<char>) -> Option<Seq<char>> {
    let k = find_slash(target, "refs/remotes/"@.len() as int);
    if is_remote_ref(target) && k < target.len() {
        Some(target.skip(k + 1))
    } else {
        None
    }
}

/// The tip of the first branch of `locals`, from index `j` on, named `name`.
pub open spec fn tip_from(locals: Seq<LocalTip>, name: Seq<char>, j: int) -> Option<Seq<char>>
    decreases locals.len() - j,
{
    if j < 0 || j >= locals.len() {
        None
    } else if locals[j].name@ == name {
        Some(locals[j].tip@)
    } else {
        tip_from(locals, name, j + 1)
    }
}

/// The tip of the local branch named `name`, if there is one.
pub open spec fn tip_of(locals: Seq<LocalTip>, name: Seq<char>) -> Option<Seq<char>> {
    tip_from(locals, name, 0)
}

/// The default baseline: the local branch that the remote HEAD names, else
/// `master`, else `main`.
pub open spec fn default_tip(remote_branch: Option<Seq<char>>, locals: Seq<LocalTip>) -> Option<
    Seq<char>,
> {
    let via_remote = match remote_branch {
        Some(n) => tip_of(locals, n),
        None => None,
    };
    if via_remote is Some {
        via_remote
    } else if tip_of(locals, "master"@) is Some {
        tip_of(locals, "master"@)
    } else {
        tip_of(locals, "main"@)
    }
}

/// Picks, among the full names of the remote HEAD pointers in the order they
/// were enumerated, the one whose target serves as the default branch.
pub fn choose_remote_head(refs: &[String]) -> (r: Option<usize>)
    ensures
        match r {
            Some(i) => chosen_head(refs@) == Some(i as int),
            None => chosen_head(refs@) is None,
        },
{
    let remote_prefix = chars_of("refs/remotes/");
    let origin_prefix = chars_of("refs/remotes/origin/");
    let mut cur: Option<usize> = None;
    let mut cur_is_origin = false;
    let mut i: usize = 0;
    while i < refs.len()
        invariant
            i <= refs@.len(),
            remote_prefix@ == "refs/remotes/"@,
            origin_prefix@ == "refs/remotes/origin/"@,
            match cur {
                Some(c) => chosen_head(refs@.take(i as int)) == Some(c as int) && c < i,
                None => chosen_head(refs@.take(i as int)) is None,
            },
            cur_is_origin == (cur is Some && is_origin_ref(refs@[cur->0 as int]@)),
        decreases refs@.len() - i,
    {
        let ghost s = refs@.take(i + 1);
        assert(s.drop_last() =~= refs@.take(i as int));
        if !cur_is_origin {
            let name = chars_of(refs[i].as_str());
            if has_prefix(name.as_slice(), remote_prefix.as_slice()) {
                cur = Some(i);
                cur_is_origin = has_prefix(name.as_slice(), origin_prefix.as_slice());
            }
        }
        i = i + 1;
    }
    assert(refs@.take(i as int) =~= refs@);
    cur
}

/// The branch name inside a remote-tracking reference
/// "refs/remotes/<remote>/<branch>"; a reference of another shape is malformed.
pub fn remote_branch_name(target: &str) -> (r: Result<String, BranchError>)
    ensures
        match r {
            Ok(b) => remote_branch_of(target@) == Some(b@),
            Err(e) => remote_branch_of(target@) is None && e == BranchError::MalformedReference,
        },
{
    let chars = chars_of(target);
    let prefix = chars_of("refs/remotes/");
    if !has_prefix(chars.as_slice(), prefix.as_slice()) {
        return Err(BranchError::MalformedReference);
    }
    let mut k: usize = prefix.len();
    while k < chars.len() && chars[k] != '/'
        invariant
            prefix@.len() <= k <= chars@.len(),
            prefix@ == "refs/remotes/"@,
            find_slash(chars@, k as int) == find_slash(chars@, prefix@.len() as int),
        decreases chars@.len() - k,
    {
        k = k + 1;
    }
    if k >= chars.len() {
        return Err(BranchError::MalformedReference);
    }
    let mut out: Vec<char> = Vec::new();
    let mut j: usize = k + 1;
    while j < chars.len()
        invariant
            k + 1 <= j <= chars@.len(),
            out@ == chars@.subrange(k + 1, j as int),
        decreases chars@.len() - j,
    {
        out.push(chars[j]);
        j = j + 1;
        assert(out@ =~= chars@.subrange(k + 1, j as int));
    }
    assert(out@ =~= target@.skip(k + 1));
    Ok(string_of(out.as_slice()))
}

fn find_tip(locals: &[LocalTip], name: &String) -> (r: Option<String>)
    ensures
        match r {
            Some(t) => tip_of(locals@, name@) == Some(t@),
            None => tip_of(locals@, name@) is None,
        },
{
    let mut i: usize = 0;
    while i < locals.len()
        invariant
            i <= locals@.len(),
            tip_from(locals@, name@, i as int) == tip_of(locals@, name@),
        decreases locals@.len() - i,
    {
        if locals[i].name == *name {
            return Some(locals[i].tip.clone());
        }
        i = i + 1;
    }
    None
}

/// The tip of the default branch: the local branch named by the remote HEAD
/// (when there is one), else `master`, else `main`.
pub fn default_baseline(remote_branch: Option<String>, locals: &[LocalTip]) -> (r: Result<
    String,
    BranchError,
>)
    ensures
        match r {
            Ok(t) => default_tip(
                match remote_branch {
                    Some(n) => Some(n@),
                    None => None,
                },
                locals@,
            ) == Some(t@),
            Err(e) => default_tip(
                match remote_branch {
                    Some(n) => Some(n@),
                    None => None,
                },
                locals@,
            ) is None && e == BranchError::DefaultBranchNotFound,
        },
{
    if let Some(n) = &remote_branch {
        if let Some(t) = find_tip(locals, n) {
            return Ok(t);
        }
    }
    let master = "master".to_string();
    if let Some(t) = find_tip(locals, &master) {
        return Ok(t);
    }
    let main = "main".to_string();
    match find_tip(locals, &main) {
        Some(t) => Ok(t),
        None => Err(BranchError::DefaultBranchNotFound),
    }
}

proof fn lemma_origin_is_remote(n: Seq<char>)
    requires
        is_origin_ref(n),
    ensures
        is_remote_ref(n),
{
    reveal_strlit("refs/remotes/");
    reveal_strlit("refs/remotes/origin/");
    assert(n.subrange(0, 13) =~= n.subrange(0, 20).subrange(0, 13));
    assert("refs/remotes/origin/"@.subrange(0, 13) =~= "refs/remotes/"@);
}

/// When some remote HEAD pointer belongs to `origin`, one of `origin` is
/// chosen, wherever the others stand in the enumeration.
pub proof fn lemma_origin_preferred(s: Seq<String>, j: int)
    requires
        0 <= j < s.len(),
        is_origin_ref(s[j]@),
    ensures
        chosen_head(s) is Some,
        0 <= chosen_head(s)->0 < s.len(),
        is_origin_ref(s[chosen_head(s)->0]@),
    decreases s.len(),
{
    lemma_chosen_in_range(s);
    let t = s.drop_last();
    let prev = chosen_head(t);
    lemma_chosen_in_range(t);
    if j < s.len() - 1 {
        assert(t[j] == s[j]);
        lemma_origin_preferred(t, j);
        assert(s[prev->0] == t[prev->0]);
    } else {
        if !(prev is Some && is_origin_ref(s[prev->0]@)) {
            lemma_origin_is_remote(s[j]@);
        }
    }
}

proof fn lemma_chosen_in_range(s: Seq<String>)
    ensures
        chosen_head(s) is Some ==> 0 <= chosen_head(s)->0 < s.len(),
    decreases s.len(),
{
    if s.len() > 0 {
        lemma_chosen_in_range(s.drop_last());
    }
}

} // verus!
