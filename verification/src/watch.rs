//! Deciding which filesystem events under a repository matter to the view,
//! and coalescing a burst of them into one notification.
use vstd::prelude::*;
use crate::paths::{forward_slashes, has_drive, path_components, path_components_of};
use crate::text::{chars_of, has_prefix, vec_eq_str, vec_starts_with, views};

verus! {

/// How a changed path matters to what is shown.
#[derive(Clone, Copy, PartialEq, Eq, Debug, Structural)]
pub enum Change {
    /// objects, logs, lock churn from git's own work: noise
    Irrelevant,
    /// `.git/index`, also rewritten by read-only refreshes
    Index,
    /// HEAD, refs, state markers or worktree files: always someone else's doing
    Other,
}

/// The rank of a change: irrelevant below index below other.
pub open spec fn rank(c: Change) -> int {
    match c {
        Change::Irrelevant => 0,
        Change::Index => 1,
        Change::Other => 2,
    }
}

/// The stronger of two changes.
pub open spec fn stronger(a: Change, b: Change) -> Change {
    if rank(a) >= rank(b) {
        a
    } else {
        b
    }
}

/// `p` relative to `root` (`Path::strip_prefix`): the components after
/// `root`'s, when `root`'s components begin `p`'s; `windows` says whether the
/// paths are Windows paths.
pub open spec fn strip_root(root: Seq<char>, p: Seq<char>, windows: bool) -> Option<Seq<Seq<char>>> {
    let rc = path_components(root, windows);
    let pc = path_components(p, windows);
    if rc.len() <= pc.len() && pc.take(rc.len() as int) == rc {
        Some(pc.skip(rc.len() as int))
    } else {
        None
    }
}

/// Pieces joined with `/` between them.
pub open spec fn join_slash(parts: Seq<Seq<char>>) -> Seq<char>
    decreases parts.len(),
{
    if parts.len() == 0 {
        Seq::<char>::empty()
    } else if parts.len() == 1 {
        parts[0]
    } else {
        join_slash(parts.drop_last()) + seq!['/'] + parts.last()
    }
}

/// How a path inside `.git` (given relative to `.git`) matters: `index`
/// is the index, HEAD, the state markers and anything under `refs/` are other
/// changes, the rest is noise.
pub open spec fn git_internal_change(s: Seq<char>) -> Change {
    if s == "index"@ {
        Change::Index
    } else if s == "HEAD"@ || s == "MERGE_HEAD"@ || s == "CHERRY_PICK_HEAD"@ || s == "REVERT_HEAD"@
        || s == "MERGE_MSG"@ || has_prefix(s, "refs/"@) {
        Change::Other
    } else {
        Change::Irrelevant
    }
}

/// How a changed path `p` matters for the repository at `root` (Windows
/// paths when `windows`): nothing outside the repository or at its root;
/// inside `.git` as `git_internal_change` says, its path there with `/`
/// separators; anywhere else an other change.
pub open spec fn classify_spec(root: Seq<char>, p: Seq<char>, windows: bool) -> Change {
    match strip_root(root, p, windows) {
        None => Change::Irrelevant,
        Some(rel) => if rel.len() == 0 {
            Change::Irrelevant
        } else if rel[0] == ".git"@ {
            git_internal_change(forward_slashes(join_slash(rel.drop_first())))
        } else {
            Change::Other
        },
    }
}

fn same_chars(a: &Vec<char>, b: &Vec<char>) -> (r: bool)
    ensures
        r == (a@ == b@),
{
    assert(b@.subrange(0, b@.len() as int) =~= b@);
    crate::text::vec_range_eq(a, b, 0, b.len())
}

/// How a changed path matters for the repository at `root` (see
/// `classify_spec`).
pub fn classify(root: &str, p: &str, windows: bool) -> (r: Change)
    ensures
        r == classify_spec(root@, p@, windows),
{
    let rc = path_components_of(&chars_of(root), windows);
    let pc = path_components_of(&chars_of(p), windows);
    let ghost rv = views(rc@);
    let ghost pv = views(pc@);
    if rc.len() > pc.len() {
        return Change::Irrelevant;
    }
    let mut k: usize = 0;
    while k < rc.len()
        invariant
            0 <= k <= rc.len() <= pc.len(),
            rv == views(rc@),
            pv == views(pc@),
            rv == path_components(root@, windows),
            pv == path_components(p@, windows),
            forall|m: int| 0 <= m < k ==> pv[m] == rv[m],
        decreases rc.len() - k,
    {
        if !same_chars(&rc[k], &pc[k]) {
            assert(pv.take(rv.len() as int)[k as int] != rv[k as int]);
            assert(pv.take(rv.len() as int) != rv);
            return Change::Irrelevant;
        }
        k += 1;
    }
    assert(pv.take(rv.len() as int) =~= rv);
    let ghost rel = pv.skip(rv.len() as int);
    let n = rc.len();
    if n == pc.len() {
        return Change::Irrelevant;
    }
    let git = chars_of(".git");
    if !same_chars(&pc[n], &git) {
        assert(rel[0] == pc@[n as int]@);
        return Change::Other;
    }
    assert(rel[0] == pc@[n as int]@);
    // the rest of the components, joined with '/'
    let mut s: Vec<char> = Vec::new();
    let mut j = n + 1;
    assert(rel.drop_first().take(0) =~= Seq::<Seq<char>>::empty());
    while j < pc.len()
        invariant
            n + 1 <= j <= pc.len(),
            pv == views(pc@),
            rel == pv.skip(n as int),
            s@ == forward_slashes(join_slash(rel.drop_first().take(j - n - 1))),
        decreases pc.len() - j,
    {
        let ghost t = rel.drop_first().take(j - n - 1);
        assert(rel.drop_first().take(j - n) =~= t.push(pc@[j as int]@));
        assert(rel.drop_first().take(j - n).drop_last() =~= t);
        if j > n + 1 {
            s.push('/');
        }
        let c = &pc[j];
        let mut m: usize = 0;
        let ghost s0 = s@;
        while m < c.len()
            invariant
                0 <= m <= c.len(),
                s@ == s0 + forward_slashes(c@.take(m as int)),
            decreases c.len() - m,
        {
            let ch = if c[m] == '\\' {
                '/'
            } else {
                c[m]
            };
            s.push(ch);
            assert(c@.take(m as int + 1) =~= c@.take(m as int).push(c@[m as int]));
            assert(forward_slashes(c@.take(m as int + 1)) =~= forward_slashes(c@.take(m as int)).push(
                ch,
            ));
            m += 1;
        }
        assert(c@.take(c@.len() as int) =~= c@);
        proof {
            if j > n + 1 {
                assert(forward_slashes(join_slash(t) + seq!['/'] + c@) =~= forward_slashes(
                    join_slash(t),
                ) + seq!['/'] + forward_slashes(c@));
            } else {
                assert(t.len() == 0);
            }
        }
        j += 1;
    }
    assert(rel.drop_first().take(pc.len() - n - 1) =~= rel.drop_first());
    if vec_eq_str(&s, "index") {
        Change::Index
    } else if vec_eq_str(&s, "HEAD") || vec_eq_str(&s, "MERGE_HEAD") || vec_eq_str(
        &s,
        "CHERRY_PICK_HEAD",
    ) || vec_eq_str(&s, "REVERT_HEAD") || vec_eq_str(&s, "MERGE_MSG") || vec_starts_with(
        &s,
        "refs/",
    ) {
        Change::Other
    } else {
        Change::Irrelevant
    }
}

proof fn lemma_components_slashes(p: Seq<char>)
    ensures
        path_components(forward_slashes(p), true) == path_components(p, true),
{
    let q = forward_slashes(p);
    assert(forward_slashes(q) =~= q);
    if p.len() >= 2 {
        assert(q[0] == p[0] || p[0] == '\\');
        assert(q[1] == ':' <==> p[1] == ':');
    }
    assert(has_drive(q) == has_drive(p));
}

/// On Windows, how a changed path is classified does not depend on which of
/// `\` and `/` the root and the path use.
pub proof fn law_windows_separators_agree(root: Seq<char>, p: Seq<char>)
    ensures
        classify_spec(forward_slashes(root), forward_slashes(p), true) == classify_spec(root, p, true),
{
    lemma_components_slashes(root);
    lemma_components_slashes(p);
}

/// The strongest change among the paths of one event.
pub open spec fn event_change(root: Seq<char>, paths: Seq<Seq<char>>, windows: bool) -> Change
    decreases paths.len(),
{
    if paths.len() == 0 {
        Change::Irrelevant
    } else {
        stronger(
            event_change(root, paths.drop_last(), windows),
            classify_spec(root, paths.last(), windows),
        )
    }
}

/// The strongest classification across an event's paths.
pub fn classify_event(root: &str, paths: &Vec<String>, windows: bool) -> (r: Change)
    ensures
        r == event_change(root@, paths@.map_values(|s: String| s@), windows),
{
    let ghost pv = paths@.map_values(|s: String| s@);
    let mut acc = Change::Irrelevant;
    let mut i: usize = 0;
    assert(pv.take(0) =~= Seq::<Seq<char>>::empty());
    while i < paths.len()
        invariant
            0 <= i <= paths.len(),
            pv == paths@.map_values(|s: String| s@),
            acc == event_change(root@, pv.take(i as int), windows),
        decreases paths.len() - i,
    {
        assert(pv.take(i as int + 1).drop_last() =~= pv.take(i as int));
        assert(pv.take(i as int + 1).last() == paths@[i as int]@);
        let c = classify(root, paths[i].as_str(), windows);
        acc = absorb(acc, c);
        i += 1;
    }
    assert(pv.take(paths.len() as int) =~= pv);
    acc
}

/// The pending change of a burst after one more change: the stronger of
/// the two, so that an other change is never downgraded.
pub fn absorb(pending: Change, c: Change) -> (r: Change)
    ensures
        r == stronger(pending, c),
{
    if c == Change::Other || (c == Change::Index && pending == Change::Irrelevant) {
        c
    } else {
        pending
    }
}

/// What to tell the view once the repository has been quiet: nothing for
/// an irrelevant burst, otherwise whether only the index changed.
pub fn flush(pending: Change) -> (r: Option<bool>)
    ensures
        pending == Change::Irrelevant ==> r is None,
        pending == Change::Index ==> r == Some(true),
        pending == Change::Other ==> r == Some(false),
{
    match pending {
        Change::Irrelevant => None,
        Change::Index => Some(true),
        Change::Other => Some(false),
    }
}

/// The pending change of a burst of classified events.
pub open spec fn burst_change(cs: Seq<Change>) -> Change
    decreases cs.len(),
{
    if cs.len() == 0 {
        Change::Irrelevant
    } else {
        stronger(burst_change(cs.drop_last()), cs.last())
    }
}

/// Coalescing does not depend on the order of a burst's events: combining
/// changes is commutative and associative, and absorbing a change twice is
/// the same as once.
pub proof fn law_absorb_order_free(a: Change, b: Change, c: Change)
    ensures
        stronger(a, b) == stronger(b, a),
        stronger(stronger(a, b), c) == stronger(a, stronger(b, c)),
        stronger(stronger(a, b), b) == stronger(a, b),
{
}

/// A burst that holds an other change (HEAD moved, refs updated, a file
/// edited) is always reported, and never as index-only.
pub proof fn law_other_never_dropped(cs: Seq<Change>, i: int)
    requires
        0 <= i < cs.len(),
        cs[i] == Change::Other,
    ensures
        burst_change(cs) == Change::Other,
    decreases cs.len(),
{
    if i < cs.len() - 1 {
        law_other_never_dropped(cs.drop_last(), i);
    }
}

/// A burst of index-only and irrelevant changes with at least one index
/// change is reported as index-only.
pub proof fn law_index_only_burst(cs: Seq<Change>, i: int)
    requires
        0 <= i < cs.len(),
        cs[i] == Change::Index,
        forall|j: int| 0 <= j < cs.len() ==> cs[j] != Change::Other,
    ensures
        burst_change(cs) == Change::Index,
    decreases cs.len(),
{
    if i < cs.len() - 1 {
        law_index_only_burst(cs.drop_last(), i);
    } else {
        lemma_burst_below_other(cs.drop_last());
    }
}

proof fn lemma_burst_below_other(cs: Seq<Change>)
    requires
        forall|j: int| 0 <= j < cs.len() ==> cs[j] != Change::Other,
    ensures
        burst_change(cs) != Change::Other,
    decreases cs.len(),
{
    if cs.len() > 0 {
        lemma_burst_below_other(cs.drop_last());
    }
}

} // verus!
