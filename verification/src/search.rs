//! Searching history: which commits a query, an author, a subject or a hash
//! prefix picks, and how far the scan of the log goes.
use vstd::prelude::*;
use crate::lang::{lowercase, to_lower};
use crate::log::{CommitV, commit_views};
use crate::text::{
    chars_of, first_occ, has_prefix, range_contains, range_starts_with, string_of, trim, trim_vec,
};
use crate::types::CommitInfo;

verus! {

/// Commits scanned at most by one search.
pub const SCAN_CAP: u32 = 10000;

/// Commits read from the log per step of a search.
pub const BATCH: u32 = 500;

/// What a history search looks for. Blank criteria are left out: `query`
/// (lower case) is empty when not given, the others are none.
pub struct CommitFilters {
    /// Matched, in lower case, inside hash, short hash, author, e-mail or
    /// subject.
    pub query: String,
    /// Handed to `git log --author` (trimmed).
    pub author: Option<String>,
    /// Matched, in lower case, inside the subject.
    pub subject: Option<String>,
    /// Matched, in lower case, at the start of the hash or short hash.
    pub hash: Option<String>,
}

/// `p` occurs in `s`.
pub open spec fn includes(s: Seq<char>, p: Seq<char>) -> bool {
    first_occ(s, p) >= 0
}

/// A criterion as the search uses it: trimmed, then in lower case when
/// `lower`, and none when that leaves it empty.
pub open spec fn criterion(s: Option<String>, lower: bool) -> Option<Seq<char>> {
    match s {
        Some(x) => {
            let t = if lower {
                lowercase(trim(x@))
            } else {
                trim(x@)
            };
            if t.len() > 0 {
                Some(t)
            } else {
                None
            }
        },
        None => None,
    }
}

fn criterion_exec(s: Option<String>, lower: bool) -> (r: Option<String>)
    ensures
        match r {
            Some(x) => criterion(s, lower) == Some(x@),
            None => criterion(s, lower) is None,
        },
{
    match s {
        Some(x) => {
            let t = string_of(&trim_vec(&chars_of(x.as_str())));
            let t = if lower {
                to_lower(t.as_str())
            } else {
                t
            };
            if chars_of(t.as_str()).len() > 0 {
                Some(t)
            } else {
                None
            }
        },
        None => None,
    }
}

pub open spec fn opt_seq(s: Option<String>) -> Option<Seq<char>> {
    match s {
        Some(x) => Some(x@),
        None => None,
    }
}

/// The filters of a search for `query` with the qualifiers `author`,
/// `subject` and `hash`; none when all of them are blank, a search that
/// finds nothing.
pub fn commit_filters(
    query: &str,
    author: Option<String>,
    subject: Option<String>,
    hash: Option<String>,
) -> (r: Option<CommitFilters>)
    ensures
        (lowercase(trim(query@)).len() == 0 && criterion(author, false) is None && criterion(
            subject,
            true,
        ) is None && criterion(hash, true) is None) <==> r is None,
        r matches Some(f) ==> f.query@ == lowercase(trim(query@)) && opt_seq(f.author) == criterion(
            author,
            false,
        ) && opt_seq(f.subject) == criterion(subject, true) && opt_seq(f.hash) == criterion(
            hash,
            true,
        ),
{
    let q = to_lower(string_of(&trim_vec(&chars_of(query))).as_str());
    let a = criterion_exec(author, false);
    let s = criterion_exec(subject, true);
    let h = criterion_exec(hash, true);
    if chars_of(q.as_str()).len() == 0 && a.is_none() && s.is_none() && h.is_none() {
        return None;
    }
    Some(CommitFilters { query: q, author: a, subject: s, hash: h })
}

/// Whether commit `c` passes the filters (the author qualifier is applied
/// by git, before).
pub open spec fn commit_hit(c: CommitV, query: Seq<char>, subject: Option<Seq<char>>, hash: Option<
    Seq<char>,
>) -> bool {
    &&& match subject {
        Some(s) => includes(lowercase(c.subject), s),
        None => true,
    }
    &&& match hash {
        Some(h) => has_prefix(lowercase(c.hash), h) || has_prefix(lowercase(c.short_hash), h),
        None => true,
    }
    &&& query.len() > 0 ==> (includes(lowercase(c.hash), query) || includes(
        lowercase(c.short_hash),
        query,
    ) || includes(lowercase(c.author), query) || includes(lowercase(c.email), query) || includes(
        lowercase(c.subject),
        query,
    ))
}

pub open spec fn filters_hit(c: CommitV, f: CommitFilters) -> bool {
    commit_hit(c, f.query@, opt_seq(f.subject), opt_seq(f.hash))
}

fn lower_includes(s: &str, p: &Vec<char>) -> (r: bool)
    ensures
        r == includes(lowercase(s@), p@),
{
    let v = chars_of(to_lower(s).as_str());
    let r = range_contains(&v, 0, v.len(), p);
    assert(v@.subrange(0, v@.len() as int) =~= v@);
    r
}

fn lower_starts_with(s: &str, p: &Vec<char>) -> (r: bool)
    ensures
        r == has_prefix(lowercase(s@), p@),
{
    let v = chars_of(to_lower(s).as_str());
    let r = range_starts_with(&v, 0, v.len(), p);
    assert(v@.subrange(0, v@.len() as int) =~= v@);
    r
}

/// Whether commit `c` passes the filters `f`.
pub fn commit_matches(c: &CommitInfo, f: &CommitFilters) -> (r: bool)
    ensures
        r == filters_hit(c@, *f),
{
    let mut hit = true;
    match &f.subject {
        Some(s) => {
            hit = hit && lower_includes(c.subject.as_str(), &chars_of(s.as_str()));
        },
        None => {},
    }
    match &f.hash {
        Some(h) => {
            let hv = chars_of(h.as_str());
            let ok = lower_starts_with(c.hash.as_str(), &hv) || lower_starts_with(
                c.short_hash.as_str(),
                &hv,
            );
            hit = hit && ok;
        },
        None => {},
    }
    let q = chars_of(f.query.as_str());
    if q.len() > 0 {
        let ok = lower_includes(c.hash.as_str(), &q) || lower_includes(c.short_hash.as_str(), &q)
            || lower_includes(c.author.as_str(), &q) || lower_includes(c.email.as_str(), &q)
            || lower_includes(c.subject.as_str(), &q);
        hit = hit && ok;
    }
    hit
}

/// The commits of `s` that pass the filters, in order.
pub open spec fn hits(s: Seq<CommitV>, f: CommitFilters) -> Seq<CommitV>
    decreases s.len(),
{
    if s.len() == 0 {
        seq![]
    } else if filters_hit(s.last(), f) {
        hits(s.drop_last(), f).push(s.last())
    } else {
        hits(s.drop_last(), f)
    }
}

/// Adds the commits of `batch` that pass the filters to `found`, in order,
/// and stops once `found` holds `max` commits.
pub fn scan_batch(f: &CommitFilters, found: &mut Vec<CommitInfo>, batch: Vec<CommitInfo>, max: u32)
    requires
        old(found)@.len() < max,
    ensures
        commit_views(final(found)@) == commit_views(old(found)@) + hits(commit_views(batch@), *f).take(
            vstd::math::min(
                max - old(found)@.len(),
                hits(commit_views(batch@), *f).len() as int,
            ),
        ),
        final(found)@.len() <= max,
{
    let ghost start = commit_views(found@);
    let ghost bv = commit_views(batch@);
    let mut rest = crate::status::reversed(batch);
    let ghost r0 = rest@;
    assert(commit_views(r0) =~= bv.reverse());
    assert(hits(bv.take(0), *f) =~= Seq::<CommitV>::empty());
    while rest.len() > 0
        invariant
            rest@ == r0.take(rest@.len() as int),
            r0.len() == bv.len(),
            commit_views(r0) == bv.reverse(),
            rest@.len() <= bv.len(),
            commit_views(found@) == start + hits(bv.take(bv.len() - rest@.len()), *f),
            found@.len() < max,
            start == commit_views(old(found)@),
            bv == commit_views(batch@),
        decreases rest.len(),
    {
        let ghost k = bv.len() - rest@.len();
        let ghost j = rest@.len() - 1;
        assert(commit_views(r0)[j] == r0[j]@);
        assert(bv.reverse()[j] == bv[k]);
        let c = rest.pop().unwrap();
        assert(c@ == bv[k]);
        assert(bv.take(k + 1).drop_last() =~= bv.take(k));
        assert(rest@ =~= r0.take(rest@.len() as int));
        if commit_matches(&c, f) {
            let ghost before = commit_views(found@);
            found.push(c);
            assert(commit_views(found@) =~= before.push(bv[k]));
            assert(bv.take(k + 1).last() == bv[k]);
            assert(hits(bv.take(k + 1), *f) == hits(bv.take(k), *f).push(bv[k]));
            assert(commit_views(found@) =~= start + hits(bv.take(k + 1), *f));
            if found.len() as u64 >= max as u64 {
                proof {
                    lemma_hits_prefix(bv, *f, k + 1);
                    let h = hits(bv, *f);
                    let hk = hits(bv.take(k + 1), *f);
                    assert(hk.len() == max - start.len());
                    assert(h.take(max - start.len()) =~= hk);
                    assert(vstd::math::min(max - start.len(), h.len() as int) == max - start.len());
                }
                return;
            }
        }
    }
    assert(bv.take(bv.len() as int) =~= bv);
}

proof fn lemma_hits_prefix(s: Seq<CommitV>, f: CommitFilters, i: int)
    requires
        0 <= i <= s.len(),
    ensures
        hits(s.take(i), f) == hits(s, f).take(hits(s.take(i), f).len() as int),
        hits(s.take(i), f).len() <= hits(s, f).len(),
    decreases s.len(),
{
    if i == s.len() {
        assert(s.take(i) =~= s);
        assert(hits(s, f).take(hits(s, f).len() as int) =~= hits(s, f));
    } else {
        lemma_hits_prefix(s.drop_last(), f, i);
        assert(s.drop_last().take(i) =~= s.take(i));
        let a = hits(s.drop_last(), f);
        let hi = hits(s.take(i), f);
        if filters_hit(s.last(), f) {
            assert(a.push(s.last()).take(hi.len() as int) =~= a.take(hi.len() as int));
        }
    }
}

/// Where the scan of the log goes after a batch read at `skip` gave `got`
/// commits, with `found` matches so far: the next batch's offset, or none
/// when history is exhausted, the scan cap is reached, or `max` matches are
/// in.
pub fn next_scan(skip: u32, got: usize, found: usize, max: u32) -> (r: Option<u32>)
    requires
        skip < SCAN_CAP,
    ensures
        got < BATCH ==> r is None,
        got >= BATCH ==> (if skip + BATCH < SCAN_CAP && found < max {
            r == Some((skip + BATCH) as u32)
        } else {
            r is None
        }),
{
    if got < BATCH as usize {
        return None;
    }
    let next = skip + BATCH;
    if next < SCAN_CAP && (found as u64) < (max as u64) {
        Some(next)
    } else {
        None
    }
}

/// The offset of the first batch of a search for `max` matches: none when
/// nothing is asked for.
pub fn first_scan(max: u32) -> (r: Option<u32>)
    ensures
        max > 0 ==> r == Some(0u32),
        max == 0 ==> r is None,
{
    if max > 0 {
        Some(0)
    } else {
        None
    }
}


/// A search keeps only commits that pass its filters, in the order the log
/// gave them, and never more than it was given.
pub proof fn law_hits_pass_filters(s: Seq<CommitV>, f: CommitFilters)
    ensures
        forall|i: int| 0 <= i < hits(s, f).len() ==> filters_hit(#[trigger] hits(s, f)[i], f),
        hits(s, f).len() <= s.len(),
    decreases s.len(),
{
    if s.len() > 0 {
        law_hits_pass_filters(s.drop_last(), f);
        let h = hits(s.drop_last(), f);
        if filters_hit(s.last(), f) {
            assert forall|i: int| 0 <= i < hits(s, f).len() implies filters_hit(
                #[trigger] hits(s, f)[i],
                f,
            ) by {
                if i < h.len() {
                    assert(hits(s, f)[i] == h[i]);
                }
            }
        }
    }
}

/// The batch of the log `log` that a scan reads at `skip`: up to `BATCH`
/// commits from there, fewer at the end of history.
pub open spec fn window(log: Seq<CommitV>, skip: int) -> Seq<CommitV> {
    log.subrange(vstd::math::min(skip, log.len() as int), vstd::math::min(skip + BATCH, log.len() as int))
}

/// What a search for `max` matches finds when its scan of `log` is at
/// `skip` with `found` so far: `scan_batch` on the batch read there, then
/// `next_scan` decides whether to go on.
pub open spec fn search_from(
    log: Seq<CommitV>,
    f: CommitFilters,
    max: int,
    skip: int,
    found: Seq<CommitV>,
) -> Seq<CommitV>
    decreases SCAN_CAP - skip,
{
    let h = hits(window(log, skip), f);
    let found2 = found + h.take(vstd::math::min(max - found.len(), h.len() as int));
    if skip < 0 || skip >= SCAN_CAP || window(log, skip).len() < BATCH || !(skip + BATCH < SCAN_CAP
        && found2.len() < max) {
        found2
    } else {
        search_from(log, f, max, skip + BATCH, found2)
    }
}

proof fn lemma_hits_append(a: Seq<CommitV>, b: Seq<CommitV>, f: CommitFilters)
    ensures
        hits(a + b, f) == hits(a, f) + hits(b, f),
    decreases b.len(),
{
    if b.len() == 0 {
        assert(a + b =~= a);
        assert(hits(a, f) + hits(b, f) =~= hits(a, f));
    } else {
        lemma_hits_append(a, b.drop_last(), f);
        assert((a + b).drop_last() =~= a + b.drop_last());
        assert((a + b).last() == b.last());
        if filters_hit(b.last(), f) {
            assert((hits(a, f) + hits(b.drop_last(), f)).push(b.last()) =~= hits(a, f) + hits(
                b.drop_last(),
                f,
            ).push(b.last()));
        }
    }
}

proof fn lemma_search_from(log: Seq<CommitV>, f: CommitFilters, max: int, skip: int, found: Seq<CommitV>)
    requires
        0 <= skip < SCAN_CAP,
        skip % (BATCH as int) == 0,
        found == hits(log.take(vstd::math::min(skip, log.len() as int)), f),
        found.len() < max,
    ensures
        ({
            let all = hits(log.take(vstd::math::min(SCAN_CAP as int, log.len() as int)), f);
            search_from(log, f, max, skip, found) == all.take(vstd::math::min(max, all.len() as int))
        }),
    decreases SCAN_CAP - skip,
{
    let n = log.len() as int;
    let lo = vstd::math::min(skip, n);
    let hi = vstd::math::min(skip + BATCH, n);
    let top = vstd::math::min(SCAN_CAP as int, n);
    let b = window(log, skip);
    let h = hits(b, f);
    let all = hits(log.take(top), f);
    assert(skip + BATCH <= SCAN_CAP);
    assert(log.take(hi) =~= log.take(lo) + b);
    lemma_hits_append(log.take(lo), b, f);
    let upto = hits(log.take(hi), f);
    assert(upto == found + h);
    assert(log.take(top).take(hi) =~= log.take(hi));
    lemma_hits_prefix(log.take(top), f, hi);
    assert(upto == all.take(upto.len() as int));
    let found2 = found + h.take(vstd::math::min(max - found.len(), h.len() as int));
    if upto.len() >= max {
        assert(found2 =~= upto.take(max));
        assert(all.take(max) =~= upto.take(max));
    } else {
        assert(found2 =~= upto);
        if b.len() < BATCH || skip + BATCH >= SCAN_CAP {
            assert(hi == top);
            assert(all =~= upto);
        } else {
            lemma_search_from(log, f, max, skip + BATCH, found2);
        }
    }
}

/// A search for `max` matches over the log `log`, run batch by batch from
/// the start, finds the matches among the first `SCAN_CAP` commits in log
/// order, as many as there are up to `max`: at most `max`, and every match
/// of those commits when it finds fewer.
pub proof fn law_search_finds_first_matches(log: Seq<CommitV>, f: CommitFilters, max: u32)
    requires
        max > 0,
    ensures
        ({
            let all = hits(log.take(vstd::math::min(SCAN_CAP as int, log.len() as int)), f);
            search_from(log, f, max as int, 0, Seq::<CommitV>::empty()) == all.take(
                vstd::math::min(max as int, all.len() as int),
            )
        }),
{
    assert(log.take(0) =~= Seq::<CommitV>::empty());
    assert(hits(Seq::<CommitV>::empty(), f) == Seq::<CommitV>::empty());
    lemma_search_from(log, f, max as int, 0, Seq::<CommitV>::empty());
}

} // verus!
