//! What a repository is made of: lines and files per language over its
//! tracked files, the language with the most lines first.
use vstd::prelude::*;
use crate::lang::{is_binary_content, language_for, language_spec, line_count, line_total, looks_binary};
use crate::order::{chars_lt, lemma_text_lt_total, lemma_text_lt_trans, text_lt};
use crate::text::{chars_of, vec_eq_str};
use crate::types::{LangStat, RepoStats};

verus! {

/// Files above this size, in bytes, are left out of the language breakdown
/// (and counted as too large).
pub const STATS_FILE_CAP: u64 = 2097152;

/// One tracked file as the statistics see it: its repository-relative
/// path, its size when its metadata could be read, and its contents when
/// they could be read (they are not needed above the size cap).
pub struct StatFile {
    pub path: String,
    pub size: Option<u64>,
    pub content: Option<Vec<u8>>,
}

/// What one file adds to the statistics.
pub enum Tally {
    /// Nothing: no known language, or its metadata or contents could not
    /// be read.
    Skipped,
    TooLarge,
    Binary,
    /// Counted for (language, colour) with this many lines.
    Counted(Seq<char>, Seq<char>, nat),
}

pub open spec fn tally_of(f: StatFile) -> Tally {
    match language_spec(f.path@) {
        None => Tally::Skipped,
        Some((lang, color)) => match f.size {
            None => Tally::Skipped,
            Some(sz) => if sz > STATS_FILE_CAP {
                Tally::TooLarge
            } else {
                match f.content {
                    None => Tally::Skipped,
                    Some(b) => if looks_binary(b@) {
                        Tally::Binary
                    } else {
                        Tally::Counted(lang, color, line_total(b@))
                    },
                }
            },
        },
    }
}

/// The number of files counted in the breakdown.
pub open spec fn counted_files(fs: Seq<StatFile>) -> nat
    decreases fs.len(),
{
    if fs.len() == 0 {
        0
    } else {
        counted_files(fs.drop_last()) + if tally_of(fs.last()) is Counted {
            1nat
        } else {
            0nat
        }
    }
}

/// The lines of all counted files.
pub open spec fn counted_lines(fs: Seq<StatFile>) -> nat
    decreases fs.len(),
{
    if fs.len() == 0 {
        0
    } else {
        counted_lines(fs.drop_last()) + match tally_of(fs.last()) {
            Tally::Counted(_, _, n) => n,
            _ => 0nat,
        }
    }
}

/// The number of files left out as binary.
pub open spec fn binary_files(fs: Seq<StatFile>) -> nat
    decreases fs.len(),
{
    if fs.len() == 0 {
        0
    } else {
        binary_files(fs.drop_last()) + if tally_of(fs.last()) is Binary {
            1nat
        } else {
            0nat
        }
    }
}

/// The number of files left out as too large.
pub open spec fn too_large_files(fs: Seq<StatFile>) -> nat
    decreases fs.len(),
{
    if fs.len() == 0 {
        0
    } else {
        too_large_files(fs.drop_last()) + if tally_of(fs.last()) is TooLarge {
            1nat
        } else {
            0nat
        }
    }
}

/// A [`LangStat`] as plain values.
pub struct LangV {
    pub language: Seq<char>,
    pub color: Seq<char>,
    pub lines: int,
    pub files: int,
}

pub open spec fn lang_view(s: LangStat) -> LangV {
    LangV { language: s.language@, color: s.color@, lines: s.lines as int, files: s.files as int }
}

pub open spec fn lang_views(s: Seq<LangStat>) -> Seq<LangV> {
    s.map_values(|x: LangStat| lang_view(x))
}

pub open spec fn has_lang(g: Seq<LangV>, l: Seq<char>) -> bool {
    exists|k: int| 0 <= k < g.len() && (#[trigger] g[k]).language == l
}

/// `g` with one more file of `t` added to its language, a new language
/// coming last.
pub open spec fn add_tally(g: Seq<LangV>, t: Tally) -> Seq<LangV> {
    match t {
        Tally::Counted(l, c, n) => if has_lang(g, l) {
            let k = choose|k: int| 0 <= k < g.len() && (#[trigger] g[k]).language == l;
            g.update(
                k,
                LangV {
                    language: g[k].language,
                    color: g[k].color,
                    lines: g[k].lines + n,
                    files: g[k].files + 1,
                },
            )
        } else {
            g.push(LangV { language: l, color: c, lines: n as int, files: 1 })
        },
        _ => g,
    }
}

/// The languages of the counted files with their lines and files, in the
/// order their first file came.
pub open spec fn lang_groups(fs: Seq<StatFile>) -> Seq<LangV>
    decreases fs.len(),
{
    if fs.len() == 0 {
        seq![]
    } else {
        add_tally(lang_groups(fs.drop_last()), tally_of(fs.last()))
    }
}

/// `a` is listed before `b`: more lines, or as many and an earlier name.
pub open spec fn lang_before(a: LangV, b: LangV) -> bool {
    a.lines > b.lines || (a.lines == b.lines && text_lt(a.language, b.language))
}

pub open spec fn sorted_by_lines(s: Seq<LangV>) -> bool {
    forall|p: int, q: int| 0 <= p < q < s.len() ==> lang_before(#[trigger] s[p], #[trigger] s[q])
}

pub open spec fn distinct_langs(g: Seq<LangV>) -> bool {
    forall|i: int, j: int|
        0 <= i < j < g.len() ==> (#[trigger] g[i]).language != (#[trigger] g[j]).language
}

/// No language appears twice among the groups.
pub proof fn lemma_groups_distinct(fs: Seq<StatFile>)
    ensures
        distinct_langs(lang_groups(fs)),
    decreases fs.len(),
{
    if fs.len() > 0 {
        lemma_groups_distinct(fs.drop_last());
        let g = lang_groups(fs.drop_last());
        let t = tally_of(fs.last());
        let ng = lang_groups(fs);
        assert(ng == add_tally(g, t));
        match t {
            Tally::Counted(l, c, n) => {
                if has_lang(g, l) {
                    let k = choose|k: int| 0 <= k < g.len() && (#[trigger] g[k]).language == l;
                    assert forall|i: int, j: int| 0 <= i < j < ng.len() implies (#[trigger] ng[i]).language
                        != (#[trigger] ng[j]).language by {
                        assert(ng[i].language == g[i].language);
                        assert(ng[j].language == g[j].language);
                    }
                } else {
                    assert forall|i: int, j: int| 0 <= i < j < ng.len() implies (#[trigger] ng[i]).language
                        != (#[trigger] ng[j]).language by {
                        if j == g.len() {
                            assert(g[i].language != l);
                        } else {
                            assert(ng[i] == g[i]);
                            assert(ng[j] == g[j]);
                        }
                    }
                }
            },
            _ => {},
        }
    }
}

proof fn lemma_prefix_bounds(fs: Seq<StatFile>, i: int)
    requires
        0 <= i <= fs.len(),
    ensures
        counted_lines(fs.take(i)) <= counted_lines(fs),
        counted_files(fs.take(i)) + binary_files(fs.take(i)) + too_large_files(fs.take(i)) <= i,
    decreases fs.len(),
{
    if i == fs.len() {
        assert(fs.take(i) =~= fs);
        lemma_totals_bound(fs);
    } else {
        lemma_prefix_bounds(fs.drop_last(), i);
        assert(fs.drop_last().take(i) =~= fs.take(i));
    }
}

proof fn lemma_totals_bound(fs: Seq<StatFile>)
    ensures
        counted_files(fs) + binary_files(fs) + too_large_files(fs) <= fs.len(),
    decreases fs.len(),
{
    if fs.len() > 0 {
        lemma_totals_bound(fs.drop_last());
    }
}

proof fn lemma_before_total(a: LangV, b: LangV)
    requires
        a.language != b.language,
    ensures
        lang_before(a, b) || lang_before(b, a),
{
    lemma_text_lt_total(a.language, b.language);
}

proof fn lemma_before_trans(a: LangV, b: LangV, c: LangV)
    requires
        lang_before(a, b),
        lang_before(b, c),
    ensures
        lang_before(a, c),
{
    if a.lines == b.lines && b.lines == c.lines {
        lemma_text_lt_trans(a.language, b.language, c.language);
    }
}

fn own(s: &str) -> (r: String)
    ensures
        r@ == s@,
{
    s.to_string()
}

fn find_lang(groups: &Vec<LangStat>, lang: &str) -> (r: Option<usize>)
    ensures
        match r {
            Some(k) => k < groups.len() && groups@[k as int].language@ == lang@,
            None => !has_lang(lang_views(groups@), lang@),
        },
{
    let mut i: usize = 0;
    while i < groups.len()
        invariant
            0 <= i <= groups.len(),
            forall|k: int| 0 <= k < i ==> groups@[k].language@ != lang@,
        decreases groups.len() - i,
    {
        if vec_eq_str(&chars_of(groups[i].language.as_str()), lang) {
            return Some(i);
        }
        i += 1;
    }
    proof {
        let gv = lang_views(groups@);
        assert forall|k: int| 0 <= k < gv.len() implies (#[trigger] gv[k]).language != lang@ by {
            assert(gv[k] == lang_view(groups@[k]));
        }
    }
    None
}

fn before_exec(a: &LangStat, b: &LangStat) -> (r: bool)
    ensures
        r == lang_before(lang_view(*a), lang_view(*b)),
{
    a.lines > b.lines || (a.lines == b.lines && chars_lt(
        &chars_of(a.language.as_str()),
        &chars_of(b.language.as_str()),
    ))
}

fn insert_lang(sorted: &mut Vec<LangStat>, x: LangStat)
    requires
        sorted_by_lines(lang_views(old(sorted)@)),
        distinct_langs(lang_views(old(sorted)@)),
        forall|m: int|
            0 <= m < old(sorted)@.len() ==> (#[trigger] old(sorted)@[m]).language@ != x.language@,
    ensures
        sorted_by_lines(lang_views(final(sorted)@)),
        distinct_langs(lang_views(final(sorted)@)),
        final(sorted)@.len() == old(sorted)@.len() + 1,
        lang_views(final(sorted)@).contains(lang_view(x)),
        forall|m: int|
            0 <= m < old(sorted)@.len() ==> lang_views(final(sorted)@).contains(
                #[trigger] lang_views(old(sorted)@)[m],
            ),
        forall|a: LangV|
            lang_views(final(sorted)@).contains(a) ==> a == lang_view(x) || lang_views(
                old(sorted)@,
            ).contains(a),
        group_lines(lang_views(final(sorted)@)) == group_lines(lang_views(old(sorted)@)) + x.lines,
        group_files(lang_views(final(sorted)@)) == group_files(lang_views(old(sorted)@)) + x.files,
{
    let ghost sv = lang_views(sorted@);
    let ghost xv = lang_view(x);
    let mut j = sorted.len();
    while j > 0 && before_exec(&x, &sorted[j - 1])
        invariant
            0 <= j <= sorted.len(),
            sv == lang_views(sorted@),
            xv == lang_view(x),
            forall|m: int| j <= m < sorted.len() ==> lang_before(xv, #[trigger] sv[m]),
        decreases j,
    {
        j -= 1;
    }
    proof {
        if j > 0 {
            assert(sv[j - 1] == lang_view(sorted@[j - 1]));
            assert(sv[j - 1].language != xv.language);
            lemma_before_total(xv, sv[j - 1]);
            assert forall|m: int| 0 <= m < j implies lang_before(#[trigger] sv[m], xv) by {
                if m < j - 1 {
                    lemma_before_trans(sv[m], sv[j - 1], xv);
                }
            }
        }
    }
    sorted.insert(j, x);
    let ghost nv = lang_views(sorted@);
    assert(nv =~= sv.insert(j as int, xv));
    proof {
        lemma_group_sums_insert(sv, j as int, xv);
    }
    assert forall|p: int, q: int| 0 <= p < q < nv.len() implies lang_before(
        #[trigger] nv[p],
        #[trigger] nv[q],
    ) by {
        if q < j {
            assert(nv[p] == sv[p] && nv[q] == sv[q]);
        } else if q == j {
            assert(nv[p] == sv[p]);
        } else if p < j {
            assert(nv[p] == sv[p] && nv[q] == sv[q - 1]);
            lemma_before_trans(sv[p], xv, sv[q - 1]);
        } else if p == j {
            assert(nv[q] == sv[q - 1]);
        } else {
            assert(nv[p] == sv[p - 1] && nv[q] == sv[q - 1]);
        }
    }
    assert(nv[j as int] == xv);
    assert forall|p: int, q: int| 0 <= p < q < nv.len() implies (#[trigger] nv[p]).language
        != (#[trigger] nv[q]).language by {
        if q < j {
            assert(nv[p] == sv[p] && nv[q] == sv[q]);
        } else if q == j {
            assert(nv[p] == sv[p] && sv[p] == lang_view(old(sorted)@[p]));
        } else if p < j {
            assert(nv[p] == sv[p] && nv[q] == sv[q - 1]);
        } else if p == j {
            assert(nv[q] == sv[q - 1] && sv[q - 1] == lang_view(old(sorted)@[q - 1]));
        } else {
            assert(nv[p] == sv[p - 1] && nv[q] == sv[q - 1]);
        }
    }
    assert forall|m: int| 0 <= m < sv.len() implies nv.contains(#[trigger] sv[m]) by {
        if m < j {
            assert(nv[m] == sv[m]);
        } else {
            assert(nv[m + 1] == sv[m]);
        }
    }
    assert forall|a: LangV| nv.contains(a) implies a == xv || sv.contains(a) by {
        let p = choose|p: int| 0 <= p < nv.len() && nv[p] == a;
        if p < j {
            assert(sv[p] == a);
        } else if p > j {
            assert(sv[p - 1] == a);
        }
    }
}

/// `groups` ordered by lines, most first, ties by name.
fn sort_langs(groups: Vec<LangStat>) -> (r: Vec<LangStat>)
    requires
        distinct_langs(lang_views(groups@)),
    ensures
        r@.len() == groups@.len(),
        sorted_by_lines(lang_views(r@)),
        distinct_langs(lang_views(r@)),
        forall|m: int|
            0 <= m < groups@.len() ==> lang_views(r@).contains(#[trigger] lang_views(groups@)[m]),
        group_lines(lang_views(r@)) == group_lines(lang_views(groups@)),
        group_files(lang_views(r@)) == group_files(lang_views(groups@)),
{
    let ghost g0 = lang_views(groups@);
    let mut rest = groups;
    let mut sorted: Vec<LangStat> = Vec::new();
    while rest.len() > 0
        invariant
            lang_views(rest@) == g0.take(rest@.len() as int),
            rest@.len() <= g0.len(),
            distinct_langs(g0),
            sorted@.len() == g0.len() - rest@.len(),
            sorted_by_lines(lang_views(sorted@)),
            distinct_langs(lang_views(sorted@)),
            forall|m: int|
                rest@.len() <= m < g0.len() ==> lang_views(sorted@).contains(#[trigger] g0[m]),
            forall|a: LangV|
                lang_views(sorted@).contains(a) ==> exists|m: int|
                    rest@.len() <= m < g0.len() && #[trigger] g0[m] == a,
            group_lines(lang_views(sorted@)) == group_lines(g0.skip(rest@.len() as int)),
            group_files(lang_views(sorted@)) == group_files(g0.skip(rest@.len() as int)),
        decreases rest.len(),
    {
        let ghost k = rest@.len() - 1;
        let ghost rv = lang_views(rest@);
        let x = rest.pop().unwrap();
        assert(lang_view(x) == rv[k]);
        assert(rv[k] == g0[k]);
        proof {
            let sv = lang_views(sorted@);
            assert forall|m: int| 0 <= m < sorted@.len() implies (#[trigger] sorted@[m]).language@
                != x.language@ by {
                assert(sv[m] == lang_view(sorted@[m]));
                assert(sv.contains(sv[m]));
                let q = choose|q: int| rest@.len() + 1 <= q < g0.len() && #[trigger] g0[q] == sv[m];
                assert(g0[k].language != g0[q].language);
            }
        }
        let ghost before = lang_views(sorted@);
        let ghost xv = lang_view(x);
        insert_lang(&mut sorted, x);
        assert(lang_views(rest@) =~= g0.take(rest@.len() as int));
        proof {
            assert(g0.skip(k + 1).insert(0, g0[k]) =~= g0.skip(k));
            lemma_group_sums_insert(g0.skip(k + 1), 0, g0[k]);
        }
        proof {
            let nv = lang_views(sorted@);
            assert forall|m: int| rest@.len() <= m < g0.len() implies nv.contains(#[trigger] g0[m]) by {
                if m > k {
                    assert(before.contains(g0[m]));
                    let p = choose|p: int| 0 <= p < before.len() && before[p] == g0[m];
                    assert(nv.contains(before[p]));
                } else {
                    assert(g0[m] == xv);
                }
            }
            assert forall|a: LangV| nv.contains(a) implies exists|m: int|
                rest@.len() <= m < g0.len() && #[trigger] g0[m] == a by {
                if a == xv {
                    assert(g0[k] == a);
                } else {
                    assert(before.contains(a));
                    let q = choose|q: int| rest@.len() + 1 <= q < g0.len() && #[trigger] g0[q] == a;
                    assert(g0[q] == a);
                }
            }
        }
    }
    assert(g0.take(0) =~= Seq::<LangV>::empty());
    assert(g0.skip(0) =~= g0);
    sorted
}


/// The language statistics of the tracked `files`: how many were counted
/// and their lines, how many were left out as binary or too large, and per
/// language its colour, lines and files, ordered by lines (most first) and
/// then by name. `requires` leaves out totals beyond the counters' types.
pub fn repo_stats_of(files: &Vec<StatFile>) -> (r: RepoStats)
    requires
        files.len() <= u32::MAX,
        counted_lines(files@) <= u64::MAX,
    ensures
        r.total_files == counted_files(files@),
        r.total_lines == counted_lines(files@),
        r.skipped_binary == binary_files(files@),
        r.skipped_too_large == too_large_files(files@),
        r.languages@.len() == lang_groups(files@).len(),
        forall|m: int|
            0 <= m < lang_groups(files@).len() ==> lang_views(r.languages@).contains(
                #[trigger] lang_groups(files@)[m],
            ),
        sorted_by_lines(lang_views(r.languages@)),
        distinct_langs(lang_views(r.languages@)),
        group_lines(lang_views(r.languages@)) == r.total_lines,
        group_files(lang_views(r.languages@)) == r.total_files,
{
    let mut groups: Vec<LangStat> = Vec::new();
    let mut total_lines: u64 = 0;
    let mut total_files: u32 = 0;
    let mut binary: u32 = 0;
    let mut too_large: u32 = 0;
    let mut i: usize = 0;
    assert(files@.take(0) =~= Seq::<StatFile>::empty());
    assert(lang_views(groups@) =~= Seq::<LangV>::empty());
    while i < files.len()
        invariant
            0 <= i <= files.len(),
            files.len() <= u32::MAX,
            counted_lines(files@) <= u64::MAX,
            total_files == counted_files(files@.take(i as int)),
            total_lines == counted_lines(files@.take(i as int)),
            binary == binary_files(files@.take(i as int)),
            too_large == too_large_files(files@.take(i as int)),
            lang_views(groups@) == lang_groups(files@.take(i as int)),
            forall|k: int|
                0 <= k < groups@.len() ==> (#[trigger] groups@[k]).lines <= total_lines
                    && groups@[k].files <= total_files,
        decreases files.len() - i,
    {
        let ghost pre = files@.take(i as int);
        let ghost next = files@.take(i as int + 1);
        assert(next.drop_last() =~= pre);
        assert(next.last() == files@[i as int]);
        proof {
            lemma_prefix_bounds(files@, i as int + 1);
            lemma_groups_distinct(pre);
        }
        let f = &files[i];
        let ghost t = tally_of(*f);
        let ghost gv = lang_views(groups@);
        match language_for(f.path.as_str()) {
            None => {},
            Some((lang, color)) => match f.size {
                None => {},
                Some(sz) => {
                    if sz > STATS_FILE_CAP {
                        too_large += 1;
                    } else {
                        match &f.content {
                            None => {},
                            Some(b) => {
                                if is_binary_content(b.as_slice()) {
                                    binary += 1;
                                } else {
                                    let n = line_count(b.as_slice());
                                    assert(t == Tally::Counted(lang@, color@, n as nat));
                                    total_lines += n;
                                    total_files += 1;
                                    match find_lang(&groups, lang) {
                                        Some(k) => {
                                            let old_g = &groups[k];
                                            let g = LangStat {
                                                language: old_g.language.clone(),
                                                color: old_g.color.clone(),
                                                lines: old_g.lines + n,
                                                files: old_g.files + 1,
                                            };
                                            proof {
                                                assert(gv[k as int] == lang_view(groups@[k as int]));
                                                assert(has_lang(gv, lang@));
                                                let c = choose|c: int| 0 <= c < gv.len() && (#[trigger] gv[c]).language == lang@;
                                                assert(c == k);
                                            }
                                            groups.set(k, g);
                                            assert(lang_views(groups@) =~= add_tally(gv, t));
                                        },
                                        None => {
                                            groups.push(LangStat {
                                                language: own(lang),
                                                color: own(color),
                                                lines: n,
                                                files: 1,
                                            });
                                            assert(lang_views(groups@) =~= add_tally(gv, t));
                                        },
                                    }
                                }
                            },
                        }
                    }
                },
            },
        }
        i += 1;
    }
    assert(files@.take(files.len() as int) =~= files@);
    proof {
        lemma_groups_distinct(files@);
        law_breakdown_adds_up(files@);
    }
    let languages = sort_langs(groups);
    RepoStats {
        total_files,
        total_lines,
        languages,
        skipped_binary: binary,
        skipped_too_large: too_large,
    }
}


/// The lines of all the groups `g`.
pub open spec fn group_lines(g: Seq<LangV>) -> int
    decreases g.len(),
{
    if g.len() == 0 {
        0
    } else {
        group_lines(g.drop_last()) + g.last().lines
    }
}

/// The files of all the groups `g`.
pub open spec fn group_files(g: Seq<LangV>) -> int
    decreases g.len(),
{
    if g.len() == 0 {
        0
    } else {
        group_files(g.drop_last()) + g.last().files
    }
}

proof fn lemma_group_sums_insert(g: Seq<LangV>, i: int, v: LangV)
    requires
        0 <= i <= g.len(),
    ensures
        group_lines(g.insert(i, v)) == group_lines(g) + v.lines,
        group_files(g.insert(i, v)) == group_files(g) + v.files,
    decreases g.len(),
{
    let n = g.insert(i, v);
    if i == g.len() {
        assert(n.drop_last() =~= g);
    } else {
        lemma_group_sums_insert(g.drop_last(), i, v);
        assert(n.drop_last() =~= g.drop_last().insert(i, v));
        assert(n.last() == g.last());
    }
}

proof fn lemma_group_sums_update(g: Seq<LangV>, k: int, v: LangV)
    requires
        0 <= k < g.len(),
    ensures
        group_lines(g.update(k, v)) == group_lines(g) - g[k].lines + v.lines,
        group_files(g.update(k, v)) == group_files(g) - g[k].files + v.files,
    decreases g.len(),
{
    let u = g.update(k, v);
    if k == g.len() - 1 {
        assert(u.drop_last() =~= g.drop_last());
    } else {
        lemma_group_sums_update(g.drop_last(), k, v);
        assert(u.drop_last() =~= g.drop_last().update(k, v));
    }
}

/// The language breakdown adds up: the lines of all languages are the
/// counted lines, and their files the counted files.
pub proof fn law_breakdown_adds_up(fs: Seq<StatFile>)
    ensures
        group_lines(lang_groups(fs)) == counted_lines(fs),
        group_files(lang_groups(fs)) == counted_files(fs),
    decreases fs.len(),
{
    if fs.len() > 0 {
        law_breakdown_adds_up(fs.drop_last());
        let g = lang_groups(fs.drop_last());
        match tally_of(fs.last()) {
            Tally::Counted(l, c, n) => {
                if has_lang(g, l) {
                    let k = choose|k: int| 0 <= k < g.len() && (#[trigger] g[k]).language == l;
                    lemma_group_sums_update(
                        g,
                        k,
                        LangV {
                            language: g[k].language,
                            color: g[k].color,
                            lines: g[k].lines + n,
                            files: g[k].files + 1,
                        },
                    );
                } else {
                    let v = LangV { language: l, color: c, lines: n as int, files: 1 };
                    assert(g.push(v).drop_last() =~= g);
                }
            },
            _ => {},
        }
    }
}

} // verus!
