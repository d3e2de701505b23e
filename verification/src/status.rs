//! Reading `git diff --name-status -z`, `git diff --numstat -z` and
//! `git status --porcelain -z`, and putting the pieces of the changes list
//! together.
use vstd::prelude::*;
use crate::text::{
    chars_of, find_char, first_occ, parse_u32_range, parse_u32_spec, split_chars, split_on,
    string_from, string_of, sub_vec, views, lemma_split_on_len,
};
use crate::order::{chars_lt, lemma_text_lt_asym, lemma_text_lt_total, lemma_text_lt_trans, text_lt};
use crate::types::{ChangeKind, ConflictSide, FileStatus, FileStatusV, opt_view, status_views};

verus! {

/// An entry with only its path, former path and kind known.
pub open spec fn plain_entry(
    path: Seq<char>,
    old_path: Option<Seq<char>>,
    kind: ChangeKind,
) -> FileStatusV {
    FileStatusV {
        path,
        old_path,
        kind,
        additions: None,
        deletions: None,
        conflict: None,
        staged: false,
    }
}

/// The kind that a one-letter name-status code other than `R`/`C` means:
/// `A` added, `D` deleted, anything else (`M`, `T`, `U`) modified.
pub open spec fn kind_of_code(c: char) -> ChangeKind {
    if c == 'A' {
        ChangeKind::Added
    } else if c == 'D' {
        ChangeKind::Deleted
    } else {
        ChangeKind::Modified
    }
}

/// The entries that a stream of NUL-separated name-status tokens holds.
/// A status token is followed by one path, or by two (old, new) for a
/// rename `R` or copy `C`; a copy lists as an addition of its new path.
/// Empty status tokens are skipped; a missing or empty path ends the list.
pub open spec fn name_status_from(toks: Seq<Seq<char>>) -> Seq<FileStatusV>
    decreases toks.len(),
{
    if toks.len() == 0 {
        seq![]
    } else {
        let status = toks[0];
        let rest = toks.drop_first();
        if status.len() == 0 {
            name_status_from(rest)
        } else if status[0] == 'R' || status[0] == 'C' {
            if rest.len() < 2 || rest[0].len() == 0 || rest[1].len() == 0 {
                seq![]
            } else {
                let e = if status[0] == 'R' {
                    plain_entry(rest[1], Some(rest[0]), ChangeKind::Renamed)
                } else {
                    plain_entry(rest[1], None, ChangeKind::Added)
                };
                seq![e] + name_status_from(rest.skip(2))
            }
        } else {
            if rest.len() < 1 || rest[0].len() == 0 {
                seq![]
            } else {
                seq![plain_entry(rest[0], None, kind_of_code(status[0]))] + name_status_from(
                    rest.skip(1),
                )
            }
        }
    }
}

/// The entries of `git diff --name-status -z` output.
pub open spec fn name_status_spec(out: Seq<char>) -> Seq<FileStatusV> {
    name_status_from(split_on(out, '\0'))
}

/// Every entry of a name-status listing is a plain change: not staged, no
/// line counts, no conflict, a non-empty path, modified, added, deleted or
/// renamed, with a non-empty former path exactly when renamed.
pub proof fn law_name_status_entries(out: Seq<char>)
    ensures
        forall|i: int|
            0 <= i < name_status_spec(out).len() ==> {
                let e = #[trigger] name_status_spec(out)[i];
                &&& !e.staged
                &&& e.additions is None && e.deletions is None && e.conflict is None
                &&& e.path.len() > 0
                &&& (e.kind == ChangeKind::Modified || e.kind == ChangeKind::Added || e.kind
                    == ChangeKind::Deleted || e.kind == ChangeKind::Renamed)
                &&& (e.old_path is Some <==> e.kind == ChangeKind::Renamed)
                &&& (e.old_path matches Some(o) ==> o.len() > 0)
            },
{
    lemma_name_status_plain(split_on(out, '\0'));
}

proof fn lemma_name_status_plain(toks: Seq<Seq<char>>)
    ensures
        forall|i: int|
            0 <= i < name_status_from(toks).len() ==> {
                let e = #[trigger] name_status_from(toks)[i];
                &&& !e.staged
                &&& e.additions is None && e.deletions is None && e.conflict is None
                &&& e.path.len() > 0
                &&& (e.kind == ChangeKind::Modified || e.kind == ChangeKind::Added || e.kind
                    == ChangeKind::Deleted || e.kind == ChangeKind::Renamed)
                &&& (e.old_path is Some <==> e.kind == ChangeKind::Renamed)
                &&& (e.old_path matches Some(o) ==> o.len() > 0)
            },
    decreases toks.len(),
{
    if toks.len() > 0 {
        let rest = toks.drop_first();
        lemma_name_status_plain(rest);
        if rest.len() >= 2 {
            lemma_name_status_plain(rest.skip(2));
        }
        if rest.len() >= 1 {
            lemma_name_status_plain(rest.skip(1));
        }
        let r = name_status_from(toks);
        if toks[0].len() > 0 && r.len() > 0 {
            let n = if toks[0][0] == 'R' || toks[0][0] == 'C' {
                2int
            } else {
                1int
            };
            let t = name_status_from(rest.skip(n));
            assert(r == seq![r[0]] + t);
            assert forall|i: int| 1 <= i < r.len() implies #[trigger] r[i] == t[i - 1] by {}
        }
    }
}

/// Name-status tokens that are whole records: a non-empty status, then one
/// non-empty path, or two for a rename or copy.
pub open spec fn complete_records(toks: Seq<Seq<char>>) -> bool
    decreases toks.len(),
{
    if toks.len() == 0 {
        true
    } else if toks[0].len() == 0 {
        false
    } else if toks[0][0] == 'R' || toks[0][0] == 'C' {
        toks.len() >= 3 && toks[1].len() > 0 && toks[2].len() > 0 && complete_records(toks.skip(3))
    } else {
        toks.len() >= 2 && toks[1].len() > 0 && complete_records(toks.skip(2))
    }
}

proof fn lemma_split_after_sep(a: Seq<char>, b: Seq<char>, sep: char)
    requires
        a.len() > 0,
        a.last() == sep,
    ensures
        split_on(a + b, sep) == split_on(a, sep).drop_last() + split_on(b, sep),
    decreases b.len(),
{
    let p = split_on(a, sep).drop_last();
    if b.len() == 0 {
        assert(a + b =~= a);
        assert(a.drop_last() + seq![sep] =~= a);
        assert(split_on(a, sep) == split_on(a.drop_last(), sep).push(Seq::<char>::empty()));
        assert(split_on(a, sep) =~= p + seq![Seq::<char>::empty()]);
    } else {
        let bd = b.drop_last();
        lemma_split_after_sep(a, bd, sep);
        lemma_split_on_len(bd, sep);
        assert((a + b).drop_last() =~= a + bd);
        assert((a + b).last() == b.last());
        let r = split_on(bd, sep);
        if b.last() == sep {
            assert((p + r).push(Seq::<char>::empty()) =~= p + r.push(Seq::<char>::empty()));
        } else {
            assert((p + r).update(p.len() + r.len() - 1, (p + r).last().push(b.last())) =~= p + r.update(
                r.len() - 1,
                r.last().push(b.last()),
            ));
        }
    }
}

proof fn lemma_name_status_append(t1: Seq<Seq<char>>, t2: Seq<Seq<char>>)
    requires
        complete_records(t1),
    ensures
        name_status_from(t1 + t2) == name_status_from(t1) + name_status_from(t2),
    decreases t1.len(),
{
    if t1.len() == 0 {
        assert(t1 + t2 =~= t2);
        assert(name_status_from(t1) + name_status_from(t2) =~= name_status_from(t2));
    } else {
        let t = t1 + t2;
        assert(t[0] == t1[0]);
        let rest = t.drop_first();
        let n = if t1[0][0] == 'R' || t1[0][0] == 'C' {
            3int
        } else {
            2int
        };
        lemma_name_status_append(t1.skip(n), t2);
        assert(rest[0] == t1[1]);
        if n == 3 {
            assert(rest[1] == t1[2]);
        }
        assert(rest.skip(n - 1) =~= t1.skip(n) + t2);
        assert(t1.drop_first().skip(n - 1) =~= t1.skip(n));
        let e = name_status_from(t1)[0];
        assert(name_status_from(t1) == seq![e] + name_status_from(t1.skip(n)));
        assert(name_status_from(t) == seq![e] + name_status_from(t1.skip(n) + t2));
        assert(seq![e] + (name_status_from(t1.skip(n)) + name_status_from(t2)) =~= seq![e]
            + name_status_from(t1.skip(n)) + name_status_from(t2));
    }
}

/// Name-status output is read record by record: output made of whole
/// records (empty, or NUL-terminated records with non-empty fields)
/// followed by more output reads as the entries of each part, in order.
pub proof fn law_name_status_concat(a: Seq<char>, b: Seq<char>)
    requires
        a.len() == 0 || (a.last() == '\0' && complete_records(split_on(a, '\0').drop_last())),
    ensures
        name_status_spec(a + b) == name_status_spec(a) + name_status_spec(b),
{
    let e = Seq::<char>::empty();
    assert(name_status_from(seq![e]) == Seq::<FileStatusV>::empty()) by {
        assert(seq![e].drop_first() =~= Seq::<Seq<char>>::empty());
        assert(seq![e][0].len() == 0);
        assert(name_status_from(Seq::<Seq<char>>::empty()) == Seq::<FileStatusV>::empty());
    }
    if a.len() == 0 {
        assert(a + b =~= b);
        assert(split_on(a, '\0') == seq![e]);
        assert(name_status_spec(a) + name_status_spec(b) =~= name_status_spec(b));
    } else {
        let t = split_on(a, '\0').drop_last();
        lemma_split_after_sep(a, b, '\0');
        lemma_name_status_append(t, split_on(b, '\0'));
        lemma_split_after_sep(a, Seq::<char>::empty(), '\0');
        assert(a + Seq::<char>::empty() =~= a);
        assert(split_on(Seq::<char>::empty(), '\0') == seq![e]);
        lemma_name_status_append(t, seq![e]);
        assert(name_status_from(t) + Seq::<FileStatusV>::empty() =~= name_status_from(t));
    }
}

fn entry(path: String, old_path: Option<String>, kind: ChangeKind) -> (f: FileStatus)
    ensures
        f@ == plain_entry(path@, opt_view(old_path), kind),
{
    FileStatus {
        path,
        old_path,
        kind,
        additions: None,
        deletions: None,
        conflict: None,
        staged: false,
    }
}

/// Parses `git diff --name-status -z` output into change entries (see
/// `name_status_from`); every entry is unstaged and has no line counts yet.
pub fn parse_name_status(out: &str) -> (files: Vec<FileStatus>)
    ensures
        status_views(files@) == name_status_spec(out@),
{
    let chars = chars_of(out);
    let toks = split_chars(&chars, '\0');
    let ghost tv = views(toks@);
    let mut files: Vec<FileStatus> = Vec::new();
    let mut i: usize = 0;
    assert(tv.skip(0) =~= tv);
    while i < toks.len()
        invariant
            0 <= i <= toks.len(),
            tv == views(toks@),
            tv == split_on(out@, '\0'),
            status_views(files@) + name_status_from(tv.skip(i as int)) == name_status_from(tv),
        decreases toks.len() - i,
    {
        let ghost t = tv.skip(i as int);
        assert(t[0] == toks@[i as int]@);
        assert(t.drop_first() =~= tv.skip(i as int + 1));
        let status = &toks[i];
        if status.len() == 0 {
            i += 1;
            continue;
        }
        let code = status[0];
        let n = toks.len();
        if code == 'R' || code == 'C' {
            if n - i <= 2 || toks[i + 1].len() == 0 || toks[i + 2].len() == 0 {
                proof {
                    if i + 2 < n {
                        assert(t.drop_first()[0] == tv[i + 1]);
                        assert(t.drop_first()[1] == tv[i + 2]);
                    }
                }
                assert(status_views(files@) + seq![] =~= status_views(files@));
                return files;
            }
            assert(t.drop_first()[0] == tv[i + 1]);
            assert(t.drop_first()[1] == tv[i + 2]);
            assert(t.drop_first().skip(2) =~= tv.skip(i as int + 3));
            let new_path = string_of(&toks[i + 2]);
            let f = if code == 'R' {
                entry(new_path, Some(string_of(&toks[i + 1])), ChangeKind::Renamed)
            } else {
                entry(new_path, None, ChangeKind::Added)
            };
            let ghost before = status_views(files@);
            files.push(f);
            assert(status_views(files@) =~= before.push(f@));
            assert(before.push(f@) + name_status_from(tv.skip(i as int + 3)) =~= before + (seq![f@]
                + name_status_from(tv.skip(i as int + 3))));
            i += 3;
        } else {
            if n - i <= 1 || toks[i + 1].len() == 0 {
                proof {
                    if i + 1 < n {
                        assert(t.drop_first()[0] == tv[i + 1]);
                    }
                }
                assert(status_views(files@) + seq![] =~= status_views(files@));
                return files;
            }
            assert(t.drop_first()[0] == tv[i + 1]);
            assert(t.drop_first().skip(1) =~= tv.skip(i as int + 2));
            let kind = if code == 'A' {
                ChangeKind::Added
            } else if code == 'D' {
                ChangeKind::Deleted
            } else {
                ChangeKind::Modified
            };
            let f = entry(string_of(&toks[i + 1]), None, kind);
            let ghost before = status_views(files@);
            files.push(f);
            assert(status_views(files@) =~= before.push(f@));
            assert(before.push(f@) + name_status_from(tv.skip(i as int + 2)) =~= before + (seq![f@]
                + name_status_from(tv.skip(i as int + 2))));
            i += 2;
        }
    }
    assert(status_views(files@) + seq![] =~= status_views(files@));
    files
}

/// One line-count record: path, additions, deletions.
pub type NumStat = (String, Option<u32>, Option<u32>);

/// The view of a line-count record.
pub open spec fn numstat_view(n: NumStat) -> (Seq<char>, Option<u32>, Option<u32>) {
    (n.0@, n.1, n.2)
}

/// The views of a sequence of line-count records.
pub open spec fn numstat_views(s: Seq<NumStat>) -> Seq<(Seq<char>, Option<u32>, Option<u32>)> {
    s.map_values(|n: NumStat| numstat_view(n))
}

/// The tail of `s` after its first element, or `s` itself when empty.
pub open spec fn after_one(s: Seq<Seq<char>>) -> Seq<Seq<char>> {
    if s.len() > 0 {
        s.drop_first()
    } else {
        s
    }
}

/// The records that a stream of NUL-separated numstat tokens holds. A token
/// `added\tdeleted\tpath` gives one record; `-` (or anything that is not a
/// number) gives no count. An empty path marks a rename, whose old and new
/// paths follow as the next two tokens; the record keeps the new path, and a
/// missing or empty new path drops it. Tokens without two tabs are skipped.
pub open spec fn numstat_from(toks: Seq<Seq<char>>) -> Seq<(Seq<char>, Option<u32>, Option<u32>)>
    decreases toks.len(),
{
    if toks.len() == 0 {
        seq![]
    } else {
        let tok = toks[0];
        let rest = toks.drop_first();
        let i1 = first_occ(tok, seq!['\t']);
        if tok.len() == 0 || i1 < 0 {
            numstat_from(rest)
        } else {
            let after = tok.skip(i1 + 1);
            let i2 = first_occ(after, seq!['\t']);
            if i2 < 0 {
                numstat_from(rest)
            } else {
                let added = parse_u32_spec(tok.take(i1));
                let deleted = parse_u32_spec(after.take(i2));
                let path = after.skip(i2 + 1);
                if path.len() == 0 {
                    let rest1 = after_one(rest);
                    if rest1.len() > 0 && rest1[0].len() > 0 {
                        seq![(rest1[0], added, deleted)] + numstat_from(rest1.drop_first())
                    } else {
                        numstat_from(after_one(rest1))
                    }
                } else {
                    seq![(path, added, deleted)] + numstat_from(rest)
                }
            }
        }
    }
}

/// The records of `git diff --numstat -z` output.
pub open spec fn numstat_spec(out: Seq<char>) -> Seq<(Seq<char>, Option<u32>, Option<u32>)> {
    numstat_from(split_on(out, '\0'))
}

/// Parses `git diff --numstat -z` output into (path, additions, deletions)
/// records, a rename keyed by its new path (see `numstat_from`).
#[verifier::spinoff_prover]
#[verifier::rlimit(40)]
pub fn parse_numstat(out: &str) -> (stats: Vec<NumStat>)
    ensures
        numstat_views(stats@) == numstat_spec(out@),
{
    let chars = chars_of(out);
    let toks = split_chars(&chars, '\0');
    let ghost tv = views(toks@);
    let n = toks.len();
    let mut stats: Vec<NumStat> = Vec::new();
    let mut i: usize = 0;
    assert(tv.skip(0) =~= tv);
    while i < n
        invariant
            0 <= i <= n,
            n == toks.len(),
            tv == views(toks@),
            tv == split_on(out@, '\0'),
            numstat_views(stats@) + numstat_from(tv.skip(i as int)) == numstat_from(tv),
        decreases n - i,
    {
        let ghost t = tv.skip(i as int);
        assert(t[0] == toks@[i as int]@);
        assert(t.drop_first() =~= tv.skip(i as int + 1));
        let tok = &toks[i];
        let len = tok.len();
        let ghost ts = tok@;
        assert(ts.subrange(0, len as int) =~= ts);
        let f1 = find_char(tok, 0, len, '\t');
        if len == 0 || f1.is_none() {
            i += 1;
            continue;
        }
        let i1 = f1.unwrap();
        let f2 = find_char(tok, i1 + 1, len, '\t');
        assert(ts.skip(i1 + 1) =~= ts.subrange(i1 + 1, len as int));
        if f2.is_none() {
            i += 1;
            continue;
        }
        let k2 = f2.unwrap();
        let ghost after = ts.skip(i1 + 1);
        assert(ts.take(i1 as int) =~= ts.subrange(0, i1 as int));
        assert(after.take(k2 - (i1 + 1)) =~= ts.subrange(i1 + 1, k2 as int));
        assert(after.skip(k2 - (i1 + 1) + 1) =~= ts.subrange(k2 + 1, len as int));
        let added = parse_u32_range(tok, 0, i1);
        let deleted = parse_u32_range(tok, i1 + 1, k2);
        if k2 + 1 == len {
            // rename: the old path, then the new one
            if n - i <= 2 || toks[i + 2].len() == 0 {
                proof {
                    if n - i > 2 {
                        assert(after_one(t.drop_first()) =~= tv.skip(i as int + 2));
                        assert(after_one(after_one(t.drop_first())) =~= tv.skip(i as int + 3));
                    } else {
                        assert(after_one(after_one(t.drop_first())).len() == 0);
                        assert(tv.skip(n as int).len() == 0);
                        assert(after_one(after_one(t.drop_first())) =~= tv.skip(n as int));
                    }
                }
                i = if n - i <= 2 {
                    n
                } else {
                    i + 3
                };
                continue;
            }
            assert(after_one(t.drop_first()) =~= tv.skip(i as int + 2));
            assert(tv.skip(i as int + 2)[0] == tv[i + 2]);
            assert(tv.skip(i as int + 2).drop_first() =~= tv.skip(i as int + 3));
            let rec: NumStat = (string_of(&toks[i + 2]), added, deleted);
            let ghost before = numstat_views(stats@);
            stats.push(rec);
            assert(numstat_views(stats@) =~= before.push(numstat_view(rec)));
            assert(before.push(numstat_view(rec)) + numstat_from(tv.skip(i as int + 3)) =~= before
                + (seq![numstat_view(rec)] + numstat_from(tv.skip(i as int + 3))));
            i += 3;
        } else {
            let rec: NumStat = (string_from(tok, k2 + 1, len), added, deleted);
            let ghost before = numstat_views(stats@);
            stats.push(rec);
            assert(numstat_views(stats@) =~= before.push(numstat_view(rec)));
            assert(before.push(numstat_view(rec)) + numstat_from(tv.skip(i as int + 1)) =~= before
                + (seq![numstat_view(rec)] + numstat_from(tv.skip(i as int + 1))));
            i += 1;
        }
    }
    assert(numstat_views(stats@) + seq![] =~= numstat_views(stats@));
    stats
}

/// The side or sides that a porcelain unmerged `XY` code names; only the
/// seven unmerged codes have one.
pub open spec fn conflict_side_spec(xy: Seq<char>) -> Option<ConflictSide> {
    if xy == seq!['D', 'D'] {
        Some(ConflictSide::BothDeleted)
    } else if xy == seq!['A', 'U'] {
        Some(ConflictSide::AddedByUs)
    } else if xy == seq!['U', 'D'] {
        Some(ConflictSide::DeletedByThem)
    } else if xy == seq!['U', 'A'] {
        Some(ConflictSide::AddedByThem)
    } else if xy == seq!['D', 'U'] {
        Some(ConflictSide::DeletedByUs)
    } else if xy == seq!['A', 'A'] {
        Some(ConflictSide::BothAdded)
    } else if xy == seq!['U', 'U'] {
        Some(ConflictSide::BothModified)
    } else {
        None
    }
}

/// Maps `git status --porcelain`'s unmerged `XY` codes (DD, AU, UD, UA, DU,
/// AA, UU) to the side(s) that touched the path.
pub fn conflict_side(xy: &str) -> (r: Option<ConflictSide>)
    ensures
        r == conflict_side_spec(xy@),
{
    let v = chars_of(xy);
    conflict_side_chars(&v)
}

fn conflict_side_chars(v: &Vec<char>) -> (r: Option<ConflictSide>)
    ensures
        r == conflict_side_spec(v@),
{
    if v.len() != 2 {
        assert(v@ != seq!['D', 'D'] && v@ != seq!['A', 'U'] && v@ != seq!['U', 'D'] && v@ != seq![
            'U',
            'A',
        ] && v@ != seq!['D', 'U'] && v@ != seq!['A', 'A'] && v@ != seq!['U', 'U']);
        return None;
    }
    let x = v[0];
    let y = v[1];
    assert(v@ =~= seq![x, y]);
    if x == 'D' && y == 'D' {
        Some(ConflictSide::BothDeleted)
    } else if x == 'A' && y == 'U' {
        Some(ConflictSide::AddedByUs)
    } else if x == 'U' && y == 'D' {
        Some(ConflictSide::DeletedByThem)
    } else if x == 'U' && y == 'A' {
        Some(ConflictSide::AddedByThem)
    } else if x == 'D' && y == 'U' {
        Some(ConflictSide::DeletedByUs)
    } else if x == 'A' && y == 'A' {
        Some(ConflictSide::BothAdded)
    } else if x == 'U' && y == 'U' {
        Some(ConflictSide::BothModified)
    } else {
        assert(seq![x, y] != seq!['D', 'D']);
        assert(seq![x, y] != seq!['A', 'U']);
        assert(seq![x, y] != seq!['U', 'D']);
        assert(seq![x, y] != seq!['U', 'A']);
        assert(seq![x, y] != seq!['D', 'U']);
        assert(seq![x, y] != seq!['A', 'A']);
        assert(seq![x, y] != seq!['U', 'U']);
        None
    }
}

/// The number of bytes that `c` takes in UTF-8.
pub open spec fn utf8_width(c: char) -> nat {
    let u = c as u32;
    if u < 0x80 {
        1
    } else if u < 0x800 {
        2
    } else if u < 0x10000 {
        3
    } else {
        4
    }
}

/// The number of bytes that `s` takes in UTF-8.
pub open spec fn utf8_size(s: Seq<char>) -> nat
    decreases s.len(),
{
    if s.len() == 0 {
        0
    } else {
        utf8_size(s.drop_last()) + utf8_width(s.last())
    }
}

proof fn lemma_utf8_size_at_least_len(s: Seq<char>)
    ensures
        utf8_size(s) >= s.len(),
    decreases s.len(),
{
    if s.len() > 0 {
        lemma_utf8_size_at_least_len(s.drop_last());
    }
}

/// A porcelain entry of at least three bytes whose byte offsets 2 and 3
/// fall on character boundaries, so that its `XY` code (bytes 0..2) and its
/// path (from byte 3) can be cut out.
pub open spec fn porcelain_sliceable(e: Seq<char>) -> bool {
    ||| utf8_size(e) < 3
    ||| (utf8_width(e[0]) == 1 && utf8_width(e[1]) == 1 && utf8_width(e[2]) == 1)
    ||| (utf8_width(e[0]) == 2 && utf8_width(e[1]) == 1)
}

/// The `XY` code of a porcelain entry: its first two bytes.
pub open spec fn porcelain_xy(e: Seq<char>) -> Seq<char> {
    if utf8_width(e[0]) == 1 {
        e.take(2)
    } else {
        e.take(1)
    }
}

/// The path of a porcelain entry: everything from its fourth byte on.
pub open spec fn porcelain_path(e: Seq<char>) -> Seq<char> {
    if utf8_width(e[0]) == 1 {
        e.skip(3)
    } else {
        e.skip(2)
    }
}

/// What follows a porcelain entry with code `xy`: a rename or copy (`R`
/// or `C` in the code) is followed by its old path, which is passed over.
pub open spec fn porcelain_next(xy: Seq<char>, rest: Seq<Seq<char>>) -> Seq<Seq<char>> {
    if xy.contains('R') || xy.contains('C') {
        after_one(rest)
    } else {
        rest
    }
}

/// Every entry (not the passed-over old paths) of the token stream can be
/// cut at bytes 2 and 3.
pub open spec fn porcelain_ok(toks: Seq<Seq<char>>) -> bool
    decreases toks.len(),
{
    if toks.len() == 0 {
        true
    } else {
        let e = toks[0];
        let rest = toks.drop_first();
        if utf8_size(e) < 3 {
            porcelain_ok(rest)
        } else {
            porcelain_sliceable(e) && porcelain_ok(porcelain_next(porcelain_xy(e), rest))
        }
    }
}

/// The conflicted (path, side) pairs of a porcelain token stream, in order.
/// Entries shorter than three bytes are skipped.
pub open spec fn conflicted_from(toks: Seq<Seq<char>>) -> Seq<(Seq<char>, ConflictSide)>
    decreases toks.len(),
{
    if toks.len() == 0 {
        seq![]
    } else {
        let e = toks[0];
        let rest = toks.drop_first();
        if utf8_size(e) < 3 {
            conflicted_from(rest)
        } else {
            let xy = porcelain_xy(e);
            let next = porcelain_next(xy, rest);
            match conflict_side_spec(xy) {
                Some(side) => seq![(porcelain_path(e), side)] + conflicted_from(next),
                None => conflicted_from(next),
            }
        }
    }
}

/// The views of conflicted (path, side) pairs.
pub open spec fn conflict_views(s: Seq<(String, ConflictSide)>) -> Seq<(Seq<char>, ConflictSide)> {
    s.map_values(|p: (String, ConflictSide)| (p.0@, p.1))
}

proof fn lemma_size_small(e: Seq<char>)
    ensures
        e.len() == 1 ==> utf8_size(e) == utf8_width(e[0]),
        e.len() == 2 ==> utf8_size(e) == utf8_width(e[0]) + utf8_width(e[1]),
{
    if e.len() == 1 {
        assert(e.drop_last().len() == 0);
        assert(utf8_size(e.drop_last()) == 0);
    }
    if e.len() == 2 {
        let d = e.drop_last();
        assert(d.len() == 1);
        assert(d.drop_last().len() == 0);
        assert(utf8_size(d.drop_last()) == 0);
        assert(utf8_size(d) == utf8_width(d[0]));
        assert(d[0] == e[0]);
    }
}

fn width_of(c: char) -> (w: usize)
    ensures
        w == utf8_width(c),
{
    let u = c as u32;
    if u < 0x80 {
        1
    } else if u < 0x800 {
        2
    } else if u < 0x10000 {
        3
    } else {
        4
    }
}

fn size_below_3(e: &Vec<char>) -> (b: bool)
    ensures
        b == (utf8_size(e@) < 3),
{
    proof {
        lemma_utf8_size_at_least_len(e@);
        lemma_size_small(e@);
    }
    if e.len() >= 3 {
        return false;
    }
    if e.len() == 0 {
        return true;
    }
    let w0 = width_of(e[0]);
    assert(e@.drop_last().len() == e@.len() - 1);
    if e.len() == 1 {
        assert(e@.drop_last().len() == 0);
        return w0 < 3;
    }
    let w1 = width_of(e[1]);
    assert(e@.drop_last().drop_last().len() == 0);
    assert(e@.drop_last().last() == e@[0]);
    w0 + w1 < 3
}

/// The conflicted (path, side) pairs from the output of
/// `git status --porcelain -z`; none when git failed. Renamed or copied
/// entries are followed by an old-path token that is passed over, so that the
/// entries after them stay aligned.
pub fn conflicted_paths(status_out: Result<String, String>) -> (r: Vec<(String, ConflictSide)>)
    requires
        status_out is Ok ==> porcelain_ok(split_on(status_out->Ok_0@, '\0')),
    ensures
        conflict_views(r@) == match status_out {
            Ok(out) => conflicted_from(split_on(out@, '\0')),
            Err(_) => Seq::<(Seq<char>, ConflictSide)>::empty(),
        },
{
    let out = match status_out {
        Ok(o) => o,
        Err(_) => {
            let empty: Vec<(String, ConflictSide)> = Vec::new();
            assert(conflict_views(empty@) =~= Seq::<(Seq<char>, ConflictSide)>::empty());
            return empty;
        },
    };
    let chars = chars_of(out.as_str());
    let toks = split_chars(&chars, '\0');
    let ghost tv = views(toks@);
    let n = toks.len();
    let mut result: Vec<(String, ConflictSide)> = Vec::new();
    let mut i: usize = 0;
    assert(tv.skip(0) =~= tv);
    while i < n
        invariant
            0 <= i <= n,
            n == toks.len(),
            tv == views(toks@),
            porcelain_ok(tv.skip(i as int)),
            conflict_views(result@) + conflicted_from(tv.skip(i as int)) == conflicted_from(
                split_on(out@, '\0'),
            ),
            tv == split_on(out@, '\0'),
        decreases n - i,
    {
        let ghost t = tv.skip(i as int);
        assert(t[0] == toks@[i as int]@);
        assert(t.drop_first() =~= tv.skip(i as int + 1));
        let e = &toks[i];
        if size_below_3(e) {
            i += 1;
            continue;
        }
        proof {
            lemma_utf8_size_at_least_len(e@);
            lemma_size_small(e@);
            assert(porcelain_sliceable(e@));
        }
        let w0 = width_of(e[0]);
        let (xy_end, path_start) = if w0 == 1 {
            (2usize, 3usize)
        } else {
            (1usize, 2usize)
        };
        let xy = sub_vec(e, 0, xy_end);
        assert(xy@ =~= porcelain_xy(e@));
        let has_rc = xy_has_rename(&xy);
        let mut next = i + 1;
        if has_rc && next < n {
            next = next + 1;
        }
        proof {
            if has_rc {
                if i + 1 < n {
                    assert(after_one(t.drop_first()) =~= tv.skip(i as int + 2));
                } else {
                    assert(after_one(t.drop_first()) =~= tv.skip(i as int + 1));
                }
            }
            assert(porcelain_next(xy@, t.drop_first()) =~= tv.skip(next as int));
        }
        match conflict_side_chars(&xy) {
            Some(side) => {
                let path = string_from(e, path_start, e.len());
                assert(path@ =~= porcelain_path(e@));
                let ghost before = conflict_views(result@);
                result.push((path, side));
                assert(conflict_views(result@) =~= before.push((path@, side)));
                assert(before.push((path@, side)) + conflicted_from(tv.skip(next as int)) =~= before
                    + (seq![(path@, side)] + conflicted_from(tv.skip(next as int))));
            },
            None => {},
        }
        i = next;
    }
    assert(conflict_views(result@) + seq![] =~= conflict_views(result@));
    result
}

/// Whether every entry of `git status --porcelain -z` output `out` can be
/// cut at its bytes 2 and 3, which `conflicted_paths` needs.
pub fn porcelain_well_formed(out: &str) -> (b: bool)
    ensures
        b == porcelain_ok(split_on(out@, '\0')),
{
    let chars = chars_of(out);
    let toks = split_chars(&chars, '\0');
    let ghost tv = views(toks@);
    let n = toks.len();
    let mut i: usize = 0;
    assert(tv.skip(0) =~= tv);
    while i < n
        invariant
            0 <= i <= n,
            n == toks.len(),
            tv == views(toks@),
            tv == split_on(out@, '\0'),
            porcelain_ok(tv.skip(i as int)) == porcelain_ok(tv),
        decreases n - i,
    {
        let ghost t = tv.skip(i as int);
        assert(t[0] == toks@[i as int]@);
        assert(t.drop_first() =~= tv.skip(i as int + 1));
        let e = &toks[i];
        if size_below_3(e) {
            i += 1;
            continue;
        }
        proof {
            lemma_utf8_size_at_least_len(e@);
            lemma_size_small(e@);
        }
        let sliceable = if e.len() >= 3 {
            let w0 = width_of(e[0]);
            let w1 = width_of(e[1]);
            (w0 == 1 && w1 == 1 && width_of(e[2]) == 1) || (w0 == 2 && w1 == 1)
        } else if e.len() == 2 {
            width_of(e[0]) == 2 && width_of(e[1]) == 1
        } else {
            false
        };
        assert(sliceable == porcelain_sliceable(e@));
        if !sliceable {
            return false;
        }
        let xy_end: usize = if width_of(e[0]) == 1 {
            2
        } else {
            1
        };
        let xy = sub_vec(e, 0, xy_end);
        assert(xy@ =~= porcelain_xy(e@));
        let has_rc = xy_has_rename(&xy);
        let mut next = i + 1;
        if has_rc && next < n {
            next = next + 1;
        }
        proof {
            if has_rc {
                if i + 1 < n {
                    assert(after_one(t.drop_first()) =~= tv.skip(i as int + 2));
                } else {
                    assert(after_one(t.drop_first()) =~= tv.skip(i as int + 1));
                }
            }
            assert(porcelain_next(xy@, t.drop_first()) =~= tv.skip(next as int));
        }
        i = next;
    }
    assert(tv.skip(n as int) =~= Seq::<Seq<char>>::empty());
    true
}

fn xy_has_rename(xy: &Vec<char>) -> (b: bool)
    ensures
        b == (xy@.contains('R') || xy@.contains('C')),
{
    let mut k: usize = 0;
    while k < xy.len()
        invariant
            0 <= k <= xy.len(),
            forall|j: int| 0 <= j < k ==> xy@[j] != 'R' && xy@[j] != 'C',
        decreases xy.len() - k,
    {
        if xy[k] == 'R' || xy[k] == 'C' {
            assert(xy@[k as int] == 'R' || xy@[k as int] == 'C');
            return true;
        }
        k += 1;
    }
    false
}

/// `k` is the first index of an entry with path `p`.
pub open spec fn is_first_path(files: Seq<FileStatusV>, p: Seq<char>, k: int) -> bool {
    0 <= k < files.len() && files[k].path == p && forall|j: int|
        0 <= j < k ==> files[j].path != p
}

/// The first index of an entry with path `p`, or -1.
pub open spec fn first_with_path(files: Seq<FileStatusV>, p: Seq<char>) -> int {
    if exists|k: int| is_first_path(files, p, k) {
        choose|k: int| is_first_path(files, p, k)
    } else {
        -1
    }
}

proof fn lemma_first_with_path(files: Seq<FileStatusV>, p: Seq<char>, k: int)
    requires
        is_first_path(files, p, k),
    ensures
        first_with_path(files, p) == k,
{
    let c = choose|k: int| is_first_path(files, p, k);
    assert(is_first_path(files, p, c));
    if c < k {
        assert(files[c].path != p);
    }
    if k < c {
        assert(files[k].path != p);
    }
}

/// The entries after one line-count record: the first entry with the
/// record's path takes its counts.
pub open spec fn apply_stat(
    files: Seq<FileStatusV>,
    st: (Seq<char>, Option<u32>, Option<u32>),
) -> Seq<FileStatusV> {
    let k = first_with_path(files, st.0);
    if k < 0 {
        files
    } else {
        files.update(k, FileStatusV { additions: st.1, deletions: st.2, ..files[k] })
    }
}

/// The entries after the line-count records, applied in order.
pub open spec fn apply_stats(
    files: Seq<FileStatusV>,
    stats: Seq<(Seq<char>, Option<u32>, Option<u32>)>,
) -> Seq<FileStatusV>
    decreases stats.len(),
{
    if stats.len() == 0 {
        files
    } else {
        apply_stats(apply_stat(files, stats[0]), stats.drop_first())
    }
}

/// `a` is `b` with at most its line counts changed.
pub open spec fn same_but_counts(a: FileStatusV, b: FileStatusV) -> bool {
    &&& a.path == b.path
    &&& a.old_path == b.old_path
    &&& a.kind == b.kind
    &&& a.conflict == b.conflict
    &&& a.staged == b.staged
}

proof fn lemma_apply_stat_keeps(files: Seq<FileStatusV>, st: (Seq<char>, Option<u32>, Option<u32>))
    ensures
        apply_stat(files, st).len() == files.len(),
        forall|i: int|
            0 <= i < files.len() ==> same_but_counts(#[trigger] apply_stat(files, st)[i], files[i]),
        forall|i: int|
            0 <= i < files.len() && files[i].path != st.0 ==> #[trigger] apply_stat(files, st)[i]
                == files[i],
{
    let k = first_with_path(files, st.0);
    if k >= 0 {
        assert(exists|k: int| is_first_path(files, st.0, k));
        assert(is_first_path(files, st.0, k));
    }
}

/// Attaching line counts keeps the list: the same number of entries, each
/// with its path, old path, kind, conflict and staged flag; an entry whose
/// path no record names keeps its counts too.
pub proof fn law_numstat_keeps_entries(
    files: Seq<FileStatusV>,
    stats: Seq<(Seq<char>, Option<u32>, Option<u32>)>,
)
    ensures
        apply_stats(files, stats).len() == files.len(),
        forall|i: int|
            0 <= i < files.len() ==> same_but_counts(#[trigger] apply_stats(files, stats)[i], files[i]),
        forall|i: int|
            0 <= i < files.len() && (forall|j: int| 0 <= j < stats.len() ==> (#[trigger] stats[j]).0
                != files[i].path) ==> #[trigger] apply_stats(files, stats)[i] == files[i],
    decreases stats.len(),
{
    if stats.len() > 0 {
        let f1 = apply_stat(files, stats[0]);
        lemma_apply_stat_keeps(files, stats[0]);
        law_numstat_keeps_entries(f1, stats.drop_first());
        assert forall|i: int|
            0 <= i < files.len() && (forall|j: int| 0 <= j < stats.len() ==> (#[trigger] stats[j]).0
                != files[i].path) implies #[trigger] apply_stats(files, stats)[i] == files[i] by {
            assert(stats[0].0 != files[i].path);
            assert(f1[i] == files[i]);
            assert forall|j: int| 0 <= j < stats.drop_first().len() implies (
            #[trigger] stats.drop_first()[j]).0 != f1[i].path by {
                assert(stats.drop_first()[j] == stats[j + 1]);
            }
        }
    }
}

/// The counts of the last line-count record for path `p`, if any.
pub open spec fn last_stat(
    stats: Seq<(Seq<char>, Option<u32>, Option<u32>)>,
    p: Seq<char>,
) -> Option<(Option<u32>, Option<u32>)>
    decreases stats.len(),
{
    if stats.len() == 0 {
        None
    } else {
        match last_stat(stats.drop_first(), p) {
            Some(c) => Some(c),
            None => if stats[0].0 == p {
                Some((stats[0].1, stats[0].2))
            } else {
                None
            },
        }
    }
}

/// Which entry takes the counts: the first entry with a path takes those of
/// the last record for that path, when there is one; every other entry
/// keeps what it had.
pub proof fn law_numstat_first_entry_takes_last_record(
    files: Seq<FileStatusV>,
    stats: Seq<(Seq<char>, Option<u32>, Option<u32>)>,
)
    ensures
        forall|i: int|
            0 <= i < files.len() ==> #[trigger] apply_stats(files, stats)[i] == if is_first_path(
                files,
                files[i].path,
                i,
            ) {
                match last_stat(stats, files[i].path) {
                    Some(c) => FileStatusV { additions: c.0, deletions: c.1, ..files[i] },
                    None => files[i],
                }
            } else {
                files[i]
            },
    decreases stats.len(),
{
    if stats.len() > 0 {
        let st = stats[0];
        let f1 = apply_stat(files, st);
        let rest = stats.drop_first();
        lemma_apply_stat_keeps(files, st);
        law_numstat_first_entry_takes_last_record(f1, rest);
        let k = first_with_path(files, st.0);
        if k >= 0 {
            assert(exists|k: int| is_first_path(files, st.0, k));
            assert(is_first_path(files, st.0, k));
        }
        assert forall|i: int| 0 <= i < files.len() implies #[trigger] apply_stats(files, stats)[i]
            == if is_first_path(files, files[i].path, i) {
            match last_stat(stats, files[i].path) {
                Some(c) => FileStatusV { additions: c.0, deletions: c.1, ..files[i] },
                None => files[i],
            }
        } else {
            files[i]
        } by {
            let p = files[i].path;
            assert(f1[i].path == p);
            assert(is_first_path(f1, p, i) == is_first_path(files, p, i)) by {
                assert forall|j: int| 0 <= j < i implies f1[j].path == files[j].path by {
                    assert(same_but_counts(f1[j], files[j]));
                }
            }
            if is_first_path(files, p, i) && st.0 == p {
                lemma_first_with_path(files, p, i);
            } else if st.0 == p {
                assert(k != i);
            }
        }
    }
}

fn clone_opt(o: &Option<String>) -> (r: Option<String>)
    ensures
        opt_view(r) == opt_view(*o),
{
    match o {
        Some(s) => Some(s.clone()),
        None => None,
    }
}

fn with_counts(f: &FileStatus, a: Option<u32>, d: Option<u32>) -> (r: FileStatus)
    ensures
        r@ == (FileStatusV { additions: a, deletions: d, ..f@ }),
{
    FileStatus {
        path: f.path.clone(),
        old_path: clone_opt(&f.old_path),
        kind: f.kind,
        additions: a,
        deletions: d,
        conflict: f.conflict,
        staged: f.staged,
    }
}

/// Sets the line counts of `files` from `git diff --numstat -z` output:
/// each record, in order, gives its counts to the first entry with its path.
/// Nothing changes when git failed.
pub fn attach_numstat(numstat: Result<String, String>, files: &mut Vec<FileStatus>)
    ensures
        status_views(final(files)@) == match numstat {
            Ok(out) => apply_stats(status_views(old(files)@), numstat_spec(out@)),
            Err(_) => status_views(old(files)@),
        },
{
    let out = match numstat {
        Ok(o) => o,
        Err(_) => return,
    };
    let stats = parse_numstat(out.as_str());
    let ghost sv = numstat_views(stats@);
    let mut i: usize = 0;
    assert(sv.skip(0) =~= sv);
    while i < stats.len()
        invariant
            0 <= i <= stats.len(),
            sv == numstat_views(stats@),
            sv == numstat_spec(out@),
            apply_stats(status_views(files@), sv.skip(i as int)) == apply_stats(
                status_views(old(files)@),
                sv,
            ),
        decreases stats.len() - i,
    {
        let ghost fv = status_views(files@);
        let ghost st = sv.skip(i as int)[0];
        assert(st == numstat_view(stats@[i as int]));
        assert(sv.skip(i as int).drop_first() =~= sv.skip(i as int + 1));
        let target = &stats[i].0;
        let mut k: usize = 0;
        while k < files.len() && files[k].path != *target
            invariant
                0 <= k <= files.len(),
                fv == status_views(files@),
                forall|j: int| 0 <= j < k ==> fv[j].path != target@,
            decreases files.len() - k,
        {
            k += 1;
        }
        if k < files.len() {
            proof {
                lemma_first_with_path(fv, target@, k as int);
            }
            let nf = with_counts(&files[k], stats[i].1, stats[i].2);
            files.set(k, nf);
            assert(status_views(files@) =~= apply_stat(fv, st));
        } else {
            assert(!exists|j: int| is_first_path(fv, target@, j));
            assert(status_views(files@) =~= apply_stat(fv, st));
        }
        i += 1;
    }
}

/// Whether some conflicted pair has path `p`.
pub open spec fn is_conflicted(conflicted: Seq<(Seq<char>, ConflictSide)>, p: Seq<char>) -> bool {
    exists|j: int| 0 <= j < conflicted.len() && conflicted[j].0 == p
}

fn conflicted_has(conflicted: &Vec<(String, ConflictSide)>, p: &String) -> (b: bool)
    ensures
        b == is_conflicted(conflict_views(conflicted@), p@),
{
    let mut j: usize = 0;
    while j < conflicted.len()
        invariant
            0 <= j <= conflicted.len(),
            forall|x: int| 0 <= x < j ==> conflict_views(conflicted@)[x].0 != p@,
        decreases conflicted.len() - j,
    {
        if conflicted[j].0 == *p {
            assert(conflict_views(conflicted@)[j as int].0 == p@);
            return true;
        }
        j += 1;
    }
    false
}

/// The entries of a name-status listing that are not conflicted, marked
/// staged or not.
pub open spec fn retained(
    entries: Seq<FileStatusV>,
    conflicted: Seq<(Seq<char>, ConflictSide)>,
    staged: bool,
) -> Seq<FileStatusV>
    decreases entries.len(),
{
    if entries.len() == 0 {
        seq![]
    } else {
        let rest = retained(entries.drop_first(), conflicted, staged);
        if is_conflicted(conflicted, entries[0].path) {
            rest
        } else {
            seq![FileStatusV { staged, ..entries[0] }] + rest
        }
    }
}

/// One side of the changes list: the entries of a `git diff --name-status
/// -z` listing (index-vs-HEAD when `staged`, worktree-vs-index otherwise)
/// without the conflicted paths, marked `staged`, with the line counts of the
/// matching `--numstat -z` listing.
pub fn changed_entries(
    name_status: &str,
    numstat: Result<String, String>,
    conflicted: &Vec<(String, ConflictSide)>,
    staged: bool,
) -> (r: Vec<FileStatus>)
    ensures
        status_views(r@) == match numstat {
            Ok(out) => apply_stats(
                retained(name_status_spec(name_status@), conflict_views(conflicted@), staged),
                numstat_spec(out@),
            ),
            Err(_) => retained(name_status_spec(name_status@), conflict_views(conflicted@), staged),
        },
{
    let mut parsed = parse_name_status(name_status);
    let ghost all = status_views(parsed@);
    let ghost cv = conflict_views(conflicted@);
    // reversed, so that popping yields the original order
    let mut rev: Vec<FileStatus> = Vec::new();
    while parsed.len() > 0
        invariant
            status_views(parsed@) + status_views(rev@).reverse() == all,
        decreases parsed.len(),
    {
        let ghost pv = status_views(parsed@);
        let ghost rv = status_views(rev@);
        let f = parsed.pop().unwrap();
        rev.push(f);
        assert(status_views(parsed@) =~= pv.drop_last());
        assert(status_views(rev@) =~= rv.push(f@));
        assert(rv.push(f@).reverse() =~= seq![f@] + rv.reverse());
        assert(pv.drop_last() + (seq![f@] + rv.reverse()) =~= pv + rv.reverse());
    }
    assert(status_views(parsed@) =~= Seq::<FileStatusV>::empty());
    assert(status_views(rev@).reverse() =~= all);
    let mut kept: Vec<FileStatus> = Vec::new();
    assert(all.skip(0) =~= all);
    while rev.len() > 0
        invariant
            status_views(rev@).reverse() == all.skip(all.len() - rev@.len()),
            rev@.len() <= all.len(),
            status_views(kept@) + retained(all.skip(all.len() - rev@.len()), cv, staged) == retained(
                all,
                cv,
                staged,
            ),
            cv == conflict_views(conflicted@),
        decreases rev.len(),
    {
        let ghost rv = status_views(rev@);
        let ghost i = all.len() - rev@.len();
        let f = rev.pop().unwrap();
        assert(status_views(rev@) =~= rv.drop_last());
        assert(rv.reverse()[0] == f@);
        assert(all.skip(i)[0] == f@);
        assert(all.skip(i).drop_first() =~= all.skip(i + 1));
        assert(rv.drop_last().reverse() =~= rv.reverse().drop_first());
        if !conflicted_has(conflicted, &f.path) {
            let g = FileStatus { staged, ..f };
            let ghost before = status_views(kept@);
            kept.push(g);
            assert(status_views(kept@) =~= before.push(g@));
            assert(before.push(g@) + retained(all.skip(i + 1), cv, staged) =~= before + (seq![g@]
                + retained(all.skip(i + 1), cv, staged)));
        }
    }
    assert(all.skip(all.len() as int) =~= Seq::<FileStatusV>::empty());
    assert(status_views(kept@) + seq![] =~= status_views(kept@));
    attach_numstat(numstat, &mut kept);
    kept
}

/// The untracked paths of `git ls-files --others --exclude-standard -z`
/// output: the non-empty NUL-separated paths that are not conflicted.
pub open spec fn untracked_from(
    toks: Seq<Seq<char>>,
    conflicted: Seq<(Seq<char>, ConflictSide)>,
) -> Seq<Seq<char>>
    decreases toks.len(),
{
    if toks.len() == 0 {
        seq![]
    } else {
        let rest = untracked_from(toks.drop_first(), conflicted);
        if toks[0].len() == 0 || is_conflicted(conflicted, toks[0]) {
            rest
        } else {
            seq![toks[0]] + rest
        }
    }
}

/// The untracked paths listed are exactly the tokens of the `ls-files`
/// output that are not empty and not conflicted, in order: none is empty,
/// none is conflicted, each is a token, and every such token is listed.
pub proof fn law_untracked_paths(toks: Seq<Seq<char>>, conflicted: Seq<(Seq<char>, ConflictSide)>)
    ensures
        forall|i: int|
            0 <= i < untracked_from(toks, conflicted).len() ==> {
                let p = #[trigger] untracked_from(toks, conflicted)[i];
                &&& p.len() > 0
                &&& !is_conflicted(conflicted, p)
                &&& toks.contains(p)
            },
        forall|j: int|
            0 <= j < toks.len() && toks[j].len() > 0 && !is_conflicted(conflicted, toks[j])
                ==> untracked_from(toks, conflicted).contains(#[trigger] toks[j]),
        untracked_from(toks, conflicted).len() <= toks.len(),
    decreases toks.len(),
{
    if toks.len() > 0 {
        let rest = toks.drop_first();
        law_untracked_paths(rest, conflicted);
        let r = untracked_from(rest, conflicted);
        let full = untracked_from(toks, conflicted);
        let keep = !(toks[0].len() == 0 || is_conflicted(conflicted, toks[0]));
        assert forall|i: int| 0 <= i < full.len() implies {
            let p = #[trigger] full[i];
            &&& p.len() > 0
            &&& !is_conflicted(conflicted, p)
            &&& toks.contains(p)
        } by {
            if keep && i == 0 {
                assert(toks[0] == full[0]);
            } else {
                let q = if keep {
                    i - 1
                } else {
                    i
                };
                assert(full[i] == r[q]);
                let k = choose|k: int| 0 <= k < rest.len() && rest[k] == r[q];
                assert(toks[k + 1] == rest[k]);
            }
        }
        assert forall|j: int|
            0 <= j < toks.len() && toks[j].len() > 0 && !is_conflicted(conflicted, toks[j]) implies full.contains(
            #[trigger] toks[j]) by {
            if j == 0 {
                assert(full[0] == toks[0]);
            } else {
                assert(rest[j - 1] == toks[j]);
                assert(r.contains(toks[j]));
                let k = choose|k: int| 0 <= k < r.len() && r[k] == toks[j];
                if keep {
                    assert(full[k + 1] == r[k]);
                } else {
                    assert(full[k] == r[k]);
                }
            }
        }
    }
}

/// The untracked paths keep the order of the output: the listing of two
/// outputs one after the other is the listing of the first, then of the
/// second.
pub proof fn law_untracked_in_order(
    t1: Seq<Seq<char>>,
    t2: Seq<Seq<char>>,
    conflicted: Seq<(Seq<char>, ConflictSide)>,
)
    ensures
        untracked_from(t1 + t2, conflicted) == untracked_from(t1, conflicted) + untracked_from(
            t2,
            conflicted,
        ),
    decreases t1.len(),
{
    if t1.len() == 0 {
        assert(t1 + t2 =~= t2);
        assert(untracked_from(t1, conflicted) + untracked_from(t2, conflicted) =~= untracked_from(
            t2,
            conflicted,
        ));
    } else {
        law_untracked_in_order(t1.drop_first(), t2, conflicted);
        assert((t1 + t2).drop_first() =~= t1.drop_first() + t2);
        assert((t1 + t2)[0] == t1[0]);
        let a = untracked_from(t1.drop_first(), conflicted);
        let b = untracked_from(t2, conflicted);
        assert(seq![t1[0]] + (a + b) =~= seq![t1[0]] + a + b);
    }
}

/// The untracked paths to list: non-empty entries of `git ls-files
/// --others --exclude-standard -z` output that are not conflicted.
pub fn untracked_paths(out: &str, conflicted: &Vec<(String, ConflictSide)>) -> (r: Vec<String>)
    ensures
        crate::text::string_views(r@) == untracked_from(
            split_on(out@, '\0'),
            conflict_views(conflicted@),
        ),
{
    let v = chars_of(out);
    let toks = split_chars(&v, '\0');
    let ghost tv = views(toks@);
    let ghost cv = conflict_views(conflicted@);
    let mut r: Vec<String> = Vec::new();
    let mut i: usize = 0;
    assert(tv.skip(0) =~= tv);
    while i < toks.len()
        invariant
            0 <= i <= toks.len(),
            tv == views(toks@),
            tv == split_on(out@, '\0'),
            cv == conflict_views(conflicted@),
            crate::text::string_views(r@) + untracked_from(tv.skip(i as int), cv) == untracked_from(
                tv,
                cv,
            ),
        decreases toks.len() - i,
    {
        assert(tv.skip(i as int)[0] == toks@[i as int]@);
        assert(tv.skip(i as int).drop_first() =~= tv.skip(i as int + 1));
        if toks[i].len() > 0 {
            let p = string_of(&toks[i]);
            if !conflicted_has(conflicted, &p) {
                let ghost before = crate::text::string_views(r@);
                r.push(p);
                assert(crate::text::string_views(r@) =~= before.push(p@));
                assert(before.push(p@) + untracked_from(tv.skip(i as int + 1), cv) =~= before + (
                seq![p@] + untracked_from(tv.skip(i as int + 1), cv)));
            }
        }
        i += 1;
    }
    assert(crate::text::string_views(r@) + seq![] =~= crate::text::string_views(r@));
    r
}

/// `x` inserted into the path-sorted `sorted` after every entry whose path
/// does not sort after its own, so that equal paths keep their order.
pub open spec fn insert_by_path(sorted: Seq<FileStatusV>, x: FileStatusV) -> Seq<FileStatusV>
    decreases sorted.len(),
{
    if sorted.len() == 0 {
        seq![x]
    } else if text_lt(x.path, sorted.last().path) {
        insert_by_path(sorted.drop_last(), x).push(sorted.last())
    } else {
        sorted.push(x)
    }
}

/// `s` sorted by path, stably: entries with equal paths keep their order.
pub open spec fn sort_by_path(s: Seq<FileStatusV>) -> Seq<FileStatusV>
    decreases s.len(),
{
    if s.len() == 0 {
        seq![]
    } else {
        insert_by_path(sort_by_path(s.drop_last()), s.last())
    }
}

/// No entry sorts before one listed ahead of it.
pub open spec fn path_sorted(s: Seq<FileStatusV>) -> bool {
    forall|i: int, j: int| 0 <= i < j < s.len() ==> !text_lt(#[trigger] s[j].path, #[trigger] s[i].path)
}

proof fn lemma_insert_by_path(sorted: Seq<FileStatusV>, x: FileStatusV)
    requires
        path_sorted(sorted),
    ensures
        path_sorted(insert_by_path(sorted, x)),
        insert_by_path(sorted, x).to_multiset() == sorted.to_multiset().insert(x),
    decreases sorted.len(),
{
    broadcast use vstd::seq_lib::group_to_multiset_ensures;

    if sorted.len() == 0 {
        assert(seq![x] =~= Seq::<FileStatusV>::empty().push(x));
        assert(sorted =~= Seq::<FileStatusV>::empty());
    } else {
        let d = sorted.drop_last();
        let last = sorted.last();
        assert(sorted =~= d.push(last));
        if text_lt(x.path, last.path) {
            assert forall|i: int, j: int| 0 <= i < j < d.len() implies !text_lt(
                #[trigger] d[j].path,
                #[trigger] d[i].path,
            ) by {
                assert(d[i] == sorted[i] && d[j] == sorted[j]);
            }
            lemma_insert_by_path(d, x);
            let m = insert_by_path(d, x);
            let r = m.push(last);
            assert forall|i: int| 0 <= i < m.len() implies !text_lt(last.path, #[trigger] m[i].path) by {
                assert(m.to_multiset().contains(m[i]));
                if m[i] == x {
                    lemma_text_lt_asym(x.path, last.path);
                } else {
                    assert(d.to_multiset().contains(m[i]));
                    let k = choose|k: int| 0 <= k < d.len() && d[k] == m[i];
                    assert(sorted[k] == d[k]);
                    assert(sorted[sorted.len() - 1] == last);
                }
            }
            assert forall|i: int, j: int| 0 <= i < j < r.len() implies !text_lt(
                #[trigger] r[j].path,
                #[trigger] r[i].path,
            ) by {
                if j == r.len() - 1 {
                    assert(r[j] == last && r[i] == m[i]);
                } else {
                    assert(r[j] == m[j] && r[i] == m[i]);
                }
            }
        } else {
            let r = sorted.push(x);
            assert forall|i: int, j: int| 0 <= i < j < r.len() implies !text_lt(
                #[trigger] r[j].path,
                #[trigger] r[i].path,
            ) by {
                if j == r.len() - 1 {
                    assert(r[j] == x && r[i] == sorted[i]);
                    if text_lt(x.path, sorted[i].path) {
                        if i < sorted.len() - 1 {
                            assert(!text_lt(sorted[sorted.len() - 1].path, sorted[i].path));
                            lemma_text_lt_total(sorted[i].path, last.path);
                            if text_lt(sorted[i].path, last.path) {
                                lemma_text_lt_trans(x.path, sorted[i].path, last.path);
                            }
                        }
                    }
                } else {
                    assert(r[j] == sorted[j] && r[i] == sorted[i]);
                }
            }
        }
    }
}

/// The changes list is ordered by path and holds exactly the entries it was
/// built from: sorting rearranges, it neither drops nor adds.
pub proof fn law_changes_sorted_permutation(s: Seq<FileStatusV>)
    ensures
        path_sorted(sort_by_path(s)),
        sort_by_path(s).to_multiset() == s.to_multiset(),
    decreases s.len(),
{
    broadcast use vstd::seq_lib::group_to_multiset_ensures;

    if s.len() == 0 {
        assert(sort_by_path(s) =~= s);
    } else {
        law_changes_sorted_permutation(s.drop_last());
        lemma_insert_by_path(sort_by_path(s.drop_last()), s.last());
        assert(s =~= s.drop_last().push(s.last()));
    }
}

proof fn lemma_insert_at(sorted: Seq<FileStatusV>, x: FileStatusV, j: int)
    requires
        0 <= j <= sorted.len(),
        forall|m: int| j <= m < sorted.len() ==> text_lt(x.path, #[trigger] sorted[m].path),
        j > 0 ==> !text_lt(x.path, sorted[j - 1].path),
    ensures
        insert_by_path(sorted, x) == sorted.take(j).push(x) + sorted.skip(j),
    decreases sorted.len(),
{
    if sorted.len() == 0 {
        assert(sorted.take(j).push(x) + sorted.skip(j) =~= seq![x]);
    } else if j == sorted.len() {
        assert(sorted.take(j) =~= sorted);
        assert(sorted.push(x) + sorted.skip(j) =~= sorted.push(x));
    } else {
        let d = sorted.drop_last();
        assert forall|m: int| j <= m < d.len() implies text_lt(x.path, #[trigger] d[m].path) by {
            assert(d[m] == sorted[m]);
        }
        lemma_insert_at(d, x, j);
        assert(d.take(j).push(x) + d.skip(j) + seq![sorted.last()] =~= sorted.take(j).push(x)
            + sorted.skip(j));
        assert(insert_by_path(d, x).push(sorted.last()) =~= insert_by_path(d, x) + seq![
            sorted.last(),
        ]);
    }
}

fn insert_sorted(sorted: &mut Vec<FileStatus>, x: FileStatus)
    ensures
        status_views(final(sorted)@) == insert_by_path(status_views(old(sorted)@), x@),
{
    let ghost sv = status_views(sorted@);
    let xp = chars_of(x.path.as_str());
    let mut j = sorted.len();
    while j > 0 && chars_lt(&xp, &chars_of(sorted[j - 1].path.as_str()))
        invariant
            0 <= j <= sorted.len(),
            sv == status_views(sorted@),
            xp@ == x.path@,
            forall|m: int| j <= m < sorted.len() ==> text_lt(x.path@, #[trigger] sv[m].path),
        decreases j,
    {
        j -= 1;
    }
    proof {
        lemma_insert_at(sv, x@, j as int);
    }
    sorted.insert(j, x);
    assert(status_views(sorted@) =~= sv.take(j as int).push(x@) + sv.skip(j as int));
}

/// The changes list: the staged and unstaged entries, then the untracked
/// paths (with their line counts and no deletions), then the conflicted
/// paths, all sorted by path (stably: a partially staged file keeps its staged
/// entry first).
pub open spec fn status_list_spec(
    files: Seq<FileStatusV>,
    untracked: Seq<(Seq<char>, Option<u32>)>,
    conflicted: Seq<(Seq<char>, ConflictSide)>,
) -> Seq<FileStatusV> {
    sort_by_path(
        files + untracked.map_values(
            |u: (Seq<char>, Option<u32>)|
                FileStatusV {
                    path: u.0,
                    old_path: None,
                    kind: ChangeKind::Untracked,
                    additions: u.1,
                    deletions: Some(0),
                    conflict: None,
                    staged: false,
                },
        ) + conflicted.map_values(
            |c: (Seq<char>, ConflictSide)|
                FileStatusV {
                    path: c.0,
                    old_path: None,
                    kind: ChangeKind::Conflicted,
                    additions: None,
                    deletions: None,
                    conflict: Some(c.1),
                    staged: false,
                },
        ),
    )
}

/// The entry listed for an untracked path with its line count.
pub open spec fn untracked_entry(u: (Seq<char>, Option<u32>)) -> FileStatusV {
    FileStatusV {
        path: u.0,
        old_path: None,
        kind: ChangeKind::Untracked,
        additions: u.1,
        deletions: Some(0),
        conflict: None,
        staged: false,
    }
}

/// The entry listed for a conflicted path.
pub open spec fn conflicted_entry(c: (Seq<char>, ConflictSide)) -> FileStatusV {
    FileStatusV {
        path: c.0,
        old_path: None,
        kind: ChangeKind::Conflicted,
        additions: None,
        deletions: None,
        conflict: Some(c.1),
        staged: false,
    }
}

/// `v` in reverse order.
pub fn reversed<T>(v: Vec<T>) -> (r: Vec<T>)
    ensures
        r@ == v@.reverse(),
{
    let mut v = v;
    let ghost all = v@;
    let mut r: Vec<T> = Vec::new();
    while v.len() > 0
        invariant
            v@ + r@.reverse() == all,
        decreases v.len(),
    {
        let ghost pv = v@;
        let ghost rv = r@;
        let x = v.pop().unwrap();
        r.push(x);
        assert(r@ =~= rv.push(x));
        assert(rv.push(x).reverse() =~= seq![x] + rv.reverse());
        assert(v@ + r@.reverse() =~= pv + rv.reverse());
    }
    assert(r@.reverse().reverse() =~= r@);
    assert(v@ + r@.reverse() =~= r@.reverse());
    r
}

/// Puts the changes list together (see `status_list_spec`).
pub fn status_list(
    files: Vec<FileStatus>,
    untracked: Vec<(String, Option<u32>)>,
    conflicted: Vec<(String, ConflictSide)>,
) -> (r: Vec<FileStatus>)
    ensures
        status_views(r@) == status_list_spec(
            status_views(files@),
            untracked@.map_values(|u: (String, Option<u32>)| (u.0@, u.1)),
            conflict_views(conflicted@),
        ),
{
    let ghost uv = untracked@.map_values(|u: (String, Option<u32>)| (u.0@, u.1));
    let ghost cv = conflict_views(conflicted@);
    let mut all = files;
    let ghost f0 = status_views(all@);
    let mut urev = reversed(untracked);
    let ghost ur0 = urev@;
    while urev.len() > 0
        invariant
            urev@ == ur0.take(urev@.len() as int),
            ur0 == untracked@.reverse(),
            status_views(all@) == f0 + uv.take(uv.len() - urev@.len()).map_values(
                |u: (Seq<char>, Option<u32>)| untracked_entry(u),
            ),
            uv == untracked@.map_values(|u: (String, Option<u32>)| (u.0@, u.1)),
            urev@.len() <= uv.len(),
        decreases urev.len(),
    {
        let ghost k = uv.len() - urev@.len();
        let ghost j = urev@.len() - 1;
        let ghost item = ur0[j];
        assert(item == urev@[j]);
        assert(item == untracked@[k]);
        let (path, count) = urev.pop().unwrap();
        assert((path, count) == item);
        assert(uv[k] == (path@, count));
        let ghost before = status_views(all@);
        let f = FileStatus {
            path,
            old_path: None,
            kind: ChangeKind::Untracked,
            additions: count,
            deletions: Some(0),
            conflict: None,
            staged: false,
        };
        all.push(f);
        assert(urev@ =~= ur0.take(urev@.len() as int));
        assert(f@ == untracked_entry(uv[k]));
        assert(status_views(all@) =~= before.push(f@));
        assert(uv.take(k + 1).map_values(|u: (Seq<char>, Option<u32>)| untracked_entry(u))
            =~= uv.take(k).map_values(|u: (Seq<char>, Option<u32>)| untracked_entry(u)).push(
            untracked_entry(uv[k]),
        ));
        assert(status_views(all@) =~= f0 + uv.take(k + 1).map_values(
            |u: (Seq<char>, Option<u32>)| untracked_entry(u),
        ));
    }
    assert(uv.take(uv.len() as int) =~= uv);
    let ghost f1 = status_views(all@);
    let mut crev = reversed(conflicted);
    let ghost cr0 = crev@;
    while crev.len() > 0
        invariant
            crev@ == cr0.take(crev@.len() as int),
            cr0 == conflicted@.reverse(),
            status_views(all@) == f1 + cv.take(cv.len() - crev@.len()).map_values(
                |c: (Seq<char>, ConflictSide)| conflicted_entry(c),
            ),
            cv == conflict_views(conflicted@),
            crev@.len() <= cv.len(),
        decreases crev.len(),
    {
        let ghost k = cv.len() - crev@.len();
        let ghost j = crev@.len() - 1;
        let ghost item = cr0[j];
        assert(item == crev@[j]);
        assert(item == conflicted@[k]);
        let (path, side) = crev.pop().unwrap();
        assert((path, side) == item);
        assert(cv[k] == (path@, side));
        let ghost before = status_views(all@);
        let f = FileStatus {
            path,
            old_path: None,
            kind: ChangeKind::Conflicted,
            additions: None,
            deletions: None,
            conflict: Some(side),
            staged: false,
        };
        all.push(f);
        assert(crev@ =~= cr0.take(crev@.len() as int));
        assert(f@ == conflicted_entry(cv[k]));
        assert(status_views(all@) =~= before.push(f@));
        assert(cv.take(k + 1).map_values(|c: (Seq<char>, ConflictSide)| conflicted_entry(c))
            =~= cv.take(k).map_values(|c: (Seq<char>, ConflictSide)| conflicted_entry(c)).push(
            conflicted_entry(cv[k]),
        ));
        assert(status_views(all@) =~= f1 + cv.take(k + 1).map_values(
            |c: (Seq<char>, ConflictSide)| conflicted_entry(c),
        ));
    }
    assert(cv.take(cv.len() as int) =~= cv);
    let ghost combined = status_views(all@);
    assert(combined =~= f0 + uv.map_values(|u: (Seq<char>, Option<u32>)| untracked_entry(u))
        + cv.map_values(|c: (Seq<char>, ConflictSide)| conflicted_entry(c)));
    assert(uv.map_values(|u: (Seq<char>, Option<u32>)| untracked_entry(u)) =~= uv.map_values(
        |u: (Seq<char>, Option<u32>)|
            FileStatusV {
                path: u.0,
                old_path: None,
                kind: ChangeKind::Untracked,
                additions: u.1,
                deletions: Some(0),
                conflict: None,
                staged: false,
            },
    ));
    assert(cv.map_values(|c: (Seq<char>, ConflictSide)| conflicted_entry(c)) =~= cv.map_values(
        |c: (Seq<char>, ConflictSide)|
            FileStatusV {
                path: c.0,
                old_path: None,
                kind: ChangeKind::Conflicted,
                additions: None,
                deletions: None,
                conflict: Some(c.1),
                staged: false,
            },
    ));
    sort_entries(all)
}

/// `files` sorted by path, stably (see `sort_by_path`).
pub fn sort_entries(files: Vec<FileStatus>) -> (r: Vec<FileStatus>)
    ensures
        status_views(r@) == sort_by_path(status_views(files@)),
{
    let ghost all = status_views(files@);
    let mut rev = reversed(files);
    let ghost r0 = rev@;
    let mut sorted: Vec<FileStatus> = Vec::new();
    assert(all.take(0) =~= Seq::<FileStatusV>::empty());
    while rev.len() > 0
        invariant
            rev@ == r0.take(rev@.len() as int),
            r0.len() == all.len(),
            status_views(r0) == all.reverse(),
            rev@.len() <= all.len(),
            status_views(sorted@) == sort_by_path(all.take(all.len() - rev@.len())),
        decreases rev.len(),
    {
        let ghost k = all.len() - rev@.len();
        let ghost j = rev@.len() - 1;
        let ghost item = r0[j];
        assert(item == rev@[j]);
        assert(status_views(r0)[j] == item@);
        assert(all.reverse()[j] == all[k]);
        let x = rev.pop().unwrap();
        assert(x == item);
        assert(x@ == all[k]);
        assert(all.take(k + 1).drop_last() =~= all.take(k));
        insert_sorted(&mut sorted, x);
        assert(rev@ =~= r0.take(rev@.len() as int));
    }
    assert(all.take(all.len() as int) =~= all);
    sorted
}

/// An entry of one side of the changes list: a change of a path that is not
/// conflicted, marked `staged` as its side is, with no conflict.
pub open spec fn side_entry(e: FileStatusV, conflicted: Seq<(Seq<char>, ConflictSide)>, staged: bool) -> bool {
    &&& e.staged == staged
    &&& e.conflict is None
    &&& e.kind != ChangeKind::Conflicted
    &&& e.kind != ChangeKind::Untracked
    &&& !is_conflicted(conflicted, e.path)
}

proof fn lemma_name_status_kinds(toks: Seq<Seq<char>>)
    ensures
        forall|i: int|
            0 <= i < name_status_from(toks).len() ==> {
                let e = #[trigger] name_status_from(toks)[i];
                &&& e.conflict is None
                &&& e.kind != ChangeKind::Conflicted
                &&& e.kind != ChangeKind::Untracked
            },
    decreases toks.len(),
{
    if toks.len() > 0 {
        let rest = toks.drop_first();
        lemma_name_status_kinds(rest);
        if rest.len() >= 2 {
            lemma_name_status_kinds(rest.skip(2));
        }
        if rest.len() >= 1 {
            lemma_name_status_kinds(rest.skip(1));
        }
    }
}

proof fn lemma_retained_side(
    entries: Seq<FileStatusV>,
    conflicted: Seq<(Seq<char>, ConflictSide)>,
    staged: bool,
)
    requires
        forall|i: int|
            0 <= i < entries.len() ==> {
                let e = #[trigger] entries[i];
                &&& e.conflict is None
                &&& e.kind != ChangeKind::Conflicted
                &&& e.kind != ChangeKind::Untracked
            },
    ensures
        forall|i: int|
            0 <= i < retained(entries, conflicted, staged).len() ==> side_entry(
                #[trigger] retained(entries, conflicted, staged)[i],
                conflicted,
                staged,
            ),
    decreases entries.len(),
{
    if entries.len() > 0 {
        let rest = entries.drop_first();
        assert forall|i: int| 0 <= i < rest.len() implies {
            let e = #[trigger] rest[i];
            &&& e.conflict is None
            &&& e.kind != ChangeKind::Conflicted
            &&& e.kind != ChangeKind::Untracked
        } by {
            assert(rest[i] == entries[i + 1]);
        }
        lemma_retained_side(rest, conflicted, staged);
        let r = retained(rest, conflicted, staged);
        if !is_conflicted(conflicted, entries[0].path) {
            let full = retained(entries, conflicted, staged);
            assert forall|i: int| 0 <= i < full.len() implies side_entry(
                #[trigger] full[i],
                conflicted,
                staged,
            ) by {
                if i > 0 {
                    assert(full[i] == r[i - 1]);
                }
            }
        }
    }
}

proof fn lemma_side(
    out: Seq<char>,
    counts: Seq<(Seq<char>, Option<u32>, Option<u32>)>,
    conflicted: Seq<(Seq<char>, ConflictSide)>,
    staged: bool,
)
    ensures
        forall|i: int|
            0 <= i < apply_stats(retained(name_status_spec(out), conflicted, staged), counts).len()
                ==> side_entry(
                #[trigger] apply_stats(retained(name_status_spec(out), conflicted, staged), counts)[i],
                conflicted,
                staged,
            ),
{
    let es = name_status_spec(out);
    lemma_name_status_kinds(split_on(out, '\0'));
    assert(es == name_status_from(split_on(out, '\0')));
    lemma_retained_side(es, conflicted, staged);
    let r = retained(es, conflicted, staged);
    law_numstat_keeps_entries(r, counts);
    let a = apply_stats(r, counts);
    assert forall|i: int| 0 <= i < a.len() implies side_entry(#[trigger] a[i], conflicted, staged) by {
        assert(same_but_counts(a[i], r[i]));
        assert(side_entry(r[i], conflicted, staged));
    }
}

proof fn lemma_untracked_not_conflicted(
    toks: Seq<Seq<char>>,
    conflicted: Seq<(Seq<char>, ConflictSide)>,
)
    ensures
        forall|i: int|
            0 <= i < untracked_from(toks, conflicted).len() ==> !is_conflicted(
                conflicted,
                #[trigger] untracked_from(toks, conflicted)[i],
            ),
    decreases toks.len(),
{
    if toks.len() > 0 {
        lemma_untracked_not_conflicted(toks.drop_first(), conflicted);
        let r = untracked_from(toks.drop_first(), conflicted);
        let full = untracked_from(toks, conflicted);
        assert forall|i: int| 0 <= i < full.len() implies !is_conflicted(
            conflicted,
            #[trigger] full[i],
        ) by {
            if !(toks[0].len() == 0 || is_conflicted(conflicted, toks[0])) && i > 0 {
                assert(full[i] == r[i - 1]);
            }
        }
    }
}

/// The changes list that `get_status` assembles: the staged side (the
/// index-vs-HEAD name-status listing `staged_out` with its line-count records
/// `staged_counts`), the unstaged side likewise, the untracked paths of the
/// `ls-files` tokens `listed` with their line counts `counts`, and the
/// conflicted paths.
pub open spec fn changes_list(
    staged_out: Seq<char>,
    staged_counts: Seq<(Seq<char>, Option<u32>, Option<u32>)>,
    unstaged_out: Seq<char>,
    unstaged_counts: Seq<(Seq<char>, Option<u32>, Option<u32>)>,
    listed: Seq<Seq<char>>,
    counts: Seq<Option<u32>>,
    conflicted: Seq<(Seq<char>, ConflictSide)>,
) -> Seq<FileStatusV> {
    let paths = untracked_from(listed, conflicted);
    status_list_spec(
        apply_stats(retained(name_status_spec(staged_out), conflicted, true), staged_counts)
            + apply_stats(retained(name_status_spec(unstaged_out), conflicted, false), unstaged_counts),
        Seq::new(paths.len(), |i: int| (paths[i], counts[i])),
        conflicted,
    )
}

/// The changes list is sorted by path; an entry has a conflict exactly when
/// it is conflicted; untracked and conflicted entries are never staged;
/// untracked entries count no deleted lines; no entry but a conflicted one
/// has a conflicted path; and an entry is staged exactly when it comes from
/// the index-vs-HEAD listing.
pub proof fn law_changes_list(
    staged_out: Seq<char>,
    staged_counts: Seq<(Seq<char>, Option<u32>, Option<u32>)>,
    unstaged_out: Seq<char>,
    unstaged_counts: Seq<(Seq<char>, Option<u32>, Option<u32>)>,
    listed: Seq<Seq<char>>,
    counts: Seq<Option<u32>>,
    conflicted: Seq<(Seq<char>, ConflictSide)>,
)
    requires
        counts.len() == untracked_from(listed, conflicted).len(),
    ensures
        ({
            let l = changes_list(
                staged_out,
                staged_counts,
                unstaged_out,
                unstaged_counts,
                listed,
                counts,
                conflicted,
            );
            let staged_side = apply_stats(
                retained(name_status_spec(staged_out), conflicted, true),
                staged_counts,
            );
            &&& path_sorted(l)
            &&& forall|i: int|
                0 <= i < l.len() ==> {
                    let e = #[trigger] l[i];
                    &&& (e.conflict is Some <==> e.kind == ChangeKind::Conflicted)
                    &&& (e.kind == ChangeKind::Untracked || e.kind == ChangeKind::Conflicted
                        ==> !e.staged)
                    &&& (e.kind == ChangeKind::Untracked ==> e.deletions == Some(0u32))
                    &&& (e.kind != ChangeKind::Conflicted ==> !is_conflicted(conflicted, e.path))
                    &&& (e.staged <==> staged_side.contains(e))
                }
        }),
{
    broadcast use vstd::seq_lib::group_to_multiset_ensures;

    let st = apply_stats(retained(name_status_spec(staged_out), conflicted, true), staged_counts);
    let un = apply_stats(
        retained(name_status_spec(unstaged_out), conflicted, false),
        unstaged_counts,
    );
    let paths = untracked_from(listed, conflicted);
    let ut = Seq::new(paths.len(), |i: int| (paths[i], counts[i]));
    let um = ut.map_values(|u: (Seq<char>, Option<u32>)| untracked_entry(u));
    let cm = conflicted.map_values(|c: (Seq<char>, ConflictSide)| conflicted_entry(c));
    let s = st + un + um + cm;
    lemma_side(staged_out, staged_counts, conflicted, true);
    lemma_side(unstaged_out, unstaged_counts, conflicted, false);
    lemma_untracked_not_conflicted(listed, conflicted);
    assert(status_list_spec(st + un, ut, conflicted) == sort_by_path(s)) by {
        assert(ut.map_values(
            |u: (Seq<char>, Option<u32>)|
                FileStatusV {
                    path: u.0,
                    old_path: None,
                    kind: ChangeKind::Untracked,
                    additions: u.1,
                    deletions: Some(0),
                    conflict: None,
                    staged: false,
                },
        ) =~= um);
        assert(conflicted.map_values(
            |c: (Seq<char>, ConflictSide)|
                FileStatusV {
                    path: c.0,
                    old_path: None,
                    kind: ChangeKind::Conflicted,
                    additions: None,
                    deletions: None,
                    conflict: Some(c.1),
                    staged: false,
                },
        ) =~= cm);
    }
    law_changes_sorted_permutation(s);
    let l = sort_by_path(s);
    assert forall|i: int| 0 <= i < l.len() implies {
        let e = #[trigger] l[i];
        &&& (e.conflict is Some <==> e.kind == ChangeKind::Conflicted)
        &&& (e.kind == ChangeKind::Untracked || e.kind == ChangeKind::Conflicted ==> !e.staged)
        &&& (e.kind == ChangeKind::Untracked ==> e.deletions == Some(0u32))
        &&& (e.kind != ChangeKind::Conflicted ==> !is_conflicted(conflicted, e.path))
        &&& (e.staged <==> st.contains(e))
    } by {
        let e = l[i];
        assert(l.to_multiset().count(e) > 0);
        assert(s.contains(e));
        let k = choose|k: int| 0 <= k < s.len() && s[k] == e;
        if k < st.len() {
            assert(s[k] == st[k]);
            assert(side_entry(st[k], conflicted, true));
        } else if k < st.len() + un.len() {
            assert(s[k] == un[k - st.len()]);
            assert(side_entry(un[k - st.len()], conflicted, false));
            if st.contains(e) {
                let q = choose|q: int| 0 <= q < st.len() && st[q] == e;
                assert(side_entry(st[q], conflicted, true));
            }
        } else if k < st.len() + un.len() + um.len() {
            let m = k - st.len() - un.len();
            assert(s[k] == um[m]);
            assert(um[m] == untracked_entry(ut[m]));
            assert(ut[m].0 == paths[m]);
            if st.contains(e) {
                let q = choose|q: int| 0 <= q < st.len() && st[q] == e;
                assert(side_entry(st[q], conflicted, true));
            }
        } else {
            let m = k - st.len() - un.len() - um.len();
            assert(s[k] == cm[m]);
            assert(cm[m] == conflicted_entry(conflicted[m]));
            if st.contains(e) {
                let q = choose|q: int| 0 <= q < st.len() && st[q] == e;
                assert(side_entry(st[q], conflicted, true));
            }
        }
    }
}

} // verus!
