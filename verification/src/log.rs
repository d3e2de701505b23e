//! Reading history: `git log` records with their line stats, the authors of
//! `git shortlog -sne`, the stash list, `git blame --line-porcelain`, and the
//! hits of `git grep -n`.
use vstd::prelude::*;
use crate::refs::{decorations_spec, parse_decorations};
use crate::text::{
    chars_of, fields, find_char, first_occ, has_prefix, last_occ, lines, lines_of,
    parse_i64_range, parse_i64_spec, parse_u32_range, parse_u32_spec, range_contains,
    range_starts_with, rfind_in, split_chars, split_n, split_on, split_words, string_from,
    string_of, string_views, strip_trailing, trim, trim_end, trim_end_range, trim_range, views,
    words, free_of, lemma_fields_cons, lemma_fields_single, lemma_split_cons, lemma_split_single,
    strip_cr, occurs_at, lemma_first_occ_props, is_ws, is_digit, trim_start,
};
use crate::commands::decimal;
use crate::diff::{lemma_decimal, lemma_parse_decimal};
use crate::types::{AuthorInfo, BlameLine, CommitInfo, SearchHit, StashInfo, opt_view};

verus! {

/// The view of a `CommitInfo`.
pub struct CommitV {
    pub hash: Seq<char>,
    pub short_hash: Seq<char>,
    pub author: Seq<char>,
    pub email: Seq<char>,
    pub date: Seq<char>,
    pub subject: Seq<char>,
    pub additions: u32,
    pub deletions: u32,
    pub parents: Seq<Seq<char>>,
    pub refs: Seq<Seq<char>>,
}

impl View for CommitInfo {
    type V = CommitV;

    open spec fn view(&self) -> CommitV {
        CommitV {
            hash: self.hash@,
            short_hash: self.short_hash@,
            author: self.author@,
            email: self.email@,
            date: self.date@,
            subject: self.subject@,
            additions: self.additions,
            deletions: self.deletions,
            parents: string_views(self.parents@),
            refs: string_views(self.refs@),
        }
    }
}

/// The views of a sequence of commits.
pub open spec fn commit_views(s: Seq<CommitInfo>) -> Seq<CommitV> {
    s.map_values(|c: CommitInfo| c@)
}

/// ` changed`.
pub open spec fn lit_changed() -> Seq<char> {
    seq![' ', 'c', 'h', 'a', 'n', 'g', 'e', 'd']
}

/// `insertion`.
pub open spec fn lit_insertion() -> Seq<char> {
    seq!['i', 'n', 's', 'e', 'r', 't', 'i', 'o', 'n']
}

/// `deletion`.
pub open spec fn lit_deletion() -> Seq<char> {
    seq!['d', 'e', 'l', 'e', 't', 'i', 'o', 'n']
}

/// The number that starts a shortstat segment such as ` 3 insertions(+)`:
/// the trimmed segment up to its first space; 0 when that is no number.
pub open spec fn segment_number(seg: Seq<char>) -> u32 {
    match parse_u32_spec(split_on(trim(seg), ' ')[0]) {
        Some(n) => n,
        None => 0,
    }
}

/// (additions, deletions) after reading the comma-separated segments of one
/// shortstat line on top of `acc`: an `insertion` segment sets the additions,
/// a `deletion` segment the deletions.
pub open spec fn stat_segments(segs: Seq<Seq<char>>, acc: (u32, u32)) -> (u32, u32)
    decreases segs.len(),
{
    if segs.len() == 0 {
        acc
    } else {
        let p = stat_segments(segs.drop_last(), acc);
        let seg = segs.last();
        if first_occ(seg, lit_insertion()) >= 0 {
            (segment_number(seg), p.1)
        } else if first_occ(seg, lit_deletion()) >= 0 {
            (p.0, segment_number(seg))
        } else {
            p
        }
    }
}

/// (additions, deletions) of the lines after a commit's head line: each
/// line that holds ` changed` is read as a shortstat line, later ones
/// overriding earlier ones.
pub open spec fn shortstat(ls: Seq<Seq<char>>) -> (u32, u32)
    decreases ls.len(),
{
    if ls.len() == 0 {
        (0, 0)
    } else {
        let prev = shortstat(ls.drop_last());
        let l = ls.last();
        if first_occ(l, lit_changed()) >= 0 {
            stat_segments(split_on(l, ','), prev)
        } else {
            prev
        }
    }
}

/// The commit that one record of the log holds: its first line carries
/// eight NUL-separated columns (hash, short hash, author, email, date,
/// parents, subject, decorations), the rest its shortstat. None when the
/// record has no line or fewer than eight columns.
pub open spec fn commit_of_record(b: Seq<char>) -> Option<CommitV> {
    let ls = lines_of(b);
    if ls.len() == 0 {
        None
    } else {
        let cols = fields(ls[0], '\0', 8);
        if cols.len() != 8 {
            None
        } else {
            let (a, d) = shortstat(ls.drop_first());
            Some(
                CommitV {
                    hash: cols[0],
                    short_hash: cols[1],
                    author: cols[2],
                    email: cols[3],
                    date: cols[4],
                    subject: cols[6],
                    additions: a,
                    deletions: d,
                    parents: words(cols[5]),
                    refs: decorations_spec(cols[7]),
                },
            )
        }
    }
}

/// The commits of the log's records, in order; empty records are skipped.
pub open spec fn commits_from(records: Seq<Seq<char>>) -> Seq<CommitV>
    decreases records.len(),
{
    if records.len() == 0 {
        seq![]
    } else {
        let rest = commits_from(records.drop_first());
        if records[0].len() == 0 {
            rest
        } else {
            match commit_of_record(records[0]) {
                Some(c) => seq![c] + rest,
                None => rest,
            }
        }
    }
}

/// The commits of `git log --shortstat` output whose records each start
/// with `\x01`.
pub open spec fn log_spec(out: Seq<char>) -> Seq<CommitV> {
    commits_from(split_on(out, '\x01'))
}

/// `a` and `b` with a NUL between them.
pub open spec fn nul_then(a: Seq<char>, b: Seq<char>) -> Seq<char> {
    a + seq!['\0'] + b
}

/// A log column: no NUL, no line end, no record mark.
pub open spec fn plain_column(s: Seq<char>) -> bool {
    free_of(s, '\0') && free_of(s, '\n') && free_of(s, '\x01')
}

proof fn lemma_free_join(a: Seq<char>, b: Seq<char>, x: char, c: char)
    requires
        free_of(a, c),
        free_of(b, c),
        x != c,
    ensures
        free_of(a + seq![x] + b, c),
{
    let t = a + seq![x] + b;
    assert forall|i: int| 0 <= i < t.len() implies t[i] != c by {
        if i < a.len() {
            assert(t[i] == a[i]);
        } else if i > a.len() {
            assert(t[i] == b[i - a.len() - 1]);
        }
    }
}

proof fn lemma_join_plain(a: Seq<char>, b: Seq<char>)
    requires
        plain_column(a),
        free_of(b, '\n'),
        free_of(b, '\x01'),
    ensures
        free_of(nul_then(a, b), '\n'),
        free_of(nul_then(a, b), '\x01'),
{
    lemma_free_join(a, b, '\0', '\n');
    lemma_free_join(a, b, '\0', '\x01');
}

/// One log record whose head line carries the columns hash, short hash,
/// author name, author e-mail, date, parents, subject and decorations
/// (`%H%x00%h%x00%an%x00%ae%x00%ad%x00%P%x00%s%x00%D`), and no stat lines,
/// reads as one commit with each column in its place: the author is the
/// third column, the e-mail the fourth, the date the fifth, the subject the
/// seventh; the parents are the words of the sixth, and there are no line
/// counts.
pub proof fn law_log_record_columns(
    hash: Seq<char>,
    short: Seq<char>,
    author: Seq<char>,
    email: Seq<char>,
    date: Seq<char>,
    parents: Seq<char>,
    subject: Seq<char>,
    refs: Seq<char>,
)
    requires
        plain_column(hash),
        plain_column(short),
        plain_column(author),
        plain_column(email),
        plain_column(date),
        plain_column(parents),
        plain_column(subject),
        plain_column(refs),
    ensures
        ({
            let head = nul_then(
                hash,
                nul_then(
                    short,
                    nul_then(author, nul_then(email, nul_then(date, nul_then(parents, nul_then(subject, refs))))),
                ),
            );
            let cs = log_spec(seq!['\x01'] + head);
            &&& cs.len() == 1
            &&& cs[0].hash == hash
            &&& cs[0].short_hash == short
            &&& cs[0].author == author
            &&& cs[0].email == email
            &&& cs[0].date == date
            &&& cs[0].subject == subject
            &&& cs[0].parents == words(parents)
            &&& cs[0].refs == decorations_spec(refs)
            &&& cs[0].additions == 0
            &&& cs[0].deletions == 0
        }),
{
    let c7 = nul_then(subject, refs);
    let c6 = nul_then(parents, c7);
    let c5 = nul_then(date, c6);
    let c4 = nul_then(email, c5);
    let c3 = nul_then(author, c4);
    let c2 = nul_then(short, c3);
    let head = nul_then(hash, c2);
    lemma_join_plain(subject, refs);
    lemma_join_plain(parents, c7);
    lemma_join_plain(date, c6);
    lemma_join_plain(email, c5);
    lemma_join_plain(author, c4);
    lemma_join_plain(short, c3);
    lemma_join_plain(hash, c2);
    // the records: an empty one before the mark, then the head line
    let e = Seq::<char>::empty();
    assert(e + seq!['\x01'] + head =~= seq!['\x01'] + head);
    lemma_split_cons(e, head, '\x01');
    lemma_split_single(head, '\x01');
    let recs = split_on(seq!['\x01'] + head, '\x01');
    assert(recs =~= seq![e, head]);
    assert(recs.drop_first() =~= seq![head]);
    assert(seq![head].drop_first() =~= Seq::<Seq<char>>::empty());
    assert(head.len() > 0) by {
        assert(head[hash.len() as int] == '\0');
    }
    // the head record is one line
    lemma_split_single(head, '\n');
    assert(lines_of(head) =~= seq![head]);
    assert(seq![head].drop_first() =~= Seq::<Seq<char>>::empty());
    // its eight columns
    lemma_fields_cons(hash, c2, '\0', 8);
    lemma_fields_cons(short, c3, '\0', 7);
    lemma_fields_cons(author, c4, '\0', 6);
    lemma_fields_cons(email, c5, '\0', 5);
    lemma_fields_cons(date, c6, '\0', 4);
    lemma_fields_cons(parents, c7, '\0', 3);
    lemma_fields_cons(subject, refs, '\0', 2);
    lemma_fields_single(refs, '\0', 1);
    let cols = fields(head, '\0', 8);
    assert(cols =~= seq![hash, short, author, email, date, parents, subject, refs]);
    assert(log_spec(seq!['\x01'] + head) == commits_from(seq![e, head]));
    assert(commits_from(seq![e, head]) == commits_from(seq![head]));
    assert(shortstat(lines_of(head).drop_first()) == (0u32, 0u32));
    let c = CommitV {
        hash,
        short_hash: short,
        author,
        email,
        date,
        subject,
        additions: 0,
        deletions: 0,
        parents: words(parents),
        refs: decorations_spec(refs),
    };
    assert(commit_of_record(head) == Some(c));
    assert(commits_from(seq![head]) =~= seq![c] + commits_from(Seq::<Seq<char>>::empty()));
    assert(commits_from(seq![head]) =~= seq![c]);
}

/// `p` occurs somewhere in `s`.
pub open spec fn mentions(s: Seq<char>, p: Seq<char>) -> bool {
    exists|i: int| occurs_at(s, p, i)
}

proof fn lemma_mentions_first(s: Seq<char>, p: Seq<char>)
    ensures
        mentions(s, p) <==> first_occ(s, p) >= 0,
{
    lemma_first_occ_props(s, p);
    if first_occ(s, p) >= 0 {
        assert(occurs_at(s, p, first_occ(s, p)));
    }
}

proof fn lemma_mentions_cat(a: Seq<char>, b: Seq<char>, p: Seq<char>)
    requires
        p.len() > 0,
        forall|i: int| 0 <= i < a.len() ==> a[i] != p[0],
    ensures
        mentions(a + b, p) <==> mentions(b, p),
{
    let t = a + b;
    if mentions(b, p) {
        let i = choose|i: int| occurs_at(b, p, i);
        assert(t.subrange(a.len() + i, a.len() + i + p.len()) =~= b.subrange(i, i + p.len()));
        assert(occurs_at(t, p, a.len() + i));
    }
    if mentions(t, p) {
        let i = choose|i: int| occurs_at(t, p, i);
        if i < a.len() {
            assert(t.subrange(i, i + p.len())[0] == t[i]);
            assert(t[i] == a[i]);
        } else {
            assert(t.subrange(i, i + p.len()) =~= b.subrange(i - a.len(), i - a.len() + p.len()));
            assert(occurs_at(b, p, i - a.len()));
        }
    }
}

proof fn lemma_mentions_prefix(a: Seq<char>, b: Seq<char>, p: Seq<char>)
    requires
        mentions(a, p),
    ensures
        mentions(a + b, p),
{
    let i = choose|i: int| occurs_at(a, p, i);
    assert((a + b).subrange(i, i + p.len()) =~= a.subrange(i, i + p.len()));
    assert(occurs_at(a + b, p, i));
}

/// A shortstat segment: a space, the count, a space and the word.
pub open spec fn stat_segment(n: u32, word: Seq<char>) -> Seq<char> {
    seq![' '] + decimal(n as nat) + seq![' '] + word
}

/// A word of a shortstat segment: not empty, no space, comma or line end,
/// and not ending in whitespace.
pub open spec fn stat_word(w: Seq<char>) -> bool {
    w.len() > 0 && free_of(w, ' ') && free_of(w, ',') && free_of(w, '\n') && !is_ws(w.last())
}

proof fn lemma_stat_segment(n: u32, w: Seq<char>, p: Seq<char>)
    requires
        stat_word(w),
        p.len() > 0,
        p[0] != ' ' && !is_digit(p[0]),
    ensures
        segment_number(stat_segment(n, w)) == n,
        mentions(stat_segment(n, w), p) <==> mentions(w, p),
        free_of(stat_segment(n, w), ','),
        free_of(stat_segment(n, w), '\n'),
{
    let dec = decimal(n as nat);
    lemma_decimal(n as nat);
    lemma_parse_decimal(n);
    let seg = stat_segment(n, w);
    let pre = seq![' '] + dec + seq![' '];
    assert(seg =~= pre + w);
    assert forall|i: int| 0 <= i < pre.len() implies pre[i] != p[0] by {
        if 0 < i && i <= dec.len() {
            assert(pre[i] == dec[i - 1]);
        }
    }
    lemma_mentions_cat(pre, w, p);
    assert forall|i: int| 0 <= i < seg.len() implies seg[i] != ',' && seg[i] != '\n' by {
        if 0 < i && i <= dec.len() {
            assert(seg[i] == dec[i - 1]);
            assert(is_digit(dec[i - 1]));
        } else if i > dec.len() + 1 {
            assert(seg[i] == w[i - dec.len() - 2]);
        }
    }
    // trimming drops the leading space and nothing else
    let body = dec + seq![' '] + w;
    assert(seg.drop_first() =~= body);
    assert(is_ws(' '));
    assert(trim_start(seg) == trim_start(body));
    assert(body[0] == dec[0] && is_digit(dec[0]));
    assert(!is_ws(body[0]));
    assert(trim_start(body) == body);
    assert(body.last() == w.last());
    assert(trim_end(body) == body);
    assert(trim(seg) == body);
    assert forall|i: int| 0 <= i < dec.len() implies dec[i] != ' ' by {
        assert(is_digit(dec[i]));
    }
    lemma_split_cons(dec, w, ' ');
}

proof fn lemma_segment_plain(n: u32, w: Seq<char>)
    requires
        stat_word(w),
        free_of(w, '\x01'),
    ensures
        free_of(stat_segment(n, w), '\x01'),
{
    let dec = decimal(n as nat);
    lemma_decimal(n as nat);
    let seg = stat_segment(n, w);
    assert forall|i: int| 0 <= i < seg.len() implies seg[i] != '\x01' by {
        if 0 < i && i <= dec.len() {
            assert(seg[i] == dec[i - 1]);
            assert(is_digit(dec[i - 1]));
        } else if i > dec.len() + 1 {
            assert(seg[i] == w[i - dec.len() - 2]);
        }
    }
}

proof fn lemma_one_record(head: Seq<char>, stat: Seq<char>)
    requires
        free_of(head, '\n') && free_of(head, '\x01'),
        head.len() > 0 && head.last() != '\r',
        free_of(stat, '\n') && free_of(stat, '\x01'),
        stat.len() > 0,
    ensures
        lines_of(head + seq!['\n'] + stat) == seq![head, stat],
        log_spec(seq!['\x01'] + head + seq!['\n'] + stat) == match commit_of_record(
            head + seq!['\n'] + stat,
        ) {
            Some(c) => seq![c],
            None => Seq::<CommitV>::empty(),
        },
{
    let rec = head + seq!['\n'] + stat;
    lemma_free_join(head, stat, '\n', '\x01');
    let e = Seq::<char>::empty();
    assert(e + seq!['\x01'] + rec =~= seq!['\x01'] + rec);
    assert(seq!['\x01'] + head + seq!['\n'] + stat =~= seq!['\x01'] + rec);
    lemma_split_cons(e, rec, '\x01');
    lemma_split_single(rec, '\x01');
    assert(split_on(seq!['\x01'] + rec, '\x01') =~= seq![e, rec]);
    lemma_split_cons(head, stat, '\n');
    lemma_split_single(stat, '\n');
    assert(split_on(rec, '\n') =~= seq![head, stat]);
    assert(strip_cr(head) == head);
    assert(seq![head, stat].drop_last().map_values(|p: Seq<char>| strip_cr(p)) =~= seq![head]);
    assert(lines_of(rec) =~= seq![head, stat]);
    assert(rec.len() > 0);
    assert(seq![e, rec].drop_first() =~= seq![rec]);
    assert(seq![rec].drop_first() =~= Seq::<Seq<char>>::empty());
    assert(log_spec(seq!['\x01'] + rec) == commits_from(seq![e, rec]));
    assert(commits_from(seq![e, rec]) == commits_from(seq![rec]));
    match commit_of_record(rec) {
        Some(c) => {
            assert(commits_from(seq![rec]) =~= seq![c] + commits_from(Seq::<Seq<char>>::empty()));
        },
        None => {
            assert(commits_from(seq![rec]) == commits_from(Seq::<Seq<char>>::empty()));
        },
    }
}

#[verifier::spinoff_prover]
#[verifier::rlimit(40)]
proof fn lemma_counts(
    changed: Seq<char>,
    adds: u32,
    add_word: Seq<char>,
    dels: u32,
    del_word: Seq<char>,
)
    requires
        mentions(changed, lit_changed()),
        !mentions(changed, lit_insertion()) && !mentions(changed, lit_deletion()),
        free_of(changed, ','),
        stat_word(add_word) && mentions(add_word, lit_insertion()),
        stat_word(del_word) && mentions(del_word, lit_deletion()) && !mentions(del_word, lit_insertion()),
    ensures
        ({
            let stat = changed + seq![','] + stat_segment(adds, add_word) + seq![','] + stat_segment(
                dels,
                del_word,
            );
            shortstat(seq![stat]) == (adds, dels)
        }),
{
    let ins = stat_segment(adds, add_word);
    let del = stat_segment(dels, del_word);
    lemma_stat_segment(adds, add_word, lit_insertion());
    lemma_stat_segment(dels, del_word, lit_insertion());
    lemma_stat_segment(dels, del_word, lit_deletion());
    let stat = changed + seq![','] + ins + seq![','] + del;
    lemma_split_cons(changed, ins + seq![','] + del, ',');
    lemma_split_cons(ins, del, ',');
    lemma_split_single(del, ',');
    assert(stat =~= changed + seq![','] + (ins + seq![','] + del));
    let segs = seq![changed, ins, del];
    assert(split_on(stat, ',') =~= segs);
    lemma_mentions_prefix(changed, seq![','] + ins + seq![','] + del, lit_changed());
    assert(changed + (seq![','] + ins + seq![','] + del) =~= stat);
    lemma_mentions_first(stat, lit_changed());
    lemma_mentions_first(changed, lit_insertion());
    lemma_mentions_first(changed, lit_deletion());
    lemma_mentions_first(ins, lit_insertion());
    lemma_mentions_first(del, lit_insertion());
    lemma_mentions_first(del, lit_deletion());
    assert(seq![stat].drop_last() =~= Seq::<Seq<char>>::empty());
    assert(segs.drop_last() =~= seq![changed, ins]);
    assert(seq![changed, ins].drop_last() =~= seq![changed]);
    assert(seq![changed].drop_last() =~= Seq::<Seq<char>>::empty());
    assert(stat_segments(Seq::<Seq<char>>::empty(), (0u32, 0u32)) == (0u32, 0u32));
    assert(seq![changed].last() == changed);
    assert(first_occ(changed, lit_insertion()) < 0 && first_occ(changed, lit_deletion()) < 0);
    assert(stat_segments(seq![changed], (0u32, 0u32)) == (0u32, 0u32));
    assert(seq![changed, ins].last() == ins);
    assert(first_occ(ins, lit_insertion()) >= 0);
    assert(stat_segments(seq![changed, ins], (0u32, 0u32)) == (adds, 0u32));
    assert(segs.last() == del);
    assert(first_occ(del, lit_insertion()) < 0 && first_occ(del, lit_deletion()) >= 0);
    assert(stat_segments(segs, (0u32, 0u32)) == (adds, dels));
    assert(shortstat(Seq::<Seq<char>>::empty()) == (0u32, 0u32));
    assert(seq![stat].last() == stat);
    assert(first_occ(stat, lit_changed()) >= 0);
    assert(shortstat(seq![stat]) == stat_segments(segs, (0u32, 0u32)));
}

/// A commit's line counts come from its shortstat line: a line with
/// ` changed` whose other segments say `n insertion...` and `m deletion...`
/// gives `n` added and `m` deleted lines, whatever the head line holds.
pub proof fn law_log_line_counts(
    head: Seq<char>,
    changed: Seq<char>,
    adds: u32,
    add_word: Seq<char>,
    dels: u32,
    del_word: Seq<char>,
)
    requires
        free_of(head, '\n') && free_of(head, '\x01'),
        head.len() > 0 && head.last() != '\r',
        fields(head, '\0', 8).len() == 8,
        mentions(changed, lit_changed()),
        !mentions(changed, lit_insertion()) && !mentions(changed, lit_deletion()),
        free_of(changed, ',') && free_of(changed, '\n') && free_of(changed, '\x01'),
        stat_word(add_word) && free_of(add_word, '\x01') && mentions(add_word, lit_insertion()),
        stat_word(del_word) && free_of(del_word, '\x01') && mentions(del_word, lit_deletion())
            && !mentions(del_word, lit_insertion()),
    ensures
        ({
            let stat = changed + seq![','] + stat_segment(adds, add_word) + seq![','] + stat_segment(
                dels,
                del_word,
            );
            let cs = log_spec(seq!['\x01'] + head + seq!['\n'] + stat);
            cs.len() == 1 && cs[0].additions == adds && cs[0].deletions == dels
        }),
{
    let ins = stat_segment(adds, add_word);
    let del = stat_segment(dels, del_word);
    lemma_stat_segment(adds, add_word, lit_insertion());
    lemma_stat_segment(dels, del_word, lit_insertion());
    lemma_segment_plain(adds, add_word);
    lemma_segment_plain(dels, del_word);
    lemma_free_join(ins, del, ',', '\n');
    lemma_free_join(ins, del, ',', '\x01');
    lemma_free_join(changed, ins + seq![','] + del, ',', '\n');
    lemma_free_join(changed, ins + seq![','] + del, ',', '\x01');
    let stat = changed + seq![','] + ins + seq![','] + del;
    assert(stat =~= changed + seq![','] + (ins + seq![','] + del));
    lemma_counts(changed, adds, add_word, dels, del_word);
    lemma_one_record(head, stat);
    let rec = head + seq!['\n'] + stat;
    assert(lines_of(rec).drop_first() =~= seq![stat]);
    assert(lines_of(rec)[0] == head);
}

/// The commit `c` is what record `b` says: the record's first line has
/// eight NUL-separated columns, and `c`'s hash, short hash, author, e-mail,
/// date and subject are its first, second, third, fourth, fifth and seventh
/// columns, its parents the words of the sixth.
pub open spec fn record_says(b: Seq<char>, c: CommitV) -> bool {
    let ls = lines_of(b);
    let cols = fields(ls[0], '\0', 8);
    &&& ls.len() > 0
    &&& cols.len() == 8
    &&& c.hash == cols[0]
    &&& c.short_hash == cols[1]
    &&& c.author == cols[2]
    &&& c.email == cols[3]
    &&& c.date == cols[4]
    &&& c.parents == words(cols[5])
    &&& c.subject == cols[6]
}

/// Every commit is what its own record says, and every record whose first
/// line has eight columns gives a commit.
#[verifier::spinoff_prover]
pub proof fn law_log_records(records: Seq<Seq<char>>)
    ensures
        forall|j: int|
            0 <= j < commits_from(records).len() ==> exists|k: int|
                0 <= k < records.len() && record_says(records[k], #[trigger] commits_from(records)[j]),
        forall|k: int|
            0 <= k < records.len() && lines_of(#[trigger] records[k]).len() > 0 && fields(
                lines_of(records[k])[0],
                '\0',
                8,
            ).len() == 8 ==> exists|j: int|
                0 <= j < commits_from(records).len() && record_says(records[k], commits_from(records)[j]),
    decreases records.len(),
{
    if records.len() > 0 {
        let rest = records.drop_first();
        law_log_records(rest);
        let r = commits_from(rest);
        let all = commits_from(records);
        let b = records[0];
        let some = b.len() > 0 && commit_of_record(b) is Some;
        if some {
            assert(all == seq![commit_of_record(b)->0] + r);
            assert(record_says(b, all[0]));
        } else {
            assert(all == r);
        }
        assert forall|j: int| 0 <= j < all.len() implies exists|k: int|
            0 <= k < records.len() && record_says(records[k], #[trigger] all[j]) by {
            if some && j == 0 {
                assert(record_says(records[0], all[0]));
            } else {
                let q = if some {
                    j - 1
                } else {
                    j
                };
                assert(all[j] == r[q]);
                let k = choose|k: int| 0 <= k < rest.len() && record_says(rest[k], r[q]);
                assert(records[k + 1] == rest[k]);
            }
        }
        assert forall|k: int|
            0 <= k < records.len() && lines_of(#[trigger] records[k]).len() > 0 && fields(
                lines_of(records[k])[0],
                '\0',
                8,
            ).len() == 8 implies exists|j: int|
            0 <= j < all.len() && record_says(records[k], all[j]) by {
            if k == 0 {
                if b.len() == 0 {
                    assert(lines_of(b) =~= Seq::<Seq<char>>::empty()) by {
                        assert(split_on(b, '\n') =~= seq![Seq::<char>::empty()]);
                    }
                }
                assert(some);
                assert(record_says(b, all[0]));
            } else {
                assert(rest[k - 1] == records[k]);
                let j = choose|j: int| 0 <= j < r.len() && record_says(rest[k - 1], r[j]);
                if some {
                    assert(all[j + 1] == r[j]);
                    assert(record_says(records[k], all[j + 1]));
                } else {
                    assert(record_says(records[k], all[j]));
                }
            }
        }
    }
}

fn segment_number_of(seg: &Vec<char>) -> (n: u32)
    ensures
        n == segment_number(seg@),
{
    let t = crate::text::trim_vec(seg);
    let pieces = split_chars(&t, ' ');
    proof {
        crate::text::lemma_split_on_len(t@, ' ');
    }
    assert(views(pieces@)[0] == pieces@[0]@);
    match crate::text::parse_u32_vec(&pieces[0]) {
        Some(n) => n,
        None => 0,
    }
}

fn shortstat_of(ls: &Vec<Vec<char>>, from: usize) -> (r: (u32, u32))
    requires
        from <= ls.len(),
    ensures
        r == shortstat(views(ls@).skip(from as int)),
{
    let ghost lv = views(ls@).skip(from as int);
    let changed = vec![' ', 'c', 'h', 'a', 'n', 'g', 'e', 'd'];
    let ins = vec!['i', 'n', 's', 'e', 'r', 't', 'i', 'o', 'n'];
    let del = vec!['d', 'e', 'l', 'e', 't', 'i', 'o', 'n'];
    let mut acc: (u32, u32) = (0, 0);
    let mut i = from;
    assert(lv.take(0) =~= Seq::<Seq<char>>::empty());
    while i < ls.len()
        invariant
            from <= i <= ls.len(),
            lv == views(ls@).skip(from as int),
            changed@ == lit_changed(),
            ins@ == lit_insertion(),
            del@ == lit_deletion(),
            acc == shortstat(lv.take(i - from)),
        decreases ls.len() - i,
    {
        let l = &ls[i];
        assert(lv.take(i - from + 1).drop_last() =~= lv.take(i - from));
        assert(lv.take(i - from + 1).last() == l@);
        assert(l@.subrange(0, l@.len() as int) =~= l@);
        if range_contains(l, 0, l.len(), &changed) {
            let segs = split_chars(l, ',');
            let ghost sv = views(segs@);
            let ghost acc0 = acc;
            let mut j: usize = 0;
            assert(sv.take(0) =~= Seq::<Seq<char>>::empty());
            while j < segs.len()
                invariant
                    0 <= j <= segs.len(),
                    sv == views(segs@),
                    ins@ == lit_insertion(),
                    del@ == lit_deletion(),
                    acc == stat_segments(sv.take(j as int), acc0),
                decreases segs.len() - j,
            {
                let seg = &segs[j];
                assert(sv.take(j as int + 1).drop_last() =~= sv.take(j as int));
                assert(sv.take(j as int + 1).last() == seg@);
                assert(seg@.subrange(0, seg@.len() as int) =~= seg@);
                if range_contains(seg, 0, seg.len(), &ins) {
                    acc = (segment_number_of(seg), acc.1);
                } else if range_contains(seg, 0, seg.len(), &del) {
                    acc = (acc.0, segment_number_of(seg));
                }
                j += 1;
            }
            assert(sv.take(segs.len() as int) =~= sv);
        }
        i += 1;
    }
    assert(lv.take(ls.len() - from) =~= lv);
    acc
}

fn commit_of(b: &Vec<char>) -> (r: Option<CommitInfo>)
    ensures
        match r {
            Some(c) => commit_of_record(b@) == Some(c@),
            None => commit_of_record(b@) is None,
        },
{
    let ls = lines(b);
    if ls.len() == 0 {
        return None;
    }
    let cols = split_n(&ls[0], '\0', 8);
    if cols.len() != 8 {
        return None;
    }
    let ghost cv = views(cols@);
    let (a, d) = shortstat_of(&ls, 1);
    assert(views(ls@).skip(1) =~= views(ls@).drop_first());
    let parents = split_words(&cols[5]);
    let refs = parse_decorations(string_of(&cols[7]).as_str());
    let c = CommitInfo {
        hash: string_of(&cols[0]),
        short_hash: string_of(&cols[1]),
        author: string_of(&cols[2]),
        email: string_of(&cols[3]),
        date: string_of(&cols[4]),
        subject: string_of(&cols[6]),
        additions: a,
        deletions: d,
        parents,
        refs,
    };
    assert(cv[0] == cols@[0]@ && cv[1] == cols@[1]@ && cv[2] == cols@[2]@ && cv[3] == cols@[3]@
        && cv[4] == cols@[4]@ && cv[5] == cols@[5]@ && cv[6] == cols@[6]@ && cv[7] == cols@[7]@);
    Some(c)
}

/// Parses `git log --shortstat --pretty=format:%x01%H%x00%h%x00%an%x00%ae%x00%ad%x00%P%x00%s%x00%D`
/// output into commits (see `commit_of_record`): parents split at
/// whitespace, decorations cleaned of `HEAD -> ` and `tag: `.
pub fn parse_log(out: &str) -> (r: Vec<CommitInfo>)
    ensures
        commit_views(r@) == log_spec(out@),
{
    let v = chars_of(out);
    let records = split_chars(&v, '\x01');
    let ghost rv = views(records@);
    let mut r: Vec<CommitInfo> = Vec::new();
    let mut i: usize = 0;
    assert(rv.skip(0) =~= rv);
    while i < records.len()
        invariant
            0 <= i <= records.len(),
            rv == views(records@),
            rv == split_on(out@, '\x01'),
            commit_views(r@) + commits_from(rv.skip(i as int)) == log_spec(out@),
        decreases records.len() - i,
    {
        let ghost t = rv.skip(i as int);
        assert(t[0] == records@[i as int]@);
        assert(t.drop_first() =~= rv.skip(i as int + 1));
        let rec = &records[i];
        if rec.len() > 0 {
            match commit_of(rec) {
                Some(c) => {
                    let ghost before = commit_views(r@);
                    r.push(c);
                    assert(commit_views(r@) =~= before.push(c@));
                    assert(before.push(c@) + commits_from(rv.skip(i as int + 1)) =~= before + (seq![
                        c@,
                    ] + commits_from(rv.skip(i as int + 1))));
                },
                None => {},
            }
        }
        i += 1;
    }
    assert(commit_views(r@) + seq![] =~= commit_views(r@));
    r
}

/// The view of an `AuthorInfo`: (name, email, commits).
pub open spec fn author_view(a: AuthorInfo) -> (Seq<char>, Seq<char>, u32) {
    (a.name@, a.email@, a.commits)
}

/// The views of a sequence of authors.
pub open spec fn author_views(s: Seq<AuthorInfo>) -> Seq<(Seq<char>, Seq<char>, u32)> {
    s.map_values(|a: AuthorInfo| author_view(a))
}

/// The author of one `git shortlog -sne` line `  12\tName <email>`:
/// the trimmed line cut at its first tab into a count (0 when it does not
/// parse) and `Name <email>`, split at the last ` <`; without ` <` the whole
/// rest is the name and the email is empty. None for a line without a tab.
pub open spec fn author_of_line(l: Seq<char>) -> Option<(Seq<char>, Seq<char>, u32)> {
    let t = trim(l);
    let k = first_occ(t, seq!['\t']);
    if k < 0 {
        None
    } else {
        let commits = match parse_u32_spec(trim(t.take(k))) {
            Some(n) => n,
            None => 0,
        };
        let rest = t.skip(k + 1);
        let m = last_occ(rest, seq![' ', '<']);
        if m >= 0 {
            Some((trim(rest.take(m)), strip_trailing(rest.skip(m + 2), '>'), commits))
        } else {
            Some((trim(rest), Seq::<char>::empty(), commits))
        }
    }
}

/// The authors of `git shortlog -sne` lines, in order.
pub open spec fn authors_from(ls: Seq<Seq<char>>) -> Seq<(Seq<char>, Seq<char>, u32)>
    decreases ls.len(),
{
    if ls.len() == 0 {
        seq![]
    } else {
        match author_of_line(ls[0]) {
            Some(a) => seq![a] + authors_from(ls.drop_first()),
            None => authors_from(ls.drop_first()),
        }
    }
}

fn author_of(l: &Vec<char>) -> (r: Option<AuthorInfo>)
    ensures
        match r {
            Some(a) => author_of_line(l@) == Some(author_view(a)),
            None => author_of_line(l@) is None,
        },
{
    let t = crate::text::trim_vec(l);
    let n = t.len();
    assert(t@.subrange(0, n as int) =~= t@);
    let k = match find_char(&t, 0, n, '\t') {
        Some(k) => k,
        None => return None,
    };
    let (clo, chi) = trim_range(&t, 0, k);
    assert(t@.take(k as int) =~= t@.subrange(0, k as int));
    let commits = match parse_u32_range(&t, clo, chi) {
        Some(c) => c,
        None => 0,
    };
    let ghost rest = t@.skip(k + 1);
    assert(rest =~= t@.subrange(k + 1, n as int));
    let lt = vec![' ', '<'];
    match rfind_in(&t, k + 1, n, &lt) {
        Some(m) => {
            let (nlo, nhi) = trim_range(&t, k + 1, m);
            assert(rest.take(m - (k + 1)) =~= t@.subrange(k + 1, m as int));
            assert(rest.skip(m - (k + 1) + 2) =~= t@.subrange(m + 2, n as int));
            let a = AuthorInfo {
                name: string_from(&t, nlo, nhi),
                email: string_from(&t, m + 2, trailing_end(&t, m + 2, n, '>')),
                commits,
            };
            Some(a)
        },
        None => {
            let (nlo, nhi) = trim_range(&t, k + 1, n);
            Some(AuthorInfo { name: string_from(&t, nlo, nhi), email: String::new(), commits })
        },
    }
}

fn trailing_end(v: &Vec<char>, a: usize, b: usize, c: char) -> (r: usize)
    requires
        a <= b <= v.len(),
    ensures
        a <= r <= b,
        v@.subrange(a as int, r as int) == strip_trailing(v@.subrange(a as int, b as int), c),
{
    let mut j = b;
    while j > a && v[j - 1] == c
        invariant
            a <= j <= b <= v.len(),
            strip_trailing(v@.subrange(a as int, j as int), c) == strip_trailing(
                v@.subrange(a as int, b as int),
                c,
            ),
        decreases j - a,
    {
        assert(v@.subrange(a as int, j as int).drop_last() =~= v@.subrange(a as int, j - 1));
        j -= 1;
    }
    j
}

/// Parses `git shortlog -sne` output (`  12\tName <email>` per line) into
/// authors with their commit counts (see `author_of_line`).
pub fn parse_authors(out: &str) -> (r: Vec<AuthorInfo>)
    ensures
        author_views(r@) == authors_from(lines_of(out@)),
{
    let v = chars_of(out);
    let ls = lines(&v);
    let ghost lv = views(ls@);
    let mut r: Vec<AuthorInfo> = Vec::new();
    let mut i: usize = 0;
    assert(lv.skip(0) =~= lv);
    while i < ls.len()
        invariant
            0 <= i <= ls.len(),
            lv == views(ls@),
            lv == lines_of(out@),
            author_views(r@) + authors_from(lv.skip(i as int)) == authors_from(lines_of(out@)),
        decreases ls.len() - i,
    {
        assert(lv.skip(i as int)[0] == ls@[i as int]@);
        assert(lv.skip(i as int).drop_first() =~= lv.skip(i as int + 1));
        let ghost before = author_views(r@);
        match author_of(&ls[i]) {
            Some(a) => {
                r.push(a);
                assert(author_views(r@) =~= before.push(author_view(a)));
                assert(before.push(author_view(a)) + authors_from(lv.skip(i as int + 1)) =~= before
                    + (seq![author_view(a)] + authors_from(lv.skip(i as int + 1))));
            },
            None => {},
        }
        i += 1;
    }
    assert(author_views(r@) + seq![] =~= author_views(r@));
    r
}

/// The view of a `StashInfo`.
pub struct StashV {
    pub index: u32,
    pub message: Seq<char>,
    pub date: Seq<char>,
    pub hash: Seq<char>,
    pub untracked_hash: Option<Seq<char>>,
}

impl View for StashInfo {
    type V = StashV;

    open spec fn view(&self) -> StashV {
        StashV {
            index: self.index,
            message: self.message@,
            date: self.date@,
            hash: self.hash@,
            untracked_hash: opt_view(self.untracked_hash),
        }
    }
}

/// The views of a sequence of stash entries.
pub open spec fn stash_views(s: Seq<StashInfo>) -> Seq<StashV> {
    s.map_values(|x: StashInfo| x@)
}

/// The stash entry of line number `i` of `git stash list
/// --format=%H%x00%P%x00%ad%x00%gs`: hash, parents (the third one, when
/// there is one, holds the untracked files), date and message. None for a
/// line with fewer than four NUL-separated columns.
pub open spec fn stash_of_line(l: Seq<char>, i: int) -> Option<StashV> {
    let cols = split_on(l, '\0');
    if cols.len() < 4 {
        None
    } else {
        let ps = split_on(cols[1], ' ');
        Some(
            StashV {
                index: i as u32,
                message: cols[3],
                date: cols[2],
                hash: cols[0],
                untracked_hash: if ps.len() > 2 {
                    Some(ps[2])
                } else {
                    None
                },
            },
        )
    }
}

/// The stash entries of the lines `ls`, the first being line number `i`;
/// the index of an entry is its line number, truncated to `u32`.
pub open spec fn stashes_from(ls: Seq<Seq<char>>, i: int) -> Seq<StashV>
    decreases ls.len(),
{
    if ls.len() == 0 {
        seq![]
    } else {
        match stash_of_line(ls[0], i) {
            Some(x) => seq![x] + stashes_from(ls.drop_first(), i + 1),
            None => stashes_from(ls.drop_first(), i + 1),
        }
    }
}

proof fn lemma_stash_line(hash: Seq<char>, parents: Seq<char>, date: Seq<char>, message: Seq<char>)
    requires
        plain_column(hash),
        plain_column(parents),
        plain_column(date),
        plain_column(message),
        free_of(message, '\r'),
    ensures
        ({
            let line = nul_then(hash, nul_then(parents, nul_then(date, message)));
            &&& lines_of(line + seq!['\n']) == seq![line]
            &&& split_on(line, '\0') == seq![hash, parents, date, message]
        }),
{
    let c3 = nul_then(date, message);
    let c2 = nul_then(parents, c3);
    let line = nul_then(hash, c2);
    lemma_join_plain(date, message);
    lemma_join_plain(parents, c3);
    lemma_join_plain(hash, c2);
    lemma_split_cons(line, Seq::<char>::empty(), '\n');
    lemma_split_single(line, '\n');
    lemma_split_single(Seq::<char>::empty(), '\n');
    assert(line + seq!['\n'] + Seq::<char>::empty() =~= line + seq!['\n']);
    let parts = split_on(line + seq!['\n'], '\n');
    assert(parts =~= seq![line, Seq::<char>::empty()]);
    assert(line.len() > 0 && line.last() != '\r') by {
        assert(line[hash.len() as int] == '\0');
        if message.len() > 0 {
            assert(line.last() == message.last());
        } else {
            assert(line.last() == '\0');
        }
    }
    assert(parts.drop_last().map_values(|p: Seq<char>| strip_cr(p)) =~= seq![line]);
    lemma_split_cons(hash, c2, '\0');
    lemma_split_cons(parents, c3, '\0');
    lemma_split_cons(date, message, '\0');
    lemma_split_single(message, '\0');
    assert(split_on(line, '\0') =~= seq![hash, parents, date, message]);
}

/// A stash list line `hash NUL parents NUL date NUL message`
/// (`%H%x00%P%x00%ad%x00%gs`) reads as one entry, number 0, with the hash
/// from the first column, the date from the third and the message from the
/// fourth; with a single parent word there is no untracked-files commit.
pub proof fn law_stash_line_columns(hash: Seq<char>, parents: Seq<char>, date: Seq<char>, message: Seq<char>)
    requires
        plain_column(hash),
        plain_column(parents),
        plain_column(date),
        plain_column(message),
        free_of(message, '\r'),
    ensures
        ({
            let out = nul_then(hash, nul_then(parents, nul_then(date, message))) + seq!['\n'];
            let s = stashes_from(lines_of(out), 0);
            &&& s.len() == 1
            &&& s[0].index == 0
            &&& s[0].hash == hash
            &&& s[0].date == date
            &&& s[0].message == message
            &&& (free_of(parents, ' ') ==> s[0].untracked_hash is None)
        }),
{
    lemma_stash_line(hash, parents, date, message);
    let line = nul_then(hash, nul_then(parents, nul_then(date, message)));
    if free_of(parents, ' ') {
        lemma_split_single(parents, ' ');
    }
    assert(seq![line].drop_first() =~= Seq::<Seq<char>>::empty());
    let x = stash_of_line(line, 0)->0;
    assert(stashes_from(seq![line], 0) == seq![x] + stashes_from(Seq::<Seq<char>>::empty(), 1));
    assert(stashes_from(seq![line], 0) =~= seq![x]);
}

/// The untracked-files commit of a stash is its third parent: with parents
/// `base index untracked` the entry names `untracked`.
pub proof fn law_stash_untracked_parent(
    hash: Seq<char>,
    base: Seq<char>,
    index: Seq<char>,
    untracked: Seq<char>,
    date: Seq<char>,
    message: Seq<char>,
)
    requires
        plain_column(hash),
        plain_column(base) && free_of(base, ' '),
        plain_column(index) && free_of(index, ' '),
        plain_column(untracked) && free_of(untracked, ' '),
        plain_column(date),
        plain_column(message),
        free_of(message, '\r'),
    ensures
        ({
            let parents = base + seq![' '] + index + seq![' '] + untracked;
            let out = nul_then(hash, nul_then(parents, nul_then(date, message))) + seq!['\n'];
            let s = stashes_from(lines_of(out), 0);
            s.len() == 1 && s[0].untracked_hash == Some(untracked)
        }),
{
    let tail = index + seq![' '] + untracked;
    let parents = base + seq![' '] + tail;
    assert(parents =~= base + seq![' '] + index + seq![' '] + untracked);
    lemma_free_join(index, untracked, ' ', '\0');
    lemma_free_join(index, untracked, ' ', '\n');
    lemma_free_join(index, untracked, ' ', '\x01');
    lemma_free_join(base, tail, ' ', '\0');
    lemma_free_join(base, tail, ' ', '\n');
    lemma_free_join(base, tail, ' ', '\x01');
    lemma_stash_line(hash, parents, date, message);
    lemma_split_cons(base, tail, ' ');
    lemma_split_cons(index, untracked, ' ');
    lemma_split_single(untracked, ' ');
    assert(split_on(parents, ' ') =~= seq![base, index, untracked]);
    let line = nul_then(hash, nul_then(parents, nul_then(date, message)));
    assert(seq![line].drop_first() =~= Seq::<Seq<char>>::empty());
    let x = stash_of_line(line, 0)->0;
    assert(stashes_from(seq![line], 0) == seq![x] + stashes_from(Seq::<Seq<char>>::empty(), 1));
    assert(stashes_from(seq![line], 0) =~= seq![x]);
}

/// The entry `e` is what line `l`, line number `n` of the list, says: the
/// line has at least four NUL-separated columns, `e` is numbered `n`, its
/// hash, date and message are the first, third and fourth columns, and its
/// untracked-files commit is the third space-separated word of the second
/// column, when there is one.
pub open spec fn stash_says(l: Seq<char>, n: int, e: StashV) -> bool {
    let cols = split_on(l, '\0');
    let ps = split_on(cols[1], ' ');
    &&& cols.len() >= 4
    &&& e.index == n as u32
    &&& e.hash == cols[0]
    &&& e.date == cols[2]
    &&& e.message == cols[3]
    &&& e.untracked_hash == (if ps.len() > 2 {
        Some(ps[2])
    } else {
        None
    })
}

/// Every stash entry is what its own line says, numbered by that line's
/// place in the list (lines too short to be entries still count), and every
/// line with four columns gives an entry.
#[verifier::spinoff_prover]
#[verifier::rlimit(40)]
pub proof fn law_stash_entries(ls: Seq<Seq<char>>, i: int)
    ensures
        forall|j: int|
            0 <= j < stashes_from(ls, i).len() ==> exists|k: int|
                0 <= k < ls.len() && stash_says(ls[k], i + k, #[trigger] stashes_from(ls, i)[j]),
        forall|k: int|
            0 <= k < ls.len() && split_on(#[trigger] ls[k], '\0').len() >= 4 ==> exists|j: int|
                0 <= j < stashes_from(ls, i).len() && stash_says(ls[k], i + k, stashes_from(ls, i)[j]),
    decreases ls.len(),
{
    if ls.len() > 0 {
        let rest = ls.drop_first();
        law_stash_entries(rest, i + 1);
        let r = stashes_from(rest, i + 1);
        let all = stashes_from(ls, i);
        let head = stash_of_line(ls[0], i);
        assert forall|j: int| 0 <= j < all.len() implies exists|k: int|
            0 <= k < ls.len() && stash_says(ls[k], i + k, #[trigger] all[j]) by {
            if head is Some && j == 0 {
                assert(stash_says(ls[0], i + 0, all[0]));
            } else {
                let q = if head is Some {
                    j - 1
                } else {
                    j
                };
                assert(all[j] == r[q]);
                let k = choose|k: int| 0 <= k < rest.len() && stash_says(rest[k], i + 1 + k, r[q]);
                assert(ls[k + 1] == rest[k]);
                assert(stash_says(ls[k + 1], i + (k + 1), all[j]));
            }
        }
        assert forall|k: int| 0 <= k < ls.len() && split_on(#[trigger] ls[k], '\0').len() >= 4 implies exists|
            j: int,
        | 0 <= j < all.len() && stash_says(ls[k], i + k, all[j]) by {
            if k == 0 {
                assert(stash_says(ls[0], i, all[0]));
            } else {
                assert(rest[k - 1] == ls[k]);
                let j = choose|j: int| 0 <= j < r.len() && stash_says(rest[k - 1], i + 1 + (k - 1), r[j]);
                if head is Some {
                    assert(all[j + 1] == r[j]);
                    assert(stash_says(ls[k], i + k, all[j + 1]));
                } else {
                    assert(all[j] == r[j]);
                    assert(stash_says(ls[k], i + k, all[j]));
                }
            }
        }
    }
}

/// The stash entries come in the order of their lines, at most one per
/// line: numbered from `i` on, each below `i` plus the number of lines, and
/// strictly increasing.
#[verifier::spinoff_prover]
pub proof fn law_stash_order(ls: Seq<Seq<char>>, i: int)
    requires
        0 <= i,
        i + ls.len() <= u32::MAX,
    ensures
        stashes_from(ls, i).len() <= ls.len(),
        forall|j: int|
            0 <= j < stashes_from(ls, i).len() ==> i <= (#[trigger] stashes_from(ls, i)[j]).index < i
                + ls.len(),
        forall|j1: int, j2: int|
            0 <= j1 < j2 < stashes_from(ls, i).len() ==> (#[trigger] stashes_from(ls, i)[j1]).index
                < (#[trigger] stashes_from(ls, i)[j2]).index,
    decreases ls.len(),
{
    if ls.len() > 0 {
        let rest = ls.drop_first();
        law_stash_order(rest, i + 1);
        let r = stashes_from(rest, i + 1);
        let all = stashes_from(ls, i);
        match stash_of_line(ls[0], i) {
            Some(x) => {
                assert(x.index == i as u32);
                assert(all == seq![x] + r);
                assert forall|j: int| 0 <= j < all.len() implies i <= (#[trigger] all[j]).index < i
                    + ls.len() by {
                    if j > 0 {
                        assert(all[j] == r[j - 1]);
                    }
                }
                assert forall|j1: int, j2: int| 0 <= j1 < j2 < all.len() implies (
                #[trigger] all[j1]).index < (#[trigger] all[j2]).index by {
                    assert(all[j2] == r[j2 - 1]);
                    if j1 > 0 {
                        assert(all[j1] == r[j1 - 1]);
                    }
                }
            },
            None => {
                assert(all == r);
            },
        }
    }
}

fn stash_of(l: &Vec<char>, i: usize) -> (r: Option<StashInfo>)
    ensures
        match r {
            Some(x) => stash_of_line(l@, i as int) == Some(x@),
            None => stash_of_line(l@, i as int) is None,
        },
{
    let cols = split_chars(l, '\0');
    if cols.len() < 4 {
        return None;
    }
    let ghost cv = views(cols@);
    let ps = split_chars(&cols[1], ' ');
    assert(cv[1] == cols@[1]@);
    let untracked_hash = if ps.len() > 2 {
        assert(views(ps@)[2] == ps@[2]@);
        Some(string_of(&ps[2]))
    } else {
        None
    };
    let x = StashInfo {
        index: i as u32,
        message: string_of(&cols[3]),
        date: string_of(&cols[2]),
        hash: string_of(&cols[0]),
        untracked_hash,
    };
    assert(cv[0] == cols@[0]@ && cv[2] == cols@[2]@ && cv[3] == cols@[3]@);
    Some(x)
}

/// Parses `git stash list --format=%H%x00%P%x00%ad%x00%gs` output into
/// stash entries, each indexed by its line number (see `stash_of_line`).
pub fn parse_stashes(out: &str) -> (r: Vec<StashInfo>)
    ensures
        stash_views(r@) == stashes_from(lines_of(out@), 0),
{
    let v = chars_of(out);
    let ls = lines(&v);
    let ghost lv = views(ls@);
    let mut r: Vec<StashInfo> = Vec::new();
    let mut i: usize = 0;
    assert(lv.skip(0) =~= lv);
    while i < ls.len()
        invariant
            0 <= i <= ls.len(),
            lv == views(ls@),
            lv == lines_of(out@),
            stash_views(r@) + stashes_from(lv.skip(i as int), i as int) == stashes_from(
                lines_of(out@),
                0,
            ),
        decreases ls.len() - i,
    {
        assert(lv.skip(i as int)[0] == ls@[i as int]@);
        assert(lv.skip(i as int).drop_first() =~= lv.skip(i as int + 1));
        let ghost before = stash_views(r@);
        match stash_of(&ls[i], i) {
            Some(x) => {
                r.push(x);
                assert(stash_views(r@) =~= before.push(x@));
                assert(before.push(x@) + stashes_from(lv.skip(i as int + 1), i + 1) =~= before + (
                seq![x@] + stashes_from(lv.skip(i as int + 1), i + 1)));
            },
            None => {},
        }
        i += 1;
    }
    assert(stash_views(r@) + seq![] =~= stash_views(r@));
    r
}

/// The view of a `BlameLine`.
pub struct BlameV {
    pub hash: Seq<char>,
    pub author: Seq<char>,
    pub time: i64,
    pub summary: Seq<char>,
    pub committed: bool,
}

impl View for BlameLine {
    type V = BlameV;

    open spec fn view(&self) -> BlameV {
        BlameV {
            hash: self.hash@,
            author: self.author@,
            time: self.time,
            summary: self.summary@,
            committed: self.committed,
        }
    }
}

/// The views of a sequence of blame lines.
pub open spec fn blame_views(s: Seq<BlameLine>) -> Seq<BlameV> {
    s.map_values(|b: BlameLine| b@)
}

/// An ASCII hexadecimal digit.
pub open spec fn is_hex(c: char) -> bool {
    let u = c as u32;
    (48 <= u && u <= 57) || (65 <= u && u <= 70) || (97 <= u && u <= 102)
}

/// A full commit hash: forty hexadecimal digits.
pub open spec fn is_full_hash(h: Seq<char>) -> bool {
    h.len() == 40 && forall|i: int| 0 <= i < h.len() ==> is_hex(#[trigger] h[i])
}

/// A hash made of zeros only: the mark of a line not yet committed.
pub open spec fn all_zeros(h: Seq<char>) -> bool {
    forall|i: int| 0 <= i < h.len() ==> #[trigger] h[i] == '0'
}

/// `author `.
pub open spec fn lit_author() -> Seq<char> {
    seq!['a', 'u', 't', 'h', 'o', 'r', ' ']
}

/// `author-time `.
pub open spec fn lit_author_time() -> Seq<char> {
    seq!['a', 'u', 't', 'h', 'o', 'r', '-', 't', 'i', 'm', 'e', ' ']
}

/// `summary `.
pub open spec fn lit_summary() -> Seq<char> {
    seq!['s', 'u', 'm', 'm', 'a', 'r', 'y', ' ']
}

/// A record after reading one header line into it: `author `,
/// `author-time ` (0 when the time does not parse, and always 0 for a line
/// not yet committed) or `summary `.
pub open spec fn blame_field(b: BlameV, l: Seq<char>) -> BlameV {
    if has_prefix(l, lit_author()) {
        BlameV { author: l.skip(7), ..b }
    } else if has_prefix(l, lit_author_time()) {
        BlameV {
            time: if !b.committed {
                0
            } else {
                match parse_i64_spec(l.skip(12)) {
                    Some(t) => t,
                    None => 0,
                }
            },
            ..b
        }
    } else if has_prefix(l, lit_summary()) {
        BlameV { summary: l.skip(8), ..b }
    } else {
        b
    }
}

/// The blamed lines of `--line-porcelain` lines, with `cur` the record
/// being read. Outside a record, a line whose first space-separated word is a
/// full hash opens one (committed unless the hash is all zeros); inside, the
/// header lines fill it; a tab-prefixed content line closes whatever record is
/// open. A record still open at the end is dropped.
pub open spec fn blame_from(ls: Seq<Seq<char>>, cur: Option<BlameV>) -> Seq<BlameV>
    decreases ls.len(),
{
    if ls.len() == 0 {
        seq![]
    } else {
        let l = ls[0];
        let rest = ls.drop_first();
        if has_prefix(l, seq!['\t']) {
            match cur {
                Some(b) => seq![b] + blame_from(rest, None),
                None => blame_from(rest, None),
            }
        } else {
            match cur {
                None => {
                    let h = split_on(l, ' ')[0];
                    if is_full_hash(h) {
                        blame_from(
                            rest,
                            Some(
                                BlameV {
                                    hash: h,
                                    author: Seq::<char>::empty(),
                                    time: 0,
                                    summary: Seq::<char>::empty(),
                                    committed: !all_zeros(h),
                                },
                            ),
                        )
                    } else {
                        blame_from(rest, None)
                    }
                },
                Some(b) => blame_from(rest, Some(blame_field(b, l))),
            }
        }
    }
}

/// A blame record is well formed: its hash is a full hash, it counts as
/// committed exactly when the hash is not all zeros, and a record not yet
/// committed has time 0.
pub open spec fn blame_ok(b: BlameV) -> bool {
    &&& is_full_hash(b.hash)
    &&& b.committed == !all_zeros(b.hash)
    &&& (!b.committed ==> b.time == 0)
}

proof fn lemma_blame_ok(ls: Seq<Seq<char>>, cur: Option<BlameV>)
    requires
        cur matches Some(b) ==> blame_ok(b),
    ensures
        forall|i: int| 0 <= i < blame_from(ls, cur).len() ==> blame_ok(#[trigger] blame_from(ls, cur)[i]),
    decreases ls.len(),
{
    if ls.len() > 0 {
        let l = ls[0];
        let rest = ls.drop_first();
        if has_prefix(l, seq!['\t']) {
            lemma_blame_ok(rest, None);
            match cur {
                Some(b) => {
                    let r = blame_from(rest, None);
                    assert(blame_from(ls, cur) == seq![b] + r);
                    assert forall|i: int| 0 <= i < blame_from(ls, cur).len() implies blame_ok(
                        #[trigger] blame_from(ls, cur)[i],
                    ) by {
                        if i > 0 {
                            assert(blame_from(ls, cur)[i] == r[i - 1]);
                        }
                    }
                },
                None => {
                    assert(blame_from(ls, cur) == blame_from(rest, None));
                },
            }
        } else {
            match cur {
                None => {
                    let h = split_on(l, ' ')[0];
                    if is_full_hash(h) {
                        let nb = BlameV {
                            hash: h,
                            author: Seq::<char>::empty(),
                            time: 0,
                            summary: Seq::<char>::empty(),
                            committed: !all_zeros(h),
                        };
                        assert(blame_ok(nb));
                        lemma_blame_ok(rest, Some(nb));
                        assert(blame_from(ls, cur) == blame_from(rest, Some(nb)));
                    } else {
                        lemma_blame_ok(rest, None);
                        assert(blame_from(ls, cur) == blame_from(rest, None));
                    }
                },
                Some(b) => {
                    let nb = blame_field(b, l);
                    assert(blame_ok(nb));
                    lemma_blame_ok(rest, Some(nb));
                    assert(blame_from(ls, cur) == blame_from(rest, Some(nb)));
                },
            }
        }
    }
}

/// Every line that blame reports has a full hash, is committed exactly when
/// its hash is not all zeros, and has time 0 when it is not committed yet.
pub proof fn law_blame_lines(text: Seq<char>)
    ensures
        forall|i: int|
            0 <= i < blame_from(lines_of(text), None).len() ==> blame_ok(
                #[trigger] blame_from(lines_of(text), None)[i],
            ),
{
    lemma_blame_ok(lines_of(text), None);
}

fn hash_kind(h: &Vec<char>) -> (r: (bool, bool))
    ensures
        r.0 == is_full_hash(h@),
        r.1 == all_zeros(h@),
{
    let mut hex = h.len() == 40;
    let mut zeros = true;
    let mut i: usize = 0;
    while i < h.len()
        invariant
            0 <= i <= h.len(),
            hex == (h@.len() == 40 && forall|j: int| 0 <= j < i ==> is_hex(#[trigger] h@[j])),
            zeros == (forall|j: int| 0 <= j < i ==> #[trigger] h@[j] == '0'),
        decreases h.len() - i,
    {
        let u = h[i] as u32;
        let x = (48 <= u && u <= 57) || (65 <= u && u <= 70) || (97 <= u && u <= 102);
        if !x {
            hex = false;
        }
        if h[i] != '0' {
            zeros = false;
        }
        i += 1;
    }
    (hex, zeros)
}

fn blame_field_of(b: BlameLine, l: &Vec<char>) -> (r: BlameLine)
    ensures
        r@ == blame_field(b@, l@),
{
    let n = l.len();
    assert(l@.subrange(0, n as int) =~= l@);
    let author = vec!['a', 'u', 't', 'h', 'o', 'r', ' '];
    let author_time = vec!['a', 'u', 't', 'h', 'o', 'r', '-', 't', 'i', 'm', 'e', ' '];
    let summary = vec!['s', 'u', 'm', 'm', 'a', 'r', 'y', ' '];
    if range_starts_with(l, 0, n, &author) {
        assert(l@.skip(7) =~= l@.subrange(7, n as int));
        BlameLine { author: string_from(l, 7, n), ..b }
    } else if range_starts_with(l, 0, n, &author_time) {
        assert(l@.skip(12) =~= l@.subrange(12, n as int));
        let t = if !b.committed {
            0
        } else {
            match parse_i64_range(l, 12, n) {
                Some(t) => t,
                None => 0,
            }
        };
        BlameLine { time: t, ..b }
    } else if range_starts_with(l, 0, n, &summary) {
        assert(l@.skip(8) =~= l@.subrange(8, n as int));
        BlameLine { summary: string_from(l, 8, n), ..b }
    } else {
        b
    }
}

/// Parses `git blame --line-porcelain` output into one record per line of
/// the file (see `blame_from`). A line that exists only in the worktree has
/// the all-zero hash, is not committed, and has time 0.
pub fn parse_blame(text: &str) -> (r: Vec<BlameLine>)
    ensures
        blame_views(r@) == blame_from(lines_of(text@), None),
{
    let v = chars_of(text);
    let ls = lines(&v);
    let ghost lv = views(ls@);
    let mut r: Vec<BlameLine> = Vec::new();
    let mut cur: Option<BlameLine> = None;
    let mut i: usize = 0;
    assert(lv.skip(0) =~= lv);
    while i < ls.len()
        invariant
            0 <= i <= ls.len(),
            lv == views(ls@),
            lv == lines_of(text@),
            blame_views(r@) + blame_from(
                lv.skip(i as int),
                match cur {
                    Some(b) => Some(b@),
                    None => None,
                },
            ) == blame_from(lines_of(text@), None),
        decreases ls.len() - i,
    {
        let l = &ls[i];
        assert(lv.skip(i as int)[0] == l@);
        assert(lv.skip(i as int).drop_first() =~= lv.skip(i as int + 1));
        assert(l@.subrange(0, l@.len() as int) =~= l@);
        let tab = vec!['\t'];
        assert(tab@ =~= seq!['\t']);
        let ghost before = blame_views(r@);
        let ghost t = lv.skip(i as int);
        let ghost cur0 = match &cur {
            Some(b) => Some(b@),
            None => None::<BlameV>,
        };
        if range_starts_with(l, 0, l.len(), &tab) {
            match cur {
                Some(b) => {
                    let ghost bv = b@;
                    r.push(b);
                    assert(blame_views(r@) =~= before.push(bv));
                    assert(before.push(bv) + blame_from(lv.skip(i as int + 1), None) =~= before + (
                    seq![bv] + blame_from(lv.skip(i as int + 1), None)));
                },
                None => {},
            }
            cur = None;
        } else {
            match cur {
                None => {
                    let words = split_chars(l, ' ');
                    proof {
                        crate::text::lemma_split_on_len(l@, ' ');
                    }
                    assert(views(words@)[0] == words@[0]@);
                    let (full, zeros) = hash_kind(&words[0]);
                    assert(split_on(l@, ' ')[0] == words@[0]@);
                    if full {
                        cur = Some(
                            BlameLine {
                                hash: string_of(&words[0]),
                                author: String::new(),
                                time: 0,
                                summary: String::new(),
                                committed: !zeros,
                            },
                        );
                    }
                },
                Some(b) => {
                    let nb = blame_field_of(b, l);
                    assert(blame_from(t, cur0) == blame_from(t.drop_first(), Some(nb@)));
                    cur = Some(nb);
                },
            }
        }
        i += 1;
    }
    assert(blame_views(r@) + seq![] =~= blame_views(r@));
    r
}

/// The view of a `SearchHit`: (path, line, text).
pub open spec fn hit_view(h: SearchHit) -> (Seq<char>, u32, Seq<char>) {
    (h.path@, h.line, h.text@)
}

/// The views of a sequence of search hits.
pub open spec fn hit_views(s: Seq<SearchHit>) -> Seq<(Seq<char>, u32, Seq<char>)> {
    s.map_values(|h: SearchHit| hit_view(h))
}

/// At most the first 300 characters of `s`.
pub open spec fn clip300(s: Seq<char>) -> Seq<char> {
    if s.len() > 300 {
        s.take(300)
    } else {
        s
    }
}

/// The hits of `git grep -n` lines `path:line:text`, at most `room` of
/// them: the text has its trailing whitespace removed and is cut to 300
/// characters; lines with fewer than three parts or a line number that does
/// not parse are skipped.
pub open spec fn hits_from(ls: Seq<Seq<char>>, room: int) -> Seq<(Seq<char>, u32, Seq<char>)>
    decreases ls.len(),
{
    if ls.len() == 0 || room <= 0 {
        seq![]
    } else {
        let parts = fields(ls[0], ':', 3);
        if parts.len() < 3 {
            hits_from(ls.drop_first(), room)
        } else {
            match parse_u32_spec(parts[1]) {
                Some(n) => seq![(parts[0], n, clip300(trim_end(parts[2])))] + hits_from(
                    ls.drop_first(),
                    room - 1,
                ),
                None => hits_from(ls.drop_first(), room),
            }
        }
    }
}

/// Parses `git grep -n` output into at most `max` hits (see `hits_from`).
pub fn parse_search_hits(text: &str, max: u32) -> (r: Vec<SearchHit>)
    ensures
        hit_views(r@) == hits_from(lines_of(text@), max as int),
{
    let v = chars_of(text);
    let ls = lines(&v);
    let ghost lv = views(ls@);
    let mut r: Vec<SearchHit> = Vec::new();
    let mut i: usize = 0;
    assert(lv.skip(0) =~= lv);
    while i < ls.len()
        invariant
            0 <= i <= ls.len(),
            lv == views(ls@),
            lv == lines_of(text@),
            r@.len() <= max,
            hit_views(r@) + hits_from(lv.skip(i as int), max - r@.len()) == hits_from(
                lines_of(text@),
                max as int,
            ),
        decreases ls.len() - i,
    {
        assert(lv.skip(i as int)[0] == ls@[i as int]@);
        assert(lv.skip(i as int).drop_first() =~= lv.skip(i as int + 1));
        if r.len() >= max as usize {
            assert(hit_views(r@) + seq![] =~= hit_views(r@));
            return r;
        }
        let parts = split_n(&ls[i], ':', 3);
        if parts.len() >= 3 {
            let ghost pv = views(parts@);
            assert(pv[0] == parts@[0]@ && pv[1] == parts@[1]@ && pv[2] == parts@[2]@);
            match crate::text::parse_u32_vec(&parts[1]) {
                Some(n) => {
                    let t = &parts[2];
                    let end = trim_end_range(t, 0, t.len());
                    assert(t@.subrange(0, t@.len() as int) =~= t@);
                    let cut = if end > 300 {
                        300
                    } else {
                        end
                    };
                    assert(clip300(trim_end(t@)) =~= t@.subrange(0, cut as int));
                    let h = SearchHit { path: string_of(&parts[0]), line: n, text: string_from(t, 0, cut) };
                    let ghost before = hit_views(r@);
                    r.push(h);
                    assert(hit_views(r@) =~= before.push(hit_view(h)));
                    assert(before.push(hit_view(h)) + hits_from(lv.skip(i as int + 1), max - r@.len())
                        =~= before + (seq![hit_view(h)] + hits_from(
                        lv.skip(i as int + 1),
                        max - before.len() - 1,
                    )));
                },
                None => {},
            }
        }
        i += 1;
    }
    assert(hit_views(r@) + seq![] =~= hit_views(r@));
    r
}

} // verus!
