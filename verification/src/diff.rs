//! Reading the unified diff that `git diff` prints for one file: its header
//! lines, its hunks with their `@@ -a,b +c,d @@` numbers, or the mark that
//! the file is binary.
use vstd::prelude::*;
use crate::text::{
    chars_of, find_char, find_in, first_occ, flatten, has_prefix, lemma_flatten_step, lines,
    lines_incl, lines_inclusive, lines_of, parse_u32_range, parse_u32_spec, push_all,
    range_starts_with, range_eq, split_on, lemma_split_on_len, views, is_digit, digits_value,
    occurs_at, lemma_first_occ_is, lemma_first_occ_none,
};
use crate::commands::{decimal, digit_char};
use crate::types::{FileDiff, Hunk, HunkV, hunk_views};

verus! {

/// The largest file whose contents are shown, in bytes.
pub const MAX_FILE_SIZE: u64 = 5242880;

impl FileDiff {
    /// The diff of a binary file: no texts, no hunks.
    pub fn binary() -> (d: FileDiff)
        ensures
            d.original is None,
            d.modified is None,
            d.is_binary,
            !d.too_large,
            d.file_header@.len() == 0,
            d.hunks@.len() == 0,
    {
        FileDiff {
            original: None,
            modified: None,
            is_binary: true,
            too_large: false,
            file_header: String::new(),
            hunks: Vec::new(),
        }
    }

    /// The diff of a file above the size limit: no texts, no hunks.
    pub fn too_large() -> (d: FileDiff)
        ensures
            d.original is None,
            d.modified is None,
            !d.is_binary,
            d.too_large,
            d.file_header@.len() == 0,
            d.hunks@.len() == 0,
    {
        FileDiff {
            original: None,
            modified: None,
            is_binary: false,
            too_large: true,
            file_header: String::new(),
            hunks: Vec::new(),
        }
    }
}

/// A `start[,count]` pair of a hunk header; a missing count means 1.
pub open spec fn parse_pair_spec(s: Seq<char>) -> Option<(u32, u32)> {
    let k = first_occ(s, seq![',']);
    if k >= 0 {
        match (parse_u32_spec(s.take(k)), parse_u32_spec(s.skip(k + 1))) {
            (Some(a), Some(b)) => Some((a, b)),
            _ => None,
        }
    } else {
        match parse_u32_spec(s) {
            Some(a) => Some((a, 1)),
            None => None,
        }
    }
}

/// The numbers of a hunk header `@@ -a[,b] +c[,d] @@...`: the old part runs
/// from after `@@ -` to the first ` +`, the new part from there to the next
/// ` @@`.
pub open spec fn hunk_header_spec(line: Seq<char>) -> Option<(u32, u32, u32, u32)> {
    if !has_prefix(line, seq!['@', '@', ' ', '-']) {
        None
    } else {
        let rest = line.skip(4);
        let k1 = first_occ(rest, seq![' ', '+']);
        if k1 < 0 {
            None
        } else {
            let rest2 = rest.skip(k1 + 2);
            let k2 = first_occ(rest2, seq![' ', '@', '@']);
            if k2 < 0 {
                None
            } else {
                match (parse_pair_spec(rest.take(k1)), parse_pair_spec(rest2.take(k2))) {
                    (Some((a, b)), Some((c, d))) => Some((a, b, c, d)),
                    _ => None,
                }
            }
        }
    }
}

fn parse_pair_range(v: &Vec<char>, a: usize, b: usize) -> (r: Option<(u32, u32)>)
    requires
        a <= b <= v.len(),
    ensures
        r == parse_pair_spec(v@.subrange(a as int, b as int)),
{
    let ghost s = v@.subrange(a as int, b as int);
    match find_char(v, a, b, ',') {
        Some(k) => {
            assert(s.take(k - a) =~= v@.subrange(a as int, k as int));
            assert(s.skip(k - a + 1) =~= v@.subrange(k + 1, b as int));
            let x = parse_u32_range(v, a, k);
            let y = parse_u32_range(v, k + 1, b);
            match (x, y) {
                (Some(x), Some(y)) => Some((x, y)),
                _ => None,
            }
        },
        None => {
            match parse_u32_range(v, a, b) {
                Some(x) => Some((x, 1)),
                None => None,
            }
        },
    }
}

/// `hunk_header_spec` of `v`.
pub fn parse_hunk_header_chars(v: &Vec<char>) -> (r: Option<(u32, u32, u32, u32)>)
    ensures
        r == hunk_header_spec(v@),
{
    let ghost s = v@;
    let n = v.len();
    let pre = vec!['@', '@', ' ', '-'];
    assert(v@.subrange(0, n as int) =~= v@);
    if !range_starts_with(v, 0, n, &pre) {
        return None;
    }
    let ghost rest = s.skip(4);
    assert(rest =~= v@.subrange(4, n as int));
    let plus = vec![' ', '+'];
    let k1 = match find_in(v, 4, n, &plus) {
        Some(k) => k,
        None => return None,
    };
    let ghost rest2 = rest.skip(k1 - 4 + 2);
    assert(rest2 =~= v@.subrange(k1 + 2, n as int));
    let at = vec![' ', '@', '@'];
    let k2 = match find_in(v, k1 + 2, n, &at) {
        Some(k) => k,
        None => return None,
    };
    assert(rest.take(k1 - 4) =~= v@.subrange(4, k1 as int));
    assert(rest2.take(k2 - (k1 + 2)) =~= v@.subrange(k1 + 2, k2 as int));
    let old = parse_pair_range(v, 4, k1);
    let new = parse_pair_range(v, k1 + 2, k2);
    match (old, new) {
        (Some((a, b)), Some((c, d))) => Some((a, b, c, d)),
        _ => None,
    }
}

/// Parses a hunk header line `@@ -a[,b] +c[,d] @@ ...` into (a, b, c, d),
/// a missing count meaning 1; `None` for anything else.
pub fn parse_hunk_header(line: &str) -> (r: Option<(u32, u32, u32, u32)>)
    ensures
        r == hunk_header_spec(line@),
{
    let v = chars_of(line);
    parse_hunk_header_chars(&v)
}

/// A piece of a diff that opens a hunk.
pub open spec fn opens_hunk(p: Seq<char>) -> bool {
    has_prefix(p, seq!['@', '@', ' '])
}

/// The indices of the pieces that open hunks, in increasing order.
pub open spec fn hunk_starts(ps: Seq<Seq<char>>) -> Seq<int>
    decreases ps.len(),
{
    if ps.len() == 0 {
        Seq::<int>::empty()
    } else {
        let r = hunk_starts(ps.drop_last());
        if opens_hunk(ps.last()) {
            r.push(ps.len() - 1)
        } else {
            r
        }
    }
}

/// A header's numbers, or zeros when the header does not parse.
pub open spec fn header_numbers(line: Seq<char>) -> (u32, u32, u32, u32) {
    match hunk_header_spec(line) {
        Some(t) => t,
        None => (0, 0, 0, 0),
    }
}

/// Hunk number `k`, made of the pieces `start..end`.
pub open spec fn hunk_v(ps: Seq<Seq<char>>, k: int, start: int, end: int) -> HunkV {
    let (a, b, c, d) = header_numbers(ps[start]);
    HunkV {
        index: k as nat,
        old_start: a,
        old_lines: b,
        new_start: c,
        new_lines: d,
        text: flatten(ps.subrange(start, end)),
    }
}

/// The hunks of a diff's pieces: each runs from a piece that opens a hunk
/// up to the next such piece, or to the end.
pub open spec fn hunks_of(ps: Seq<Seq<char>>) -> Seq<HunkV> {
    let st = hunk_starts(ps);
    Seq::new(
        st.len(),
        |k: int|
            hunk_v(
                ps,
                k,
                st[k],
                if k + 1 < st.len() {
                    st[k + 1]
                } else {
                    ps.len() as int
                },
            ),
    )
}

/// The file header of a diff's pieces: everything before the first hunk.
pub open spec fn header_of(ps: Seq<Seq<char>>) -> Seq<char> {
    let st = hunk_starts(ps);
    if st.len() == 0 {
        flatten(ps)
    } else {
        flatten(ps.take(st[0]))
    }
}

/// Some line of the diff starts with `Binary files ` or is `GIT binary patch`.
pub open spec fn is_binary_diff(diff: Seq<char>) -> bool {
    exists|i: int|
        0 <= i < lines_of(diff).len() && (has_prefix(lines_of(diff)[i], "Binary files "@)
            || lines_of(diff)[i] == "GIT binary patch"@)
}

/// (file header, hunks, binary) of a diff's text.
pub open spec fn parse_diff_spec(diff: Seq<char>) -> (Seq<char>, Seq<HunkV>, bool) {
    if is_binary_diff(diff) {
        (Seq::<char>::empty(), Seq::<HunkV>::empty(), true)
    } else {
        let ps = lines_inclusive(diff);
        (header_of(ps), hunks_of(ps), false)
    }
}

fn binary_marked(v: &Vec<char>) -> (b: bool)
    ensures
        b == is_binary_diff(v@),
{
    let ls = lines(v);
    let bin = chars_of("Binary files ");
    let patch = chars_of("GIT binary patch");
    let mut i: usize = 0;
    while i < ls.len()
        invariant
            0 <= i <= ls.len(),
            views(ls@) == lines_of(v@),
            bin@ == "Binary files "@,
            patch@ == "GIT binary patch"@,
            forall|j: int|
                0 <= j < i ==> !(has_prefix(lines_of(v@)[j], "Binary files "@) || lines_of(
                    v@,
                )[j] == "GIT binary patch"@),
        decreases ls.len() - i,
    {
        let l = &ls[i];
        assert(lines_of(v@)[i as int] == l@);
        assert(l@.subrange(0, l@.len() as int) =~= l@);
        if range_starts_with(l, 0, l.len(), &bin) || range_eq(l, 0, l.len(), &patch) {
            return true;
        }
        i += 1;
    }
    false
}

proof fn lemma_starts_step(ps: Seq<Seq<char>>, i: int)
    requires
        0 <= i < ps.len(),
    ensures
        hunk_starts(ps.take(i + 1)) == if opens_hunk(ps[i]) {
            hunk_starts(ps.take(i)).push(i)
        } else {
            hunk_starts(ps.take(i))
        },
{
    assert(ps.take(i + 1).drop_last() =~= ps.take(i));
}

proof fn lemma_starts_bounds(ps: Seq<Seq<char>>)
    ensures
        forall|k: int| 0 <= k < hunk_starts(ps).len() ==> 0 <= #[trigger] hunk_starts(ps)[k] < ps.len(),
        forall|k: int|
            0 <= k < hunk_starts(ps).len() ==> opens_hunk(ps[#[trigger] hunk_starts(ps)[k]]),
        forall|j: int, k: int|
            0 <= j < k < hunk_starts(ps).len() ==> #[trigger] hunk_starts(ps)[j] < #[trigger] hunk_starts(
                ps,
            )[k],
    decreases ps.len(),
{
    if ps.len() > 0 {
        let d = ps.drop_last();
        lemma_starts_bounds(d);
        let r = hunk_starts(d);
        assert forall|k: int| 0 <= k < r.len() implies #[trigger] hunk_starts(ps)[k] == r[k]
            && d[r[k]] == ps[r[k]] by {}
    }
}

fn make_hunk(
    index: usize,
    piece: &Vec<char>,
    text: String,
    ps: Ghost<Seq<Seq<char>>>,
    start: Ghost<int>,
    end: Ghost<int>,
) -> (h: Hunk)
    requires
        0 <= start@ < end@ <= ps@.len(),
        ps@[start@] == piece@,
        text@ == flatten(ps@.subrange(start@, end@)),
    ensures
        h@ == hunk_v(ps@, index as int, start@, end@),
{
    let (a, b, c, d) = match parse_hunk_header_chars(piece) {
        Some(t) => t,
        None => (0, 0, 0, 0),
    };
    Hunk { index, old_start: a, old_lines: b, new_start: c, new_lines: d, text }
}

/// Splits the raw `git diff` output of one file into (file header, hunks,
/// binary). Hunk texts are kept verbatim from their `@@` line on, so that the
/// header followed by one hunk's text is a patch of that hunk alone. A diff
/// with a `Binary files ...` or `GIT binary patch` line is binary, with no
/// header and no hunks.
pub fn parse_diff(diff: &str) -> (r: (String, Vec<Hunk>, bool))
    ensures
        (r.0@, hunk_views(r.1@), r.2) == parse_diff_spec(diff@),
{
    let v = chars_of(diff);
    if binary_marked(&v) {
        let hs: Vec<Hunk> = Vec::new();
        assert(hunk_views(hs@) =~= Seq::<HunkV>::empty());
        return (String::new(), hs, true);
    }
    let pieces = lines_incl(&v);
    let ghost ps = views(pieces@);
    let n = pieces.len();
    let at = vec!['@', '@', ' '];
    let mut header = String::new();
    let mut hunks: Vec<Hunk> = Vec::new();
    let mut cur_text = String::new();
    let mut cur_piece: usize = 0;
    let mut in_hunk = false;
    let mut i: usize = 0;
    assert(ps.take(0) =~= Seq::<Seq<char>>::empty());
    assert(flatten(ps.take(0)) =~= Seq::<char>::empty());
    while i < n
        invariant
            0 <= i <= n,
            n == pieces.len(),
            ps == views(pieces@),
            ps == lines_inclusive(v@),
            at@ == seq!['@', '@', ' '],
            in_hunk == (hunk_starts(ps.take(i as int)).len() > 0),
            !in_hunk ==> header@ == flatten(ps.take(i as int)) && hunks@.len() == 0,
            in_hunk ==> {
                let st = hunk_starts(ps.take(i as int));
                &&& header@ == flatten(ps.take(st[0]))
                &&& hunks@.len() == st.len() - 1
                &&& cur_piece == st.last()
                &&& cur_text@ == flatten(ps.subrange(st.last(), i as int))
                &&& hunk_views(hunks@) == Seq::new(
                    (st.len() - 1) as nat,
                    |k: int| hunk_v(ps, k, st[k], st[k + 1]),
                )
            },
        decreases n - i,
    {
        let piece = &pieces[i];
        assert(ps[i as int] == piece@);
        assert(piece@.subrange(0, piece@.len() as int) =~= piece@);
        let opens = range_starts_with(piece, 0, piece.len(), &at);
        proof {
            lemma_starts_step(ps, i as int);
            lemma_starts_bounds(ps.take(i as int));
            lemma_starts_bounds(ps.take(i as int + 1));
            assert(ps.take(i as int + 1)[i as int] == ps[i as int]);
        }
        let ghost st = hunk_starts(ps.take(i as int));
        if opens {
            if in_hunk {
                proof {
                    assert forall|k: int| 0 <= k < st.len() implies #[trigger] st[k] < i by {}
                    assert(ps.take(i as int)[cur_piece as int] == ps[cur_piece as int]);
                }
                let h = make_hunk(
                    hunks.len(),
                    &pieces[cur_piece],
                    cur_text,
                    Ghost(ps),
                    Ghost(cur_piece as int),
                    Ghost(i as int),
                );
                let ghost before = hunk_views(hunks@);
                hunks.push(h);
                let ghost st2 = st.push(i as int);
                assert forall|k: int| 0 <= k < st2.len() - 1 implies #[trigger] hunk_views(
                    hunks@,
                )[k] == hunk_v(ps, k, st2[k], st2[k + 1]) by {
                    if k < st.len() - 1 {
                        assert(hunk_views(hunks@)[k] == before[k]);
                        assert(before[k] == hunk_v(ps, k, st[k], st[k + 1]));
                    } else {
                        assert(hunk_views(hunks@)[k] == h@);
                    }
                }
                assert(hunk_views(hunks@) =~= Seq::new(
                    (st2.len() - 1) as nat,
                    |k: int| hunk_v(ps, k, st2[k], st2[k + 1]),
                ));
                assert(ps.take(st2[0]) =~= ps.take(st[0]));
            } else {
                assert(hunks@.len() == 0);
                assert(hunk_views(hunks@) =~= Seq::new(
                    0nat,
                    |k: int| hunk_v(ps, k, st.push(i as int)[k], st.push(i as int)[k + 1]),
                ));
                assert(ps.take(i as int) =~= ps.take(st.push(i as int)[0]));
            }
            cur_text = String::new();
            push_all(&mut cur_text, piece);
            proof {
                lemma_flatten_step(ps, i as int, i as int);
                assert(ps.subrange(i as int, i as int) =~= Seq::<Seq<char>>::empty());
                assert(cur_text@ =~= flatten(ps.subrange(i as int, i as int + 1)));
            }
            cur_piece = i;
            in_hunk = true;
        } else if in_hunk {
            proof {
                assert forall|k: int| 0 <= k < st.len() implies #[trigger] st[k] < i by {}
                lemma_flatten_step(ps, st.last(), i as int);
            }
            push_all(&mut cur_text, piece);
        } else {
            proof {
                lemma_flatten_step(ps, 0, i as int);
                assert(ps.subrange(0, i as int) =~= ps.take(i as int));
                assert(ps.subrange(0, i as int + 1) =~= ps.take(i as int + 1));
            }
            push_all(&mut header, piece);
        }
        i += 1;
    }
    assert(ps.take(n as int) =~= ps);
    if in_hunk {
        let ghost st = hunk_starts(ps);
        proof {
            lemma_starts_bounds(ps);
            assert(ps[cur_piece as int] == pieces@[cur_piece as int]@);
        }
        let h = make_hunk(
            hunks.len(),
            &pieces[cur_piece],
            cur_text,
            Ghost(ps),
            Ghost(cur_piece as int),
            Ghost(n as int),
        );
        let ghost before = hunk_views(hunks@);
        hunks.push(h);
        assert forall|k: int| 0 <= k < st.len() implies #[trigger] hunk_views(hunks@)[k]
            == hunks_of(ps)[k] by {
            if k < st.len() - 1 {
                assert(hunk_views(hunks@)[k] == before[k]);
                assert(before[k] == hunk_v(ps, k, st[k], st[k + 1]));
            } else {
                assert(hunk_views(hunks@)[k] == h@);
            }
        }
        assert(hunk_views(hunks@) =~= hunks_of(ps));
    } else {
        assert(hunk_views(hunks@) =~= hunks_of(ps));
    }
    (header, hunks, false)
}


/// The pieces with `sep` between them.
pub open spec fn joined(parts: Seq<Seq<char>>, sep: char) -> Seq<char>
    decreases parts.len(),
{
    if parts.len() == 0 {
        Seq::<char>::empty()
    } else if parts.len() == 1 {
        parts[0]
    } else {
        joined(parts.drop_last(), sep).push(sep) + parts.last()
    }
}

proof fn lemma_split_join(s: Seq<char>, sep: char)
    ensures
        joined(split_on(s, sep), sep) == s,
    decreases s.len(),
{
    if s.len() == 0 {
        assert(joined(split_on(s, sep), sep) =~= s);
    } else {
        let d = s.drop_last();
        lemma_split_join(d, sep);
        lemma_split_on_len(d, sep);
        let r = split_on(d, sep);
        let c = s.last();
        assert(s =~= d.push(c));
        if c == sep {
            let n = r.push(Seq::<char>::empty());
            assert(n.drop_last() =~= r);
            assert(joined(n, sep) =~= d.push(sep));
        } else {
            let n = r.update(r.len() - 1, r.last().push(c));
            if r.len() == 1 {
                assert(joined(n, sep) =~= r[0].push(c));
            } else {
                assert(n.drop_last() =~= r.drop_last());
                assert(joined(n, sep) =~= joined(r.drop_last(), sep).push(sep) + r.last().push(c));
                assert(joined(r, sep) == joined(r.drop_last(), sep).push(sep) + r.last());
                assert(joined(n, sep) =~= joined(r, sep).push(c));
            }
        }
    }
}

proof fn lemma_flatten_terminated(p: Seq<Seq<char>>, sep: char)
    requires
        p.len() >= 1,
    ensures
        flatten(p.drop_last().map_values(|x: Seq<char>| x.push(sep))) + p.last() == joined(p, sep),
    decreases p.len(),
{
    let m = p.drop_last().map_values(|x: Seq<char>| x.push(sep));
    if p.len() == 1 {
        assert(m =~= Seq::<Seq<char>>::empty());
        assert(flatten(m) + p.last() =~= p[0]);
    } else {
        let q = p.drop_last();
        lemma_flatten_terminated(q, sep);
        let mq = q.drop_last().map_values(|x: Seq<char>| x.push(sep));
        assert(m.drop_last() =~= mq);
        assert(m.last() == q.last().push(sep));
        assert(flatten(m) == flatten(mq) + q.last().push(sep));
        assert(flatten(mq) + q.last().push(sep) =~= (flatten(mq) + q.last()).push(sep));
    }
}

/// The pieces of `split_inclusive('\n')` joined back give the text.
proof fn lemma_flatten_lines(s: Seq<char>)
    ensures
        flatten(lines_inclusive(s)) == s,
{
    let parts = split_on(s, '\n');
    lemma_split_on_len(s, '\n');
    lemma_split_join(s, '\n');
    lemma_flatten_terminated(parts, '\n');
    let body = parts.drop_last().map_values(|p: Seq<char>| p.push('\n'));
    if parts.last().len() == 0 {
        assert(flatten(body) + parts.last() =~= flatten(body));
    } else {
        assert(body.push(parts.last()).drop_last() =~= body);
    }
}

proof fn lemma_flatten_append(a: Seq<Seq<char>>, b: Seq<Seq<char>>)
    ensures
        flatten(a + b) == flatten(a) + flatten(b),
    decreases b.len(),
{
    if b.len() == 0 {
        assert(a + b =~= a);
        assert(flatten(a) + flatten(b) =~= flatten(a));
    } else {
        lemma_flatten_append(a, b.drop_last());
        assert((a + b).drop_last() =~= a + b.drop_last());
        assert(flatten(a) + flatten(b) =~= flatten(a) + flatten(b.drop_last()) + b.last());
    }
}

/// The texts of hunks, in order.
pub open spec fn hunk_texts(hs: Seq<HunkV>) -> Seq<Seq<char>> {
    hs.map_values(|h: HunkV| h.text)
}

/// Where the `k`th hunk of the pieces `ps` begins, or the end past the last.
spec fn hunk_bound(ps: Seq<Seq<char>>, k: int) -> int {
    if k < hunk_starts(ps).len() {
        hunk_starts(ps)[k]
    } else {
        ps.len() as int
    }
}

proof fn lemma_hunks_cover(ps: Seq<Seq<char>>, k: int)
    requires
        hunk_starts(ps).len() > 0,
        0 <= k <= hunk_starts(ps).len(),
    ensures
        flatten(ps.take(hunk_starts(ps)[0])) + flatten(hunk_texts(hunks_of(ps)).take(k)) == flatten(
            ps.take(hunk_bound(ps, k)),
        ),
    decreases k,
{
    let st = hunk_starts(ps);
    let texts = hunk_texts(hunks_of(ps));
    lemma_starts_bounds(ps);
    if k == 0 {
        assert(texts.take(0) =~= Seq::<Seq<char>>::empty());
        assert(flatten(ps.take(st[0])) + flatten(texts.take(0)) =~= flatten(ps.take(st[0])));
    } else {
        lemma_hunks_cover(ps, k - 1);
        let lo = hunk_bound(ps, k - 1);
        let hi = hunk_bound(ps, k);
        assert(lo == st[k - 1]);
        assert(lo <= hi <= ps.len());
        assert(texts[k - 1] == flatten(ps.subrange(lo, hi)));
        assert(ps.take(hi) =~= ps.take(lo) + ps.subrange(lo, hi));
        lemma_flatten_append(ps.take(lo), ps.subrange(lo, hi));
        assert(texts.take(k).drop_last() =~= texts.take(k - 1));
        assert(texts.take(k).last() == texts[k - 1]);
        assert(flatten(texts.take(k)) == flatten(texts.take(k - 1)) + texts[k - 1]);
        assert(flatten(ps.take(st[0])) + flatten(texts.take(k)) =~= flatten(ps.take(st[0]))
            + flatten(texts.take(k - 1)) + texts[k - 1]);
    }
}

/// A text diff is split without loss: its header followed by its hunks'
/// texts, in order, is the diff itself, and each hunk's text starts at its
/// `@@ ` line.
pub proof fn law_diff_split_verbatim(diff: Seq<char>)
    requires
        !is_binary_diff(diff),
    ensures
        parse_diff_spec(diff).0 + flatten(hunk_texts(parse_diff_spec(diff).1)) == diff,
        forall|k: int|
            0 <= k < parse_diff_spec(diff).1.len() ==> has_prefix(
                #[trigger] parse_diff_spec(diff).1[k].text,
                seq!['@', '@', ' '],
            ),
{
    let ps = lines_inclusive(diff);
    let st = hunk_starts(ps);
    let hs = hunks_of(ps);
    let texts = hunk_texts(hs);
    lemma_flatten_lines(diff);
    lemma_starts_bounds(ps);
    let m = st.len();
    if m == 0 {
        assert(texts =~= Seq::<Seq<char>>::empty());
        assert(header_of(ps) + flatten(texts) =~= flatten(ps));
    } else {
        lemma_hunks_cover(ps, m as int);
        assert(texts.take(m as int) =~= texts);
        assert(ps.take(ps.len() as int) =~= ps);
    }
    assert forall|k: int| 0 <= k < hs.len() implies has_prefix(#[trigger] hs[k].text, seq!['@', '@', ' ']) by {
        let a = st[k];
        let b = if k + 1 < m { st[k + 1] } else { ps.len() as int };
        let sub = ps.subrange(a, b);
        assert(sub.take(1) =~= seq![ps[a]]);
        assert(sub =~= sub.take(1) + sub.skip(1));
        lemma_flatten_append(sub.take(1), sub.skip(1));
        let one = seq![ps[a]];
        assert(one.drop_last() =~= Seq::<Seq<char>>::empty());
        assert(flatten(one.drop_last()) == Seq::<char>::empty());
        assert(one.last() == ps[a]);
        assert(flatten(one) =~= ps[a]);
        assert(opens_hunk(ps[a]));
        assert(hs[k].text == flatten(sub));
        assert(flatten(sub).take(3) =~= ps[a].take(3));
    }
}

proof fn lemma_starts_complete(ps: Seq<Seq<char>>)
    ensures
        forall|j: int|
            0 <= j < ps.len() && opens_hunk(#[trigger] ps[j]) ==> exists|k: int|
                0 <= k < hunk_starts(ps).len() && hunk_starts(ps)[k] == j,
    decreases ps.len(),
{
    if ps.len() > 0 {
        let d = ps.drop_last();
        lemma_starts_complete(d);
        let r = hunk_starts(d);
        assert forall|j: int| 0 <= j < ps.len() && opens_hunk(#[trigger] ps[j]) implies exists|k: int|
            0 <= k < hunk_starts(ps).len() && hunk_starts(ps)[k] == j by {
            if j < ps.len() - 1 {
                assert(d[j] == ps[j]);
                let k = choose|k: int| 0 <= k < r.len() && r[k] == j;
                assert(hunk_starts(ps)[k] == r[k]);
            } else {
                assert(hunk_starts(ps)[r.len() as int] == j);
            }
        }
    }
}

/// A text diff's hunks are numbered from 0 in order, and each is a run of
/// the diff's lines that begins with a line opening a hunk (`@@ `) and holds
/// no other such line; the header is the run of lines before the first hunk,
/// and none of its lines opens a hunk.
pub proof fn law_diff_hunks_delimited(diff: Seq<char>)
    requires
        !is_binary_diff(diff),
    ensures
        ({
            let ps = lines_inclusive(diff);
            let hs = parse_diff_spec(diff).1;
            &&& forall|k: int|
                0 <= k < hs.len() ==> (#[trigger] hs[k]).index == k && exists|a: int, b: int|
                    #![trigger ps.subrange(a, b)]
                    0 <= a < b <= ps.len() && hs[k].text == flatten(ps.subrange(a, b))
                        && opens_hunk(ps[a]) && forall|j: int|
                        a < j < b ==> !opens_hunk(#[trigger] ps[j])
            &&& exists|c: int|
                #![trigger ps.take(c)]
                0 <= c <= ps.len() && parse_diff_spec(diff).0 == flatten(ps.take(c)) && forall|j: int|
                    0 <= j < c ==> !opens_hunk(#[trigger] ps[j])
        }),
{
    let ps = lines_inclusive(diff);
    let st = hunk_starts(ps);
    let hs = hunks_of(ps);
    lemma_starts_bounds(ps);
    lemma_starts_complete(ps);
    assert forall|k: int| 0 <= k < hs.len() implies (#[trigger] hs[k]).index == k && exists|
        a: int,
        b: int,
    |
        #![trigger ps.subrange(a, b)]
        0 <= a < b <= ps.len() && hs[k].text == flatten(ps.subrange(a, b)) && opens_hunk(ps[a])
            && forall|j: int| a < j < b ==> !opens_hunk(#[trigger] ps[j]) by {
        let a = st[k];
        let b = hunk_bound(ps, k + 1);
        assert forall|j: int| a < j < b implies !opens_hunk(#[trigger] ps[j]) by {
            if opens_hunk(ps[j]) {
                let m = choose|m: int| 0 <= m < st.len() && st[m] == j;
                if m <= k {
                    if m < k {
                        assert(st[m] < st[k]);
                    }
                } else if m == k + 1 {
                } else {
                    assert(st[k + 1] < st[m]);
                }
            }
        }
        assert(hs[k].text == flatten(ps.subrange(a, b)));
    }
    let c = hunk_bound(ps, 0);
    assert forall|j: int| 0 <= j < c implies !opens_hunk(#[trigger] ps[j]) by {
        if opens_hunk(ps[j]) {
            let m = choose|m: int| 0 <= m < st.len() && st[m] == j;
            if m > 0 {
                assert(st[0] < st[m]);
            }
        }
    }
    if st.len() == 0 {
        assert(ps.take(c) =~= ps);
    }
    assert(parse_diff_spec(diff).0 == flatten(ps.take(c)));
}

pub proof fn lemma_decimal(n: nat)
    ensures
        decimal(n).len() > 0,
        forall|i: int| 0 <= i < decimal(n).len() ==> is_digit(#[trigger] decimal(n)[i]),
        digits_value(decimal(n)) == n,
    decreases n,
{
    let d = n % 10;
    assert(((digit_char(d) as u32) - 48) as nat == d && is_digit(digit_char(d)));
    if n >= 10 {
        lemma_decimal(n / 10);
        let s = decimal(n / 10);
        let t = decimal(n);
        assert(t == s.push(digit_char(d)));
        assert(t.drop_last() =~= s);
        assert(t.last() == digit_char(d));
        assert(digits_value(t) == digits_value(s) * 10 + ((digit_char(d) as u32) - 48) as nat);
        assert((n / 10) * 10 + n % 10 == n) by (nonlinear_arith);
        assert(forall|i: int| 0 <= i < s.len() ==> t[i] == s[i]);
    } else {
        let t = decimal(n);
        assert(t.drop_last() =~= Seq::<char>::empty());
        assert(digits_value(t.drop_last()) == 0);
        assert(t.last() == digit_char(n));
    }
}

pub proof fn lemma_parse_decimal(n: u32)
    ensures
        parse_u32_spec(decimal(n as nat)) == Some(n),
{
    lemma_decimal(n as nat);
    assert(decimal(n as nat)[0] != '+');
}

/// A `start[,count]` pair of a hunk header as written: the count is left
/// out when it is `None`.
pub open spec fn pair_text(start: u32, count: Option<u32>) -> Seq<char> {
    match count {
        Some(c) => decimal(start as nat) + seq![','] + decimal(c as nat),
        None => decimal(start as nat),
    }
}

proof fn lemma_first_at(s: Seq<char>, p: Seq<char>, k: int)
    requires
        p.len() > 0,
        occurs_at(s, p, k),
        forall|j: int| 0 <= j < k ==> s[j] != p[0],
    ensures
        first_occ(s, p) == k,
{
    assert forall|j: int| 0 <= j < k implies !occurs_at(s, p, j) by {
        if occurs_at(s, p, j) {
            assert(s.subrange(j, j + p.len())[0] == s[j]);
        }
    }
    lemma_first_occ_is(s, p, k);
}

proof fn lemma_pair(start: u32, count: Option<u32>)
    ensures
        parse_pair_spec(pair_text(start, count)) == Some(
            (
                start,
                match count {
                    Some(c) => c,
                    None => 1u32,
                },
            ),
        ),
        forall|i: int|
            0 <= i < pair_text(start, count).len() ==> #[trigger] pair_text(start, count)[i] != ' ',
{
    let a = decimal(start as nat);
    lemma_decimal(start as nat);
    lemma_parse_decimal(start);
    match count {
        Some(c) => {
            let b = decimal(c as nat);
            lemma_decimal(c as nat);
            lemma_parse_decimal(c);
            let t = a + seq![','] + b;
            assert(occurs_at(t, seq![','], a.len() as int)) by {
                assert(t.subrange(a.len() as int, a.len() + 1int) =~= seq![',']);
            }
            assert forall|j: int| 0 <= j < a.len() implies t[j] != seq![','][0] by {
                assert(t[j] == a[j]);
            }
            lemma_first_at(t, seq![','], a.len() as int);
            assert(t.take(a.len() as int) =~= a);
            assert(t.skip(a.len() + 1int) =~= b);
            assert forall|i: int| 0 <= i < t.len() implies #[trigger] t[i] != ' ' by {
                if i < a.len() {
                    assert(t[i] == a[i]);
                } else if i > a.len() {
                    assert(t[i] == b[i - a.len() - 1]);
                }
            }
        },
        None => {
            assert forall|i: int| !occurs_at(a, seq![','], i) by {
                if occurs_at(a, seq![','], i) {
                    assert(a.subrange(i, i + 1)[0] == a[i]);
                }
            }
            lemma_first_occ_none(a, seq![',']);
        },
    }
}

proof fn lemma_header_parts(p1: Seq<char>, p2: Seq<char>, rest: Seq<char>)
    requires
        forall|i: int| 0 <= i < p1.len() ==> #[trigger] p1[i] != ' ',
        forall|i: int| 0 <= i < p2.len() ==> #[trigger] p2[i] != ' ',
    ensures
        hunk_header_spec(seq!['@', '@', ' ', '-'] + (p1 + (seq![' ', '+'] + (p2 + (seq![' ', '@', '@'] + rest))))) == match (parse_pair_spec(p1), parse_pair_spec(p2)) {
            (Some((a, b)), Some((c, d))) => Some((a, b, c, d)),
            _ => None,
        },
{
    let h = seq!['@', '@', ' ', '-'];
    let plus = seq![' ', '+'];
    let ats = seq![' ', '@', '@'];
    let r2 = p2 + (ats + rest);
    let r = p1 + (plus + r2);
    let line = h + r;
    assert(line.take(4) =~= h);
    assert(line.skip(4) =~= r);
    assert(occurs_at(r, plus, p1.len() as int)) by {
        assert(r.subrange(p1.len() as int, p1.len() + 2int) =~= plus);
    }
    assert forall|j: int| 0 <= j < p1.len() implies r[j] != plus[0] by {
        assert(r[j] == p1[j]);
    }
    lemma_first_at(r, plus, p1.len() as int);
    assert(r.skip(p1.len() + 2int) =~= r2);
    assert(occurs_at(r2, ats, p2.len() as int)) by {
        assert(r2.subrange(p2.len() as int, p2.len() + 3int) =~= ats);
    }
    assert forall|j: int| 0 <= j < p2.len() implies r2[j] != ats[0] by {
        assert(r2[j] == p2[j]);
    }
    lemma_first_at(r2, ats, p2.len() as int);
    assert(r.take(p1.len() as int) =~= p1);
    assert(r2.take(p2.len() as int) =~= p2);
}

/// A hunk header as `git diff` writes it, `@@ -a[,b] +c[,d] @@` and then
/// anything, reads back as its numbers; a left-out count reads as 1.
pub proof fn law_hunk_header_round_trip(
    a: u32,
    b: Option<u32>,
    c: u32,
    d: Option<u32>,
    rest: Seq<char>,
)
    ensures
        hunk_header_spec(
            seq!['@', '@', ' ', '-'] + (pair_text(a, b) + (seq![' ', '+'] + (pair_text(c, d) + (
            seq![' ', '@', '@'] + rest)))),
        ) == Some(
            (
                a,
                match b {
                    Some(x) => x,
                    None => 1u32,
                },
                c,
                match d {
                    Some(x) => x,
                    None => 1u32,
                },
            ),
        ),
{
    lemma_pair(a, b);
    lemma_pair(c, d);
    lemma_header_parts(pair_text(a, b), pair_text(c, d), rest);
}

} // verus!
