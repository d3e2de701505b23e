//! Reading ref names: the decorations of a log line, the branch list of
//! `git for-each-ref`, an upstream's ahead/behind track, and the remotes of
//! `git remote -v`.
use vstd::prelude::*;
use crate::text::{
    chars_of, find_char, first_occ, has_prefix, has_suffix, last_occ, lines, lines_of,
    parse_u32_range, parse_u32_spec, range_ends_with, range_eq, range_starts_with, rfind_in,
    split_on_str, split_str, string_from, string_views, strip_leading, strip_range,
    strip_trailing, trim, trim_range, views, free_of, lemma_first_char_at, lemma_last_char_at,
    lemma_split_cons, lemma_split_single, split_on, strip_cr,
};
use crate::types::{BranchInfo, RemoteInfo, opt_view};

verus! {

/// `HEAD`.
pub open spec fn lit_head() -> Seq<char> {
    seq!['H', 'E', 'A', 'D']
}

/// `HEAD -> `, the mark of the checked-out branch in a decoration.
pub open spec fn lit_head_arrow() -> Seq<char> {
    seq!['H', 'E', 'A', 'D', ' ', '-', '>', ' ']
}

/// `tag: `, the mark of a tag in a decoration.
pub open spec fn lit_tag() -> Seq<char> {
    seq!['t', 'a', 'g', ':', ' ']
}

/// `, `, the separator of decorations and of track parts.
pub open spec fn lit_comma_space() -> Seq<char> {
    seq![',', ' ']
}

/// The ref name that one decoration part stands for: trimmed, with a
/// `HEAD -> ` and then a `tag: ` prefix removed; none for an empty part or a
/// bare `HEAD` (a detached head is not a ref).
pub open spec fn decoration_name(part: Seq<char>) -> Option<Seq<char>> {
    let t = trim(part);
    if t.len() == 0 || t == lit_head() {
        None
    } else {
        let a = if has_prefix(t, lit_head_arrow()) {
            t.skip(8)
        } else {
            t
        };
        let b = if has_prefix(a, lit_tag()) {
            a.skip(5)
        } else {
            a
        };
        Some(b)
    }
}

/// The ref names of decoration parts, in order.
pub open spec fn decorations_from(parts: Seq<Seq<char>>) -> Seq<Seq<char>>
    decreases parts.len(),
{
    if parts.len() == 0 {
        seq![]
    } else {
        match decoration_name(parts[0]) {
            Some(n) => seq![n] + decorations_from(parts.drop_first()),
            None => decorations_from(parts.drop_first()),
        }
    }
}

/// The ref names of a `%D` decoration string such as
/// `HEAD -> main, tag: v1.0, origin/main`.
pub open spec fn decorations_spec(raw: Seq<char>) -> Seq<Seq<char>> {
    decorations_from(split_str(raw, lit_comma_space()))
}

fn decoration_of(part: &Vec<char>) -> (r: Option<String>)
    ensures
        opt_view(r) == decoration_name(part@),
{
    let (lo, hi) = trim_range(part, 0, part.len());
    assert(part@.subrange(0, part@.len() as int) =~= part@);
    let ghost t = part@.subrange(lo as int, hi as int);
    let head = vec!['H', 'E', 'A', 'D'];
    if lo == hi || range_eq(part, lo, hi, &head) {
        return None;
    }
    let arrow = vec!['H', 'E', 'A', 'D', ' ', '-', '>', ' '];
    let tag = vec!['t', 'a', 'g', ':', ' '];
    let mut a = lo;
    if range_starts_with(part, lo, hi, &arrow) {
        a = lo + 8;
        assert(t.skip(8) =~= part@.subrange(a as int, hi as int));
    } else {
        assert(t =~= part@.subrange(a as int, hi as int));
    }
    let mut b = a;
    if range_starts_with(part, a, hi, &tag) {
        b = a + 5;
        assert(part@.subrange(a as int, hi as int).skip(5) =~= part@.subrange(b as int, hi as int));
    }
    Some(string_from(part, b, hi))
}

/// Parses a `%D` decoration string (e.g. `HEAD -> main, origin/main,
/// tag: v1.0`) into its ref names (`main`, `origin/main`, `v1.0`): parts
/// separated by `, `, trimmed, with `HEAD -> ` and `tag: ` removed, and a bare
/// `HEAD` dropped.
pub fn parse_decorations(raw: &str) -> (r: Vec<String>)
    ensures
        string_views(r@) == decorations_spec(raw@),
{
    let v = chars_of(raw);
    let sep = vec![',', ' '];
    let parts = split_on_str(&v, &sep);
    let ghost pv = views(parts@);
    let mut r: Vec<String> = Vec::new();
    let mut i: usize = 0;
    assert(pv.skip(0) =~= pv);
    while i < parts.len()
        invariant
            0 <= i <= parts.len(),
            pv == views(parts@),
            pv == split_str(v@, lit_comma_space()),
            v@ == raw@,
            string_views(r@) + decorations_from(pv.skip(i as int)) == decorations_spec(raw@),
        decreases parts.len() - i,
    {
        assert(pv.skip(i as int)[0] == parts@[i as int]@);
        assert(pv.skip(i as int).drop_first() =~= pv.skip(i as int + 1));
        let ghost before = string_views(r@);
        match decoration_of(&parts[i]) {
            Some(name) => {
                r.push(name);
                assert(string_views(r@) =~= before.push(name@));
                assert(before.push(name@) + decorations_from(pv.skip(i as int + 1)) =~= before + (
                seq![name@] + decorations_from(pv.skip(i as int + 1))));
            },
            None => {},
        }
        i += 1;
    }
    assert(string_views(r@) + seq![] =~= string_views(r@));
    r
}

/// `ahead `.
pub open spec fn lit_ahead() -> Seq<char> {
    seq!['a', 'h', 'e', 'a', 'd', ' ']
}

/// `behind `.
pub open spec fn lit_behind() -> Seq<char> {
    seq!['b', 'e', 'h', 'i', 'n', 'd', ' ']
}

/// `gone`.
pub open spec fn lit_gone() -> Seq<char> {
    seq!['g', 'o', 'n', 'e']
}

/// The number after prefix `p` in the last part that starts with `p`;
/// none when no part does or that number does not parse.
pub open spec fn track_value(parts: Seq<Seq<char>>, p: Seq<char>) -> Option<u32>
    decreases parts.len(),
{
    if parts.len() == 0 {
        None
    } else if has_prefix(parts.last(), p) {
        parse_u32_spec(parts.last().skip(p.len() as int))
    } else {
        track_value(parts.drop_last(), p)
    }
}

/// (ahead, behind) of an upstream track such as `[ahead 2, behind 1]`;
/// both none for an empty track or one that says `gone`.
pub open spec fn track_spec(track: Seq<char>) -> (Option<u32>, Option<u32>) {
    if track.len() == 0 || first_occ(track, lit_gone()) >= 0 {
        (None, None)
    } else {
        let inner = strip_trailing(strip_leading(track, '['), ']');
        let parts = split_str(inner, lit_comma_space());
        (track_value(parts, lit_ahead()), track_value(parts, lit_behind()))
    }
}

fn track_of(v: &Vec<char>, a: usize, b: usize) -> (r: (Option<u32>, Option<u32>))
    requires
        a <= b <= v.len(),
    ensures
        r == track_spec(v@.subrange(a as int, b as int)),
{
    let gone = vec!['g', 'o', 'n', 'e'];
    if a == b || crate::text::find_in(v, a, b, &gone).is_some() {
        return (None, None);
    }
    let (lo, hi) = strip_range(v, a, b, '[', ']');
    let inner = crate::text::sub_vec(v, lo, hi);
    let sep = vec![',', ' '];
    let parts = split_on_str(&inner, &sep);
    let ghost pv = views(parts@);
    let ahead_lit = vec!['a', 'h', 'e', 'a', 'd', ' '];
    let behind_lit = vec!['b', 'e', 'h', 'i', 'n', 'd', ' '];
    let mut ahead: Option<u32> = None;
    let mut behind: Option<u32> = None;
    let mut i: usize = 0;
    assert(pv.take(0) =~= Seq::<Seq<char>>::empty());
    while i < parts.len()
        invariant
            0 <= i <= parts.len(),
            pv == views(parts@),
            ahead_lit@ == lit_ahead(),
            behind_lit@ == lit_behind(),
            ahead == track_value(pv.take(i as int), lit_ahead()),
            behind == track_value(pv.take(i as int), lit_behind()),
        decreases parts.len() - i,
    {
        let part = &parts[i];
        assert(pv.take(i as int + 1).drop_last() =~= pv.take(i as int));
        assert(pv.take(i as int + 1).last() == part@);
        assert(part@.subrange(0, part@.len() as int) =~= part@);
        let n = part.len();
        if range_starts_with(part, 0, n, &ahead_lit) {
            assert(part@.skip(6) =~= part@.subrange(6, n as int));
            ahead = parse_u32_range(part, 6, n);
            proof {
                assert(!has_prefix(part@, lit_behind())) by {
                    if has_prefix(part@, lit_behind()) {
                        assert(part@[0] == 'a');
                        assert(part@[0] == 'b');
                    }
                }
            }
        } else if range_starts_with(part, 0, n, &behind_lit) {
            assert(part@.skip(7) =~= part@.subrange(7, n as int));
            behind = parse_u32_range(part, 7, n);
        }
        i += 1;
    }
    assert(pv.take(parts.len() as int) =~= pv);
    (ahead, behind)
}

/// Parses an upstream track (`[ahead 2, behind 1]`, `[ahead 2]`,
/// `[behind 1]`, `[gone]` or empty) into (ahead, behind).
pub fn parse_track(track: &str) -> (r: (Option<u32>, Option<u32>))
    ensures
        r == track_spec(track@),
{
    let v = chars_of(track);
    assert(v@.subrange(0, v@.len() as int) =~= v@);
    track_of(&v, 0, v.len())
}

/// The view of a `BranchInfo`.
pub struct BranchV {
    pub name: Seq<char>,
    pub is_current: bool,
    pub is_remote: bool,
    pub upstream: Option<Seq<char>>,
    pub ahead: Option<u32>,
    pub behind: Option<u32>,
}

impl View for BranchInfo {
    type V = BranchV;

    open spec fn view(&self) -> BranchV {
        BranchV {
            name: self.name@,
            is_current: self.is_current,
            is_remote: self.is_remote,
            upstream: opt_view(self.upstream),
            ahead: self.ahead,
            behind: self.behind,
        }
    }
}

/// The first four fields of `s` separated by `c`, the last holding the
/// rest (`str::splitn(4, c)`); none when `s` has fewer than three `c`s.
pub open spec fn fields4(s: Seq<char>, c: char) -> Option<
    (Seq<char>, Seq<char>, Seq<char>, Seq<char>),
> {
    let k1 = first_occ(s, seq![c]);
    if k1 < 0 {
        None
    } else {
        let s2 = s.skip(k1 + 1);
        let k2 = first_occ(s2, seq![c]);
        if k2 < 0 {
            None
        } else {
            let s3 = s2.skip(k2 + 1);
            let k3 = first_occ(s3, seq![c]);
            if k3 < 0 {
                None
            } else {
                Some((s.take(k1), s2.take(k2), s3.take(k3), s3.skip(k3 + 1)))
            }
        }
    }
}

/// `refs/heads/`.
pub open spec fn lit_heads() -> Seq<char> {
    seq!['r', 'e', 'f', 's', '/', 'h', 'e', 'a', 'd', 's', '/']
}

/// `refs/remotes/`.
pub open spec fn lit_remotes() -> Seq<char> {
    seq!['r', 'e', 'f', 's', '/', 'r', 'e', 'm', 'o', 't', 'e', 's', '/']
}

/// `/HEAD`.
pub open spec fn lit_slash_head() -> Seq<char> {
    seq!['/', 'H', 'E', 'A', 'D']
}

/// The branch that one `for-each-ref` line
/// `refname\x01head\x01upstream\x01track` describes: a local branch under
/// `refs/heads/` or a remote-tracking one under `refs/remotes/` (not a
/// remote's symbolic `.../HEAD`); current when `head` is `*`.
pub open spec fn branch_of_line(l: Seq<char>) -> Option<BranchV> {
    if l.len() == 0 {
        None
    } else {
        match fields4(l, '\x01') {
            None => None,
            Some((refname, head, upstream, track)) => {
                let (name, is_remote, known) = if has_prefix(refname, lit_heads()) {
                    (refname.skip(11), false, true)
                } else if has_prefix(refname, lit_remotes()) {
                    (refname.skip(13), true, true)
                } else {
                    (refname, false, false)
                };
                if !known || (is_remote && has_suffix(name, lit_slash_head())) {
                    None
                } else {
                    let (ahead, behind) = track_spec(track);
                    Some(
                        BranchV {
                            name,
                            is_current: head == seq!['*'],
                            is_remote,
                            upstream: if upstream.len() == 0 {
                                None
                            } else {
                                Some(upstream)
                            },
                            ahead,
                            behind,
                        },
                    )
                }
            },
        }
    }
}

/// The branches of a list of `for-each-ref` lines, in order.
pub open spec fn branches_from(ls: Seq<Seq<char>>) -> Seq<BranchV>
    decreases ls.len(),
{
    if ls.len() == 0 {
        seq![]
    } else {
        match branch_of_line(ls[0]) {
            Some(b) => seq![b] + branches_from(ls.drop_first()),
            None => branches_from(ls.drop_first()),
        }
    }
}

/// The `for-each-ref` line `l` describes the branch `b`: its refname is
/// `refs/heads/` or (for a remote-tracking branch) `refs/remotes/` followed
/// by the name, which for a remote-tracking branch does not end in `/HEAD`;
/// it is current exactly when the line's head field is `*`; its upstream is
/// the line's, when not empty; and its counts are those of the line's track.
pub open spec fn describes(l: Seq<char>, b: BranchV) -> bool {
    match fields4(l, '\x01') {
        Some((refname, head, upstream, track)) => {
            &&& refname == (if b.is_remote {
                lit_remotes()
            } else {
                lit_heads()
            }) + b.name
            &&& !(b.is_remote && has_suffix(b.name, lit_slash_head()))
            &&& (b.is_current <==> head == seq!['*'])
            &&& b.upstream == (if upstream.len() == 0 {
                None
            } else {
                Some(upstream)
            })
            &&& (b.ahead, b.behind) == track_spec(track)
        },
        None => false,
    }
}

proof fn lemma_branch_line(l: Seq<char>)
    ensures
        branch_of_line(l) matches Some(b) ==> describes(l, b),
{
    if let Some((refname, head, upstream, track)) = fields4(l, '\x01') {
        if has_prefix(refname, lit_heads()) {
            assert(refname =~= lit_heads() + refname.skip(11));
        } else if has_prefix(refname, lit_remotes()) {
            assert(refname =~= lit_remotes() + refname.skip(13));
        }
    }
}

/// Each branch listed comes from a line of the listing that describes it
/// (see `describes`).
pub proof fn law_branches_from_lines(ls: Seq<Seq<char>>)
    ensures
        forall|k: int|
            0 <= k < branches_from(ls).len() ==> exists|i: int|
                0 <= i < ls.len() && describes(ls[i], #[trigger] branches_from(ls)[k]),
    decreases ls.len(),
{
    if ls.len() > 0 {
        let rest = ls.drop_first();
        law_branches_from_lines(rest);
        lemma_branch_line(ls[0]);
        let r = branches_from(rest);
        let all = branches_from(ls);
        assert forall|k: int| 0 <= k < all.len() implies exists|i: int|
            0 <= i < ls.len() && describes(ls[i], #[trigger] all[k]) by {
            match branch_of_line(ls[0]) {
                Some(b) => {
                    if k == 0 {
                        assert(describes(ls[0], all[0]));
                    } else {
                        assert(all[k] == r[k - 1]);
                        let i = choose|i: int| 0 <= i < rest.len() && describes(rest[i], r[k - 1]);
                        assert(ls[i + 1] == rest[i]);
                    }
                },
                None => {
                    assert(all[k] == r[k]);
                    let i = choose|i: int| 0 <= i < rest.len() && describes(rest[i], r[k]);
                    assert(ls[i + 1] == rest[i]);
                },
            }
        }
    }
}

/// The views of a sequence of branches.
pub open spec fn branch_views(s: Seq<BranchInfo>) -> Seq<BranchV> {
    s.map_values(|b: BranchInfo| b@)
}

fn branch_of(l: &Vec<char>) -> (r: Option<BranchInfo>)
    ensures
        match r {
            Some(b) => branch_of_line(l@) == Some(b@),
            None => branch_of_line(l@) is None,
        },
{
    let n = l.len();
    if n == 0 {
        return None;
    }
    let ghost s = l@;
    assert(s.subrange(0, n as int) =~= s);
    let k1 = match find_char(l, 0, n, '\x01') {
        Some(k) => k,
        None => return None,
    };
    assert(s.skip(k1 + 1) =~= s.subrange(k1 + 1, n as int));
    let k2 = match find_char(l, k1 + 1, n, '\x01') {
        Some(k) => k,
        None => return None,
    };
    let ghost s2 = s.skip(k1 + 1);
    assert(s2.skip(k2 - k1 - 1 + 1) =~= s.subrange(k2 + 1, n as int));
    let k3 = match find_char(l, k2 + 1, n, '\x01') {
        Some(k) => k,
        None => return None,
    };
    let ghost s3 = s2.skip(k2 - k1);
    assert(s.take(k1 as int) =~= s.subrange(0, k1 as int));
    assert(s2.take(k2 - k1 - 1) =~= s.subrange(k1 + 1, k2 as int));
    assert(s3.take(k3 - k2 - 1) =~= s.subrange(k2 + 1, k3 as int));
    assert(s3.skip(k3 - k2) =~= s.subrange(k3 + 1, n as int));
    let heads = vec!['r', 'e', 'f', 's', '/', 'h', 'e', 'a', 'd', 's', '/'];
    let remotes = vec!['r', 'e', 'f', 's', '/', 'r', 'e', 'm', 'o', 't', 'e', 's', '/'];
    let ghost refname = s.subrange(0, k1 as int);
    let (start, is_remote) = if range_starts_with(l, 0, k1, &heads) {
        assert(refname.skip(11) =~= s.subrange(11, k1 as int));
        (11usize, false)
    } else if range_starts_with(l, 0, k1, &remotes) {
        assert(refname.skip(13) =~= s.subrange(13, k1 as int));
        (13usize, true)
    } else {
        return None;
    };
    let slash_head = vec!['/', 'H', 'E', 'A', 'D'];
    if is_remote && range_ends_with(l, start, k1, &slash_head) {
        return None;
    }
    let star = vec!['*'];
    let is_current = range_eq(l, k1 + 1, k2, &star);
    let upstream = if k3 == k2 + 1 {
        None
    } else {
        Some(string_from(l, k2 + 1, k3))
    };
    let (ahead, behind) = track_of(l, k3 + 1, n);
    let b = BranchInfo {
        name: string_from(l, start, k1),
        is_current,
        is_remote,
        upstream,
        ahead,
        behind,
    };
    proof {
        assert(star@ =~= seq!['*']);
        let f = fields4(s, '\x01');
        assert(f == Some((refname, s2.take(k2 - k1 - 1), s3.take(k3 - k2 - 1), s3.skip(k3 - k2))));
        assert(b@.name == refname.skip(start as int));
        assert(b@.upstream == if s3.take(k3 - k2 - 1).len() == 0 {
            None
        } else {
            Some(s3.take(k3 - k2 - 1))
        });
    }
    Some(b)
}

/// The branches of `git for-each-ref refs/heads refs/remotes
/// --format=%(refname)%01%(HEAD)%01%(upstream:short)%01%(upstream:track)`
/// output, one per line (see `branch_of_line`).
pub fn parse_branches(out: &str) -> (r: Vec<BranchInfo>)
    ensures
        branch_views(r@) == branches_from(lines_of(out@)),
{
    let v = chars_of(out);
    let ls = lines(&v);
    let ghost lv = views(ls@);
    let mut r: Vec<BranchInfo> = Vec::new();
    let mut i: usize = 0;
    assert(lv.skip(0) =~= lv);
    while i < ls.len()
        invariant
            0 <= i <= ls.len(),
            lv == views(ls@),
            lv == lines_of(out@),
            branch_views(r@) + branches_from(lv.skip(i as int)) == branches_from(lines_of(out@)),
        decreases ls.len() - i,
    {
        assert(lv.skip(i as int)[0] == ls@[i as int]@);
        assert(lv.skip(i as int).drop_first() =~= lv.skip(i as int + 1));
        let ghost before = branch_views(r@);
        match branch_of(&ls[i]) {
            Some(b) => {
                r.push(b);
                assert(branch_views(r@) =~= before.push(b@));
                assert(before.push(b@) + branches_from(lv.skip(i as int + 1)) =~= before + (seq![b@]
                    + branches_from(lv.skip(i as int + 1))));
            },
            None => {},
        }
        i += 1;
    }
    assert(branch_views(r@) + seq![] =~= branch_views(r@));
    r
}

/// The view of a `RemoteInfo`: (name, url).
pub open spec fn remote_view(r: RemoteInfo) -> (Seq<char>, Seq<char>) {
    (r.name@, r.url@)
}

/// The views of a sequence of remotes.
pub open spec fn remote_views(s: Seq<RemoteInfo>) -> Seq<(Seq<char>, Seq<char>)> {
    s.map_values(|r: RemoteInfo| remote_view(r))
}

/// Some remote in `acc` is named `name`.
pub open spec fn has_remote(acc: Seq<(Seq<char>, Seq<char>)>, name: Seq<char>) -> bool {
    exists|j: int| 0 <= j < acc.len() && acc[j].0 == name
}

/// The remotes of `git remote -v` lines `name\turl (fetch)`, after those
/// already in `acc`: each name once, with the URL of its first line (the text
/// up to the last space); lines without a tab are skipped.
pub open spec fn remotes_from(ls: Seq<Seq<char>>, acc: Seq<(Seq<char>, Seq<char>)>) -> Seq<
    (Seq<char>, Seq<char>),
>
    decreases ls.len(),
{
    if ls.len() == 0 {
        acc
    } else {
        let l = ls[0];
        let k = first_occ(l, seq!['\t']);
        if k < 0 {
            remotes_from(ls.drop_first(), acc)
        } else {
            let name = l.take(k);
            let rest = l.skip(k + 1);
            if has_remote(acc, name) {
                remotes_from(ls.drop_first(), acc)
            } else {
                let m = last_occ(rest, seq![' ']);
                let url = if m >= 0 {
                    rest.take(m)
                } else {
                    rest
                };
                remotes_from(ls.drop_first(), acc.push((name, url)))
            }
        }
    }
}

/// A `git remote -v` line: the name, a tab, the URL, a space and the
/// marker.
pub open spec fn remote_line(name: Seq<char>, url: Seq<char>, marker: Seq<char>) -> Seq<char> {
    name + seq!['\t'] + (url + seq![' '] + marker)
}

proof fn lemma_remote_line_ends(name: Seq<char>, url: Seq<char>, marker: Seq<char>)
    requires
        free_of(name, '\n'),
        free_of(url, '\n'),
        free_of(marker, '\n'),
        free_of(marker, '\r'),
    ensures
        free_of(remote_line(name, url, marker), '\n'),
        remote_line(name, url, marker).len() > 0,
        remote_line(name, url, marker).last() != '\r',
{
    let rest = url + seq![' '] + marker;
    let l = remote_line(name, url, marker);
    assert forall|i: int| 0 <= i < l.len() implies l[i] != '\n' by {
        if i < name.len() {
            assert(l[i] == name[i]);
        } else if i > name.len() {
            let j = i - name.len() - 1;
            assert(l[i] == rest[j]);
            if j < url.len() {
                assert(rest[j] == url[j]);
            } else if j > url.len() {
                assert(rest[j] == marker[j - url.len() - 1]);
            }
        }
    }
    assert(l[name.len() as int] == '\t');
    if marker.len() > 0 {
        assert(l.last() == marker.last());
    } else {
        assert(l.last() == ' ');
    }
}

/// The `git remote -v` listing of one remote, its fetch line and then its
/// push line, lists the remote once, with the URL of the fetch line alone:
/// the text after the tab up to the last space, so without the ` (fetch)`
/// marker; the push line, even with another URL, adds nothing.
pub proof fn law_remote_url(
    name: Seq<char>,
    url: Seq<char>,
    fetch: Seq<char>,
    push_url: Seq<char>,
    push: Seq<char>,
)
    requires
        free_of(name, '\t') && free_of(name, '\n'),
        free_of(url, '\n'),
        free_of(push_url, '\n'),
        free_of(fetch, ' ') && free_of(fetch, '\n') && free_of(fetch, '\r'),
        free_of(push, '\n') && free_of(push, '\r'),
    ensures
        remotes_from(
            lines_of(
                remote_line(name, url, fetch) + seq!['\n'] + remote_line(name, push_url, push) + seq![
                    '\n',
                ],
            ),
            seq![],
        ) == seq![(name, url)],
{
    let l1 = remote_line(name, url, fetch);
    let l2 = remote_line(name, push_url, push);
    let e = Seq::<char>::empty();
    lemma_remote_line_ends(name, url, fetch);
    lemma_remote_line_ends(name, push_url, push);
    let out = l1 + seq!['\n'] + l2 + seq!['\n'];
    assert(out =~= l1 + seq!['\n'] + (l2 + seq!['\n'] + e));
    lemma_split_cons(l1, l2 + seq!['\n'] + e, '\n');
    lemma_split_cons(l2, e, '\n');
    lemma_split_single(e, '\n');
    let parts = split_on(out, '\n');
    assert(parts =~= seq![l1, l2, e]);
    assert(parts.drop_last().map_values(|p: Seq<char>| strip_cr(p)) =~= seq![l1, l2]);
    let ls = lines_of(out);
    assert(ls =~= seq![l1, l2]);
    // the fetch line
    let rest1 = url + seq![' '] + fetch;
    lemma_first_char_at(name, rest1, '\t');
    assert(l1.take(name.len() as int) =~= name);
    assert(l1.skip(name.len() + 1int) =~= rest1);
    lemma_last_char_at(url, fetch, ' ');
    assert(rest1.take(url.len() as int) =~= url);
    let acc = Seq::<(Seq<char>, Seq<char>)>::empty().push((name, url));
    assert(!has_remote(Seq::<(Seq<char>, Seq<char>)>::empty(), name));
    assert(remotes_from(ls, seq![]) == remotes_from(ls.drop_first(), acc));
    // the push line names a remote already listed
    let rest2 = push_url + seq![' '] + push;
    lemma_first_char_at(name, rest2, '\t');
    assert(l2.take(name.len() as int) =~= name);
    assert(acc[0].0 == name);
    assert(has_remote(acc, name));
    assert(ls.drop_first() =~= seq![l2]);
    assert(seq![l2].drop_first() =~= Seq::<Seq<char>>::empty());
    assert(remotes_from(seq![l2], acc) == remotes_from(Seq::<Seq<char>>::empty(), acc));
    assert(acc =~= seq![(name, url)]);
}

/// No two remotes share a name.
pub open spec fn distinct_names(acc: Seq<(Seq<char>, Seq<char>)>) -> bool {
    forall|i: int, j: int| 0 <= i < j < acc.len() ==> (#[trigger] acc[i]).0 != (#[trigger] acc[j]).0
}

/// Each remote is listed once, and every line with a tab lists the remote
/// named by the text before its first tab; the remotes already listed stay,
/// first and unchanged.
pub proof fn law_remotes_once(ls: Seq<Seq<char>>, acc: Seq<(Seq<char>, Seq<char>)>)
    requires
        distinct_names(acc),
    ensures
        distinct_names(remotes_from(ls, acc)),
        remotes_from(ls, acc).len() >= acc.len(),
        remotes_from(ls, acc).take(acc.len() as int) == acc,
        forall|k: int|
            0 <= k < ls.len() && first_occ(#[trigger] ls[k], seq!['\t']) >= 0 ==> has_remote(
                remotes_from(ls, acc),
                ls[k].take(first_occ(ls[k], seq!['\t'])),
            ),
    decreases ls.len(),
{
    if ls.len() > 0 {
        let l = ls[0];
        let rest = ls.drop_first();
        let k = first_occ(l, seq!['\t']);
        let next = if k < 0 {
            acc
        } else {
            let name = l.take(k);
            let tail = l.skip(k + 1);
            if has_remote(acc, name) {
                acc
            } else {
                let m = last_occ(tail, seq![' ']);
                let url = if m >= 0 {
                    tail.take(m)
                } else {
                    tail
                };
                acc.push((name, url))
            }
        };
        assert(remotes_from(ls, acc) == remotes_from(rest, next));
        if k >= 0 && !has_remote(acc, l.take(k)) {
            assert forall|i: int, j: int| 0 <= i < j < next.len() implies (#[trigger] next[i]).0 != (
            #[trigger] next[j]).0 by {
                if j == acc.len() {
                    assert(next[i] == acc[i]);
                    assert(next[j].0 == l.take(k));
                } else {
                    assert(next[i] == acc[i] && next[j] == acc[j]);
                }
            }
        }
        law_remotes_once(rest, next);
        let res = remotes_from(rest, next);
        assert(next.take(acc.len() as int) =~= acc);
        assert(res.take(acc.len() as int) =~= res.take(next.len() as int).take(acc.len() as int));
        // the first line's name is listed
        if k >= 0 {
            let name = l.take(k);
            if !has_remote(acc, name) {
                assert(next[acc.len() as int].0 == name);
            }
            assert(has_remote(next, name));
            let j = choose|j: int| 0 <= j < next.len() && next[j].0 == name;
            assert(res.take(next.len() as int) == next);
            assert(res[j] == res.take(next.len() as int)[j]);
            assert(res[j].0 == name);
            assert(has_remote(res, name));
        }
        assert forall|q: int| 0 <= q < ls.len() && first_occ(#[trigger] ls[q], seq!['\t']) >= 0 implies has_remote(
            res,
            ls[q].take(first_occ(ls[q], seq!['\t'])),
        ) by {
            if q > 0 {
                assert(rest[q - 1] == ls[q]);
            }
        }
    }
}

fn remote_known(acc: &Vec<RemoteInfo>, l: &Vec<char>, k: usize) -> (b: bool)
    requires
        k <= l.len(),
    ensures
        b == has_remote(remote_views(acc@), l@.take(k as int)),
{
    let mut j: usize = 0;
    while j < acc.len()
        invariant
            0 <= j <= acc.len(),
            k <= l.len(),
            forall|x: int| 0 <= x < j ==> remote_views(acc@)[x].0 != l@.take(k as int),
        decreases acc.len() - j,
    {
        let name = chars_of(acc[j].name.as_str());
        assert(l@.subrange(0, k as int) =~= l@.take(k as int));
        if crate::text::vec_range_eq(&name, l, 0, k) {
            assert(remote_views(acc@)[j as int].0 == l@.take(k as int));
            return true;
        }
        j += 1;
    }
    false
}

/// The remotes of `git remote -v` output, each listed once with the URL of
/// its first line (see `remotes_from`).
pub fn parse_remotes(out: &str) -> (r: Vec<RemoteInfo>)
    ensures
        remote_views(r@) == remotes_from(lines_of(out@), seq![]),
{
    let v = chars_of(out);
    let ls = lines(&v);
    let ghost lv = views(ls@);
    let mut r: Vec<RemoteInfo> = Vec::new();
    let mut i: usize = 0;
    assert(lv.skip(0) =~= lv);
    assert(remote_views(r@) =~= Seq::<(Seq<char>, Seq<char>)>::empty());
    while i < ls.len()
        invariant
            0 <= i <= ls.len(),
            lv == views(ls@),
            lv == lines_of(out@),
            remotes_from(lv.skip(i as int), remote_views(r@)) == remotes_from(
                lines_of(out@),
                seq![],
            ),
        decreases ls.len() - i,
    {
        let l = &ls[i];
        let n = l.len();
        assert(lv.skip(i as int)[0] == l@);
        assert(lv.skip(i as int).drop_first() =~= lv.skip(i as int + 1));
        assert(l@.subrange(0, n as int) =~= l@);
        let ghost acc0 = remote_views(r@);
        let ghost t = lv.skip(i as int);
        match find_char(l, 0, n, '\t') {
            None => {
                assert(remotes_from(t, acc0) == remotes_from(t.drop_first(), acc0));
            },
            Some(k) => {
                if remote_known(&r, l, k) {
                    assert(remotes_from(t, acc0) == remotes_from(t.drop_first(), acc0));
                } else {
                    let ghost rest = l@.skip(k + 1);
                    assert(rest =~= l@.subrange(k + 1, n as int));
                    let space = vec![' '];
                    assert(space@ =~= seq![' ']);
                    let end = match rfind_in(l, k + 1, n, &space) {
                        Some(m) => {
                            assert(rest.take(m - (k + 1)) =~= l@.subrange(k + 1, m as int));
                            m
                        },
                        None => n,
                    };
                    let ghost before = remote_views(r@);
                    let rem = RemoteInfo { name: string_from(l, 0, k), url: string_from(l, k + 1, end) };
                    assert(l@.take(k as int) =~= l@.subrange(0, k as int));
                    r.push(rem);
                    assert(remote_views(r@) =~= before.push(remote_view(rem)));
                    assert(remote_view(rem) == (l@.take(k as int), if last_occ(rest, seq![' '])
                        >= 0 {
                        rest.take(last_occ(rest, seq![' ']))
                    } else {
                        rest
                    }));
                    assert(remotes_from(t, acc0) == remotes_from(
                        t.drop_first(),
                        acc0.push(remote_view(rem)),
                    ));
                }
            },
        }
        i += 1;
    }
    r
}

} // verus!
