//! Character-level text handling shared by every parser of git's output:
//! splitting on a separator, line splitting, whitespace trimming, literal
//! matching and decimal number parsing, each stated over `Seq<char>`.
use vstd::prelude::*;

verus! {

/// `String::push` appends one character to the string.
pub assume_specification[ String::push ](s: &mut String, ch: char)
    ensures
        final(s)@ == old(s)@.push(ch),
;

/// The views of a sequence of strings.
pub open spec fn string_views(s: Seq<String>) -> Seq<Seq<char>> {
    s.map_values(|x: String| x@)
}

/// The views of a sequence of character vectors.
pub open spec fn views(s: Seq<Vec<char>>) -> Seq<Seq<char>> {
    s.map_values(|x: Vec<char>| x@)
}

/// `s` cut at every occurrence of `sep`: `k` separators give `k + 1` pieces,
/// so the empty text gives one empty piece (the meaning of `str::split`).
pub open spec fn split_on(s: Seq<char>, sep: char) -> Seq<Seq<char>>
    decreases s.len(),
{
    if s.len() == 0 {
        seq![Seq::<char>::empty()]
    } else {
        let r = split_on(s.drop_last(), sep);
        if s.last() == sep {
            r.push(Seq::<char>::empty())
        } else {
            r.update(r.len() - 1, r.last().push(s.last()))
        }
    }
}

pub proof fn lemma_split_on_len(s: Seq<char>, sep: char)
    ensures
        split_on(s, sep).len() >= 1,
    decreases s.len(),
{
    if s.len() > 0 {
        lemma_split_on_len(s.drop_last(), sep);
    }
}

/// Unicode `White_Space`, the set `char::is_whitespace` tests.
pub open spec fn is_ws(c: char) -> bool {
    let u = c as u32;
    (9 <= u && u <= 13) || u == 32 || u == 0x85 || u == 0xA0 || u == 0x1680 || (0x2000 <= u
        && u <= 0x200A) || u == 0x2028 || u == 0x2029 || u == 0x202F || u == 0x205F || u == 0x3000
}

/// `s` without its leading whitespace.
pub open spec fn trim_start(s: Seq<char>) -> Seq<char>
    decreases s.len(),
{
    if s.len() > 0 && is_ws(s[0]) {
        trim_start(s.drop_first())
    } else {
        s
    }
}

/// `s` without its trailing whitespace.
pub open spec fn trim_end(s: Seq<char>) -> Seq<char>
    decreases s.len(),
{
    if s.len() > 0 && is_ws(s.last()) {
        trim_end(s.drop_last())
    } else {
        s
    }
}

/// `s` without leading and trailing whitespace.
pub open spec fn trim(s: Seq<char>) -> Seq<char> {
    trim_end(trim_start(s))
}

/// One trailing carriage return removed, when there is one.
pub open spec fn strip_cr(s: Seq<char>) -> Seq<char> {
    if s.len() > 0 && s.last() == '\r' {
        s.drop_last()
    } else {
        s
    }
}

/// The lines of `s` as `str::lines` yields them: split at `\n`, a `\r`
/// before that `\n` dropped, and no empty line after a final `\n`.
pub open spec fn lines_of(s: Seq<char>) -> Seq<Seq<char>> {
    let parts = split_on(s, '\n');
    let body = parts.drop_last().map_values(|p: Seq<char>| strip_cr(p));
    if parts.last().len() == 0 {
        body
    } else {
        body.push(parts.last())
    }
}

/// The pieces of `s` as `str::split_inclusive('\n')` yields them: each line
/// with its `\n` kept, and no empty piece after a final `\n`.
pub open spec fn lines_inclusive(s: Seq<char>) -> Seq<Seq<char>> {
    let parts = split_on(s, '\n');
    let body = parts.drop_last().map_values(|p: Seq<char>| p.push('\n'));
    if parts.last().len() == 0 {
        body
    } else {
        body.push(parts.last())
    }
}

/// `p` is a prefix of `s`.
pub open spec fn has_prefix(s: Seq<char>, p: Seq<char>) -> bool {
    p.len() <= s.len() && s.take(p.len() as int) == p
}

/// `p` is a suffix of `s`.
pub open spec fn has_suffix(s: Seq<char>, p: Seq<char>) -> bool {
    p.len() <= s.len() && s.skip(s.len() - p.len()) == p
}

/// `p` occurs in `s` starting at `i`.
pub open spec fn occurs_at(s: Seq<char>, p: Seq<char>, i: int) -> bool {
    0 <= i && i + p.len() <= s.len() && s.subrange(i, i + p.len()) == p
}

/// An ASCII decimal digit.
pub open spec fn is_digit(c: char) -> bool {
    48 <= (c as u32) && (c as u32) <= 57
}

/// The number that a run of decimal digits spells.
pub open spec fn digits_value(s: Seq<char>) -> nat
    decreases s.len(),
{
    if s.len() == 0 {
        0
    } else {
        digits_value(s.drop_last()) * 10 + ((s.last() as u32) - 48) as nat
    }
}

/// The digits after an optional leading `+`.
pub open spec fn unsigned_digits(s: Seq<char>) -> Seq<char> {
    if s.len() > 0 && s[0] == '+' {
        s.drop_first()
    } else {
        s
    }
}

/// What `str::parse` gives for an unsigned integer type whose largest value
/// is `max`: an optional `+`, then at least one digit and nothing else, with a
/// value that fits.
pub open spec fn parse_unsigned(s: Seq<char>, max: nat) -> Option<nat> {
    let d = unsigned_digits(s);
    if d.len() > 0 && (forall|i: int| 0 <= i < d.len() ==> is_digit(#[trigger] d[i]))
        && digits_value(d) <= max {
        Some(digits_value(d))
    } else {
        None
    }
}

/// `str::parse::<u32>`.
pub open spec fn parse_u32_spec(s: Seq<char>) -> Option<u32> {
    match parse_unsigned(s, u32::MAX as nat) {
        Some(n) => Some(n as u32),
        None => None,
    }
}

/// `str::parse::<u64>`.
pub open spec fn parse_u64_spec(s: Seq<char>) -> Option<u64> {
    match parse_unsigned(s, u64::MAX as nat) {
        Some(n) => Some(n as u64),
        None => None,
    }
}

/// `str::parse::<i64>`: an optional sign, then at least one digit, with a
/// value in range.
pub open spec fn parse_i64_spec(s: Seq<char>) -> Option<i64> {
    if s.len() > 0 && s[0] == '-' {
        let d = s.drop_first();
        if d.len() > 0 && (forall|i: int| 0 <= i < d.len() ==> is_digit(#[trigger] d[i]))
            && digits_value(d) <= 0x8000_0000_0000_0000 {
            Some((0 - digits_value(d)) as i64)
        } else {
            None
        }
    } else {
        match parse_unsigned(s, i64::MAX as nat) {
            Some(n) => Some(n as i64),
            None => None,
        }
    }
}


/// `p` occurs in `s` at `i` and nowhere before.
pub open spec fn is_first_occ(s: Seq<char>, p: Seq<char>, i: int) -> bool {
    occurs_at(s, p, i) && forall|j: int| 0 <= j < i ==> !occurs_at(s, p, j)
}

/// `p` occurs in `s` at `i` and nowhere after.
pub open spec fn is_last_occ(s: Seq<char>, p: Seq<char>, i: int) -> bool {
    occurs_at(s, p, i) && forall|j: int| i < j ==> !occurs_at(s, p, j)
}

/// Where `p` first occurs in `s`, or -1 when it does not occur.
pub open spec fn first_occ(s: Seq<char>, p: Seq<char>) -> int {
    if exists|i: int| is_first_occ(s, p, i) {
        choose|i: int| is_first_occ(s, p, i)
    } else {
        -1
    }
}

/// Where `p` last occurs in `s`, or -1 when it does not occur.
pub open spec fn last_occ(s: Seq<char>, p: Seq<char>) -> int {
    if exists|i: int| is_last_occ(s, p, i) {
        choose|i: int| is_last_occ(s, p, i)
    } else {
        -1
    }
}

pub proof fn lemma_first_occ_is(s: Seq<char>, p: Seq<char>, k: int)
    requires
        is_first_occ(s, p, k),
    ensures
        first_occ(s, p) == k,
{
    let c = choose|i: int| is_first_occ(s, p, i);
    assert(is_first_occ(s, p, c));
    if c < k {
        assert(!occurs_at(s, p, c));
    }
    if k < c {
        assert(!occurs_at(s, p, k));
    }
}

pub proof fn lemma_first_occ_none(s: Seq<char>, p: Seq<char>)
    requires
        forall|i: int| !occurs_at(s, p, i),
    ensures
        first_occ(s, p) == -1,
{
}

pub proof fn lemma_first_occ_props(s: Seq<char>, p: Seq<char>)
    ensures
        first_occ(s, p) >= -1,
        first_occ(s, p) >= 0 ==> is_first_occ(s, p, first_occ(s, p)),
        first_occ(s, p) == -1 ==> forall|i: int| !occurs_at(s, p, i),
{
    if exists|i: int| is_first_occ(s, p, i) {
        let c = choose|i: int| is_first_occ(s, p, i);
        assert(c >= 0);
    } else {
        assert forall|i: int| !occurs_at(s, p, i) by {
            if occurs_at(s, p, i) {
                // the least occurrence would be a first one
                lemma_least_occurrence(s, p, i);
            }
        }
    }
}

proof fn lemma_least_occurrence(s: Seq<char>, p: Seq<char>, i: int)
    requires
        occurs_at(s, p, i),
    ensures
        exists|k: int| is_first_occ(s, p, k),
    decreases i,
{
    if forall|j: int| 0 <= j < i ==> !occurs_at(s, p, j) {
        assert(is_first_occ(s, p, i));
    } else {
        let j = choose|j: int| 0 <= j < i && occurs_at(s, p, j);
        lemma_least_occurrence(s, p, j);
    }
}

proof fn lemma_greatest_occurrence(s: Seq<char>, p: Seq<char>, i: int)
    requires
        occurs_at(s, p, i),
    ensures
        exists|k: int| is_last_occ(s, p, k),
    decreases s.len() - i,
{
    if forall|j: int| i < j ==> !occurs_at(s, p, j) {
        assert(is_last_occ(s, p, i));
    } else {
        let j = choose|j: int| i < j && occurs_at(s, p, j);
        lemma_greatest_occurrence(s, p, j);
    }
}

pub proof fn lemma_last_occ_is(s: Seq<char>, p: Seq<char>, k: int)
    requires
        is_last_occ(s, p, k),
    ensures
        last_occ(s, p) == k,
{
    let c = choose|i: int| is_last_occ(s, p, i);
    assert(is_last_occ(s, p, c));
    if c < k {
        assert(!occurs_at(s, p, k));
    }
    if k < c {
        assert(!occurs_at(s, p, c));
    }
}

pub proof fn lemma_last_occ_props(s: Seq<char>, p: Seq<char>)
    ensures
        last_occ(s, p) >= -1,
        last_occ(s, p) >= 0 ==> is_last_occ(s, p, last_occ(s, p)),
        last_occ(s, p) == -1 ==> forall|i: int| !occurs_at(s, p, i),
{
    if exists|i: int| is_last_occ(s, p, i) {
        let c = choose|i: int| is_last_occ(s, p, i);
        assert(c >= 0);
    } else {
        assert forall|i: int| !occurs_at(s, p, i) by {
            if occurs_at(s, p, i) {
                lemma_greatest_occurrence(s, p, i);
            }
        }
    }
}

/// The first occurrence of `pat` in `v[a..b]`, as an index into `v`.
pub fn find_in(v: &Vec<char>, a: usize, b: usize, pat: &Vec<char>) -> (r: Option<usize>)
    requires
        a <= b <= v.len(),
    ensures
        match r {
            Some(k) => a <= k && k + pat@.len() <= b && first_occ(
                v@.subrange(a as int, b as int),
                pat@,
            ) == k - a && v@.subrange(k as int, k + pat@.len()) == pat@,
            None => first_occ(v@.subrange(a as int, b as int), pat@) == -1,
        },
{
    let ghost s = v@.subrange(a as int, b as int);
    let m = pat.len();
    if m > b - a {
        proof {
            assert forall|i: int| !occurs_at(s, pat@, i) by {}
            lemma_first_occ_none(s, pat@);
        }
        return None;
    }
    if m == 0 {
        proof {
            assert(s.subrange(0, 0) =~= pat@);
            assert(is_first_occ(s, pat@, 0));
            lemma_first_occ_is(s, pat@, 0);
            assert(v@.subrange(a as int, a as int) =~= pat@);
        }
        return Some(a);
    }
    let mut i = a;
    while i <= b - m
        invariant
            a <= i <= b - m + 1,
            m >= 1,
            m == pat@.len(),
            m <= b - a,
            b <= v.len(),
            s == v@.subrange(a as int, b as int),
            forall|j: int| 0 <= j < i - a ==> !occurs_at(s, pat@, j),
        decreases b - i,
    {
        if range_eq(v, i, i + m, pat) {
            proof {
                assert(s.subrange(i - a, i - a + m) =~= v@.subrange(i as int, i + m));
                assert(is_first_occ(s, pat@, i - a));
                lemma_first_occ_is(s, pat@, i - a);
            }
            return Some(i);
        }
        assert(s.subrange(i - a, i - a + m) =~= v@.subrange(i as int, i + m));
        i += 1;
    }
    proof {
        assert forall|j: int| !occurs_at(s, pat@, j) by {}
        lemma_first_occ_none(s, pat@);
    }
    None
}

/// The last occurrence of `pat` in `v[a..b]`, as an index into `v`.
pub fn rfind_in(v: &Vec<char>, a: usize, b: usize, pat: &Vec<char>) -> (r: Option<usize>)
    requires
        a <= b <= v.len(),
    ensures
        match r {
            Some(k) => a <= k && k + pat@.len() <= b && last_occ(
                v@.subrange(a as int, b as int),
                pat@,
            ) == k - a && v@.subrange(k as int, k + pat@.len()) == pat@,
            None => last_occ(v@.subrange(a as int, b as int), pat@) == -1,
        },
{
    let ghost s = v@.subrange(a as int, b as int);
    let m = pat.len();
    if m > b - a {
        proof {
            assert forall|i: int| !occurs_at(s, pat@, i) by {}
            lemma_last_occ_props(s, pat@);
            if last_occ(s, pat@) >= 0 {
                assert(occurs_at(s, pat@, last_occ(s, pat@)));
            }
        }
        return None;
    }
    let mut e = b;
    while e >= a + m
        invariant
            a + m <= b,
            a <= e <= b,
            m == pat@.len(),
            b <= v.len(),
            s == v@.subrange(a as int, b as int),
            forall|j: int| e - a - m < j ==> !occurs_at(s, pat@, j),
        decreases e,
    {
        let i = e - m;
        if range_eq(v, i, e, pat) {
            proof {
                assert(s.subrange(i - a, i - a + m) =~= v@.subrange(i as int, e as int));
                assert(is_last_occ(s, pat@, i - a));
                lemma_last_occ_is(s, pat@, i - a);
            }
            return Some(i);
        }
        assert(s.subrange(i - a, i - a + m) =~= v@.subrange(i as int, e as int));
        if e == a + m {
            proof {
                lemma_last_occ_props(s, pat@);
                if last_occ(s, pat@) >= 0 {
                    assert(occurs_at(s, pat@, last_occ(s, pat@)));
                }
            }
            return None;
        }
        e -= 1;
    }
    proof {
        lemma_last_occ_props(s, pat@);
        if last_occ(s, pat@) >= 0 {
            assert(occurs_at(s, pat@, last_occ(s, pat@)));
        }
    }
    None
}

/// The first `c` in `v[a..b]`, as an index into `v`.
pub fn find_char(v: &Vec<char>, a: usize, b: usize, c: char) -> (r: Option<usize>)
    requires
        a <= b <= v.len(),
    ensures
        match r {
            Some(k) => a <= k < b && v@[k as int] == c && first_occ(
                v@.subrange(a as int, b as int),
                seq![c],
            ) == k - a,
            None => first_occ(v@.subrange(a as int, b as int), seq![c]) == -1,
        },
{
    let ghost s = v@.subrange(a as int, b as int);
    let mut i = a;
    while i < b
        invariant
            a <= i <= b <= v.len(),
            s == v@.subrange(a as int, b as int),
            forall|j: int| 0 <= j < i - a ==> !occurs_at(s, seq![c], j),
        decreases b - i,
    {
        if v[i] == c {
            proof {
                assert(s.subrange(i - a, i - a + 1) =~= seq![c]);
                lemma_first_occ_is(s, seq![c], i - a);
            }
            return Some(i);
        }
        assert(s.subrange(i - a, i - a + 1)[0] != c);
        i += 1;
    }
    proof {
        lemma_first_occ_none(s, seq![c]);
    }
    None
}

/// The characters of `s`, in order.
pub fn chars_of(s: &str) -> (v: Vec<char>)
    ensures
        v@ == s@,
{
    let mut v: Vec<char> = Vec::new();
    for c in it: s.chars()
        invariant
            v@ == it.seq().take(it.index() as int),
            it.seq() == s@,
    {
        v.push(c);
    }
    v
}

/// The string made of `v[a..b]`.
pub fn string_from(v: &Vec<char>, a: usize, b: usize) -> (s: String)
    requires
        a <= b <= v.len(),
    ensures
        s@ == v@.subrange(a as int, b as int),
{
    let mut s = String::new();
    let mut i = a;
    while i < b
        invariant
            a <= i <= b <= v.len(),
            s@ == v@.subrange(a as int, i as int),
        decreases b - i,
    {
        s.push(v[i]);
        i += 1;
        assert(s@ =~= v@.subrange(a as int, i as int));
    }
    s
}

/// The string made of all of `v`.
pub fn string_of(v: &Vec<char>) -> (s: String)
    ensures
        s@ == v@,
{
    let s = string_from(v, 0, v.len());
    assert(v@.subrange(0, v@.len() as int) =~= v@);
    s
}

/// A copy of `v[a..b]`.
pub fn sub_vec(v: &Vec<char>, a: usize, b: usize) -> (r: Vec<char>)
    requires
        a <= b <= v.len(),
    ensures
        r@ == v@.subrange(a as int, b as int),
{
    let mut r: Vec<char> = Vec::new();
    let mut i = a;
    while i < b
        invariant
            a <= i <= b <= v.len(),
            r@ == v@.subrange(a as int, i as int),
        decreases b - i,
    {
        r.push(v[i]);
        i += 1;
        assert(r@ =~= v@.subrange(a as int, i as int));
    }
    r
}

/// `v` cut at every `sep` (see `split_on`).
pub fn split_chars(v: &Vec<char>, sep: char) -> (r: Vec<Vec<char>>)
    ensures
        views(r@) == split_on(v@, sep),
{
    let mut r: Vec<Vec<char>> = Vec::new();
    let mut cur: Vec<char> = Vec::new();
    let mut i: usize = 0;
    assert(v@.take(0) =~= Seq::<char>::empty());
    assert(views(r@).push(cur@) =~= split_on(v@.take(0), sep));
    while i < v.len()
        invariant
            0 <= i <= v.len(),
            views(r@).push(cur@) == split_on(v@.take(i as int), sep),
        decreases v.len() - i,
    {
        let c = v[i];
        let ghost pre = v@.take(i as int);
        assert(v@.take(i as int + 1).drop_last() =~= pre);
        assert(v@.take(i as int + 1).last() == c);
        proof {
            lemma_split_on_len(pre, sep);
        }
        if c == sep {
            r.push(cur);
            cur = Vec::new();
            assert(views(r@).push(cur@) =~= split_on(pre, sep).push(Seq::<char>::empty()));
        } else {
            let ghost old_r = r@;
            let ghost old_cur = cur@;
            cur.push(c);
            assert(views(r@).push(cur@) =~= views(old_r).push(old_cur).update(
                views(old_r).len() as int,
                old_cur.push(c),
            ));
        }
        i += 1;
    }
    assert(v@.take(v.len() as int) =~= v@);
    r.push(cur);
    r
}

/// `char::is_whitespace`.
pub fn is_whitespace(c: char) -> (b: bool)
    ensures
        b == is_ws(c),
{
    let u = c as u32;
    (9 <= u && u <= 13) || u == 32 || u == 0x85 || u == 0xA0 || u == 0x1680 || (0x2000 <= u && u
        <= 0x200A) || u == 0x2028 || u == 0x2029 || u == 0x202F || u == 0x205F || u == 0x3000
}

proof fn lemma_trim_start_step(s: Seq<char>, a: int, b: int)
    requires
        0 <= a < b <= s.len(),
        is_ws(s[a]),
    ensures
        trim_start(s.subrange(a, b)) == trim_start(s.subrange(a + 1, b)),
{
    assert(s.subrange(a, b).drop_first() =~= s.subrange(a + 1, b));
}

proof fn lemma_trim_end_step(s: Seq<char>, a: int, b: int)
    requires
        0 <= a < b <= s.len(),
        is_ws(s[b - 1]),
    ensures
        trim_end(s.subrange(a, b)) == trim_end(s.subrange(a, b - 1)),
{
    assert(s.subrange(a, b).drop_last() =~= s.subrange(a, b - 1));
}

/// The bounds of `v[a..b]` with leading whitespace skipped.
pub fn trim_start_range(v: &Vec<char>, a: usize, b: usize) -> (r: usize)
    requires
        a <= b <= v.len(),
    ensures
        a <= r <= b,
        v@.subrange(r as int, b as int) == trim_start(v@.subrange(a as int, b as int)),
{
    let mut i = a;
    while i < b && is_whitespace(v[i])
        invariant
            a <= i <= b <= v.len(),
            trim_start(v@.subrange(i as int, b as int)) == trim_start(
                v@.subrange(a as int, b as int),
            ),
        decreases b - i,
    {
        proof {
            lemma_trim_start_step(v@, i as int, b as int);
        }
        i += 1;
    }
    proof {
        r_done_start(v@, i as int, b as int);
    }
    i
}

proof fn r_done_start(s: Seq<char>, i: int, b: int)
    requires
        0 <= i <= b <= s.len(),
        i == b || !is_ws(s[i]),
    ensures
        trim_start(s.subrange(i, b)) == s.subrange(i, b),
{
}

/// The end of `v[a..b]` with trailing whitespace dropped.
pub fn trim_end_range(v: &Vec<char>, a: usize, b: usize) -> (r: usize)
    requires
        a <= b <= v.len(),
    ensures
        a <= r <= b,
        v@.subrange(a as int, r as int) == trim_end(v@.subrange(a as int, b as int)),
{
    let mut j = b;
    while j > a && is_whitespace(v[j - 1])
        invariant
            a <= j <= b <= v.len(),
            trim_end(v@.subrange(a as int, j as int)) == trim_end(v@.subrange(a as int, b as int)),
        decreases j - a,
    {
        proof {
            lemma_trim_end_step(v@, a as int, j as int);
        }
        j -= 1;
    }
    j
}

/// The bounds of `v[a..b]` trimmed on both sides.
pub fn trim_range(v: &Vec<char>, a: usize, b: usize) -> (r: (usize, usize))
    requires
        a <= b <= v.len(),
    ensures
        a <= r.0 <= r.1 <= b,
        v@.subrange(r.0 as int, r.1 as int) == trim(v@.subrange(a as int, b as int)),
{
    let lo = trim_start_range(v, a, b);
    let hi = trim_end_range(v, lo, b);
    (lo, hi)
}

/// A copy of `v` with leading and trailing whitespace removed.
pub fn trim_vec(v: &Vec<char>) -> (r: Vec<char>)
    ensures
        r@ == trim(v@),
{
    let (lo, hi) = trim_range(v, 0, v.len());
    assert(v@.subrange(0, v@.len() as int) =~= v@);
    sub_vec(v, lo, hi)
}

/// Whether `v[a..b]` is exactly `lit`.
pub fn range_eq(v: &Vec<char>, a: usize, b: usize, lit: &Vec<char>) -> (r: bool)
    requires
        a <= b <= v.len(),
    ensures
        r == (v@.subrange(a as int, b as int) == lit@),
{
    if b - a != lit.len() {
        assert(v@.subrange(a as int, b as int).len() != lit@.len());
        return false;
    }
    let mut k: usize = 0;
    while k < lit.len()
        invariant
            b - a == lit.len(),
            a <= b <= v.len(),
            0 <= k <= lit.len(),
            forall|j: int| 0 <= j < k ==> v@[a + j] == lit@[j],
        decreases lit.len() - k,
    {
        if v[a + k] != lit[k] {
            assert(v@.subrange(a as int, b as int)[k as int] != lit@[k as int]);
            return false;
        }
        k += 1;
    }
    assert(v@.subrange(a as int, b as int) =~= lit@);
    true
}

/// Whether `v[a..b]` starts with `lit`.
pub fn range_starts_with(v: &Vec<char>, a: usize, b: usize, lit: &Vec<char>) -> (r: bool)
    requires
        a <= b <= v.len(),
    ensures
        r == has_prefix(v@.subrange(a as int, b as int), lit@),
{
    if lit.len() > b - a {
        return false;
    }
    let r = range_eq(v, a, a + lit.len(), lit);
    assert(v@.subrange(a as int, b as int).take(lit@.len() as int) =~= v@.subrange(
        a as int,
        a + lit@.len(),
    ));
    r
}

/// Whether `v[a..b]` ends with `lit`.
pub fn range_ends_with(v: &Vec<char>, a: usize, b: usize, lit: &Vec<char>) -> (r: bool)
    requires
        a <= b <= v.len(),
    ensures
        r == has_suffix(v@.subrange(a as int, b as int), lit@),
{
    if lit.len() > b - a {
        return false;
    }
    let r = range_eq(v, b - lit.len(), b, lit);
    assert(v@.subrange(a as int, b as int).skip((b - a) - lit@.len()) =~= v@.subrange(
        b - lit@.len(),
        b as int,
    ));
    r
}

/// Whether `v` equals the string `lit`.
pub fn vec_eq_str(v: &Vec<char>, lit: &str) -> (r: bool)
    ensures
        r == (v@ == lit@),
{
    let l = chars_of(lit);
    let r = range_eq(v, 0, v.len(), &l);
    assert(v@.subrange(0, v@.len() as int) =~= v@);
    r
}

/// Whether `v` starts with the string `lit`.
pub fn vec_starts_with(v: &Vec<char>, lit: &str) -> (r: bool)
    ensures
        r == has_prefix(v@, lit@),
{
    let l = chars_of(lit);
    let r = range_starts_with(v, 0, v.len(), &l);
    assert(v@.subrange(0, v@.len() as int) =~= v@);
    r
}

/// Whether `c` is a decimal digit.
pub fn char_is_digit(c: char) -> (b: bool)
    ensures
        b == is_digit(c),
{
    48 <= (c as u32) && (c as u32) <= 57
}

proof fn lemma_digits_step(d: Seq<char>, i: int)
    requires
        0 <= i < d.len(),
    ensures
        digits_value(d.take(i + 1)) == digits_value(d.take(i)) * 10 + ((d[i] as u32) - 48) as nat,
{
    assert(d.take(i + 1).drop_last() =~= d.take(i));
}

/// The value of `v[a..b]` as a decimal number of at most `max`, where
/// `max` is `u32::MAX` or `u64::MAX` (see `parse_unsigned`).
fn parse_unsigned_range(v: &Vec<char>, a: usize, b: usize, max: u64) -> (r: Option<u64>)
    requires
        a <= b <= v.len(),
    ensures
        match r {
            Some(n) => parse_unsigned(v@.subrange(a as int, b as int), max as nat) == Some(n as nat),
            None => parse_unsigned(v@.subrange(a as int, b as int), max as nat) is None,
        },
{
    let ghost s = v@.subrange(a as int, b as int);
    let mut start = a;
    if a < b && v[a] == '+' {
        start = a + 1;
    }
    let ghost d = v@.subrange(start as int, b as int);
    assert(unsigned_digits(s) =~= d);
    if start == b {
        return None;
    }
    let cap: u128 = max as u128 + 1;
    let mut acc: u128 = 0;
    let mut i = start;
    assert(d.take(0) =~= Seq::<char>::empty());
    while i < b
        invariant
            a <= start < b <= v.len(),
            start <= i <= b,
            d == v@.subrange(start as int, b as int),
            unsigned_digits(v@.subrange(a as int, b as int)) == d,
            cap == max as u128 + 1,
            forall|j: int| 0 <= j < i - start ==> is_digit(#[trigger] d[j]),
            acc as int == if digits_value(d.take(i - start)) < cap as nat {
                digits_value(d.take(i - start)) as int
            } else {
                cap as int
            },
        decreases b - i,
    {
        let c = v[i];
        if !char_is_digit(c) {
            assert(!is_digit(d[i - start]));
            return None;
        }
        proof {
            lemma_digits_step(d, i - start);
        }
        let dig: u128 = (c as u32 - 48) as u128;
        let next = acc * 10 + dig;
        acc = if next < cap {
            next
        } else {
            cap
        };
        i += 1;
    }
    assert(d.take(b - start) =~= d);
    if acc < cap {
        Some(acc as u64)
    } else {
        None
    }
}

/// `v[a..b].parse::<u32>()`.
pub fn parse_u32_range(v: &Vec<char>, a: usize, b: usize) -> (r: Option<u32>)
    requires
        a <= b <= v.len(),
    ensures
        r == parse_u32_spec(v@.subrange(a as int, b as int)),
{
    match parse_unsigned_range(v, a, b, u32::MAX as u64) {
        Some(n) => Some(n as u32),
        None => None,
    }
}

/// `v[a..b].parse::<u64>()`.
pub fn parse_u64_range(v: &Vec<char>, a: usize, b: usize) -> (r: Option<u64>)
    requires
        a <= b <= v.len(),
    ensures
        r == parse_u64_spec(v@.subrange(a as int, b as int)),
{
    parse_unsigned_range(v, a, b, u64::MAX)
}

/// `v.parse::<u32>()`.
pub fn parse_u32_vec(v: &Vec<char>) -> (r: Option<u32>)
    ensures
        r == parse_u32_spec(v@),
{
    assert(v@.subrange(0, v@.len() as int) =~= v@);
    parse_u32_range(v, 0, v.len())
}

/// `v.parse::<u64>()`.
pub fn parse_u64_vec(v: &Vec<char>) -> (r: Option<u64>)
    ensures
        r == parse_u64_spec(v@),
{
    assert(v@.subrange(0, v@.len() as int) =~= v@);
    parse_u64_range(v, 0, v.len())
}

/// The lines of `v` (see `lines_of`).
pub fn lines(v: &Vec<char>) -> (r: Vec<Vec<char>>)
    ensures
        views(r@) == lines_of(v@),
{
    let parts = split_chars(v, '\n');
    proof {
        lemma_split_on_len(v@, '\n');
    }
    let n = parts.len();
    let mut r: Vec<Vec<char>> = Vec::new();
    let mut i: usize = 0;
    let ghost ps = split_on(v@, '\n');
    while i + 1 < n
        invariant
            n == parts.len() >= 1,
            views(parts@) == ps,
            0 <= i <= n - 1,
            views(r@) == ps.drop_last().map_values(|p: Seq<char>| strip_cr(p)).take(i as int),
        decreases n - i,
    {
        let p = &parts[i];
        let mut end = p.len();
        if end > 0 && p[end - 1] == '\r' {
            end -= 1;
        }
        let line = sub_vec(p, 0, end);
        assert(ps[i as int] == p@);
        assert(line@ =~= strip_cr(ps[i as int]));
        let ghost old_r = r@;
        let ghost mapped = ps.drop_last().map_values(|p: Seq<char>| strip_cr(p));
        assert(mapped[i as int] == strip_cr(ps[i as int]));
        r.push(line);
        assert(views(r@) =~= views(old_r).push(line@));
        assert(mapped.take(i as int + 1) =~= mapped.take(i as int).push(mapped[i as int]));
        i += 1;
    }
    assert(ps.drop_last().map_values(|p: Seq<char>| strip_cr(p)).take(i as int) =~= ps.drop_last().map_values(
        |p: Seq<char>| strip_cr(p),
    ));
    let last = &parts[n - 1];
    assert(last@ == ps.last());
    if last.len() > 0 {
        let l = sub_vec(last, 0, last.len());
        assert(l@ =~= last@);
        let ghost old_r = r@;
        r.push(l);
        assert(views(r@) =~= views(old_r).push(ps.last()));
    }
    r
}

/// The pieces of `s` joined back together.
pub open spec fn flatten(s: Seq<Seq<char>>) -> Seq<char>
    decreases s.len(),
{
    if s.len() == 0 {
        Seq::<char>::empty()
    } else {
        flatten(s.drop_last()) + s.last()
    }
}

pub proof fn lemma_flatten_step(s: Seq<Seq<char>>, a: int, i: int)
    requires
        0 <= a <= i < s.len(),
    ensures
        flatten(s.subrange(a, i + 1)) == flatten(s.subrange(a, i)) + s[i],
{
    assert(s.subrange(a, i + 1).drop_last() =~= s.subrange(a, i));
}

/// Appends the characters of `v` to `s`.
pub fn push_all(s: &mut String, v: &Vec<char>)
    ensures
        final(s)@ == old(s)@ + v@,
{
    let mut i: usize = 0;
    while i < v.len()
        invariant
            0 <= i <= v.len(),
            s@ == old(s)@ + v@.take(i as int),
        decreases v.len() - i,
    {
        s.push(v[i]);
        i += 1;
        assert(s@ =~= old(s)@ + v@.take(i as int));
    }
    assert(v@.take(v.len() as int) =~= v@);
}

/// The pieces of `v` as `str::split_inclusive('\n')` yields them.
pub fn lines_incl(v: &Vec<char>) -> (r: Vec<Vec<char>>)
    ensures
        views(r@) == lines_inclusive(v@),
{
    let parts = split_chars(v, '\n');
    proof {
        lemma_split_on_len(v@, '\n');
    }
    let n = parts.len();
    let mut r: Vec<Vec<char>> = Vec::new();
    let mut i: usize = 0;
    let ghost ps = split_on(v@, '\n');
    let ghost mapped = ps.drop_last().map_values(|p: Seq<char>| p.push('\n'));
    while i + 1 < n
        invariant
            n == parts.len() >= 1,
            views(parts@) == ps,
            mapped == ps.drop_last().map_values(|p: Seq<char>| p.push('\n')),
            0 <= i <= n - 1,
            views(r@) == mapped.take(i as int),
        decreases n - i,
    {
        let p = &parts[i];
        let mut line = sub_vec(p, 0, p.len());
        line.push('\n');
        assert(ps[i as int] == p@);
        assert(line@ =~= ps[i as int].push('\n'));
        assert(mapped[i as int] == ps[i as int].push('\n'));
        let ghost old_r = r@;
        r.push(line);
        assert(views(r@) =~= views(old_r).push(line@));
        assert(mapped.take(i as int + 1) =~= mapped.take(i as int).push(mapped[i as int]));
        i += 1;
    }
    assert(mapped.take(i as int) =~= mapped);
    let last = &parts[n - 1];
    assert(last@ == ps.last());
    if last.len() > 0 {
        let l = sub_vec(last, 0, last.len());
        assert(l@ =~= last@);
        let ghost old_r = r@;
        r.push(l);
        assert(views(r@) =~= views(old_r).push(ps.last()));
    }
    r
}

/// Appends `v[a..b]` to `s`.
pub fn push_range(s: &mut String, v: &Vec<char>, a: usize, b: usize)
    requires
        a <= b <= v.len(),
    ensures
        final(s)@ == old(s)@ + v@.subrange(a as int, b as int),
{
    let mut i = a;
    while i < b
        invariant
            a <= i <= b <= v.len(),
            s@ == old(s)@ + v@.subrange(a as int, i as int),
        decreases b - i,
    {
        s.push(v[i]);
        i += 1;
        assert(s@ =~= old(s)@ + v@.subrange(a as int, i as int));
    }
}

/// `s` cut at every non-overlapping occurrence of the non-empty pattern
/// `p`, found left to right (the meaning of `str::split` with a string).
pub open spec fn split_str(s: Seq<char>, p: Seq<char>) -> Seq<Seq<char>>
    decreases s.len(),
{
    if p.len() == 0 {
        seq![s]
    } else {
        let k = first_occ(s, p);
        if k < 0 || k + p.len() > s.len() {
            seq![s]
        } else {
            seq![s.take(k)] + split_str(s.skip(k + p.len()), p)
        }
    }
}

/// `v` cut at every occurrence of the non-empty pattern `p` (see `split_str`).
pub fn split_on_str(v: &Vec<char>, p: &Vec<char>) -> (r: Vec<Vec<char>>)
    requires
        p@.len() > 0,
    ensures
        views(r@) == split_str(v@, p@),
{
    let n = v.len();
    let mut r: Vec<Vec<char>> = Vec::new();
    let mut i: usize = 0;
    assert(v@.skip(0) =~= v@);
    loop
        invariant
            0 <= i <= n,
            n == v.len(),
            p@.len() > 0,
            views(r@) + split_str(v@.skip(i as int), p@) == split_str(v@, p@),
        decreases n - i,
    {
        assert(v@.skip(i as int) =~= v@.subrange(i as int, n as int));
        match find_in(v, i, n, p) {
            None => {
                let piece = sub_vec(v, i, n);
                let ghost before = views(r@);
                r.push(piece);
                assert(views(r@) =~= before + split_str(v@.skip(i as int), p@));
                return r;
            },
            Some(k) => {
                let piece = sub_vec(v, i, k);
                let ghost before = views(r@);
                let ghost rest = v@.skip(i as int);
                assert(rest.take(k - i) =~= piece@);
                assert(rest.skip(k - i + p@.len()) =~= v@.skip(k + p@.len()));
                r.push(piece);
                assert(views(r@) =~= before.push(piece@));
                assert(before.push(piece@) + split_str(v@.skip(k + p@.len()), p@) =~= before + (seq![
                    piece@,
                ] + split_str(v@.skip(k + p@.len()), p@)));
                i = k + p.len();
            },
        }
    }
}

/// `s` with every leading `c` removed (`str::trim_start_matches`).
pub open spec fn strip_leading(s: Seq<char>, c: char) -> Seq<char>
    decreases s.len(),
{
    if s.len() > 0 && s[0] == c {
        strip_leading(s.drop_first(), c)
    } else {
        s
    }
}

/// `s` with every trailing `c` removed (`str::trim_end_matches`).
pub open spec fn strip_trailing(s: Seq<char>, c: char) -> Seq<char>
    decreases s.len(),
{
    if s.len() > 0 && s.last() == c {
        strip_trailing(s.drop_last(), c)
    } else {
        s
    }
}

/// The bounds of `v[a..b]` with every leading `lead` and then every
/// trailing `tail` removed.
pub fn strip_range(v: &Vec<char>, a: usize, b: usize, lead: char, tail: char) -> (r: (usize, usize))
    requires
        a <= b <= v.len(),
    ensures
        a <= r.0 <= r.1 <= b,
        v@.subrange(r.0 as int, r.1 as int) == strip_trailing(
            strip_leading(v@.subrange(a as int, b as int), lead),
            tail,
        ),
{
    let mut i = a;
    while i < b && v[i] == lead
        invariant
            a <= i <= b <= v.len(),
            strip_leading(v@.subrange(i as int, b as int), lead) == strip_leading(
                v@.subrange(a as int, b as int),
                lead,
            ),
        decreases b - i,
    {
        assert(v@.subrange(i as int, b as int).drop_first() =~= v@.subrange(i + 1, b as int));
        i += 1;
    }
    let mut j = b;
    while j > i && v[j - 1] == tail
        invariant
            a <= i <= j <= b <= v.len(),
            strip_trailing(v@.subrange(i as int, j as int), tail) == strip_trailing(
                v@.subrange(i as int, b as int),
                tail,
            ),
        decreases j - i,
    {
        assert(v@.subrange(i as int, j as int).drop_last() =~= v@.subrange(i as int, j - 1));
        j -= 1;
    }
    (i, j)
}

/// Whether all of `a` equals `v[lo..hi]`.
pub fn vec_range_eq(a: &Vec<char>, v: &Vec<char>, lo: usize, hi: usize) -> (r: bool)
    requires
        lo <= hi <= v.len(),
    ensures
        r == (a@ == v@.subrange(lo as int, hi as int)),
{
    range_eq(v, lo, hi, a)
}

/// `s` cut at the first `n - 1` occurrences of `c`, the last piece holding
/// the rest (`str::splitn(n, c)`); fewer pieces when `c` runs out.
pub open spec fn fields(s: Seq<char>, c: char, n: nat) -> Seq<Seq<char>>
    decreases n,
{
    if n <= 1 {
        seq![s]
    } else {
        let k = first_occ(s, seq![c]);
        if k < 0 || k >= s.len() {
            seq![s]
        } else {
            seq![s.take(k)] + fields(s.skip(k + 1), c, (n - 1) as nat)
        }
    }
}

/// `v` cut as `fields(v, c, n)`.
pub fn split_n(v: &Vec<char>, c: char, n: usize) -> (r: Vec<Vec<char>>)
    requires
        n >= 1,
    ensures
        views(r@) == fields(v@, c, n as nat),
{
    let len = v.len();
    let mut r: Vec<Vec<char>> = Vec::new();
    let mut i: usize = 0;
    let mut left = n;
    let mut done = false;
    assert(v@.skip(0) =~= v@);
    while left > 1 && !done
        invariant
            0 <= i <= len,
            len == v.len(),
            1 <= left <= n,
            done ==> first_occ(v@.skip(i as int), seq![c]) == -1,
            views(r@) + fields(v@.skip(i as int), c, left as nat) == fields(v@, c, n as nat),
        decreases left + (if done {
            0int
        } else {
            1int
        }),
    {
        assert(v@.skip(i as int) =~= v@.subrange(i as int, len as int));
        match find_char(v, i, len, c) {
            None => {
                done = true;
            },
            Some(k) => {
                let piece = sub_vec(v, i, k);
                let ghost before = views(r@);
                let ghost rest = v@.skip(i as int);
                assert(rest.take(k - i) =~= piece@);
                assert(rest.skip(k - i + 1) =~= v@.skip(k + 1));
                r.push(piece);
                assert(views(r@) =~= before.push(piece@));
                assert(before.push(piece@) + fields(v@.skip(k + 1), c, (left - 1) as nat) =~= before
                    + (seq![piece@] + fields(v@.skip(k + 1), c, (left - 1) as nat)));
                i = k + 1;
                left -= 1;
            },
        }
    }
    let last = sub_vec(v, i, len);
    assert(last@ =~= v@.skip(i as int));
    let ghost before = views(r@);
    r.push(last);
    assert(views(r@) =~= before + fields(v@.skip(i as int), c, left as nat));
    r
}

/// The pieces of `s` between runs of whitespace, without empty pieces
/// (`str::split_whitespace`).
pub open spec fn words(s: Seq<char>) -> Seq<Seq<char>> {
    split_ws(s).filter(|p: Seq<char>| p.len() > 0)
}

/// `s` cut at every whitespace character.
pub open spec fn split_ws(s: Seq<char>) -> Seq<Seq<char>>
    decreases s.len(),
{
    if s.len() == 0 {
        seq![Seq::<char>::empty()]
    } else {
        let r = split_ws(s.drop_last());
        if is_ws(s.last()) {
            r.push(Seq::<char>::empty())
        } else {
            r.update(r.len() - 1, r.last().push(s.last()))
        }
    }
}

pub proof fn lemma_split_ws_len(s: Seq<char>)
    ensures
        split_ws(s).len() >= 1,
    decreases s.len(),
{
    if s.len() > 0 {
        lemma_split_ws_len(s.drop_last());
    }
}

/// The words of `v` (see `words`), as strings.
pub fn split_words(v: &Vec<char>) -> (r: Vec<String>)
    ensures
        string_views(r@) == words(v@),
{
    let mut parts: Vec<Vec<char>> = Vec::new();
    let mut cur: Vec<char> = Vec::new();
    let mut i: usize = 0;
    assert(v@.take(0) =~= Seq::<char>::empty());
    assert(views(parts@).push(cur@) =~= split_ws(v@.take(0)));
    while i < v.len()
        invariant
            0 <= i <= v.len(),
            views(parts@).push(cur@) == split_ws(v@.take(i as int)),
        decreases v.len() - i,
    {
        let c = v[i];
        let ghost pre = v@.take(i as int);
        assert(v@.take(i as int + 1).drop_last() =~= pre);
        assert(v@.take(i as int + 1).last() == c);
        proof {
            lemma_split_ws_len(pre);
        }
        if is_whitespace(c) {
            parts.push(cur);
            cur = Vec::new();
            assert(views(parts@).push(cur@) =~= split_ws(pre).push(Seq::<char>::empty()));
        } else {
            let ghost old_parts = parts@;
            let ghost old_cur = cur@;
            cur.push(c);
            assert(views(parts@).push(cur@) =~= views(old_parts).push(old_cur).update(
                views(old_parts).len() as int,
                old_cur.push(c),
            ));
        }
        i += 1;
    }
    assert(v@.take(v.len() as int) =~= v@);
    parts.push(cur);
    let ghost all = views(parts@);
    let mut r: Vec<String> = Vec::new();
    let mut j: usize = 0;
    let ghost pred = |p: Seq<char>| p.len() > 0;
    assert(all.take(0) =~= Seq::<Seq<char>>::empty());
    assert(all.take(0).filter(pred) =~= Seq::<Seq<char>>::empty());
    while j < parts.len()
        invariant
            0 <= j <= parts.len(),
            all == views(parts@),
            all == split_ws(v@),
            pred == (|p: Seq<char>| p.len() > 0),
            string_views(r@) == all.take(j as int).filter(pred),
        decreases parts.len() - j,
    {
        assert(all.take(j as int + 1).drop_last() =~= all.take(j as int));
        assert(all.take(j as int + 1).last() == parts@[j as int]@);
        reveal_with_fuel(Seq::filter, 1);
        if parts[j].len() > 0 {
            let ghost before = string_views(r@);
            let w = string_of(&parts[j]);
            r.push(w);
            assert(string_views(r@) =~= before.push(w@));
        }
        j += 1;
    }
    assert(all.take(parts.len() as int) =~= all);
    r
}

/// Whether `v[a..b]` contains `pat` somewhere.
pub fn range_contains(v: &Vec<char>, a: usize, b: usize, pat: &Vec<char>) -> (r: bool)
    requires
        a <= b <= v.len(),
    ensures
        r == (first_occ(v@.subrange(a as int, b as int), pat@) >= 0),
{
    find_in(v, a, b, pat).is_some()
}

/// `v[a..b].parse::<i64>()`.
pub fn parse_i64_range(v: &Vec<char>, a: usize, b: usize) -> (r: Option<i64>)
    requires
        a <= b <= v.len(),
    ensures
        r == parse_i64_spec(v@.subrange(a as int, b as int)),
{
    let ghost s = v@.subrange(a as int, b as int);
    if a < b && v[a] == '-' {
        assert(s.drop_first() =~= v@.subrange(a + 1, b as int));
        if a + 1 == b {
            return None;
        }
        // digits only, magnitude at most 2^63
        match parse_u64_range(v, a + 1, b) {
            Some(m) => {
                let ghost d = s.drop_first();
                assert(unsigned_digits(d) == d || (d.len() > 0 && d[0] == '+'));
                if v[a + 1] == '+' {
                    assert(!is_digit(d[0]));
                    return None;
                }
                assert(unsigned_digits(d) =~= d);
                if m <= 0x8000_0000_0000_0000 {
                    if m == 0x8000_0000_0000_0000 {
                        Some(i64::MIN)
                    } else {
                        Some(-(m as i64))
                    }
                } else {
                    None
                }
            },
            None => {
                let ghost d = s.drop_first();
                if v[a + 1] != '+' {
                    assert(unsigned_digits(d) =~= d);
                } else {
                    assert(!is_digit(d[0]));
                }
                None
            },
        }
    } else {
        match parse_unsigned_range(v, a, b, i64::MAX as u64) {
            Some(m) => Some(m as i64),
            None => None,
        }
    }
}

/// No character of `s` is `c`.
pub open spec fn free_of(s: Seq<char>, c: char) -> bool {
    forall|i: int| 0 <= i < s.len() ==> s[i] != c
}

/// Text without `sep` is one piece.
pub proof fn lemma_split_single(s: Seq<char>, sep: char)
    requires
        free_of(s, sep),
    ensures
        split_on(s, sep) == seq![s],
    decreases s.len(),
{
    if s.len() == 0 {
        assert(s =~= Seq::<char>::empty());
    } else {
        let d = s.drop_last();
        assert forall|i: int| 0 <= i < d.len() implies d[i] != sep by {
            assert(d[i] == s[i]);
        }
        lemma_split_single(d, sep);
        assert(s.last() != sep);
        assert(d.push(s.last()) =~= s);
        assert(seq![d].update(0, d.push(s.last())) =~= seq![s]);
    }
}

/// Text cut after a first piece without `sep`: that piece, then the pieces
/// of the rest.
pub proof fn lemma_split_cons(a: Seq<char>, b: Seq<char>, sep: char)
    requires
        free_of(a, sep),
    ensures
        split_on(a + seq![sep] + b, sep) == seq![a] + split_on(b, sep),
    decreases b.len(),
{
    let t = a + seq![sep] + b;
    if b.len() == 0 {
        lemma_split_single(a, sep);
        assert(t =~= a.push(sep));
        assert(t.drop_last() =~= a);
        assert(split_on(t, sep) =~= seq![a] + seq![Seq::<char>::empty()]);
    } else {
        let bd = b.drop_last();
        lemma_split_cons(a, bd, sep);
        lemma_split_on_len(bd, sep);
        assert(t.drop_last() =~= a + seq![sep] + bd);
        assert(t.last() == b.last());
        let r = split_on(bd, sep);
        if b.last() == sep {
            assert((seq![a] + r).push(Seq::<char>::empty()) =~= seq![a] + r.push(Seq::<char>::empty()));
        } else {
            assert((seq![a] + r).update(r.len() as int, (seq![a] + r).last().push(b.last())) =~= seq![a]
                + r.update(r.len() - 1, r.last().push(b.last())));
        }
    }
}

/// The first `c` of `a + c + b`, when `a` has none, is right after `a`.
pub proof fn lemma_first_char_at(a: Seq<char>, b: Seq<char>, c: char)
    requires
        free_of(a, c),
    ensures
        first_occ(a + seq![c] + b, seq![c]) == a.len(),
{
    let t = a + seq![c] + b;
    assert(t.subrange(a.len() as int, a.len() + 1int) =~= seq![c]);
    assert forall|j: int| 0 <= j < a.len() implies !occurs_at(t, seq![c], j) by {
        if occurs_at(t, seq![c], j) {
            assert(t.subrange(j, j + 1)[0] == t[j]);
            assert(t[j] == a[j]);
        }
    }
    lemma_first_occ_is(t, seq![c], a.len() as int);
}

/// Text without `c` is one field.
pub proof fn lemma_fields_single(s: Seq<char>, c: char, n: nat)
    requires
        free_of(s, c),
    ensures
        fields(s, c, n) == seq![s],
{
    if n > 1 {
        assert forall|i: int| !occurs_at(s, seq![c], i) by {
            if occurs_at(s, seq![c], i) {
                assert(s.subrange(i, i + 1)[0] == s[i]);
            }
        }
        lemma_first_occ_none(s, seq![c]);
    }
}

/// Fields of text that starts with a field without `c`: that field, then the
/// fields of the rest.
pub proof fn lemma_fields_cons(a: Seq<char>, b: Seq<char>, c: char, n: nat)
    requires
        free_of(a, c),
        n >= 2,
    ensures
        fields(a + seq![c] + b, c, n) == seq![a] + fields(b, c, (n - 1) as nat),
{
    let t = a + seq![c] + b;
    lemma_first_char_at(a, b, c);
    assert(t.take(a.len() as int) =~= a);
    assert(t.skip(a.len() + 1int) =~= b);
}

/// The last `c` of `a + c + b`, when `b` has none, is right after `a`.
pub proof fn lemma_last_char_at(a: Seq<char>, b: Seq<char>, c: char)
    requires
        free_of(b, c),
    ensures
        last_occ(a + seq![c] + b, seq![c]) == a.len(),
{
    let t = a + seq![c] + b;
    assert(t.subrange(a.len() as int, a.len() + 1int) =~= seq![c]);
    assert forall|j: int| a.len() < j implies !occurs_at(t, seq![c], j) by {
        if occurs_at(t, seq![c], j) {
            assert(t.subrange(j, j + 1)[0] == t[j]);
            assert(t[j] == b[j - a.len() - 1]);
        }
    }
    lemma_last_occ_is(t, seq![c], a.len() as int);
}

/// The last piece of text that ends with a separator and then `b`, when
/// `b` has none, is `b`.
pub proof fn lemma_split_last_piece(a: Seq<char>, b: Seq<char>, sep: char)
    requires
        free_of(b, sep),
    ensures
        split_on(a + seq![sep] + b, sep).len() >= 1,
        split_on(a + seq![sep] + b, sep).last() == b,
    decreases b.len(),
{
    let t = a + seq![sep] + b;
    lemma_split_on_len(t, sep);
    if b.len() == 0 {
        assert(t.drop_last() =~= a);
        assert(t.last() == sep);
        assert(b =~= Seq::<char>::empty());
    } else {
        let bd = b.drop_last();
        assert forall|i: int| 0 <= i < bd.len() implies bd[i] != sep by {
            assert(bd[i] == b[i]);
        }
        lemma_split_last_piece(a, bd, sep);
        assert(t.drop_last() =~= a + seq![sep] + bd);
        assert(t.last() == b.last());
        assert(b.last() != sep);
        assert(bd.push(b.last()) =~= b);
    }
}

} // verus!
