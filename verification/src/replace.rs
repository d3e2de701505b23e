//! Find-and-replace over a file's text, plain or whole-word.
use vstd::prelude::*;
use crate::status::utf8_size;
use crate::text::{
    chars_of, find_in, first_occ, lemma_first_occ_props, occurs_at, push_range,
};

verus! {

/// Whether `c` is alphanumeric in Unicode's sense (`char::is_alphanumeric`).
pub uninterp spec fn alphanumeric(c: char) -> bool;

/// An ASCII letter or digit.
pub open spec fn ascii_alphanumeric(c: char) -> bool {
    let u = c as u32;
    (48 <= u && u <= 57) || (65 <= u && u <= 90) || (97 <= u && u <= 122)
}

/// `char::is_alphanumeric`: whether `c` is alphabetic or numeric in the
/// Unicode sense. Its contract names the answer and states the ASCII part:
/// an ASCII character is alphanumeric exactly when it is a letter or a
/// digit; nothing more is claimed of other characters.
#[verifier::external_body]
fn char_is_alphanumeric(c: char) -> (b: bool)
    ensures
        b == alphanumeric(c),
        (c as u32) < 128 ==> (b <==> ascii_alphanumeric(c)),
{
    c.is_alphanumeric()
}

/// A character that belongs to a word: alphanumeric or `_`.
pub open spec fn word_char(c: char) -> bool {
    alphanumeric(c) || c == '_'
}

/// Whether `c` belongs to a word: alphanumeric or `_`; for an ASCII
/// character, a letter, a digit or `_`.
pub fn is_word_char(c: char) -> (b: bool)
    ensures
        b == word_char(c),
        (c as u32) < 128 ==> (b <==> (ascii_alphanumeric(c) || c == '_')),
{
    char_is_alphanumeric(c) || c == '_'
}

/// The occurrence of `q` at `start` in `c` stands alone: no word character
/// touches it on either side in `c`.
pub open spec fn whole_word_at(c: Seq<char>, q: Seq<char>, start: int) -> bool {
    (start == 0 || !word_char(c[start - 1])) && (start + q.len() == c.len() || !word_char(
        c[start + q.len()],
    ))
}

/// Replacing, from position `i` of `c` on, the non-overlapping occurrences
/// of `q` found left to right: those that stand alone as a whole word (judged
/// on `c` itself) become `r`, the others stay. Gives the new text from `i` on
/// and the number of replacements.
pub open spec fn whole_word_from(c: Seq<char>, q: Seq<char>, r: Seq<char>, i: int) -> (
    Seq<char>,
    nat,
)
    decreases c.len() - i,
{
    if i < 0 || i > c.len() || q.len() == 0 {
        (c.skip(i), 0)
    } else {
        let k = first_occ(c.skip(i), q);
        if k < 0 {
            (c.skip(i), 0)
        } else {
            let start = i + k;
            let end = start + q.len();
            let ok = whole_word_at(c, q, start);
            let tail = whole_word_from(c, q, r, end);
            (
                c.subrange(i, start) + (if ok {
                    r
                } else {
                    q
                }) + tail.0,
                if ok {
                    tail.1 + 1
                } else {
                    tail.1
                },
            )
        }
    }
}

/// Replacing every non-overlapping occurrence of `q` found left to right,
/// from position `i` of `c` on: the new text and the number of occurrences.
pub open spec fn replace_from(c: Seq<char>, q: Seq<char>, r: Seq<char>, i: int) -> (
    Seq<char>,
    nat,
)
    decreases c.len() - i,
{
    if i < 0 || i > c.len() || q.len() == 0 {
        (c.skip(i), 0)
    } else {
        let k = first_occ(c.skip(i), q);
        if k < 0 {
            (c.skip(i), 0)
        } else {
            let start = i + k;
            let end = start + q.len();
            let tail = replace_from(c, q, r, end);
            (c.subrange(i, start) + r + tail.0, tail.1 + 1)
        }
    }
}

proof fn lemma_occ_in_skip(c: Seq<char>, q: Seq<char>, i: int)
    requires
        0 <= i <= c.len(),
    ensures
        first_occ(c.skip(i), q) >= 0 ==> {
            let k = first_occ(c.skip(i), q);
            &&& 0 <= k
            &&& i + k + q.len() <= c.len()
            &&& c.subrange(i + k, i + k + q.len()) == q
        },
{
    lemma_first_occ_props(c.skip(i), q);
    let k = first_occ(c.skip(i), q);
    if k >= 0 {
        assert(occurs_at(c.skip(i), q, k));
        assert(c.skip(i).subrange(k, k + q.len()) =~= c.subrange(i + k, i + k + q.len()));
    }
}

proof fn lemma_whole_word_count_bound(c: Seq<char>, q: Seq<char>, r: Seq<char>, i: int)
    requires
        0 <= i <= c.len(),
        q.len() > 0,
    ensures
        whole_word_from(c, q, r, i).1 <= c.len() - i,
    decreases c.len() - i,
{
    lemma_occ_in_skip(c, q, i);
    let k = first_occ(c.skip(i), q);
    if k >= 0 {
        lemma_whole_word_count_bound(c, q, r, i + k + q.len());
    }
}

proof fn lemma_replace_count_bound(c: Seq<char>, q: Seq<char>, r: Seq<char>, i: int)
    requires
        0 <= i <= c.len(),
        q.len() > 0,
    ensures
        replace_from(c, q, r, i).1 <= c.len() - i,
    decreases c.len() - i,
{
    lemma_occ_in_skip(c, q, i);
    let k = first_occ(c.skip(i), q);
    if k >= 0 {
        lemma_replace_count_bound(c, q, r, i + k + q.len());
    }
}

fn stands_alone(v: &Vec<char>, start: usize, end: usize) -> (b: bool)
    requires
        start <= end <= v.len(),
    ensures
        b == ((start == 0 || !word_char(v@[start - 1])) && (end == v.len() || !word_char(
            v@[end as int],
        ))),
{
    let before_ok = start == 0 || !is_word_char(v[start - 1]);
    let after_ok = end == v.len() || !is_word_char(v[end]);
    before_ok && after_ok
}

fn replace_chars(v: &Vec<char>, q: &Vec<char>, r: &Vec<char>, whole_word: bool) -> (res: (
    String,
    usize,
))
    requires
        q@.len() > 0,
    ensures
        whole_word ==> res.0@ == whole_word_from(v@, q@, r@, 0).0 && res.1 == whole_word_from(
            v@,
            q@,
            r@,
            0,
        ).1,
        !whole_word ==> res.0@ == replace_from(v@, q@, r@, 0).0 && res.1 == replace_from(
            v@,
            q@,
            r@,
            0,
        ).1,
{
    let n = v.len();
    let mut out = String::new();
    let mut count: usize = 0;
    let mut i: usize = 0;
    proof {
        if whole_word {
            lemma_whole_word_count_bound(v@, q@, r@, 0);
        } else {
            lemma_replace_count_bound(v@, q@, r@, 0);
        }
    }
    loop
        invariant
            0 <= i <= n,
            n == v.len(),
            q@.len() > 0,
            count <= i,
            whole_word ==> out@ + whole_word_from(v@, q@, r@, i as int).0 == whole_word_from(
                v@,
                q@,
                r@,
                0,
            ).0 && count + whole_word_from(v@, q@, r@, i as int).1 == whole_word_from(
                v@,
                q@,
                r@,
                0,
            ).1,
            !whole_word ==> out@ + replace_from(v@, q@, r@, i as int).0 == replace_from(
                v@,
                q@,
                r@,
                0,
            ).0 && count + replace_from(v@, q@, r@, i as int).1 == replace_from(v@, q@, r@, 0).1,
        decreases n - i,
    {
        proof {
            lemma_occ_in_skip(v@, q@, i as int);
        }
        assert(v@.skip(i as int) =~= v@.subrange(i as int, n as int));
        match find_in(v, i, n, q) {
            None => {
                push_range(&mut out, v, i, n);
                return (out, count);
            },
            Some(start) => {
                let end = start + q.len();
                let ghost before = out@;
                push_range(&mut out, v, i, start);
                if whole_word {
                    if stands_alone(v, start, end) {
                        push_range(&mut out, r, 0, r.len());
                        assert(r@.subrange(0, r@.len() as int) =~= r@);
                        count += 1;
                    } else {
                        push_range(&mut out, v, start, end);
                    }
                    proof {
                        lemma_whole_word_count_bound(v@, q@, r@, end as int);
                        let t = whole_word_from(v@, q@, r@, end as int);
                        assert(out@ + t.0 =~= before + whole_word_from(v@, q@, r@, i as int).0);
                    }
                } else {
                    push_range(&mut out, r, 0, r.len());
                    assert(r@.subrange(0, r@.len() as int) =~= r@);
                    count += 1;
                    proof {
                        lemma_replace_count_bound(v@, q@, r@, end as int);
                        let t = replace_from(v@, q@, r@, end as int);
                        assert(out@ + t.0 =~= before + replace_from(v@, q@, r@, i as int).0);
                    }
                }
                i = end;
            },
        }
    }
}

/// Whole-word replace: each non-overlapping occurrence of `query`, found
/// left to right, that no word character (alphanumeric or `_`) touches in the
/// original text becomes `replacement`. Gives the new text and the number of
/// replacements. An empty `query` never ends in the original, so it is left
/// out, as is a count past `u32::MAX`.
pub fn replace_whole_word(content: &str, query: &str, replacement: &str) -> (res: (String, u32))
    requires
        query@.len() > 0,
        whole_word_from(content@, query@, replacement@, 0).1 <= u32::MAX,
    ensures
        res.0@ == whole_word_from(content@, query@, replacement@, 0).0,
        res.1 as nat == whole_word_from(content@, query@, replacement@, 0).1,
{
    let v = chars_of(content);
    let q = chars_of(query);
    let r = chars_of(replacement);
    let (out, n) = replace_chars(&v, &q, &r, true);
    (out, n as u32)
}

/// Plain replace, as `str::replace` with the `str::matches` count: every
/// non-overlapping occurrence of `query`, found left to right, becomes
/// `replacement`. The count is truncated to `u32` as `as u32` does.
pub fn replace_plain(content: &str, query: &str, replacement: &str) -> (res: (String, u32))
    requires
        query@.len() > 0,
    ensures
        res.0@ == replace_from(content@, query@, replacement@, 0).0,
        res.1 == replace_from(content@, query@, replacement@, 0).1 as u32,
{
    let v = chars_of(content);
    let q = chars_of(query);
    let r = chars_of(replacement);
    let (out, n) = replace_chars(&v, &q, &r, false);
    (out, n as u32)
}

/// The text and replacement count for one file of a replace-in-files:
/// whole-word or plain as asked.
pub fn replace_in_text(content: &str, query: &str, replacement: &str, whole_word: bool) -> (res: (
    String,
    u32,
))
    requires
        query@.len() > 0,
        whole_word ==> whole_word_from(content@, query@, replacement@, 0).1 <= u32::MAX,
    ensures
        whole_word ==> res.0@ == whole_word_from(content@, query@, replacement@, 0).0
            && res.1 as nat == whole_word_from(content@, query@, replacement@, 0).1,
        !whole_word ==> res.0@ == replace_from(content@, query@, replacement@, 0).0 && res.1
            == replace_from(content@, query@, replacement@, 0).1 as u32,
{
    if whole_word {
        replace_whole_word(content, query, replacement)
    } else {
        replace_plain(content, query, replacement)
    }
}

proof fn lemma_whole_word_identity(c: Seq<char>, q: Seq<char>, i: int)
    requires
        0 <= i <= c.len(),
        q.len() > 0,
    ensures
        whole_word_from(c, q, q, i).0 == c.skip(i),
    decreases c.len() - i,
{
    lemma_occ_in_skip(c, q, i);
    let k = first_occ(c.skip(i), q);
    if k >= 0 {
        let end = i + k + q.len();
        lemma_whole_word_identity(c, q, end);
        assert(c.subrange(i, i + k) + q + c.skip(end) =~= c.skip(i));
    }
}

proof fn lemma_whole_word_unchanged_when_none(c: Seq<char>, q: Seq<char>, r: Seq<char>, i: int)
    requires
        0 <= i <= c.len(),
        q.len() > 0,
        whole_word_from(c, q, r, i).1 == 0,
    ensures
        whole_word_from(c, q, r, i).0 == c.skip(i),
    decreases c.len() - i,
{
    lemma_occ_in_skip(c, q, i);
    let k = first_occ(c.skip(i), q);
    if k >= 0 {
        let end = i + k + q.len();
        lemma_whole_word_unchanged_when_none(c, q, r, end);
        assert(c.subrange(i, i + k) + q + c.skip(end) =~= c.skip(i));
    }
}

/// Whole-word replacing a word by itself leaves the text as it was.
pub proof fn law_whole_word_self_replace(content: Seq<char>, query: Seq<char>)
    requires
        query.len() > 0,
    ensures
        whole_word_from(content, query, query, 0).0 == content,
{
    lemma_whole_word_identity(content, query, 0);
    assert(content.skip(0) =~= content);
}

/// A whole-word replace that reports no replacement leaves the text as it
/// was: occurrences that are not whole words are kept verbatim.
pub proof fn law_whole_word_no_count_no_change(
    content: Seq<char>,
    query: Seq<char>,
    replacement: Seq<char>,
)
    requires
        query.len() > 0,
        whole_word_from(content, query, replacement, 0).1 == 0,
    ensures
        whole_word_from(content, query, replacement, 0).0 == content,
{
    lemma_whole_word_unchanged_when_none(content, query, replacement, 0);
    assert(content.skip(0) =~= content);
}

proof fn lemma_whole_word_disjoint(c: Seq<char>, q: Seq<char>, r: Seq<char>, i: int)
    requires
        0 <= i <= c.len(),
        q.len() > 0,
    ensures
        whole_word_from(c, q, r, i).1 * q.len() <= c.len() - i,
    decreases c.len() - i,
{
    lemma_occ_in_skip(c, q, i);
    let k = first_occ(c.skip(i), q);
    if k >= 0 {
        let end = i + k + q.len();
        lemma_whole_word_disjoint(c, q, r, end);
        let n = whole_word_from(c, q, r, end).1;
        let m = whole_word_from(c, q, r, i).1;
        assert(m == n || m == n + 1);
        assert(m * q.len() <= n * q.len() + q.len()) by (nonlinear_arith)
            requires
                m == n || m == n + 1,
                q.len() > 0,
        ;
    } else {
        assert(whole_word_from(c, q, r, i).1 == 0);
        assert(0 * q.len() == 0) by (nonlinear_arith);
    }
}

/// The occurrences that a whole-word replace counts do not overlap: the
/// count times the length of `query` is at most the length of the text.
pub proof fn law_whole_word_count_fits(content: Seq<char>, query: Seq<char>, replacement: Seq<char>)
    requires
        query.len() > 0,
    ensures
        whole_word_from(content, query, replacement, 0).1 * query.len() <= content.len(),
{
    lemma_whole_word_disjoint(content, query, replacement, 0);
}

proof fn lemma_utf8_size_append(a: Seq<char>, b: Seq<char>)
    ensures
        utf8_size(a + b) == utf8_size(a) + utf8_size(b),
    decreases b.len(),
{
    if b.len() == 0 {
        assert(a + b =~= a);
    } else {
        lemma_utf8_size_append(a, b.drop_last());
        assert((a + b).drop_last() =~= a + b.drop_last());
        assert((a + b).last() == b.last());
    }
}

proof fn lemma_whole_word_disjoint_bytes(c: Seq<char>, q: Seq<char>, r: Seq<char>, i: int)
    requires
        0 <= i <= c.len(),
        q.len() > 0,
    ensures
        whole_word_from(c, q, r, i).1 * utf8_size(q) <= utf8_size(c.skip(i)),
    decreases c.len() - i,
{
    lemma_occ_in_skip(c, q, i);
    let k = first_occ(c.skip(i), q);
    if k >= 0 {
        let start = i + k;
        let end = start + q.len();
        lemma_whole_word_disjoint_bytes(c, q, r, end);
        assert(c.skip(i) =~= c.subrange(i, start) + c.subrange(start, end) + c.skip(end));
        lemma_utf8_size_append(c.subrange(i, start), c.subrange(start, end));
        lemma_utf8_size_append(c.subrange(i, start) + c.subrange(start, end), c.skip(end));
        let n = whole_word_from(c, q, r, end).1;
        let m = whole_word_from(c, q, r, i).1;
        let w = utf8_size(q);
        assert(m == n || m == n + 1);
        assert(m * w <= n * w + w) by (nonlinear_arith)
            requires
                m == n || m == n + 1,
        ;
    } else {
        assert(whole_word_from(c, q, r, i).1 == 0);
        assert(0 * utf8_size(q) == 0) by (nonlinear_arith);
    }
}

/// The same in bytes: the count times the UTF-8 length of `query` is at
/// most the UTF-8 length of the text.
pub proof fn law_whole_word_count_fits_bytes(
    content: Seq<char>,
    query: Seq<char>,
    replacement: Seq<char>,
)
    requires
        query.len() > 0,
    ensures
        whole_word_from(content, query, replacement, 0).1 * utf8_size(query) <= utf8_size(content),
{
    lemma_whole_word_disjoint_bytes(content, query, replacement, 0);
    assert(content.skip(0) =~= content);
}

} // verus!
