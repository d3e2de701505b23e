//! What git's output streams come to: the error text of a failed command,
//! the progress lines of a long one, and the messages of a failure without
//! text or of a timeout.
use vstd::prelude::*;
use vstd::utf8::{decode_utf8, valid_utf8};
use crate::commands::{decimal, own, with_number};
use crate::console::{join_args, join_spaces};
use crate::listing::nonempty_pieces;
use crate::log::{
    blame_from, blame_views, hit_views, hits_from, parse_blame, parse_search_hits, parse_stashes,
    stash_views, stashes_from,
};
use crate::text::{
    chars_of, is_ws, lines, lines_of, push_all, string_of, string_views, trim, trim_end, trim_start,
    trim_vec, views,
};
use crate::types::{BlameLine, SearchHit, StashInfo};

verus! {

/// What `String::from_utf8_lossy` gives for `b`.
pub uninterp spec fn lossy_text(b: Seq<u8>) -> Seq<char>;

/// `String::from_utf8_lossy`: the text of `bytes`, each invalid sequence
/// replaced by U+FFFD. Its contract names the result and states the one
/// case the documentation makes plain: valid UTF-8 decodes as it is.
#[verifier::external_body]
fn utf8_lossy(bytes: &[u8]) -> (r: String)
    ensures
        r@ == lossy_text(bytes@),
        valid_utf8(bytes@) ==> r@ == decode_utf8(bytes@),
{
    String::from_utf8_lossy(bytes).into_owned()
}

/// The error of a failed git command: its standard error, read lossily
/// and trimmed.
pub fn error_text(stderr: &[u8]) -> (r: String)
    ensures
        r@ == trim(lossy_text(stderr@)),
        valid_utf8(stderr@) ==> r@ == trim(decode_utf8(stderr@)),
{
    let t = utf8_lossy(stderr);
    string_of(&trim_vec(&chars_of(t.as_str())))
}

/// A byte that ends a progress line: `\r` or `\n`.
pub open spec fn ends_line(b: u8) -> bool {
    b == 13 || b == 10
}

/// The text of a progress line as it is handed out: read lossily and
/// trimmed; an empty line has no text.
pub open spec fn line_text(line: Seq<u8>) -> Seq<char> {
    if line.len() == 0 {
        Seq::<char>::empty()
    } else {
        trim(lossy_text(line))
    }
}

/// One byte added to the progress line being read: the line as it is then,
/// and the text handed out, if any.
pub open spec fn progress_next(line: Seq<u8>, b: u8) -> (Seq<u8>, Option<Seq<char>>) {
    if ends_line(b) {
        (
            Seq::<u8>::empty(),
            if line_text(line).len() > 0 {
                Some(line_text(line))
            } else {
                None
            },
        )
    } else {
        (line.push(b), None)
    }
}

/// A progress stream fed byte by byte from an empty line: the line left
/// unfinished and the texts handed out, in order.
pub open spec fn progress_feed(bytes: Seq<u8>) -> (Seq<u8>, Seq<Seq<char>>)
    decreases bytes.len(),
{
    if bytes.len() == 0 {
        (Seq::<u8>::empty(), Seq::<Seq<char>>::empty())
    } else {
        let prev = progress_feed(bytes.drop_last());
        let step = progress_next(prev.0, bytes.last());
        (
            step.0,
            match step.1 {
                Some(t) => prev.1.push(t),
                None => prev.1,
            },
        )
    }
}

/// A byte stream cut at every `\r` and `\n`: the last piece is what
/// follows the last line end.
pub open spec fn progress_segments(bytes: Seq<u8>) -> Seq<Seq<u8>>
    decreases bytes.len(),
{
    if bytes.len() == 0 {
        seq![Seq::<u8>::empty()]
    } else {
        let r = progress_segments(bytes.drop_last());
        if ends_line(bytes.last()) {
            r.push(Seq::<u8>::empty())
        } else {
            r.update(r.len() - 1, r.last().push(bytes.last()))
        }
    }
}

/// The texts of the segments `segs` that are not blank, in order.
pub open spec fn segment_texts(segs: Seq<Seq<u8>>) -> Seq<Seq<char>>
    decreases segs.len(),
{
    if segs.len() == 0 {
        Seq::<Seq<char>>::empty()
    } else {
        let r = segment_texts(segs.drop_last());
        if line_text(segs.last()).len() > 0 {
            r.push(line_text(segs.last()))
        } else {
            r
        }
    }
}

proof fn lemma_segments_len(bytes: Seq<u8>)
    ensures
        progress_segments(bytes).len() >= 1,
    decreases bytes.len(),
{
    if bytes.len() > 0 {
        lemma_segments_len(bytes.drop_last());
    }
}

/// Reading a progress stream byte by byte hands out exactly the texts of
/// its segments ended by `\r` or `\n` that are not blank, in order, and
/// keeps the unfinished last segment as the line being read.
pub proof fn law_progress_lines(bytes: Seq<u8>)
    ensures
        progress_feed(bytes).1 == segment_texts(progress_segments(bytes).drop_last()),
        progress_feed(bytes).0 == progress_segments(bytes).last(),
    decreases bytes.len(),
{
    if bytes.len() > 0 {
        let d = bytes.drop_last();
        law_progress_lines(d);
        lemma_segments_len(d);
        let r = progress_segments(d);
        let b = bytes.last();
        if ends_line(b) {
            assert(progress_segments(bytes).drop_last() =~= r);
            assert(r.drop_last() =~= r.take(r.len() - 1));
            assert(segment_texts(r) == if line_text(r.last()).len() > 0 {
                segment_texts(r.drop_last()).push(line_text(r.last()))
            } else {
                segment_texts(r.drop_last())
            });
        } else {
            let u = r.update(r.len() - 1, r.last().push(b));
            assert(u.drop_last() =~= r.drop_last());
        }
    }
}

/// The progress text collected from the handed-out lines `ts`: each line
/// followed by a line break.
pub open spec fn progress_collected(ts: Seq<Seq<char>>) -> Seq<char>
    decreases ts.len(),
{
    if ts.len() == 0 {
        Seq::<char>::empty()
    } else {
        progress_collected(ts.drop_last()) + ts.last() + seq!['\n']
    }
}

/// The lines `ts` joined by line breaks.
pub open spec fn joined_lines(ts: Seq<Seq<char>>) -> Seq<char>
    decreases ts.len(),
{
    if ts.len() <= 1 {
        if ts.len() == 0 {
            Seq::<char>::empty()
        } else {
            ts[0]
        }
    } else {
        joined_lines(ts.drop_last()) + seq!['\n'] + ts.last()
    }
}

/// A text with no whitespace at either end, and not empty.
pub open spec fn tight(t: Seq<char>) -> bool {
    t.len() > 0 && !is_ws(t[0]) && !is_ws(t.last())
}

proof fn lemma_trim_start_first(s: Seq<char>)
    ensures
        trim_start(s).len() > 0 ==> !is_ws(trim_start(s)[0]),
    decreases s.len(),
{
    if s.len() > 0 && is_ws(s[0]) {
        lemma_trim_start_first(s.drop_first());
    }
}

proof fn lemma_trim_end_prefix(s: Seq<char>)
    ensures
        trim_end(s).len() <= s.len(),
        trim_end(s) == s.take(trim_end(s).len() as int),
        trim_end(s).len() > 0 ==> !is_ws(trim_end(s).last()),
    decreases s.len(),
{
    if s.len() > 0 && is_ws(s.last()) {
        lemma_trim_end_prefix(s.drop_last());
        assert(s.drop_last().take(trim_end(s).len() as int) =~= s.take(trim_end(s).len() as int));
    } else {
        assert(s.take(s.len() as int) =~= s);
    }
}

proof fn lemma_trim_tight(x: Seq<char>)
    requires
        trim(x).len() > 0,
    ensures
        tight(trim(x)),
{
    let y = trim_start(x);
    lemma_trim_start_first(x);
    lemma_trim_end_prefix(y);
    assert(trim(x)[0] == y[0]);
}

proof fn lemma_feed_tight(bytes: Seq<u8>)
    ensures
        forall|i: int| 0 <= i < progress_feed(bytes).1.len() ==> tight(#[trigger] progress_feed(bytes).1[i]),
    decreases bytes.len(),
{
    if bytes.len() > 0 {
        let d = bytes.drop_last();
        lemma_feed_tight(d);
        let prev = progress_feed(d);
        let l = prev.0;
        if ends_line(bytes.last()) && line_text(l).len() > 0 {
            lemma_trim_tight(lossy_text(l));
            let ts = progress_feed(bytes).1;
            assert forall|i: int| 0 <= i < ts.len() implies tight(#[trigger] ts[i]) by {
                if i < prev.1.len() {
                    assert(ts[i] == prev.1[i]);
                }
            }
        }
    }
}

proof fn lemma_joined(ts: Seq<Seq<char>>)
    requires
        ts.len() > 0,
        forall|i: int| 0 <= i < ts.len() ==> tight(#[trigger] ts[i]),
    ensures
        progress_collected(ts) == joined_lines(ts) + seq!['\n'],
        joined_lines(ts).len() > 0,
        joined_lines(ts)[0] == ts[0][0],
        joined_lines(ts).last() == ts.last().last(),
    decreases ts.len(),
{
    let d = ts.drop_last();
    assert(tight(ts[0]) && tight(ts.last()));
    if ts.len() == 1 {
        assert(d =~= Seq::<Seq<char>>::empty());
        assert(progress_collected(d) + ts.last() =~= ts[0]);
    } else {
        assert forall|i: int| 0 <= i < d.len() implies tight(#[trigger] d[i]) by {
            assert(d[i] == ts[i]);
        }
        lemma_joined(d);
        assert(d[0] == ts[0]);
        let j = joined_lines(d);
        assert(progress_collected(ts) =~= (j + seq!['\n'] + ts.last()) + seq!['\n']);
        assert((j + seq!['\n'] + ts.last())[0] == j[0]);
    }
}

/// A failed progress run reports the lines its stream handed out, joined by
/// line breaks, when there was any (the collected text trimmed); when the
/// stream handed out none, the collected text trims to nothing and the
/// generic message is reported.
pub proof fn law_progress_failure_text(bytes: Seq<u8>)
    ensures
        ({
            let ts = progress_feed(bytes).1;
            &&& ts.len() == 0 ==> trim(progress_collected(ts)).len() == 0
            &&& ts.len() > 0 ==> trim(progress_collected(ts)) == joined_lines(ts)
                && joined_lines(ts).len() > 0
        }),
{
    let ts = progress_feed(bytes).1;
    lemma_feed_tight(bytes);
    if ts.len() == 0 {
        assert(progress_collected(ts) == Seq::<char>::empty());
        assert(trim_start(Seq::<char>::empty()) == Seq::<char>::empty());
    } else {
        lemma_joined(ts);
        let j = joined_lines(ts);
        let c = j + seq!['\n'];
        assert(c[0] == j[0]);
        assert(!is_ws(ts[0][0]));
        assert(trim_start(c) == c);
        assert(c.last() == '\n');
        assert(is_ws('\n'));
        assert(c.drop_last() =~= j);
        assert(trim_end(c) == trim_end(j));
        assert(!is_ws(j.last()));
        assert(trim_end(j) == j);
    }
}

/// One byte of git's progress stream added to the line being read: a `\r`
/// or `\n` ends the line, which is handed out (read lossily and trimmed)
/// when it is not blank; any other byte extends the line (see
/// `progress_next`).
pub fn progress_step(line: &mut Vec<u8>, byte: u8) -> (r: Option<String>)
    ensures
        (
            final(line)@,
            match r {
                Some(t) => Some(t@),
                None => None,
            },
        ) == progress_next(old(line)@, byte),
{
    if byte == 13 || byte == 10 {
        if line.len() == 0 {
            return None;
        }
        let t = error_text(line.as_slice());
        line.clear();
        if chars_of(t.as_str()).len() > 0 {
            Some(t)
        } else {
            None
        }
    } else {
        line.push(byte);
        None
    }
}

/// The progress text collected so far with one more handed-out line: each
/// line is followed by a line break.
pub fn record_progress(collected: &mut String, text: &str)
    ensures
        final(collected)@ == old(collected)@ + text@ + seq!['\n'],
{
    push_all(collected, &chars_of(text));
    collected.push('\n');
}

/// The error of a progress-reporting command that failed: the progress
/// text it printed, trimmed, or a generic message when there was none.
pub fn progress_failure(collected: &str) -> (r: String)
    ensures
        trim(collected@).len() > 0 ==> r@ == trim(collected@),
        trim(collected@).len() == 0 ==> r@ == "git 命令失败"@,
{
    let t = trim_vec(&chars_of(collected));
    if t.len() > 0 {
        string_of(&t)
    } else {
        own("git 命令失败")
    }
}

/// The error of a network command killed after `secs` seconds without an
/// answer.
pub fn timeout_message(args: &Vec<String>, secs: u64) -> (r: String)
    ensures
        r@ == "git "@ + join_spaces(args@.map_values(|s: String| s@)) + " 超时（超过 "@ + decimal(
            secs as nat,
        ) + "s 无响应，可能是网络连接卡住），已终止"@,
{
    let mut m = own("git ");
    push_all(&mut m, &chars_of(join_args(args).as_str()));
    let n = with_number(" 超时（超过 ", secs);
    push_all(&mut m, &chars_of(n.as_str()));
    push_all(&mut m, &chars_of("s 无响应，可能是网络连接卡住），已终止"));
    m
}


/// The text of git's output `out`, read lossily (each invalid sequence
/// replaced).
pub fn output_text(out: &[u8]) -> (r: String)
    ensures
        r@ == lossy_text(out@),
        valid_utf8(out@) ==> r@ == decode_utf8(out@),
{
    utf8_lossy(out)
}

/// The hits of `git grep -n` output `out`, at most `max` of them.
pub fn search_hits_of(out: &[u8], max: u32) -> (r: Vec<SearchHit>)
    ensures
        hit_views(r@) == hits_from(lines_of(lossy_text(out@)), max as int),
{
    parse_search_hits(output_text(out).as_str(), max)
}

/// The non-empty lines of `text`, in order.
pub fn nonempty_lines(text: &str) -> (r: Vec<String>)
    ensures
        string_views(r@) == nonempty_pieces(lines_of(text@)),
{
    let v = chars_of(text);
    let ls = lines(&v);
    let ghost lv = views(ls@);
    let mut r: Vec<String> = Vec::new();
    let mut i: usize = 0;
    assert(lv.take(0) =~= Seq::<Seq<char>>::empty());
    while i < ls.len()
        invariant
            0 <= i <= ls.len(),
            lv == views(ls@),
            lv == lines_of(text@),
            string_views(r@) == nonempty_pieces(lv.take(i as int)),
        decreases ls.len() - i,
    {
        assert(lv.take(i as int + 1).drop_last() =~= lv.take(i as int));
        assert(lv.take(i as int + 1).last() == ls@[i as int]@);
        if ls[i].len() > 0 {
            let ghost before = string_views(r@);
            r.push(string_of(&ls[i]));
            assert(string_views(r@) =~= before.push(ls@[i as int]@));
        }
        i += 1;
    }
    assert(lv.take(ls.len() as int) =~= lv);
    r
}

/// The paths that `git grep -l` output `out` lists: its non-empty lines.
pub fn grep_listing(out: &[u8]) -> (r: Vec<String>)
    ensures
        string_views(r@) == nonempty_pieces(lines_of(lossy_text(out@))),
{
    nonempty_lines(output_text(out).as_str())
}

/// The blamed lines of `git blame --line-porcelain` output `out`; content
/// lines may be in any encoding, so it is read lossily.
pub fn blame_of(out: &[u8]) -> (r: Vec<BlameLine>)
    ensures
        blame_views(r@) == blame_from(lines_of(lossy_text(out@)), None),
{
    parse_blame(output_text(out).as_str())
}

/// The shelf entries of `git stash list` output `out`.
pub fn stashes_of(out: &[u8]) -> (r: Vec<StashInfo>)
    ensures
        stash_views(r@) == stashes_from(lines_of(lossy_text(out@)), 0),
{
    parse_stashes(output_text(out).as_str())
}

} // verus!
