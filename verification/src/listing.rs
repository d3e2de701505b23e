//! The project's file list and a file's contents as the viewer shows them.
use vstd::prelude::*;
use vstd::utf8::{decode_utf8, valid_utf8};
use crate::diff::MAX_FILE_SIZE;
use crate::lang::{is_binary_content, looks_binary};
use crate::order::{chars_lt, lemma_text_lt_total, lemma_text_lt_trans, text_lt};
use crate::text::{chars_of, split_chars, split_on, string_of, string_views, views};
use crate::types::{FileContent, FileDiff};

verus! {

/// Strictly increasing: sorted, with no text twice.
pub open spec fn strictly_sorted(s: Seq<Seq<char>>) -> bool {
    forall|i: int, j: int| 0 <= i < j < s.len() ==> text_lt(s[i], s[j])
}

/// The arguments of `git ls-files` for the file list: tracked and
/// untracked files, `.gitignore` respected unless ignored files are shown.
pub fn list_files_args(show_ignored: bool) -> (r: Vec<&'static str>)
    ensures
        r@.map_values(|s: &str| s@) == if show_ignored {
            seq!["ls-files"@, "--cached"@, "--others"@, "-z"@]
        } else {
            seq!["ls-files"@, "--cached"@, "--others"@, "--exclude-standard"@, "-z"@]
        },
{
    let mut args = vec!["ls-files", "--cached", "--others"];
    if !show_ignored {
        args.push("--exclude-standard");
    }
    args.push("-z");
    assert(args@.map_values(|s: &str| s@) =~= if show_ignored {
        seq!["ls-files"@, "--cached"@, "--others"@, "-z"@]
    } else {
        seq!["ls-files"@, "--cached"@, "--others"@, "--exclude-standard"@, "-z"@]
    });
    args
}

fn insert_unique(sorted: &mut Vec<String>, x: String)
    requires
        strictly_sorted(string_views(old(sorted)@)),
    ensures
        strictly_sorted(string_views(final(sorted)@)),
        forall|t: Seq<char>|
            string_views(final(sorted)@).contains(t) <==> (string_views(old(sorted)@).contains(t)
                || t == x@),
{
    let ghost sv = string_views(sorted@);
    let xc = chars_of(x.as_str());
    let mut j: usize = 0;
    while j < sorted.len() && chars_lt(&chars_of(sorted[j].as_str()), &xc)
        invariant
            0 <= j <= sorted.len(),
            sv == string_views(sorted@),
            xc@ == x@,
            forall|m: int| 0 <= m < j ==> text_lt(#[trigger] sv[m], x@),
        decreases sorted.len() - j,
    {
        j += 1;
    }
    if j < sorted.len() && sorted[j] == x {
        assert(sv[j as int] == x@);
        return;
    }
    proof {
        if j < sv.len() {
            lemma_text_lt_total(sv[j as int], x@);
            assert(text_lt(x@, sv[j as int]));
            assert forall|m: int| j <= m < sv.len() implies text_lt(x@, #[trigger] sv[m]) by {
                if m > j {
                    lemma_text_lt_trans(x@, sv[j as int], sv[m]);
                }
            }
        }
    }
    sorted.insert(j, x);
    let ghost nv = string_views(sorted@);
    assert(nv =~= sv.take(j as int).push(x@) + sv.skip(j as int));
    assert forall|a: int, b: int| 0 <= a < b < nv.len() implies text_lt(nv[a], nv[b]) by {
        if b < j {
            assert(nv[a] == sv[a] && nv[b] == sv[b]);
        } else if b == j {
            assert(nv[a] == sv[a]);
        } else if a < j {
            assert(nv[a] == sv[a] && nv[b] == sv[b - 1]);
            lemma_text_lt_trans(sv[a], x@, sv[b - 1]);
        } else if a == j {
            assert(nv[b] == sv[b - 1]);
        } else {
            assert(nv[a] == sv[a - 1] && nv[b] == sv[b - 1]);
        }
    }
    assert forall|t: Seq<char>| nv.contains(t) <==> (sv.contains(t) || t == x@) by {
        if nv.contains(t) {
            let a = choose|a: int| 0 <= a < nv.len() && #[trigger] nv[a] == t;
            if a < j {
                assert(sv[a] == t);
            } else if a > j {
                assert(sv[a - 1] == t);
            }
        }
        if sv.contains(t) {
            let a = choose|a: int| 0 <= a < sv.len() && #[trigger] sv[a] == t;
            if a < j {
                assert(nv[a] == t);
            } else {
                assert(nv[a + 1] == t);
            }
        }
        if t == x@ {
            assert(nv[j as int] == t);
        }
    }
}

/// The project view's files from `git ls-files -z` output: every non-empty
/// NUL-separated path once, sorted.
pub fn list_files_from(out: &str) -> (r: Vec<String>)
    ensures
        strictly_sorted(string_views(r@)),
        forall|t: Seq<char>|
            string_views(r@).contains(t) <==> (t.len() > 0 && split_on(out@, '\0').contains(t)),
{
    let v = chars_of(out);
    let toks = split_chars(&v, '\0');
    let ghost tv = views(toks@);
    let mut r: Vec<String> = Vec::new();
    let mut i: usize = 0;
    while i < toks.len()
        invariant
            0 <= i <= toks.len(),
            tv == views(toks@),
            tv == split_on(out@, '\0'),
            strictly_sorted(string_views(r@)),
            forall|t: Seq<char>|
                string_views(r@).contains(t) <==> (t.len() > 0 && tv.take(i as int).contains(t)),
        decreases toks.len() - i,
    {
        let ghost before = string_views(r@);
        assert(tv.take(i as int + 1) =~= tv.take(i as int).push(tv[i as int]));
        assert(tv[i as int] == toks@[i as int]@);
        if toks[i].len() > 0 {
            let p = string_of(&toks[i]);
            insert_unique(&mut r, p);
        }
        assert forall|t: Seq<char>|
            string_views(r@).contains(t) <==> (t.len() > 0 && tv.take(i as int + 1).contains(t)) by {
            if tv.take(i as int + 1).contains(t) && !tv.take(i as int).contains(t) {
                let a = choose|a: int| 0 <= a < i + 1 && #[trigger] tv.take(i as int + 1)[a] == t;
                if a < i {
                    assert(tv.take(i as int)[a] == t);
                }
            }
            if tv.take(i as int).contains(t) {
                let a = choose|a: int| 0 <= a < i && #[trigger] tv.take(i as int)[a] == t;
                assert(tv.take(i as int + 1)[a] == t);
            }
            if t == tv[i as int] {
                assert(tv.take(i as int + 1)[i as int] == t);
            }
        }
        i += 1;
    }
    assert(tv.take(toks.len() as int) =~= tv);
    r
}

/// A file's contents for the viewer once it is known to be within the size
/// limit: none and binary when a NUL appears among its first 8000 bytes or it
/// is not valid UTF-8, its text otherwise.
pub fn file_content(bytes: Vec<u8>) -> (r: FileContent)
    ensures
        !r.too_large,
        if looks_binary(bytes@) || !valid_utf8(bytes@) {
            r.content is None && r.is_binary
        } else {
            r.content matches Some(s) && s@ == decode_utf8(bytes@) && !r.is_binary
        },
{
    if is_binary_content(bytes.as_slice()) {
        return FileContent { content: None, is_binary: true, too_large: false };
    }
    match crate::repo::decode_text(bytes) {
        Some(text) => FileContent { content: Some(text), is_binary: false, too_large: false },
        None => FileContent { content: None, is_binary: true, too_large: false },
    }
}

/// The contents of a file above the size limit: not shown.
pub fn file_content_too_large() -> (r: FileContent)
    ensures
        r.content is None && !r.is_binary && r.too_large,
{
    FileContent { content: None, is_binary: false, too_large: true }
}

/// Whether a file of `size` bytes is above the size limit.
pub fn over_max_size(size: u64) -> (b: bool)
    ensures
        b == (size > MAX_FILE_SIZE),
{
    size > MAX_FILE_SIZE
}

/// The diff of an untracked file within the size limit: no original, its
/// text as the modified side; binary when a NUL appears among its first 8000
/// bytes or it is not valid UTF-8.
pub fn untracked_diff(bytes: Vec<u8>) -> (r: FileDiff)
    ensures
        !r.too_large,
        r.original is None,
        r.file_header@.len() == 0,
        r.hunks@.len() == 0,
        if looks_binary(bytes@) || !valid_utf8(bytes@) {
            r.modified is None && r.is_binary
        } else {
            r.modified matches Some(s) && s@ == decode_utf8(bytes@) && !r.is_binary
        },
{
    if is_binary_content(bytes.as_slice()) {
        return FileDiff::binary();
    }
    match crate::repo::decode_text(bytes) {
        Some(text) => FileDiff {
            original: None,
            modified: Some(text),
            is_binary: false,
            too_large: false,
            file_header: String::new(),
            hunks: Vec::new(),
        },
        None => FileDiff::binary(),
    }
}


/// The non-empty pieces of `toks`, in order.
pub open spec fn nonempty_pieces(toks: Seq<Seq<char>>) -> Seq<Seq<char>>
    decreases toks.len(),
{
    if toks.len() == 0 {
        seq![]
    } else if toks.last().len() == 0 {
        nonempty_pieces(toks.drop_last())
    } else {
        nonempty_pieces(toks.drop_last()).push(toks.last())
    }
}

/// The paths of NUL-separated `git ls-files -z` output: its non-empty
/// pieces, in order.
pub fn nul_paths(out: &str) -> (r: Vec<String>)
    ensures
        string_views(r@) == nonempty_pieces(split_on(out@, '\0')),
{
    let v = chars_of(out);
    let toks = split_chars(&v, '\0');
    let ghost tv = views(toks@);
    let mut r: Vec<String> = Vec::new();
    let mut i: usize = 0;
    assert(tv.take(0) =~= Seq::<Seq<char>>::empty());
    while i < toks.len()
        invariant
            0 <= i <= toks.len(),
            tv == views(toks@),
            tv == split_on(out@, '\0'),
            string_views(r@) == nonempty_pieces(tv.take(i as int)),
        decreases toks.len() - i,
    {
        assert(tv.take(i as int + 1).drop_last() =~= tv.take(i as int));
        assert(tv.take(i as int + 1).last() == toks@[i as int]@);
        if toks[i].len() > 0 {
            let ghost before = string_views(r@);
            r.push(string_of(&toks[i]));
            assert(string_views(r@) =~= before.push(toks@[i as int]@));
        }
        i += 1;
    }
    assert(tv.take(toks.len() as int) =~= tv);
    r
}

/// The image MIME type of `path`, or the error of an image diff for a
/// format that is not supported.
pub fn image_mime_required(path: &str) -> (r: Result<&'static str, String>)
    ensures
        match crate::lang::image_mime_spec(path@) {
            Some(m) => r matches Ok(x) && x@ == m,
            None => r matches Err(e) && e@ == "不支持的图片格式"@,
        },
{
    match crate::lang::image_mime(path) {
        Some(m) => Ok(m),
        None => Err(string_of(&chars_of("不支持的图片格式"))),
    }
}

/// One side of an image diff: the data URL of `bytes` when they could be
/// read and are within the size limit, none otherwise.
pub fn image_side(mime: &str, bytes: Option<Vec<u8>>) -> (r: Option<String>)
    ensures
        match bytes {
            Some(b) => if b@.len() <= MAX_FILE_SIZE {
                r matches Some(u) && u@ == "data:"@ + mime@ + ";base64,"@
                    + crate::lang::base64_standard(b@)
            } else {
                r is None
            },
            None => r is None,
        },
{
    match bytes {
        Some(b) => {
            if b.len() as u64 <= MAX_FILE_SIZE {
                Some(crate::lang::data_url(mime, b.as_slice()))
            } else {
                None
            }
        },
        None => None,
    }
}

} // verus!
