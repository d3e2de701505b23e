//! Decisions about a repository that follow from what git answered: the
//! base ref, the git directory, the operation in progress, the upstream's
//! ahead/behind counts, the outcome of a history operation, and the versions
//! of a conflicted path.
use vstd::prelude::*;
use vstd::utf8::{decode_utf8, valid_utf8};
use crate::diff::MAX_FILE_SIZE;
use crate::paths::{join_path, join_path_str};
use crate::text::{
    chars_of, parse_u32_vec, parse_u64_range, parse_u64_spec, push_all, string_of, trim,
    trim_range, trim_vec, words, split_words,
};
use crate::types::{ConflictSides, OpOutcome, RepoOperation};

verus! {

/// git's empty tree, the diff base of a repository without commits.
pub const EMPTY_TREE: &'static str = "4b825dc642cb6eb9a060e54bf8d69288fbee4904";

/// `String::from_utf8`: the text that `bytes` encode when they are valid
/// UTF-8, none otherwise (vstd's `valid_utf8` and `decode_utf8` state the
/// encoding).
#[verifier::external_body]
fn utf8_decode(bytes: Vec<u8>) -> (r: Option<String>)
    ensures
        r is Some <==> valid_utf8(bytes@),
        r matches Some(s) ==> s@ == decode_utf8(bytes@),
{
    String::from_utf8(bytes).ok()
}

/// The text that `bytes` encode, when they are valid UTF-8.
pub fn decode_text(bytes: Vec<u8>) -> (r: Option<String>)
    ensures
        r is Some <==> valid_utf8(bytes@),
        r matches Some(s) ==> s@ == decode_utf8(bytes@),
{
    utf8_decode(bytes)
}

/// The text of git's standard output: git's own error as it came, or an
/// error when the output is not valid UTF-8.
pub fn run_git_text(out: Result<Vec<u8>, String>) -> (r: Result<String, String>)
    ensures
        match out {
            Err(e) => r == Err::<String, String>(e),
            Ok(bytes) => if valid_utf8(bytes@) {
                r matches Ok(s) && s@ == decode_utf8(bytes@)
            } else {
                r matches Err(e) && e@ == "git 输出不是有效的 UTF-8"@
            },
        },
{
    match out {
        Err(e) => Err(e),
        Ok(bytes) => match utf8_decode(bytes) {
            Some(s) => Ok(s),
            None => Err("git 输出不是有效的 UTF-8".to_string()),
        },
    }
}

/// `HEAD` when the repository has a commit (`git rev-parse --verify HEAD`
/// succeeded), the empty tree otherwise, so that diffs work alike in a new
/// repository.
pub fn base_ref(head_exists: bool) -> (r: String)
    ensures
        head_exists ==> r@ == "HEAD"@,
        !head_exists ==> r@ == EMPTY_TREE@,
{
    if head_exists {
        "HEAD".to_string()
    } else {
        EMPTY_TREE.to_string()
    }
}

/// The resolved git directory: the trimmed answer of `git rev-parse
/// --git-dir`, joined onto the repository (a path of Windows when `windows`)
/// unless absolute; `.git` under the repository when git failed. (In a linked
/// worktree or submodule `.git` is a file pointing elsewhere, hence the
/// question.)
pub fn git_dir(repo: &str, rev_parse: Result<String, String>, windows: bool) -> (r: String)
    ensures
        match rev_parse {
            Ok(s) => r@ == join_path(repo@, trim(s@), windows),
            Err(_) => r@ == join_path(repo@, ".git"@, windows),
        },
{
    match rev_parse {
        Ok(s) => {
            let t = trim_vec(&chars_of(s.as_str()));
            let ts = string_of(&t);
            join_path_str(repo, ts.as_str(), windows)
        },
        Err(_) => join_path_str(repo, ".git", windows),
    }
}

/// Which of git's state markers exist under the git directory:
/// `MERGE_HEAD`, `CHERRY_PICK_HEAD`, `REVERT_HEAD`, `rebase-merge`,
/// `rebase-apply`.
#[derive(Clone, Copy, PartialEq, Eq, Debug, Structural)]
pub struct OperationMarkers {
    pub merge_head: bool,
    pub cherry_pick_head: bool,
    pub revert_head: bool,
    pub rebase_merge: bool,
    pub rebase_apply: bool,
}

/// The operation in progress that the markers show, checked in the order
/// merge, cherry-pick, revert, rebase.
pub open spec fn operation_of(m: OperationMarkers) -> RepoOperation {
    if m.merge_head {
        RepoOperation::Merge
    } else if m.cherry_pick_head {
        RepoOperation::CherryPick
    } else if m.revert_head {
        RepoOperation::Revert
    } else if m.rebase_merge || m.rebase_apply {
        RepoOperation::Rebase
    } else {
        RepoOperation::Idle
    }
}

/// Whether the repository is mid-merge / mid-cherry-pick / mid-revert /
/// mid-rebase, from the presence of git's own state markers.
pub fn detect_operation(markers: OperationMarkers) -> (r: RepoOperation)
    ensures
        r == operation_of(markers),
{
    if markers.merge_head {
        RepoOperation::Merge
    } else if markers.cherry_pick_head {
        RepoOperation::CherryPick
    } else if markers.revert_head {
        RepoOperation::Revert
    } else if markers.rebase_merge || markers.rebase_apply {
        RepoOperation::Rebase
    } else {
        RepoOperation::Idle
    }
}

/// The upstream ref from `git rev-parse --abbrev-ref --symbolic-full-name
/// @{u}`: the trimmed answer, none when git failed or the answer is blank (no
/// upstream is a normal state, not an error).
pub fn upstream_of(out: Result<String, String>) -> (r: Option<String>)
    ensures
        match out {
            Ok(s) => if trim(s@).len() > 0 {
                r matches Some(u) && u@ == trim(s@)
            } else {
                r is None
            },
            Err(_) => r is None,
        },
{
    match out {
        Ok(s) => {
            let t = trim_vec(&chars_of(s.as_str()));
            if t.len() > 0 {
                Some(string_of(&t))
            } else {
                None
            }
        },
        Err(_) => None,
    }
}

/// The revision range `upstream...HEAD` whose left-right count gives
/// (behind, ahead).
pub fn ahead_behind_range(upstream: &str) -> (r: String)
    ensures
        r@ == upstream@ + "...HEAD"@,
{
    let mut s = string_of(&chars_of(upstream));
    push_all(&mut s, &chars_of("...HEAD"));
    s
}

/// (upstream, ahead, behind) from the upstream and the answer of `git
/// rev-list --left-right --count upstream...HEAD`, whose first word counts
/// the upstream-only commits (behind) and whose second the HEAD-only ones
/// (ahead); all none without an upstream, and no counts when the answer does
/// not hold two numbers.
pub fn ahead_behind(upstream: Option<String>, counts: Result<String, String>) -> (r: (
    Option<String>,
    Option<u32>,
    Option<u32>,
))
    ensures
        match upstream {
            None => r.0 is None && r.1 is None && r.2 is None,
            Some(u) => r.0 == Some(u) && match counts {
                Ok(s) => {
                    let w = words(s@);
                    if w.len() >= 2 && crate::text::parse_u32_spec(w[0]) is Some
                        && crate::text::parse_u32_spec(w[1]) is Some {
                        r.1 == crate::text::parse_u32_spec(w[1]) && r.2
                            == crate::text::parse_u32_spec(w[0])
                    } else {
                        r.1 is None && r.2 is None
                    }
                },
                Err(_) => r.1 is None && r.2 is None,
            },
        },
{
    let up = match upstream {
        None => return (None, None, None),
        Some(u) => u,
    };
    let s = match counts {
        Ok(s) => s,
        Err(_) => return (Some(up), None, None),
    };
    let w = split_words(&chars_of(s.as_str()));
    if w.len() < 2 {
        return (Some(up), None, None);
    }
    let behind = parse_u32_vec(&chars_of(w[0].as_str()));
    let ahead = parse_u32_vec(&chars_of(w[1].as_str()));
    assert(crate::text::string_views(w@)[0] == w@[0]@);
    assert(crate::text::string_views(w@)[1] == w@[1]@);
    match (ahead, behind) {
        (Some(a), Some(b)) => (Some(up), Some(a), Some(b)),
        _ => (Some(up), None, None),
    }
}

/// The revision `hash^1`, whose existence tells a commit with a parent.
pub fn parent_spec(hash: &str) -> (r: String)
    ensures
        r@ == hash@ + "^1"@,
{
    let mut s = string_of(&chars_of(hash));
    push_all(&mut s, &chars_of("^1"));
    s
}

/// The first parent of a commit, `hash^1`, when it exists; the empty tree
/// for a root commit. Both are valid `git diff` operands.
pub fn parent_ref(hash: &str, parent_exists: bool) -> (r: String)
    ensures
        parent_exists ==> r@ == hash@ + "^1"@,
        !parent_exists ==> r@ == EMPTY_TREE@,
{
    if parent_exists {
        parent_spec(hash)
    } else {
        EMPTY_TREE.to_string()
    }
}

/// The outcome of a cherry-pick, revert, merge, rebase or pull: applied
/// when git succeeded; on failure a conflict when an operation is now in
/// progress (`operation` as detected after the call), git's error otherwise.
pub fn classify_op_result(result: Result<Vec<u8>, String>, operation: RepoOperation) -> (r: Result<
    OpOutcome,
    String,
>)
    ensures
        match result {
            Ok(_) => r == Ok::<OpOutcome, String>(OpOutcome::Applied),
            Err(e) => if operation != RepoOperation::Idle {
                r == Ok::<OpOutcome, String>(OpOutcome::Conflict)
            } else {
                r == Err::<OpOutcome, String>(e)
            },
        },
{
    match result {
        Ok(_) => Ok(OpOutcome::Applied),
        Err(e) => {
            if operation != RepoOperation::Idle {
                Ok(OpOutcome::Conflict)
            } else {
                Err(e)
            }
        },
    }
}

/// One version of a conflicted path: absent (a legitimate outcome for
/// add/add and delete/modify conflicts), binary, or text.
pub enum StageContent {
    Missing,
    Binary,
    Text(String),
}

/// The version that `git show :stage:path` gave: missing when git failed,
/// text when the bytes are valid UTF-8, binary otherwise.
pub fn read_conflict_stage(show: Result<Vec<u8>, String>) -> (r: StageContent)
    ensures
        match show {
            Err(_) => r is Missing,
            Ok(bytes) => if valid_utf8(bytes@) {
                r matches StageContent::Text(s) && s@ == decode_utf8(bytes@)
            } else {
                r is Binary
            },
        },
{
    match show {
        Err(_) => StageContent::Missing,
        Ok(bytes) => match utf8_decode(bytes) {
            Some(s) => StageContent::Text(s),
            None => StageContent::Binary,
        },
    }
}

/// The text of a version, none unless it is text.
pub open spec fn stage_text(s: StageContent) -> Option<Seq<char>> {
    match s {
        StageContent::Text(t) => Some(t@),
        _ => None,
    }
}

/// The three versions of a conflicted path (base, ours, theirs): binary
/// when any of them is binary, each text kept.
pub fn conflict_sides(base: StageContent, ours: StageContent, theirs: StageContent) -> (r:
    ConflictSides)
    ensures
        crate::types::opt_view(r.base) == stage_text(base),
        crate::types::opt_view(r.ours) == stage_text(ours),
        crate::types::opt_view(r.theirs) == stage_text(theirs),
        r.is_binary == (base is Binary || ours is Binary || theirs is Binary),
        !r.too_large,
{
    let is_binary = matches!(base, StageContent::Binary) || matches!(ours, StageContent::Binary)
        || matches!(theirs, StageContent::Binary);
    ConflictSides {
        base: text_of(base),
        ours: text_of(ours),
        theirs: text_of(theirs),
        is_binary,
        too_large: false,
    }
}

fn text_of(s: StageContent) -> (r: Option<String>)
    ensures
        crate::types::opt_view(r) == stage_text(s),
{
    match s {
        StageContent::Text(t) => Some(t),
        _ => None,
    }
}

/// The versions of a conflicted path too large to show.
pub fn conflict_sides_too_large() -> (r: ConflictSides)
    ensures
        r.base is None && r.ours is None && r.theirs is None,
        !r.is_binary && r.too_large,
{
    ConflictSides { base: None, ours: None, theirs: None, is_binary: false, too_large: true }
}

/// A blob size that `git cat-file -s` reported is above the size limit:
/// its trimmed answer read as a number (0 when it is none); false when git
/// failed.
pub open spec fn over_size_limit(out: Result<String, String>) -> bool {
    match out {
        Ok(s) => match parse_u64_spec(trim(s@)) {
            Some(n) => n > MAX_FILE_SIZE,
            None => false,
        },
        Err(_) => false,
    }
}

/// Whether a `git cat-file -s` answer says the blob is above the limit.
pub fn exceeds_size_limit(out: Result<String, String>) -> (b: bool)
    ensures
        b == over_size_limit(out),
{
    match out {
        Ok(s) => {
            let v = chars_of(s.as_str());
            let (lo, hi) = trim_range(&v, 0, v.len());
            assert(v@.subrange(0, v@.len() as int) =~= v@);
            match parse_u64_range(&v, lo, hi) {
                Some(n) => n > MAX_FILE_SIZE,
                None => false,
            }
        },
        Err(_) => false,
    }
}


/// The repository root that `git rev-parse --show-toplevel` answered,
/// trimmed; when it failed, the directory is no repository.
pub fn repo_root(out: Result<String, String>) -> (r: Result<String, String>)
    ensures
        out matches Ok(s) ==> (r matches Ok(x) && x@ == trim(s@)),
        out is Err ==> (r matches Err(e) && e@ == "该目录不是 git 仓库"@),
{
    match out {
        Ok(s) => Ok(string_of(&trim_vec(&chars_of(s.as_str())))),
        Err(_) => Err(string_of(&chars_of("该目录不是 git 仓库"))),
    }
}

/// The current branch that `git branch --show-current` answered, trimmed;
/// none when it failed or answered nothing (a detached HEAD).
pub fn current_branch(out: Result<String, String>) -> (r: Option<String>)
    ensures
        match out {
            Ok(s) => if trim(s@).len() > 0 {
                r matches Some(x) && x@ == trim(s@)
            } else {
                r is None
            },
            Err(_) => r is None,
        },
{
    match out {
        Ok(s) => {
            let t = trim_vec(&chars_of(s.as_str()));
            if t.len() > 0 {
                Some(string_of(&t))
            } else {
                None
            }
        },
        Err(_) => None,
    }
}

/// The repository to open on launch: only for the main window, the first
/// of the two settings that is set (`primary`, else `legacy`), when it is
/// not blank.
pub fn auto_open_choice(is_main: bool, primary: Option<String>, legacy: Option<String>) -> (r: Option<
    String,
>)
    ensures
        !is_main ==> r is None,
        is_main ==> match (if primary is Some {
            primary
        } else {
            legacy
        }) {
            Some(p) => if trim(p@).len() > 0 {
                r == Some(p)
            } else {
                r is None
            },
            None => r is None,
        },
{
    if !is_main {
        return None;
    }
    let chosen = match primary {
        Some(p) => Some(p),
        None => legacy,
    };
    match chosen {
        Some(p) => {
            if trim_vec(&chars_of(p.as_str())).len() > 0 {
                Some(p)
            } else {
                None
            }
        },
        None => None,
    }
}

/// A time as milliseconds since the Unix epoch, cut to 64 bits as `as u64`
/// does; none when the time was not available or lies before the epoch.
pub fn system_time_millis(millis: Option<u128>) -> (r: Option<u64>)
    ensures
        match millis {
            Some(m) => r == Some((m % 0x1_0000_0000_0000_0000) as u64),
            None => r is None,
        },
{
    match millis {
        Some(m) => {
            let low = m % 0x1_0000_0000_0000_0000u128;
            Some(low as u64)
        },
        None => None,
    }
}

/// A full commit message as `git log --format=%B` gives it, without the
/// trailing newlines.
pub fn commit_message(out: String) -> (r: String)
    ensures
        r@ == crate::text::strip_trailing(out@, '\n'),
{
    let v = chars_of(out.as_str());
    let mut j = v.len();
    assert(v@.subrange(0, j as int) =~= v@);
    while j > 0 && v[j - 1] == '\n'
        invariant
            0 <= j <= v.len(),
            crate::text::strip_trailing(v@.subrange(0, j as int), '\n') == crate::text::strip_trailing(
                v@,
                '\n',
            ),
        decreases j,
    {
        assert(v@.subrange(0, j as int).drop_last() =~= v@.subrange(0, j - 1));
        j -= 1;
    }
    string_of(&crate::text::sub_vec(&v, 0, j))
}

/// The name shown for `path`: its last component, or the whole path when
/// it has none.
pub fn display_name(path: &str) -> (r: String)
    ensures
        match crate::lang::file_name_of(path@) {
            Some(n) => r@ == n,
            None => r@ == path@,
        },
{
    match crate::lang::file_name_exec(&chars_of(path)) {
        Some(n) => string_of(&n),
        None => string_of(&chars_of(path)),
    }
}

} // verus!
