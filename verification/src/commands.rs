//! The git command lines that the repository actions run, and the
//! decisions between them: which arguments, in which order, or which error
//! instead.
use vstd::prelude::*;
use crate::text::{chars_of, push_all, string_of, string_views, trim, trim_vec};
use crate::types::{ChangeKind, RepoOperation};

verus! {

pub fn own(s: &str) -> (r: String)
    ensures
        r@ == s@,
{
    s.to_string()
}

/// The decimal digit `d` (below ten).
pub open spec fn digit_char(d: nat) -> char {
    if d == 0 {
        '0'
    } else if d == 1 {
        '1'
    } else if d == 2 {
        '2'
    } else if d == 3 {
        '3'
    } else if d == 4 {
        '4'
    } else if d == 5 {
        '5'
    } else if d == 6 {
        '6'
    } else if d == 7 {
        '7'
    } else if d == 8 {
        '8'
    } else {
        '9'
    }
}

/// The decimal form of `n`, as `Display` writes an unsigned integer.
pub open spec fn decimal(n: nat) -> Seq<char>
    decreases n,
{
    if n < 10 {
        seq![digit_char(n)]
    } else {
        decimal(n / 10).push(digit_char(n % 10))
    }
}

fn push_decimal(s: &mut String, n: u64)
    ensures
        final(s)@ == old(s)@ + decimal(n as nat),
    decreases n,
{
    if n >= 10 {
        push_decimal(s, n / 10);
    }
    let d = n % 10;
    let c = if d == 0 {
        '0'
    } else if d == 1 {
        '1'
    } else if d == 2 {
        '2'
    } else if d == 3 {
        '3'
    } else if d == 4 {
        '4'
    } else if d == 5 {
        '5'
    } else if d == 6 {
        '6'
    } else if d == 7 {
        '7'
    } else if d == 8 {
        '8'
    } else {
        '9'
    };
    s.push(c);
}

/// Appends copies of the strings of `p` to `a`.
pub fn append_strings(a: &mut Vec<String>, p: &Vec<String>)
    ensures
        string_views(final(a)@) == string_views(old(a)@) + string_views(p@),
{
    let ghost start = string_views(a@);
    let mut i: usize = 0;
    while i < p.len()
        invariant
            0 <= i <= p.len(),
            string_views(a@) == start + string_views(p@).take(i as int),
        decreases p.len() - i,
    {
        let ghost before = string_views(a@);
        a.push(p[i].clone());
        assert(string_views(a@) =~= before.push(p@[i as int]@));
        assert(string_views(p@).take(i as int + 1) =~= string_views(p@).take(i as int).push(
            p@[i as int]@,
        ));
        i += 1;
    }
    assert(string_views(p@).take(p.len() as int) =~= string_views(p@));
}

/// `prefix` followed by the decimal form of `n`.
pub fn with_number(prefix: &str, n: u64) -> (r: String)
    ensures
        r@ == prefix@ + decimal(n as nat),
{
    let mut s = own(prefix);
    push_decimal(&mut s, n);
    s
}

/// `a` followed by `b`.
pub fn concat(a: &str, b: &str) -> (r: String)
    ensures
        r@ == a@ + b@,
{
    let mut s = own(a);
    push_all(&mut s, &chars_of(b));
    s
}

/// Whether `s` is blank: nothing but whitespace.
pub fn is_blank(s: &str) -> (b: bool)
    ensures
        b == (trim(s@).len() == 0),
{
    crate::text::trim_vec(&chars_of(s)).len() == 0
}

/// The answer of `git grep`: its output, and no output for the exit status
/// 1 with an empty error that means "no match"; any other error stays.
pub fn grep_outcome(result: Result<Vec<u8>, String>) -> (r: Result<Vec<u8>, String>)
    ensures
        match result {
            Ok(o) => r == Ok::<Vec<u8>, String>(o),
            Err(e) => if e@.len() == 0 {
                (r matches Ok(o) && o@.len() == 0)
            } else {
                r == Err::<Vec<u8>, String>(e)
            },
        },
{
    match result {
        Ok(o) => Ok(o),
        Err(e) => {
            if chars_of(e.as_str()).len() == 0 {
                Ok(Vec::new())
            } else {
                Err(e)
            }
        },
    }
}

/// The arguments of the repository-wide fixed-string search for `query`
/// (tracked and untracked files, binary files skipped, whole words when
/// asked); none for a blank query, which finds nothing.
pub fn search_text_args(query: &str, whole_word: bool) -> (r: Option<Vec<String>>)
    ensures
        trim(query@).len() == 0 ==> r is None,
        trim(query@).len() > 0 ==> (r matches Some(a) && string_views(a@) == seq![
            "grep"@,
            "-n"@,
            "-I"@,
            "--no-color"@,
            "--untracked"@,
            "-F"@,
        ] + (if whole_word {
            seq!["-w"@]
        } else {
            Seq::<Seq<char>>::empty()
        }) + seq!["-e"@, query@]),
{
    if is_blank(query) {
        return None;
    }
    let mut a = vec![own("grep"), own("-n"), own("-I"), own("--no-color"), own("--untracked"), own("-F")];
    if whole_word {
        a.push(own("-w"));
    }
    a.push(own("-e"));
    a.push(own(query));
    assert(string_views(a@) =~= seq![
        "grep"@,
        "-n"@,
        "-I"@,
        "--no-color"@,
        "--untracked"@,
        "-F"@,
    ] + (if whole_word {
        seq!["-w"@]
    } else {
        Seq::<Seq<char>>::empty()
    }) + seq!["-e"@, query@]);
    Some(a)
}

/// The arguments that list the files holding `query` for a replace in
/// files (scoped to `paths` when given); an error for an empty query.
pub fn replace_in_files_args(query: &str, whole_word: bool, paths: &Option<Vec<String>>) -> (r:
    Result<Vec<String>, String>)
    ensures
        query@.len() == 0 ==> (r matches Err(e) && e@ == "搜索内容不能为空"@),
        query@.len() > 0 ==> (r matches Ok(a) && string_views(a@) == seq![
            "grep"@,
            "-l"@,
            "-I"@,
            "--no-color"@,
            "--untracked"@,
            "-F"@,
        ] + (if whole_word {
            seq!["-w"@]
        } else {
            Seq::<Seq<char>>::empty()
        }) + seq!["-e"@, query@] + match paths {
            Some(p) => seq!["--"@] + string_views(p@),
            None => Seq::<Seq<char>>::empty(),
        }),
{
    if chars_of(query).len() == 0 {
        return Err(own("搜索内容不能为空"));
    }
    let mut a = vec![own("grep"), own("-l"), own("-I"), own("--no-color"), own("--untracked"), own("-F")];
    if whole_word {
        a.push(own("-w"));
    }
    a.push(own("-e"));
    a.push(own(query));
    let ghost base = string_views(a@);
    match paths {
        Some(p) => {
            a.push(own("--"));
            append_strings(&mut a, p);
            assert(string_views(a@) =~= base + (seq!["--"@] + string_views(p@)));
        },
        None => {
            assert(string_views(a@) =~= base + Seq::<Seq<char>>::empty());
        },
    }
    assert(base =~= seq![
        "grep"@,
        "-l"@,
        "-I"@,
        "--no-color"@,
        "--untracked"@,
        "-F"@,
    ] + (if whole_word {
        seq!["-w"@]
    } else {
        Seq::<Seq<char>>::empty()
    }) + seq!["-e"@, query@]);
    Ok(a)
}


/// The arguments that shelve the changes of `paths` (untracked files too),
/// with the trimmed `message` when it is not blank; an error when no path
/// is given.
pub fn stash_push_args(message: &str, paths: &Vec<String>) -> (r: Result<Vec<String>, String>)
    ensures
        paths.len() == 0 ==> (r matches Err(e) && e@ == "没有要搁置的文件"@),
        paths.len() > 0 ==> (r matches Ok(a) && string_views(a@) == seq![
            "stash"@,
            "push"@,
            "--include-untracked"@,
        ] + (if trim(message@).len() > 0 {
            seq!["-m"@, trim(message@)]
        } else {
            Seq::<Seq<char>>::empty()
        }) + seq!["--"@] + string_views(paths@)),
{
    if paths.len() == 0 {
        return Err(own("没有要搁置的文件"));
    }
    let mut a = vec![own("stash"), own("push"), own("--include-untracked")];
    let msg = trim_vec(&chars_of(message));
    if msg.len() > 0 {
        a.push(own("-m"));
        a.push(string_of(&msg));
    }
    a.push(own("--"));
    let ghost base = string_views(a@);
    append_strings(&mut a, paths);
    assert(base =~= seq!["stash"@, "push"@, "--include-untracked"@] + (if trim(message@).len() > 0 {
        seq!["-m"@, trim(message@)]
    } else {
        Seq::<Seq<char>>::empty()
    }) + seq!["--"@]);
    Ok(a)
}

/// The name of the shelf entry at `index`: `stash@{index}`.
pub fn stash_ref(index: u32) -> (r: String)
    ensures
        r@ == "stash@{"@ + decimal(index as nat) + "}"@,
{
    let mut s = with_number("stash@{", index as u64);
    push_all(&mut s, &chars_of("}"));
    s
}

/// The arguments that re-apply the shelf entry at `index` and drop it.
pub fn stash_pop_args(index: u32) -> (r: Vec<String>)
    ensures
        string_views(r@) == seq!["stash"@, "pop"@, "stash@{"@ + decimal(index as nat) + "}"@],
{
    let r = vec![own("stash"), own("pop"), stash_ref(index)];
    assert(string_views(r@) =~= seq!["stash"@, "pop"@, "stash@{"@ + decimal(index as nat) + "}"@]);
    r
}

/// The arguments that discard the shelf entry at `index`.
pub fn stash_drop_args(index: u32) -> (r: Vec<String>)
    ensures
        string_views(r@) == seq!["stash"@, "drop"@, "stash@{"@ + decimal(index as nat) + "}"@],
{
    let r = vec![own("stash"), own("drop"), stash_ref(index)];
    assert(string_views(r@) =~= seq!["stash"@, "drop"@, "stash@{"@ + decimal(index as nat) + "}"@]);
    r
}

/// `patch`, ending in a newline: `git apply` wants its last line closed.
pub fn patch_with_newline(patch: String) -> (r: String)
    ensures
        patch@.len() > 0 && patch@.last() == '\n' ==> r@ == patch@,
        !(patch@.len() > 0 && patch@.last() == '\n') ==> r@ == patch@.push('\n'),
        r@.len() > 0 && r@.last() == '\n',
{
    let v = chars_of(patch.as_str());
    if v.len() > 0 && v[v.len() - 1] == '\n' {
        patch
    } else {
        let mut p = patch;
        p.push('\n');
        p
    }
}

/// What one hunk of a diff is applied for.
#[derive(Clone, Copy, PartialEq, Eq, Debug, Structural)]
pub enum HunkAction {
    /// Take the hunk back out of the worktree file.
    Revert,
    /// Add the hunk of the unstaged diff to the index.
    Stage,
    /// Take the hunk of the staged diff back out of the index.
    Unstage,
}

/// The leading flags of `git apply` for `action`.
pub open spec fn apply_flags(action: HunkAction) -> Seq<Seq<char>> {
    match action {
        HunkAction::Revert => seq!["-R"@],
        HunkAction::Stage => seq!["--cached"@],
        HunkAction::Unstage => seq!["--cached"@, "-R"@],
    }
}

/// The arguments of `git apply` that apply a patch read from stdin for
/// `action`; `lenient` adds the whitespace-tolerant retry's flag.
pub fn hunk_apply_args(action: HunkAction, lenient: bool) -> (r: Vec<String>)
    ensures
        string_views(r@) == seq!["apply"@] + apply_flags(action) + seq!["--whitespace=nowarn"@] + (
        if lenient {
            seq!["--ignore-whitespace"@]
        } else {
            Seq::<Seq<char>>::empty()
        }) + seq!["-"@],
{
    let mut a = vec![own("apply")];
    match action {
        HunkAction::Revert => a.push(own("-R")),
        HunkAction::Stage => a.push(own("--cached")),
        HunkAction::Unstage => {
            a.push(own("--cached"));
            a.push(own("-R"));
        },
    }
    a.push(own("--whitespace=nowarn"));
    if lenient {
        a.push(own("--ignore-whitespace"));
    }
    a.push(own("-"));
    assert(string_views(a@) =~= seq!["apply"@] + apply_flags(action) + seq!["--whitespace=nowarn"@]
        + (if lenient {
        seq!["--ignore-whitespace"@]
    } else {
        Seq::<Seq<char>>::empty()
    }) + seq!["-"@]);
    a
}

/// The message of a hunk that applied neither way: the first error `e1`
/// and the lenient retry's `e2`, for `action` on `path`.
pub open spec fn hunk_failure(action: HunkAction, path: Seq<char>, e1: Seq<char>, e2: Seq<char>) -> Seq<
    char,
> {
    let tail = e1 + "（宽松空白重试: "@ + e2 + "）"@;
    match action {
        HunkAction::Revert => "还原失败: "@ + tail,
        HunkAction::Stage => "暂存 "@ + path + " 失败: "@ + tail,
        HunkAction::Unstage => "取消暂存 "@ + path + " 失败: "@ + tail,
    }
}

/// The outcome of the lenient retry, once the first `git apply` failed with
/// `e1`: success, or both errors in one message.
pub fn hunk_retry_result(action: HunkAction, path: &str, e1: &str, retry: Result<Vec<u8>, String>) -> (r:
    Result<(), String>)
    ensures
        retry is Ok ==> r is Ok,
        retry matches Err(e2) ==> (r matches Err(m) && m@ == hunk_failure(action, path@, e1@, e2@)),
{
    match retry {
        Ok(_) => Ok(()),
        Err(e2) => {
            let mut m = match action {
                HunkAction::Revert => own("还原失败: "),
                HunkAction::Stage => concat("暂存 ", path),
                HunkAction::Unstage => concat("取消暂存 ", path),
            };
            if action != HunkAction::Revert {
                push_all(&mut m, &chars_of(" 失败: "));
            }
            push_all(&mut m, &chars_of(e1));
            push_all(&mut m, &chars_of("（宽松空白重试: "));
            push_all(&mut m, &chars_of(e2.as_str()));
            push_all(&mut m, &chars_of("）"));
            assert(m@ =~= hunk_failure(action, path@, e1@, e2@));
            Err(m)
        },
    }
}

/// The command that refreshes the index's stat cache, so that a diff does
/// not report a stale clean tree (git exits non-zero when entries needed
/// updating, which is expected).
pub fn refresh_index() -> (r: Vec<String>)
    ensures
        string_views(r@) == seq!["update-index"@, "-q"@, "--refresh"@],
{
    let r = vec![own("update-index"), own("-q"), own("--refresh")];
    assert(string_views(r@) =~= seq!["update-index"@, "-q"@, "--refresh"@]);
    r
}

/// `git restore --staged -- path`: the index entry of `path` back at HEAD.
pub fn restore_staged_args(path: &str) -> (r: Vec<String>)
    ensures
        string_views(r@) == seq!["restore"@, "--staged"@, "--"@, path@],
{
    let r = vec![own("restore"), own("--staged"), own("--"), own(path)];
    assert(string_views(r@) =~= seq!["restore"@, "--staged"@, "--"@, path@]);
    r
}

/// `git diff --quiet HEAD -- path`: succeeds when `path` is clean against
/// HEAD.
pub fn diff_quiet_head_args(path: &str) -> (r: Vec<String>)
    ensures
        string_views(r@) == seq!["diff"@, "--quiet"@, "HEAD"@, "--"@, path@],
{
    let r = vec![own("diff"), own("--quiet"), own("HEAD"), own("--"), own(path)];
    assert(string_views(r@) =~= seq!["diff"@, "--quiet"@, "HEAD"@, "--"@, path@]);
    r
}

/// `git checkout HEAD -- path`: rewrites worktree file and index entry.
pub fn checkout_head_args(path: &str) -> (r: Vec<String>)
    ensures
        string_views(r@) == seq!["checkout"@, "HEAD"@, "--"@, path@],
{
    let r = vec![own("checkout"), own("HEAD"), own("--"), own(path)];
    assert(string_views(r@) =~= seq!["checkout"@, "HEAD"@, "--"@, path@]);
    r
}

/// The arguments that stage `path`, and the old side of a rename with it.
pub fn stage_file_args(path: &str, old_path: &Option<String>) -> (r: Vec<String>)
    ensures
        string_views(r@) == seq!["add"@, "-A"@, "--"@] + match old_path {
            Some(o) => seq![o@],
            None => Seq::<Seq<char>>::empty(),
        } + seq![path@],
{
    let mut a = vec![own("add"), own("-A"), own("--")];
    match old_path {
        Some(o) => a.push(o.clone()),
        None => {},
    }
    a.push(own(path));
    assert(string_views(a@) =~= seq!["add"@, "-A"@, "--"@] + match old_path {
        Some(o) => seq![o@],
        None => Seq::<Seq<char>>::empty(),
    } + seq![path@]);
    a
}

/// The arguments that empty the index back to HEAD, or to nothing in a
/// repository without commits.
pub fn unstage_all_args(has_head: bool) -> (r: Vec<String>)
    ensures
        has_head ==> string_views(r@) == seq!["reset"@],
        !has_head ==> string_views(r@) == seq!["read-tree"@, "--empty"@],
{
    if has_head {
        let r = vec![own("reset")];
        assert(string_views(r@) =~= seq!["reset"@]);
        r
    } else {
        let r = vec![own("read-tree"), own("--empty")];
        assert(string_views(r@) =~= seq!["read-tree"@, "--empty"@]);
        r
    }
}

/// The two commands that drop every change of the worktree and index
/// (ignored files survive); an error in a repository without commits.
pub fn revert_all_plan(has_head: bool) -> (r: Result<(Vec<String>, Vec<String>), String>)
    ensures
        !has_head ==> (r matches Err(e) && e@ == "仓库还没有任何提交，无法整体还原"@),
        has_head ==> (r matches Ok((a, b)) && string_views(a@) == seq!["reset"@, "--hard"@, "HEAD"@]
            && string_views(b@) == seq!["clean"@, "-fd"@]),
{
    if !has_head {
        return Err(own("仓库还没有任何提交，无法整体还原"));
    }
    let a = vec![own("reset"), own("--hard"), own("HEAD")];
    let b = vec![own("clean"), own("-fd")];
    assert(string_views(a@) =~= seq!["reset"@, "--hard"@, "HEAD"@]);
    assert(string_views(b@) =~= seq!["clean"@, "-fd"@]);
    Ok((a, b))
}

/// The arguments of a commit whose message comes on stdin, amending the
/// last commit when asked; an error for a blank message.
pub fn create_commit_args(message: &str, amend: bool) -> (r: Result<Vec<String>, String>)
    ensures
        trim(message@).len() == 0 ==> (r matches Err(e) && e@ == "提交信息不能为空"@),
        trim(message@).len() > 0 ==> (r matches Ok(a) && string_views(a@) == seq![
            "commit"@,
            "-F"@,
            "-"@,
        ] + (if amend {
            seq!["--amend"@]
        } else {
            Seq::<Seq<char>>::empty()
        })),
{
    if is_blank(message) {
        return Err(own("提交信息不能为空"));
    }
    let mut a = vec![own("commit"), own("-F"), own("-")];
    if amend {
        a.push(own("--amend"));
    }
    assert(string_views(a@) =~= seq!["commit"@, "-F"@, "-"@] + (if amend {
        seq!["--amend"@]
    } else {
        Seq::<Seq<char>>::empty()
    }));
    Ok(a)
}

/// The arguments that stage exactly `paths` before a commit of them; an
/// error for a blank message (first) or for no path.
pub fn commit_paths_add_args(message: &str, paths: &Vec<String>) -> (r: Result<Vec<String>, String>)
    ensures
        trim(message@).len() == 0 ==> (r matches Err(e) && e@ == "提交信息不能为空"@),
        trim(message@).len() > 0 && paths.len() == 0 ==> (r matches Err(e) && e@
            == "没有勾选要提交的文件"@),
        trim(message@).len() > 0 && paths.len() > 0 ==> (r matches Ok(a) && string_views(a@)
            == seq!["add"@, "-A"@, "--"@] + string_views(paths@)),
{
    if is_blank(message) {
        return Err(own("提交信息不能为空"));
    }
    if paths.len() == 0 {
        return Err(own("没有勾选要提交的文件"));
    }
    let mut a = vec![own("add"), own("-A"), own("--")];
    let ghost base = string_views(a@);
    append_strings(&mut a, paths);
    assert(base =~= seq!["add"@, "-A"@, "--"@]);
    Ok(a)
}

/// The commit of the staged `paths` alone; mid-merge, mid-cherry-pick or
/// mid-revert, where git refuses a partial commit, the whole index.
pub fn commit_paths_commit_args(paths: &Vec<String>, operation: RepoOperation) -> (r: Vec<String>)
    ensures
        operation == RepoOperation::Idle ==> string_views(r@) == seq![
            "commit"@,
            "-F"@,
            "-"@,
            "--only"@,
            "--"@,
        ] + string_views(paths@),
        operation != RepoOperation::Idle ==> string_views(r@) == seq!["commit"@, "-F"@, "-"@],
{
    if operation == RepoOperation::Idle {
        let mut a = vec![own("commit"), own("-F"), own("-"), own("--only"), own("--")];
        let ghost base = string_views(a@);
        append_strings(&mut a, paths);
        assert(base =~= seq!["commit"@, "-F"@, "-"@, "--only"@, "--"@]);
        a
    } else {
        let a = vec![own("commit"), own("-F"), own("-")];
        assert(string_views(a@) =~= seq!["commit"@, "-F"@, "-"@]);
        a
    }
}


/// One step of taking a file's change back: a git command, or the removal
/// of a worktree file.
#[derive(Clone, Debug)]
pub enum FileStep {
    Git(Vec<String>),
    RemoveFile(String),
}

/// A [`FileStep`] as plain values.
pub enum StepV {
    Git(Seq<Seq<char>>),
    RemoveFile(Seq<char>),
}

pub open spec fn step_view(s: FileStep) -> StepV {
    match s {
        FileStep::Git(a) => StepV::Git(string_views(a@)),
        FileStep::RemoveFile(p) => StepV::RemoveFile(p@),
    }
}

pub open spec fn steps_view(s: Seq<FileStep>) -> Seq<StepV> {
    s.map_values(|x: FileStep| step_view(x))
}

/// `git restore --source=HEAD --staged --worktree -- p`.
pub open spec fn restore_head_both(p: Seq<char>) -> Seq<Seq<char>> {
    seq!["restore"@, "--source=HEAD"@, "--staged"@, "--worktree"@, "--"@, p]
}

/// `git rm --cached -f -- p`.
pub open spec fn rm_cached(p: Seq<char>) -> Seq<Seq<char>> {
    seq!["rm"@, "--cached"@, "-f"@, "--"@, p]
}

fn restore_head_both_args(p: &str) -> (r: Vec<String>)
    ensures
        string_views(r@) == restore_head_both(p@),
{
    let r = vec![own("restore"), own("--source=HEAD"), own("--staged"), own("--worktree"), own("--"), own(p)];
    assert(string_views(r@) =~= restore_head_both(p@));
    r
}

fn rm_cached_args(p: &str) -> (r: Vec<String>)
    ensures
        string_views(r@) == rm_cached(p@),
{
    let r = vec![own("rm"), own("--cached"), own("-f"), own("--"), own(p)];
    assert(string_views(r@) =~= rm_cached(p@));
    r
}

/// The steps that take the change of `path` (of `kind`, renamed from
/// `old_path`) out of both index and worktree: a modification or deletion
/// goes back to HEAD, an added file leaves the index and the disk, an
/// untracked one the disk, a rename both ways. An error for a rename
/// without its old path, and for a conflicted file.
pub fn revert_file_plan(path: &str, old_path: &Option<String>, kind: ChangeKind) -> (r: Result<
    Vec<FileStep>,
    String,
>)
    ensures
        (kind == ChangeKind::Modified || kind == ChangeKind::Deleted) ==> (r matches Ok(s)
            && steps_view(s@) == seq![StepV::Git(restore_head_both(path@))]),
        kind == ChangeKind::Added ==> (r matches Ok(s) && steps_view(s@) == seq![
            StepV::Git(rm_cached(path@)),
            StepV::RemoveFile(path@),
        ]),
        kind == ChangeKind::Untracked ==> (r matches Ok(s) && steps_view(s@) == seq![
            StepV::RemoveFile(path@),
        ]),
        kind == ChangeKind::Renamed && old_path is None ==> (r matches Err(e) && e@
            == "重命名缺少原路径"@),
        kind == ChangeKind::Renamed && old_path is Some ==> (r matches Ok(s) && steps_view(s@)
            == seq![
            StepV::Git(restore_head_both(old_path->0@)),
            StepV::Git(rm_cached(path@)),
            StepV::RemoveFile(path@),
        ]),
        kind == ChangeKind::Conflicted ==> (r matches Err(e) && e@
            == "该文件存在合并冲突，请先解决冲突"@),
{
    match kind {
        ChangeKind::Modified | ChangeKind::Deleted => {
            let s = vec![FileStep::Git(restore_head_both_args(path))];
            assert(steps_view(s@) =~= seq![StepV::Git(restore_head_both(path@))]);
            Ok(s)
        },
        ChangeKind::Added => {
            let s = vec![FileStep::Git(rm_cached_args(path)), FileStep::RemoveFile(own(path))];
            assert(steps_view(s@) =~= seq![StepV::Git(rm_cached(path@)), StepV::RemoveFile(path@)]);
            Ok(s)
        },
        ChangeKind::Untracked => {
            let s = vec![FileStep::RemoveFile(own(path))];
            assert(steps_view(s@) =~= seq![StepV::RemoveFile(path@)]);
            Ok(s)
        },
        ChangeKind::Renamed => match old_path {
            None => Err(own("重命名缺少原路径")),
            Some(old) => {
                let s = vec![
                    FileStep::Git(restore_head_both_args(old.as_str())),
                    FileStep::Git(rm_cached_args(path)),
                    FileStep::RemoveFile(own(path)),
                ];
                assert(steps_view(s@) =~= seq![
                    StepV::Git(restore_head_both(old@)),
                    StepV::Git(rm_cached(path@)),
                    StepV::RemoveFile(path@),
                ]);
                Ok(s)
            },
        },
        ChangeKind::Conflicted => Err(own("该文件存在合并冲突，请先解决冲突")),
    }
}

/// `git restore --source=HEAD --staged -- p`.
pub open spec fn restore_head_staged(p: Seq<char>) -> Seq<Seq<char>> {
    seq!["restore"@, "--source=HEAD"@, "--staged"@, "--"@, p]
}

/// `git restore --staged -- p`.
pub open spec fn restore_staged(p: Seq<char>) -> Seq<Seq<char>> {
    seq!["restore"@, "--staged"@, "--"@, p]
}

/// The git commands that take the staged change of `path` back out of the
/// index without touching the worktree. `has_head` tells whether the
/// repository has a commit; an added file leaves the index whatever it is.
/// An error for a rename without its old path.
pub fn unstage_file_plan(path: &str, old_path: &Option<String>, kind: ChangeKind, has_head: bool) -> (r:
    Result<Vec<Vec<String>>, String>)
    ensures
        kind == ChangeKind::Added ==> (r matches Ok(s) && s@.map_values(|a: Vec<String>| string_views(a@))
            == seq![rm_cached(path@)]),
        kind == ChangeKind::Renamed && old_path is None ==> (r matches Err(e) && e@
            == "重命名缺少原路径"@),
        kind == ChangeKind::Renamed && old_path is Some ==> (r matches Ok(s) && s@.map_values(
            |a: Vec<String>| string_views(a@),
        ) == (if has_head {
            seq![restore_head_staged(old_path->0@)]
        } else {
            Seq::<Seq<Seq<char>>>::empty()
        }) + seq![rm_cached(path@)]),
        kind != ChangeKind::Added && kind != ChangeKind::Renamed ==> (r matches Ok(s) && s@.map_values(
            |a: Vec<String>| string_views(a@),
        ) == seq![if has_head { restore_staged(path@) } else { rm_cached(path@) }]),
{
    match kind {
        ChangeKind::Added => {
            let s = vec![rm_cached_args(path)];
            assert(s@.map_values(|a: Vec<String>| string_views(a@)) =~= seq![rm_cached(path@)]);
            Ok(s)
        },
        ChangeKind::Renamed => match old_path {
            None => Err(own("重命名缺少原路径")),
            Some(old) => {
                let mut s: Vec<Vec<String>> = Vec::new();
                if has_head {
                    let a = vec![own("restore"), own("--source=HEAD"), own("--staged"), own("--"), old.clone()];
                    assert(string_views(a@) =~= restore_head_staged(old@));
                    s.push(a);
                }
                s.push(rm_cached_args(path));
                assert(s@.map_values(|a: Vec<String>| string_views(a@)) =~= (if has_head {
                    seq![restore_head_staged(old@)]
                } else {
                    Seq::<Seq<Seq<char>>>::empty()
                }) + seq![rm_cached(path@)]);
                Ok(s)
            },
        },
        _ => {
            let a = if has_head {
                restore_staged_args(path)
            } else {
                rm_cached_args(path)
            };
            let s = vec![a];
            assert(s@.map_values(|a: Vec<String>| string_views(a@)) =~= seq![
                if has_head { restore_staged(path@) } else { rm_cached(path@) },
            ]);
            Ok(s)
        },
    }
}

} // verus!
