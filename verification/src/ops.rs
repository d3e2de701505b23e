//! The git command lines of branches, remotes and history operations, and
//! what their answers mean.
use vstd::prelude::*;
use crate::commands::{append_strings, concat, decimal, own, with_number};
use crate::text::{
    chars_of, find_char, first_occ, parse_u32_spec, parse_u32_vec, push_all, string_from,
    string_views, trim, trim_vec,
};
use crate::types::{ConflictTake, ForceMode, RepoOperation, ResetMode};

verus! {

/// The arguments that create branch `name` at `start_point` (HEAD when
/// none), switching to it when `checkout` is set.
pub fn create_branch_args(name: &str, start_point: &Option<String>, checkout: bool) -> (r: Vec<String>)
    ensures
        string_views(r@) == (if checkout {
            seq!["switch"@, "-c"@, name@]
        } else {
            seq!["branch"@, name@]
        }) + match start_point {
            Some(sp) => seq![sp@],
            None => Seq::<Seq<char>>::empty(),
        },
{
    let mut a = if checkout {
        vec![own("switch"), own("-c"), own(name)]
    } else {
        vec![own("branch"), own(name)]
    };
    let ghost base = string_views(a@);
    match start_point {
        Some(sp) => a.push(sp.clone()),
        None => {},
    }
    assert(string_views(a@) =~= base + match start_point {
        Some(sp) => seq![sp@],
        None => Seq::<Seq<char>>::empty(),
    });
    a
}

/// The local name of remote-tracking branch `name`: what follows its first
/// `/`, or the whole name when it has none.
pub open spec fn local_branch_name(name: Seq<char>) -> Seq<char> {
    let k = first_occ(name, seq!['/']);
    if 0 <= k < name.len() {
        name.skip(k + 1)
    } else {
        name
    }
}

/// The arguments that switch to branch `name`; a remote-tracking branch
/// gets a local branch that tracks it.
pub fn checkout_branch_args(name: &str, is_remote: bool) -> (r: Vec<String>)
    ensures
        is_remote ==> string_views(r@) == seq![
            "switch"@,
            "--track"@,
            "-c"@,
            local_branch_name(name@),
            name@,
        ],
        !is_remote ==> string_views(r@) == seq!["switch"@, name@],
{
    if is_remote {
        let v = chars_of(name);
        let local = match find_char(&v, 0, v.len(), '/') {
            Some(k) => {
                assert(v@.subrange(0, v.len() as int) =~= v@);
                string_from(&v, k + 1, v.len())
            },
            None => {
                assert(v@.subrange(0, v.len() as int) =~= v@);
                own(name)
            },
        };
        assert(local@ =~= local_branch_name(name@));
        let a = vec![own("switch"), own("--track"), own("-c"), local, own(name)];
        assert(string_views(a@) =~= seq![
            "switch"@,
            "--track"@,
            "-c"@,
            local_branch_name(name@),
            name@,
        ]);
        a
    } else {
        let a = vec![own("switch"), own(name)];
        assert(string_views(a@) =~= seq!["switch"@, name@]);
        a
    }
}

/// The arguments that delete branch `name`, unmerged too when `force`.
pub fn delete_branch_args(name: &str, force: bool) -> (r: Vec<String>)
    ensures
        string_views(r@) == seq!["branch"@, if force { "-D"@ } else { "-d"@ }, "--"@, name@],
{
    let flag = if force {
        own("-D")
    } else {
        own("-d")
    };
    let a = vec![own("branch"), flag, own("--"), own(name)];
    assert(string_views(a@) =~= seq!["branch"@, if force { "-D"@ } else { "-d"@ }, "--"@, name@]);
    a
}

/// The arguments that rename branch `old` to `new`.
pub fn rename_branch_args(old: &str, new: &str) -> (r: Vec<String>)
    ensures
        string_views(r@) == seq!["branch"@, "-m"@, old@, new@],
{
    let a = vec![own("branch"), own("-m"), own(old), own(new)];
    assert(string_views(a@) =~= seq!["branch"@, "-m"@, old@, new@]);
    a
}

/// The arguments that clone `url` into `dest`, one branch only when
/// `branch` names it, and shallow when `depth` is positive.
pub fn clone_args(url: &str, dest: &str, branch: &Option<String>, depth: Option<u32>) -> (r: Vec<String>)
    ensures
        string_views(r@) == seq!["clone"@] + match branch {
            Some(b) => seq!["--branch"@, b@, "--single-branch"@],
            None => Seq::<Seq<char>>::empty(),
        } + match depth {
            Some(d) => if d > 0 {
                seq!["--depth"@, decimal(d as nat)]
            } else {
                Seq::<Seq<char>>::empty()
            },
            None => Seq::<Seq<char>>::empty(),
        } + seq![url@, dest@],
{
    let mut a = vec![own("clone")];
    let ghost s0 = string_views(a@);
    match branch {
        Some(b) => {
            a.push(own("--branch"));
            a.push(b.clone());
            a.push(own("--single-branch"));
        },
        None => {},
    }
    let ghost s1 = string_views(a@);
    assert(s1 =~= s0 + match branch {
        Some(b) => seq!["--branch"@, b@, "--single-branch"@],
        None => Seq::<Seq<char>>::empty(),
    });
    match depth {
        Some(d) => {
            if d > 0 {
                a.push(own("--depth"));
                a.push(with_number("", d as u64));
                proof {
                    reveal_strlit("");
                }
                assert(""@ + decimal(d as nat) =~= decimal(d as nat));
            }
        },
        None => {},
    }
    let ghost s2 = string_views(a@);
    assert(s2 =~= s1 + match depth {
        Some(d) => if d > 0 {
            seq!["--depth"@, decimal(d as nat)]
        } else {
            Seq::<Seq<char>>::empty()
        },
        None => Seq::<Seq<char>>::empty(),
    });
    a.push(own(url));
    a.push(own(dest));
    assert(string_views(a@) =~= s2 + seq![url@, dest@]);
    a
}

/// The arguments that fetch from `remote` (the default remote when none),
/// pruning deleted branches when asked, with progress output.
pub fn fetch_args(remote: &Option<String>, prune: bool) -> (r: Vec<String>)
    ensures
        string_views(r@) == seq!["fetch"@, "--progress"@] + (if prune {
            seq!["--prune"@]
        } else {
            Seq::<Seq<char>>::empty()
        }) + match remote {
            Some(x) => seq![x@],
            None => Seq::<Seq<char>>::empty(),
        },
{
    let mut a = vec![own("fetch"), own("--progress")];
    if prune {
        a.push(own("--prune"));
    }
    let ghost s1 = string_views(a@);
    match remote {
        Some(x) => a.push(x.clone()),
        None => {},
    }
    assert(s1 =~= seq!["fetch"@, "--progress"@] + (if prune {
        seq!["--prune"@]
    } else {
        Seq::<Seq<char>>::empty()
    }));
    assert(string_views(a@) =~= s1 + match remote {
        Some(x) => seq![x@],
        None => Seq::<Seq<char>>::empty(),
    });
    a
}

/// The arguments that pull from `remote` (the upstream when none), by
/// rebase or by merge, with progress output.
pub fn pull_args(remote: &Option<String>, rebase: bool) -> (r: Vec<String>)
    ensures
        string_views(r@) == seq![
            "pull"@,
            "--progress"@,
            if rebase { "--rebase"@ } else { "--no-rebase"@ },
        ] + match remote {
            Some(x) => seq![x@],
            None => Seq::<Seq<char>>::empty(),
        },
{
    let mode = if rebase {
        own("--rebase")
    } else {
        own("--no-rebase")
    };
    let mut a = vec![own("pull"), own("--progress"), mode];
    let ghost s1 = string_views(a@);
    match remote {
        Some(x) => a.push(x.clone()),
        None => {},
    }
    assert(string_views(a@) =~= s1 + match remote {
        Some(x) => seq![x@],
        None => Seq::<Seq<char>>::empty(),
    });
    a
}

/// The flag of a push's `force` mode.
pub open spec fn force_flag(force: ForceMode) -> Seq<Seq<char>> {
    match force {
        ForceMode::Normal => Seq::<Seq<char>>::empty(),
        ForceMode::Lease => seq!["--force-with-lease"@],
        ForceMode::Force => seq!["--force"@],
    }
}

/// The arguments that push `branch` to `remote`, forced as `force` says,
/// and set as upstream when asked.
pub fn push_args(remote: &str, branch: &str, set_upstream: bool, force: ForceMode) -> (r: Vec<String>)
    ensures
        string_views(r@) == seq!["push"@] + force_flag(force) + (if set_upstream {
            seq!["-u"@]
        } else {
            Seq::<Seq<char>>::empty()
        }) + seq![remote@, branch@],
{
    let mut a = vec![own("push")];
    match force {
        ForceMode::Lease => a.push(own("--force-with-lease")),
        ForceMode::Force => a.push(own("--force")),
        ForceMode::Normal => {},
    }
    if set_upstream {
        a.push(own("-u"));
    }
    a.push(own(remote));
    a.push(own(branch));
    assert(string_views(a@) =~= seq!["push"@] + force_flag(force) + (if set_upstream {
        seq!["-u"@]
    } else {
        Seq::<Seq<char>>::empty()
    }) + seq![remote@, branch@]);
    a
}

/// The arguments that apply commit `hash` on top of HEAD.
pub fn cherry_pick_args(hash: &str) -> (r: Vec<String>)
    ensures
        string_views(r@) == seq!["cherry-pick"@, hash@],
{
    let a = vec![own("cherry-pick"), own(hash)];
    assert(string_views(a@) =~= seq!["cherry-pick"@, hash@]);
    a
}

/// The arguments that commit the inverse of commit `hash`.
pub fn revert_commit_args(hash: &str) -> (r: Vec<String>)
    ensures
        string_views(r@) == seq!["revert"@, "--no-edit"@, hash@],
{
    let a = vec![own("revert"), own("--no-edit"), own(hash)];
    assert(string_views(a@) =~= seq!["revert"@, "--no-edit"@, hash@]);
    a
}

/// The flag of a reset `mode`.
pub open spec fn reset_flag(mode: ResetMode) -> Seq<char> {
    match mode {
        ResetMode::Soft => "--soft"@,
        ResetMode::Mixed => "--mixed"@,
        ResetMode::Hard => "--hard"@,
    }
}

/// The arguments that move HEAD to `hash` in `mode`.
pub fn reset_args(hash: &str, mode: ResetMode) -> (r: Vec<String>)
    ensures
        string_views(r@) == seq!["reset"@, reset_flag(mode), hash@],
{
    let flag = match mode {
        ResetMode::Soft => own("--soft"),
        ResetMode::Mixed => own("--mixed"),
        ResetMode::Hard => own("--hard"),
    };
    let a = vec![own("reset"), flag, own(hash)];
    assert(string_views(a@) =~= seq!["reset"@, reset_flag(mode), hash@]);
    a
}

/// The arguments that count the commits in `from..to`.
pub fn count_commits_args(from: &str, to: &str) -> (r: Vec<String>)
    ensures
        string_views(r@) == seq!["rev-list"@, "--count"@, from@ + ".."@ + to@],
{
    let mut range = concat(from, "..");
    push_all(&mut range, &chars_of(to));
    let a = vec![own("rev-list"), own("--count"), range];
    assert(string_views(a@) =~= seq!["rev-list"@, "--count"@, from@ + ".."@ + to@]);
    a
}

/// The count that `git rev-list --count` answered: its trimmed output as a
/// number; an error when it is none, and git's own error as it came.
pub fn commit_count(out: Result<String, String>) -> (r: Result<u32, String>)
    ensures
        out matches Err(e) ==> r == Err::<u32, String>(e),
        out matches Ok(s) ==> match parse_u32_spec(trim(s@)) {
            Some(n) => r == Ok::<u32, String>(n),
            None => r matches Err(e) && e@ == "无法解析提交数量"@,
        },
{
    match out {
        Err(e) => Err(e),
        Ok(s) => match parse_u32_vec(&trim_vec(&chars_of(s.as_str()))) {
            Some(n) => Ok(n),
            None => Err(own("无法解析提交数量")),
        },
    }
}

/// The arguments that drop commit `hash` from history by replaying what
/// follows it onto its parent.
pub fn drop_commit_args(hash: &str) -> (r: Vec<String>)
    ensures
        string_views(r@) == seq!["rebase"@, "--onto"@, hash@ + "^"@, hash@],
{
    let a = vec![own("rebase"), own("--onto"), concat(hash, "^"), own(hash)];
    assert(string_views(a@) =~= seq!["rebase"@, "--onto"@, hash@ + "^"@, hash@]);
    a
}

/// The arguments that merge `source` into HEAD, always with a merge commit
/// when `no_ff`.
pub fn merge_args(source: &str, no_ff: bool) -> (r: Vec<String>)
    ensures
        string_views(r@) == seq!["merge"@, "--no-edit"@] + (if no_ff {
            seq!["--no-ff"@]
        } else {
            Seq::<Seq<char>>::empty()
        }) + seq![source@],
{
    let mut a = vec![own("merge"), own("--no-edit")];
    if no_ff {
        a.push(own("--no-ff"));
    }
    a.push(own(source));
    assert(string_views(a@) =~= seq!["merge"@, "--no-edit"@] + (if no_ff {
        seq!["--no-ff"@]
    } else {
        Seq::<Seq<char>>::empty()
    }) + seq![source@]);
    a
}

/// The git command of the operation in progress.
pub open spec fn operation_command(op: RepoOperation) -> Seq<char> {
    match op {
        RepoOperation::Merge => "merge"@,
        RepoOperation::CherryPick => "cherry-pick"@,
        RepoOperation::Revert => "revert"@,
        RepoOperation::Rebase => "rebase"@,
        RepoOperation::Idle => Seq::<char>::empty(),
    }
}

fn operation_step_args(op: RepoOperation, step: &str) -> (r: Result<Vec<String>, String>)
    ensures
        op == RepoOperation::Idle ==> (r matches Err(e) && e@
            == "当前没有进行中的合并 / cherry-pick / revert / rebase"@),
        op != RepoOperation::Idle ==> (r matches Ok(a) && string_views(a@) == seq![
            operation_command(op),
            step@,
        ]),
{
    let cmd = match op {
        RepoOperation::Merge => own("merge"),
        RepoOperation::CherryPick => own("cherry-pick"),
        RepoOperation::Revert => own("revert"),
        RepoOperation::Rebase => own("rebase"),
        RepoOperation::Idle => {
            return Err(own("当前没有进行中的合并 / cherry-pick / revert / rebase"));
        },
    };
    let a = vec![cmd, own(step)];
    assert(string_views(a@) =~= seq![operation_command(op), step@]);
    Ok(a)
}

/// The arguments that continue the operation in progress; an error when
/// there is none.
pub fn continue_args(op: RepoOperation) -> (r: Result<Vec<String>, String>)
    ensures
        op == RepoOperation::Idle ==> (r matches Err(e) && e@
            == "当前没有进行中的合并 / cherry-pick / revert / rebase"@),
        op != RepoOperation::Idle ==> (r matches Ok(a) && string_views(a@) == seq![
            operation_command(op),
            "--continue"@,
        ]),
{
    operation_step_args(op, "--continue")
}

/// The arguments that abort the operation in progress; an error when there
/// is none.
pub fn abort_args(op: RepoOperation) -> (r: Result<Vec<String>, String>)
    ensures
        op == RepoOperation::Idle ==> (r matches Err(e) && e@
            == "当前没有进行中的合并 / cherry-pick / revert / rebase"@),
        op != RepoOperation::Idle ==> (r matches Ok(a) && string_views(a@) == seq![
            operation_command(op),
            "--abort"@,
        ]),
{
    operation_step_args(op, "--abort")
}

/// The index name of conflict stage `stage` of `path`: `:stage:path`
/// (1 the common ancestor, 2 ours, 3 theirs).
pub fn conflict_stage_spec(stage: u8, path: &str) -> (r: String)
    ensures
        r@ == ":"@ + decimal(stage as nat) + ":"@ + path@,
{
    let mut s = with_number(":", stage as u64);
    push_all(&mut s, &chars_of(":"));
    push_all(&mut s, &chars_of(path));
    s
}

/// The arguments that mark `path` resolved with the content now in the
/// worktree.
pub fn mark_resolved_args(path: &str) -> (r: Vec<String>)
    ensures
        string_views(r@) == seq!["add"@, "--"@, path@],
{
    let a = vec![own("add"), own("--"), own(path)];
    assert(string_views(a@) =~= seq!["add"@, "--"@, path@]);
    a
}

/// The flag that picks a side of a binary conflict.
pub open spec fn take_flag(take: ConflictTake) -> Seq<char> {
    match take {
        ConflictTake::Ours => "--ours"@,
        ConflictTake::Theirs => "--theirs"@,
    }
}

/// The arguments that check out the side `take` of a conflicted `path`.
pub fn take_side_args(path: &str, take: ConflictTake) -> (r: Vec<String>)
    ensures
        string_views(r@) == seq!["checkout"@, take_flag(take), "--"@, path@],
{
    let flag = match take {
        ConflictTake::Ours => own("--ours"),
        ConflictTake::Theirs => own("--theirs"),
    };
    let a = vec![own("checkout"), flag, own("--"), own(path)];
    assert(string_views(a@) =~= seq!["checkout"@, take_flag(take), "--"@, path@]);
    a
}

/// The arguments that resolve a delete conflict of `path` by deleting it.
pub fn resolve_delete_args(path: &str) -> (r: Vec<String>)
    ensures
        string_views(r@) == seq!["rm"@, "-f"@, "--"@, path@],
{
    let a = vec![own("rm"), own("-f"), own("--"), own(path)];
    assert(string_views(a@) =~= seq!["rm"@, "-f"@, "--"@, path@]);
    a
}


/// The record format of the history list: each record starts with `\x01`
/// and holds hash, short hash, author, e-mail, date, parents, subject and
/// decorations separated by NULs.
pub open spec fn log_format() -> Seq<char> {
    "--pretty=format:%x01%H%x00%h%x00%an%x00%ae%x00%ad%x00%P%x00%s%x00%D"@
}

/// The arguments that read `count` commits of history after skipping
/// `skip`, on `branch` (HEAD when none), by `author` (a fixed string) when
/// given, with line stats.
pub fn log_args(skip: u32, count: u32, branch: &Option<String>, author: &Option<String>) -> (r: Vec<
    String,
>)
    ensures
        string_views(r@) == seq!["log"@] + match branch {
            Some(b) => seq![b@],
            None => Seq::<Seq<char>>::empty(),
        } + match author {
            Some(a) => seq!["--fixed-strings"@, "--author="@ + a@],
            None => Seq::<Seq<char>>::empty(),
        } + seq![
            "--skip="@ + decimal(skip as nat),
            "--max-count="@ + decimal(count as nat),
            "--shortstat"@,
            "--date=format:%Y-%m-%d %H:%M"@,
            log_format(),
        ],
{
    let mut a = vec![own("log")];
    let ghost s0 = string_views(a@);
    match branch {
        Some(b) => a.push(b.clone()),
        None => {},
    }
    let ghost s1 = string_views(a@);
    assert(s1 =~= s0 + match branch {
        Some(b) => seq![b@],
        None => Seq::<Seq<char>>::empty(),
    });
    match author {
        Some(x) => {
            a.push(own("--fixed-strings"));
            a.push(concat("--author=", x.as_str()));
        },
        None => {},
    }
    let ghost s2 = string_views(a@);
    assert(s2 =~= s1 + match author {
        Some(x) => seq!["--fixed-strings"@, "--author="@ + x@],
        None => Seq::<Seq<char>>::empty(),
    });
    a.push(with_number("--skip=", skip as u64));
    a.push(with_number("--max-count=", count as u64));
    a.push(own("--shortstat"));
    a.push(own("--date=format:%Y-%m-%d %H:%M"));
    a.push(own("--pretty=format:%x01%H%x00%h%x00%an%x00%ae%x00%ad%x00%P%x00%s%x00%D"));
    assert(string_views(a@) =~= s2 + seq![
        "--skip="@ + decimal(skip as nat),
        "--max-count="@ + decimal(count as nat),
        "--shortstat"@,
        "--date=format:%Y-%m-%d %H:%M"@,
        log_format(),
    ]);
    a
}

/// The options that end the `git diff` listings of the changes list and a
/// commit's files: `format` (`--name-status` or `--numstat`), NUL
/// separated, with renames.
pub open spec fn listing_tail(format: Seq<char>) -> Seq<Seq<char>> {
    seq![format, "-z"@, "-M"@, "--no-color"@, "--no-ext-diff"@]
}

/// The arguments of `git diff` between the comparison `refs` (`--cached`
/// and a base for the index, nothing for the worktree, two commits for a
/// commit's files), listed in `format`.
pub fn diff_listing_args(refs: &Vec<String>, numstat: bool) -> (r: Vec<String>)
    ensures
        string_views(r@) == seq!["diff"@] + string_views(refs@) + listing_tail(
            if numstat { "--numstat"@ } else { "--name-status"@ },
        ),
{
    let mut a = vec![own("diff")];
    append_strings(&mut a, refs);
    let ghost s1 = string_views(a@);
    a.push(if numstat {
        own("--numstat")
    } else {
        own("--name-status")
    });
    a.push(own("-z"));
    a.push(own("-M"));
    a.push(own("--no-color"));
    a.push(own("--no-ext-diff"));
    assert(string_views(a@) =~= s1 + listing_tail(
        if numstat { "--numstat"@ } else { "--name-status"@ },
    ));
    assert(s1 =~= seq!["diff"@] + string_views(refs@));
    a
}

/// `rev:path`, the name of `path` in commit (or tree) `rev`.
pub fn rev_path(rev: &str, path: &str) -> (r: String)
    ensures
        r@ == rev@ + ":"@ + path@,
{
    let mut s = concat(rev, ":");
    push_all(&mut s, &chars_of(path));
    s
}

/// `:path`, the name of `path` in the index.
pub fn index_path(path: &str) -> (r: String)
    ensures
        r@ == ":"@ + path@,
{
    concat(":", path)
}

/// The old side of a working diff of `path`: in `base` at the path it had
/// there (`old_path` for a rename) for the staged diff, in the index for the
/// unstaged one.
pub fn old_side_spec(staged: bool, base: &str, path: &str, old_path: &Option<String>) -> (r: String)
    ensures
        staged ==> r@ == base@ + ":"@ + match old_path {
            Some(o) => o@,
            None => path@,
        },
        !staged ==> r@ == ":"@ + path@,
{
    if staged {
        match old_path {
            Some(o) => rev_path(base, o.as_str()),
            None => rev_path(base, path),
        }
    } else {
        index_path(path)
    }
}

/// The arguments of the working diff of `path` (and its rename source):
/// staged against `base`, or worktree against index.
pub fn file_diff_args(staged: bool, base: &str, path: &str, old_path: &Option<String>) -> (r: Vec<String>)
    ensures
        string_views(r@) == seq!["diff"@] + (if staged {
            seq!["--cached"@, base@]
        } else {
            Seq::<Seq<char>>::empty()
        }) + seq!["--no-color"@, "--no-ext-diff"@, "--unified=3"@, "-M"@, "--"@] + match old_path {
            Some(o) => seq![o@],
            None => Seq::<Seq<char>>::empty(),
        } + seq![path@],
{
    let mut a = vec![own("diff")];
    if staged {
        a.push(own("--cached"));
        a.push(own(base));
    }
    a.push(own("--no-color"));
    a.push(own("--no-ext-diff"));
    a.push(own("--unified=3"));
    a.push(own("-M"));
    a.push(own("--"));
    let ghost s1 = string_views(a@);
    match old_path {
        Some(o) => a.push(o.clone()),
        None => {},
    }
    a.push(own(path));
    assert(s1 =~= seq!["diff"@] + (if staged {
        seq!["--cached"@, base@]
    } else {
        Seq::<Seq<char>>::empty()
    }) + seq!["--no-color"@, "--no-ext-diff"@, "--unified=3"@, "-M"@, "--"@]);
    assert(string_views(a@) =~= s1 + match old_path {
        Some(o) => seq![o@],
        None => Seq::<Seq<char>>::empty(),
    } + seq![path@]);
    a
}

/// `git show spec`: the content of a blob.
pub fn show_args(spec: &str) -> (r: Vec<String>)
    ensures
        string_views(r@) == seq!["show"@, spec@],
{
    let a = vec![own("show"), own(spec)];
    assert(string_views(a@) =~= seq!["show"@, spec@]);
    a
}

/// `git cat-file -s spec`: the size of a blob.
pub fn blob_size_args(spec: &str) -> (r: Vec<String>)
    ensures
        string_views(r@) == seq!["cat-file"@, "-s"@, spec@],
{
    let a = vec![own("cat-file"), own("-s"), own(spec)];
    assert(string_views(a@) =~= seq!["cat-file"@, "-s"@, spec@]);
    a
}

/// Whether a change of `kind` has an old version to show.
pub fn has_old_side(kind: crate::types::ChangeKind) -> (b: bool)
    ensures
        b == (kind != crate::types::ChangeKind::Added && kind != crate::types::ChangeKind::Untracked),
{
    kind != crate::types::ChangeKind::Added && kind != crate::types::ChangeKind::Untracked
}

/// Whether a change of `kind` has a new version to show.
pub fn has_new_side(kind: crate::types::ChangeKind) -> (b: bool)
    ensures
        b == (kind != crate::types::ChangeKind::Deleted),
{
    kind != crate::types::ChangeKind::Deleted
}

} // verus!
