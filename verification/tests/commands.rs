use gitprism::commands::{
    commit_paths_add_args, commit_paths_commit_args, create_commit_args, grep_outcome,
    hunk_apply_args, hunk_retry_result, patch_with_newline, replace_in_files_args,
    revert_all_plan, revert_file_plan, search_text_args, stage_file_args, stash_drop_args,
    stash_pop_args, stash_push_args, unstage_all_args, unstage_file_plan, FileStep, HunkAction,
};
use gitprism::hunks::{HunkAnswer, HunkJob, HunkNeed};
use gitprism::ops::{
    abort_args, checkout_branch_args, clone_args, conflict_stage_spec, continue_args,
    create_branch_args, delete_branch_args, diff_listing_args, drop_commit_args, fetch_args,
    file_diff_args, merge_args, old_side_spec, pull_args, push_args, reset_args, take_side_args,
};
use gitprism::types::{ChangeKind, ConflictTake, ForceMode, RepoOperation, ResetMode};

fn s(v: &[&str]) -> Vec<String> {
    v.iter().map(|x| x.to_string()).collect()
}

#[test]
fn commit_paths_rejects_empty_selection() {
    assert!(commit_paths_add_args("msg", &vec![]).is_err());
    assert_eq!(
        commit_paths_add_args("msg", &vec![]),
        Err("没有勾选要提交的文件".to_string())
    );
    assert_eq!(
        commit_paths_add_args(" ", &s(&["a.txt"])),
        Err("提交信息不能为空".to_string())
    );
    assert_eq!(
        commit_paths_add_args("m", &s(&["a.txt", "b.txt"])).unwrap(),
        s(&["add", "-A", "--", "a.txt", "b.txt"])
    );
    assert_eq!(
        commit_paths_commit_args(&s(&["a.txt"]), RepoOperation::Idle),
        s(&["commit", "-F", "-", "--only", "--", "a.txt"])
    );
    assert_eq!(
        commit_paths_commit_args(&s(&["a.txt"]), RepoOperation::Merge),
        s(&["commit", "-F", "-"])
    );
}

#[test]
fn create_commit_rejects_empty_message() {
    assert!(create_commit_args("   ", false).is_err());
    assert_eq!(create_commit_args("msg", true).unwrap(), s(&["commit", "-F", "-", "--amend"]));
    assert_eq!(create_commit_args("msg", false).unwrap(), s(&["commit", "-F", "-"]));
}

#[test]
fn stash_arguments() {
    assert_eq!(stash_push_args("x", &vec![]), Err("没有要搁置的文件".to_string()));
    assert_eq!(
        stash_push_args("  my shelf ", &s(&["a.txt"])).unwrap(),
        s(&["stash", "push", "--include-untracked", "-m", "my shelf", "--", "a.txt"])
    );
    assert_eq!(
        stash_push_args("  ", &s(&["a.txt"])).unwrap(),
        s(&["stash", "push", "--include-untracked", "--", "a.txt"])
    );
    assert_eq!(stash_pop_args(3), s(&["stash", "pop", "stash@{3}"]));
    assert_eq!(stash_drop_args(12), s(&["stash", "drop", "stash@{12}"]));
}

#[test]
fn hunk_patches_and_retries() {
    assert_eq!(patch_with_newline("a\n".to_string()), "a\n");
    assert_eq!(patch_with_newline("a".to_string()), "a\n");
    assert_eq!(patch_with_newline(String::new()), "\n");
    assert_eq!(
        hunk_apply_args(HunkAction::Revert, false),
        s(&["apply", "-R", "--whitespace=nowarn", "-"])
    );
    assert_eq!(
        hunk_apply_args(HunkAction::Stage, true),
        s(&["apply", "--cached", "--whitespace=nowarn", "--ignore-whitespace", "-"])
    );
    assert_eq!(
        hunk_apply_args(HunkAction::Unstage, false),
        s(&["apply", "--cached", "-R", "--whitespace=nowarn", "-"])
    );
    assert_eq!(hunk_retry_result(HunkAction::Stage, "a.txt", "e1", Ok(Vec::new())), Ok(()));
    assert_eq!(
        hunk_retry_result(HunkAction::Revert, "a.txt", "e1", Err("e2".to_string())),
        Err("还原失败: e1（宽松空白重试: e2）".to_string())
    );
    assert_eq!(
        hunk_retry_result(HunkAction::Stage, "a.txt", "e1", Err("e2".to_string())),
        Err("暂存 a.txt 失败: e1（宽松空白重试: e2）".to_string())
    );
    assert_eq!(
        hunk_retry_result(HunkAction::Unstage, "a.txt", "e1", Err("e2".to_string())),
        Err("取消暂存 a.txt 失败: e1（宽松空白重试: e2）".to_string())
    );
}

fn step_git(st: &FileStep) -> Option<Vec<String>> {
    match st {
        FileStep::Git(a) => Some(a.clone()),
        FileStep::RemoveFile(_) => None,
    }
}

#[test]
fn revert_file_plans() {
    let m = revert_file_plan("a.txt", &None, ChangeKind::Modified).unwrap();
    assert_eq!(m.len(), 1);
    assert_eq!(
        step_git(&m[0]).unwrap(),
        s(&["restore", "--source=HEAD", "--staged", "--worktree", "--", "a.txt"])
    );
    let a = revert_file_plan("n.txt", &None, ChangeKind::Added).unwrap();
    assert_eq!(step_git(&a[0]).unwrap(), s(&["rm", "--cached", "-f", "--", "n.txt"]));
    assert!(matches!(&a[1], FileStep::RemoveFile(p) if p == "n.txt"));
    let u = revert_file_plan("u.txt", &None, ChangeKind::Untracked).unwrap();
    assert_eq!(u.len(), 1);
    assert!(matches!(&u[0], FileStep::RemoveFile(p) if p == "u.txt"));
    assert_eq!(
        revert_file_plan("new.txt", &None, ChangeKind::Renamed).unwrap_err(),
        "重命名缺少原路径"
    );
    let r = revert_file_plan("new.txt", &Some("old.txt".to_string()), ChangeKind::Renamed).unwrap();
    assert_eq!(r.len(), 3);
    assert_eq!(
        step_git(&r[0]).unwrap(),
        s(&["restore", "--source=HEAD", "--staged", "--worktree", "--", "old.txt"])
    );
    assert_eq!(step_git(&r[1]).unwrap(), s(&["rm", "--cached", "-f", "--", "new.txt"]));
    assert_eq!(
        revert_file_plan("c.txt", &None, ChangeKind::Conflicted).unwrap_err(),
        "该文件存在合并冲突，请先解决冲突"
    );
}

#[test]
fn unstage_and_stage_plans() {
    assert_eq!(
        unstage_file_plan("a.txt", &None, ChangeKind::Added, true).unwrap(),
        vec![s(&["rm", "--cached", "-f", "--", "a.txt"])]
    );
    assert_eq!(
        unstage_file_plan("a.txt", &None, ChangeKind::Modified, true).unwrap(),
        vec![s(&["restore", "--staged", "--", "a.txt"])]
    );
    assert_eq!(
        unstage_file_plan("a.txt", &None, ChangeKind::Modified, false).unwrap(),
        vec![s(&["rm", "--cached", "-f", "--", "a.txt"])]
    );
    assert_eq!(
        unstage_file_plan("new.txt", &Some("old.txt".to_string()), ChangeKind::Renamed, true).unwrap(),
        vec![
            s(&["restore", "--source=HEAD", "--staged", "--", "old.txt"]),
            s(&["rm", "--cached", "-f", "--", "new.txt"])
        ]
    );
    assert!(unstage_file_plan("new.txt", &None, ChangeKind::Renamed, true).is_err());
    assert_eq!(
        stage_file_args("new.txt", &Some("old.txt".to_string())),
        s(&["add", "-A", "--", "old.txt", "new.txt"])
    );
    assert_eq!(stage_file_args("a.txt", &None), s(&["add", "-A", "--", "a.txt"]));
    assert_eq!(unstage_all_args(true), s(&["reset"]));
    assert_eq!(unstage_all_args(false), s(&["read-tree", "--empty"]));
}

#[test]
fn revert_all_plans() {
    assert_eq!(
        revert_all_plan(false).unwrap_err(),
        "仓库还没有任何提交，无法整体还原"
    );
    let (a, b) = revert_all_plan(true).unwrap();
    assert_eq!(a, s(&["reset", "--hard", "HEAD"]));
    assert_eq!(b, s(&["clean", "-fd"]));
}

#[test]
fn search_and_replace_arguments() {
    assert_eq!(search_text_args("  ", true), None);
    assert_eq!(
        search_text_args("hello", true).unwrap(),
        s(&["grep", "-n", "-I", "--no-color", "--untracked", "-F", "-w", "-e", "hello"])
    );
    assert_eq!(
        replace_in_files_args("", false, &None).unwrap_err(),
        "搜索内容不能为空"
    );
    assert_eq!(
        replace_in_files_args("foo", false, &Some(s(&["a.txt"]))).unwrap(),
        s(&["grep", "-l", "-I", "--no-color", "--untracked", "-F", "-e", "foo", "--", "a.txt"])
    );
    assert_eq!(grep_outcome(Err(String::new())), Ok(Vec::new()));
    assert_eq!(grep_outcome(Err("fatal".to_string())), Err("fatal".to_string()));
    assert_eq!(grep_outcome(Ok(vec![1u8])), Ok(vec![1u8]));
}

#[test]
fn branch_and_remote_arguments() {
    assert_eq!(
        create_branch_args("f", &Some("main".to_string()), true),
        s(&["switch", "-c", "f", "main"])
    );
    assert_eq!(create_branch_args("f", &None, false), s(&["branch", "f"]));
    assert_eq!(
        checkout_branch_args("origin/feature/x", true),
        s(&["switch", "--track", "-c", "feature/x", "origin/feature/x"])
    );
    assert_eq!(
        checkout_branch_args("plain", true),
        s(&["switch", "--track", "-c", "plain", "plain"])
    );
    assert_eq!(checkout_branch_args("dev", false), s(&["switch", "dev"]));
    assert_eq!(delete_branch_args("f", true), s(&["branch", "-D", "--", "f"]));
    assert_eq!(delete_branch_args("f", false), s(&["branch", "-d", "--", "f"]));
    assert_eq!(
        clone_args("u", "d", &Some("b".to_string()), Some(1)),
        s(&["clone", "--branch", "b", "--single-branch", "--depth", "1", "u", "d"])
    );
    assert_eq!(clone_args("u", "d", &None, Some(0)), s(&["clone", "u", "d"]));
    assert_eq!(
        fetch_args(&Some("origin".to_string()), true),
        s(&["fetch", "--progress", "--prune", "origin"])
    );
    assert_eq!(pull_args(&None, true), s(&["pull", "--progress", "--rebase"]));
    assert_eq!(pull_args(&None, false), s(&["pull", "--progress", "--no-rebase"]));
    assert_eq!(
        push_args("origin", "main", true, ForceMode::Lease),
        s(&["push", "--force-with-lease", "-u", "origin", "main"])
    );
    assert_eq!(push_args("o", "m", false, ForceMode::Normal), s(&["push", "o", "m"]));
    assert_eq!(push_args("o", "m", false, ForceMode::Force), s(&["push", "--force", "o", "m"]));
}

#[test]
fn history_operation_arguments() {
    assert_eq!(reset_args("abc", ResetMode::Soft), s(&["reset", "--soft", "abc"]));
    assert_eq!(reset_args("abc", ResetMode::Hard), s(&["reset", "--hard", "abc"]));
    assert_eq!(drop_commit_args("abc"), s(&["rebase", "--onto", "abc^", "abc"]));
    assert_eq!(merge_args("f", true), s(&["merge", "--no-edit", "--no-ff", "f"]));
    assert_eq!(continue_args(RepoOperation::CherryPick).unwrap(), s(&["cherry-pick", "--continue"]));
    assert_eq!(abort_args(RepoOperation::Rebase).unwrap(), s(&["rebase", "--abort"]));
    assert_eq!(
        continue_args(RepoOperation::Idle).unwrap_err(),
        "当前没有进行中的合并 / cherry-pick / revert / rebase"
    );
    assert!(abort_args(RepoOperation::Idle).is_err());
    assert_eq!(conflict_stage_spec(2, "a.txt"), ":2:a.txt");
    assert_eq!(take_side_args("b.dat", ConflictTake::Theirs), s(&["checkout", "--theirs", "--", "b.dat"]));
}

#[test]
fn diff_arguments() {
    assert_eq!(
        diff_listing_args(&s(&["--cached", "HEAD"]), false),
        s(&["diff", "--cached", "HEAD", "--name-status", "-z", "-M", "--no-color", "--no-ext-diff"])
    );
    assert_eq!(
        diff_listing_args(&vec![], true),
        s(&["diff", "--numstat", "-z", "-M", "--no-color", "--no-ext-diff"])
    );
    assert_eq!(old_side_spec(true, "HEAD", "new.txt", &Some("old.txt".to_string())), "HEAD:old.txt");
    assert_eq!(old_side_spec(false, "HEAD", "new.txt", &None), ":new.txt");
    assert_eq!(
        file_diff_args(true, "HEAD", "a", &Some("o".to_string())),
        s(&["diff", "--cached", "HEAD", "--no-color", "--no-ext-diff", "--unified=3", "-M", "--", "o", "a"])
    );
}

fn hunk_answer(job: &mut HunkJob, a: HunkAnswer) -> HunkNeed {
    assert!(job.fits(&a));
    job.answer(a)
}

#[test]
fn revert_hunk_steps() {
    let (mut job, need) = HunkJob::start(HunkAction::Revert, "a.txt");
    assert!(matches!(&need, HunkNeed::Apply(a) if a == &vec!["apply", "-R", "--whitespace=nowarn", "-"]));
    let need = hunk_answer(&mut job, HunkAnswer::Ran(Err("bad ws".into())));
    assert!(matches!(&need, HunkNeed::Apply(a)
        if a == &vec!["apply", "-R", "--whitespace=nowarn", "--ignore-whitespace", "-"]));
    let need = hunk_answer(&mut job, HunkAnswer::Ran(Ok(Vec::new())));
    assert!(matches!(need, HunkNeed::HeadExists));
    let need = hunk_answer(&mut job, HunkAnswer::Flag(true));
    assert!(matches!(&need, HunkNeed::Run(a) if a == &vec!["restore", "--staged", "--", "a.txt"]));
    let need = hunk_answer(&mut job, HunkAnswer::Ran(Err("ignored".into())));
    assert!(matches!(&need, HunkNeed::Run(a) if a == &vec!["diff", "--quiet", "HEAD", "--", "a.txt"]));
    let need = hunk_answer(&mut job, HunkAnswer::Ran(Ok(Vec::new())));
    assert!(matches!(&need, HunkNeed::Run(a) if a == &vec!["checkout", "HEAD", "--", "a.txt"]));
    let need = hunk_answer(&mut job, HunkAnswer::Ran(Err("ignored".into())));
    assert!(matches!(need, HunkNeed::Done(Ok(()))));

    // without a commit the revert ends after the patch; a dirty file is not checked out
    let (mut job, _) = HunkJob::start(HunkAction::Revert, "a.txt");
    hunk_answer(&mut job, HunkAnswer::Ran(Ok(Vec::new())));
    assert!(matches!(hunk_answer(&mut job, HunkAnswer::Flag(false)), HunkNeed::Done(Ok(()))));
    let (mut job, _) = HunkJob::start(HunkAction::Revert, "a.txt");
    hunk_answer(&mut job, HunkAnswer::Ran(Ok(Vec::new())));
    hunk_answer(&mut job, HunkAnswer::Flag(true));
    hunk_answer(&mut job, HunkAnswer::Ran(Ok(Vec::new())));
    assert!(matches!(hunk_answer(&mut job, HunkAnswer::Ran(Err("1".into()))), HunkNeed::Done(Ok(()))));
}

#[test]
fn stage_hunk_failure_names_both_errors() {
    let (mut job, need) = HunkJob::start(HunkAction::Stage, "a.txt");
    assert!(matches!(&need, HunkNeed::Apply(a) if a == &vec!["apply", "--cached", "--whitespace=nowarn", "-"]));
    hunk_answer(&mut job, HunkAnswer::Ran(Err("e1".into())));
    match hunk_answer(&mut job, HunkAnswer::Ran(Err("e2".into()))) {
        HunkNeed::Done(Err(m)) => assert_eq!(m, "暂存 a.txt 失败: e1（宽松空白重试: e2）"),
        other => panic!("{:?}", other),
    }
    let (mut job, _) = HunkJob::start(HunkAction::Unstage, "a.txt");
    assert!(matches!(hunk_answer(&mut job, HunkAnswer::Ran(Ok(Vec::new()))), HunkNeed::Done(Ok(()))));
}
