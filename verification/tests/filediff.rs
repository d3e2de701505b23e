use gitprism::filediff::{start_file_diff, DiffAnswer, DiffNeed, DiffSource};
use gitprism::commands::revert_all_plan;
use gitprism::types::{ChangeKind, FileDiff};

fn answer(job: &mut gitprism::filediff::FileDiffJob, a: DiffAnswer) -> DiffNeed {
    assert!(job.fits(&a));
    job.answer(a)
}

fn done(n: DiffNeed) -> Result<FileDiff, String> {
    match n {
        DiffNeed::Done(r) => r,
        other => panic!("expected the end, got {:?}", other),
    }
}

#[test]
fn empty_repo_no_commits() {
    // a staged new file in a repository without commits
    let (mut job, need) = start_file_diff(DiffSource::Index, "staged.txt".into(), None, ChangeKind::Added);
    assert!(matches!(need, DiffNeed::Refresh));
    let need = answer(&mut job, DiffAnswer::Nothing);
    assert!(matches!(need, DiffNeed::HeadExists));
    let need = answer(&mut job, DiffAnswer::Flag(false));
    assert!(matches!(&need, DiffNeed::BlobSize(s) if s == ":staged.txt"));
    let need = answer(&mut job, DiffAnswer::Text(Ok("7\n".into())));
    assert!(matches!(need, DiffNeed::HeadExists));
    let need = answer(&mut job, DiffAnswer::Flag(false));
    match &need {
        DiffNeed::Run(args) => {
            assert_eq!(args[1], "--cached");
            assert_eq!(args[2], "4b825dc642cb6eb9a060e54bf8d69288fbee4904");
            assert_eq!(args.last().unwrap(), "staged.txt");
        }
        other => panic!("expected the diff, got {:?}", other),
    }
    let diff = "diff --git a/staged.txt b/staged.txt\nnew file mode 100644\n--- /dev/null\n+++ b/staged.txt\n@@ -0,0 +1 @@\n+staged\n";
    let need = answer(&mut job, DiffAnswer::Bytes(Ok(diff.as_bytes().to_vec())));
    assert!(matches!(&need, DiffNeed::Blob(s) if s == ":staged.txt"));
    let d = done(answer(&mut job, DiffAnswer::Bytes(Ok(b"staged\n".to_vec())))).unwrap();
    assert_eq!(d.modified.as_deref(), Some("staged\n"));
    assert!(d.original.is_none());
    assert_eq!(d.hunks.len(), 1);
    assert_eq!(d.hunks[0].new_start, 1);
    assert!(revert_all_plan(false).is_err(), "revert_all must refuse without HEAD");
}

#[test]
fn unstaged_modification_reads_index_and_worktree() {
    let (mut job, need) = start_file_diff(DiffSource::Worktree, "a.txt".into(), None, ChangeKind::Modified);
    assert!(matches!(need, DiffNeed::Refresh));
    let need = answer(&mut job, DiffAnswer::Nothing);
    assert!(matches!(need, DiffNeed::FileSize));
    let need = answer(&mut job, DiffAnswer::Size(Ok(10)));
    assert!(matches!(&need, DiffNeed::BlobSize(s) if s == ":a.txt"));
    let need = answer(&mut job, DiffAnswer::Text(Ok("9".into())));
    assert!(matches!(&need, DiffNeed::Run(a) if a.len() == 7 && a[0] == "diff" && a[6] == "a.txt"));
    let need = answer(&mut job, DiffAnswer::Bytes(Ok(b"@@ -1 +1 @@\n-one\n+two\n".to_vec())));
    assert!(matches!(&need, DiffNeed::Blob(s) if s == ":a.txt"));
    let need = answer(&mut job, DiffAnswer::Bytes(Ok(b"one\n".to_vec())));
    assert!(matches!(need, DiffNeed::File));
    let d = done(answer(&mut job, DiffAnswer::Bytes(Ok(b"two\n".to_vec())))).unwrap();
    assert_eq!(d.original.as_deref(), Some("one\n"));
    assert_eq!(d.modified.as_deref(), Some("two\n"));
    assert!(!d.is_binary && !d.too_large);
}

#[test]
fn oversized_and_unreadable_files() {
    let (mut job, _) = start_file_diff(DiffSource::Worktree, "big.bin".into(), None, ChangeKind::Modified);
    answer(&mut job, DiffAnswer::Nothing);
    let d = done(answer(&mut job, DiffAnswer::Size(Ok(6 * 1024 * 1024)))).unwrap();
    assert!(d.too_large);

    let (mut job, need) = start_file_diff(DiffSource::Worktree, "new.txt".into(), None, ChangeKind::Untracked);
    assert!(matches!(need, DiffNeed::FileSize));
    let e = done(answer(&mut job, DiffAnswer::Size(Err("gone".into())))).unwrap_err();
    assert_eq!(e, "无法读取 new.txt: gone");

    let (mut job, _) = start_file_diff(DiffSource::Index, "a.txt".into(), None, ChangeKind::Modified);
    answer(&mut job, DiffAnswer::Nothing);
    answer(&mut job, DiffAnswer::Flag(true));
    let d = done(answer(&mut job, DiffAnswer::Text(Ok("99999999\n".into())))).unwrap();
    assert!(d.too_large);
}

#[test]
fn binary_sides_end_the_diff() {
    let (mut job, _) = start_file_diff(DiffSource::Worktree, "new.txt".into(), None, ChangeKind::Untracked);
    answer(&mut job, DiffAnswer::Size(Ok(3)));
    let d = done(answer(&mut job, DiffAnswer::Bytes(Ok(vec![0u8, 1, 2])))).unwrap();
    assert!(d.is_binary);

    let (mut job, _) = start_file_diff(DiffSource::Worktree, "b.dat".into(), None, ChangeKind::Modified);
    answer(&mut job, DiffAnswer::Nothing);
    answer(&mut job, DiffAnswer::Size(Ok(3)));
    answer(&mut job, DiffAnswer::Text(Ok("3".into())));
    let d = done(answer(&mut job, DiffAnswer::Bytes(Ok(b"Binary files a/b.dat and b/b.dat differ\n".to_vec())))).unwrap();
    assert!(d.is_binary);
    assert!(d.hunks.is_empty());
}

#[test]
fn commit_diff_of_a_rename() {
    let (mut job, need) = start_file_diff(
        DiffSource::Commit("abc".into()),
        "new.txt".into(),
        Some("old.txt".into()),
        ChangeKind::Renamed,
    );
    assert!(matches!(&need, DiffNeed::RevExists(s) if s == "abc^1"));
    let need = answer(&mut job, DiffAnswer::Flag(true));
    assert!(matches!(&need, DiffNeed::BlobSize(s) if s == "abc^1:old.txt"));
    let need = answer(&mut job, DiffAnswer::Text(Ok("4".into())));
    assert!(matches!(&need, DiffNeed::BlobSize(s) if s == "abc:new.txt"));
    let need = answer(&mut job, DiffAnswer::Text(Err("fatal".into())));
    assert!(matches!(&need, DiffNeed::Blob(s) if s == "abc^1:old.txt"));
    let need = answer(&mut job, DiffAnswer::Bytes(Ok(b"x\n".to_vec())));
    assert!(matches!(&need, DiffNeed::Blob(s) if s == "abc:new.txt"));
    let d = done(answer(&mut job, DiffAnswer::Bytes(Ok(b"x\n".to_vec())))).unwrap();
    assert_eq!(d.original.as_deref(), Some("x\n"));
    assert_eq!(d.modified.as_deref(), Some("x\n"));
    assert!(d.hunks.is_empty());
    assert!(d.file_header.is_empty());

    let (mut job, _) = start_file_diff(DiffSource::Commit("root".into()), "a.txt".into(), None, ChangeKind::Added);
    let need = answer(&mut job, DiffAnswer::Flag(false));
    assert!(matches!(&need, DiffNeed::BlobSize(s) if s == "root:a.txt"));
    let need = answer(&mut job, DiffAnswer::Text(Ok("2".into())));
    assert!(matches!(&need, DiffNeed::Blob(s) if s == "root:a.txt"));
    let e = done(answer(&mut job, DiffAnswer::Bytes(Err("bad object".into())))).unwrap_err();
    assert_eq!(e, "bad object");
}
