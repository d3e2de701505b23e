use gitprism::console::{console_log, get_console_log, record_console};
use gitprism::log::parse_log;
use gitprism::ops::{commit_count, count_commits_args, log_args};
use gitprism::refs::parse_branches;
use gitprism::repo::{ahead_behind, commit_message};
use gitprism::search::{commit_filters, commit_matches, first_scan, next_scan, scan_batch};
use gitprism::types::CommitInfo;

fn commit(hash: &str, short: &str, author: &str, email: &str, subject: &str) -> CommitInfo {
    CommitInfo {
        hash: hash.to_string(),
        short_hash: short.to_string(),
        author: author.to_string(),
        email: email.to_string(),
        date: "2024-01-01 10:00".to_string(),
        subject: subject.to_string(),
        additions: 0,
        deletions: 0,
        parents: Vec::new(),
        refs: Vec::new(),
    }
}

fn two_commits() -> Vec<CommitInfo> {
    vec![
        commit("bbbbbbbb22", "bbbbbbb", "Test", "t@test", "fix beta bug"),
        commit("aaaaaaaa11", "aaaaaaa", "Test", "t@test", "add alpha feature"),
    ]
}

fn search(query: &str, max: u32) -> Vec<CommitInfo> {
    let mut found = Vec::new();
    let f = match commit_filters(query, None, None, None) {
        Some(f) => f,
        None => return found,
    };
    if first_scan(max).is_some() {
        scan_batch(&f, &mut found, two_commits(), max);
    }
    found
}

#[test]
fn search_commits_matches_subject_author_and_hash() {
    let by_subject = search("alpha", 10);
    assert_eq!(by_subject.len(), 1);
    assert_eq!(by_subject[0].subject, "add alpha feature");

    let by_author = search("T@TEST", 10);
    assert_eq!(by_author.len(), 2);

    let by_hash = search(&by_subject[0].short_hash.clone(), 10);
    assert_eq!(by_hash.len(), 1);
    assert_eq!(by_hash[0].hash, by_subject[0].hash);

    let none = search("nomatch_xyz", 10);
    assert!(none.is_empty());

    let capped = search("t@test", 1);
    assert_eq!(capped.len(), 1);
}

#[test]
fn search_qualifiers_and_blank_query() {
    assert!(commit_filters("   ", None, Some("  ".to_string()), None).is_none());
    let f = commit_filters("", None, Some("BETA".to_string()), None).unwrap();
    assert_eq!(f.subject.as_deref(), Some("beta"));
    let cs = two_commits();
    assert!(commit_matches(&cs[0], &f));
    assert!(!commit_matches(&cs[1], &f));
    let h = commit_filters("", None, None, Some(" AAAA ".to_string())).unwrap();
    assert_eq!(h.hash.as_deref(), Some("aaaa"));
    assert!(commit_matches(&cs[1], &h));
    assert!(!commit_matches(&cs[0], &h));
    let a = commit_filters("", Some(" Test ".to_string()), None, None).unwrap();
    assert_eq!(a.author.as_deref(), Some("Test"));
}

#[test]
fn search_scan_steps() {
    assert_eq!(first_scan(0), None);
    assert_eq!(first_scan(5), Some(0));
    assert_eq!(next_scan(0, 499, 0, 10), None);
    assert_eq!(next_scan(0, 500, 0, 10), Some(500));
    assert_eq!(next_scan(0, 500, 10, 10), None);
    assert_eq!(next_scan(9500, 500, 0, 10), None);
}

#[test]
fn get_commit_message_returns_full_body_not_just_subject() {
    let msg = commit_message("subject line\n\nbody line 1\nbody line 2\n\n".to_string());
    assert_eq!(msg, "subject line\n\nbody line 1\nbody line 2");
}

#[test]
fn count_commits_between_works() {
    assert_eq!(commit_count(Ok("2\n".to_string())), Ok(2));
    assert_eq!(
        commit_count(Ok("two".to_string())),
        Err("无法解析提交数量".to_string())
    );
    assert_eq!(commit_count(Err("bad revision".to_string())), Err("bad revision".to_string()));
    assert_eq!(count_commits_args("abc", "def"), vec!["rev-list", "--count", "abc..def"]);
}

#[test]
fn no_upstream_reports_none_not_error() {
    let (upstream, ahead, behind) = ahead_behind(None, Err("no upstream".to_string()));
    assert_eq!(upstream, None);
    assert_eq!(ahead, None);
    assert_eq!(behind, None);
}

#[test]
fn ahead_behind_counts_from_rev_list() {
    let (upstream, ahead, behind) =
        ahead_behind(Some("origin/main".to_string()), Ok("1\t2\n".to_string()));
    assert_eq!(upstream.as_deref(), Some("origin/main"));
    assert_eq!(behind, Some(1));
    assert_eq!(ahead, Some(2));
}

#[test]
fn branch_names_with_slashes_parse_correctly() {
    let out = "refs/heads/feature/foo/bar\u{1} \u{1}\u{1}\nrefs/heads/main\u{1}*\u{1}origin/main\u{1}[ahead 2, behind 1]\nrefs/remotes/origin/HEAD\u{1} \u{1}\u{1}\n";
    let branches = parse_branches(out);
    assert!(branches.iter().any(|b| b.name == "feature/foo/bar" && !b.is_remote));
    let main = branches.iter().find(|b| b.name == "main").unwrap();
    assert!(main.is_current);
    assert_eq!(main.upstream.as_deref(), Some("origin/main"));
    assert_eq!(main.ahead, Some(2));
    assert_eq!(main.behind, Some(1));
    assert!(!branches.iter().any(|b| b.name == "origin/HEAD"));
}

#[test]
fn log_commits_reports_parents() {
    let out = "\u{1}m1\0m\0T\0t@test\02024-01-02 10:00\0p1 p2\0merge feature\0HEAD -> main\n\
               \u{1}f1\0f\0T\0t@test\02024-01-01 11:00\0r1\0feature commit\0feature\n 1 file changed, 1 insertion(+)\n\
               \u{1}r1\0r\0T\0t@test\02024-01-01 10:00\0\0base\0\n 1 file changed, 2 insertions(+), 3 deletions(-)\n";
    let commits = parse_log(out);
    assert_eq!(commits.len(), 3);
    assert_eq!(commits[0].parents.len(), 2, "merge commit must report 2 parents");
    assert_eq!(commits.last().unwrap().parents.len(), 0, "root commit has no parents");
    assert!(commits[0].refs.iter().any(|name| name == "main"));
    let feature_commit = commits.iter().find(|c| c.subject == "feature commit").unwrap();
    assert!(feature_commit.refs.iter().any(|name| name == "feature"));
    assert_eq!(feature_commit.additions, 1);
    assert!(commits.last().unwrap().refs.is_empty());
    assert_eq!(commits[2].additions, 2);
    assert_eq!(commits[2].deletions, 3);
}

#[test]
fn log_arguments() {
    let a = log_args(10, 20, &Some("dev".to_string()), &Some("Ann".to_string()));
    assert_eq!(
        a,
        vec![
            "log",
            "dev",
            "--fixed-strings",
            "--author=Ann",
            "--skip=10",
            "--max-count=20",
            "--shortstat",
            "--date=format:%Y-%m-%d %H:%M",
            "--pretty=format:%x01%H%x00%h%x00%an%x00%ae%x00%ad%x00%P%x00%s%x00%D",
        ]
    );
    assert_eq!(log_args(0, 500, &None, &None)[1], "--skip=0");
}

#[test]
fn console_log_records_git_invocations_per_repo() {
    let mut log = console_log();
    record_console(&mut log, "/a", &vec!["add".to_string(), "-A".to_string()], true, 1);
    record_console(&mut log, "/b", &vec!["status".to_string()], true, 2);
    record_console(&mut log, "/a", &vec!["commit".to_string(), "-qm".to_string(), "x".to_string()], true, 3);
    let log_a = get_console_log(&log, "/a");
    assert!(!log_a.is_empty());
    assert!(log_a.iter().all(|e| e.root == "/a"));
    assert!(log_a.iter().any(|e| e.args.contains("commit")));
    assert!(log_a.iter().all(|e| e.ok));
    assert_eq!(log_a[0].args, "add -A");
    let log_b = get_console_log(&log, "/b");
    assert!(log_b.iter().all(|e| e.root == "/b"));
    record_console(&mut log, "/a", &vec!["switch".to_string(), "does-not-exist".to_string()], false, 4);
    let log_a2 = get_console_log(&log, "/a");
    assert!(log_a2.iter().any(|e| !e.ok));
    assert_eq!(log_a2.last().unwrap().args, "switch does-not-exist");
    assert_eq!(get_console_log(&log, "/b").len(), log_b.len());
}

#[test]
fn console_log_keeps_the_last_entries() {
    let mut log = console_log();
    for i in 0..510u64 {
        record_console(&mut log, "/r", &vec![format!("c{}", i)], true, i);
    }
    let all = get_console_log(&log, "/r");
    assert_eq!(all.len(), 500);
    assert_eq!(all[0].args, "c10");
    assert_eq!(all[499].args, "c509");
}

fn run_search(log: &[CommitInfo], query: &str, max: u32) -> Vec<CommitInfo> {
    let f = commit_filters(query, None, None, None).unwrap();
    let mut found = Vec::new();
    let mut skip = first_scan(max);
    while let Some(at) = skip {
        let start = (at as usize).min(log.len());
        let end = (at as usize + 500).min(log.len());
        let batch = log[start..end].to_vec();
        let got = batch.len();
        scan_batch(&f, &mut found, batch, max);
        skip = next_scan(at, got, found.len(), max);
    }
    found
}

#[test]
fn search_scans_at_most_ten_thousand_commits_in_order() {
    let log: Vec<CommitInfo> = (0..10_600)
        .map(|i| {
            let subject = if i % 1000 == 7 { format!("needle {i}") } else { format!("hay {i}") };
            commit(&format!("{i:040}"), &format!("{i:07}"), "A", "a@x", &subject)
        })
        .collect();
    let all = run_search(&log, "needle", 100);
    let subjects: Vec<String> = all.iter().map(|c| c.subject.clone()).collect();
    let expected: Vec<String> = (0..10).map(|k| format!("needle {}", k * 1000 + 7)).collect();
    assert_eq!(subjects, expected);
    let few = run_search(&log, "needle", 3);
    assert_eq!(few.len(), 3);
    assert_eq!(few[2].subject, "needle 2007");
}
