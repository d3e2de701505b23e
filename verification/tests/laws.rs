use gitprism::replace::{is_word_char, replace_in_text, replace_plain, replace_whole_word};
use gitprism::diff::{parse_diff, parse_hunk_header};
use gitprism::output::{progress_failure, progress_step, record_progress};
use gitprism::status::{attach_numstat, changed_entries, parse_name_status, sort_entries, status_list};
use gitprism::types::{ChangeKind, ConflictSide, FileStatus};
use gitprism::lang::{image_mime, language_for};
use gitprism::paths::join_path_str;
use gitprism::repo::git_dir;
use gitprism::watch::{absorb, classify, classify_event, flush, Change};

fn entry(path: &str, staged: bool) -> FileStatus {
    FileStatus {
        path: path.to_string(),
        old_path: None,
        kind: ChangeKind::Modified,
        additions: None,
        deletions: None,
        conflict: None,
        staged,
    }
}

#[test]
fn whole_word_replace_with_itself_changes_nothing() {
    let text = "cat cats concat cat_x (cat)";
    let (out, n) = replace_whole_word(text, "cat", "cat");
    assert_eq!(out, text);
    assert_eq!(n, 2);
}

#[test]
fn whole_word_without_hits_leaves_text_alone() {
    let (out, n) = replace_whole_word("cats concat", "cat", "dog");
    assert_eq!(n, 0);
    assert_eq!(out, "cats concat");
}

#[test]
fn plain_replace_counts_every_occurrence() {
    assert_eq!(replace_plain("foo bar foobar\nfoo\n", "foo", "qux"), ("qux bar quxbar\nqux\n".to_string(), 3));
    assert_eq!(replace_plain("aaaa", "aa", "b"), ("bb".to_string(), 2));
    assert_eq!(
        replace_in_text("foo bar foobar\nfoo\n", "foo", "qux", true),
        ("qux bar foobar\nqux\n".to_string(), 2)
    );
}

#[test]
fn word_characters() {
    assert!(is_word_char('a'));
    assert!(is_word_char('_'));
    assert!(is_word_char('9'));
    assert!(is_word_char('é'));
    assert!(is_word_char('中'));
    assert!(!is_word_char('-'));
    assert!(!is_word_char(' '));
}

#[test]
fn changes_list_is_sorted_by_path_stably() {
    let files = vec![entry("b.txt", true), entry("a.txt", false), entry("b.txt", false)];
    let sorted = sort_entries(files);
    let paths: Vec<&str> = sorted.iter().map(|f| f.path.as_str()).collect();
    assert_eq!(paths, vec!["a.txt", "b.txt", "b.txt"]);
    assert!(sorted[1].staged);
    assert!(!sorted[2].staged);
}

#[test]
fn changes_list_adds_untracked_and_conflicted() {
    let list = status_list(
        vec![entry("m.txt", false)],
        vec![("z.txt".to_string(), Some(3))],
        vec![("c.txt".to_string(), ConflictSide::BothModified)],
    );
    let paths: Vec<&str> = list.iter().map(|f| f.path.as_str()).collect();
    assert_eq!(paths, vec!["c.txt", "m.txt", "z.txt"]);
    assert_eq!(list[0].kind, ChangeKind::Conflicted);
    assert_eq!(list[0].conflict, Some(ConflictSide::BothModified));
    assert_eq!(list[2].kind, ChangeKind::Untracked);
    assert_eq!(list[2].additions, Some(3));
    assert_eq!(list[2].deletions, Some(0));
}

#[test]
fn burst_coalescing_is_order_free_and_keeps_other() {
    let cs = [Change::Index, Change::Other, Change::Irrelevant];
    let mut a = Change::Irrelevant;
    for c in cs {
        a = absorb(a, c);
    }
    let mut b = Change::Irrelevant;
    for c in cs.iter().rev() {
        b = absorb(b, *c);
    }
    assert_eq!(a, b);
    assert_eq!(flush(a), Some(false));
    assert_eq!(flush(absorb(Change::Irrelevant, Change::Index)), Some(true));
    assert_eq!(flush(Change::Irrelevant), None);
}

#[test]
fn watcher_classifies_paths() {
    assert_eq!(classify("/r", "/r/.git/index", false), Change::Index);
    assert_eq!(classify("/r", "/r/.git/objects/ab/cdef", false), Change::Irrelevant);
    assert_eq!(classify("/r", "/r/src/main.rs", false), Change::Other);
    assert_eq!(classify("/r", "/r/.git/HEAD", false), Change::Other);
    assert_eq!(
        classify_event("/r", &vec!["/r/.git/index".to_string(), "/r/a.txt".to_string()], false),
        Change::Other
    );
}

#[test]
fn watcher_classifies_windows_paths() {
    assert_eq!(classify("C:\\r", "C:\\r\\.git\\index", true), Change::Index);
    assert_eq!(classify("C:\\r", "C:\\r\\.git\\refs\\heads\\main", true), Change::Other);
    assert_eq!(classify("C:\\r", "C:\\r\\.git\\objects\\ab", true), Change::Irrelevant);
    assert_eq!(classify("c:/r", "C:\\r\\src\\a.rs", true), Change::Other);
    assert_eq!(classify("C:\\r", "D:\\r\\a.rs", true), Change::Irrelevant);
    assert_eq!(classify("C:\\r", "C:\\r", true), Change::Irrelevant);
    // on Unix a backslash is part of a name
    assert_eq!(classify("C:\\r", "C:\\r\\.git\\index", false), Change::Irrelevant);
    assert_eq!(
        classify_event("C:\\r", &vec!["C:\\r\\.git\\index".to_string()], true),
        Change::Index
    );
}

#[test]
fn git_dir_joins_as_the_platform_does() {
    assert_eq!(git_dir("C:\\r", Ok("C:/r/.git/worktrees/w\n".to_string()), true), "C:/r/.git/worktrees/w");
    assert_eq!(git_dir("C:\\r", Ok(".git".to_string()), true), "C:\\r\\.git");
    assert_eq!(git_dir("C:\\r\\", Err("x".to_string()), true), "C:\\r\\.git");
    assert_eq!(git_dir("C:\\r", Ok("\\\\srv\\s\\.git".to_string()), true), "\\\\srv\\s\\.git");
    assert_eq!(git_dir("/r", Ok("/abs/.git".to_string()), false), "/abs/.git");
    assert_eq!(git_dir("/r", Ok(".git".to_string()), false), "/r/.git");
    assert_eq!(join_path_str("C:", "x", true), "C:x");
    assert_eq!(join_path_str("D:\\a", "\\b", true), "D:\\b");
    assert_eq!(join_path_str("D:\\a", "/b", false), "/b");
}

#[test]
fn whole_word_count_times_query_fits_the_text() {
    for (text, q) in [("aaaa", "aa"), ("ab ab ab", "ab"), ("x_x x", "x"), ("", "q")] {
        let (_, n) = replace_whole_word(text, q, "Z");
        assert!(n as usize * q.chars().count() <= text.chars().count());
    }
    assert_eq!(replace_whole_word("aa aa", "aa", "b").1, 2);
}

#[test]
fn numstat_keeps_entries_and_their_order() {
    let mut files = vec![entry("a.txt", true), entry("b.txt", true), entry("a.txt", true)];
    attach_numstat(Ok("3\t1\ta.txt\07\t0\tnone.txt\0".to_string()), &mut files);
    assert_eq!(files.len(), 3);
    assert_eq!((files[0].additions, files[0].deletions), (Some(3), Some(1)));
    assert_eq!((files[1].additions, files[1].deletions), (None, None));
    assert_eq!((files[2].additions, files[2].deletions), (None, None));
    let paths: Vec<&str> = files.iter().map(|f| f.path.as_str()).collect();
    assert_eq!(paths, vec!["a.txt", "b.txt", "a.txt"]);
    let before = files.clone();
    attach_numstat(Err("fatal".to_string()), &mut files);
    assert_eq!(files, before);
}

#[test]
fn diff_hunks_are_numbered_and_delimited() {
    let diff = "diff --git a/a b/a\n--- a/a\n+++ b/a\n@@ -1 +1 @@\n-x\n+y\n@@ -9,2 +9,3 @@ ctx\n a\n+@@ not\n b\n";
    let (header, hunks, _) = parse_diff(diff);
    assert!(header.lines().all(|l| !l.starts_with("@@ ")));
    assert_eq!(hunks.len(), 2);
    for (i, h) in hunks.iter().enumerate() {
        assert_eq!(h.index, i);
        let mut lines = h.text.split_inclusive('\n');
        assert!(lines.next().unwrap().starts_with("@@ "));
        assert!(lines.all(|l| !l.starts_with("@@ ")));
    }
}

#[test]
fn formatted_hunk_headers_read_back() {
    for (a, b, c, d) in [(0u32, 0u32, 1u32, 3u32), (12, 7, 4294967295, 10), (5, 1, 5, 1)] {
        assert_eq!(parse_hunk_header(&format!("@@ -{a},{b} +{c},{d} @@ f()\n")), Some((a, b, c, d)));
        assert_eq!(parse_hunk_header(&format!("@@ -{a} +{c} @@")), Some((a, 1, c, 1)));
    }
}

#[test]
fn name_status_reads_record_by_record() {
    let a = "M\0x.txt\0R100\0old\0new\0";
    let b = "A\0y.txt\0D\0z\0";
    let whole = parse_name_status(&format!("{a}{b}"));
    let mut parts = parse_name_status(a);
    parts.extend(parse_name_status(b));
    assert_eq!(whole, parts);
    assert_eq!(whole.len(), 4);
}

#[test]
fn failed_progress_reports_handed_out_lines() {
    let mut line = Vec::new();
    let mut collected = String::new();
    let mut handed = Vec::new();
    for b in b"  Counting 10%\rCounting 100%\n\n error: nope \nunfinished" {
        if let Some(t) = progress_step(&mut line, *b) {
            record_progress(&mut collected, &t);
            handed.push(t);
        }
    }
    assert_eq!(handed, vec!["Counting 10%", "Counting 100%", "error: nope"]);
    assert_eq!(line, b"unfinished".to_vec());
    assert_eq!(progress_failure(&collected), handed.join("\n"));
    assert_eq!(progress_failure(""), "git 命令失败");
}

#[test]
fn changes_sides_skip_conflicts_and_mark_staged() {
    let conflicted = vec![("c.txt".to_string(), ConflictSide::BothModified)];
    let staged = changed_entries("M\0a.txt\0M\0c.txt\0", Ok("2\t1\ta.txt\0".to_string()), &conflicted, true);
    let unstaged = changed_entries("M\0a.txt\0", Err("x".to_string()), &conflicted, false);
    assert_eq!(staged.len(), 1);
    assert!(staged[0].staged);
    assert_eq!(staged[0].additions, Some(2));
    assert_eq!(unstaged.len(), 1);
    assert!(!unstaged[0].staged);
    let mut files = staged.clone();
    files.extend(unstaged);
    let list = status_list(files, vec![("u.txt".to_string(), Some(1))], conflicted);
    for f in &list {
        assert_eq!(f.conflict.is_some(), f.kind == ChangeKind::Conflicted);
        if f.kind == ChangeKind::Untracked || f.kind == ChangeKind::Conflicted {
            assert!(!f.staged);
        }
        if f.kind != ChangeKind::Conflicted {
            assert_ne!(f.path, "c.txt");
        }
        assert_eq!(f.staged, staged.contains(f));
    }
    let paths: Vec<&str> = list.iter().map(|f| f.path.as_str()).collect();
    assert_eq!(paths, vec!["a.txt", "a.txt", "c.txt", "u.txt"]);
}

#[test]
fn numstat_first_entry_takes_the_last_record() {
    let mut files = vec![entry("a.txt", false), entry("a.txt", false)];
    attach_numstat(Ok("1\t1\ta.txt\x002\t3\ta.txt\0".to_string()), &mut files);
    assert_eq!((files[0].additions, files[0].deletions), (Some(2), Some(3)));
    assert_eq!((files[1].additions, files[1].deletions), (None, None));
}

#[test]
fn language_and_mime_ignore_ascii_case() {
    assert_eq!(language_for("SRC/MAIN.RS"), language_for("src/main.rs"));
    assert_eq!(language_for("Src/Main.Rs").map(|l| l.0), Some("Rust"));
    assert_eq!(language_for("DOCKERFILE"), language_for("dockerfile"));
    assert_eq!(image_mime("A.PNG"), Some("image/png"));
    assert_eq!(image_mime("a.JpEg"), Some("image/jpeg"));
}

#[test]
fn whole_word_count_fits_in_bytes() {
    let (_, n) = replace_whole_word("é é", "é", "e");
    assert_eq!(n, 2);
    assert!(n as usize * "é".len() <= "é é".len());
    assert!(!is_word_char('-') && is_word_char('_') && is_word_char('Z') && is_word_char('7'));
}

#[test]
fn windows_separators_do_not_matter() {
    assert_eq!(classify("C:/r", "C:/r/.git/index", true), Change::Index);
    assert_eq!(classify("C:\\r", "C:/r/.git\\HEAD", true), Change::Other);
}
