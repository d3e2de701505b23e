use gitprism::diff::{parse_diff, parse_hunk_header};
use gitprism::refs::parse_decorations;
use gitprism::replace::replace_whole_word;
use gitprism::status::{parse_name_status, parse_numstat};
use gitprism::types::ChangeKind;

#[test]
fn name_status_basic() {
    let out = "M\0src/a.rs\0A\0new.txt\0D\0gone.txt\0";
    let files = parse_name_status(out);
    assert_eq!(files.len(), 3);
    assert_eq!(files[0].path, "src/a.rs");
    assert_eq!(files[0].kind, ChangeKind::Modified);
    assert_eq!(files[1].path, "new.txt");
    assert_eq!(files[1].kind, ChangeKind::Added);
    assert_eq!(files[2].path, "gone.txt");
    assert_eq!(files[2].kind, ChangeKind::Deleted);
}

#[test]
fn numstat_forms() {
    let out = "3\t1\tsrc/a.rs\0-\t-\tbin.dat\05\t0\t\0old.txt\0new.txt\0";
    let stats = parse_numstat(out);
    assert_eq!(stats.len(), 3);
    assert_eq!(stats[0], ("src/a.rs".into(), Some(3), Some(1)));
    assert_eq!(stats[1], ("bin.dat".into(), None, None));
    assert_eq!(stats[2], ("new.txt".into(), Some(5), Some(0)));
}

#[test]
fn decoration_parsing() {
    assert_eq!(parse_decorations(""), Vec::<String>::new());
    assert_eq!(parse_decorations("HEAD -> main"), vec!["main"]);
    assert_eq!(
        parse_decorations("HEAD -> main, origin/main"),
        vec!["main", "origin/main"]
    );
    assert_eq!(parse_decorations("tag: v1.0"), vec!["v1.0"]);
    assert_eq!(
        parse_decorations("HEAD -> main, tag: v1.0, origin/main"),
        vec!["main", "v1.0", "origin/main"]
    );
    assert_eq!(parse_decorations("HEAD"), Vec::<String>::new());
}

#[test]
fn name_status_rename_and_copy() {
    let out = "R100\0old name.txt\0new name.txt\0C75\0src.txt\0copy.txt\0T\0link\0";
    let files = parse_name_status(out);
    assert_eq!(files.len(), 3);
    assert_eq!(files[0].kind, ChangeKind::Renamed);
    assert_eq!(files[0].path, "new name.txt");
    assert_eq!(files[0].old_path.as_deref(), Some("old name.txt"));
    assert_eq!(files[1].kind, ChangeKind::Added);
    assert_eq!(files[1].path, "copy.txt");
    assert_eq!(files[2].kind, ChangeKind::Modified);
}

#[test]
fn hunk_header_forms() {
    assert_eq!(
        parse_hunk_header("@@ -1,5 +1,6 @@ fn main() {\n"),
        Some((1, 5, 1, 6))
    );
    assert_eq!(parse_hunk_header("@@ -1 +1,2 @@\n"), Some((1, 1, 1, 2)));
    assert_eq!(parse_hunk_header("@@ -0,0 +1 @@\n"), Some((0, 0, 1, 1)));
    assert_eq!(parse_hunk_header("not a hunk"), None);
}

#[test]
fn diff_split_two_hunks() {
    let diff = "diff --git a/a.txt b/a.txt\n\
                index 111..222 100644\n\
                --- a/a.txt\n\
                +++ b/a.txt\n\
                @@ -1,3 +1,3 @@\n line1\n-line2\n+LINE2\n line3\n\
                @@ -8,3 +8,3 @@\n line8\n-line9\n+LINE9\n line10\n\
                \\ No newline at end of file\n";
    let (header, hunks, binary) = parse_diff(diff);
    assert!(!binary);
    assert!(header.starts_with("diff --git"));
    assert!(header.ends_with("+++ b/a.txt\n"));
    assert_eq!(hunks.len(), 2);
    assert_eq!(hunks[0].old_start, 1);
    assert_eq!(hunks[1].new_start, 8);
    assert!(hunks[1].text.ends_with("\\ No newline at end of file\n"));
    let patch = format!("{}{}", header, hunks[0].text);
    assert!(patch.contains("--- a/a.txt"));
    assert!(patch.contains("-line2"));
    assert!(!patch.contains("line8"));
}

#[test]
fn diff_binary_detected() {
    let diff = "diff --git a/bin.dat b/bin.dat\n\
                index 111..222 100644\n\
                Binary files a/bin.dat and b/bin.dat differ\n";
    let (_, hunks, binary) = parse_diff(diff);
    assert!(binary);
    assert!(hunks.is_empty());
}

#[test]
fn replace_whole_word_boundaries() {
    let (out, n) = replace_whole_word("cat cats concat cat_x (cat)", "cat", "dog");
    assert_eq!(out, "dog cats concat cat_x (dog)");
    assert_eq!(n, 2);
}

#[test]
fn diff_split_loses_nothing() {
    let diff = "diff --git a/a.txt b/a.txt\n--- a/a.txt\n+++ b/a.txt\n@@ -1 +1 @@\n-a\n+b\n@@ -5,2 +5,2 @@\n x\n-y\n+z";
    let (header, hunks, binary) = parse_diff(diff);
    assert!(!binary);
    let mut joined = header.clone();
    for h in &hunks {
        assert!(h.text.starts_with("@@ "));
        joined.push_str(&h.text);
    }
    assert_eq!(joined, diff);
    assert_eq!(hunks[1].index, 1);
    assert_eq!((hunks[1].old_start, hunks[1].old_lines), (5, 2));
}
