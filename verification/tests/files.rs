use gitprism::lang::{count_lines, data_url, image_mime, language_for};
use gitprism::listing::{
    file_content, image_mime_required, image_side, list_files_args, list_files_from, nul_paths,
    untracked_diff,
};
use gitprism::repo::{
    auto_open_choice, current_branch, decode_text, display_name, repo_root, system_time_millis,
};
use gitprism::stats::{repo_stats_of, StatFile};

fn stat_file(path: &str, content: &[u8]) -> StatFile {
    StatFile {
        path: path.to_string(),
        size: Some(content.len() as u64),
        content: Some(content.to_vec()),
    }
}

#[test]
fn repo_stats_counts_lines_per_language_and_skips_untracked() {
    let files = vec![
        stat_file(".gitignore", b"README.md\n"),
        stat_file("index.ts", b"export const x = 1;\nexport const y = 2;\n"),
        stat_file("lib.rs", b"pub fn add(a: i32, b: i32) -> i32 { a + b }"),
        stat_file("main.rs", b"fn main() {\n    println!(\"hi\");\n}\n"),
    ];
    let stats = repo_stats_of(&files);
    assert_eq!(stats.total_files, 3);
    assert_eq!(stats.total_lines, 6);
    let rust = stats.languages.iter().find(|l| l.language == "Rust").expect("Rust must be in the breakdown");
    assert_eq!(rust.files, 2);
    assert_eq!(rust.lines, 4);
    assert!(!stats.languages.iter().any(|l| l.language == "Markdown"));
    let ts = stats.languages.iter().find(|l| l.language == "TypeScript");
    assert!(ts.is_some());
    assert_eq!(ts.unwrap().lines, 2);
    assert_eq!(ts.unwrap().color, "#3178c6");
    assert_eq!(stats.languages[0].language, "Rust");
    let lines: u64 = stats.languages.iter().map(|l| l.lines).sum();
    let files: u32 = stats.languages.iter().map(|l| l.files).sum();
    assert_eq!(lines, stats.total_lines);
    assert_eq!(files, stats.total_files);
}

#[test]
fn repo_stats_skips_binary_large_and_unreadable() {
    let files = vec![
        stat_file("a.py", b"x = 1\0\n"),
        StatFile { path: "big.js".to_string(), size: Some(3 * 1024 * 1024), content: None },
        StatFile { path: "gone.go".to_string(), size: None, content: None },
        stat_file("b.go", b"package b\n"),
        stat_file("c.css", b"a{}\n"),
    ];
    let stats = repo_stats_of(&files);
    assert_eq!(stats.skipped_binary, 1);
    assert_eq!(stats.skipped_too_large, 1);
    assert_eq!(stats.total_files, 2);
    assert_eq!(stats.total_lines, 2);
    // equal lines: ordered by name
    assert_eq!(stats.languages[0].language, "CSS");
    assert_eq!(stats.languages[1].language, "Go");
}

#[test]
fn languages_by_name_and_extension() {
    assert_eq!(language_for("src/Main.RS"), Some(("Rust", "#dea584")));
    assert_eq!(language_for("docker/Dockerfile"), Some(("Dockerfile", "#384d54")));
    assert_eq!(language_for("GNUmakefile"), Some(("Makefile", "#427819")));
    assert_eq!(language_for("a/.bashrc"), None);
    assert_eq!(language_for("archive.tar.gz"), None);
    assert_eq!(language_for("x.hpp"), Some(("C++", "#f34b7d")));
}

#[test]
fn image_types_and_data_urls() {
    assert_eq!(image_mime("A.PNG"), Some("image/png"));
    assert_eq!(image_mime("photo.jpeg"), Some("image/jpeg"));
    assert_eq!(image_mime("x.svg"), None);
    assert_eq!(image_mime_required("x.txt").unwrap_err(), "不支持的图片格式");
    assert_eq!(data_url("image/png", b"hi"), "data:image/png;base64,aGk=");
    assert_eq!(data_url("image/gif", b"abc"), "data:image/gif;base64,YWJj");
    assert_eq!(image_side("image/png", Some(b"a".to_vec())).unwrap(), "data:image/png;base64,YQ==");
    assert_eq!(image_side("image/png", None), None);
}

#[test]
fn line_counts_of_untracked_files() {
    assert_eq!(count_lines(Some(4), Some(b"a\nb\n")), Some(2));
    assert_eq!(count_lines(Some(3), Some(b"a\nb")), Some(2));
    assert_eq!(count_lines(Some(0), Some(b"")), Some(0));
    assert_eq!(count_lines(Some(2), Some(b"\0a")), None);
    assert_eq!(count_lines(Some(2 * 1024 * 1024), None), None);
    assert_eq!(count_lines(None, None), None);
}

#[test]
fn list_files_and_read_file() {
    assert_eq!(list_files_args(false), vec!["ls-files", "--cached", "--others", "--exclude-standard", "-z"]);
    assert_eq!(list_files_args(true), vec!["ls-files", "--cached", "--others", "-z"]);
    let files = list_files_from("b.txt\0a.txt\0\0b.txt\0");
    assert_eq!(files, vec!["a.txt", "b.txt"]);
    assert_eq!(nul_paths("b\0a\0\0c\0"), vec!["b", "a", "c"]);
    let text = file_content(b"hello\n".to_vec());
    assert_eq!(text.content.as_deref(), Some("hello\n"));
    assert!(!text.is_binary);
    let bin = file_content(vec![0u8, 1, 2]);
    assert!(bin.is_binary);
    assert!(bin.content.is_none());
    let invalid = file_content(vec![0xffu8, 0xfe]);
    assert!(invalid.is_binary);
    let d = untracked_diff(b"new\n".to_vec());
    assert_eq!(d.modified.as_deref(), Some("new\n"));
    assert!(d.original.is_none());
}

#[test]
fn open_repo_pieces() {
    assert_eq!(repo_root(Ok("/r/x\n".to_string())).unwrap(), "/r/x");
    assert_eq!(repo_root(Err("fatal".to_string())).unwrap_err(), "该目录不是 git 仓库");
    assert_eq!(current_branch(Ok("main\n".to_string())).as_deref(), Some("main"));
    assert_eq!(current_branch(Ok("\n".to_string())), None);
    assert_eq!(current_branch(Err("x".to_string())), None);
    assert_eq!(decode_text(vec![0xe4, 0xbd, 0xa0]).as_deref(), Some("你"));
    assert_eq!(decode_text(vec![0xff]), None);
}

#[test]
fn launch_and_file_info_pieces() {
    assert_eq!(auto_open_choice(false, Some("/r".to_string()), None), None);
    assert_eq!(auto_open_choice(true, Some("/r".to_string()), Some("/l".to_string())).as_deref(), Some("/r"));
    assert_eq!(auto_open_choice(true, None, Some("/l".to_string())).as_deref(), Some("/l"));
    assert_eq!(auto_open_choice(true, Some("  ".to_string()), Some("/l".to_string())), None);
    assert_eq!(system_time_millis(Some(1_700_000_000_123)), Some(1_700_000_000_123));
    assert_eq!(system_time_millis(Some(u64::MAX as u128 + 5)), Some(4));
    assert_eq!(system_time_millis(None), None);
    assert_eq!(display_name("src/dir/file.rs"), "file.rs");
    assert_eq!(display_name("top"), "top");
    assert_eq!(display_name("a/.."), "a/..");
}
