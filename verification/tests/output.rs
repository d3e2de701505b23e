use gitprism::output::{
    blame_of, error_text, grep_listing, nonempty_lines, output_text, progress_failure,
    progress_step, search_hits_of, stashes_of, timeout_message,
};

#[test]
fn progress_lines_split_on_cr_and_lf() {
    let mut line = Vec::new();
    let mut out = Vec::new();
    for b in b"Receiving objects:  50%\rReceiving objects: 100%\n\n  \ndone\n" {
        if let Some(t) = progress_step(&mut line, *b) {
            out.push(t);
        }
    }
    assert_eq!(out, vec!["Receiving objects:  50%", "Receiving objects: 100%", "done"]);
    assert!(line.is_empty());
}

#[test]
fn error_and_failure_texts() {
    assert_eq!(error_text(b"  fatal: not a git repository\n"), "fatal: not a git repository");
    assert_eq!(error_text(&[0xff, b'x']), "\u{fffd}x");
    assert_eq!(progress_failure("  \n"), "git 命令失败");
    assert_eq!(progress_failure(" error: x\n"), "error: x");
    assert_eq!(
        timeout_message(&vec!["fetch".to_string(), "--progress".to_string()], 60),
        "git fetch --progress 超时（超过 60s 无响应，可能是网络连接卡住），已终止"
    );
}

#[test]
fn clock_reads_after_the_epoch() {
    assert!(gitprism::console::now_ms() > 1_600_000_000_000);
}

#[test]
fn git_output_bytes_decode_lossily() {
    assert_eq!(output_text(b"a\xffb"), "a\u{fffd}b");
    assert_eq!(output_text("中文".as_bytes()), "中文");
    assert_eq!(grep_listing(b"a.txt\n\nb.txt\n"), vec!["a.txt", "b.txt"]);
    assert_eq!(grep_listing(b"caf\xe9.txt\n"), vec!["caf\u{fffd}.txt"]);
    assert_eq!(nonempty_lines("x\n\ny\n"), vec!["x", "y"]);
    let hits = search_hits_of(b"src/a.rs:12:  let x = 1;  \nnot a hit\nb.rs:3:y\n", 1);
    assert_eq!(hits.len(), 1);
    assert_eq!(hits[0].path, "src/a.rs");
    assert_eq!(hits[0].line, 12);
    assert_eq!(hits[0].text, "  let x = 1;");
}

#[test]
fn blame_of_uncommitted_line_has_time_zero() {
    let zero = "0".repeat(40);
    let full = "a".repeat(40);
    let out = format!(
        "{zero} 1 1 1\nauthor Not Committed Yet\nauthor-time 1700000000\nsummary Version of a.txt\n\tnew line\n\
         {full} 2 2 1\nauthor Ann\nauthor-time 1600000000\nsummary first\n\told line\n"
    );
    let b = blame_of(out.as_bytes());
    assert_eq!(b.len(), 2);
    assert_eq!(b[0].hash, zero);
    assert!(!b[0].committed);
    assert_eq!(b[0].time, 0);
    assert_eq!(b[0].author, "Not Committed Yet");
    assert_eq!(b[1].hash, full);
    assert!(b[1].committed);
    assert_eq!(b[1].time, 1600000000);
    assert_eq!(b[1].summary, "first");
}

#[test]
fn stashes_of_bytes() {
    let out = b"h1\0p1 p2 p3\0Mon\0On main: wip\nbad line\nh2\0p1 p2\0Tue\0msg\n";
    let s = stashes_of(out);
    assert_eq!(s.len(), 2);
    assert_eq!(s[0].index, 0);
    assert_eq!(s[0].hash, "h1");
    assert_eq!(s[0].untracked_hash, Some("p3".to_string()));
    assert_eq!(s[0].message, "On main: wip");
    assert_eq!(s[1].index, 2);
    assert_eq!(s[1].untracked_hash, None);
}
