//! The values that the library hands back: repository state, file
//! changes, commits, branches and the rest, with the mathematical views that
//! the contracts speak of.
use vstd::prelude::*;

verus! {

/// An operation left in progress by git: mid-merge, mid-cherry-pick,
/// mid-revert or mid-rebase; `Idle` when there is none.
#[derive(Clone, Copy, PartialEq, Eq, Debug, Structural)]
pub enum RepoOperation {
    Idle,
    Merge,
    CherryPick,
    Revert,
    Rebase,
}

/// What the repository view shows once a repository is opened.
#[derive(Clone, Debug)]
pub struct RepoInfo {
    pub root: String,
    pub branch: Option<String>,
    pub has_head: bool,
    pub upstream: Option<String>,
    pub ahead: Option<u32>,
    pub behind: Option<u32>,
    pub operation: RepoOperation,
}

/// How a path changed.
#[derive(Clone, Copy, PartialEq, Eq, Debug, Structural)]
pub enum ChangeKind {
    Modified,
    Added,
    Deleted,
    Renamed,
    Untracked,
    Conflicted,
}

/// Which side or sides touched a conflicted path.
#[derive(Clone, Copy, PartialEq, Eq, Debug, Structural)]
pub enum ConflictSide {
    BothModified,
    AddedByUs,
    AddedByThem,
    DeletedByUs,
    DeletedByThem,
    BothAdded,
    BothDeleted,
}

/// One changed path. `staged` tells an index-vs-HEAD entry from a
/// worktree-vs-index one; a partially staged file appears once with each.
#[derive(Clone, PartialEq, Eq, Debug)]
pub struct FileStatus {
    pub path: String,
    pub old_path: Option<String>,
    pub kind: ChangeKind,
    pub additions: Option<u32>,
    pub deletions: Option<u32>,
    pub conflict: Option<ConflictSide>,
    pub staged: bool,
}

/// The view of a `FileStatus`: its texts as character sequences.
pub struct FileStatusV {
    pub path: Seq<char>,
    pub old_path: Option<Seq<char>>,
    pub kind: ChangeKind,
    pub additions: Option<u32>,
    pub deletions: Option<u32>,
    pub conflict: Option<ConflictSide>,
    pub staged: bool,
}

/// The view of an optional string.
pub open spec fn opt_view(o: Option<String>) -> Option<Seq<char>> {
    match o {
        Some(s) => Some(s@),
        None => None,
    }
}

impl View for FileStatus {
    type V = FileStatusV;

    open spec fn view(&self) -> FileStatusV {
        FileStatusV {
            path: self.path@,
            old_path: opt_view(self.old_path),
            kind: self.kind,
            additions: self.additions,
            deletions: self.deletions,
            conflict: self.conflict,
            staged: self.staged,
        }
    }
}

/// The views of a sequence of file statuses.
pub open spec fn status_views(s: Seq<FileStatus>) -> Seq<FileStatusV> {
    s.map_values(|f: FileStatus| f@)
}

/// One commit of the history list.
#[derive(Clone, Debug)]
pub struct CommitInfo {
    pub hash: String,
    pub short_hash: String,
    pub author: String,
    pub email: String,
    pub date: String,
    pub subject: String,
    pub additions: u32,
    pub deletions: u32,
    pub parents: Vec<String>,
    pub refs: Vec<String>,
}

/// One hunk of a diff: its header numbers and its text from the `@@` line on.
#[derive(Clone, PartialEq, Eq, Debug)]
pub struct Hunk {
    pub index: usize,
    pub old_start: u32,
    pub old_lines: u32,
    pub new_start: u32,
    pub new_lines: u32,
    pub text: String,
}

/// The view of a `Hunk`.
pub struct HunkV {
    pub index: nat,
    pub old_start: u32,
    pub old_lines: u32,
    pub new_start: u32,
    pub new_lines: u32,
    pub text: Seq<char>,
}

impl View for Hunk {
    type V = HunkV;

    open spec fn view(&self) -> HunkV {
        HunkV {
            index: self.index as nat,
            old_start: self.old_start,
            old_lines: self.old_lines,
            new_start: self.new_start,
            new_lines: self.new_lines,
            text: self.text@,
        }
    }
}

/// The views of a sequence of hunks.
pub open spec fn hunk_views(s: Seq<Hunk>) -> Seq<HunkV> {
    s.map_values(|h: Hunk| h@)
}

/// Both sides of a file's change, or the reason they are not shown.
#[derive(Clone, Debug)]
pub struct FileDiff {
    pub original: Option<String>,
    pub modified: Option<String>,
    pub is_binary: bool,
    pub too_large: bool,
    pub file_header: String,
    pub hunks: Vec<Hunk>,
}

/// The view of a `FileDiff`.
pub struct FileDiffV {
    pub original: Option<Seq<char>>,
    pub modified: Option<Seq<char>>,
    pub is_binary: bool,
    pub too_large: bool,
    pub file_header: Seq<char>,
    pub hunks: Seq<HunkV>,
}

impl View for FileDiff {
    type V = FileDiffV;

    open spec fn view(&self) -> FileDiffV {
        FileDiffV {
            original: opt_view(self.original),
            modified: opt_view(self.modified),
            is_binary: self.is_binary,
            too_large: self.too_large,
            file_header: self.file_header@,
            hunks: hunk_views(self.hunks@),
        }
    }
}

/// One recorded git invocation.
#[derive(Clone, Debug)]
pub struct ConsoleEntry {
    pub root: String,
    pub args: String,
    pub ok: bool,
    pub at_ms: u64,
}

/// One line found by a text search.
#[derive(Clone, PartialEq, Eq, Debug)]
pub struct SearchHit {
    pub path: String,
    pub line: u32,
    pub text: String,
}

/// How many files a replace touched and how many replacements it made.
#[derive(Clone, Copy, PartialEq, Eq, Debug, Structural)]
pub struct ReplaceResult {
    pub files: u32,
    pub replacements: u32,
}

/// Data URLs of an image before and after a change.
#[derive(Clone, Debug)]
pub struct ImageDiff {
    pub original: Option<String>,
    pub modified: Option<String>,
}

/// A worktree file's text, or the reason it is not shown.
#[derive(Clone, Debug)]
pub struct FileContent {
    pub content: Option<String>,
    pub is_binary: bool,
    pub too_large: bool,
}

/// Lines and files of one language.
#[derive(Clone, Debug)]
pub struct LangStat {
    pub language: String,
    pub color: String,
    pub lines: u64,
    pub files: u32,
}

/// What a repository is made of.
#[derive(Clone, Debug)]
pub struct RepoStats {
    pub total_files: u32,
    pub total_lines: u64,
    pub languages: Vec<LangStat>,
    pub skipped_binary: u32,
    pub skipped_too_large: u32,
}

/// Filesystem facts about one path.
#[derive(Clone, Debug)]
pub struct FileInfo {
    pub name: String,
    pub path: String,
    pub full_path: String,
    pub exists: bool,
    pub is_dir: bool,
    pub is_symlink: bool,
    pub size: u64,
    pub readonly: bool,
    pub modified: Option<u64>,
    pub created: Option<u64>,
    pub lines: Option<u32>,
}

/// A commit author with the number of their commits.
#[derive(Clone, PartialEq, Debug)]
pub struct AuthorInfo {
    pub name: String,
    pub email: String,
    pub commits: u32,
}

/// The blame of one line.
#[derive(Clone, Debug)]
pub struct BlameLine {
    pub hash: String,
    pub author: String,
    pub time: i64,
    pub summary: String,
    pub committed: bool,
}

/// One stash entry.
#[derive(Clone, PartialEq, Debug)]
pub struct StashInfo {
    pub index: u32,
    pub message: String,
    pub date: String,
    pub hash: String,
    pub untracked_hash: Option<String>,
}

/// One local or remote-tracking branch.
#[derive(Clone, PartialEq, Debug)]
pub struct BranchInfo {
    pub name: String,
    pub is_current: bool,
    pub is_remote: bool,
    pub upstream: Option<String>,
    pub ahead: Option<u32>,
    pub behind: Option<u32>,
}

/// One remote and its URL.
#[derive(Clone, PartialEq, Eq, Debug)]
pub struct RemoteInfo {
    pub name: String,
    pub url: String,
}

/// How hard a push may overwrite the remote; `Normal` is a plain push.
#[derive(Clone, Copy, PartialEq, Eq, Debug, Structural)]
pub enum ForceMode {
    Normal,
    Lease,
    Force,
}

/// Whether a history operation applied or stopped on a conflict.
#[derive(Clone, Copy, PartialEq, Eq, Debug, Structural)]
pub enum OpOutcome {
    Applied,
    Conflict,
}

/// The kind of `git reset`.
#[derive(Clone, Copy, PartialEq, Eq, Debug, Structural)]
pub enum ResetMode {
    Soft,
    Mixed,
    Hard,
}

/// The three versions of a conflicted path.
#[derive(Clone, Debug)]
pub struct ConflictSides {
    pub base: Option<String>,
    pub ours: Option<String>,
    pub theirs: Option<String>,
    pub is_binary: bool,
    pub too_large: bool,
}

/// Which side a binary conflict keeps.
#[derive(Clone, Copy, PartialEq, Eq, Debug, Structural)]
pub enum ConflictTake {
    Ours,
    Theirs,
}

} // verus!
