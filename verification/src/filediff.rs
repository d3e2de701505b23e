//! Building the two sides of one file's change for the diff view, as a
//! conversation with git and the filesystem: the job says what it needs
//! next (a size, a diff, a blob, a file), is handed the answer, and in the
//! end gives the diff or the error.
use vstd::prelude::*;
use vstd::utf8::{decode_utf8, valid_utf8};
use crate::commands::{concat, own};
use crate::diff::{parse_diff, parse_diff_spec, MAX_FILE_SIZE};
use crate::lang::looks_binary;
use crate::listing::untracked_diff;
use crate::ops::{file_diff_args, index_path, rev_path};
use crate::repo::{base_ref, decode_text, exceeds_size_limit, over_size_limit, parent_ref, EMPTY_TREE};
use crate::text::{chars_of, push_all, string_views};
use crate::types::{ChangeKind, FileDiff, FileDiffV, Hunk, HunkV, hunk_views, opt_view};

verus! {

/// Which two versions of a file are compared.
pub enum DiffSource {
    /// The index against HEAD (the staged change).
    Index,
    /// The worktree against the index (the unstaged change).
    Worktree,
    /// A commit against its first parent.
    Commit(String),
}

pub enum SourceV {
    Index,
    Worktree,
    Commit(Seq<char>),
}

pub open spec fn source_view(s: DiffSource) -> SourceV {
    match s {
        DiffSource::Index => SourceV::Index,
        DiffSource::Worktree => SourceV::Worktree,
        DiffSource::Commit(h) => SourceV::Commit(h@),
    }
}

/// Where a job stands: what it has asked for last.
#[derive(Clone, Copy, PartialEq, Eq, Debug, Structural)]
pub enum DiffStage {
    UntrackedSize,
    UntrackedText,
    Refreshed,
    OldBase,
    NewSize,
    OldSize,
    DiffBase,
    DiffOutput,
    OldText,
    NewText,
    CommitParent,
    Finished,
}

/// What a job needs next.
#[derive(Debug)]
pub enum DiffNeed {
    /// The index's stat cache refreshed; answered by `Nothing`.
    Refresh,
    /// Whether the repository has a commit; answered by `Flag`.
    HeadExists,
    /// Whether this revision exists; answered by `Flag`.
    RevExists(String),
    /// What `git cat-file -s` says of this blob; answered by `Text`.
    BlobSize(String),
    /// The worktree file's size, or the error of reading its metadata;
    /// answered by `Size`.
    FileSize,
    /// The output of `git` with these arguments; answered by `Bytes`.
    Run(Vec<String>),
    /// The output of `git show` of this blob; answered by `Bytes`.
    Blob(String),
    /// The worktree file's bytes, or the error of reading it; answered by
    /// `Bytes`.
    File,
    /// Nothing: the diff, or the error.
    Done(Result<FileDiff, String>),
}

pub enum NeedV {
    Refresh,
    HeadExists,
    RevExists(Seq<char>),
    BlobSize(Seq<char>),
    FileSize,
    Run(Seq<Seq<char>>),
    Blob(Seq<char>),
    File,
    Done(Result<FileDiffV, Seq<char>>),
}

pub open spec fn need_view(n: DiffNeed) -> NeedV {
    match n {
        DiffNeed::Refresh => NeedV::Refresh,
        DiffNeed::HeadExists => NeedV::HeadExists,
        DiffNeed::RevExists(r) => NeedV::RevExists(r@),
        DiffNeed::BlobSize(b) => NeedV::BlobSize(b@),
        DiffNeed::FileSize => NeedV::FileSize,
        DiffNeed::Run(a) => NeedV::Run(string_views(a@)),
        DiffNeed::Blob(b) => NeedV::Blob(b@),
        DiffNeed::File => NeedV::File,
        DiffNeed::Done(r) => NeedV::Done(
            match r {
                Ok(d) => Ok(d@),
                Err(e) => Err(e@),
            },
        ),
    }
}

/// The answer to what a job needed.
#[derive(Debug)]
pub enum DiffAnswer {
    Nothing,
    Flag(bool),
    Text(Result<String, String>),
    Size(Result<u64, String>),
    Bytes(Result<Vec<u8>, String>),
}

/// One file's diff being built.
pub struct FileDiffJob {
    source: DiffSource,
    path: String,
    old_path: Option<String>,
    kind: ChangeKind,
    stage: DiffStage,
    old_spec: String,
    new_spec: String,
    header: String,
    hunks: Vec<Hunk>,
    binary: bool,
    original: Option<String>,
    modified: Option<String>,
}

pub struct JobV {
    pub source: SourceV,
    pub path: Seq<char>,
    pub old_path: Option<Seq<char>>,
    pub kind: ChangeKind,
    pub stage: DiffStage,
    pub old_spec: Seq<char>,
    pub new_spec: Seq<char>,
    pub header: Seq<char>,
    pub hunks: Seq<HunkV>,
    pub binary: bool,
    pub original: Option<Seq<char>>,
    pub modified: Option<Seq<char>>,
}

impl View for FileDiffJob {
    type V = JobV;

    closed spec fn view(&self) -> JobV {
        JobV {
            source: source_view(self.source),
            path: self.path@,
            old_path: opt_view(self.old_path),
            kind: self.kind,
            stage: self.stage,
            old_spec: self.old_spec@,
            new_spec: self.new_spec@,
            header: self.header@,
            hunks: hunk_views(self.hunks@),
            binary: self.binary,
            original: opt_view(self.original),
            modified: opt_view(self.modified),
        }
    }
}

// ---- the rules, over plain values ----

/// The path of the file on the old side: a rename's old path.
pub open spec fn head_rel(j: JobV) -> Seq<char> {
    match j.old_path {
        Some(o) => o,
        None => j.path,
    }
}

/// The base of a staged diff: HEAD, or the empty tree without a commit.
pub open spec fn base_of(head_exists: bool) -> Seq<char> {
    if head_exists {
        "HEAD"@
    } else {
        EMPTY_TREE@
    }
}

/// The error of a worktree file that could not be read.
pub open spec fn read_error(path: Seq<char>, e: Seq<char>) -> Seq<char> {
    "无法读取 "@ + path + ": "@ + e
}

pub open spec fn too_large_v() -> FileDiffV {
    FileDiffV {
        original: None,
        modified: None,
        is_binary: false,
        too_large: true,
        file_header: Seq::<char>::empty(),
        hunks: Seq::<HunkV>::empty(),
    }
}

pub open spec fn binary_v() -> FileDiffV {
    FileDiffV {
        original: None,
        modified: None,
        is_binary: true,
        too_large: false,
        file_header: Seq::<char>::empty(),
        hunks: Seq::<HunkV>::empty(),
    }
}

/// An untracked file's diff: its text as the new side, or binary.
pub open spec fn untracked_v(b: Seq<u8>) -> FileDiffV {
    if looks_binary(b) || !valid_utf8(b) {
        binary_v()
    } else {
        FileDiffV {
            original: None,
            modified: Some(decode_utf8(b)),
            is_binary: false,
            too_large: false,
            file_header: Seq::<char>::empty(),
            hunks: Seq::<HunkV>::empty(),
        }
    }
}

/// The arguments of the working diff (see `ops::file_diff_args`).
pub open spec fn diff_args_v(staged: bool, base: Seq<char>, path: Seq<char>, old_path: Option<Seq<char>>) -> Seq<
    Seq<char>,
> {
    seq!["diff"@] + (if staged {
        seq!["--cached"@, base]
    } else {
        Seq::<Seq<char>>::empty()
    }) + seq!["--no-color"@, "--no-ext-diff"@, "--unified=3"@, "-M"@, "--"@] + match old_path {
        Some(o) => seq![o],
        None => Seq::<Seq<char>>::empty(),
    } + seq![path]
}

pub open spec fn at(j: JobV, stage: DiffStage) -> JobV {
    JobV { stage, ..j }
}

/// The job ends with `r`.
pub open spec fn done(j: JobV, r: Result<FileDiffV, Seq<char>>) -> (JobV, NeedV) {
    (at(j, DiffStage::Finished), NeedV::Done(r))
}

/// Both sides are in: binary, or the texts with the header and hunks.
pub open spec fn finish(j: JobV) -> (JobV, NeedV) {
    done(
        j,
        Ok(
            if j.binary {
                binary_v()
            } else {
                FileDiffV {
                    original: j.original,
                    modified: j.modified,
                    is_binary: false,
                    too_large: false,
                    file_header: j.header,
                    hunks: j.hunks,
                }
            },
        ),
    )
}

/// The new side's text is read unless the file is binary or deleted:
/// from the worktree for the unstaged diff, from a blob otherwise.
pub open spec fn new_text(j: JobV) -> (JobV, NeedV) {
    if !j.binary && j.kind != ChangeKind::Deleted {
        if j.source is Worktree {
            (at(j, DiffStage::NewText), NeedV::File)
        } else {
            (at(j, DiffStage::NewText), NeedV::Blob(j.new_spec))
        }
    } else {
        finish(j)
    }
}

/// The old side's text is read unless the file is binary or new.
pub open spec fn old_text(j: JobV) -> (JobV, NeedV) {
    if !j.binary && j.kind != ChangeKind::Added && j.kind != ChangeKind::Untracked {
        (at(j, DiffStage::OldText), NeedV::Blob(j.old_spec))
    } else {
        new_text(j)
    }
}

/// The working diff runs: against the base for the staged diff (asked
/// for first), against the index otherwise.
pub open spec fn run_diff(j: JobV) -> (JobV, NeedV) {
    if j.source is Index {
        (at(j, DiffStage::DiffBase), NeedV::HeadExists)
    } else {
        (
            at(j, DiffStage::DiffOutput),
            NeedV::Run(diff_args_v(false, Seq::<char>::empty(), j.path, j.old_path)),
        )
    }
}

/// The old blob's size is checked unless the file is new.
pub open spec fn work_old_size(j: JobV) -> (JobV, NeedV) {
    if j.kind != ChangeKind::Added {
        (at(j, DiffStage::OldSize), NeedV::BlobSize(j.old_spec))
    } else {
        run_diff(j)
    }
}

/// The new side's size is checked unless the file is deleted: the index
/// blob's for the staged diff, the worktree file's for the unstaged one.
pub open spec fn work_new_size(j: JobV) -> (JobV, NeedV) {
    if j.kind != ChangeKind::Deleted {
        if j.source is Index {
            (at(j, DiffStage::NewSize), NeedV::BlobSize(j.new_spec))
        } else {
            (at(j, DiffStage::NewSize), NeedV::FileSize)
        }
    } else {
        work_old_size(j)
    }
}

/// In a commit, the new blob's size is checked unless the file is deleted.
pub open spec fn commit_new_size(j: JobV) -> (JobV, NeedV) {
    if j.kind != ChangeKind::Deleted {
        (at(j, DiffStage::NewSize), NeedV::BlobSize(j.new_spec))
    } else {
        old_text(j)
    }
}

/// In a commit, the old blob's size is checked first, unless the file is
/// new.
pub open spec fn commit_old_size(j: JobV) -> (JobV, NeedV) {
    if j.kind != ChangeKind::Added && j.kind != ChangeKind::Untracked {
        (at(j, DiffStage::OldSize), NeedV::BlobSize(j.old_spec))
    } else {
        commit_new_size(j)
    }
}

/// A job for the change of `path` (of `kind`, renamed from `old_path`)
/// between the versions `source` names, and what it needs first.
pub open spec fn start_spec(source: SourceV, path: Seq<char>, old_path: Option<Seq<char>>, kind: ChangeKind) -> (
    JobV,
    NeedV,
) {
    let j = JobV {
        source,
        path,
        old_path,
        kind,
        stage: DiffStage::Finished,
        old_spec: Seq::<char>::empty(),
        new_spec: Seq::<char>::empty(),
        header: Seq::<char>::empty(),
        hunks: Seq::<HunkV>::empty(),
        binary: false,
        original: None,
        modified: None,
    };
    match source {
        SourceV::Commit(h) => (at(j, DiffStage::CommitParent), NeedV::RevExists(h + "^1"@)),
        _ => if kind == ChangeKind::Untracked {
            (at(j, DiffStage::UntrackedSize), NeedV::FileSize)
        } else {
            (at(j, DiffStage::Refreshed), NeedV::Refresh)
        },
    }
}

/// Whether `a` answers what a job at `j` asked for.
pub open spec fn fits(j: JobV, a: DiffAnswer) -> bool {
    match j.stage {
        DiffStage::UntrackedSize => a is Size,
        DiffStage::UntrackedText => a is Bytes,
        DiffStage::Refreshed => a is Nothing,
        DiffStage::OldBase => a is Flag,
        DiffStage::NewSize => if j.source is Worktree {
            a is Size
        } else {
            a is Text
        },
        DiffStage::OldSize => a is Text,
        DiffStage::DiffBase => a is Flag,
        DiffStage::DiffOutput => a is Bytes,
        DiffStage::OldText => a is Bytes,
        DiffStage::NewText => a is Bytes,
        DiffStage::CommitParent => a is Flag,
        DiffStage::Finished => false,
    }
}

/// Where a job goes with an answer, and what it needs then.
pub open spec fn advance(j: JobV, a: DiffAnswer) -> (JobV, NeedV) {
    match j.stage {
        DiffStage::UntrackedSize => match a {
            DiffAnswer::Size(Err(e)) => done(j, Err(read_error(j.path, e@))),
            DiffAnswer::Size(Ok(n)) => if n > MAX_FILE_SIZE {
                done(j, Ok(too_large_v()))
            } else {
                (at(j, DiffStage::UntrackedText), NeedV::File)
            },
            _ => (j, NeedV::File),
        },
        DiffStage::UntrackedText => match a {
            DiffAnswer::Bytes(Err(e)) => done(j, Err(read_error(j.path, e@))),
            DiffAnswer::Bytes(Ok(b)) => done(j, Ok(untracked_v(b@))),
            _ => (j, NeedV::File),
        },
        DiffStage::Refreshed => if j.source is Index {
            (at(j, DiffStage::OldBase), NeedV::HeadExists)
        } else {
            work_new_size(JobV { old_spec: ":"@ + j.path, new_spec: ":"@ + j.path, ..j })
        },
        DiffStage::OldBase => match a {
            DiffAnswer::Flag(h) => work_new_size(
                JobV { old_spec: base_of(h) + ":"@ + head_rel(j), new_spec: ":"@ + j.path, ..j },
            ),
            _ => (j, NeedV::HeadExists),
        },
        DiffStage::NewSize => {
            let big = match a {
                DiffAnswer::Text(r) => over_size_limit(r),
                DiffAnswer::Size(Ok(n)) => n > MAX_FILE_SIZE,
                _ => false,
            };
            if big {
                done(j, Ok(too_large_v()))
            } else if j.source is Commit {
                old_text(j)
            } else {
                work_old_size(j)
            }
        },
        DiffStage::OldSize => {
            let big = match a {
                DiffAnswer::Text(r) => over_size_limit(r),
                _ => false,
            };
            if big {
                done(j, Ok(too_large_v()))
            } else if j.source is Commit {
                commit_new_size(j)
            } else {
                run_diff(j)
            }
        },
        DiffStage::DiffBase => match a {
            DiffAnswer::Flag(h) => (
                at(j, DiffStage::DiffOutput),
                NeedV::Run(diff_args_v(true, base_of(h), j.path, j.old_path)),
            ),
            _ => (j, NeedV::HeadExists),
        },
        DiffStage::DiffOutput => match a {
            DiffAnswer::Bytes(Err(e)) => done(j, Err(e@)),
            DiffAnswer::Bytes(Ok(b)) => if valid_utf8(b@) {
                let p = parse_diff_spec(decode_utf8(b@));
                old_text(JobV { header: p.0, hunks: p.1, binary: p.2, ..j })
            } else {
                old_text(JobV { binary: true, ..j })
            },
            _ => (j, NeedV::File),
        },
        DiffStage::OldText => match a {
            DiffAnswer::Bytes(Err(e)) => done(j, Err(e@)),
            DiffAnswer::Bytes(Ok(b)) => if valid_utf8(b@) {
                new_text(JobV { original: Some(decode_utf8(b@)), ..j })
            } else {
                new_text(JobV { binary: true, ..j })
            },
            _ => (j, NeedV::File),
        },
        DiffStage::NewText => match a {
            DiffAnswer::Bytes(Err(e)) => if j.source is Worktree {
                done(j, Err(read_error(j.path, e@)))
            } else {
                done(j, Err(e@))
            },
            DiffAnswer::Bytes(Ok(b)) => if valid_utf8(b@) {
                finish(JobV { modified: Some(decode_utf8(b@)), ..j })
            } else {
                finish(JobV { binary: true, ..j })
            },
            _ => (j, NeedV::File),
        },
        DiffStage::CommitParent => match a {
            DiffAnswer::Flag(p) => {
                let h = match j.source {
                    SourceV::Commit(h) => h,
                    _ => Seq::<char>::empty(),
                };
                let parent = if p {
                    h + "^1"@
                } else {
                    EMPTY_TREE@
                };
                commit_old_size(
                    JobV { old_spec: parent + ":"@ + head_rel(j), new_spec: h + ":"@ + j.path, ..j },
                )
            },
            _ => (j, NeedV::HeadExists),
        },
        DiffStage::Finished => (j, NeedV::File),
    }
}


/// The stages a job of `source` passes, as numbers in the order it passes
/// them; none for a stage it never reaches.
pub open spec fn stage_rank(source: SourceV, stage: DiffStage) -> Option<int> {
    match source {
        SourceV::Commit(_) => match stage {
            DiffStage::CommitParent => Some(0),
            DiffStage::OldSize => Some(1),
            DiffStage::NewSize => Some(2),
            DiffStage::OldText => Some(3),
            DiffStage::NewText => Some(4),
            DiffStage::Finished => Some(5),
            _ => None,
        },
        _ => match stage {
            DiffStage::UntrackedSize => Some(0),
            DiffStage::UntrackedText => Some(1),
            DiffStage::Refreshed => Some(2),
            DiffStage::OldBase => Some(3),
            DiffStage::NewSize => Some(4),
            DiffStage::OldSize => Some(5),
            DiffStage::DiffBase => Some(6),
            DiffStage::DiffOutput => Some(7),
            DiffStage::OldText => Some(8),
            DiffStage::NewText => Some(9),
            DiffStage::Finished => Some(10),
            DiffStage::CommitParent => None,
        },
    }
}

/// A step from `j` to `n` moves on: the new stage is one the job passes,
/// later than the old, and the job says it is done exactly when it is
/// finished.
pub open spec fn moves_on(j: JobV, n: (JobV, NeedV)) -> bool {
    &&& n.0.source == j.source
    &&& stage_rank(n.0.source, n.0.stage) is Some
    &&& stage_rank(n.0.source, n.0.stage)->0 > stage_rank(j.source, j.stage)->0
    &&& (n.0.stage == DiffStage::Finished <==> n.1 is Done)
}

/// Every step of a job started by `start_spec` is one the job passes, and
/// every answer that fits moves it to a later one: a job asks at most ten
/// questions and then says it is done.
pub proof fn law_diff_job_moves_on(j: JobV, a: DiffAnswer)
    requires
        stage_rank(j.source, j.stage) is Some,
        fits(j, a),
    ensures
        moves_on(j, advance(j, a)),
{
}

/// A job starts at a stage it passes, not yet done.
pub proof fn law_diff_job_starts(source: SourceV, path: Seq<char>, old_path: Option<Seq<char>>, kind: ChangeKind)
    ensures
        stage_rank(start_spec(source, path, old_path, kind).0.source, start_spec(source, path, old_path, kind).0.stage) is Some,
        start_spec(source, path, old_path, kind).0.stage != DiffStage::Finished,
        !(start_spec(source, path, old_path, kind).1 is Done),
{
}

/// A commit's file diff carries no header and no hunks: a commit job
/// starts without them, no answer gives it any, and what it ends with has
/// none.
pub proof fn law_commit_diff_has_no_hunks(j: JobV, a: DiffAnswer)
    requires
        j.source is Commit,
        stage_rank(j.source, j.stage) is Some,
        j.header == Seq::<char>::empty(),
        j.hunks == Seq::<HunkV>::empty(),
    ensures
        advance(j, a).0.header == Seq::<char>::empty(),
        advance(j, a).0.hunks == Seq::<HunkV>::empty(),
        match advance(j, a).1 {
            NeedV::Done(Ok(d)) => d.file_header == Seq::<char>::empty() && d.hunks == Seq::<
                HunkV,
            >::empty(),
            _ => true,
        },
{
}

/// A commit job starts with no header and no hunks.
pub proof fn law_commit_diff_starts_empty(h: Seq<char>, path: Seq<char>, old_path: Option<Seq<char>>, kind: ChangeKind)
    ensures
        start_spec(SourceV::Commit(h), path, old_path, kind).0.header == Seq::<char>::empty(),
        start_spec(SourceV::Commit(h), path, old_path, kind).0.hunks == Seq::<HunkV>::empty(),
{
}

/// A job ends as too large only on the answer that gave a side's size past
/// 5 MiB: a file size past the limit, or a blob size that parses to one.
pub proof fn law_diff_too_large_only_past_limit(j: JobV, a: DiffAnswer)
    requires
        stage_rank(j.source, j.stage) is Some,
        fits(j, a),
        advance(j, a).1 == NeedV::Done(Ok(too_large_v())),
    ensures
        match a {
            DiffAnswer::Size(Ok(n)) => n > MAX_FILE_SIZE,
            DiffAnswer::Text(r) => over_size_limit(r),
            _ => false,
        },
{
}

/// A job becomes binary only on bytes that are not UTF-8 or on a diff that
/// git marks binary, and it ends as binary only when it became so, or, for
/// an untracked file, on bytes that look binary or are not UTF-8. A job
/// starts as not binary.
pub proof fn law_diff_binary_only_on_bytes(j: JobV, a: DiffAnswer)
    requires
        stage_rank(j.source, j.stage) is Some,
        fits(j, a),
    ensures
        advance(j, a).0.binary && !j.binary ==> match a {
            DiffAnswer::Bytes(Ok(b)) => !valid_utf8(b@) || parse_diff_spec(decode_utf8(b@)).2,
            _ => false,
        },
        match advance(j, a).1 {
            NeedV::Done(Ok(d)) => d.is_binary ==> advance(j, a).0.binary || (j.stage
                == DiffStage::UntrackedText && match a {
                DiffAnswer::Bytes(Ok(b)) => looks_binary(b@) || !valid_utf8(b@),
                _ => false,
            }),
            _ => true,
        },
{
}

/// A job starts as not binary.
pub proof fn law_diff_job_starts_text(source: SourceV, path: Seq<char>, old_path: Option<Seq<char>>, kind: ChangeKind)
    ensures
        !start_spec(source, path, old_path, kind).0.binary,
{
}

/// A job at `j`, having asked `n`, handed the answers `answers` in turn:
/// where it ends and what it asks or says last. Answers past its end are not
/// read.
pub open spec fn run_answers(j: JobV, n: NeedV, answers: Seq<DiffAnswer>) -> (JobV, NeedV)
    decreases answers.len(),
{
    if answers.len() == 0 || n is Done {
        (j, n)
    } else {
        let s = advance(j, answers[0]);
        run_answers(s.0, s.1, answers.drop_first())
    }
}

/// Each answer of `answers` that the job reads answers what it asked.
pub open spec fn answers_fit(j: JobV, n: NeedV, answers: Seq<DiffAnswer>) -> bool
    decreases answers.len(),
{
    if answers.len() == 0 || n is Done {
        true
    } else {
        let s = advance(j, answers[0]);
        fits(j, answers[0]) && answers_fit(s.0, s.1, answers.drop_first())
    }
}

/// An answer that gives a side's size past 5 MiB.
pub open spec fn past_limit(a: DiffAnswer) -> bool {
    match a {
        DiffAnswer::Size(Ok(n)) => n > MAX_FILE_SIZE,
        DiffAnswer::Text(r) => over_size_limit(r),
        _ => false,
    }
}

/// An answer of bytes that are not UTF-8, that look binary, or whose diff
/// git marks binary.
pub open spec fn binary_answer(a: DiffAnswer) -> bool {
    match a {
        DiffAnswer::Bytes(Ok(b)) => !valid_utf8(b@) || looks_binary(b@) || parse_diff_spec(
            decode_utf8(b@),
        ).2,
        _ => false,
    }
}

proof fn lemma_run(j: JobV, n: NeedV, answers: Seq<DiffAnswer>)
    requires
        stage_rank(j.source, j.stage) is Some,
        j.stage == DiffStage::Finished <==> n is Done,
        answers_fit(j, n, answers),
    ensures
        run_answers(j, n, answers).1 == NeedV::Done(Ok(too_large_v())) && !(n is Done) ==> exists|k: int|
            0 <= k < answers.len() && past_limit(#[trigger] answers[k]),
        run_answers(j, n, answers).0.binary ==> j.binary || exists|k: int|
            0 <= k < answers.len() && binary_answer(#[trigger] answers[k]),
        !(n is Done) ==> match run_answers(j, n, answers).1 {
            NeedV::Done(Ok(d)) => d.is_binary ==> j.binary || exists|k: int|
                0 <= k < answers.len() && binary_answer(#[trigger] answers[k]),
            _ => true,
        },
    decreases answers.len(),
{
    if answers.len() > 0 && !(n is Done) {
        let a = answers[0];
        let s = advance(j, a);
        let rest = answers.drop_first();
        law_diff_job_moves_on(j, a);
        law_diff_binary_only_on_bytes(j, a);
        lemma_run(s.0, s.1, rest);
        assert forall|k: int| 0 <= k < rest.len() implies #[trigger] rest[k] == answers[k + 1] by {}
        if s.1 is Done {
            assert(rest.len() == 0 || s.1 is Done);
            assert(run_answers(s.0, s.1, rest) == s);
            if s.1 == NeedV::Done(Ok(too_large_v())) {
                law_diff_too_large_only_past_limit(j, a);
                assert(past_limit(answers[0]));
            }
        }
        if s.0.binary && !j.binary {
            assert(binary_answer(answers[0]));
        }
        if exists|k: int| 0 <= k < rest.len() && binary_answer(#[trigger] rest[k]) {
            let k = choose|k: int| 0 <= k < rest.len() && binary_answer(#[trigger] rest[k]);
            assert(binary_answer(answers[k + 1]));
        }
        if exists|k: int| 0 <= k < rest.len() && past_limit(#[trigger] rest[k]) {
            let k = choose|k: int| 0 <= k < rest.len() && past_limit(#[trigger] rest[k]);
            assert(past_limit(answers[k + 1]));
        }
        match s.1 {
            NeedV::Done(Ok(d)) => {
                if d.is_binary && !s.0.binary {
                    assert(binary_answer(answers[0]));
                }
            },
            _ => {},
        }
    }
}

/// Over a whole run from its start, a job ends as too large only if some
/// answer gave a side's size past 5 MiB, and ends as binary only if some
/// answer held bytes that are not UTF-8, that look binary, or whose diff git
/// marks binary.
pub proof fn law_diff_run_outcomes(
    source: SourceV,
    path: Seq<char>,
    old_path: Option<Seq<char>>,
    kind: ChangeKind,
    answers: Seq<DiffAnswer>,
)
    requires
        answers_fit(
            start_spec(source, path, old_path, kind).0,
            start_spec(source, path, old_path, kind).1,
            answers,
        ),
    ensures
        ({
            let st = start_spec(source, path, old_path, kind);
            let end = run_answers(st.0, st.1, answers).1;
            &&& end == NeedV::Done(Ok(too_large_v())) ==> exists|k: int|
                0 <= k < answers.len() && past_limit(#[trigger] answers[k])
            &&& match end {
                NeedV::Done(Ok(d)) => d.is_binary ==> exists|k: int|
                    0 <= k < answers.len() && binary_answer(#[trigger] answers[k]),
                _ => true,
            }
        }),
{
    let st = start_spec(source, path, old_path, kind);
    law_diff_job_starts(source, path, old_path, kind);
    law_diff_job_starts_text(source, path, old_path, kind);
    lemma_run(st.0, st.1, answers);
}

/// A stage at which a job asks for a side's size.
pub open spec fn size_stage(s: DiffStage) -> bool {
    s == DiffStage::UntrackedSize || s == DiffStage::NewSize || s == DiffStage::OldSize
}

/// On each step a job ends as too large exactly when it asked for a side's
/// size and the answer is past 5 MiB.
pub proof fn law_diff_too_large_exactly(j: JobV, a: DiffAnswer)
    requires
        stage_rank(j.source, j.stage) is Some,
        fits(j, a),
    ensures
        advance(j, a).1 == NeedV::Done(Ok(too_large_v())) <==> size_stage(j.stage) && past_limit(a),
{
}

/// On each step a job not yet binary ends as binary exactly when it was
/// handed bytes that make a side binary: an untracked file's bytes that look
/// binary or are not UTF-8, the diff's, the old or the new side's bytes that
/// are not UTF-8, or a diff that git marks binary.
pub proof fn law_diff_binary_exactly(j: JobV, a: DiffAnswer)
    requires
        stage_rank(j.source, j.stage) is Some,
        fits(j, a),
        !j.binary,
    ensures
        advance(j, a).1 == NeedV::Done(Ok(binary_v())) <==> match a {
            DiffAnswer::Bytes(Ok(b)) => (j.stage == DiffStage::UntrackedText && (looks_binary(b@)
                || !valid_utf8(b@))) || ((j.stage == DiffStage::DiffOutput || j.stage
                == DiffStage::OldText || j.stage == DiffStage::NewText) && !valid_utf8(b@)) || (j.stage
                == DiffStage::DiffOutput && valid_utf8(b@) && parse_diff_spec(decode_utf8(b@)).2),
            _ => false,
        },
{
}

pub open spec fn result_view(r: Result<FileDiff, String>) -> Result<FileDiffV, Seq<char>> {
    match r {
        Ok(d) => Ok(d@),
        Err(e) => Err(e@),
    }
}

fn read_error_exec(path: &str, e: &str) -> (r: String)
    ensures
        r@ == read_error(path@, e@),
{
    let mut m = concat("无法读取 ", path);
    push_all(&mut m, &chars_of(": "));
    push_all(&mut m, &chars_of(e));
    m
}

fn too_large_diff() -> (d: FileDiff)
    ensures
        d@ == too_large_v(),
{
    let d = FileDiff::too_large();
    assert(d.file_header@ =~= Seq::<char>::empty());
    assert(hunk_views(d.hunks@) =~= Seq::<HunkV>::empty());
    d
}

fn binary_diff() -> (d: FileDiff)
    ensures
        d@ == binary_v(),
{
    let d = FileDiff::binary();
    assert(d.file_header@ =~= Seq::<char>::empty());
    assert(hunk_views(d.hunks@) =~= Seq::<HunkV>::empty());
    d
}

fn copy_hunks(hs: &Vec<Hunk>) -> (r: Vec<Hunk>)
    ensures
        hunk_views(r@) == hunk_views(hs@),
{
    let mut r: Vec<Hunk> = Vec::new();
    let mut i: usize = 0;
    while i < hs.len()
        invariant
            0 <= i <= hs.len(),
            hunk_views(r@) == hunk_views(hs@).take(i as int),
        decreases hs.len() - i,
    {
        let h = &hs[i];
        let c = Hunk {
            index: h.index,
            old_start: h.old_start,
            old_lines: h.old_lines,
            new_start: h.new_start,
            new_lines: h.new_lines,
            text: h.text.clone(),
        };
        let ghost before = hunk_views(r@);
        r.push(c);
        assert(hunk_views(r@) =~= before.push(hs@[i as int]@));
        assert(hunk_views(hs@).take(i as int + 1) =~= hunk_views(hs@).take(i as int).push(
            hs@[i as int]@,
        ));
        i += 1;
    }
    assert(hunk_views(hs@).take(hs.len() as int) =~= hunk_views(hs@));
    r
}

impl FileDiffJob {
    fn done(&mut self, r: Result<FileDiff, String>) -> (n: DiffNeed)
        ensures
            (final(self)@, need_view(n)) == done(old(self)@, result_view(r)),
    {
        self.stage = DiffStage::Finished;
        DiffNeed::Done(r)
    }

    fn finish(&mut self) -> (n: DiffNeed)
        ensures
            (final(self)@, need_view(n)) == finish(old(self)@),
    {
        if self.binary {
            self.done(Ok(binary_diff()))
        } else {
            let d = FileDiff {
                original: self.original.clone(),
                modified: self.modified.clone(),
                is_binary: false,
                too_large: false,
                file_header: self.header.clone(),
                hunks: copy_hunks(&self.hunks),
            };
            self.done(Ok(d))
        }
    }

    fn new_text(&mut self) -> (n: DiffNeed)
        ensures
            (final(self)@, need_view(n)) == new_text(old(self)@),
    {
        if !self.binary && self.kind != ChangeKind::Deleted {
            self.stage = DiffStage::NewText;
            match self.source {
                DiffSource::Worktree => DiffNeed::File,
                _ => DiffNeed::Blob(self.new_spec.clone()),
            }
        } else {
            self.finish()
        }
    }

    fn old_text(&mut self) -> (n: DiffNeed)
        ensures
            (final(self)@, need_view(n)) == old_text(old(self)@),
    {
        if !self.binary && self.kind != ChangeKind::Added && self.kind != ChangeKind::Untracked {
            self.stage = DiffStage::OldText;
            DiffNeed::Blob(self.old_spec.clone())
        } else {
            self.new_text()
        }
    }

    fn run_diff(&mut self) -> (n: DiffNeed)
        ensures
            (final(self)@, need_view(n)) == run_diff(old(self)@),
    {
        match self.source {
            DiffSource::Index => {
                self.stage = DiffStage::DiffBase;
                DiffNeed::HeadExists
            },
            _ => {
                self.stage = DiffStage::DiffOutput;
                let args = file_diff_args(false, "", self.path.as_str(), &self.old_path);
                proof {
                    reveal_strlit("");
                }
                assert(string_views(args@) =~= diff_args_v(false, Seq::<char>::empty(), self.path@, opt_view(self.old_path)));
                DiffNeed::Run(args)
            },
        }
    }

    fn work_old_size(&mut self) -> (n: DiffNeed)
        ensures
            (final(self)@, need_view(n)) == work_old_size(old(self)@),
    {
        if self.kind != ChangeKind::Added {
            self.stage = DiffStage::OldSize;
            DiffNeed::BlobSize(self.old_spec.clone())
        } else {
            self.run_diff()
        }
    }

    fn work_new_size(&mut self) -> (n: DiffNeed)
        ensures
            (final(self)@, need_view(n)) == work_new_size(old(self)@),
    {
        if self.kind != ChangeKind::Deleted {
            self.stage = DiffStage::NewSize;
            match self.source {
                DiffSource::Index => DiffNeed::BlobSize(self.new_spec.clone()),
                _ => DiffNeed::FileSize,
            }
        } else {
            self.work_old_size()
        }
    }

    fn commit_new_size(&mut self) -> (n: DiffNeed)
        ensures
            (final(self)@, need_view(n)) == commit_new_size(old(self)@),
    {
        if self.kind != ChangeKind::Deleted {
            self.stage = DiffStage::NewSize;
            DiffNeed::BlobSize(self.new_spec.clone())
        } else {
            self.old_text()
        }
    }

    fn commit_old_size(&mut self) -> (n: DiffNeed)
        ensures
            (final(self)@, need_view(n)) == commit_old_size(old(self)@),
    {
        if self.kind != ChangeKind::Added && self.kind != ChangeKind::Untracked {
            self.stage = DiffStage::OldSize;
            DiffNeed::BlobSize(self.old_spec.clone())
        } else {
            self.commit_new_size()
        }
    }

    /// Whether `a` answers what the job asked for last.
    pub fn fits(&self, a: &DiffAnswer) -> (b: bool)
        ensures
            b == fits(self@, *a),
    {
        match self.stage {
            DiffStage::UntrackedSize => matches!(a, DiffAnswer::Size(_)),
            DiffStage::UntrackedText => matches!(a, DiffAnswer::Bytes(_)),
            DiffStage::Refreshed => matches!(a, DiffAnswer::Nothing),
            DiffStage::OldBase => matches!(a, DiffAnswer::Flag(_)),
            DiffStage::NewSize => match self.source {
                DiffSource::Worktree => matches!(a, DiffAnswer::Size(_)),
                _ => matches!(a, DiffAnswer::Text(_)),
            },
            DiffStage::OldSize => matches!(a, DiffAnswer::Text(_)),
            DiffStage::DiffBase => matches!(a, DiffAnswer::Flag(_)),
            DiffStage::DiffOutput => matches!(a, DiffAnswer::Bytes(_)),
            DiffStage::OldText => matches!(a, DiffAnswer::Bytes(_)),
            DiffStage::NewText => matches!(a, DiffAnswer::Bytes(_)),
            DiffStage::CommitParent => matches!(a, DiffAnswer::Flag(_)),
            DiffStage::Finished => false,
        }
    }

    /// The job after the answer `a` to what it asked for, and what it needs
    /// next (see `advance`).
    pub fn answer(&mut self, a: DiffAnswer) -> (n: DiffNeed)
        requires
            fits(old(self)@, a),
        ensures
            (final(self)@, need_view(n)) == advance(old(self)@, a),
    {
        match self.stage {
            DiffStage::UntrackedSize => match a {
                DiffAnswer::Size(Err(e)) => {
                    let m = read_error_exec(self.path.as_str(), e.as_str());
                    self.done(Err(m))
                },
                DiffAnswer::Size(Ok(n)) => {
                    if n > MAX_FILE_SIZE {
                        self.done(Ok(too_large_diff()))
                    } else {
                        self.stage = DiffStage::UntrackedText;
                        DiffNeed::File
                    }
                },
                _ => DiffNeed::File,
            },
            DiffStage::UntrackedText => match a {
                DiffAnswer::Bytes(Err(e)) => {
                    let m = read_error_exec(self.path.as_str(), e.as_str());
                    self.done(Err(m))
                },
                DiffAnswer::Bytes(Ok(b)) => {
                    let ghost bv = b@;
                    let d = untracked_diff(b);
                    assert(d.file_header@ =~= Seq::<char>::empty());
                    assert(hunk_views(d.hunks@) =~= Seq::<HunkV>::empty());
                    assert(d@ == untracked_v(bv));
                    self.done(Ok(d))
                },
                _ => DiffNeed::File,
            },
            DiffStage::Refreshed => match self.source {
                DiffSource::Index => {
                    self.stage = DiffStage::OldBase;
                    DiffNeed::HeadExists
                },
                _ => {
                    self.old_spec = index_path(self.path.as_str());
                    self.new_spec = index_path(self.path.as_str());
                    self.work_new_size()
                },
            },
            DiffStage::OldBase => match a {
                DiffAnswer::Flag(h) => {
                    let base = base_ref(h);
                    self.old_spec = match &self.old_path {
                        Some(o) => rev_path(base.as_str(), o.as_str()),
                        None => rev_path(base.as_str(), self.path.as_str()),
                    };
                    self.new_spec = index_path(self.path.as_str());
                    self.work_new_size()
                },
                _ => DiffNeed::HeadExists,
            },
            DiffStage::NewSize => {
                let big = match a {
                    DiffAnswer::Text(r) => exceeds_size_limit(r),
                    DiffAnswer::Size(Ok(n)) => n > MAX_FILE_SIZE,
                    _ => false,
                };
                if big {
                    self.done(Ok(too_large_diff()))
                } else {
                    match self.source {
                        DiffSource::Commit(_) => self.old_text(),
                        _ => self.work_old_size(),
                    }
                }
            },
            DiffStage::OldSize => {
                let big = match a {
                    DiffAnswer::Text(r) => exceeds_size_limit(r),
                    _ => false,
                };
                if big {
                    self.done(Ok(too_large_diff()))
                } else {
                    match self.source {
                        DiffSource::Commit(_) => self.commit_new_size(),
                        _ => self.run_diff(),
                    }
                }
            },
            DiffStage::DiffBase => match a {
                DiffAnswer::Flag(h) => {
                    let base = base_ref(h);
                    self.stage = DiffStage::DiffOutput;
                    let args = file_diff_args(true, base.as_str(), self.path.as_str(), &self.old_path);
                    assert(string_views(args@) =~= diff_args_v(true, base_of(h), self.path@, opt_view(self.old_path)));
                    DiffNeed::Run(args)
                },
                _ => DiffNeed::HeadExists,
            },
            DiffStage::DiffOutput => match a {
                DiffAnswer::Bytes(Err(e)) => self.done(Err(e)),
                DiffAnswer::Bytes(Ok(b)) => {
                    let ghost bv = b@;
                    match decode_text(b) {
                        Some(t) => {
                            let (h, hs, bin) = parse_diff(t.as_str());
                            self.header = h;
                            self.hunks = hs;
                            self.binary = bin;
                        },
                        None => {
                            self.binary = true;
                        },
                    }
                    self.old_text()
                },
                _ => DiffNeed::File,
            },
            DiffStage::OldText => match a {
                DiffAnswer::Bytes(Err(e)) => self.done(Err(e)),
                DiffAnswer::Bytes(Ok(b)) => {
                    match decode_text(b) {
                        Some(t) => {
                            self.original = Some(t);
                        },
                        None => {
                            self.binary = true;
                        },
                    }
                    self.new_text()
                },
                _ => DiffNeed::File,
            },
            DiffStage::NewText => match a {
                DiffAnswer::Bytes(Err(e)) => match self.source {
                    DiffSource::Worktree => {
                        let m = read_error_exec(self.path.as_str(), e.as_str());
                        self.done(Err(m))
                    },
                    _ => self.done(Err(e)),
                },
                DiffAnswer::Bytes(Ok(b)) => {
                    match decode_text(b) {
                        Some(t) => {
                            self.modified = Some(t);
                        },
                        None => {
                            self.binary = true;
                        },
                    }
                    self.finish()
                },
                _ => DiffNeed::File,
            },
            DiffStage::CommitParent => match a {
                DiffAnswer::Flag(p) => {
                    let h = match &self.source {
                        DiffSource::Commit(h) => h.clone(),
                        _ => String::new(),
                    };
                    let parent = parent_ref(h.as_str(), p);
                    self.old_spec = match &self.old_path {
                        Some(o) => rev_path(parent.as_str(), o.as_str()),
                        None => rev_path(parent.as_str(), self.path.as_str()),
                    };
                    self.new_spec = rev_path(h.as_str(), self.path.as_str());
                    self.commit_old_size()
                },
                _ => DiffNeed::HeadExists,
            },
            DiffStage::Finished => DiffNeed::File,
        }
    }
}

/// Starts the diff of the change of `path` (of `kind`, renamed from
/// `old_path`) between the versions `source` names, with what it needs
/// first (see `start_spec`).
pub fn start_file_diff(source: DiffSource, path: String, old_path: Option<String>, kind: ChangeKind) -> (r: (
    FileDiffJob,
    DiffNeed,
))
    ensures
        (r.0@, need_view(r.1)) == start_spec(source_view(source), path@, opt_view(old_path), kind),
{
    let first = match &source {
        DiffSource::Commit(h) => {
            let mut spec = own(h.as_str());
            push_all(&mut spec, &chars_of("^1"));
            (DiffStage::CommitParent, DiffNeed::RevExists(spec))
        },
        _ => if kind == ChangeKind::Untracked {
            (DiffStage::UntrackedSize, DiffNeed::FileSize)
        } else {
            (DiffStage::Refreshed, DiffNeed::Refresh)
        },
    };
    let job = FileDiffJob {
        source,
        path,
        old_path,
        kind,
        stage: first.0,
        old_spec: String::new(),
        new_spec: String::new(),
        header: String::new(),
        hunks: Vec::new(),
        binary: false,
        original: None,
        modified: None,
    };
    assert(job@.old_spec =~= Seq::<char>::empty());
    assert(job@.hunks =~= Seq::<HunkV>::empty());
    (job, first.1)
}

} // verus!
