//! Applying one hunk of a diff, as a conversation with git: the strict
//! `git apply`, the whitespace-tolerant retry, and, after a revert, putting the
//! index entry back at HEAD and letting a clean file be checked out afresh.
use vstd::prelude::*;
use crate::commands::{
    checkout_head_args, diff_quiet_head_args, hunk_apply_args, hunk_failure, hunk_retry_result, own,
    restore_staged_args, apply_flags, HunkAction,
};
use crate::text::string_views;

verus! {

/// Where applying a hunk stands: what it asked for last.
#[derive(Clone, Copy, PartialEq, Eq, Debug, Structural)]
pub enum HunkStage {
    /// The strict `git apply` runs.
    Strict,
    /// The whitespace-tolerant retry runs.
    Lenient,
    /// Whether the repository has a commit is asked.
    HeadCheck,
    /// The index entry is put back at HEAD.
    Restore,
    /// Whether the file is clean against HEAD is asked.
    Quiet,
    /// The file is checked out from HEAD.
    Checkout,
    /// Nothing more is asked.
    Finished,
}

/// What applying a hunk needs next.
#[derive(Debug)]
pub enum HunkNeed {
    /// `git` with these arguments, the patch on its standard input;
    /// answered by `Ran`.
    Apply(Vec<String>),
    /// `git` with these arguments and no input; answered by `Ran`.
    Run(Vec<String>),
    /// Whether the repository has a commit; answered by `Flag`.
    HeadExists,
    /// Nothing: the outcome.
    Done(Result<(), String>),
}

pub enum HunkNeedV {
    Apply(Seq<Seq<char>>),
    Run(Seq<Seq<char>>),
    HeadExists,
    Done(Result<(), Seq<char>>),
}

pub open spec fn hunk_need_view(n: HunkNeed) -> HunkNeedV {
    match n {
        HunkNeed::Apply(a) => HunkNeedV::Apply(string_views(a@)),
        HunkNeed::Run(a) => HunkNeedV::Run(string_views(a@)),
        HunkNeed::HeadExists => HunkNeedV::HeadExists,
        HunkNeed::Done(r) => HunkNeedV::Done(
            match r {
                Ok(_) => Ok(()),
                Err(e) => Err(e@),
            },
        ),
    }
}

/// The answer to what applying a hunk needed.
#[derive(Debug)]
pub enum HunkAnswer {
    /// What git gave: its output, or its error.
    Ran(Result<Vec<u8>, String>),
    Flag(bool),
}

pub enum HunkAnswerV {
    Ran(Result<(), Seq<char>>),
    Flag(bool),
}

pub open spec fn hunk_answer_view(a: HunkAnswer) -> HunkAnswerV {
    match a {
        HunkAnswer::Ran(r) => HunkAnswerV::Ran(
            match r {
                Ok(_) => Ok(()),
                Err(e) => Err(e@),
            },
        ),
        HunkAnswer::Flag(b) => HunkAnswerV::Flag(b),
    }
}

/// One hunk being applied to `path` for `action`.
pub struct HunkJob {
    action: HunkAction,
    path: String,
    stage: HunkStage,
    first_error: String,
}

pub struct HunkJobV {
    pub action: HunkAction,
    pub path: Seq<char>,
    pub stage: HunkStage,
    pub first_error: Seq<char>,
}

impl View for HunkJob {
    type V = HunkJobV;

    closed spec fn view(&self) -> HunkJobV {
        HunkJobV {
            action: self.action,
            path: self.path@,
            stage: self.stage,
            first_error: self.first_error@,
        }
    }
}

/// The arguments of `git apply` for `action`, strict or whitespace-tolerant.
pub open spec fn apply_args(action: HunkAction, lenient: bool) -> Seq<Seq<char>> {
    seq!["apply"@] + apply_flags(action) + seq!["--whitespace=nowarn"@] + (if lenient {
        seq!["--ignore-whitespace"@]
    } else {
        Seq::<Seq<char>>::empty()
    }) + seq!["-"@]
}

pub open spec fn at_stage(j: HunkJobV, stage: HunkStage) -> HunkJobV {
    HunkJobV { stage, ..j }
}

/// The job ends with `r`.
pub open spec fn hunk_done(j: HunkJobV, r: Result<(), Seq<char>>) -> (HunkJobV, HunkNeedV) {
    (at_stage(j, HunkStage::Finished), HunkNeedV::Done(r))
}

/// The patch is in: a revert goes on to the index entry when there is a
/// commit to put it back at; staging and unstaging are done.
pub open spec fn applied(j: HunkJobV) -> (HunkJobV, HunkNeedV) {
    if j.action == HunkAction::Revert {
        (at_stage(j, HunkStage::HeadCheck), HunkNeedV::HeadExists)
    } else {
        hunk_done(j, Ok(()))
    }
}

/// A job for applying a hunk of `path` for `action`, and what it needs
/// first: the strict `git apply`.
pub open spec fn hunk_start_spec(action: HunkAction, path: Seq<char>) -> (HunkJobV, HunkNeedV) {
    (
        HunkJobV { action, path, stage: HunkStage::Strict, first_error: Seq::<char>::empty() },
        HunkNeedV::Apply(apply_args(action, false)),
    )
}

/// Whether `a` answers what a job at `j` asked for.
pub open spec fn hunk_fits(j: HunkJobV, a: HunkAnswerV) -> bool {
    match j.stage {
        HunkStage::HeadCheck => a is Flag,
        HunkStage::Finished => false,
        _ => a is Ran,
    }
}

/// Where a job goes with an answer, and what it needs then. A failed strict
/// apply is retried leniently; a failed retry ends the job with both errors.
/// After a revert with a commit present, the index entry is put back at HEAD
/// (its failure ignored) and, when the file is then clean against HEAD, the
/// file is checked out from HEAD (its failure ignored too).
pub open spec fn hunk_advance(j: HunkJobV, a: HunkAnswerV) -> (HunkJobV, HunkNeedV) {
    match j.stage {
        HunkStage::Strict => match a {
            HunkAnswerV::Ran(Ok(_)) => applied(j),
            HunkAnswerV::Ran(Err(e1)) => (
                HunkJobV { stage: HunkStage::Lenient, first_error: e1, ..j },
                HunkNeedV::Apply(apply_args(j.action, true)),
            ),
            _ => (j, HunkNeedV::HeadExists),
        },
        HunkStage::Lenient => match a {
            HunkAnswerV::Ran(Ok(_)) => applied(j),
            HunkAnswerV::Ran(Err(e2)) => hunk_done(
                j,
                Err(hunk_failure(j.action, j.path, j.first_error, e2)),
            ),
            _ => (j, HunkNeedV::HeadExists),
        },
        HunkStage::HeadCheck => match a {
            HunkAnswerV::Flag(true) => (
                at_stage(j, HunkStage::Restore),
                HunkNeedV::Run(seq!["restore"@, "--staged"@, "--"@, j.path]),
            ),
            _ => hunk_done(j, Ok(())),
        },
        HunkStage::Restore => (
            at_stage(j, HunkStage::Quiet),
            HunkNeedV::Run(seq!["diff"@, "--quiet"@, "HEAD"@, "--"@, j.path]),
        ),
        HunkStage::Quiet => match a {
            HunkAnswerV::Ran(Ok(_)) => (
                at_stage(j, HunkStage::Checkout),
                HunkNeedV::Run(seq!["checkout"@, "HEAD"@, "--"@, j.path]),
            ),
            _ => hunk_done(j, Ok(())),
        },
        HunkStage::Checkout => hunk_done(j, Ok(())),
        HunkStage::Finished => (j, HunkNeedV::HeadExists),
    }
}

impl HunkJob {
    /// A job for applying a hunk of `path` for `action`, and what it needs
    /// first (see `hunk_start_spec`).
    pub fn start(action: HunkAction, path: &str) -> (r: (HunkJob, HunkNeed))
        ensures
            (r.0@, hunk_need_view(r.1)) == hunk_start_spec(action, path@),
    {
        let j = HunkJob { action, path: own(path), stage: HunkStage::Strict, first_error: String::new() };
        let args = hunk_apply_args(action, false);
        assert(j@.first_error =~= Seq::<char>::empty());
        (j, HunkNeed::Apply(args))
    }

    /// Whether `a` answers what the job asked for last.
    pub fn fits(&self, a: &HunkAnswer) -> (b: bool)
        ensures
            b == hunk_fits(self@, hunk_answer_view(*a)),
    {
        match self.stage {
            HunkStage::HeadCheck => matches!(a, HunkAnswer::Flag(_)),
            HunkStage::Finished => false,
            _ => matches!(a, HunkAnswer::Ran(_)),
        }
    }

    /// Hands the job the answer to what it asked for, and says what it
    /// needs next (see `hunk_advance`).
    pub fn answer(&mut self, a: HunkAnswer) -> (n: HunkNeed)
        requires
            hunk_fits(old(self)@, hunk_answer_view(a)),
        ensures
            (final(self)@, hunk_need_view(n)) == hunk_advance(old(self)@, hunk_answer_view(a)),
    {
        match self.stage {
            HunkStage::Strict => match a {
                HunkAnswer::Ran(Ok(_)) => self.applied(),
                HunkAnswer::Ran(Err(e1)) => {
                    self.stage = HunkStage::Lenient;
                    self.first_error = e1;
                    HunkNeed::Apply(hunk_apply_args(self.action, true))
                },
                HunkAnswer::Flag(_) => HunkNeed::HeadExists,
            },
            HunkStage::Lenient => match a {
                HunkAnswer::Ran(Ok(_)) => self.applied(),
                HunkAnswer::Ran(Err(e2)) => {
                    let r = hunk_retry_result(
                        self.action,
                        self.path.as_str(),
                        self.first_error.as_str(),
                        Err(e2),
                    );
                    self.stage = HunkStage::Finished;
                    HunkNeed::Done(r)
                },
                HunkAnswer::Flag(_) => HunkNeed::HeadExists,
            },
            HunkStage::HeadCheck => match a {
                HunkAnswer::Flag(true) => {
                    self.stage = HunkStage::Restore;
                    HunkNeed::Run(restore_staged_args(self.path.as_str()))
                },
                _ => {
                    self.stage = HunkStage::Finished;
                    HunkNeed::Done(Ok(()))
                },
            },
            HunkStage::Restore => {
                self.stage = HunkStage::Quiet;
                HunkNeed::Run(diff_quiet_head_args(self.path.as_str()))
            },
            HunkStage::Quiet => match a {
                HunkAnswer::Ran(Ok(_)) => {
                    self.stage = HunkStage::Checkout;
                    HunkNeed::Run(checkout_head_args(self.path.as_str()))
                },
                _ => {
                    self.stage = HunkStage::Finished;
                    HunkNeed::Done(Ok(()))
                },
            },
            HunkStage::Checkout => {
                self.stage = HunkStage::Finished;
                HunkNeed::Done(Ok(()))
            },
            HunkStage::Finished => HunkNeed::HeadExists,
        }
    }

    fn applied(&mut self) -> (n: HunkNeed)
        requires
            old(self).stage == HunkStage::Strict || old(self).stage == HunkStage::Lenient,
        ensures
            (final(self)@, hunk_need_view(n)) == applied(old(self)@),
    {
        if self.action == HunkAction::Revert {
            self.stage = HunkStage::HeadCheck;
            HunkNeed::HeadExists
        } else {
            self.stage = HunkStage::Finished;
            HunkNeed::Done(Ok(()))
        }
    }
}

/// Every answer that fits moves a job on: from the strict apply a job asks
/// at most five more questions and then says it is done, and it says it is
/// done exactly when it is finished.
pub proof fn law_hunk_job_moves_on(j: HunkJobV, a: HunkAnswerV)
    requires
        hunk_fits(j, a),
    ensures
        hunk_rank(hunk_advance(j, a).0.stage) > hunk_rank(j.stage),
        hunk_advance(j, a).0.stage == HunkStage::Finished <==> hunk_advance(j, a).1 is Done,
        hunk_advance(j, a).0.action == j.action && hunk_advance(j, a).0.path == j.path,
{
}

/// The order in which a job passes its stages.
pub open spec fn hunk_rank(s: HunkStage) -> int {
    match s {
        HunkStage::Strict => 0,
        HunkStage::Lenient => 1,
        HunkStage::HeadCheck => 2,
        HunkStage::Restore => 3,
        HunkStage::Quiet => 4,
        HunkStage::Checkout => 5,
        HunkStage::Finished => 6,
    }
}

/// A hunk that git applies, strictly or on the retry, ends in success; only
/// a failed retry ends in an error, the one that names both failures; and
/// nothing but a revert touches more than the patch.
pub proof fn law_hunk_outcome(j: HunkJobV, a: HunkAnswerV)
    requires
        hunk_fits(j, a),
    ensures
        hunk_advance(j, a).1 matches HunkNeedV::Done(Err(m)) ==> (j.stage == HunkStage::Lenient && (
        a matches HunkAnswerV::Ran(Err(e2)) && m == hunk_failure(j.action, j.path, j.first_error, e2))),
        (j.action != HunkAction::Revert && (j.stage == HunkStage::Strict || j.stage
            == HunkStage::Lenient) && (a matches HunkAnswerV::Ran(Ok(_)))) ==> hunk_advance(j, a).1
            == HunkNeedV::Done(Ok(())),
{
}

} // verus!
