//! Batch deletion: the bookkeeping of a strictly sequential run over a list
//! of paths.
//!
//! The coordinator deletes nothing itself. Its caller asks for the next
//! path, tries it, and reports what happened; the coordinator goes on to the
//! next path whatever was reported, and sums up when all have been tried.

use crate::progress::{
    batch_event, clamp_ms, complete_event, remaining_estimate, share_percent, ProgressEvent,
};
use vstd::prelude::*;
use vstd::string::StringExecFns;

verus! {

/// What happened to one path.
#[derive(Debug)]
pub enum DeleteOutcome {
    /// The path no longer existed; nothing was tried.
    Missing,
    /// The path was moved to the trash.
    Deleted,
    /// The delete command failed, with this text.
    Failed(String),
}

/// What happened to one path, as plain text.
pub enum OutcomeView {
    Missing,
    Deleted,
    Failed(Seq<char>),
}

impl View for DeleteOutcome {
    type V = OutcomeView;

    open spec fn view(&self) -> OutcomeView {
        match self {
            DeleteOutcome::Missing => OutcomeView::Missing,
            DeleteOutcome::Deleted => OutcomeView::Deleted,
            DeleteOutcome::Failed(text) => OutcomeView::Failed(text@),
        }
    }
}

/// Why a path was not deleted.
#[derive(Clone, Copy, Debug, PartialEq, Eq, Structural)]
pub enum FailureKind {
    /// The path no longer existed.
    NotFound,
    /// The delete command failed.
    CommandFailed,
}

/// One path that was not deleted.
#[derive(Debug)]
pub struct DeleteFailure {
    pub path: String,
    pub kind: FailureKind,
    pub message: String,
}

/// One path that was not deleted, as plain text.
pub struct FailureView {
    pub path: Seq<char>,
    pub kind: FailureKind,
    pub message: Seq<char>,
}

impl View for DeleteFailure {
    type V = FailureView;

    open spec fn view(&self) -> FailureView {
        FailureView { path: self.path@, kind: self.kind, message: self.message@ }
    }
}

/// What a batch did.
#[derive(Debug)]
pub struct DeletionSummary {
    /// The paths that were deleted, in the order of the batch.
    pub deleted: Vec<String>,
    /// The paths that were not, each with its reason, in the order of the
    /// batch.
    pub errors: Vec<DeleteFailure>,
}

/// How a batch ends: its summary, and the last event to announce.
#[derive(Debug)]
pub struct DeletionOutcome {
    pub summary: DeletionSummary,
    pub event: ProgressEvent,
}

/// The texts of `paths`.
pub open spec fn texts(paths: Seq<String>) -> Seq<Seq<char>> {
    paths.map_values(|path: String| path@)
}

/// The failures of `errors`, as plain text.
pub open spec fn failures(errors: Seq<DeleteFailure>) -> Seq<FailureView> {
    errors.map_values(|error: DeleteFailure| error@)
}

/// The paths deleted when `paths` met with `outcomes`, one each.
pub open spec fn deleted_of(paths: Seq<Seq<char>>, outcomes: Seq<OutcomeView>) -> Seq<Seq<char>>
    decreases outcomes.len(),
{
    if outcomes.len() == 0 || paths.len() == 0 {
        Seq::empty()
    } else {
        let before = deleted_of(paths.drop_last(), outcomes.drop_last());
        match outcomes.last() {
            OutcomeView::Deleted => before.push(paths.last()),
            _ => before,
        }
    }
}

/// The failure recorded for `path` on `outcome`, if it is one.
pub open spec fn failure_of(path: Seq<char>, outcome: OutcomeView) -> Option<FailureView> {
    match outcome {
        OutcomeView::Missing => Some(
            FailureView { path, kind: FailureKind::NotFound, message: "not found"@ },
        ),
        OutcomeView::Deleted => None,
        OutcomeView::Failed(text) => Some(
            FailureView { path, kind: FailureKind::CommandFailed, message: text },
        ),
    }
}

/// The failures recorded when `paths` met with `outcomes`, one each.
pub open spec fn errors_of(paths: Seq<Seq<char>>, outcomes: Seq<OutcomeView>) -> Seq<FailureView>
    decreases outcomes.len(),
{
    if outcomes.len() == 0 || paths.len() == 0 {
        Seq::empty()
    } else {
        let before = errors_of(paths.drop_last(), outcomes.drop_last());
        match failure_of(paths.last(), outcomes.last()) {
            Some(failure) => before.push(failure),
            None => before,
        }
    }
}

/// The line that reports one failure.
pub open spec fn failure_line(failure: FailureView) -> Seq<char> {
    "移到废纸篓失败 "@ + failure.path + ": "@ + failure.message
}

/// The text that reports all of `errors`: their lines, each ended by a line
/// feed.
pub open spec fn failure_report(errors: Seq<FailureView>) -> Seq<char>
    decreases errors.len(),
{
    if errors.len() == 0 {
        Seq::empty()
    } else {
        failure_report(errors.drop_last()) + failure_line(errors.last()) + "\n"@
    }
}

/// Every path of a batch ends up in exactly one of the two lists.
pub proof fn lemma_every_path_accounted(paths: Seq<Seq<char>>, outcomes: Seq<OutcomeView>)
    requires
        paths.len() == outcomes.len(),
    ensures
        deleted_of(paths, outcomes).len() + errors_of(paths, outcomes).len() == paths.len(),
    decreases outcomes.len(),
{
    if outcomes.len() > 0 {
        lemma_every_path_accounted(paths.drop_last(), outcomes.drop_last());
    }
}

/// What is recorded for a path without running the delete command: a path
/// that no longer exists is missing, and the command is not run for it; for a
/// path that exists nothing is recorded before the command has run.
pub fn outcome_without_command(exists: bool) -> (outcome: Option<DeleteOutcome>)
    ensures
        exists ==> outcome is None,
        !exists ==> outcome is Some && outcome->0@ == OutcomeView::Missing,
{
    if exists {
        None
    } else {
        Some(DeleteOutcome::Missing)
    }
}

/// What is recorded for a path when the delete command has run: the path is
/// deleted where the command succeeded, and failed with what the command
/// wrote to its error stream otherwise.
pub fn command_outcome(success: bool, stderr: String) -> (outcome: DeleteOutcome)
    ensures
        success ==> outcome@ == OutcomeView::Deleted,
        !success ==> outcome@ == OutcomeView::Failed(stderr@),
{
    if success {
        DeleteOutcome::Deleted
    } else {
        DeleteOutcome::Failed(stderr)
    }
}

impl DeletionSummary {
    /// The batch as a result: the number of paths deleted where nothing
    /// failed, and otherwise the text that lists every failure.
    pub fn into_result(&self) -> (result: Result<usize, String>)
        ensures
            self.errors@.len() == 0 ==> result == Ok::<usize, String>(self.deleted@.len() as usize),
            self.errors@.len() > 0 ==> result is Err && result->Err_0@ == failure_report(
                failures(self.errors@),
            ),
    {
        if self.errors.len() == 0 {
            return Ok(self.deleted.len());
        }
        let mut text = String::new();
        let mut i: usize = 0;
        proof {
            assert(failures(self.errors@).subrange(0, 0) =~= Seq::<FailureView>::empty());
        }
        while i < self.errors.len()
            invariant
                i <= self.errors.len(),
                text@ == failure_report(failures(self.errors@).subrange(0, i as int)),
            decreases self.errors.len() - i,
        {
            proof {
                let next = failures(self.errors@).subrange(0, i + 1);
                assert(next.drop_last() =~= failures(self.errors@).subrange(0, i as int));
                assert(next.last() == self.errors@[i as int]@);
            }
            let error = &self.errors[i];
            let ghost before = text@;
            text.append("移到废纸篓失败 ");
            text.append(error.path.as_str());
            text.append(": ");
            text.append(error.message.as_str());
            text.append("\n");
            assert(text@ =~= before + failure_line(error@) + "\n"@);
            i += 1;
        }
        proof {
            assert(failures(self.errors@).subrange(0, self.errors@.len() as int) =~= failures(
                self.errors@,
            ));
        }
        Err(text)
    }
}

/// One batch of deletions.
pub struct DeletionCoordinator {
    paths: Vec<String>,
    deleted: Vec<String>,
    errors: Vec<DeleteFailure>,
    outcomes: Ghost<Seq<OutcomeView>>,
}

impl DeletionCoordinator {
    /// The paths of the batch.
    pub closed spec fn paths(&self) -> Seq<String> {
        self.paths@
    }

    /// What was reported so far, one outcome for each path tried.
    pub closed spec fn outcomes(&self) -> Seq<OutcomeView> {
        self.outcomes@
    }

    /// The paths deleted so far.
    pub closed spec fn deleted(&self) -> Seq<String> {
        self.deleted@
    }

    /// The failures so far.
    pub closed spec fn errors(&self) -> Seq<DeleteFailure> {
        self.errors@
    }

    /// What holds of every coordinator that this module hands out: no more
    /// outcomes than paths, and the two lists are what the outcomes so far
    /// make of the paths tried.
    pub open spec fn well_formed(&self) -> bool {
        let tried = self.outcomes().len() as int;
        &&& tried <= self.paths().len()
        &&& texts(self.deleted()) == deleted_of(
            texts(self.paths()).subrange(0, tried),
            self.outcomes(),
        )
        &&& failures(self.errors()) == errors_of(
            texts(self.paths()).subrange(0, tried),
            self.outcomes(),
        )
    }

    /// A batch over `paths`, none tried yet.
    pub fn new(paths: Vec<String>) -> (batch: DeletionCoordinator)
        ensures
            batch.well_formed(),
            batch.paths() == paths@,
            batch.outcomes() == Seq::<OutcomeView>::empty(),
    {
        let batch = DeletionCoordinator {
            paths,
            deleted: Vec::new(),
            errors: Vec::new(),
            outcomes: Ghost(Seq::empty()),
        };
        proof {
            assert(texts(batch.deleted@) =~= Seq::<Seq<char>>::empty());
            assert(failures(batch.errors@) =~= Seq::<FailureView>::empty());
        }
        batch
    }

    /// The path to try next; `None` when all have been tried.
    pub fn current(&self) -> (path: Option<String>)
        requires
            self.well_formed(),
        ensures
            path is Some <==> self.outcomes().len() < self.paths().len(),
            path is Some ==> path->0 == self.paths()[self.outcomes().len() as int],
    {
        let total = self.paths.len();
        proof {
            self.lemma_tried();
        }
        let tried = self.deleted.len() + self.errors.len();
        if tried < total {
            Some(self.paths[tried].clone())
        } else {
            None
        }
    }

    /// The number of paths tried is the length of the two lists together.
    pub proof fn lemma_tried(&self)
        requires
            self.well_formed(),
        ensures
            self.deleted().len() + self.errors().len() == self.outcomes().len(),
            self.outcomes().len() <= self.paths().len(),
    {
        let tried = self.outcomes().len() as int;
        lemma_every_path_accounted(texts(self.paths()).subrange(0, tried), self.outcomes());
        assert(texts(self.deleted()).len() == self.deleted().len());
        assert(failures(self.errors()).len() == self.errors().len());
    }

    /// Takes in what happened to the current path, `elapsed_ms` after the
    /// start of the batch. The path is recorded as deleted, as not found, or
    /// as failed with the text of the command; the batch goes on to the next
    /// path in each case, and announces the share of the paths tried. A batch
    /// with no path left stays as it is and announces nothing.
    pub fn record(&mut self, outcome: DeleteOutcome, elapsed_ms: u64) -> (event: Option<
        ProgressEvent,
    >)
        requires
            old(self).well_formed(),
        ensures
            final(self).well_formed(),
            final(self).paths() == old(self).paths(),
            event is Some <==> old(self).outcomes().len() < old(self).paths().len(),
            event is None ==> *final(self) == *old(self),
            event is Some ==> {
                let tried = old(self).outcomes().len() + 1;
                let total = old(self).paths().len();
                &&& final(self).outcomes() == old(self).outcomes().push(outcome@)
                &&& event->0.percent == share_percent(tried as nat, total)
                &&& event->0.current == tried
                &&& event->0.total == total
                &&& event->0.label == old(self).paths()[tried - 1]
                &&& event->0.elapsed_ms == elapsed_ms
                &&& event->0.remaining_ms == clamp_ms(
                    remaining_estimate(tried as nat, total, elapsed_ms as nat),
                )
            },
    {
        let total = self.paths.len();
        proof {
            self.lemma_tried();
        }
        let tried = self.deleted.len() + self.errors.len();
        if tried >= total {
            return None;
        }
        let path = self.paths[tried].clone();
        let label = self.paths[tried].clone();
        let ghost old_deleted = texts(self.deleted@);
        let ghost old_errors = failures(self.errors@);
        let ghost old_outcomes = self.outcomes@;
        let ghost seen = outcome@;
        match outcome {
            DeleteOutcome::Missing => {
                let failure = DeleteFailure {
                    path,
                    kind: FailureKind::NotFound,
                    message: "not found".to_owned(),
                };
                self.errors.push(failure);
                proof {
                    assert(failures(self.errors@) =~= old_errors.push(failure@));
                }
            },
            DeleteOutcome::Deleted => {
                self.deleted.push(path);
                proof {
                    assert(texts(self.deleted@) =~= old_deleted.push(path@));
                }
            },
            DeleteOutcome::Failed(text) => {
                let failure = DeleteFailure { path, kind: FailureKind::CommandFailed, message: text };
                self.errors.push(failure);
                proof {
                    assert(failures(self.errors@) =~= old_errors.push(failure@));
                }
            },
        }
        self.outcomes = Ghost(old_outcomes.push(seen));
        proof {
            let all = texts(self.paths@);
            let now = all.subrange(0, tried + 1);
            assert(now.drop_last() =~= all.subrange(0, tried as int));
            assert(now.last() == self.paths@[tried as int]@);
            assert(self.outcomes@.drop_last() =~= old_outcomes);
            assert(self.outcomes@.last() == seen);
        }
        Some(batch_event(tried + 1, total, label, elapsed_ms))
    }

    /// Ends the batch, `elapsed_ms` after its start: once every path has
    /// been tried, the summary of what was deleted and what was not, with the
    /// event that announces 100 percent. `None` while a path is left.
    pub fn finish(&self, elapsed_ms: u64) -> (end: Option<DeletionOutcome>)
        requires
            self.well_formed(),
        ensures
            end is Some <==> self.outcomes().len() == self.paths().len(),
            end is Some ==> {
                &&& texts(end->0.summary.deleted@) == deleted_of(
                    texts(self.paths()),
                    self.outcomes(),
                )
                &&& failures(end->0.summary.errors@) == errors_of(
                    texts(self.paths()),
                    self.outcomes(),
                )
                &&& end->0.summary.deleted@.len() + end->0.summary.errors@.len()
                    == self.paths().len()
                &&& end->0.event.percent == 100
                &&& end->0.event.current == self.paths().len()
                &&& end->0.event.total == self.paths().len()
                &&& end->0.event.label@ == "complete"@
                &&& end->0.event.elapsed_ms == elapsed_ms
                &&& end->0.event.remaining_ms == 0
            },
    {
        let total = self.paths.len();
        proof {
            self.lemma_tried();
        }
        let tried = self.deleted.len() + self.errors.len();
        if tried < total {
            return None;
        }
        let mut deleted: Vec<String> = Vec::new();
        let mut i: usize = 0;
        while i < self.deleted.len()
            invariant
                i <= self.deleted.len(),
                deleted@ == self.deleted@.subrange(0, i as int),
            decreases self.deleted.len() - i,
        {
            deleted.push(self.deleted[i].clone());
            assert(deleted@ =~= self.deleted@.subrange(0, i + 1));
            i += 1;
        }
        let mut errors: Vec<DeleteFailure> = Vec::new();
        let mut j: usize = 0;
        while j < self.errors.len()
            invariant
                j <= self.errors.len(),
                errors@ == self.errors@.subrange(0, j as int),
            decreases self.errors.len() - j,
        {
            let error = &self.errors[j];
            errors.push(
                DeleteFailure {
                    path: error.path.clone(),
                    kind: error.kind,
                    message: error.message.clone(),
                },
            );
            assert(errors@ =~= self.errors@.subrange(0, j + 1));
            j += 1;
        }
        proof {
            assert(deleted@ =~= self.deleted@);
            assert(errors@ =~= self.errors@);
            assert(texts(self.paths@).subrange(0, total as int) =~= texts(self.paths@));
        }
        Some(
            DeletionOutcome {
                summary: DeletionSummary { deleted, errors },
                event: complete_event(total, elapsed_ms),
            },
        )
    }
}

} // verus!
