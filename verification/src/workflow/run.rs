//! One run over a task's archives: what is queued, what has ended, and when the run stops.

use std::collections::VecDeque;

use vstd::prelude::*;
use crate::execution::NodeOutcome;
use crate::history::TaskCompletionStatus;
use crate::path::same_path;
use crate::types::{Cancellation, ExtractionCandidate};
use crate::workflow::reason::{NodeStatus, Reason};

verus! {

/// A node of the task: one archive to work on.
pub struct WorkNode {
    pub id: String,
    pub root_id: String,
    pub generation: u64,
    pub candidate: ExtractionCandidate,
}

/// Why a run cannot start.
#[derive(Clone, Copy, Debug, PartialEq, Eq, Structural)]
pub enum IdentityError {
    /// There are more or fewer roots than inputs.
    CountMismatch,
    /// A root does not stand for its input.
    PathMismatch,
}

/// What the run does next.
pub enum NextStep {
    /// An earlier archive failed, and the task is to stop at the first failure.
    StopOnError,
    /// The task was cancelled.
    StopCancelled,
    /// Nothing is left to do.
    Done,
    Work(WorkNode),
}

/// The state of a run.
pub struct TaskRun {
    pub queue: VecDeque<WorkNode>,
    pub processed: Vec<ExtractionCandidate>,
    pub skipped: Vec<ExtractionCandidate>,
    pub enqueued: Vec<ExtractionCandidate>,
    pub failed_count: usize,
    pub was_cancelled: bool,
    pub stop_on_error: bool,
    /// The user wants every embedded archive from now on.
    pub embedded_extract_all: bool,
    /// How deep an archive may lie inside others.
    pub recursion_limit: usize,
}

/// Each root stands for the input at its position, however the path is written.
pub open spec fn roots_match(inputs: Seq<String>, roots: Seq<WorkNode>) -> bool {
    inputs.len() == roots.len() && forall|i: int|
        0 <= i < inputs.len() ==> crate::path::same(
            (#[trigger] roots[i]).candidate.path@,
            inputs[i]@,
        )
}

/// Whatever a run has come to, nothing that it processed lies deeper than its limit.
pub proof fn processed_lies_within_limit(run: TaskRun, i: int)
    requires
        run.wf(),
        0 <= i < run.processed@.len(),
    ensures
        run.processed@[i].depth <= run.recursion_limit,
{
}

/// The outcome says the status and the reason, and nothing else.
pub open spec fn says(outcome: NodeOutcome, status: NodeStatus, reason: Reason) -> bool {
    &&& outcome.status@ == status.text()
    &&& crate::text::opt_text(outcome.reason) == Some(reason.text())
    &&& outcome.output_path is None
    &&& !outcome.committed
    &&& outcome.is_bare()
}

fn outcome_of(status: NodeStatus, reason: Reason) -> (r: NodeOutcome)
    ensures
        says(r, status, reason),
{
    NodeOutcome::terminal(status.as_str(), Some(reason.as_str()), None, false)
}

/// A node that the task's end caught is cancelled where the user asked for the end, and skipped
/// otherwise.
pub open spec fn interruption(user: bool) -> (NodeStatus, Reason) {
    if user {
        (NodeStatus::Cancelled, Reason::Cancelled)
    } else {
        (NodeStatus::Skipped, Reason::TaskStopped)
    }
}

impl TaskRun {
    /// The two states differ in nothing but the fields named in the update.
    pub open spec fn same_but_lists(self, other: TaskRun) -> bool {
        &&& self.failed_count == other.failed_count
        &&& self.was_cancelled == other.was_cancelled
        &&& self.stop_on_error == other.stop_on_error
        &&& self.embedded_extract_all == other.embedded_extract_all
        &&& self.recursion_limit == other.recursion_limit
    }

    /// No archive was processed that lies deeper than the limit.
    pub open spec fn wf(&self) -> bool {
        forall|i: int|
            0 <= i < self.processed@.len() ==> (#[trigger] self.processed@[i]).depth
                <= self.recursion_limit
    }

    /// The queue and the lists hold the same in both states.
    pub open spec fn same_lists(self, other: TaskRun) -> bool {
        &&& self.queue@ == other.queue@
        &&& self.processed@ == other.processed@
        &&& self.skipped@ == other.skipped@
        &&& self.enqueued@ == other.enqueued@
    }

    /// An archive has failed and the task is to stop at the first failure.
    pub open spec fn stopped(self) -> bool {
        self.failed_count > 0 && self.stop_on_error
    }

    /// Starts with the roots queued in the order of the inputs.
    pub fn new(
        inputs: &Vec<String>,
        roots: VecDeque<WorkNode>,
        stop_on_error: bool,
        recursion_limit: usize,
    ) -> (r: Result<TaskRun, IdentityError>)
        ensures
            match r {
                Ok(run) => {
                    &&& roots_match(inputs@, roots@)
                    &&& run.queue@ == roots@
                    &&& run.processed@.len() == 0
                    &&& run.skipped@.len() == 0
                    &&& run.enqueued@.len() == 0
                    &&& run.failed_count == 0
                    &&& !run.was_cancelled
                    &&& run.stop_on_error == stop_on_error
                    &&& !run.embedded_extract_all
                    &&& run.recursion_limit == recursion_limit
                    &&& run.wf()
                },
                Err(IdentityError::CountMismatch) => inputs@.len() != roots@.len(),
                Err(IdentityError::PathMismatch) => inputs@.len() == roots@.len() && !roots_match(
                    inputs@,
                    roots@,
                ),
            },
    {
        if roots.len() != inputs.len() {
            return Err(IdentityError::CountMismatch);
        }
        let mut i: usize = 0;
        while i < inputs.len()
            invariant
                i <= inputs@.len(),
                inputs@.len() == roots@.len(),
                forall|k: int|
                    0 <= k < i ==> crate::path::same(
                        (#[trigger] roots@[k]).candidate.path@,
                        inputs@[k]@,
                    ),
            decreases inputs.len() - i,
        {
            if !same_path(roots[i].candidate.path.as_str(), inputs[i].as_str()) {
                assert(!crate::path::same(
                    roots@[i as int].candidate.path@,
                    inputs@[i as int]@,
                ));
                return Err(IdentityError::PathMismatch);
            }
            i += 1;
        }
        Ok(
            TaskRun {
                queue: roots,
                processed: Vec::new(),
                skipped: Vec::new(),
                enqueued: Vec::new(),
                failed_count: 0,
                was_cancelled: false,
                stop_on_error,
                embedded_extract_all: false,
                recursion_limit,
            },
        )
    }

    /// Takes the next node off the queue, unless the run is to stop.
    pub fn next(&mut self, c: Cancellation, context_cancelled: bool) -> (r: NextStep)
        requires
            old(self).wf(),
        ensures
            final(self).wf(),
            final(self).processed@ == old(self).processed@,
            final(self).skipped@ == old(self).skipped@,
            final(self).enqueued@ == old(self).enqueued@,
            match r {
                NextStep::StopOnError => {
                    &&& old(self).stopped()
                    &&& final(self).queue@ == old(self).queue@
                    &&& final(self).same_but_lists(*old(self))
                },
                NextStep::StopCancelled => {
                    &&& !old(self).stopped()
                    &&& c.cancelled || context_cancelled
                    &&& final(self).queue@ == old(self).queue@
                    &&& final(self).same_but_lists(TaskRun { was_cancelled: c.user, ..*old(self) })
                },
                NextStep::Done => {
                    &&& !old(self).stopped()
                    &&& !c.cancelled && !context_cancelled
                    &&& old(self).queue@.len() == 0
                    &&& final(self).queue@ == old(self).queue@
                    &&& final(self).same_but_lists(*old(self))
                },
                NextStep::Work(node) => {
                    &&& !old(self).stopped()
                    &&& !c.cancelled && !context_cancelled
                    &&& old(self).queue@.len() > 0
                    &&& node == old(self).queue@[0]
                    &&& final(self).queue@ == old(self).queue@.drop_first()
                    &&& final(self).same_but_lists(*old(self))
                },
            },
            r is StopOnError <==> old(self).failed_count > 0 && old(self).stop_on_error,
            r is Work ==> old(self).queue@ == seq![r->Work_0] + final(self).queue@,
            r !is Work ==> final(self).queue@ == old(self).queue@,
            !(r is StopOnError) && (c.cancelled || context_cancelled) <==> r is StopCancelled,
            r is Done ==> old(self).queue@.len() == 0,
            final(self).failed_count == old(self).failed_count,
            r !is StopCancelled ==> final(self).was_cancelled == old(self).was_cancelled,
            r is StopCancelled ==> final(self).was_cancelled == c.user,
    {
        if self.failed_count > 0 && self.stop_on_error {
            return NextStep::StopOnError;
        }
        if c.cancelled || context_cancelled {
            self.was_cancelled = c.user;
            return NextStep::StopCancelled;
        }
        match self.queue.pop_front() {
            Some(node) => {
                assert(old(self).queue@ =~= seq![node] + self.queue@);
                NextStep::Work(node)
            },
            None => NextStep::Done,
        }
    }

    /// Ends a node without output and without a failure.
    pub fn skip(&mut self, candidate: ExtractionCandidate, reason: Reason) -> (r: NodeOutcome)
        requires
            old(self).wf(),
        ensures
            final(self).wf(),
            final(self).queue@ == old(self).queue@,
            final(self).processed@ == old(self).processed@,
            final(self).skipped@ == old(self).skipped@.push(candidate),
            final(self).enqueued@ == old(self).enqueued@,
            final(self).same_but_lists(*old(self)),
            says(r, NodeStatus::Skipped, reason),
    {
        self.skipped.push(candidate);
        outcome_of(NodeStatus::Skipped, reason)
    }

    /// Counts a failure, and says whether the task is to stop at it.
    pub fn record_failure(&mut self) -> (stop: bool)
        requires
            old(self).wf(),
            old(self).failed_count < usize::MAX,
        ensures
            final(self).wf(),
            final(self).same_lists(*old(self)),
            final(self).same_but_lists(TaskRun {
                failed_count: (old(self).failed_count + 1) as usize,
                ..*old(self)
            }),
            stop == old(self).stop_on_error,
            stop == final(self).stopped(),
    {
        self.failed_count += 1;
        self.stop_on_error
    }

    /// Ends a node with a failure, and says whether the task is to stop at it.
    pub fn fail(&mut self, candidate: ExtractionCandidate, reason: Reason) -> (r: (
        NodeOutcome,
        bool,
    ))
        requires
            old(self).wf(),
            old(self).failed_count < usize::MAX,
        ensures
            final(self).wf(),
            final(self).queue@ == old(self).queue@,
            final(self).processed@ == old(self).processed@,
            final(self).skipped@ == old(self).skipped@.push(candidate),
            final(self).enqueued@ == old(self).enqueued@,
            final(self).same_but_lists(TaskRun {
                failed_count: (old(self).failed_count + 1) as usize,
                ..*old(self)
            }),
            says(r.0, NodeStatus::Failed, reason),
            r.1 == old(self).stop_on_error,
            r.1 == final(self).stopped(),
    {
        let stop: bool = self.record_failure();
        self.skipped.push(candidate);
        (outcome_of(NodeStatus::Failed, reason), stop)
    }

    /// Ends a node that the task's end caught.
    pub fn interrupt(&mut self, candidate: ExtractionCandidate, c: Cancellation) -> (r: NodeOutcome)
        requires
            old(self).wf(),
        ensures
            final(self).wf(),
            final(self).queue@ == old(self).queue@,
            final(self).processed@ == old(self).processed@,
            final(self).skipped@ == old(self).skipped@.push(candidate),
            final(self).enqueued@ == old(self).enqueued@,
            final(self).same_but_lists(TaskRun {
                was_cancelled: old(self).was_cancelled || c.user,
                ..*old(self)
            }),
            says(r, interruption(c.user).0, interruption(c.user).1),
    {
        self.was_cancelled = self.was_cancelled || c.user;
        self.skipped.push(candidate);
        if c.user {
            outcome_of(NodeStatus::Cancelled, Reason::Cancelled)
        } else {
            outcome_of(NodeStatus::Skipped, Reason::TaskStopped)
        }
    }

    /// Ends a node whose attempts the user cancelled.
    pub fn cancel(&mut self, candidate: ExtractionCandidate) -> (r: NodeOutcome)
        requires
            old(self).wf(),
        ensures
            final(self).wf(),
            final(self).queue@ == old(self).queue@,
            final(self).processed@ == old(self).processed@,
            final(self).skipped@ == old(self).skipped@.push(candidate),
            final(self).enqueued@ == old(self).enqueued@,
            final(self).same_but_lists(TaskRun { was_cancelled: true, ..*old(self) }),
            says(r, NodeStatus::Cancelled, Reason::Cancelled),
    {
        self.was_cancelled = true;
        self.skipped.push(candidate);
        outcome_of(NodeStatus::Cancelled, Reason::Cancelled)
    }

    /// Ends a node whose output was committed.
    pub fn extracted(&mut self, candidate: ExtractionCandidate, output_path: &str, cancelled: bool) -> (r:
        NodeOutcome)
        requires
            old(self).wf(),
            candidate.depth <= old(self).recursion_limit,
        ensures
            final(self).wf(),
            final(self).queue@ == old(self).queue@,
            final(self).processed@ == old(self).processed@.push(candidate),
            final(self).skipped@ == old(self).skipped@,
            final(self).enqueued@ == old(self).enqueued@,
            final(self).same_but_lists(TaskRun {
                was_cancelled: old(self).was_cancelled || cancelled,
                ..*old(self)
            }),
            r.status@ == NodeStatus::Extracted.text(),
            r.reason is None,
            crate::text::opt_text(r.output_path) == Some(output_path@),
            r.committed,
            r.is_bare(),
    {
        self.was_cancelled = self.was_cancelled || cancelled;
        self.processed.push(candidate);
        NodeOutcome::terminal(NodeStatus::Extracted.as_str(), None, Some(output_path), true)
    }

    /// Queues an archive that was found in extracted output, behind all others.
    pub fn enqueue_nested(&mut self, node: WorkNode)
        requires
            old(self).wf(),
        ensures
            final(self).wf(),
            final(self).queue@ == old(self).queue@.push(node),
            final(self).processed@ == old(self).processed@,
            final(self).skipped@ == old(self).skipped@,
            final(self).enqueued@ == old(self).enqueued@.push(node.candidate),
            final(self).same_but_lists(*old(self)),
    {
        let copy = node.candidate.clone();
        self.enqueued.push(copy);
        self.queue.push_back(node);
    }

    /// Lists a candidate that will be queued.
    pub fn announce(&mut self, candidate: &ExtractionCandidate)
        requires
            old(self).wf(),
        ensures
            final(self).wf(),
            final(self).queue@ == old(self).queue@,
            final(self).processed@ == old(self).processed@,
            final(self).skipped@ == old(self).skipped@,
            final(self).enqueued@ == old(self).enqueued@.push(*candidate),
            final(self).same_but_lists(*old(self)),
    {
        self.enqueued.push(candidate.clone());
    }

    /// Puts the archives found inside one input in front of the queue, in the order in which
    /// they were found: they are extracted before any later input is looked at. The input's own
    /// node ends as skipped, but not among the skipped candidates.
    pub fn expand_root(&mut self, found: Vec<WorkNode>) -> (r: NodeOutcome)
        requires
            old(self).wf(),
        ensures
            final(self).wf(),
            final(self).queue@ == found@ + old(self).queue@,
            final(self).processed@ == old(self).processed@,
            final(self).skipped@ == old(self).skipped@,
            final(self).enqueued@ == old(self).enqueued@,
            final(self).same_but_lists(*old(self)),
            says(r, NodeStatus::Skipped, Reason::ExpandedToEmbedded),
    {
        let ghost queue = self.queue@;
        let ghost all = found@;
        let mut rest: Vec<WorkNode> = found;
        assert(all.take(all.len() as int) =~= all);
        assert(queue =~= all.skip(all.len() as int) + queue);
        while rest.len() > 0
            invariant
                rest@.len() <= all.len(),
                rest@ == all.take(rest@.len() as int),
                self.queue@ == all.skip(rest@.len() as int) + queue,
                self.processed@ == old(self).processed@,
                self.skipped@ == old(self).skipped@,
                self.enqueued@ == old(self).enqueued@,
                self.same_but_lists(*old(self)),
                old(self).wf(),
            decreases rest.len(),
        {
            match rest.pop() {
                Some(node) => {
                    assert(node == all[rest@.len() as int]);
                    assert(rest@ =~= all.take(rest@.len() as int));
                    self.queue.push_front(node);
                    assert(self.queue@ =~= all.skip(rest@.len() as int) + queue);
                },
                None => {},
            }
        }
        assert(all.skip(0) =~= all);
        outcome_of(NodeStatus::Skipped, Reason::ExpandedToEmbedded)
    }

    /// Ends every node that is still queued when the run stops.
    pub fn drain(&mut self, c: Cancellation) -> (r: Vec<(WorkNode, NodeOutcome)>)
        requires
            old(self).wf(),
        ensures
            final(self).wf(),
            final(self).queue@.len() == 0,
            final(self).processed@ == old(self).processed@,
            final(self).skipped@ == old(self).skipped@,
            final(self).enqueued@ == old(self).enqueued@,
            final(self).same_but_lists(*old(self)),
            r@.len() == old(self).queue@.len(),
            forall|i: int|
                0 <= i < r@.len() ==> (#[trigger] r@[i]).0 == old(self).queue@[i] && says(
                    r@[i].1,
                    interruption(old(self).was_cancelled || c.user).0,
                    interruption(old(self).was_cancelled || c.user).1,
                ),
    {
        let by_user: bool = self.was_cancelled || c.user;
        let ghost queue = self.queue@;
        let mut ended: Vec<(WorkNode, NodeOutcome)> = Vec::new();
        while self.queue.len() > 0
            invariant
                by_user == (old(self).was_cancelled || c.user),
                ended@.len() + self.queue@.len() == queue.len(),
                self.queue@ == queue.skip(ended@.len() as int),
                self.processed@ == old(self).processed@,
                self.skipped@ == old(self).skipped@,
                self.enqueued@ == old(self).enqueued@,
                self.same_but_lists(*old(self)),
                forall|i: int|
                    0 <= i < ended@.len() ==> (#[trigger] ended@[i]).0 == queue[i] && says(
                        ended@[i].1,
                        interruption(by_user).0,
                        interruption(by_user).1,
                    ),
                old(self).wf(),
            decreases self.queue.len(),
        {
            match self.queue.pop_front() {
                Some(node) => {
                    let outcome = if by_user {
                        outcome_of(NodeStatus::Cancelled, Reason::Cancelled)
                    } else {
                        outcome_of(NodeStatus::Skipped, Reason::TaskStopped)
                    };
                    assert(node == queue[ended@.len() as int]);
                    ended.push((node, outcome));
                    assert(self.queue@ =~= queue.skip(ended@.len() as int));
                },
                None => {},
            }
        }
        ended
    }

    /// Ends the run and says what it amounts to.
    pub fn complete(&mut self, c: Cancellation) -> (r: TaskCompletionStatus)
        requires
            old(self).wf(),
        ensures
            final(self).wf(),
            final(self).same_lists(*old(self)),
            final(self).same_but_lists(TaskRun {
                was_cancelled: old(self).was_cancelled || c.user,
                ..*old(self)
            }),
            r == TaskCompletionStatus::of_counts(
                old(self).processed@.len(),
                old(self).failed_count as nat,
                old(self).was_cancelled || c.user,
            ),
    {
        self.was_cancelled = self.was_cancelled || c.user;
        TaskCompletionStatus::from_counts(self.processed.len(), self.failed_count, self.was_cancelled)
    }
}

/// A node that the end of the task caught has not failed: it is cancelled exactly where the user
/// asked for the end, and is else passed over as one of a task that stopped.
pub proof fn caught_node_has_not_failed(user: bool)
    ensures
        interruption(user).0 != NodeStatus::Failed,
        interruption(user).0 != NodeStatus::Extracted,
        interruption(user).0 == NodeStatus::Cancelled <==> user,
        interruption(user).1 == Reason::Cancelled <==> user,
        interruption(user).1 == Reason::TaskStopped <==> !user,
{
}

/// A task stops at a failure only where it was told to, and only after one.
pub proof fn task_stops_at_a_failure(run: TaskRun)
    ensures
        run.failed_count == 0 ==> !run.stopped(),
        !run.stop_on_error ==> !run.stopped(),
        run.stop_on_error && run.failed_count > 0 ==> run.stopped(),
{
}

} // verus!
