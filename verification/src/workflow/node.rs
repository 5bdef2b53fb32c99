//! The way of one archive through the stages, from its resolution to its end.
//!
//! The driver does what a phase asks for, and tells the flow what came of it. Each answer moves
//! the flow on to the next phase, or ends the node.

use std::collections::VecDeque;

use vstd::prelude::*;
use crate::budget::TaskBudget;
use crate::coordinator::Stage;
use crate::embedded::{DetectionAction, EmbeddedArchiveFinding, EmbeddedScanMode};
use crate::execution::NodeOutcome;
use crate::history::FileExtractionRow;
use crate::interactive::EmbeddedSelectionChoice;
use crate::text::copy_opt;
use crate::types::{ArchiveFormat, Cancellation, ErrorKind, ExtractionCandidate, PasswordCandidate};
use crate::workflow::attempt::{AfterFailure, AttemptFailure, Attempts, NextAttempt, PromptReply, Verdict};
use crate::workflow::dedup::{distinct_groups, lock_order, Screening, TaskDedup};
use crate::workflow::discovery::{
    checks_business_container, confirmation, confirms_finding, finding_step, narrow_to_finding,
    scans_content, settle_format, FindingStep, StageEntry,
};
use crate::workflow::reason::{NodeStatus, Reason};
use crate::workflow::run::{TaskRun, WorkNode};

verus! {

/// What a node waits for.
#[derive(Clone, Copy, Debug, PartialEq, Eq, Structural)]
pub enum Phase {
    /// To enter the first stage.
    Start,
    /// To be told whether it was seen before.
    Resolving,
    /// To be told its volumes.
    Screened,
    /// For the locks on its volumes.
    Locking,
    /// To enter the first stage again, behind the locks.
    Reentering,
    /// For its volumes to be put together, in one grouping.
    Grouping,
    /// For its header to be read.
    Prepared,
    /// For the user to confirm it, where that is called for.
    Probed,
    /// To enter the scan.
    Confirmed,
    /// For what the scan finds.
    Scanning,
    /// For the archives inside it to be queued.
    Expanding,
    /// For one of the findings to be selected.
    Selecting,
    /// For its format to be settled from its header or its name.
    Settling,
    /// For a look at the format of the finding.
    Narrowed,
    /// To be told whether it is a document.
    Settled,
    /// To enter the preparation.
    Classified,
    /// To be opened.
    Preparing,
    /// To enter the analysis of its encoding.
    Opened,
    /// For its encoding to be chosen.
    Encoding,
    /// For the decision whether there is another attempt.
    Looping,
    /// To enter an attempt.
    Attempting,
    /// For a password.
    Choosing,
    /// For a password from the user.
    Asking,
    /// For the attempt to begin.
    Armed,
    /// For what comes of the attempt.
    Extracting,
    /// To enter the planning.
    Staged,
    /// For the decision about its target.
    Planning,
    /// To enter the commit.
    Planned,
    /// For the intent to commit to be recorded.
    Committing,
    /// For the commit.
    Publishing,
    /// For the conclusion from attempts that all failed.
    Concluding,
    /// For the conclusion from a commit.
    Committed,
    /// To enter the search for archives in its output.
    Extracted,
    /// For the archives in its output.
    Children,
    /// For nothing: it has ended.
    Done,
}

impl Phase {
    /// The stage that is entered next.
    pub open spec fn awaited(self) -> Option<Stage> {
        match self {
            Phase::Start => Some(Stage::ResolveInputs),
            Phase::Reentering => Some(Stage::ResolveInputs),
            Phase::Confirmed => Some(Stage::ScanEmbedded),
            Phase::Classified => Some(Stage::PrepareAccess),
            Phase::Opened => Some(Stage::AnalyzeEncoding),
            Phase::Attempting => Some(Stage::ExtractAttempt),
            Phase::Staged => Some(Stage::InspectAndPlan),
            Phase::Planned => Some(Stage::Commit),
            Phase::Extracted => Some(Stage::DiscoverChildren),
            _ => None,
        }
    }

    /// The phase in the stage that was awaited.
    pub open spec fn inside(self) -> Phase {
        match self {
            Phase::Start => Phase::Resolving,
            Phase::Reentering => Phase::Grouping,
            Phase::Confirmed => Phase::Scanning,
            Phase::Classified => Phase::Preparing,
            Phase::Opened => Phase::Encoding,
            Phase::Attempting => Phase::Choosing,
            Phase::Staged => Phase::Planning,
            Phase::Planned => Phase::Committing,
            Phase::Extracted => Phase::Children,
            other => other,
        }
    }

    /// The phase may be followed by the other.
    pub open spec fn leads_to(self, next: Phase) -> bool {
        self == next || next == Phase::Done || match self {
            Phase::Start => next == Phase::Resolving,
            Phase::Resolving => next == Phase::Screened,
            Phase::Screened => next == Phase::Locking,
            Phase::Locking => next == Phase::Reentering || next == Phase::Grouping,
            Phase::Reentering => next == Phase::Grouping,
            Phase::Grouping => next == Phase::Prepared,
            Phase::Prepared => next == Phase::Probed,
            Phase::Probed => next == Phase::Confirmed,
            Phase::Confirmed => next == Phase::Scanning,
            Phase::Scanning => next == Phase::Expanding || next == Phase::Selecting || next
                == Phase::Settling,
            Phase::Selecting => next == Phase::Narrowed,
            Phase::Settling => next == Phase::Settled,
            Phase::Narrowed => next == Phase::Settled,
            Phase::Settled => next == Phase::Classified,
            Phase::Classified => next == Phase::Preparing,
            Phase::Preparing => next == Phase::Opened,
            Phase::Opened => next == Phase::Encoding,
            Phase::Encoding => next == Phase::Looping,
            Phase::Looping => next == Phase::Attempting || next == Phase::Concluding,
            Phase::Attempting => next == Phase::Choosing,
            Phase::Choosing => next == Phase::Armed || next == Phase::Asking || next
                == Phase::Concluding,
            Phase::Asking => next == Phase::Armed || next == Phase::Concluding,
            Phase::Armed => next == Phase::Extracting || next == Phase::Concluding,
            Phase::Extracting => next == Phase::Staged || next == Phase::Looping || next
                == Phase::Concluding,
            Phase::Staged => next == Phase::Planning,
            Phase::Planning => next == Phase::Planned || next == Phase::Looping || next
                == Phase::Concluding,
            Phase::Planned => next == Phase::Committing,
            Phase::Committing => next == Phase::Publishing || next == Phase::Looping || next
                == Phase::Concluding,
            Phase::Publishing => next == Phase::Committed || next == Phase::Looping || next
                == Phase::Concluding,
            Phase::Concluding => next == Phase::Grouping,
            Phase::Committed => next == Phase::Extracted,
            Phase::Extracted => next == Phase::Children,
            _ => false,
        }
    }

    /// How many of the stages a node in this phase has been in.
    pub open spec fn level(self) -> int {
        match self {
            Phase::Start => 0,
            Phase::Resolving | Phase::Screened | Phase::Locking | Phase::Reentering
            | Phase::Grouping | Phase::Prepared | Phase::Probed | Phase::Confirmed => 1,
            Phase::Scanning | Phase::Expanding | Phase::Selecting | Phase::Settling
            | Phase::Narrowed | Phase::Settled | Phase::Classified => 2,
            Phase::Preparing | Phase::Opened => 3,
            Phase::Encoding | Phase::Looping | Phase::Attempting | Phase::Concluding => 4,
            Phase::Choosing | Phase::Asking | Phase::Armed | Phase::Extracting | Phase::Staged => 5,
            Phase::Planning | Phase::Planned => 6,
            Phase::Committing | Phase::Publishing | Phase::Committed | Phase::Extracted => 7,
            Phase::Children => 8,
            Phase::Done => 9,
        }
    }

    /// Says which stage is entered next.
    pub fn next_stage(self) -> (r: Option<Stage>)
        ensures
            r == self.awaited(),
    {
        match self {
            Phase::Start => Some(Stage::ResolveInputs),
            Phase::Reentering => Some(Stage::ResolveInputs),
            Phase::Confirmed => Some(Stage::ScanEmbedded),
            Phase::Classified => Some(Stage::PrepareAccess),
            Phase::Opened => Some(Stage::AnalyzeEncoding),
            Phase::Attempting => Some(Stage::ExtractAttempt),
            Phase::Staged => Some(Stage::InspectAndPlan),
            Phase::Planned => Some(Stage::Commit),
            Phase::Extracted => Some(Stage::DiscoverChildren),
            _ => None,
        }
    }

    fn entered(self) -> (r: Phase)
        ensures
            r == self.inside(),
    {
        match self {
            Phase::Start => Phase::Resolving,
            Phase::Reentering => Phase::Grouping,
            Phase::Confirmed => Phase::Scanning,
            Phase::Classified => Phase::Preparing,
            Phase::Opened => Phase::Encoding,
            Phase::Attempting => Phase::Choosing,
            Phase::Staged => Phase::Planning,
            Phase::Planned => Phase::Committing,
            Phase::Extracted => Phase::Children,
            other => other,
        }
    }
}

/// What is logged of a node that has ended.
#[derive(Clone, Copy, Debug, PartialEq, Eq, Structural)]
pub enum Log {
    Nothing,
    Skipped(Reason),
    /// Skipped, with the words of the error for the reason.
    SkippedForError,
    Failed(Reason),
    /// All attempts were in vain: skipped, or failed.
    InVain { reason: Reason, failed: bool },
    Extracted,
}

/// How a node has ended.
pub struct Ending {
    pub outcome: NodeOutcome,
    pub log: Log,
    /// The whole task is to stop at this failure.
    pub stop_task: bool,
}

/// What follows.
pub enum Step {
    /// The next phase of this node.
    Go,
    /// The next node.
    Next(Ending),
    /// The end of the run.
    Stop(Ending),
    /// The run breaks off.
    Abort(ErrorKind),
}

/// What is known of an archive that was opened.
pub struct KnownFacts {
    pub sample_hash: Option<String>,
    pub file_size: Option<i64>,
    pub encoding: Option<String>,
    pub encoding_corrected: bool,
    pub has_password: bool,
    pub password_id: Option<i64>,
    pub output_files: u64,
    pub output_bytes: u64,
}

impl KnownFacts {
    /// Nothing is known.
    pub open spec fn is_blank(self) -> bool {
        &&& self.sample_hash is None
        &&& self.file_size is None
        &&& self.encoding is None
        &&& !self.encoding_corrected
        &&& self.has_no_success()
    }

    /// Nothing is known from a success.
    pub open spec fn has_no_success(self) -> bool {
        &&& !self.has_password
        &&& self.password_id is None
        &&& self.output_files == 0
        &&& self.output_bytes == 0
    }

    fn blank() -> (r: KnownFacts)
        ensures
            r.is_blank(),
    {
        KnownFacts {
            sample_hash: None,
            file_size: None,
            encoding: None,
            encoding_corrected: false,
            has_password: false,
            password_id: None,
            output_files: 0,
            output_bytes: 0,
        }
    }
}

/// The flow of one node.
pub struct NodeFlow {
    pub phase: Phase,
    pub candidate: ExtractionCandidate,
    /// The candidate as it was before its volumes were put together.
    pub original: ExtractionCandidate,
    /// The volumes may belong together in more than one way.
    pub group_trials: bool,
    /// In how many ways.
    pub groups: usize,
    /// Which of them is tried.
    pub group: usize,
    /// How many trials there were, with this one.
    pub group_attempt: usize,
    pub group_passwords: Vec<PasswordCandidate>,
    pub group_password_needed: bool,
    pub needs_lease: bool,
    pub in_volume_set: bool,
    pub header: Option<(ArchiveFormat, u64)>,
    pub mode: EmbeddedScanMode,
    pub attempts: Attempts,
    pub facts: KnownFacts,
    /// How deep an archive may lie inside others.
    pub recursion_limit: usize,
    /// How the node ends, once its output is committed.
    pub success: Option<NodeOutcome>,
}

/// What is known of an archive that could be opened.
pub struct Access {
    pub sample_hash: Option<String>,
    pub file_size: Option<i64>,
    pub encoding_corrected: bool,
    /// An earlier task extracted the archive, and such archives are left out.
    pub skip: bool,
}

/// What is known of output that was committed.
pub struct Committed {
    /// Where the candidate belongs below the output of the task.
    pub relative_path: String,
    pub has_password: bool,
    pub password_id: Option<i64>,
    pub files: u64,
    pub bytes: u64,
}

/// What came of putting the volumes together.
pub enum Preparation {
    Single(ExtractionCandidate),
    Resolved(ExtractionCandidate),
    Incomplete(ExtractionCandidate),
    Ambiguous(ExtractionCandidate),
    MaterializationFailed(ExtractionCandidate),
}

impl Preparation {
    /// The candidate, whatever came of it.
    pub open spec fn the_candidate(self) -> ExtractionCandidate {
        match self {
            Preparation::Single(candidate) => candidate,
            Preparation::Resolved(candidate) => candidate,
            Preparation::Incomplete(candidate) => candidate,
            Preparation::Ambiguous(candidate) => candidate,
            Preparation::MaterializationFailed(candidate) => candidate,
        }
    }
}

/// The run, after a node has ended without output.
pub open spec fn ended(
    a: TaskRun,
    b: TaskRun,
    candidate: ExtractionCandidate,
    failed: bool,
) -> bool {
    &&& b.queue@ == a.queue@
    &&& b.processed@ == a.processed@
    &&& b.enqueued@ == a.enqueued@
    &&& b.skipped@ == a.skipped@.push(candidate)
    &&& b.same_but_lists(
        TaskRun {
            failed_count: if failed {
                (a.failed_count + 1) as usize
            } else {
                a.failed_count
            },
            ..a
        },
    )
}

/// The run, after the end of the task caught a node.
pub open spec fn caught(a: TaskRun, b: TaskRun, candidate: ExtractionCandidate, c: Cancellation) -> bool {
    &&& b.queue@ == a.queue@
    &&& b.processed@ == a.processed@
    &&& b.enqueued@ == a.enqueued@
    &&& b.skipped@ == a.skipped@.push(candidate)
    &&& b.same_but_lists(TaskRun { was_cancelled: a.was_cancelled || c.user, ..a })
}

/// The run is as it was.
pub open spec fn unchanged(a: TaskRun, b: TaskRun) -> bool {
    a.same_lists(b) && b.same_but_lists(a)
}

/// The ending says this and nothing else.
pub open spec fn is_ending(e: Ending, status: NodeStatus, reason: Reason, log: Log, stop: bool) -> bool {
    &&& crate::workflow::run::says(e.outcome, status, reason)
    &&& e.log == log
    &&& e.stop_task == stop
}

/// The ending is that of a node that the end of the task caught.
pub open spec fn is_caught(e: Ending, c: Cancellation) -> bool {
    is_ending(
        e,
        crate::workflow::run::interruption(c.user).0,
        crate::workflow::run::interruption(c.user).1,
        Log::Nothing,
        false,
    )
}

/// The outcome says this of the archive.
pub open spec fn tells_facts(o: NodeOutcome, f: KnownFacts, offset: Option<u64>) -> bool {
    &&& o.sample_hash == f.sample_hash
    &&& o.file_size == f.file_size
    &&& o.embedded_offset == offset
    &&& o.has_password == f.has_password
    &&& o.password_id == f.password_id
    &&& o.encoding == f.encoding
    &&& o.encoding_corrected == f.encoding_corrected
    &&& o.output_files == f.output_files
    &&& o.output_bytes == f.output_bytes
}

/// The ending says this, and what is known of the archive.
pub open spec fn is_known_ending(
    e: Ending,
    status: NodeStatus,
    reason: Reason,
    log: Log,
    stop: bool,
    facts: KnownFacts,
    offset: Option<u64>,
) -> bool {
    &&& e.outcome.status@ == status.text()
    &&& crate::text::opt_text(e.outcome.reason) == Some(reason.text())
    &&& e.outcome.output_path is None
    &&& !e.outcome.committed
    &&& tells_facts(e.outcome, facts, offset)
    &&& e.log == log
    &&& e.stop_task == stop
}

/// The outcome is that of an archive whose output was committed.
pub open spec fn is_success(
    o: NodeOutcome,
    output_path: Seq<char>,
    facts: KnownFacts,
    offset: Option<u64>,
) -> bool {
    &&& o.status@ == NodeStatus::Extracted.text()
    &&& o.reason is None
    &&& crate::text::opt_text(o.output_path) == Some(output_path)
    &&& o.committed
    &&& tells_facts(o, facts, offset)
}

fn add_facts(outcome: NodeOutcome, f: &KnownFacts, offset: Option<u64>) -> (r: NodeOutcome)
    ensures
        tells_facts(r, *f, offset),
        r.status == outcome.status,
        r.reason == outcome.reason,
        r.output_path == outcome.output_path,
        r.committed == outcome.committed,
{
    NodeOutcome {
        status: outcome.status,
        reason: outcome.reason,
        output_path: outcome.output_path,
        committed: outcome.committed,
        sample_hash: copy_opt(&f.sample_hash),
        file_size: f.file_size,
        embedded_offset: offset,
        has_password: f.has_password,
        password_id: f.password_id,
        encoding: copy_opt(&f.encoding),
        encoding_corrected: f.encoding_corrected,
        output_files: f.output_files,
        output_bytes: f.output_bytes,
    }
}

impl NodeFlow {
    /// The flow in another phase.
    pub open spec fn at(self, phase: Phase) -> NodeFlow {
        NodeFlow { phase, ..self }
    }

    /// How many groupings are left behind the one that is tried.
    pub open spec fn groups_left(self) -> int {
        if self.group_trials {
            self.groups - 1 - self.group
        } else {
            0
        }
    }

    /// The grouping that is tried is one of them, and what is worked on lies within the limit.
    pub open spec fn wf(&self) -> bool {
        &&& self.group_trials == (self.groups > 0)
        &&& self.group_trials ==> self.group < self.groups
        &&& (self.phase == Phase::Extracted || self.phase == Phase::Children) == (self.success
            is Some)
        &&& self.in_attempts() ==> {
            &&& self.attempts.group_trials == self.group_trials
            &&& self.attempts.groups_left == self.groups_left()
            &&& self.attempts.groups == self.groups
            &&& self.attempts.group_password_needed == self.group_password_needed
        }
        &&& self.in_attempts() && self.attempts.restart_groups ==> self.groups > 1
        &&& self.may_attempt() ==> self.attempts.open()
        &&& self.phase == Phase::Looping ==> !self.attempts.restart_groups
            && !self.attempts.prompt_cancelled
        &&& self.phase == Phase::Looping || self.phase == Phase::Concluding
            ==> !self.attempts.extracted
        &&& self.phase == Phase::Committed ==> self.attempts.extracted
            && self.attempts.terminal_skip is None && !self.attempts.restart_groups
        &&& !self.has_success() ==> self.facts.has_no_success()
        &&& self.original.depth == self.candidate.depth
        &&& self.is_screened() ==> self.candidate.depth <= self.recursion_limit
    }

    /// The archive was found not to lie too deep, and is being worked on.
    pub open spec fn is_screened(&self) -> bool {
        self.phase != Phase::Start && self.phase != Phase::Resolving && self.phase != Phase::Done
    }

    /// The archive is being extracted.
    pub open spec fn in_attempts(&self) -> bool {
        self.may_attempt() || self.phase == Phase::Looping || self.phase == Phase::Concluding
            || self.phase == Phase::Committed
    }

    /// An attempt is under way.
    pub open spec fn may_attempt(&self) -> bool {
        self.phase == Phase::Attempting || self.phase == Phase::Choosing || self.phase
            == Phase::Asking || self.phase == Phase::Armed || self.phase == Phase::Extracting
            || self.phase == Phase::Staged || self.phase == Phase::Planning || self.phase
            == Phase::Planned || self.phase == Phase::Committing || self.phase == Phase::Publishing
    }

    /// Something was committed.
    pub open spec fn has_success(&self) -> bool {
        self.success is Some || self.phase == Phase::Committed || self.phase == Phase::Done
    }

    pub fn new(
        candidate: ExtractionCandidate,
        mode: EmbeddedScanMode,
        recursion_limit: usize,
    ) -> (r: NodeFlow)
        ensures
            r.wf(),
            r.phase == Phase::Start,
            r.candidate == candidate,
            r.original == candidate,
            !r.group_trials,
            r.groups == 0,
            r.group == 0,
            r.group_attempt == 1,
            r.group_passwords@.len() == 0,
            !r.group_password_needed,
            r.facts.is_blank(),
            r.header is None,
            r.mode == mode,
            r.recursion_limit == recursion_limit,
    {
        let original = candidate.clone();
        NodeFlow {
            phase: Phase::Start,
            candidate,
            original,
            group_trials: false,
            groups: 0,
            group: 0,
            group_attempt: 1,
            group_passwords: Vec::new(),
            group_password_needed: false,
            needs_lease: false,
            in_volume_set: false,
            header: None,
            mode,
            attempts: Attempts::new(VecDeque::new(), false, 0, 0, false, false, false),
            facts: KnownFacts::blank(),
            recursion_limit,
            success: None,
        }
    }

    fn skip(&mut self, run: &mut TaskRun, reason: Reason) -> (r: Ending)
        requires
            old(self).wf(),
            old(run).wf(),
            old(self).success is None,
        ensures
            final(self).wf(),
            final(run).wf(),
            *final(self) == old(self).at(Phase::Done),
            ended(*old(run), *final(run), old(self).candidate, false),
            is_ending(r, NodeStatus::Skipped, reason, Log::Skipped(reason), false),
    {
        self.phase = Phase::Done;
        let outcome = run.skip(self.candidate.clone(), reason);
        Ending { outcome, log: Log::Skipped(reason), stop_task: false }
    }

    fn fail(&mut self, run: &mut TaskRun, reason: Reason, log: Log) -> (r: Ending)
        requires
            old(self).wf(),
            old(run).wf(),
            old(self).success is None,
            old(run).failed_count < usize::MAX,
        ensures
            final(self).wf(),
            final(run).wf(),
            *final(self) == old(self).at(Phase::Done),
            ended(*old(run), *final(run), old(self).candidate, true),
            is_ending(r, NodeStatus::Failed, reason, log, old(run).stop_on_error),
    {
        self.phase = Phase::Done;
        let (outcome, stop_task) = run.fail(self.candidate.clone(), reason);
        Ending { outcome, log, stop_task }
    }

    fn interrupt(&mut self, run: &mut TaskRun, c: Cancellation) -> (r: Ending)
        requires
            old(self).wf(),
            old(run).wf(),
            old(self).success is None,
        ensures
            final(self).wf(),
            final(run).wf(),
            *final(self) == old(self).at(Phase::Done),
            caught(*old(run), *final(run), old(self).candidate, c),
            is_caught(r, c),
    {
        self.phase = Phase::Done;
        let outcome = run.interrupt(self.candidate.clone(), c);
        Ending { outcome, log: Log::Nothing, stop_task: false }
    }

    /// The node enters the stage that it waits for, or the end of the task catches it.
    pub fn enter(&mut self, run: &mut TaskRun, entry: StageEntry, c: Cancellation) -> (r: Step)
        requires
            old(self).wf(),
            old(run).wf(),
            old(self).phase.awaited() is Some,
            old(self).phase != Phase::Extracted,
        ensures
            final(self).wf(),
            final(run).wf(),
            old(self).phase.leads_to(final(self).phase),
            match entry {
                StageEntry::Entered => {
                    &&& r is Go
                    &&& *final(self) == old(self).at(old(self).phase.inside())
                    &&& unchanged(*old(run), *final(run))
                },
                StageEntry::Interrupted => {
                    &&& *final(self) == old(self).at(Phase::Done)
                    &&& caught(*old(run), *final(run), old(self).candidate, c)
                    &&& r matches Step::Stop(e) && is_caught(e, c)
                },
                StageEntry::Stale => {
                    &&& r == Step::Abort(ErrorKind::BackendFailed)
                    &&& *final(self) == *old(self)
                    &&& unchanged(*old(run), *final(run))
                },
                StageEntry::Broken(error) => {
                    &&& r == Step::Abort(error)
                    &&& *final(self) == *old(self)
                    &&& unchanged(*old(run), *final(run))
                },
            },
    {
        match entry {
            StageEntry::Entered => {
                self.phase = self.phase.entered();
                Step::Go
            },
            StageEntry::Interrupted => Step::Stop(self.interrupt(run, c)),
            StageEntry::Stale => Step::Abort(ErrorKind::BackendFailed),
            StageEntry::Broken(error) => Step::Abort(error),
        }
    }

    /// A candidate that was seen before, lies too deep or is a volume of a set that was taken up
    /// is left alone.
    pub fn screen(
        &mut self,
        run: &mut TaskRun,
        dedup: &mut TaskDedup,
        key: String,
        absolute_path: &str,
    ) -> (r: Step)
        requires
            old(self).wf(),
            old(run).wf(),
            old(self).phase == Phase::Resolving,
            old(dedup).wf(),
        ensures
            final(self).wf(),
            final(run).wf(),
            old(self).phase.leads_to(final(self).phase),
            final(dedup).wf(),
            final(dedup).seen@ == old(dedup).seen@.insert(key@),
            final(dedup).volumes == old(dedup).volumes,
            final(dedup).members == old(dedup).members,
            ({
                let why = if old(dedup).seen@.contains(key@) {
                    Some(Reason::Duplicate)
                } else if old(self).candidate.depth > old(self).recursion_limit {
                    Some(Reason::RecursionLimit)
                } else if old(dedup).is_taken_member(old(self).candidate.source, absolute_path@) {
                    Some(Reason::Duplicate)
                } else {
                    None
                };
                match why {
                    Some(reason) => {
                        &&& *final(self) == old(self).at(Phase::Done)
                        &&& ended(*old(run), *final(run), old(self).candidate, false)
                        &&& r matches Step::Next(e) && is_ending(
                            e,
                            NodeStatus::Skipped,
                            reason,
                            Log::Skipped(reason),
                            false,
                        )
                    },
                    None => {
                        &&& r is Go
                        &&& *final(self) == old(self).at(Phase::Screened)
                        &&& unchanged(*old(run), *final(run))
                    },
                }
            }),
            r is Go <==> !old(dedup).seen@.contains(key@) && old(self).candidate.depth
                <= old(self).recursion_limit && !old(dedup).is_taken_member(
                old(self).candidate.source,
                absolute_path@,
            ),
            final(run).failed_count == old(run).failed_count,
            final(run).skipped@.len() == old(run).skipped@.len() + if r is Go {
                0int
            } else {
                1int
            },
            final(run).processed@ == old(run).processed@,
            final(run).queue@ == old(run).queue@,
    {
        match dedup.screen(&self.candidate, key, absolute_path, self.recursion_limit) {
            Screening::Accept => {
                self.phase = Phase::Screened;
                Step::Go
            },
            Screening::Skip(reason) => Step::Next(self.skip(run, reason)),
        }
    }

    /// Takes in the ways in which the volumes may belong together, and the files that they are.
    /// Gives the ways that differ, and the files in the order in which they are locked.
    pub fn volumes_found(&mut self, keys: &Vec<String>, members: &Vec<String>) -> (r: (
        Vec<usize>,
        Vec<String>,
    ))
        requires
            old(self).wf(),
            old(self).phase == Phase::Screened,
        ensures
            final(self).wf(),
            old(self).phase.leads_to(final(self).phase),
            r.0@.len() == final(self).groups,
            forall|k: int| 0 <= k < r.0@.len() ==> #[trigger] r.0@[k] < keys@.len(),
            forall|a: int, b: int|
                0 <= a < b < r.0@.len() ==> #[trigger] r.0@[a] < #[trigger] r.0@[b],
            forall|i: int|
                0 <= i < keys@.len() ==> r.0@.contains(i as usize)
                    == !crate::workflow::dedup::among(keys@, i, (#[trigger] keys@[i])@),
            crate::workflow::dedup::strictly_sorted(r.1@),
            forall|k: int|
                0 <= k < members@.len() ==> crate::workflow::dedup::has_path(
                    r.1@,
                    (#[trigger] members@[k])@,
                ),
            forall|i: int|
                0 <= i < r.1@.len() ==> crate::workflow::dedup::is_first_name(
                    members@,
                    (#[trigger] r.1@[i])@,
                ),
            *final(self) == (NodeFlow {
                phase: Phase::Locking,
                groups: final(self).groups,
                group_trials: final(self).groups > 0,
                group: 0,
                needs_lease: r.1@.len() > 0,
                ..*old(self)
            }),
    {
        let picked = distinct_groups(keys);
        let locks = lock_order(members);
        self.groups = picked.len();
        self.group_trials = self.groups > 0;
        self.group = 0;
        self.needs_lease = locks.len() > 0;
        self.phase = Phase::Locking;
        (picked, locks)
    }

    /// The locks are held, or the end of the task came first. Meanwhile the candidate may have
    /// been taken up as a volume of another set.
    pub fn locked(
        &mut self,
        run: &mut TaskRun,
        dedup: &TaskDedup,
        absolute_path: &str,
        interrupted: bool,
        c: Cancellation,
    ) -> (r: Step)
        requires
            old(self).wf(),
            old(run).wf(),
            old(self).phase == Phase::Locking,
        ensures
            final(self).wf(),
            final(run).wf(),
            old(self).phase.leads_to(final(self).phase),
            if interrupted {
                &&& *final(self) == old(self).at(Phase::Done)
                &&& caught(*old(run), *final(run), old(self).candidate, c)
                &&& r matches Step::Stop(e) && is_caught(e, c)
            } else if dedup.is_taken_member(old(self).candidate.source, absolute_path@) {
                &&& *final(self) == old(self).at(Phase::Done)
                &&& ended(*old(run), *final(run), old(self).candidate, false)
                &&& r matches Step::Next(e) && is_ending(
                    e,
                    NodeStatus::Skipped,
                    Reason::Duplicate,
                    Log::Skipped(Reason::Duplicate),
                    false,
                )
            } else {
                &&& r is Go
                &&& *final(self) == old(self).at(
                    if old(self).needs_lease {
                        Phase::Reentering
                    } else {
                        Phase::Grouping
                    },
                )
                &&& unchanged(*old(run), *final(run))
            },
            r is Stop <==> interrupted,
            r is Next ==> dedup.is_taken_member(old(self).candidate.source, absolute_path@),
            final(self).phase == Phase::Reentering ==> old(self).needs_lease,
            final(self).candidate == old(self).candidate,
            final(run).failed_count == old(run).failed_count,
    {
        if interrupted {
            return Step::Stop(self.interrupt(run, c));
        }
        if dedup.member_taken(self.candidate.source, absolute_path) {
            return Step::Next(self.skip(run, Reason::Duplicate));
        }
        if self.needs_lease {
            self.phase = Phase::Reentering;
        } else {
            self.phase = Phase::Grouping;
        }
        Step::Go
    }

    /// Takes up the one set that the candidate belongs to, unless another candidate has.
    pub fn claim_set(
        &mut self,
        run: &mut TaskRun,
        dedup: &mut TaskDedup,
        key: String,
        members: &Vec<String>,
    ) -> (r: Step)
        requires
            old(self).wf(),
            old(run).wf(),
            old(self).phase == Phase::Grouping,
            !old(self).group_trials,
            old(dedup).wf(),
        ensures
            final(self).wf(),
            final(run).wf(),
            old(self).phase.leads_to(final(self).phase),
            final(dedup).wf(),
            final(dedup).seen == old(dedup).seen,
            final(dedup).volumes@ == old(dedup).volumes@.insert(key@),
            if old(dedup).volumes@.contains(key@) {
                &&& final(dedup).members@ == old(dedup).members@
                &&& *final(self) == old(self).at(Phase::Done)
                &&& ended(*old(run), *final(run), old(self).candidate, false)
                &&& r matches Step::Next(e) && is_ending(
                    e,
                    NodeStatus::Skipped,
                    Reason::Duplicate,
                    Log::Skipped(Reason::Duplicate),
                    false,
                )
            } else {
                &&& final(dedup).members@ == TaskDedup::with_members(
                    old(dedup).members@,
                    members@,
                )
                &&& r is Go
                &&& *final(self) == *old(self)
                &&& unchanged(*old(run), *final(run))
            },
            r is Go <==> !old(dedup).volumes@.contains(key@),
            final(dedup).volumes@.contains(key@),
            final(run).failed_count == old(run).failed_count,
    {
        match dedup.claim_volume_set(key, members) {
            Screening::Accept => Step::Go,
            Screening::Skip(reason) => Step::Next(self.skip(run, reason)),
        }
    }

    /// The volumes were put together, or could not be. They lie as deep as the candidate does.
    pub fn prepared(&mut self, run: &mut TaskRun, preparation: Preparation) -> (r: Step)
        requires
            old(self).wf(),
            old(run).wf(),
            preparation.the_candidate().depth == old(self).candidate.depth,
            old(self).phase == Phase::Grouping,
            old(run).failed_count < usize::MAX,
        ensures
            final(self).wf(),
            final(run).wf(),
            old(self).phase.leads_to(final(self).phase),
            match preparation {
                Preparation::Single(candidate) => {
                    &&& r is Go
                    &&& *final(self) == (NodeFlow {
                        phase: Phase::Prepared,
                        candidate,
                        in_volume_set: false,
                        ..*old(self)
                    })
                    &&& unchanged(*old(run), *final(run))
                },
                Preparation::Resolved(candidate) => {
                    &&& r is Go
                    &&& *final(self) == (NodeFlow {
                        phase: Phase::Prepared,
                        candidate,
                        in_volume_set: true,
                        ..*old(self)
                    })
                    &&& unchanged(*old(run), *final(run))
                },
                Preparation::Incomplete(candidate) => {
                    &&& *final(self) == (NodeFlow { phase: Phase::Done, candidate, ..*old(self) })
                    &&& ended(*old(run), *final(run), candidate, true)
                    &&& r matches Step::Next(e) && is_ending(
                        e,
                        NodeStatus::Failed,
                        Reason::IncompleteVolume,
                        Log::Failed(Reason::IncompleteVolume),
                        old(run).stop_on_error,
                    )
                },
                Preparation::Ambiguous(candidate) => {
                    &&& *final(self) == (NodeFlow { phase: Phase::Done, candidate, ..*old(self) })
                    &&& ended(*old(run), *final(run), candidate, true)
                    &&& r matches Step::Next(e) && is_ending(
                        e,
                        NodeStatus::Failed,
                        Reason::GroupingAmbiguous,
                        Log::Failed(Reason::GroupingAmbiguous),
                        old(run).stop_on_error,
                    )
                },
                Preparation::MaterializationFailed(candidate) => {
                    &&& *final(self) == (NodeFlow { phase: Phase::Done, candidate, ..*old(self) })
                    &&& ended(*old(run), *final(run), candidate, true)
                    &&& r matches Step::Next(e) && is_ending(
                        e,
                        NodeStatus::Failed,
                        Reason::MaterializeFailed,
                        Log::Failed(Reason::MaterializeFailed),
                        old(run).stop_on_error,
                    )
                },
            },
    {
        match preparation {
            Preparation::Single(candidate) => {
                self.candidate = candidate;
                self.in_volume_set = false;
                self.phase = Phase::Prepared;
                Step::Go
            },
            Preparation::Resolved(candidate) => {
                self.candidate = candidate;
                self.in_volume_set = true;
                self.phase = Phase::Prepared;
                Step::Go
            },
            Preparation::Incomplete(candidate) => {
                self.candidate = candidate;
                Step::Next(
                    self.fail(run, Reason::IncompleteVolume, Log::Failed(Reason::IncompleteVolume)),
                )
            },
            Preparation::Ambiguous(candidate) => {
                self.candidate = candidate;
                Step::Next(
                    self.fail(
                        run,
                        Reason::GroupingAmbiguous,
                        Log::Failed(Reason::GroupingAmbiguous),
                    ),
                )
            },
            Preparation::MaterializationFailed(candidate) => {
                self.candidate = candidate;
                Step::Next(
                    self.fail(
                        run,
                        Reason::MaterializeFailed,
                        Log::Failed(Reason::MaterializeFailed),
                    ),
                )
            },
        }
    }

    /// The candidate's header was read, or the file cannot be opened: that is a failure, and is
    /// logged as a file that was not found.
    pub fn probed(
        &mut self,
        run: &mut TaskRun,
        readable: bool,
        header: Option<(ArchiveFormat, u64)>,
        mode: EmbeddedScanMode,
    ) -> (r: Step)
        requires
            old(self).wf(),
            old(run).wf(),
            old(self).phase == Phase::Prepared,
            old(run).failed_count < usize::MAX,
        ensures
            final(self).wf(),
            final(run).wf(),
            old(self).phase.leads_to(final(self).phase),
            if readable {
                &&& r is Go
                &&& *final(self) == (NodeFlow { phase: Phase::Probed, header, mode, ..*old(self) })
                &&& unchanged(*old(run), *final(run))
            } else {
                &&& *final(self) == (NodeFlow { phase: Phase::Done, header, mode, ..*old(self) })
                &&& ended(*old(run), *final(run), old(self).candidate, true)
                &&& r matches Step::Next(e) && is_ending(
                    e,
                    NodeStatus::Failed,
                    Reason::NotFound,
                    Log::Skipped(Reason::NotFound),
                    old(run).stop_on_error,
                )
            },
    {
        self.header = header;
        self.mode = mode;
        if readable {
            self.phase = Phase::Probed;
            Step::Go
        } else {
            Step::Next(self.fail(run, Reason::NotFound, Log::Skipped(Reason::NotFound)))
        }
    }

    /// The user confirms this candidate.
    pub open spec fn needs_confirmation(&self, extract_all: bool) -> bool {
        self.candidate.source == crate::types::CandidateSource::EmbeddedFinding && (self.mode
            == EmbeddedScanMode::Ask || (self.mode == EmbeddedScanMode::Auto && self.candidate.depth
            > 0)) && !extract_all
    }

    /// Whether the user is to be asked to confirm this candidate.
    pub fn asks_confirmation(&self, run: &TaskRun) -> (r: bool)
        ensures
            r == self.needs_confirmation(run.embedded_extract_all),
    {
        confirms_finding(
            self.candidate.source,
            self.candidate.depth,
            self.mode,
            run.embedded_extract_all,
        )
    }

    /// Takes in what the user said about this candidate, where the user is asked. Without a word
    /// for it the candidate is skipped.
    pub fn confirm(
        &mut self,
        run: &mut TaskRun,
        choice: Option<EmbeddedSelectionChoice>,
        interrupted: bool,
        c: Cancellation,
    ) -> (r: Step)
        requires
            old(self).wf(),
            old(run).wf(),
            old(self).phase == Phase::Probed,
        ensures
            final(self).wf(),
            final(run).wf(),
            old(self).phase.leads_to(final(self).phase),
            ({
                let asked = old(self).needs_confirmation(old(run).embedded_extract_all);
                let all = asked && choice == Some(EmbeddedSelectionChoice::ExtractAll);
                if asked && interrupted {
                    &&& *final(self) == old(self).at(Phase::Done)
                    &&& caught(*old(run), *final(run), old(self).candidate, c)
                    &&& r matches Step::Stop(e) && is_caught(e, c)
                } else if !asked || all || choice == Some(EmbeddedSelectionChoice::Extract) {
                    &&& r is Go
                    &&& *final(self) == old(self).at(Phase::Confirmed)
                    &&& final(run).same_lists(*old(run))
                    &&& final(run).same_but_lists(
                        TaskRun {
                            embedded_extract_all: old(run).embedded_extract_all || all,
                            ..*old(run)
                        },
                    )
                } else {
                    &&& *final(self) == old(self).at(Phase::Done)
                    &&& ended(*old(run), *final(run), old(self).candidate, false)
                    &&& r matches Step::Next(e) && is_ending(
                        e,
                        NodeStatus::Skipped,
                        Reason::NotFound,
                        Log::Skipped(Reason::NotFound),
                        false,
                    )
                }
            }),
            !crate::workflow::discovery::asks_first(
                old(self).candidate.source,
                old(self).candidate.depth,
                old(self).mode,
                old(run).embedded_extract_all,
            ) ==> r is Go,
            r is Stop ==> interrupted,
            r is Next ==> choice is None || choice == Some(EmbeddedSelectionChoice::Skip),
            final(run).embedded_extract_all && !old(run).embedded_extract_all ==> r is Go && choice == Some(
                EmbeddedSelectionChoice::ExtractAll,
            ),
            old(run).embedded_extract_all ==> r is Go && final(run).embedded_extract_all,
            final(self).candidate == old(self).candidate,
            final(run).failed_count == old(run).failed_count,
            final(run).processed@ == old(run).processed@,
    {
        if !self.asks_confirmation(run) {
            self.phase = Phase::Confirmed;
            return Step::Go;
        }
        if interrupted {
            return Step::Stop(self.interrupt(run, c));
        }
        let (extract, all) = confirmation(choice);
        if !extract {
            return Step::Next(self.skip(run, Reason::NotFound));
        }
        if all {
            run.embedded_extract_all = true;
        }
        self.phase = Phase::Confirmed;
        Step::Go
    }

    /// Whether the content is scanned.
    pub fn scans(&self, deep_scan: bool, policy_allows: bool) -> (r: bool)
        ensures
            r == (!self.in_volume_set && policy_allows && (self.candidate.source
                == crate::types::CandidateSource::RootInput
                || !crate::workflow::discovery::is_header_archive(self.header) || deep_scan
                || self.mode == EmbeddedScanMode::All || self.mode
                == EmbeddedScanMode::Aggressive)),
            r == crate::workflow::discovery::is_scanned(
                self.candidate.source,
                self.in_volume_set,
                self.header,
                deep_scan,
                self.mode,
                policy_allows,
            ),
    {
        scans_content(
            self.candidate.source,
            self.in_volume_set,
            &self.header,
            deep_scan,
            self.mode,
            policy_allows,
        )
    }

    /// The scan is over: archives that become candidates of their own come first, then the
    /// findings among which one is selected.
    pub fn scanned(
        &mut self,
        run: &mut TaskRun,
        result: Result<(usize, usize), ErrorKind>,
        c: Cancellation,
    ) -> (r: Step)
        requires
            old(self).wf(),
            old(run).wf(),
            old(self).phase == Phase::Scanning,
        ensures
            final(self).wf(),
            final(run).wf(),
            old(self).phase.leads_to(final(self).phase),
            match result {
                Ok((findings, roots)) => {
                    &&& r is Go
                    &&& *final(self) == old(self).at(
                        if roots > 0 {
                            Phase::Expanding
                        } else if findings > 0 {
                            Phase::Selecting
                        } else {
                            Phase::Settling
                        },
                    )
                    &&& unchanged(*old(run), *final(run))
                },
                Err(error) => if error == ErrorKind::Cancelled && c.cancelled {
                    &&& *final(self) == old(self).at(Phase::Done)
                    &&& caught(*old(run), *final(run), old(self).candidate, c)
                    &&& r matches Step::Stop(e) && is_caught(e, c)
                } else {
                    &&& r == Step::Abort(error)
                    &&& *final(self) == *old(self)
                    &&& unchanged(*old(run), *final(run))
                },
            },
            r is Stop ==> c.cancelled && result == Err::<(usize, usize), ErrorKind>(ErrorKind::Cancelled),
            r is Go <==> result is Ok,
            r matches Step::Abort(error) ==> result == Err::<(usize, usize), ErrorKind>(error)
                && final(self).phase == Phase::Scanning,
            final(self).candidate == old(self).candidate,
            final(run).failed_count == old(run).failed_count,
    {
        match result {
            Ok((findings, roots)) => {
                if roots > 0 {
                    self.phase = Phase::Expanding;
                } else if findings > 0 {
                    self.phase = Phase::Selecting;
                } else {
                    self.phase = Phase::Settling;
                }
                Step::Go
            },
            Err(error) => if error == ErrorKind::Cancelled && c.cancelled {
                Step::Stop(self.interrupt(run, c))
            } else {
                Step::Abort(error)
            },
        }
    }

    /// Counts one archive that was found inside this one against the limit of the task.
    pub fn reserve_embedded(&mut self, run: &mut TaskRun, budget: &mut TaskBudget, limit: usize) -> (r:
        Step)
        requires
            old(self).wf(),
            old(run).wf(),
            old(self).phase == Phase::Expanding,
            old(budget).wf(),
            old(run).failed_count < usize::MAX,
        ensures
            final(self).wf(),
            final(run).wf(),
            old(self).phase.leads_to(final(self).phase),
            final(budget).wf(),
            final(budget).same_but_nested(*old(budget)),
            if old(budget).nested() < limit {
                &&& r is Go
                &&& final(budget).nested() == old(budget).nested() + 1
                &&& *final(self) == *old(self)
                &&& unchanged(*old(run), *final(run))
            } else {
                &&& final(budget).nested() == old(budget).nested()
                &&& *final(self) == old(self).at(Phase::Done)
                &&& ended(*old(run), *final(run), old(self).candidate, true)
                &&& r matches Step::Stop(e) && is_ending(
                    e,
                    NodeStatus::Failed,
                    Reason::NestedCandidateLimit,
                    Log::Nothing,
                    old(run).stop_on_error,
                )
            },
    {
        if budget.reserve_nested(limit) {
            Step::Go
        } else {
            Step::Stop(self.fail(run, Reason::NestedCandidateLimit, Log::Nothing))
        }
    }

    /// Takes in an archive that was found inside this one, and says whether it is to be queued.
    /// One that the task holds already gives its place back. A task that is ending takes it in
    /// any case: the node is then ended with all others.
    pub fn embedded_recorded(
        &mut self,
        run: &mut TaskRun,
        budget: &mut TaskBudget,
        found: &ExtractionCandidate,
        inserted: bool,
        cancelled: bool,
    ) -> (r: bool)
        requires
            old(self).wf(),
            old(run).wf(),
            old(self).phase == Phase::Expanding,
            old(budget).wf(),
            old(budget).nested() > 0,
        ensures
            final(run).wf(),
            *final(self) == *old(self),
            final(budget).wf(),
            final(budget).same_but_nested(*old(budget)),
            r == (inserted || cancelled),
            final(run).queue@ == old(run).queue@,
            final(run).processed@ == old(run).processed@,
            final(run).skipped@ == old(run).skipped@,
            final(run).enqueued@ == (if r {
                old(run).enqueued@.push(*found)
            } else {
                old(run).enqueued@
            }),
            final(run).same_but_lists(*old(run)),
            final(budget).nested() == (if r {
                old(budget).nested() as int
            } else {
                old(budget).nested() - 1
            }),
    {
        if inserted || cancelled {
            run.announce(found);
            true
        } else {
            budget.release_nested();
            false
        }
    }

    /// The archives inside this one are queued in its place, before all others.
    pub fn expanded(&mut self, run: &mut TaskRun, found: Vec<WorkNode>) -> (r: Step)
        requires
            old(self).wf(),
            old(run).wf(),
            old(self).phase == Phase::Expanding,
        ensures
            final(self).wf(),
            final(run).wf(),
            old(self).phase.leads_to(final(self).phase),
            *final(self) == old(self).at(Phase::Done),
            final(run).queue@ == found@ + old(run).queue@,
            final(run).processed@ == old(run).processed@,
            final(run).skipped@ == old(run).skipped@,
            final(run).enqueued@ == old(run).enqueued@,
            final(run).same_but_lists(*old(run)),
            r matches Step::Next(e) && is_ending(
                e,
                NodeStatus::Skipped,
                Reason::ExpandedToEmbedded,
                Log::Nothing,
                false,
            ),
    {
        self.phase = Phase::Done;
        let outcome = run.expand_root(found);
        Step::Next(Ending { outcome, log: Log::Nothing, stop_task: false })
    }

    /// One of the findings is selected, by rule or by the user, or the candidate is skipped.
    pub fn select(
        &mut self,
        run: &mut TaskRun,
        findings: &Vec<EmbeddedArchiveFinding>,
        action: DetectionAction,
        selected: Option<usize>,
        choice: Option<EmbeddedSelectionChoice>,
        interrupted: bool,
        c: Cancellation,
    ) -> (r: Step)
        requires
            old(self).wf(),
            old(run).wf(),
            old(self).phase == Phase::Selecting,
        ensures
            final(self).wf(),
            final(run).wf(),
            old(self).phase.leads_to(final(self).phase),
            ({
                let asks = action == DetectionAction::AskUser && !old(run).embedded_extract_all;
                let all = asks && choice == Some(EmbeddedSelectionChoice::ExtractAll);
                let taken = action == DetectionAction::ExtractDirect || action
                    == DetectionAction::CarveAndExtract || (action == DetectionAction::AskUser
                    && !asks) || (asks && (all || choice == Some(
                    EmbeddedSelectionChoice::Extract,
                )));
                if asks && interrupted {
                    &&& *final(self) == old(self).at(Phase::Done)
                    &&& caught(*old(run), *final(run), old(self).candidate, c)
                    &&& r matches Step::Stop(e) && is_caught(e, c)
                } else if taken {
                    &&& r is Go
                    &&& *final(self) == (NodeFlow {
                        phase: Phase::Narrowed,
                        candidate: crate::workflow::discovery::narrowed(
                            old(self).candidate,
                            findings@,
                            selected,
                        ),
                        ..*old(self)
                    })
                    &&& final(run).same_lists(*old(run))
                    &&& final(run).same_but_lists(
                        TaskRun {
                            embedded_extract_all: old(run).embedded_extract_all || all,
                            ..*old(run)
                        },
                    )
                } else {
                    &&& *final(self) == old(self).at(Phase::Done)
                    &&& ended(*old(run), *final(run), old(self).candidate, false)
                    &&& r matches Step::Next(e) && is_ending(
                        e,
                        NodeStatus::Skipped,
                        Reason::NotFound,
                        Log::Skipped(Reason::NotFound),
                        false,
                    )
                }
            }),
            r is Stop ==> interrupted && action == DetectionAction::AskUser,
            action == DetectionAction::ExtractDirect || action == DetectionAction::CarveAndExtract ==> r
                is Go,
            action == DetectionAction::SkipByDefault || action == DetectionAction::ReportOnly ==> r is Next,
            action == DetectionAction::AskUser && old(run).embedded_extract_all ==> r is Go,
            final(run).embedded_extract_all && !old(run).embedded_extract_all ==> action
                == DetectionAction::AskUser && choice == Some(EmbeddedSelectionChoice::ExtractAll),
            old(run).embedded_extract_all ==> final(run).embedded_extract_all,
            r !is Go ==> final(self).candidate == old(self).candidate,
            final(self).candidate.path == old(self).candidate.path,
            final(self).candidate.depth == old(self).candidate.depth,
            final(run).failed_count == old(run).failed_count,
            final(run).processed@ == old(run).processed@,
    {
        match finding_step(action, run.embedded_extract_all) {
            FindingStep::Skip => {
                return Step::Next(self.skip(run, Reason::NotFound));
            },
            FindingStep::Ask => {
                if interrupted {
                    return Step::Stop(self.interrupt(run, c));
                }
                let (extract, all) = confirmation(choice);
                if !extract {
                    return Step::Next(self.skip(run, Reason::NotFound));
                }
                if all {
                    run.embedded_extract_all = true;
                }
            },
            FindingStep::Proceed { .. } => {},
        }
        narrow_to_finding(&mut self.candidate, findings, selected);
        self.phase = Phase::Narrowed;
        Step::Go
    }

    /// The candidate with the format that it is taken to have.
    pub open spec fn settled(&self, by_extension: Option<ArchiveFormat>) -> ExtractionCandidate {
        if self.phase == Phase::Narrowed || self.candidate.detected_format is Some {
            self.candidate
        } else {
            match self.header {
                Some((format, offset)) => ExtractionCandidate {
                    detected_format: Some(format),
                    embedded_offset: if offset > 0 {
                        Some(offset)
                    } else {
                        self.candidate.embedded_offset
                    },
                    ..self.candidate
                },
                None => ExtractionCandidate { detected_format: by_extension, ..self.candidate },
            }
        }
    }

    /// Settles the format of a candidate. One without any is skipped.
    pub fn settle(&mut self, run: &mut TaskRun, by_extension: Option<ArchiveFormat>) -> (r: Step)
        requires
            old(self).wf(),
            old(run).wf(),
            old(self).phase == Phase::Settling || old(self).phase == Phase::Narrowed,
        ensures
            final(self).wf(),
            final(run).wf(),
            old(self).phase.leads_to(final(self).phase),
            ({
                let candidate = old(self).settled(by_extension);
                if candidate.detected_format is Some {
                    &&& r is Go
                    &&& *final(self) == (NodeFlow { phase: Phase::Settled, candidate, ..*old(self) })
                    &&& unchanged(*old(run), *final(run))
                } else {
                    &&& *final(self) == (NodeFlow { phase: Phase::Done, candidate, ..*old(self) })
                    &&& ended(*old(run), *final(run), candidate, false)
                    &&& r matches Step::Next(e) && is_ending(
                        e,
                        NodeStatus::Skipped,
                        Reason::NotFound,
                        Log::Skipped(Reason::NotFound),
                        false,
                    )
                }
            }),
    {
        if self.phase == Phase::Settling {
            let header = match &self.header {
                Some((format, offset)) => Some((format.clone(), *offset)),
                None => None,
            };
            settle_format(&mut self.candidate, header, by_extension);
        }
        if self.candidate.detected_format.is_none() {
            return Step::Next(self.skip(run, Reason::NotFound));
        }
        self.phase = Phase::Settled;
        Step::Go
    }

    /// Whether the candidate is looked at as a document.
    pub fn asks_container(&self) -> (r: bool)
        ensures
            r == (self.candidate.depth > 0 && self.candidate.detected_format == Some(
                ArchiveFormat::Zip,
            )),
    {
        checks_business_container(&self.candidate)
    }

    /// A nested document is left alone.
    pub fn classified(&mut self, run: &mut TaskRun, is_document: bool) -> (r: Step)
        requires
            old(self).wf(),
            old(run).wf(),
            old(self).phase == Phase::Settled,
        ensures
            final(self).wf(),
            final(run).wf(),
            old(self).phase.leads_to(final(self).phase),
            if is_document && old(self).candidate.depth > 0
                && old(self).candidate.detected_format == Some(ArchiveFormat::Zip) {
                &&& *final(self) == old(self).at(Phase::Done)
                &&& ended(*old(run), *final(run), old(self).candidate, false)
                &&& r matches Step::Next(e) && is_ending(
                    e,
                    NodeStatus::Skipped,
                    Reason::BusinessContainer,
                    Log::Skipped(Reason::BusinessContainer),
                    false,
                )
            } else {
                &&& r is Go
                &&& *final(self) == old(self).at(Phase::Classified)
                &&& unchanged(*old(run), *final(run))
            },
    {
        if is_document && self.asks_container() {
            return Step::Next(self.skip(run, Reason::BusinessContainer));
        }
        self.phase = Phase::Classified;
        Step::Go
    }

    /// The archive was opened, or could not be. One that an earlier task extracted is skipped.
    pub fn opened(&mut self, run: &mut TaskRun, access: Option<Access>) -> (r: Step)
        requires
            old(self).wf(),
            old(run).wf(),
            old(self).phase == Phase::Preparing,
            old(run).failed_count < usize::MAX,
        ensures
            final(self).wf(),
            final(run).wf(),
            old(self).phase.leads_to(final(self).phase),
            match access {
                None => {
                    &&& *final(self) == old(self).at(Phase::Done)
                    &&& ended(*old(run), *final(run), old(self).candidate, true)
                    &&& r matches Step::Next(e) && is_ending(
                        e,
                        NodeStatus::Failed,
                        Reason::PrepareAccessFailed,
                        Log::SkippedForError,
                        old(run).stop_on_error,
                    )
                },
                Some(known) => if known.skip {
                    &&& *final(self) == old(self).at(Phase::Done)
                    &&& ended(*old(run), *final(run), old(self).candidate, false)
                    &&& r matches Step::Next(e) && is_ending(
                        e,
                        NodeStatus::Skipped,
                        Reason::AlreadyExtracted,
                        Log::Skipped(Reason::AlreadyExtracted),
                        false,
                    )
                } else {
                    &&& r is Go
                    &&& *final(self) == (NodeFlow {
                        phase: Phase::Opened,
                        facts: KnownFacts {
                            sample_hash: known.sample_hash,
                            file_size: known.file_size,
                            encoding: None,
                            encoding_corrected: known.encoding_corrected,
                            ..old(self).facts
                        },
                        ..*old(self)
                    })
                    &&& unchanged(*old(run), *final(run))
                },
            },
            access is None <==> final(run).failed_count == old(run).failed_count + 1,
            access is Some ==> final(run).failed_count == old(run).failed_count,
            r is Go <==> access is Some && !access->0.skip,
            r is Go ==> final(self).facts.sample_hash == access->0.sample_hash,
            r is Go ==> final(self).facts.file_size == access->0.file_size,
            r !is Go ==> final(run).skipped@.last() == old(self).candidate,
            final(run).processed@ == old(run).processed@,
    {
        match access {
            None => Step::Next(self.fail(run, Reason::PrepareAccessFailed, Log::SkippedForError)),
            Some(known) => {
                if known.skip {
                    return Step::Next(self.skip(run, Reason::AlreadyExtracted));
                }
                self.facts.sample_hash = known.sample_hash;
                self.facts.file_size = known.file_size;
                self.facts.encoding = None;
                self.facts.encoding_corrected = known.encoding_corrected;
                self.phase = Phase::Opened;
                Step::Go
            },
        }
    }

    /// The encoding is chosen, or the archive is skipped for want of a choice: `chosen` is
    /// `false`. Then the attempts begin.
    pub fn encoding_chosen(
        &mut self,
        run: &mut TaskRun,
        chosen: bool,
        passwords: VecDeque<PasswordCandidate>,
        has_prompter: bool,
        interrupted: bool,
        c: Cancellation,
    ) -> (r: Step)
        requires
            old(self).wf(),
            old(run).wf(),
            old(self).phase == Phase::Encoding,
        ensures
            final(self).wf(),
            final(run).wf(),
            old(self).phase.leads_to(final(self).phase),
            if interrupted {
                &&& *final(self) == old(self).at(Phase::Done)
                &&& caught(*old(run), *final(run), old(self).candidate, c)
                &&& r matches Step::Stop(e) && is_caught(e, c)
            } else {
                &&& r is Go
                &&& *final(self) == (NodeFlow {
                    phase: Phase::Looping,
                    attempts: final(self).attempts,
                    ..*old(self)
                })
                &&& final(self).attempts.pending@ == passwords@
                &&& final(self).attempts.total == passwords@.len()
                &&& final(self).attempts.index == 0
                &&& !final(self).attempts.password_trouble()
                &&& final(self).attempts.last_error is None
                &&& final(self).attempts.has_prompter == has_prompter
                &&& !final(self).attempts.group_retry_allowed
                &&& final(self).attempts.terminal_skip == (if chosen {
                    None::<Reason>
                } else {
                    Some(Reason::EncodingSkipped)
                })
                &&& unchanged(*old(run), *final(run))
            },
    {
        if interrupted {
            return Step::Stop(self.interrupt(run, c));
        }
        let left: usize = if self.group_trials {
            self.groups - 1 - self.group
        } else {
            0
        };
        self.attempts =
        Attempts::new(
            passwords,
            self.group_trials,
            left,
            self.groups,
            self.group_password_needed,
            has_prompter,
            !chosen,
        );
        self.phase = Phase::Looping;
        Step::Go
    }

    /// Another attempt follows unless one has decided the archive or the task is ending.
    pub fn attempt_again(&mut self, cancelled: bool)
        requires
            old(self).wf(),
            old(self).phase == Phase::Looping,
        ensures
            final(self).wf(),
            old(self).phase.leads_to(final(self).phase),
            *final(self) == old(self).at(
                if old(self).attempts.terminal_skip is None && !cancelled {
                    Phase::Attempting
                } else {
                    Phase::Concluding
                },
            ),
    {
        if self.attempts.terminal_skip.is_none() && !cancelled {
            self.phase = Phase::Attempting;
        } else {
            self.phase = Phase::Concluding;
        }
    }

    /// Takes the next password, or says that the user is asked for one.
    pub fn next_password(&mut self) -> (r: NextAttempt)
        requires
            old(self).wf(),
            old(self).phase == Phase::Choosing,
        ensures
            final(self).wf(),
            old(self).phase.leads_to(final(self).phase),
            *final(self) == (NodeFlow {
                phase: match r {
                    NextAttempt::Try(_) => Phase::Armed,
                    NextAttempt::AskUser => Phase::Asking,
                    NextAttempt::Stop => Phase::Concluding,
                },
                attempts: final(self).attempts,
                ..*old(self)
            }),
            ({
                let before = old(self).attempts;
                let after = final(self).attempts;
                &&& after.pending@ == (if before.pending@.len() > 0 {
                    before.pending@.drop_first()
                } else {
                    before.pending@
                })
                &&& after.same_but_pending(
                    Attempts { prompt_cancelled: after.prompt_cancelled, ..before },
                )
                &&& match r {
                    NextAttempt::Try(password) => {
                        &&& before.pending@.len() > 0
                        &&& password == before.pending@[0]
                        &&& !after.prompt_cancelled
                    },
                    NextAttempt::AskUser => {
                        &&& before.pending@.len() == 0
                        &&& before.wants_password()
                        &&& !(before.group_trials && before.groups_left > 0)
                        &&& before.has_prompter
                        &&& !after.prompt_cancelled
                    },
                    NextAttempt::Stop => {
                        &&& before.pending@.len() == 0
                        &&& after.prompt_cancelled == before.wants_password()
                        &&& before.wants_password() ==> !before.has_prompter || (
                        before.group_trials && before.groups_left > 0)
                    },
                }
            }),
    {
        let next = self.attempts.next_password();
        match &next {
            NextAttempt::Try(_) => {
                self.phase = Phase::Armed;
            },
            NextAttempt::AskUser => {
                self.phase = Phase::Asking;
            },
            NextAttempt::Stop => {
                self.phase = Phase::Concluding;
            },
        }
        next
    }

    /// Takes in the user's answer: a password to try, or the end of the attempts.
    pub fn answered(
        &mut self,
        run: &mut TaskRun,
        input: Option<String>,
        interrupted: bool,
        c: Cancellation,
    ) -> (r: (Step, Option<PasswordCandidate>))
        requires
            old(self).wf(),
            old(run).wf(),
            old(self).phase == Phase::Asking,
        ensures
            final(self).wf(),
            final(run).wf(),
            old(self).phase.leads_to(final(self).phase),
            if interrupted {
                &&& *final(self) == old(self).at(Phase::Done)
                &&& caught(*old(run), *final(run), old(self).candidate, c)
                &&& r.1 is None
                &&& r.0 matches Step::Stop(e) && is_caught(e, c)
            } else {
                let given = input is Some && input->0@.len() > 0;
                let password = PasswordCandidate {
                    id: None,
                    value: input->0,
                    source: crate::types::PasswordSource::Manual,
                };
                &&& r.0 is Go
                &&& unchanged(*old(run), *final(run))
                &&& r.1 == (if given && old(self).groups <= 1 {
                    Some(password)
                } else {
                    None
                })
                &&& *final(self) == (NodeFlow {
                    phase: if r.1 is Some {
                        Phase::Armed
                    } else {
                        Phase::Concluding
                    },
                    attempts: final(self).attempts,
                    group_passwords: final(self).group_passwords,
                    ..*old(self)
                })
                &&& final(self).group_passwords@ == (if given && old(self).groups > 1 {
                    old(self).group_passwords@.push(password)
                } else {
                    old(self).group_passwords@
                })
                &&& final(self).attempts == (Attempts {
                    prompt_cancelled: !given,
                    restart_groups: given && old(self).groups > 1,
                    ..old(self).attempts
                })
            },
            r.1 is Some <==> !interrupted && input is Some && input->0@.len() > 0 && old(self).groups <= 1,
            r.1 matches Some(password) ==> password.value@ == input->0@ && password.id is None,
            !interrupted && (input is None || input->0@.len() == 0) ==> final(self).attempts.prompt_cancelled
                && final(self).group_passwords@ == old(self).group_passwords@,
            r.0 is Stop <==> interrupted,
            final(run).failed_count == old(run).failed_count,
    {
        if interrupted {
            return (Step::Stop(self.interrupt(run, c)), None);
        }
        match self.attempts.answer(input, &mut self.group_passwords) {
            PromptReply::Try(password) => {
                self.phase = Phase::Armed;
                (Step::Go, Some(password))
            },
            PromptReply::Stop => {
                self.phase = Phase::Concluding;
                (Step::Go, None)
            },
        }
    }

    /// Begins an attempt with the encoding, and says which of how many it is. Where the task was
    /// cancelled meanwhile, the attempts are over.
    pub fn begin_attempt(&mut self, context_cancelled: bool, encoding: String) -> (r: Option<
        (usize, usize),
    >)
        requires
            old(self).wf(),
            old(self).phase == Phase::Armed,
            old(self).attempts.index < usize::MAX,
        ensures
            final(self).wf(),
            old(self).phase.leads_to(final(self).phase),
            if context_cancelled {
                &&& r is None
                &&& *final(self) == old(self).at(Phase::Concluding)
            } else {
                let index = old(self).attempts.index + 1;
                let total = old(self).attempts.total;
                &&& r is Some
                &&& (r->0).0 == index
                &&& (r->0).1 == (if total > index {
                    total as int
                } else {
                    index
                })
                &&& *final(self) == (NodeFlow {
                    phase: Phase::Extracting,
                    attempts: Attempts { index: index as usize, ..old(self).attempts },
                    facts: KnownFacts { encoding: Some(encoding), ..old(self).facts },
                    ..*old(self)
                })
            },
    {
        if context_cancelled {
            self.phase = Phase::Concluding;
            return None;
        }
        let shown = self.attempts.count_attempt();
        self.facts.encoding = Some(encoding);
        self.phase = Phase::Extracting;
        Some(shown)
    }

    /// The output of the attempt is staged.
    pub fn staged(&mut self)
        requires
            old(self).wf(),
            old(self).phase == Phase::Extracting,
        ensures
            final(self).wf(),
            old(self).phase.leads_to(final(self).phase),
            *final(self) == old(self).at(Phase::Staged),
    {
        self.phase = Phase::Staged;
    }

    /// The target of the output is decided.
    pub fn planned(&mut self, run: &mut TaskRun, interrupted: bool, c: Cancellation) -> (r: Step)
        requires
            old(self).wf(),
            old(run).wf(),
            old(self).phase == Phase::Planning,
        ensures
            final(self).wf(),
            final(run).wf(),
            old(self).phase.leads_to(final(self).phase),
            if interrupted {
                &&& *final(self) == old(self).at(Phase::Done)
                &&& caught(*old(run), *final(run), old(self).candidate, c)
                &&& r matches Step::Stop(e) && is_caught(e, c)
            } else {
                &&& r is Go
                &&& *final(self) == old(self).at(Phase::Planned)
                &&& unchanged(*old(run), *final(run))
            },
    {
        if interrupted {
            return Step::Stop(self.interrupt(run, c));
        }
        self.phase = Phase::Planned;
        Step::Go
    }

    /// The intent to commit is recorded, or the node has moved on without this worker and
    /// nothing is committed.
    pub fn commit_announced(&mut self, recorded: bool) -> (r: Step)
        requires
            old(self).wf(),
            old(self).phase == Phase::Committing,
        ensures
            final(self).wf(),
            old(self).phase.leads_to(final(self).phase),
            if recorded {
                &&& r is Go
                &&& *final(self) == old(self).at(Phase::Publishing)
            } else {
                &&& r == Step::Abort(ErrorKind::BackendFailed)
                &&& *final(self) == *old(self)
            },
    {
        if recorded {
            self.phase = Phase::Publishing;
            Step::Go
        } else {
            Step::Abort(ErrorKind::BackendFailed)
        }
    }

    /// Takes in a failed attempt. A commit whose marker is in place is not decided here: the run
    /// breaks off, and the recovery looks at it.
    pub fn attempt_failed(&mut self, failure: AttemptFailure, empty_password: bool, marked: bool) -> (r:
        (Step, bool))
        requires
            old(self).wf(),
            old(self).phase == Phase::Extracting || old(self).phase == Phase::Planning || old(
                self,
            ).phase == Phase::Committing || old(self).phase == Phase::Publishing,
        ensures
            final(self).wf(),
            old(self).phase.leads_to(final(self).phase),
            if marked && old(self).phase == Phase::Publishing {
                &&& r.0 == Step::Abort(failure.error)
                &&& !r.1
                &&& *final(self) == *old(self)
            } else {
                let before = old(self).attempts;
                let again = Attempts::asks_for_password(failure, empty_password)
                    || before.jumps_to_prompt(failure);
                &&& r.0 is Go
                &&& r.1 == (Attempts::asks_for_password(failure, empty_password) && failure.error
                    == ErrorKind::WrongPassword && !before.group_trials)
                &&& *final(self) == (NodeFlow {
                    phase: if again {
                        Phase::Looping
                    } else {
                        Phase::Concluding
                    },
                    attempts: final(self).attempts,
                    ..*old(self)
                })
                &&& final(self).attempts.same_but_pending(
                    before.failed_with(failure, empty_password),
                )
                &&& final(self).attempts.pending@ == (if !Attempts::asks_for_password(
                    failure,
                    empty_password,
                ) && before.jumps_to_prompt(failure) {
                    Seq::empty()
                } else {
                    before.pending@
                })
            },
            r.0 is Abort <==> marked && old(self).phase == Phase::Publishing,
            r.1 ==> failure.error == ErrorKind::WrongPassword && final(self).phase == Phase::Looping,
            final(self).candidate == old(self).candidate,
            final(self).facts == old(self).facts,
            final(self).group == old(self).group,
    {
        if marked && self.phase == Phase::Publishing {
            return (Step::Abort(failure.error), false);
        }
        match self.attempts.fail(failure, empty_password) {
            AfterFailure::Retry { blame_password } => {
                self.phase = Phase::Looping;
                (Step::Go, blame_password)
            },
            AfterFailure::Stop => {
                self.phase = Phase::Concluding;
                (Step::Go, false)
            },
        }
    }

    /// The output is in its place. Where that cannot be recorded the run breaks off.
    pub fn committed(&mut self, recorded: bool, commit: Committed) -> (r: Step)
        requires
            old(self).wf(),
            old(self).phase == Phase::Publishing,
        ensures
            final(self).wf(),
            old(self).phase.leads_to(final(self).phase),
            if recorded {
                &&& r is Go
                &&& *final(self) == (NodeFlow {
                    phase: Phase::Committed,
                    attempts: Attempts { extracted: true, ..old(self).attempts },
                    candidate: ExtractionCandidate {
                        relative_path: commit.relative_path,
                        ..old(self).candidate
                    },
                    facts: KnownFacts {
                        has_password: commit.has_password,
                        password_id: if commit.has_password {
                            commit.password_id
                        } else {
                            None
                        },
                        output_files: commit.files,
                        output_bytes: commit.bytes,
                        ..old(self).facts
                    },
                    ..*old(self)
                })
            } else {
                &&& r == Step::Abort(ErrorKind::BackendFailed)
                &&& *final(self) == *old(self)
            },
    {
        if !recorded {
            return Step::Abort(ErrorKind::BackendFailed);
        }
        self.attempts.succeed();
        self.candidate.relative_path = commit.relative_path;
        self.facts.has_password = commit.has_password;
        self.facts.password_id = if commit.has_password {
            commit.password_id
        } else {
            None
        };
        self.facts.output_files = commit.files;
        self.facts.output_bytes = commit.bytes;
        self.phase = Phase::Committed;
        Step::Go
    }

    /// The flow, ready for another grouping.
    pub open spec fn regrouped(self, group: usize, needed: bool) -> NodeFlow {
        NodeFlow {
            phase: Phase::Grouping,
            candidate: self.original,
            group,
            group_attempt: (self.group_attempt + 1) as usize,
            group_password_needed: needed,
            ..self
        }
    }

    fn regroup(&mut self, group: usize, needed: bool)
        requires
            old(self).wf(),
            old(self).phase == Phase::Concluding,
            old(self).group_trials,
            group < old(self).groups,
            old(self).group_attempt < usize::MAX,
        ensures
            final(self).wf(),
            old(self).phase.leads_to(final(self).phase),
            *final(self) == old(self).regrouped(group, needed),
    {
        self.candidate = self.original.clone();
        self.group = group;
        self.group_attempt += 1;
        self.group_password_needed = needed;
        self.phase = Phase::Grouping;
    }

    /// Draws the conclusion from the attempts: another grouping, the end of the node, or, with
    /// output, the search for more archives in it.
    pub fn conclude(&mut self, run: &mut TaskRun, output_path: &str, c: Cancellation) -> (r: Step)
        requires
            old(self).wf(),
            old(run).wf(),
            old(self).recursion_limit == old(run).recursion_limit,
            old(self).phase == Phase::Concluding || old(self).phase == Phase::Committed,
            old(self).group_attempt < usize::MAX,
            old(run).failed_count < usize::MAX,
        ensures
            final(self).wf(),
            final(run).wf(),
            old(self).phase.leads_to(final(self).phase),
            ({
                let a = old(self).attempts;
                let offset = old(self).candidate.embedded_offset;
                match a.verdict(c) {
                    Verdict::RestartGroups => {
                        &&& r is Go
                        &&& *final(self) == old(self).regrouped(0, old(self).group_password_needed)
                        &&& unchanged(*old(run), *final(run))
                    },
                    Verdict::NextGroup => {
                        &&& r is Go
                        &&& *final(self) == old(self).regrouped(
                            (old(self).group + 1) as usize,
                            old(self).group_password_needed || a.password_trouble(),
                        )
                        &&& unchanged(*old(run), *final(run))
                    },
                    Verdict::Interrupted => {
                        &&& *final(self) == old(self).at(Phase::Done)
                        &&& caught(*old(run), *final(run), old(self).candidate, c)
                        &&& r matches Step::Stop(e) && is_caught(e, c)
                    },
                    Verdict::Cancelled => {
                        &&& *final(self) == old(self).at(Phase::Done)
                        &&& caught(*old(run), *final(run), old(self).candidate, Cancellation { user: true, ..c })
                        &&& r matches Step::Stop(e) && is_known_ending(
                            e,
                            NodeStatus::Cancelled,
                            Reason::Cancelled,
                            Log::Skipped(Reason::Cancelled),
                            false,
                            old(self).facts,
                            offset,
                        )
                    },
                    Verdict::Skipped(reason) => {
                        &&& *final(self) == old(self).at(Phase::Done)
                        &&& ended(*old(run), *final(run), old(self).candidate, false)
                        &&& r matches Step::Next(e) && is_known_ending(
                            e,
                            NodeStatus::Skipped,
                            reason,
                            if a.terminal_skip is Some {
                                Log::Skipped(reason)
                            } else {
                                Log::InVain { reason, failed: false }
                            },
                            false,
                            old(self).facts,
                            offset,
                        )
                    },
                    Verdict::Failed(reason, _) => {
                        &&& *final(self) == old(self).at(Phase::Done)
                        &&& ended(*old(run), *final(run), old(self).candidate, true)
                        &&& r matches Step::Next(e) && is_known_ending(
                            e,
                            NodeStatus::Failed,
                            reason,
                            (Log::InVain { reason, failed: true }),
                            old(run).stop_on_error,
                            old(self).facts,
                            offset,
                        )
                    },
                    Verdict::Extracted => {
                        &&& r is Go
                        &&& *final(self) == (NodeFlow {
                            phase: Phase::Extracted,
                            success: final(self).success,
                            ..*old(self)
                        })
                        &&& final(run).queue@ == old(run).queue@
                        &&& final(run).processed@ == old(run).processed@.push(old(self).candidate)
                        &&& final(run).skipped@ == old(run).skipped@
                        &&& final(run).enqueued@ == old(run).enqueued@
                        &&& final(run).same_but_lists(
                            TaskRun {
                                was_cancelled: old(run).was_cancelled || a.cancelled_by(c),
                                ..*old(run)
                            },
                        )
                        &&& final(self).success is Some
                        &&& is_success(
                            final(self).success->0,
                            output_path@,
                            old(self).facts,
                            offset,
                        )
                    },
                }
            }),
            final(run).processed@.len() + final(run).skipped@.len() == old(run).processed@.len() + old(
                run,
            ).skipped@.len() + if final(self).phase == Phase::Grouping {
                0int
            } else {
                1int
            },
            final(run).processed@.len() > old(run).processed@.len() <==> final(self).phase
                == Phase::Extracted,
            final(run).failed_count > old(run).failed_count ==> r is Next,
            r is Stop ==> final(run).failed_count == old(run).failed_count,
            r is Go ==> final(run).failed_count == old(run).failed_count && final(run).skipped@ == old(
                run,
            ).skipped@,
            r matches Step::Next(e) ==> (e.stop_task <==> final(run).failed_count > old(run).failed_count
                && old(run).stop_on_error),
            r matches Step::Stop(e) ==> !e.stop_task,
            r is Go <==> final(self).phase != Phase::Done,
            final(self).phase == Phase::Grouping ==> final(self).candidate == old(self).original
                && final(self).group_attempt == old(self).group_attempt + 1 && (final(self).group == 0
                || final(self).group == old(self).group + 1),
            old(self).phase == Phase::Committed ==> final(self).phase == Phase::Extracted,
            old(run).was_cancelled ==> final(run).was_cancelled,
            final(run).queue@ == old(run).queue@,
    {
        let verdict = self.attempts.conclude(c);
        match verdict {
            Verdict::RestartGroups => {
                let needed: bool = self.group_password_needed;
                self.regroup(0, needed);
                Step::Go
            },
            Verdict::NextGroup => {
                let needed: bool = self.attempts.carries_password_need();
                let next: usize = self.group + 1;
                self.regroup(next, needed);
                Step::Go
            },
            Verdict::Interrupted => Step::Stop(self.interrupt(run, c)),
            Verdict::Cancelled => {
                self.phase = Phase::Done;
                let outcome = run.cancel(self.candidate.clone());
                let outcome = add_facts(outcome, &self.facts, self.candidate.embedded_offset);
                Step::Stop(
                    Ending { outcome, log: Log::Skipped(Reason::Cancelled), stop_task: false },
                )
            },
            Verdict::Skipped(reason) => {
                let ending = self.skip(run, reason);
                let outcome = add_facts(
                    ending.outcome,
                    &self.facts,
                    self.candidate.embedded_offset,
                );
                let log = if self.attempts.terminal_skip.is_some() {
                    Log::Skipped(reason)
                } else {
                    Log::InVain { reason, failed: false }
                };
                Step::Next(Ending { outcome, log, stop_task: ending.stop_task })
            },
            Verdict::Failed(reason, _) => {
                let ending = self.fail(run, reason, Log::InVain { reason, failed: true });
                let outcome = add_facts(
                    ending.outcome,
                    &self.facts,
                    self.candidate.embedded_offset,
                );
                Step::Next(Ending { outcome, log: ending.log, stop_task: ending.stop_task })
            },
            Verdict::Extracted => {
                let stopped_by_user: bool = self.attempts.was_cancelled(c);
                let outcome = run.extracted(self.candidate.clone(), output_path, stopped_by_user);
                self.success =
                Some(add_facts(outcome, &self.facts, self.candidate.embedded_offset));
                self.phase = Phase::Extracted;
                Step::Go
            },
        }
    }

    fn finish(&mut self) -> (r: Ending)
        requires
            old(self).wf(),
            old(self).success is Some,
        ensures
            final(self).wf(),
            old(self).phase.leads_to(final(self).phase),
            *final(self) == (NodeFlow { phase: Phase::Done, success: None, ..*old(self) }),
            r.outcome == old(self).success->0,
            r.log == Log::Extracted,
            !r.stop_task,
    {
        self.phase = Phase::Done;
        match self.success.take() {
            Some(outcome) => Ending { outcome, log: Log::Extracted, stop_task: false },
            None => Ending {
                outcome: NodeOutcome::terminal("", None, None, false),
                log: Log::Extracted,
                stop_task: false,
            },
        }
    }

    /// The node enters the search for more archives. What is committed stays so: where the end
    /// of the task comes first, the node ends as extracted all the same.
    pub fn enter_children(&mut self, run: &mut TaskRun, entry: StageEntry, c: Cancellation) -> (r: Step)
        requires
            old(self).wf(),
            old(run).wf(),
            old(self).phase == Phase::Extracted,
        ensures
            final(self).wf(),
            final(run).wf(),
            old(self).phase.leads_to(final(self).phase),
            final(run).same_lists(*old(run)),
            match entry {
                StageEntry::Entered => {
                    &&& r is Go
                    &&& *final(self) == old(self).at(Phase::Children)
                    &&& final(run).same_but_lists(*old(run))
                },
                StageEntry::Interrupted => {
                    &&& *final(self) == (NodeFlow {
                        phase: Phase::Done,
                        success: None,
                        ..*old(self)
                    })
                    &&& final(run).same_but_lists(
                        TaskRun { was_cancelled: old(run).was_cancelled || c.user, ..*old(run) },
                    )
                    &&& r matches Step::Stop(e) && e.outcome == old(self).success->0 && e.log
                        == Log::Extracted && !e.stop_task
                },
                StageEntry::Stale => {
                    &&& r == Step::Abort(ErrorKind::BackendFailed)
                    &&& *final(self) == *old(self)
                    &&& final(run).same_but_lists(*old(run))
                },
                StageEntry::Broken(error) => {
                    &&& r == Step::Abort(error)
                    &&& *final(self) == *old(self)
                    &&& final(run).same_but_lists(*old(run))
                },
            },
            r is Go <==> entry is Entered,
            r is Stop <==> entry is Interrupted,
            r is Abort ==> final(self).success == old(self).success,
            final(run).failed_count == old(run).failed_count,
            old(run).was_cancelled ==> final(run).was_cancelled,
    {
        match entry {
            StageEntry::Entered => {
                self.phase = Phase::Children;
                Step::Go
            },
            StageEntry::Interrupted => {
                run.was_cancelled = run.was_cancelled || c.user;
                Step::Stop(self.finish())
            },
            StageEntry::Stale => Step::Abort(ErrorKind::BackendFailed),
            StageEntry::Broken(error) => Step::Abort(error),
        }
    }

    /// Counts one archive that was found in the output against the limit of the task. Beyond the
    /// limit the task has a failure and the run ends, and the node is extracted all the same.
    pub fn reserve_child(&mut self, run: &mut TaskRun, budget: &mut TaskBudget, limit: usize) -> (r:
        Step)
        requires
            old(self).wf(),
            old(run).wf(),
            old(self).phase == Phase::Children,
            old(budget).wf(),
            old(run).failed_count < usize::MAX,
        ensures
            final(self).wf(),
            final(run).wf(),
            old(self).phase.leads_to(final(self).phase),
            final(budget).wf(),
            final(budget).same_but_nested(*old(budget)),
            final(run).same_lists(*old(run)),
            if old(budget).nested() < limit {
                &&& r is Go
                &&& final(budget).nested() == old(budget).nested() + 1
                &&& *final(self) == *old(self)
                &&& final(run).same_but_lists(*old(run))
            } else {
                &&& final(budget).nested() == old(budget).nested()
                &&& *final(self) == (NodeFlow { phase: Phase::Done, success: None, ..*old(self) })
                &&& final(run).same_but_lists(
                    TaskRun { failed_count: (old(run).failed_count + 1) as usize, ..*old(run) },
                )
                &&& r matches Step::Stop(e) && e.outcome == old(self).success->0 && e.log
                    == Log::Extracted && e.stop_task == old(run).stop_on_error
            },
            r is Go <==> final(budget).nested() > old(budget).nested(),
            old(budget).nested() <= limit ==> final(budget).nested() <= limit,
            r is Go <==> final(run).failed_count == old(run).failed_count,
    {
        if budget.reserve_nested(limit) {
            return Step::Go;
        }
        let stop: bool = run.record_failure();
        let ending = self.finish();
        Step::Stop(Ending { outcome: ending.outcome, log: ending.log, stop_task: stop })
    }

    /// Takes in an archive from the output. One that the task holds already gives its place back.
    pub fn child_recorded(
        &mut self,
        run: &mut TaskRun,
        budget: &mut TaskBudget,
        child: WorkNode,
        inserted: bool,
    )
        requires
            old(self).wf(),
            old(run).wf(),
            old(self).phase == Phase::Children,
            old(budget).wf(),
            old(budget).nested() > 0,
        ensures
            final(run).wf(),
            *final(self) == *old(self),
            final(budget).wf(),
            final(budget).same_but_nested(*old(budget)),
            final(run).processed@ == old(run).processed@,
            final(run).skipped@ == old(run).skipped@,
            final(run).same_but_lists(*old(run)),
            if inserted {
                &&& final(run).queue@ == old(run).queue@.push(child)
                &&& final(run).enqueued@ == old(run).enqueued@.push(child.candidate)
                &&& final(budget).nested() == old(budget).nested()
            } else {
                &&& final(run).queue@ == old(run).queue@
                &&& final(run).enqueued@ == old(run).enqueued@
                &&& final(budget).nested() == old(budget).nested() - 1
            },
    {
        if inserted {
            run.enqueue_nested(child);
        } else {
            budget.release_nested();
        }
    }

    /// All archives in the output are queued: the node ends as extracted.
    pub fn children_done(&mut self) -> (r: Step)
        requires
            old(self).wf(),
            old(self).phase == Phase::Children,
        ensures
            final(self).wf(),
            old(self).phase.leads_to(final(self).phase),
            *final(self) == (NodeFlow { phase: Phase::Done, success: None, ..*old(self) }),
            r matches Step::Next(e) && e.outcome == old(self).success->0 && e.log == Log::Extracted
                && !e.stop_task,
    {
        Step::Next(self.finish())
    }
}

impl NodeFlow {
    /// The row tells what is known of the archive.
    pub open spec fn row_tells(&self, row: FileExtractionRow) -> bool {
        &&& row.sample_hash == self.facts.sample_hash
        &&& row.file_size == self.facts.file_size
        &&& row.has_password == self.facts.has_password
        &&& row.password_id == self.facts.password_id
        &&& row.encoding == self.facts.encoding
        &&& row.encoding_corrected == self.facts.encoding_corrected
    }

    fn tell(&self, row: FileExtractionRow) -> (r: FileExtractionRow)
        ensures
            self.row_tells(r),
            r.input_path == row.input_path,
            r.offset == row.offset,
            r.output_path == row.output_path,
            r.status == row.status,
            r.reason == row.reason,
            r.damaged_volumes_json == row.damaged_volumes_json,
            r.test_report_json == row.test_report_json,
    {
        FileExtractionRow {
            input_path: row.input_path,
            sample_hash: copy_opt(&self.facts.sample_hash),
            file_size: self.facts.file_size,
            offset: row.offset,
            output_path: row.output_path,
            has_password: self.facts.has_password,
            password_id: self.facts.password_id,
            status: row.status,
            reason: row.reason,
            encoding: copy_opt(&self.facts.encoding),
            encoding_corrected: self.facts.encoding_corrected,
            damaged_volumes_json: row.damaged_volumes_json,
            test_report_json: row.test_report_json,
        }
    }

    /// The row that is logged for the end of a node: what is known of the archive stands in it
    /// once it was tried.
    pub fn log_row(&self, log: Log, error: &str, output_path: &str) -> (r: Option<FileExtractionRow>)
        ensures
            ({
                let path = self.candidate.path@;
                let first = self.original.path@;
                let offset = self.candidate.embedded_offset;
                match log {
                    Log::Nothing => r is None,
                    Log::Skipped(reason) => r is Some && (r->0).is_bare() && (r->0).says(
                        path,
                        offset,
                        "skipped"@,
                        Some(reason.text()),
                        None,
                    ),
                    Log::SkippedForError => r is Some && (r->0).is_bare() && (r->0).says(
                        path,
                        offset,
                        "skipped"@,
                        Some(error@),
                        None,
                    ),
                    Log::Failed(reason) => r is Some && (r->0).is_bare() && (r->0).says(
                        first,
                        offset,
                        "failed"@,
                        Some(reason.text()),
                        None,
                    ),
                    Log::InVain { reason, failed } => r is Some && self.row_tells(r->0) && (
                    r->0).says(
                        first,
                        offset,
                        if failed {
                            "failed"@
                        } else {
                            "skipped"@
                        },
                        Some(reason.text()),
                        None,
                    ),
                    Log::Extracted => r is Some && self.row_tells(r->0) && (r->0).says(
                        first,
                        offset,
                        "extracted"@,
                        None,
                        Some(output_path@),
                    ),
                }
            }),
            r is None <==> log is Nothing,
            r matches Some(row) ==> (row.output_path is Some <==> log is Extracted),
            r matches Some(row) ==> (row.reason is None <==> log is Extracted),
            log is Extracted ==> crate::text::opt_text((r->0).output_path) == Some(output_path@),
    {
        let path = self.candidate.path.as_str();
        let first = self.original.path.as_str();
        let offset = self.candidate.embedded_offset;
        match log {
            Log::Nothing => None,
            Log::Skipped(reason) => Some(FileExtractionRow::skipped(path, offset, reason.as_str())),
            Log::SkippedForError => Some(FileExtractionRow::skipped(path, offset, error)),
            Log::Failed(reason) => Some(FileExtractionRow::failed(first, offset, reason.as_str())),
            Log::InVain { reason, failed } => {
                let row = if failed {
                    FileExtractionRow::failed(first, offset, reason.as_str())
                } else {
                    FileExtractionRow::skipped(first, offset, reason.as_str())
                };
                Some(self.tell(row))
            },
            Log::Extracted => Some(
                self.tell(FileExtractionRow::extracted(first, offset, output_path)),
            ),
        }
    }
}

/// Each phase of the list follows from the one before it.
pub open spec fn is_path(path: Seq<Phase>) -> bool {
    &&& path.len() > 0
    &&& path[0] == Phase::Start
    &&& forall|i: int| 0 < i < path.len() ==> path[i - 1].leads_to(#[trigger] path[i])
}

/// A node is in no stage before it was in all stages ahead of it. So nothing is committed that was
/// not extracted and planned, and no output is searched for archives that was not committed.
pub proof fn stages_come_in_order(path: Seq<Phase>, level: int)
    requires
        is_path(path),
        path.last() != Phase::Done,
        0 <= level <= path.last().level(),
    ensures
        exists|i: int| 0 <= i < path.len() && (#[trigger] path[i]).level() == level,
    decreases path.len(),
{
    if level == path.last().level() {
        assert(path[path.len() - 1].level() == level);
    } else {
        assert(path.len() > 1);
        let before = path.drop_last();
        assert(path[path.len() - 2].leads_to(path[path.len() - 1]));
        assert(before.last() == path[path.len() - 2]);
        assert(is_path(before)) by {
            assert forall|i: int| 0 < i < before.len() implies before[i - 1].leads_to(
                #[trigger] before[i],
            ) by {
                assert(path[i - 1].leads_to(path[i]));
            }
        }
        stages_come_in_order(before, level);
        let i = choose|i: int| 0 <= i < before.len() && (#[trigger] before[i]).level() == level;
        assert(path[i].level() == level);
    }
}

/// Once the output is committed, neither a cancellation nor the end of the task makes anything
/// else of the node than an extracted one.
pub proof fn committed_node_is_extracted(flow: NodeFlow, c: Cancellation)
    requires
        flow.wf(),
        flow.phase == Phase::Committed,
    ensures
        flow.attempts.verdict(c) == Verdict::Extracted,
{
    crate::workflow::attempt::extracted_stays_extracted(flow.attempts, c);
}

/// A node that has ended stays as it ended.
pub proof fn ended_nodes_stay_ended(path: Seq<Phase>, i: int)
    requires
        is_path(path),
        0 <= i < path.len(),
        path[i] == Phase::Done,
    ensures
        path.last() == Phase::Done,
    decreases path.len() - i,
{
    if i + 1 < path.len() {
        assert(path[i].leads_to(path[i + 1]));
        ended_nodes_stay_ended(path, i + 1);
    }
}

/// A stage is entered by the phase before it, which awaits it, and inside it no stage is awaited
/// until a later phase. No stage but the first is awaited twice, and that one only to be entered
/// again once the volumes are put together.
pub proof fn stages_are_awaited_once(a: Phase, b: Phase)
    ensures
        a.awaited() is Some ==> a.leads_to(a.inside()) && a.inside() != a,
        a.awaited() is Some ==> a.inside().awaited() is None,
        a.awaited() is None ==> a.inside() == a,
        a.awaited() is Some && a.awaited() == b.awaited() && a != b ==> a.awaited() == Some(
            Stage::ResolveInputs,
        ),
        a.awaited() is Some && a.awaited() != Some(Stage::ResolveInputs) ==> a.inside().level()
            == a.level() + 1,
        a.awaited() is Some && b.awaited() is Some && a.inside() == b.inside() ==> a == b,
        Phase::Done.awaited() is None,
        a.awaited() is Some && b.awaited() is Some && a.level() < b.level() ==> a.inside().level()
            < b.inside().level() || a.inside().level() == b.inside().level(),
{
}

/// The stages are those of one line of work, and each is awaited at its own level.
pub proof fn levels_have_their_stage(a: Phase)
    ensures
        a.awaited() == Some(Stage::ScanEmbedded) ==> a.level() == 1,
        a.awaited() == Some(Stage::PrepareAccess) ==> a.level() == 2,
        a.awaited() == Some(Stage::AnalyzeEncoding) ==> a.level() == 3,
        a.awaited() == Some(Stage::ExtractAttempt) ==> a.level() == 4,
        a.awaited() == Some(Stage::InspectAndPlan) ==> a.level() == 5,
        a.awaited() == Some(Stage::Commit) ==> a.level() == 6,
        a.awaited() == Some(Stage::DiscoverChildren) ==> a.level() == 7,
        a.awaited() matches Some(stage) ==> stage != Stage::Fingerprint && stage
            != Stage::ReadMetadata && stage != Stage::ReadMember && stage != Stage::DecodePreview
            && stage != Stage::Cleanup,
{
}

/// A phase is followed by one of the same level or of the next, or by the end, save where an
/// attempt is given up: then another attempt or another grouping begins.
pub proof fn work_goes_on_or_begins_anew(a: Phase, b: Phase)
    requires
        a.leads_to(b),
    ensures
        b.level() < a.level() ==> b == Phase::Looping || b == Phase::Concluding || b
            == Phase::Grouping,
        b == Phase::Grouping && a != b ==> a == Phase::Locking || a == Phase::Reentering || a
            == Phase::Concluding,
        b.level() > a.level() + 1 ==> b == Phase::Done,
        a == Phase::Done ==> b == Phase::Done,
        b == Phase::Committed && a != b ==> a == Phase::Publishing,
        b == Phase::Extracted && a != b ==> a == Phase::Committed,
        b == Phase::Publishing && a != b ==> a == Phase::Committing,
        b == Phase::Start ==> a == Phase::Start,
{
}

/// The flow asks for a confirmation where a candidate like its own is confirmed.
pub proof fn flow_confirms_its_candidate(flow: NodeFlow, extract_all: bool)
    ensures
        flow.needs_confirmation(extract_all) <==> crate::workflow::discovery::asks_first(
            flow.candidate.source,
            flow.candidate.depth,
            flow.mode,
            extract_all,
        ),
{
}

/// A candidate that was narrowed down to a finding keeps what the finding says. Any other is
/// settled by its header or its extension.
pub proof fn narrowed_candidate_is_settled(flow: NodeFlow, by_extension: Option<ArchiveFormat>)
    ensures
        flow.phase == Phase::Narrowed ==> flow.settled(by_extension) == flow.candidate,
        flow.phase != Phase::Narrowed ==> flow.settled(by_extension)
            == crate::workflow::discovery::with_format(flow.candidate, flow.header, by_extension),
{
}

/// Another grouping starts from the candidate as it was before any, is counted as one more trial,
/// and keeps what is known of the archive, of the groupings and of the passwords that are left.
pub proof fn grouping_starts_from_the_original(flow: NodeFlow, group: usize, needed: bool)
    requires
        flow.group_attempt < usize::MAX,
    ensures
        ({
            let next = flow.regrouped(group, needed);
            &&& next.candidate == flow.original
            &&& next.original == flow.original
            &&& next.group == group
            &&& next.group_attempt == flow.group_attempt + 1
            &&& next.group_password_needed == needed
            &&& next.groups == flow.groups
            &&& next.group_trials == flow.group_trials
            &&& next.group_passwords == flow.group_passwords
            &&& next.facts == flow.facts
            &&& next.mode == flow.mode
            &&& next.header == flow.header
            &&& next.recursion_limit == flow.recursion_limit
            &&& next.success == flow.success
            &&& next.phase == Phase::Grouping
            &&& flow.phase == Phase::Concluding ==> flow.phase.leads_to(next.phase)
        }),
{
}

/// The groupings that were tried, the one that is tried and those that are left are all there are.
pub proof fn groupings_are_counted(flow: NodeFlow)
    requires
        flow.wf(),
    ensures
        flow.groups_left() >= 0,
        flow.group_trials ==> flow.group + 1 + flow.groups_left() == flow.groups,
        !flow.group_trials ==> flow.groups_left() == 0 && flow.groups == 0,
{
}

/// A node that ends without output is listed among the skipped, last, and nowhere else. It counts
/// as a failure exactly where it failed, and does not cancel the task.
pub proof fn ended_node_is_listed_once(
    a: TaskRun,
    b: TaskRun,
    candidate: ExtractionCandidate,
    failed: bool,
)
    requires
        ended(a, b, candidate, failed),
        a.failed_count < usize::MAX,
    ensures
        b.skipped@.len() == a.skipped@.len() + 1,
        b.skipped@.last() == candidate,
        b.skipped@.drop_last() == a.skipped@,
        b.processed@ == a.processed@,
        b.queue@ == a.queue@,
        failed ==> b.failed_count == a.failed_count + 1,
        !failed ==> b.failed_count == a.failed_count,
        b.was_cancelled == a.was_cancelled,
        failed && a.stop_on_error ==> b.stopped(),
        !failed ==> b.stopped() == a.stopped(),
{
    assert(b.skipped@.drop_last() =~= a.skipped@);
}

/// A node that the end of the task caught is listed among the skipped and is no failure. The task
/// counts as cancelled from then on where the user asked for its end, and stays so.
pub proof fn caught_node_is_no_failure(
    a: TaskRun,
    b: TaskRun,
    candidate: ExtractionCandidate,
    c: Cancellation,
)
    requires
        caught(a, b, candidate, c),
    ensures
        b.failed_count == a.failed_count,
        b.skipped@.len() == a.skipped@.len() + 1,
        b.skipped@.last() == candidate,
        b.processed@ == a.processed@,
        a.was_cancelled ==> b.was_cancelled,
        c.user ==> b.was_cancelled,
        !c.user ==> b.was_cancelled == a.was_cancelled,
{
}

/// An ending without output tells of none, and of nothing that was committed.
pub proof fn ending_without_output_commits_nothing(
    e: Ending,
    status: NodeStatus,
    reason: Reason,
    log: Log,
    stop: bool,
    facts: KnownFacts,
    offset: Option<u64>,
)
    ensures
        is_ending(e, status, reason, log, stop) ==> e.outcome.output_path is None
            && !e.outcome.committed && e.outcome.reason is Some && e.stop_task == stop,
        is_known_ending(e, status, reason, log, stop, facts, offset) ==> {
            &&& e.outcome.output_path is None
            &&& !e.outcome.committed
            &&& e.outcome.reason is Some
            &&& e.stop_task == stop
            &&& e.outcome.sample_hash == facts.sample_hash
            &&& e.outcome.file_size == facts.file_size
            &&& e.outcome.password_id == facts.password_id
            &&& e.outcome.has_password == facts.has_password
            &&& e.outcome.encoding == facts.encoding
            &&& e.outcome.encoding_corrected == facts.encoding_corrected
            &&& e.outcome.output_files == facts.output_files
            &&& e.outcome.output_bytes == facts.output_bytes
            &&& e.outcome.embedded_offset == offset
        },
{
}

/// A success tells where the output is, that it is committed, and no reason, beside what is known
/// of the archive.
pub proof fn success_tells_of_its_output(
    o: NodeOutcome,
    output_path: Seq<char>,
    facts: KnownFacts,
    offset: Option<u64>,
)
    requires
        is_success(o, output_path, facts, offset),
    ensures
        o.committed,
        o.reason is None,
        o.output_path is Some,
        o.output_path->0@ == output_path,
        o.output_files == facts.output_files,
        o.output_bytes == facts.output_bytes,
        o.password_id == facts.password_id,
        o.has_password == facts.has_password,
        o.sample_hash == facts.sample_hash,
        o.file_size == facts.file_size,
        o.encoding == facts.encoding,
        o.encoding_corrected == facts.encoding_corrected,
        o.embedded_offset == offset,
{
}

} // verus!
