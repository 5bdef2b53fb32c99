//! The way of one archive through the stages.

use std::collections::VecDeque;

use smartzip::budget::TaskBudget;
use smartzip::coordinator::Stage;
use smartzip::embedded::{Confidence, DetectionAction, EmbeddedArchiveFinding, EmbeddedScanMode};
use smartzip::execution::{NodeOutcome, TaskBudgetSnapshot};
use smartzip::interactive::EmbeddedSelectionChoice;
use smartzip::types::{
    ArchiveFormat, Cancellation, CandidateSource, ErrorKind, ExtractionCandidate,
    PasswordCandidate, PasswordSource,
};
use smartzip::workflow::attempt::{AttemptFailure, FailureStep, NextAttempt};
use smartzip::workflow::dedup::TaskDedup;
use smartzip::workflow::discovery::StageEntry;
use smartzip::workflow::node::{
    Access, Committed, Ending, Log, NodeFlow, Phase, Preparation, Step,
};
use smartzip::workflow::reason::Reason;
use smartzip::workflow::run::{NextStep, TaskRun, WorkNode};

const RUNNING: Cancellation =
    Cancellation { cancelled: false, user: false, stopped_on_error: false };
const BY_USER: Cancellation = Cancellation { cancelled: true, user: true, stopped_on_error: false };
const BY_ERROR: Cancellation =
    Cancellation { cancelled: true, user: false, stopped_on_error: true };

fn text(s: &str) -> String {
    s.to_string()
}

fn candidate(path: &str, source: CandidateSource, depth: usize) -> ExtractionCandidate {
    ExtractionCandidate {
        path: text(path),
        relative_path: text("a"),
        depth,
        source,
        detected_format: None,
        embedded_offset: None,
        embedded_size: None,
    }
}

fn root() -> ExtractionCandidate {
    candidate("/in/a.zip", CandidateSource::RootInput, 0)
}

fn node(id: &str, candidate: ExtractionCandidate) -> WorkNode {
    WorkNode { id: text(id), root_id: text(id), generation: 0, candidate }
}

fn run() -> TaskRun {
    let mut run = TaskRun::new(
        &vec![text("/in/a.zip"), text("/in/b.zip")],
        VecDeque::from(vec![
            node("a", root()),
            node("b", candidate("/in/b.zip", CandidateSource::RootInput, 0)),
        ]),
        false,
        5,
    )
    .map_err(|_| "identity")
    .unwrap();
    assert!(matches!(run.next(RUNNING, false), NextStep::Work(_)));
    run
}

fn go(step: Step) {
    assert!(matches!(step, Step::Go));
}

fn next(step: Step) -> Ending {
    match step {
        Step::Next(ending) => ending,
        _ => panic!("the node should have ended, and the run gone on"),
    }
}

fn stop(step: Step) -> Ending {
    match step {
        Step::Stop(ending) => ending,
        _ => panic!("the run should have ended"),
    }
}

fn says(outcome: &NodeOutcome, status: &str, reason: &str) {
    assert_eq!(outcome.status, status);
    assert_eq!(outcome.reason.as_deref(), Some(reason));
    assert!(!outcome.committed);
}

fn passwords(values: &[&str]) -> VecDeque<PasswordCandidate> {
    values
        .iter()
        .map(|value| PasswordCandidate {
            id: Some(7),
            value: text(value),
            source: PasswordSource::Database,
        })
        .collect()
}

/// Enters the stage that is due.
fn enter(flow: &mut NodeFlow, run: &mut TaskRun) -> Stage {
    let stage = flow.phase.next_stage().unwrap();
    go(flow.enter(run, StageEntry::Entered, RUNNING));
    stage
}

fn screened(flow: &mut NodeFlow, run: &mut TaskRun, dedup: &mut TaskDedup, groups: &[&str]) {
    assert_eq!(enter(flow, run), Stage::ResolveInputs);
    go(flow.screen(run, dedup, text("key"), "/in/a.zip"));
    let groups: Vec<String> = groups.iter().map(|g| text(g)).collect();
    flow.volumes_found(&groups, &vec![]);
    go(flow.locked(run, dedup, "/in/a.zip", false, RUNNING));
    assert_eq!(flow.phase, Phase::Grouping);
}

/// From the grouping to the attempts.
fn opened(flow: &mut NodeFlow, run: &mut TaskRun, values: &[&str], has_prompter: bool) {
    let same = flow.candidate.clone();
    go(flow.prepared(run, Preparation::Single(same)));
    go(flow.probed(run, true, Some((ArchiveFormat::Zip, 0)), EmbeddedScanMode::Auto));
    assert!(!flow.asks_confirmation(run));
    go(flow.confirm(run, None, false, RUNNING));
    assert_eq!(enter(flow, run), Stage::ScanEmbedded);
    assert!(flow.scans(false, true));
    go(flow.scanned(run, Ok((0, 0)), RUNNING));
    go(flow.settle(run, None));
    assert_eq!(flow.candidate.detected_format, Some(ArchiveFormat::Zip));
    go(flow.classified(run, true));
    assert_eq!(enter(flow, run), Stage::PrepareAccess);
    let access = Access {
        sample_hash: Some(text("hash")),
        file_size: Some(42),
        encoding_corrected: false,
        skip: false,
    };
    go(flow.opened(run, Some(access)));
    assert_eq!(enter(flow, run), Stage::AnalyzeEncoding);
    go(flow.encoding_chosen(run, true, passwords(values), has_prompter, false, RUNNING));
}

fn attempting(values: &[&str], groups: &[&str], has_prompter: bool) -> (NodeFlow, TaskRun) {
    let mut run = run();
    let mut flow = NodeFlow::new(root(), EmbeddedScanMode::Auto, 5);
    screened(&mut flow, &mut run, &mut TaskDedup::new(), groups);
    opened(&mut flow, &mut run, values, has_prompter);
    (flow, run)
}

/// Begins an attempt with the next password.
fn attempt(flow: &mut NodeFlow, run: &mut TaskRun) -> Option<(usize, usize)> {
    flow.attempt_again(false);
    assert_eq!(enter(flow, run), Stage::ExtractAttempt);
    match flow.next_password() {
        NextAttempt::Try(_) => flow.begin_attempt(false, text("auto")),
        _ => None,
    }
}

fn extract_failed(error: ErrorKind) -> AttemptFailure {
    AttemptFailure { step: FailureStep::ExtractFailed, error, preserved: false }
}

fn commit(flow: &mut NodeFlow, run: &mut TaskRun) {
    flow.staged();
    assert_eq!(enter(flow, run), Stage::InspectAndPlan);
    go(flow.planned(run, false, RUNNING));
    assert_eq!(enter(flow, run), Stage::Commit);
    go(flow.commit_announced(true));
    let committed = Committed {
        relative_path: text("a-renamed"),
        has_password: true,
        password_id: Some(7),
        files: 3,
        bytes: 99,
    };
    go(flow.committed(true, committed));
}

#[test]
fn archive_goes_through_all_stages() {
    let (mut flow, mut run) = attempting(&["x", "y"], &[], false);
    assert_eq!(attempt(&mut flow, &mut run), Some((1, 2)));
    let (step, blamed) = flow.attempt_failed(extract_failed(ErrorKind::WrongPassword), false, false);
    go(step);
    assert!(blamed);
    assert_eq!(attempt(&mut flow, &mut run), Some((2, 2)));
    commit(&mut flow, &mut run);
    go(flow.conclude(&mut run, "/out/a", RUNNING));
    assert_eq!(run.processed.len(), 1);
    assert_eq!(run.processed[0].relative_path, "a-renamed");
    assert!(run.processed.iter().all(|c| c.depth <= run.recursion_limit));
    assert_eq!(flow.phase.next_stage(), Some(Stage::DiscoverChildren));
    go(flow.enter_children(&mut run, StageEntry::Entered, RUNNING));
    let ending = next(flow.children_done());
    assert_eq!(ending.outcome.status, "extracted");
    assert_eq!(ending.outcome.output_path.as_deref(), Some("/out/a"));
    assert!(ending.outcome.committed);
    assert!(ending.outcome.has_password);
    assert_eq!(ending.outcome.password_id, Some(7));
    assert_eq!(ending.outcome.sample_hash.as_deref(), Some("hash"));
    assert_eq!(ending.outcome.encoding.as_deref(), Some("auto"));
    assert_eq!((ending.outcome.output_files, ending.outcome.output_bytes), (3, 99));
    assert_eq!(flow.phase, Phase::Done);
    let row = flow.log_row(ending.log, "", "/out/a").unwrap();
    assert_eq!(row.status, "extracted");
    assert_eq!(row.input_path, "/in/a.zip");
    assert_eq!(row.password_id, Some(7));
    assert!(run.skipped.is_empty());
}

#[test]
fn cancellation_after_the_commit_keeps_the_success() {
    let (mut flow, mut run) = attempting(&["x"], &[], false);
    attempt(&mut flow, &mut run);
    commit(&mut flow, &mut run);
    go(flow.conclude(&mut run, "/out/a", BY_USER));
    let ending = stop(flow.enter_children(&mut run, StageEntry::Interrupted, BY_USER));
    assert_eq!(ending.outcome.status, "extracted");
    assert!(ending.outcome.committed);
    assert!(run.was_cancelled);
    assert_eq!(run.processed.len(), 1);
    assert!(run.skipped.is_empty());
}

#[test]
fn ending_task_catches_a_node_in_every_stage() {
    for (c, status, reason) in
        [(BY_USER, "cancelled", "cancelled"), (BY_ERROR, "skipped", "task_stopped")]
    {
        let mut run = run();
        let mut flow = NodeFlow::new(root(), EmbeddedScanMode::Auto, 5);
        let ending = stop(flow.enter(&mut run, StageEntry::Interrupted, c));
        says(&ending.outcome, status, reason);
        assert_eq!(ending.log, Log::Nothing);
        assert!(flow.log_row(ending.log, "", "").is_none());
        assert_eq!(run.skipped.len(), 1);
        assert_eq!(run.was_cancelled, c.user);
    }
}

#[test]
fn lost_worker_breaks_off() {
    let mut run = run();
    let mut flow = NodeFlow::new(root(), EmbeddedScanMode::Auto, 5);
    let step = flow.enter(&mut run, StageEntry::Stale, RUNNING);
    assert!(matches!(step, Step::Abort(ErrorKind::BackendFailed)));
    let step = flow.enter(&mut run, StageEntry::Broken(ErrorKind::Io), RUNNING);
    assert!(matches!(step, Step::Abort(ErrorKind::Io)));
    assert_eq!(flow.phase, Phase::Start);
}

#[test]
fn candidate_is_taken_up_once() {
    let mut run = run();
    let mut dedup = TaskDedup::new();
    let mut first = NodeFlow::new(root(), EmbeddedScanMode::Auto, 5);
    screened(&mut first, &mut run, &mut dedup, &[]);
    let mut again = NodeFlow::new(root(), EmbeddedScanMode::Auto, 5);
    enter(&mut again, &mut run);
    let ending = next(again.screen(&mut run, &mut dedup, text("key"), "/in/a.zip"));
    says(&ending.outcome, "skipped", "duplicate");
    let row = again.log_row(ending.log, "", "").unwrap();
    assert_eq!((row.status.as_str(), row.reason.as_deref()), ("skipped", Some("duplicate")));

    let deep = candidate("/out/deep.zip", CandidateSource::ExtractedFile, 6);
    let mut too_deep = NodeFlow::new(deep, EmbeddedScanMode::Auto, 5);
    enter(&mut too_deep, &mut run);
    let ending = next(too_deep.screen(&mut run, &mut dedup, text("other"), "/out/deep.zip"));
    says(&ending.outcome, "skipped", "recursion_limit");
    assert!(run.processed.is_empty());
    assert_eq!(run.skipped[1].depth, 6);

    let edge = candidate("/out/edge.zip", CandidateSource::ExtractedFile, 5);
    let mut at_limit = NodeFlow::new(edge, EmbeddedScanMode::Auto, 5);
    enter(&mut at_limit, &mut run);
    go(at_limit.screen(&mut run, &mut dedup, text("edge"), "/out/edge.zip"));
}

#[test]
fn volume_of_a_taken_set_is_left_alone() {
    let mut run = run();
    let mut dedup = TaskDedup::new();
    let mut first = NodeFlow::new(root(), EmbeddedScanMode::Auto, 5);
    screened(&mut first, &mut run, &mut dedup, &[]);
    go(first.claim_set(&mut run, &mut dedup, text("set"), &vec![text("/in/a.z01")]));

    let part = candidate("/in/a.z01", CandidateSource::RootInput, 0);
    let mut second = NodeFlow::new(part, EmbeddedScanMode::Auto, 5);
    enter(&mut second, &mut run);
    let ending = next(second.screen(&mut run, &mut dedup, text("k2"), "/in/a.z01"));
    says(&ending.outcome, "skipped", "duplicate");

    let mut third = NodeFlow::new(root(), EmbeddedScanMode::Auto, 5);
    enter(&mut third, &mut run);
    go(third.screen(&mut run, &mut dedup, text("k3"), "/in/c.zip"));
    third.volumes_found(&vec![], &vec![]);
    go(third.locked(&mut run, &dedup, "/in/c.zip", false, RUNNING));
    let ending = next(third.claim_set(&mut run, &mut dedup, text("set"), &vec![]));
    says(&ending.outcome, "skipped", "duplicate");
}

#[test]
fn locks_are_taken_in_order_and_the_stage_is_entered_again() {
    let mut run = run();
    let mut dedup = TaskDedup::new();
    let mut flow = NodeFlow::new(root(), EmbeddedScanMode::Auto, 5);
    enter(&mut flow, &mut run);
    go(flow.screen(&mut run, &mut dedup, text("key"), "/in/a.zip"));
    let (picked, locks) = flow.volumes_found(
        &vec![text("g1"), text("g1"), text("g2")],
        &vec![text("/z"), text("/a"), text("/z")],
    );
    assert_eq!(picked, vec![0, 2]);
    assert_eq!(locks, vec!["/a", "/z"]);
    go(flow.locked(&mut run, &dedup, "/in/a.zip", false, RUNNING));
    assert_eq!(flow.phase, Phase::Reentering);
    assert_eq!(enter(&mut flow, &mut run), Stage::ResolveInputs);
    assert_eq!(flow.phase, Phase::Grouping);
}

#[test]
fn volumes_that_do_not_fit_fail() {
    for (preparation, reason) in [
        (Preparation::Incomplete(root()), "incomplete_volume"),
        (Preparation::Ambiguous(root()), "grouping_ambiguous"),
        (Preparation::MaterializationFailed(root()), "materialize_failed"),
    ] {
        let mut run = run();
        let mut flow = NodeFlow::new(root(), EmbeddedScanMode::Auto, 5);
        screened(&mut flow, &mut run, &mut TaskDedup::new(), &[]);
        let ending = next(flow.prepared(&mut run, preparation));
        says(&ending.outcome, "failed", reason);
        assert_eq!(run.failed_count, 1);
        assert!(!ending.stop_task);
        let row = flow.log_row(ending.log, "", "").unwrap();
        assert_eq!((row.status.as_str(), row.reason.as_deref()), ("failed", Some(reason)));
    }
}

#[test]
fn unreadable_file_fails_and_is_logged_as_skipped() {
    let mut run = run();
    run.stop_on_error = true;
    let mut flow = NodeFlow::new(root(), EmbeddedScanMode::Auto, 5);
    screened(&mut flow, &mut run, &mut TaskDedup::new(), &[]);
    go(flow.prepared(&mut run, Preparation::Single(root())));
    let ending = next(flow.probed(&mut run, false, None, EmbeddedScanMode::Auto));
    says(&ending.outcome, "failed", "not_found");
    assert_eq!(ending.log, Log::Skipped(Reason::NotFound));
    assert!(ending.stop_task);
    assert_eq!(run.failed_count, 1);
}

fn finding(offset: u64) -> EmbeddedArchiveFinding {
    EmbeddedArchiveFinding {
        offset,
        size: Some(10),
        format: ArchiveFormat::SevenZip,
        confidence: Confidence::High,
        rank: Some(1),
    }
}

fn scanning(candidate: ExtractionCandidate) -> (NodeFlow, TaskRun) {
    let mut run = run();
    let mut flow = NodeFlow::new(candidate, EmbeddedScanMode::Auto, 5);
    screened(&mut flow, &mut run, &mut TaskDedup::new(), &[]);
    let same = flow.candidate.clone();
    go(flow.prepared(&mut run, Preparation::Single(same)));
    go(flow.probed(&mut run, true, None, EmbeddedScanMode::Ask));
    go(flow.confirm(
        &mut run,
        Some(EmbeddedSelectionChoice::Extract),
        false,
        RUNNING,
    ));
    enter(&mut flow, &mut run);
    (flow, run)
}

#[test]
fn without_an_answer_a_finding_is_skipped() {
    let (mut flow, mut run) = scanning(root());
    go(flow.scanned(&mut run, Ok((1, 0)), RUNNING));
    let ending = next(flow.select(
        &mut run,
        &vec![finding(5)],
        DetectionAction::AskUser,
        Some(0),
        None,
        false,
        RUNNING,
    ));
    says(&ending.outcome, "skipped", "not_found");
}

#[test]
fn word_for_all_findings_is_kept() {
    let (mut flow, mut run) = scanning(root());
    go(flow.scanned(&mut run, Ok((1, 0)), RUNNING));
    go(flow.select(
        &mut run,
        &vec![finding(5)],
        DetectionAction::AskUser,
        Some(0),
        Some(EmbeddedSelectionChoice::ExtractAll),
        false,
        RUNNING,
    ));
    assert!(run.embedded_extract_all);
    assert_eq!(flow.candidate.embedded_offset, Some(5));
    assert_eq!(flow.candidate.detected_format, Some(ArchiveFormat::SevenZip));
    go(flow.settle(&mut run, None));
    assert_eq!(flow.phase, Phase::Settled);
}

#[test]
fn queued_finding_is_confirmed() {
    let mut run = run();
    let found = candidate("/in/a.bin", CandidateSource::EmbeddedFinding, 0);
    let mut flow = NodeFlow::new(found.clone(), EmbeddedScanMode::Ask, 5);
    screened(&mut flow, &mut run, &mut TaskDedup::new(), &[]);
    go(flow.prepared(&mut run, Preparation::Single(found)));
    go(flow.probed(&mut run, true, None, EmbeddedScanMode::Ask));
    assert!(flow.asks_confirmation(&run));
    let ending =
        next(flow.confirm(&mut run, Some(EmbeddedSelectionChoice::Skip), false, RUNNING));
    says(&ending.outcome, "skipped", "not_found");
}

#[test]
fn findings_of_a_root_are_queued_in_its_place() {
    let (mut flow, mut run) = scanning(root());
    let mut budget = TaskBudget::from_snapshot(TaskBudgetSnapshot::default());
    go(flow.scanned(&mut run, Ok((2, 2)), RUNNING));
    assert_eq!(flow.phase, Phase::Expanding);
    let found = candidate("/in/a.bin", CandidateSource::EmbeddedFinding, 0);
    go(flow.reserve_embedded(&mut run, &mut budget, 1));
    assert!(!flow.embedded_recorded(&mut run, &mut budget, &found, false, false));
    go(flow.reserve_embedded(&mut run, &mut budget, 1));
    assert!(flow.embedded_recorded(&mut run, &mut budget, &found, true, false));
    let ending = next(flow.expanded(&mut run, vec![node("child", found)]));
    says(&ending.outcome, "skipped", "expanded_to_embedded");
    assert_eq!(run.queue[0].id, "child");
    assert_eq!(run.queue[1].id, "b");
    assert_eq!(run.enqueued.len(), 1);
    assert!(run.skipped.is_empty());
}

#[test]
fn too_many_findings_end_the_run() {
    let (mut flow, mut run) = scanning(root());
    let mut budget = TaskBudget::from_snapshot(TaskBudgetSnapshot::default());
    go(flow.scanned(&mut run, Ok((1, 1)), RUNNING));
    let ending = stop(flow.reserve_embedded(&mut run, &mut budget, 0));
    says(&ending.outcome, "failed", "nested_candidate_limit");
    assert_eq!(run.failed_count, 1);
}

#[test]
fn broken_scan_breaks_off() {
    let (mut flow, mut run) = scanning(root());
    let step = flow.scanned(&mut run, Err(ErrorKind::Io), RUNNING);
    assert!(matches!(step, Step::Abort(ErrorKind::Io)));
    let ending = stop(flow.scanned(&mut run, Err(ErrorKind::Cancelled), BY_USER));
    says(&ending.outcome, "cancelled", "cancelled");
}

#[test]
fn file_without_a_format_is_skipped() {
    let (mut flow, mut run) = scanning(root());
    go(flow.scanned(&mut run, Ok((0, 0)), RUNNING));
    let ending = next(flow.settle(&mut run, None));
    says(&ending.outcome, "skipped", "not_found");
}

#[test]
fn nested_document_is_left_alone() {
    let (mut flow, mut run) =
        scanning(candidate("/out/a.docx", CandidateSource::ExtractedFile, 1));
    go(flow.scanned(&mut run, Ok((0, 0)), RUNNING));
    go(flow.settle(&mut run, Some(ArchiveFormat::Zip)));
    assert!(flow.asks_container());
    let ending = next(flow.classified(&mut run, true));
    says(&ending.outcome, "skipped", "business_container");
}

fn preparing() -> (NodeFlow, TaskRun) {
    let (mut flow, mut run) = scanning(root());
    go(flow.scanned(&mut run, Ok((0, 0)), RUNNING));
    go(flow.settle(&mut run, Some(ArchiveFormat::Rar)));
    go(flow.classified(&mut run, false));
    enter(&mut flow, &mut run);
    (flow, run)
}

#[test]
fn archive_that_cannot_be_opened_fails() {
    let (mut flow, mut run) = preparing();
    let ending = next(flow.opened(&mut run, None));
    says(&ending.outcome, "failed", "prepare_access_failed");
    let row = flow.log_row(ending.log, "no such volume", "").unwrap();
    assert_eq!((row.status.as_str(), row.reason.as_deref()), ("skipped", Some("no such volume")));
}

#[test]
fn extracted_archive_is_not_extracted_again() {
    let (mut flow, mut run) = preparing();
    let access =
        Access { sample_hash: None, file_size: None, encoding_corrected: false, skip: true };
    let ending = next(flow.opened(&mut run, Some(access)));
    says(&ending.outcome, "skipped", "already_extracted");
    assert_eq!(run.failed_count, 0);
}

#[test]
fn archive_without_a_chosen_encoding_is_skipped() {
    let (mut flow, mut run) = preparing();
    let access = Access {
        sample_hash: Some(text("h")),
        file_size: Some(1),
        encoding_corrected: true,
        skip: false,
    };
    go(flow.opened(&mut run, Some(access)));
    enter(&mut flow, &mut run);
    go(flow.encoding_chosen(&mut run, false, passwords(&["x"]), true, false, RUNNING));
    flow.attempt_again(false);
    assert_eq!(flow.phase, Phase::Concluding);
    let ending = next(flow.conclude(&mut run, "", RUNNING));
    says(&ending.outcome, "skipped", "encoding_skipped");
    assert_eq!(ending.outcome.sample_hash.as_deref(), Some("h"));
    assert!(ending.outcome.encoding_corrected);
}

#[test]
fn collision_that_is_to_be_left_alone_is_skipped() {
    let (mut flow, mut run) = attempting(&["x"], &[], true);
    attempt(&mut flow, &mut run);
    flow.staged();
    enter(&mut flow, &mut run);
    go(flow.planned(&mut run, false, RUNNING));
    enter(&mut flow, &mut run);
    let failure = AttemptFailure {
        step: FailureStep::CollisionSkipped,
        error: ErrorKind::Io,
        preserved: false,
    };
    go(flow.attempt_failed(failure, false, false).0);
    let ending = next(flow.conclude(&mut run, "", RUNNING));
    says(&ending.outcome, "skipped", "target_exists");
    assert_eq!(ending.log, Log::Skipped(Reason::TargetExists));
}

#[test]
fn commit_that_is_not_recorded_breaks_off() {
    let (mut flow, mut run) = attempting(&["x"], &[], true);
    attempt(&mut flow, &mut run);
    flow.staged();
    enter(&mut flow, &mut run);
    go(flow.planned(&mut run, false, RUNNING));
    enter(&mut flow, &mut run);
    assert!(matches!(flow.commit_announced(false), Step::Abort(ErrorKind::BackendFailed)));
    assert_eq!(flow.phase, Phase::Committing);
    go(flow.commit_announced(true));
    let failure =
        AttemptFailure { step: FailureStep::Placement, error: ErrorKind::Io, preserved: false };
    assert!(matches!(flow.attempt_failed(failure, false, true).0, Step::Abort(ErrorKind::Io)));
    assert_eq!(flow.phase, Phase::Publishing);
}

#[test]
fn failed_placement_fails_the_node() {
    let (mut flow, mut run) = attempting(&["x", "y"], &[], true);
    attempt(&mut flow, &mut run);
    let failure =
        AttemptFailure { step: FailureStep::Placement, error: ErrorKind::Io, preserved: true };
    go(flow.attempt_failed(failure, false, false).0);
    let ending = next(flow.conclude(&mut run, "", RUNNING));
    says(&ending.outcome, "failed", "not_found");
    assert_eq!(ending.log, Log::InVain { reason: Reason::NotFound, failed: true });
    let row = flow.log_row(ending.log, "", "").unwrap();
    assert_eq!(row.status, "failed");
    assert_eq!(row.sample_hash.as_deref(), Some("hash"));
    assert!(!row.has_password);
}

#[test]
fn without_anyone_to_ask_a_password_is_a_failure() {
    let (mut flow, mut run) = attempting(&["x"], &[], false);
    attempt(&mut flow, &mut run);
    go(flow.attempt_failed(extract_failed(ErrorKind::WrongPassword), false, false).0);
    assert_eq!(attempt(&mut flow, &mut run), None);
    let ending = next(flow.conclude(&mut run, "", RUNNING));
    says(&ending.outcome, "failed", "wrong_password");
}

#[test]
fn user_who_gives_no_password_skips_the_archive() {
    let (mut flow, mut run) = attempting(&["x"], &[], true);
    attempt(&mut flow, &mut run);
    go(flow.attempt_failed(extract_failed(ErrorKind::WrongPassword), false, false).0);
    assert_eq!(attempt(&mut flow, &mut run), None);
    assert_eq!(flow.phase, Phase::Asking);
    let (step, password) = flow.answered(&mut run, None, false, RUNNING);
    go(step);
    assert!(password.is_none());
    let ending = next(flow.conclude(&mut run, "", RUNNING));
    says(&ending.outcome, "skipped", "wrong_password");
    assert_eq!(run.failed_count, 0);
}

#[test]
fn user_password_is_tried() {
    let (mut flow, mut run) = attempting(&[], &[], true);
    assert_eq!(attempt(&mut flow, &mut run), None);
    let (step, password) = flow.answered(&mut run, Some(text("secret")), false, RUNNING);
    go(step);
    assert_eq!(password.unwrap().value, "secret");
    assert_eq!(flow.begin_attempt(false, text("GBK")), Some((1, 1)));
    assert_eq!(flow.facts.encoding.as_deref(), Some("GBK"));
}

#[test]
fn next_grouping_is_tried_from_the_start() {
    let (mut flow, mut run) = attempting(&["x"], &["g1", "g2"], true);
    attempt(&mut flow, &mut run);
    go(flow.attempt_failed(extract_failed(ErrorKind::CorruptedArchive), false, false).0);
    go(flow.conclude(&mut run, "", RUNNING));
    assert_eq!(flow.phase, Phase::Grouping);
    assert_eq!((flow.group, flow.group_attempt), (1, 2));
    assert_eq!(flow.candidate, root());
    opened(&mut flow, &mut run, &["x"], true);
    attempt(&mut flow, &mut run);
    go(flow.attempt_failed(extract_failed(ErrorKind::CorruptedArchive), false, false).0);
    let ending = next(flow.conclude(&mut run, "", RUNNING));
    says(&ending.outcome, "failed", "corrupt");
}

#[test]
fn new_password_starts_the_groupings_over() {
    let (mut flow, mut run) = attempting(&["x"], &["g1", "g2"], true);
    attempt(&mut flow, &mut run);
    let (step, blamed) = flow.attempt_failed(extract_failed(ErrorKind::WrongPassword), false, false);
    go(step);
    assert!(!blamed);
    assert_eq!(attempt(&mut flow, &mut run), None);
    go(flow.conclude(&mut run, "", RUNNING));
    assert!(flow.group_password_needed);
    opened(&mut flow, &mut run, &["x"], true);
    attempt(&mut flow, &mut run);
    go(flow.attempt_failed(extract_failed(ErrorKind::WrongPassword), false, false).0);
    assert_eq!(attempt(&mut flow, &mut run), None);
    assert_eq!(flow.phase, Phase::Asking);
    let (_, password) = flow.answered(&mut run, Some(text("new")), false, RUNNING);
    assert!(password.is_none());
    go(flow.conclude(&mut run, "", RUNNING));
    assert_eq!((flow.group, flow.group_attempt), (0, 3));
    assert_eq!(flow.group_passwords[0].value, "new");
}

#[test]
fn cancelled_attempt_is_cancelled() {
    let (mut flow, mut run) = attempting(&["x"], &[], true);
    attempt(&mut flow, &mut run);
    go(flow.attempt_failed(extract_failed(ErrorKind::Cancelled), false, false).0);
    let ending = stop(flow.conclude(&mut run, "", RUNNING));
    says(&ending.outcome, "cancelled", "cancelled");
    assert_eq!(ending.outcome.sample_hash.as_deref(), Some("hash"));
    assert!(run.was_cancelled);
}

#[test]
fn ending_task_interrupts_the_attempts() {
    let (mut flow, mut run) = attempting(&["x"], &[], true);
    flow.attempt_again(true);
    let ending = stop(flow.conclude(&mut run, "", BY_ERROR));
    says(&ending.outcome, "skipped", "task_stopped");
    assert!(!run.was_cancelled);
}

#[test]
fn archives_in_the_output_are_queued_behind() {
    let (mut flow, mut run) = attempting(&["x"], &[], false);
    attempt(&mut flow, &mut run);
    commit(&mut flow, &mut run);
    go(flow.conclude(&mut run, "/out/a", RUNNING));
    go(flow.enter_children(&mut run, StageEntry::Entered, RUNNING));
    let mut budget = TaskBudget::from_snapshot(TaskBudgetSnapshot::default());
    let nested = candidate("/out/a/inner.zip", CandidateSource::ExtractedFile, 1);
    go(flow.reserve_child(&mut run, &mut budget, 1));
    flow.child_recorded(&mut run, &mut budget, node("twin", nested.clone()), false);
    go(flow.reserve_child(&mut run, &mut budget, 1));
    flow.child_recorded(&mut run, &mut budget, node("inner", nested), true);
    assert_eq!(run.queue.len(), 2);
    assert_eq!(run.queue[1].id, "inner");
    let ending = stop(flow.reserve_child(&mut run, &mut budget, 1));
    assert_eq!(ending.outcome.status, "extracted");
    assert_eq!(run.failed_count, 1);
}
