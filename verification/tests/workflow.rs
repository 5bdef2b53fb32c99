//! A run over a task's archives and the decisions on the way.

use std::collections::VecDeque;

use smartzip::embedded::{Confidence, DetectionAction, EmbeddedArchiveFinding, EmbeddedScanMode};
use smartzip::history::TaskCompletionStatus;
use smartzip::interactive::EmbeddedSelectionChoice;
use smartzip::types::{
    ArchiveFormat, Cancellation, CandidateSource, EncodingMode, ErrorKind, ExtractionCandidate,
    PasswordCandidate, PasswordSource,
};
use smartzip::workflow::attempt::{
    AfterFailure, AttemptFailure, Attempts, FailureStep, NextAttempt, PromptReply, Verdict,
};
use smartzip::workflow::dedup::{distinct_groups, lock_order, Screening, TaskDedup, TextSet};
use smartzip::workflow::discovery::{
    assesses_encoding, checks_business_container, choose_encoding, confirmation, confirms_finding,
    discovers_nested, discovers_volumes, encoding_corrected, enter_stage, expands_root_findings,
    finding_step, keeps_finding, may_prompt, narrow_to_finding, nested_embedded_enabled,
    probes_header, recycles, resolve_root_candidate, scans_content, scans_unrecognized,
    settle_format, skips_completed, Cleanup, FindingStep, NestedScan, StageEntry, WorkflowConfig,
};
use smartzip::workflow::notice::Notice;
use smartzip::workflow::reason::{classify_error, retryable_group_error, NodeStatus, Reason};
use smartzip::workflow::record::{begin_decision, finish_decision, finish_execution, AfterReply};
use smartzip::workflow::run::{IdentityError, NextStep, TaskRun, WorkNode};
use smartzip::workflow::volume_key::volume_set_key;

const RUNNING: Cancellation =
    Cancellation { cancelled: false, user: false, stopped_on_error: false };
const BY_USER: Cancellation = Cancellation { cancelled: true, user: true, stopped_on_error: false };
const BY_ERROR: Cancellation =
    Cancellation { cancelled: true, user: false, stopped_on_error: true };

fn text(s: &str) -> String {
    s.to_string()
}

fn texts(list: &[&str]) -> Vec<String> {
    list.iter().map(|s| text(s)).collect()
}

fn candidate(path: &str) -> ExtractionCandidate {
    ExtractionCandidate {
        path: text(path),
        relative_path: text(path),
        depth: 0,
        source: CandidateSource::RootInput,
        detected_format: None,
        embedded_offset: None,
        embedded_size: None,
    }
}

fn node(path: &str) -> WorkNode {
    WorkNode { id: text(path), root_id: text(path), generation: 0, candidate: candidate(path) }
}

fn run(paths: &[&str], stop_on_error: bool) -> TaskRun {
    match TaskRun::new(&texts(paths), paths.iter().map(|p| node(p)).collect(), stop_on_error, 5) {
        Ok(run) => run,
        Err(_) => panic!("the roots stand for the inputs"),
    }
}

fn config() -> WorkflowConfig {
    WorkflowConfig {
        never_prompt: false,
        stop_on_error: false,
        auto_discover_volumes: true,
        recursion_enabled: true,
        nested_scan: NestedScan::Dominant,
        root_scan: true,
        skip_completed: true,
        nested_cleanup: Cleanup::Trash,
        asks_on_suspicious_encoding: true,
        asks_on_conflict: true,
    }
}

#[test]
fn roots_stand_for_the_inputs() {
    let error = |inputs: &[&str], roots: &[&str]| {
        TaskRun::new(&texts(inputs), roots.iter().map(|p| node(p)).collect(), false, 5).err()
    };
    assert_eq!(error(&["/a"], &[]), Some(IdentityError::CountMismatch));
    assert_eq!(error(&["/a", "/b"], &["/b", "/a"]), Some(IdentityError::PathMismatch));
    assert_eq!(error(&["/a", "/b"], &["/a", "/b"]), None);
    assert_eq!(error(&["/a//x", "/b/"], &["/a/./x", "/b"]), None);
    assert_eq!(error(&["/a"], &["a"]), Some(IdentityError::PathMismatch));
}

#[test]
fn nodes_come_in_order() {
    let mut run = run(&["/a", "/b"], false);
    for expected in ["/a", "/b"] {
        match run.next(RUNNING, false) {
            NextStep::Work(node) => assert_eq!(node.id, expected),
            _ => panic!("a node is left"),
        }
    }
    assert!(matches!(run.next(RUNNING, false), NextStep::Done));
    assert_eq!(run.complete(RUNNING), TaskCompletionStatus::Completed);
}

#[test]
fn first_failure_stops_the_run_on_request() {
    let mut run = run(&["/a", "/b", "/c"], true);
    run.next(RUNNING, false);
    let (outcome, stop) = run.fail(candidate("/a"), Reason::Corrupt);
    assert!(stop);
    assert_eq!(outcome.status, "failed");
    assert!(matches!(run.next(RUNNING, false), NextStep::StopOnError));
    let ended = run.drain(RUNNING);
    let ended: Vec<(&str, &str, Option<&str>)> = ended
        .iter()
        .map(|(n, o)| (n.id.as_str(), o.status.as_str(), o.reason.as_deref()))
        .collect();
    assert_eq!(
        ended,
        [
            ("/b", "skipped", Some("task_stopped")),
            ("/c", "skipped", Some("task_stopped"))
        ]
    );
    assert!(run.queue.is_empty());
    assert_eq!(run.complete(BY_ERROR), TaskCompletionStatus::Failed);
}

#[test]
fn later_archives_run_after_a_failure() {
    let mut run = run(&["/a", "/b"], false);
    run.next(RUNNING, false);
    assert!(!run.fail(candidate("/a"), Reason::Corrupt).1);
    assert!(matches!(run.next(RUNNING, false), NextStep::Work(_)));
    let outcome = run.extracted(candidate("/b"), "/out/b", false);
    assert!(outcome.committed);
    assert_eq!(run.complete(RUNNING), TaskCompletionStatus::Partial);
}

#[test]
fn cancelled_run_drains_as_cancelled() {
    let mut run = run(&["/a", "/b"], false);
    assert!(matches!(run.next(BY_USER, false), NextStep::StopCancelled));
    assert!(run.was_cancelled);
    let ended = run.drain(BY_USER);
    assert_eq!(ended.len(), 2);
    assert!(ended.iter().all(|(_, o)| o.status == "cancelled"));
    assert_eq!(run.complete(BY_USER), TaskCompletionStatus::Cancelled);
}

#[test]
fn closed_context_stops_without_the_user() {
    let mut run = run(&["/a"], false);
    assert!(matches!(run.next(RUNNING, true), NextStep::StopCancelled));
    assert!(!run.was_cancelled);
    assert_eq!(run.drain(RUNNING)[0].1.status, "skipped");
}

#[test]
fn findings_go_in_front_and_nested_archives_behind() {
    let mut run = run(&["/a", "/b"], false);
    run.next(RUNNING, false);
    run.announce(&candidate("/a#1"));
    run.announce(&candidate("/a#2"));
    let outcome = run.expand_root(vec![node("/a#1"), node("/a#2")]);
    assert_eq!(outcome.reason.as_deref(), Some("expanded_to_embedded"));
    run.enqueue_nested(node("/out/n"));
    let order: Vec<&str> = run.queue.iter().map(|n| n.id.as_str()).collect();
    assert_eq!(order, ["/a#1", "/a#2", "/b", "/out/n"]);
    let listed: Vec<&str> = run.enqueued.iter().map(|c| c.path.as_str()).collect();
    assert_eq!(listed, ["/a#1", "/a#2", "/out/n"]);
    assert!(run.skipped.is_empty());
}

#[test]
fn skipped_and_interrupted_nodes_are_listed() {
    let mut run = run(&["/a"], false);
    assert_eq!(run.skip(candidate("/a"), Reason::NotFound).status, "skipped");
    assert_eq!(run.interrupt(candidate("/b"), BY_ERROR).reason.as_deref(), Some("task_stopped"));
    assert!(!run.was_cancelled);
    assert_eq!(run.cancel(candidate("/c")).status, "cancelled");
    assert!(run.was_cancelled);
    assert_eq!(run.skipped.len(), 3);
    assert_eq!(run.failed_count, 0);
}

fn password(value: &str) -> PasswordCandidate {
    PasswordCandidate { id: Some(1), value: text(value), source: PasswordSource::Database }
}

fn attempts(values: &[&str], groups: usize, has_prompter: bool) -> Attempts {
    let passwords: VecDeque<PasswordCandidate> = values.iter().map(|v| password(v)).collect();
    Attempts::new(passwords, groups > 1, groups - 1, groups, false, has_prompter, false)
}

fn refusal(error: ErrorKind) -> AttemptFailure {
    AttemptFailure { step: FailureStep::ExtractFailed, error, preserved: false }
}

#[test]
fn attempts_count_the_shown_total() {
    let mut a = attempts(&["x"], 1, true);
    assert_eq!(a.count_attempt(), (1, 1));
    assert_eq!(a.count_attempt(), (2, 2));
    let mut b = attempts(&["x", "y", "z"], 1, true);
    assert_eq!(b.count_attempt(), (1, 3));
}

#[test]
fn wrong_password_is_blamed_with_one_grouping_only() {
    let mut one = attempts(&["x"], 1, false);
    assert_eq!(
        one.fail(refusal(ErrorKind::WrongPassword), false),
        AfterFailure::Retry { blame_password: true }
    );
    let mut two = attempts(&["x"], 2, false);
    assert_eq!(
        two.fail(refusal(ErrorKind::WrongPassword), false),
        AfterFailure::Retry { blame_password: false }
    );
}

#[test]
fn required_password_retries_the_empty_one_only() {
    let mut a = attempts(&["x"], 1, false);
    assert_eq!(
        a.fail(refusal(ErrorKind::PasswordRequired), true),
        AfterFailure::Retry { blame_password: false }
    );
    assert_eq!(a.fail(refusal(ErrorKind::PasswordRequired), false), AfterFailure::Stop);
    assert_eq!(
        a.conclude(RUNNING),
        Verdict::Failed(Reason::WrongPassword, ErrorKind::PasswordRequired)
    );
}

#[test]
fn indeterminate_password_is_kept_as_the_reason() {
    let mut a = attempts(&["x"], 1, true);
    assert_eq!(
        a.fail(refusal(ErrorKind::PasswordIndeterminate), false),
        AfterFailure::Retry { blame_password: false }
    );
    assert!(matches!(a.next_password(), NextAttempt::Try(_)));
    assert!(matches!(a.next_password(), NextAttempt::AskUser));
    let mut kept = vec![];
    assert!(matches!(a.answer(Some(text("")), &mut kept), PromptReply::Stop));
    assert!(kept.is_empty());
    assert_eq!(a.conclude(RUNNING), Verdict::Skipped(Reason::PasswordIndeterminate));
}

#[test]
fn kept_output_ends_the_attempts() {
    let mut a = attempts(&["x", "y"], 2, true);
    let kept = AttemptFailure {
        step: FailureStep::ExtractFailed,
        error: ErrorKind::CorruptedArchive,
        preserved: true,
    };
    assert_eq!(a.fail(kept, false), AfterFailure::Stop);
    assert_eq!(
        a.conclude(RUNNING),
        Verdict::Failed(Reason::Corrupt, ErrorKind::CorruptedArchive)
    );
}

#[test]
fn other_groupings_are_tried_before_the_user_is_asked() {
    let mut a = attempts(&[], 2, true);
    assert!(matches!(a.next_password(), NextAttempt::Stop));
    a = attempts(&["x"], 2, true);
    a.next_password();
    a.fail(refusal(ErrorKind::CorruptedArchive), false);
    assert_eq!(a.conclude(RUNNING), Verdict::NextGroup);
    assert!(!a.carries_password_need());
}

#[test]
fn last_grouping_asks_at_once_where_an_earlier_one_needed_a_password() {
    let passwords: VecDeque<PasswordCandidate> = VecDeque::from(vec![password("x"), password("y")]);
    let mut a = Attempts::new(passwords, true, 0, 2, true, true, false);
    assert!(a.carries_password_need());
    assert!(matches!(a.next_password(), NextAttempt::Try(_)));
    assert_eq!(
        a.fail(refusal(ErrorKind::CorruptedArchive), false),
        AfterFailure::Retry { blame_password: false }
    );
    assert!(matches!(a.next_password(), NextAttempt::AskUser));
    let mut kept = vec![];
    a.answer(Some(text("new")), &mut kept);
    assert_eq!(kept[0].value, "new");
    assert_eq!(kept[0].id, None);
    assert_eq!(kept[0].source, PasswordSource::Manual);
    assert_eq!(a.conclude(RUNNING), Verdict::RestartGroups);
}

#[test]
fn committed_attempt_survives_every_cancellation() {
    for c in [RUNNING, BY_USER, BY_ERROR] {
        let mut a = attempts(&["x"], 1, true);
        a.next_password();
        a.succeed();
        assert_eq!(a.conclude(c), Verdict::Extracted);
    }
}

#[test]
fn cancelled_attempts_say_so() {
    let mut a = attempts(&["x"], 1, true);
    assert_eq!(a.conclude(BY_USER), Verdict::Interrupted);
    a.fail(refusal(ErrorKind::Cancelled), false);
    assert!(a.was_cancelled(RUNNING));
    assert_eq!(a.conclude(RUNNING), Verdict::Cancelled);
    assert!(!a.was_cancelled(BY_ERROR));
    let mut b = attempts(&["x"], 1, true);
    b.fail(refusal(ErrorKind::Io), false);
    assert_eq!(b.conclude(BY_USER), Verdict::Cancelled);
    assert_eq!(b.conclude(BY_ERROR), Verdict::Failed(Reason::NotFound, ErrorKind::Io));
}

#[test]
fn archive_without_trouble_needs_a_password() {
    let a = attempts(&[], 1, true);
    assert_eq!(a.conclude(RUNNING), Verdict::Skipped(Reason::PasswordRequired));
    let b = Attempts::new(VecDeque::new(), false, 0, 1, false, true, true);
    assert_eq!(b.conclude(RUNNING), Verdict::Skipped(Reason::EncodingSkipped));
}

#[test]
fn password_counts_where_the_archive_needs_one() {
    let mut a = attempts(&["x"], 1, true);
    assert!(!a.has_password("", Some(true), true));
    assert!(!a.has_password("x", None, false));
    assert!(!a.has_password("x", Some(false), false));
    assert!(a.has_password("x", Some(true), false));
    assert!(a.has_password("x", None, true));
    a.fail(refusal(ErrorKind::WrongPassword), false);
    assert!(a.has_password("x", None, false));
}

#[test]
fn texts_are_held_once() {
    let mut set = TextSet::new();
    assert!(set.insert(text("a")));
    assert!(!set.insert(text("a")));
    assert!(set.insert(text("")));
    assert!(set.contains("a") && set.contains("") && !set.contains("b"));
}

#[test]
fn members_of_a_taken_set_are_known() {
    let mut dedup = TaskDedup::new();
    let paths = texts(&["/a.001", "/a.002"]);
    assert_eq!(dedup.claim_volume_set(text("7z:a"), &paths), Screening::Accept);
    assert_eq!(
        dedup.claim_volume_set(text("7z:a"), &texts(&["/z"])),
        Screening::Skip(Reason::Duplicate)
    );
    assert!(dedup.member_taken(CandidateSource::RootInput, "/a.001"));
    assert!(dedup.member_taken(CandidateSource::ExtractedFile, "/a.002"));
    assert!(!dedup.member_taken(CandidateSource::EmbeddedFinding, "/a.001"));
    assert!(dedup.member_taken(CandidateSource::RootInput, "//a.001"));
    assert!(dedup.member_taken(CandidateSource::RootInput, "/./a.001/"));
    assert!(!dedup.member_taken(CandidateSource::RootInput, "a.001"));
    assert!(!dedup.member_taken(CandidateSource::RootInput, "/z"));
    dedup.consume_winner(text("7z:b"), &texts(&["/b.001"]));
    assert!(dedup.member_taken(CandidateSource::RootInput, "/b.001"));
    assert!(dedup.member_taken(CandidateSource::RootInput, "/a.001"));
}

#[test]
fn limit_counts_the_depth() {
    let mut dedup = TaskDedup::new();
    let at = |depth: usize| ExtractionCandidate { depth, ..candidate("/n") };
    assert_eq!(dedup.screen(&at(2), text("1"), "/n", 2), Screening::Accept);
    assert_eq!(
        dedup.screen(&at(3), text("2"), "/n", 2),
        Screening::Skip(Reason::RecursionLimit)
    );
    assert_eq!(dedup.screen(&at(3), text("2"), "/n", 2), Screening::Skip(Reason::Duplicate));
}

#[test]
fn locks_come_in_one_order() {
    let order = lock_order(&texts(&["/b", "/a", "/b", "/A", "/\u{e9}"]));
    assert_eq!(order, ["/A", "/a", "/b", "/\u{e9}"]);
    assert!(lock_order(&vec![]).is_empty());
    let order = lock_order(&texts(&["/a-b", "/a/b", "/a//b", "rel", "/../z", "/a/./b", "."]));
    assert_eq!(order, ["/../z", "/a/b", "/a-b", ".", "rel"]);
    let mut paths: Vec<std::path::PathBuf> =
        order.iter().rev().map(std::path::PathBuf::from).collect();
    paths.sort();
    assert!(paths.iter().eq(order.iter().map(std::path::Path::new)));
}

#[test]
fn groupings_are_tried_once() {
    assert_eq!(distinct_groups(&texts(&["x", "y", "x", "z", "y"])), [0, 1, 3]);
}

#[test]
fn volume_key_ignores_the_order() {
    let key = volume_set_key("rar", &texts(&["/b", "/a"]));
    assert_eq!(key, "rar:/a|/b");
    assert_eq!(volume_set_key("rar", &texts(&["/a", "/b"])), key);
    assert_eq!(volume_set_key("zip", &vec![]), "zip:");
}

#[test]
fn configuration_gates_prompts_and_scans() {
    assert!(may_prompt(None) && may_prompt(Some(config())));
    assert!(!may_prompt(Some(WorkflowConfig { never_prompt: true, ..config() })));
    assert!(discovers_volumes(None));
    assert!(!discovers_volumes(Some(WorkflowConfig { auto_discover_volumes: false, ..config() })));
    let auto = EmbeddedScanMode::Auto;
    assert!(nested_embedded_enabled(None, auto) && nested_embedded_enabled(Some(config()), auto));
    assert!(!nested_embedded_enabled(None, EmbeddedScanMode::Ignore));
    let off = WorkflowConfig { nested_scan: NestedScan::Off, ..config() };
    assert!(!nested_embedded_enabled(Some(off), auto));
    let flat = WorkflowConfig { recursion_enabled: false, ..config() };
    assert!(!nested_embedded_enabled(Some(flat), auto));
    assert!(scans_unrecognized(None) && !scans_unrecognized(Some(config())));
    let eager = WorkflowConfig { nested_scan: NestedScan::Aggressive, ..config() };
    assert!(scans_unrecognized(Some(eager)));
    assert!(probes_header(None, EmbeddedScanMode::Ignore));
    assert!(!probes_header(Some(config()), EmbeddedScanMode::Ignore));
    assert!(probes_header(Some(config()), auto));
}

#[test]
fn findings_are_confirmed_by_mode_and_depth() {
    let found = CandidateSource::EmbeddedFinding;
    assert!(confirms_finding(found, 0, EmbeddedScanMode::Ask, false));
    assert!(!confirms_finding(found, 0, EmbeddedScanMode::Auto, false));
    assert!(confirms_finding(found, 1, EmbeddedScanMode::Auto, false));
    assert!(!confirms_finding(found, 1, EmbeddedScanMode::Auto, true));
    assert!(!confirms_finding(CandidateSource::RootInput, 1, EmbeddedScanMode::Ask, false));
    assert_eq!(confirmation(Some(EmbeddedSelectionChoice::Extract)), (true, false));
    assert_eq!(confirmation(Some(EmbeddedSelectionChoice::ExtractAll)), (true, true));
    assert_eq!(confirmation(Some(EmbeddedSelectionChoice::Skip)), (false, false));
    assert_eq!(confirmation(None), (false, false));
}

#[test]
fn content_is_scanned_where_it_may_hide_something() {
    let zip = Some((ArchiveFormat::Zip, 0));
    let tail = Some((ArchiveFormat::Zip, 9));
    let root = CandidateSource::RootInput;
    let nested = CandidateSource::ExtractedFile;
    let auto = EmbeddedScanMode::Auto;
    assert!(scans_content(root, false, &zip, false, auto, true));
    assert!(!scans_content(root, true, &zip, false, auto, true));
    assert!(!scans_content(root, false, &zip, false, auto, false));
    assert!(!scans_content(nested, false, &zip, false, auto, true));
    assert!(scans_content(nested, false, &tail, false, auto, true));
    assert!(scans_content(nested, false, &None, false, auto, true));
    assert!(scans_content(nested, false, &zip, true, auto, true));
    assert!(scans_content(nested, false, &zip, false, EmbeddedScanMode::All, true));
    assert!(keeps_finding(root, false) && !keeps_finding(nested, false));
    assert!(keeps_finding(nested, true));
    assert!(expands_root_findings(auto) && !expands_root_findings(EmbeddedScanMode::Ignore));
}

#[test]
fn decisions_on_findings_lead_on() {
    assert_eq!(
        finding_step(DetectionAction::ExtractDirect, false),
        FindingStep::Proceed { announce: false }
    );
    assert_eq!(
        finding_step(DetectionAction::CarveAndExtract, false),
        FindingStep::Proceed { announce: true }
    );
    assert_eq!(finding_step(DetectionAction::AskUser, false), FindingStep::Ask);
    assert_eq!(
        finding_step(DetectionAction::AskUser, true),
        FindingStep::Proceed { announce: true }
    );
}

fn finding(offset: u64) -> EmbeddedArchiveFinding {
    EmbeddedArchiveFinding {
        offset,
        size: Some(7),
        format: ArchiveFormat::Rar,
        confidence: Confidence::High,
        rank: Some(1),
    }
}

#[test]
fn candidate_is_narrowed_to_its_finding() {
    let mut c = candidate("/a");
    narrow_to_finding(&mut c, &vec![finding(3)], Some(1));
    assert_eq!(c, candidate("/a"));
    narrow_to_finding(&mut c, &vec![finding(3)], Some(0));
    assert_eq!(c.detected_format, Some(ArchiveFormat::Rar));
    assert_eq!((c.embedded_offset, c.embedded_size), (Some(3), Some(7)));
}

#[test]
fn header_decides_the_format_before_the_extension() {
    let mut c = candidate("/a");
    settle_format(&mut c, Some((ArchiveFormat::Zip, 4)), Some(ArchiveFormat::Rar));
    assert_eq!((c.detected_format.clone(), c.embedded_offset), (Some(ArchiveFormat::Zip), Some(4)));
    settle_format(&mut c, Some((ArchiveFormat::Rar, 0)), None);
    assert_eq!(c.detected_format, Some(ArchiveFormat::Zip));
    let mut d = candidate("/a");
    settle_format(&mut d, None, Some(ArchiveFormat::Rar));
    assert_eq!((d.detected_format, d.embedded_offset), (Some(ArchiveFormat::Rar), None));
}

#[test]
fn root_resolves_to_the_selected_finding() {
    let resolve = |selected, header, extension| {
        resolve_root_candidate(text("/a"), text("a"), &vec![finding(0), finding(8)], selected, header, extension)
    };
    let (c, announced) = resolve(Some(1), None, None);
    assert!(announced);
    assert_eq!(c.unwrap().embedded_offset, Some(8));
    assert!(!resolve(Some(0), None, None).1);
    let (c, announced) = resolve(None, Some((ArchiveFormat::Zip, 0)), Some(ArchiveFormat::Tar));
    assert!(!announced);
    let c = c.unwrap();
    assert_eq!((c.detected_format, c.embedded_offset), (Some(ArchiveFormat::Zip), None));
    let (c, _) = resolve(None, None, Some(ArchiveFormat::Tar));
    assert_eq!(c.unwrap().detected_format, Some(ArchiveFormat::Tar));
    assert_eq!(resolve(None, None, None), (None, false));
}

#[test]
fn nested_zip_may_be_a_document() {
    let zip = |depth| ExtractionCandidate {
        depth,
        detected_format: Some(ArchiveFormat::Zip),
        ..candidate("/a.docx")
    };
    assert!(!checks_business_container(&zip(0)));
    assert!(checks_business_container(&zip(1)));
    assert!(!checks_business_container(&candidate("/a.docx")));
}

#[test]
fn earlier_results_children_and_leftovers() {
    assert!(skips_completed(false, Some(config()), true));
    assert!(!skips_completed(true, Some(config()), true));
    assert!(!skips_completed(false, None, true));
    assert!(discovers_nested(false, None, 9, 1));
    assert!(discovers_nested(false, Some(config()), 0, 1));
    assert!(!discovers_nested(false, Some(config()), 1, 1));
    assert!(!discovers_nested(true, None, 0, 1));
    let nested = CandidateSource::ExtractedFile;
    assert!(recycles(false, nested, None) && recycles(false, nested, Some(config())));
    assert!(!recycles(false, CandidateSource::RootInput, None));
    assert!(!recycles(true, nested, None));
    let keep = WorkflowConfig { nested_cleanup: Cleanup::Keep, ..config() };
    assert!(!recycles(false, nested, Some(keep)));
}

#[test]
fn confirmed_encoding_is_used_again() {
    let gbk = EncodingMode::Override(text("GBK"));
    assert_eq!(choose_encoding(&EncodingMode::Auto, &Some(text("GBK"))), (gbk.clone(), true));
    assert_eq!(choose_encoding(&EncodingMode::Auto, &None), (EncodingMode::Auto, false));
    assert_eq!(choose_encoding(&gbk, &Some(text("Big5"))), (gbk.clone(), false));
    assert!(encoding_corrected(true, &EncodingMode::Auto) && encoding_corrected(false, &gbk));
    assert!(!encoding_corrected(false, &EncodingMode::Auto));
    assert!(assesses_encoding(true, &EncodingMode::Auto, &Some(ArchiveFormat::Zip)));
    assert!(!assesses_encoding(true, &gbk, &Some(ArchiveFormat::Zip)));
    assert!(!assesses_encoding(true, &EncodingMode::Auto, &Some(ArchiveFormat::Rar)));
}

#[test]
fn stage_entry_follows_the_recorder() {
    assert_eq!(enter_stage(None, false), StageEntry::Entered);
    assert_eq!(enter_stage(None, true), StageEntry::Interrupted);
    assert_eq!(enter_stage(Some(Ok(true)), true), StageEntry::Entered);
    assert_eq!(enter_stage(Some(Ok(false)), false), StageEntry::Stale);
    assert_eq!(enter_stage(Some(Err(ErrorKind::Cancelled)), true), StageEntry::Interrupted);
    assert_eq!(
        enter_stage(Some(Err(ErrorKind::Cancelled)), false),
        StageEntry::Broken(ErrorKind::Cancelled)
    );
    assert_eq!(enter_stage(Some(Err(ErrorKind::Io)), true), StageEntry::Broken(ErrorKind::Io));
}

#[test]
fn reports_count_where_they_are_taken_in() {
    for report in [begin_decision, finish_execution] {
        assert_eq!(report(None), Ok(()));
        assert_eq!(report(Some(Ok(true))), Ok(()));
        assert_eq!(report(Some(Ok(false))), Err(ErrorKind::BackendFailed));
        assert_eq!(report(Some(Err(ErrorKind::Io))), Err(ErrorKind::Io));
    }
    assert_eq!(finish_decision(None), Ok(AfterReply::GoOn));
    assert_eq!(finish_decision(Some(Ok(true))), Ok(AfterReply::EnterAgain));
    assert_eq!(finish_decision(Some(Ok(false))), Err(ErrorKind::BackendFailed));
}

#[test]
fn errors_are_filed_under_reasons() {
    for (error, reason, other_grouping) in [
        (ErrorKind::WrongPassword, "wrong_password", true),
        (ErrorKind::PasswordRequired, "wrong_password", true),
        (ErrorKind::PasswordIndeterminate, "password_indeterminate", true),
        (ErrorKind::Io, "not_found", false),
        (ErrorKind::CorruptedArchive, "corrupt", true),
        (ErrorKind::UnsupportedFormat, "backend_failed", true),
        (ErrorKind::UnsupportedContainer, "backend_failed", true),
        (ErrorKind::UnsupportedCodec, "backend_failed", true),
        (ErrorKind::BackendProtocolError, "backend_failed", true),
        (ErrorKind::BackendFailed, "backend_failed", false),
        (ErrorKind::Cancelled, "backend_failed", false),
        (ErrorKind::ResourceLimit, "backend_failed", false),
    ] {
        assert_eq!(classify_error(error).as_str(), reason);
        assert_eq!(retryable_group_error(error), other_grouping);
    }
    assert_eq!(NodeStatus::Extracted.as_str(), "extracted");
}

#[test]
fn notices_are_put_in_words() {
    let path = || text("/a.zip");
    let id = || text("n1");
    for (notice, words) in [
        (
            Notice::IncompleteVolumes { path: path(), why: text("part 2") },
            "incomplete volume set for /a.zip: part 2",
        ),
        (
            Notice::AmbiguousGrouping { path: path(), count: 3 },
            "grouping ambiguous for /a.zip: 3 hypotheses",
        ),
        (
            Notice::NotMaterialized { path: path(), why: text("full") },
            "volume materialization failed for /a.zip: full",
        ),
        (
            Notice::ScanLimited { bytes: 1024, path: path() },
            "embedded scan limited to first 1024 bytes of /a.zip",
        ),
        (
            Notice::ProcessingInput { index: 1, total: 20, path: path() },
            "Processing input [1/20]: /a.zip",
        ),
        (
            Notice::ProcessingNested { depth: 2, path: path() },
            "Processing nested archive at depth 2: /a.zip",
        ),
        (Notice::Extracting { path: path(), depth: 0 }, "Extracting /a.zip at depth 0"),
        (
            Notice::TryingPassword { index: 1, total: 2, label: text("empty"), path: path() },
            "Trying password [1/2] (empty) by extraction for /a.zip",
        ),
        (Notice::RecoveryRetained { path: path() }, "recovery output retained at /a.zip"),
        (
            Notice::GroupingFailed { attempt: 1, path: path() },
            "volume grouping attempt 1 failed for /a.zip; trying next grouping",
        ),
        (
            Notice::GroupingSucceeded { attempt: 2, path: path(), left: 1 },
            "volume grouping attempt 2 succeeded for /a.zip; discarded 1 remaining groupings",
        ),
        (
            Notice::NotRecycled { path: path(), why: text("denied") },
            "failed to move processed nested archive /a.zip to trash: denied",
        ),
        (
            Notice::StaleStage { node: id(), generation: 4 },
            "stale stage result for node n1 generation 4",
        ),
        (
            Notice::StaleEnd { node: id(), generation: 4 },
            "stale terminal result for node n1 generation 4",
        ),
        (Notice::StaleReply { node: id() }, "stale decision reply for node n1"),
        (Notice::DecisionNotKept { node: id() }, "could not persist decision for node n1"),
        (Notice::StagingNotKept { node: id() }, "could not persist staging ownership for node n1"),
        (Notice::IntentNotKept { node: id() }, "could not persist commit intent for node n1"),
        (Notice::CommitNotKept { node: id() }, "could not persist published commit for node n1"),
    ] {
        assert_eq!(notice.describe(), words);
    }
}
