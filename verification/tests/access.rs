//! Opening archives, and what the end of the work on one leaves behind.

use smartzip::access::{
    assesses_after_listing, describe_attempt, needs_relisting, sample_source, scan_cancelled,
    AccessStep, PasswordAccess, PromptStep, Refusal, SampleSource,
};
use smartzip::backend_util::{
    backend_panic, failed_test_error, map_detect_error, ArchiveFailure, TestDiagnostics,
    TestFailure,
};
use smartzip::events::TaskEventKind;
use smartzip::execution::{
    ArtifactIdentity, CommitIntent, CommitRecord, CommitSuccessFacts, ExtractTaskIdentity,
    NodeOutcome, TaskBudgetSnapshot,
};
use smartzip::outcome::{CandidateDetails, CandidateOutcome, CandidateResults};
use smartzip::types::{
    ArchiveFormat, CandidateSource, EncodingMode, ErrorKind, ExtractionCandidate,
    PasswordCandidate, PasswordSource,
};

fn text(s: &str) -> String {
    s.to_string()
}

fn access(values: &[&str], can_prompt: bool) -> PasswordAccess {
    let candidates = values
        .iter()
        .map(|v| PasswordCandidate { id: None, value: text(v), source: PasswordSource::Recent })
        .collect();
    PasswordAccess::new(candidates, can_prompt)
}

fn candidate() -> ExtractionCandidate {
    ExtractionCandidate {
        path: text("/in/a.zip"),
        relative_path: text("a"),
        depth: 0,
        source: CandidateSource::RootInput,
        detected_format: None,
        embedded_offset: Some(6),
        embedded_size: None,
    }
}

#[test]
fn stored_passwords_come_before_the_user() {
    let mut a = access(&["", "x"], true);
    assert_eq!(a.next(), AccessStep::Try(0));
    assert_eq!(a.refused(ErrorKind::PasswordRequired), Refusal::Unnoted);
    assert_eq!(a.next(), AccessStep::Try(1));
    assert_eq!(a.refused(ErrorKind::WrongPassword), Refusal::Noted);
    assert_eq!(a.next(), AccessStep::Prompt);
    assert_eq!(a.answered(&Some(text("y")), false), PromptStep::Try);
    assert_eq!(a.answer_refused(ErrorKind::WrongPassword), None);
    assert_eq!(a.next(), AccessStep::Prompt);
    assert_eq!(a.answered(&Some(text("z")), false), PromptStep::Try);
    a.answer_accepted(text("z"));
    assert_eq!(a.next(), AccessStep::Conclude);
    assert_eq!(a.used_password.as_deref(), Some("z"));
    assert_eq!(a.conclude(), None);
}

#[test]
fn fitting_password_ends_the_attempts() {
    let mut a = access(&["x", "y"], true);
    a.accepted(Some(7));
    assert_eq!(a.used_password.as_deref(), Some("x"));
    assert_eq!(a.next(), AccessStep::Conclude);
    assert_eq!(a.conclude(), None);
    let opened = a.outcome(EncodingMode::Override(text("GBK"))).unwrap();
    assert_eq!(opened.password_id, Some(7));
    assert!(!opened.has_password);
    assert!(opened.encoding_mode.same(&EncodingMode::Override(text("GBK"))));
}

#[test]
fn other_failures_are_fatal() {
    let mut a = access(&["x"], true);
    assert_eq!(a.refused(ErrorKind::PasswordRequired), Refusal::Fatal(ErrorKind::PasswordRequired));
    let mut b = access(&[""], true);
    assert_eq!(b.refused(ErrorKind::Io), Refusal::Fatal(ErrorKind::Io));
    assert_eq!(b.answer_refused(ErrorKind::Io), Some(ErrorKind::Io));
    assert_eq!(b.conclude(), None);
}

#[test]
fn giving_up_leaves_a_password_required() {
    for answer in [None, Some(text(""))] {
        let mut a = access(&["x"], true);
        a.refused(ErrorKind::WrongPassword);
        assert_eq!(a.answered(&answer, false), PromptStep::GaveUp);
        assert_eq!(a.next(), AccessStep::Conclude);
        assert_eq!(a.conclude(), Some(ErrorKind::PasswordRequired));
        assert_eq!(a.outcome(EncodingMode::Auto).err(), Some(ErrorKind::PasswordRequired));
    }
    let mut b = access(&["x"], false);
    b.refused(ErrorKind::WrongPassword);
    assert_eq!(b.next(), AccessStep::Conclude);
    assert_eq!(b.conclude(), Some(ErrorKind::WrongPassword));
    assert_eq!(b.outcome(EncodingMode::Auto).err(), Some(ErrorKind::WrongPassword));
    assert_eq!(b.answered(&None, true), PromptStep::Cancelled);
    assert_eq!(access(&[], false).conclude(), None);
}

#[test]
fn names_are_examined_once() {
    let zip = Some(ArchiveFormat::Zip);
    let gbk = EncodingMode::Override(text("GBK"));
    assert!(assesses_after_listing(true, false, &EncodingMode::Auto, &zip));
    assert!(!assesses_after_listing(true, true, &EncodingMode::Auto, &zip));
    assert!(!assesses_after_listing(true, false, &gbk, &zip));
    assert!(!assesses_after_listing(true, false, &EncodingMode::Auto, &None));
    assert!(needs_relisting(false, &gbk, &gbk));
    assert!(!needs_relisting(true, &gbk, &EncodingMode::Override(text("GBK"))));
    assert!(needs_relisting(true, &gbk, &EncodingMode::Auto));
}

#[test]
fn sample_is_taken_where_history_is_kept() {
    assert_eq!(sample_source(false, Some(3)), SampleSource::Nothing);
    assert_eq!(sample_source(true, Some(3)), SampleSource::Segment(3));
    assert_eq!(sample_source(true, Some(0)), SampleSource::Whole);
    assert_eq!(sample_source(true, None), SampleSource::Whole);
    assert!(scan_cancelled(true, false) && scan_cancelled(false, true));
    assert!(!scan_cancelled(false, false));
}

#[test]
fn attempt_is_described() {
    assert_eq!(
        describe_attempt(0, 12, "recent", "/a.zip"),
        "Trying password [1/12] (recent) for /a.zip"
    );
}

fn diagnostics(failure: Option<TestFailure>) -> TestDiagnostics {
    TestDiagnostics {
        failure,
        adapter_id: text("7zz"),
        exit_code: Some(2),
        stderr: text("Headers Error"),
    }
}

#[test]
fn failed_tests_are_told_apart() {
    let told = |failure| {
        let e = failed_test_error(&diagnostics(failure), "/a");
        (e.kind, e.path, e.detail)
    };
    let at = Some(text("/a"));
    assert_eq!(
        told(Some(TestFailure::PasswordRequired)),
        (ErrorKind::PasswordRequired, at.clone(), None)
    );
    assert_eq!(
        told(Some(TestFailure::PasswordRejected)),
        (ErrorKind::WrongPassword, at.clone(), None)
    );
    assert_eq!(
        told(Some(TestFailure::PasswordIndeterminate)),
        (
            ErrorKind::CorruptedArchive,
            at.clone(),
            Some(text("wrong password or damaged encrypted data; test could not distinguish them"))
        )
    );
    assert_eq!(
        told(Some(TestFailure::Corruption)),
        (ErrorKind::CorruptedArchive, at, Some(text("archive integrity test failed")))
    );
    assert_eq!(told(Some(TestFailure::Cancelled)), (ErrorKind::Cancelled, None, None));
    for failure in [None, Some(TestFailure::Other)] {
        let e = failed_test_error(&diagnostics(failure), "/a");
        assert_eq!(e.kind, ErrorKind::BackendFailed);
        assert_eq!(e.detail.as_deref(), Some("archive test failed: Headers Error"));
        assert_eq!((e.backend.as_deref(), e.exit_code), (Some("7zz"), Some(2)));
    }
}

#[test]
fn unsupported_file_is_named() {
    let failure = |kind| ArchiveFailure {
        kind,
        path: Some(text("/tmp/part")),
        format: Some(text("guess")),
        backend: None,
        exit_code: None,
        detail: None,
    };
    let e = map_detect_error(failure(ErrorKind::UnsupportedFormat), "/a");
    assert_eq!((e.path.as_deref(), e.format), (Some("/a"), None));
    let e = map_detect_error(failure(ErrorKind::Io), "/a");
    assert_eq!((e.path.as_deref(), e.format.as_deref()), (Some("/tmp/part"), Some("guess")));
}

#[test]
fn broken_call_is_a_failure() {
    let e = backend_panic("zip", "listing", "/a", "index out of bounds");
    assert_eq!(e.kind, ErrorKind::BackendFailed);
    assert_eq!(e.backend.as_deref(), Some("zip"));
    assert_eq!(e.detail.as_deref(), Some("panic while listing /a: index out of bounds"));
}

fn identity() -> ArtifactIdentity {
    ArtifactIdentity {
        file_type: text("file"),
        len: 4,
        modified_ns: Some(5),
        device: 6,
        inode: 7,
    }
}

#[test]
fn object_and_version_are_told_apart() {
    let recorded = identity();
    assert!(recorded.matches_object(&identity()) && recorded.matches_version(&identity()));
    let grown = ArtifactIdentity { len: 9, ..identity() };
    assert!(recorded.matches_object(&grown) && !recorded.matches_version(&grown));
    let touched = ArtifactIdentity { modified_ns: None, ..identity() };
    assert!(recorded.matches_object(&touched) && !recorded.matches_version(&touched));
    for other in [
        ArtifactIdentity { inode: 8, ..identity() },
        ArtifactIdentity { device: 8, ..identity() },
        ArtifactIdentity { file_type: text("directory"), ..identity() },
    ] {
        assert!(!recorded.matches_object(&other) && !recorded.matches_version(&other));
    }
}

#[test]
fn intent_is_there_in_each_phase() {
    let intent = || CommitIntent {
        commit_id: text("c1"),
        staging_path: text("/s"),
        source_path: text("/s/out"),
        target_path: text("/t"),
        marker_path: text("/m"),
        backup_path: None,
        source_identity: identity(),
        target_before: None,
        output_files: 1,
        output_bytes: 2,
        success: CommitSuccessFacts {
            sample_hash: None,
            file_size: None,
            embedded_offset: None,
            has_password: false,
            password_id: None,
            encoding: None,
            encoding_corrected: false,
        },
    };
    assert_eq!(CommitRecord::Prepared { intent: intent() }.intent().commit_id, "c1");
    assert_eq!(CommitRecord::Published { intent: intent() }.intent().commit_id, "c1");
}

#[test]
fn beginning_task_has_a_root_for_each_input() {
    let task = ExtractTaskIdentity::new(
        text("t"),
        vec![candidate(), candidate()],
        &vec![text("n1"), text("n2")],
    );
    assert_eq!(task.task_id, "t");
    assert_eq!(task.budget, TaskBudgetSnapshot::default());
    let ids: Vec<(&str, &str, u64)> = task
        .roots
        .iter()
        .map(|r| (r.node_id.as_str(), r.root_id.as_str(), r.generation))
        .collect();
    assert_eq!(ids, [("n1", "n1", 0), ("n2", "n2", 0)]);
    assert_eq!(task.roots[1].candidate, candidate());
}

#[test]
fn terminal_outcome_carries_nothing_else() {
    let outcome = NodeOutcome::terminal("failed", Some("corrupt"), None, false);
    assert_eq!(outcome.status, "failed");
    assert_eq!(outcome.reason.as_deref(), Some("corrupt"));
    assert!(outcome.output_path.is_none() && outcome.sample_hash.is_none());
    assert_eq!((outcome.output_files, outcome.output_bytes), (0, 0));
}

fn details() -> CandidateDetails {
    CandidateDetails {
        input_path: Some(text("/in/first.zip")),
        sample_hash: Some(text("h")),
        file_size: Some(10),
        has_password: true,
        password_id: Some(2),
        encoding: Some(text("GBK")),
        encoding_corrected: true,
        confirmed_encoding: Some(text("GBK")),
    }
}

#[test]
fn extracted_candidate_is_known_afterwards() {
    let mut results = CandidateResults::new();
    let report =
        results.finish(candidate(), details(), CandidateOutcome::Extracted(text("/out/a")));
    assert!(matches!(report.event, Some(TaskEventKind::OutputCreated { path }) if path == "/out/a"));
    assert_eq!(report.row.status, "extracted");
    assert_eq!(report.row.input_path, "/in/first.zip");
    assert_eq!(report.row.offset, Some(6));
    assert_eq!(report.row.output_path.as_deref(), Some("/out/a"));
    let known = report.known.unwrap();
    assert_eq!((known.sample_hash.as_str(), known.size), ("h", 10));
    assert_eq!(known.name.as_deref(), Some("a.zip"));
    assert_eq!(known.password_id, Some(2));
    assert_eq!(report.confirmed.unwrap().encoding, "GBK");
    assert_eq!((results.processed.len(), results.skipped.len()), (1, 0));
    assert_eq!(results.failed_count, 0);
}

#[test]
fn failed_candidate_is_counted_and_told() {
    let mut results = CandidateResults::new();
    let failed = CandidateOutcome::Failed { reason: text("corrupt"), error: text("bad crc") };
    let report = results.finish(candidate(), details(), failed);
    assert!(matches!(report.event, Some(TaskEventKind::Failed { error }) if error == "bad crc"));
    assert_eq!(report.row.status, "failed");
    assert_eq!(report.row.reason.as_deref(), Some("corrupt"));
    assert!(report.known.is_none() && report.confirmed.is_none());
    assert_eq!((results.skipped.len(), results.failed_count), (1, 1));
}

#[test]
fn unreadable_and_uncut_candidates_are_logged_as_skipped() {
    let mut results = CandidateResults::new();
    let report =
        results.finish(candidate(), CandidateDetails::default(), CandidateOutcome::Unreadable);
    assert!(report.event.is_none());
    assert_eq!(report.row.status, "skipped");
    assert_eq!(report.row.reason.as_deref(), Some("not_found"));
    assert_eq!(report.row.input_path, "/in/a.zip");
    let report = results.finish(
        candidate(),
        CandidateDetails::default(),
        CandidateOutcome::CarveFailed(text("disk full")),
    );
    assert!(matches!(report.event, Some(TaskEventKind::Failed { error }) if error == "disk full"));
    assert_eq!(report.row.status, "skipped");
    assert_eq!(results.failed_count, 2);
}

#[test]
fn skipped_candidate_is_no_failure() {
    let mut results = CandidateResults::new();
    let report = results.skip(candidate(), text("duplicate"));
    assert!(report.event.is_none());
    assert_eq!(report.row.reason.as_deref(), Some("duplicate"));
    let event = results.fail_task(text("no space"));
    assert!(matches!(event, TaskEventKind::Failed { error } if error == "no space"));
    assert_eq!((results.skipped.len(), results.failed_count), (1, 1));
}
