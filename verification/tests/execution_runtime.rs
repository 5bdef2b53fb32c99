//! Turns for the stages of nodes.

use smartzip::coordinator::{Stage, TaskPriority};
use smartzip::execution_runtime::{
    estimated_cost, resources_for, task_priority, Admission, NodeResources, RuntimeState,
};
use smartzip::recovery::TaskExecutionRepository;
use smartzip::resources::ResourceCapacity;
use smartzip::submission::{
    check_recovered, check_recovery, check_submission, decode_recovery, describe_recovery_error,
    host_capacity, stored_position, Recovered, RecoveryError, RecoveryQueue, SubmissionError,
};
use smartzip::task_execution::{
    ExecutionState, NewNode, NewTaskExecution, PendingDecision, Priority, StopStatus,
};
use smartzip::types::{CandidateSource, ExtractionCandidate};
use smartzip::transition::{transition, TransitionEvent, TransitionStep};

fn text(s: &str) -> String {
    s.to_string()
}

fn one_at_a_time() -> ResourceCapacity {
    ResourceCapacity { cpu_units: 1, backend_processes: 1, ..ResourceCapacity::default() }
}

fn resources(task: &str, node: &str) -> NodeResources {
    NodeResources {
        task_id: text(task),
        node_id: text(node),
        root_id: text(node),
        input: format!("/in/{node}"),
        output_root: text("/out"),
        source_io_domain: text("device:1"),
        target_io_domain: text("device:2"),
    }
}

fn submit(runtime: &mut RuntimeState, task: &str, nodes: &[&str]) {
    let nodes = nodes.iter().map(|node| resources(task, node)).collect();
    runtime.submit(text(task), TaskPriority::Normal, 0, None, nodes);
}

fn ask(runtime: &mut RuntimeState, task: &str, node: &str, enqueued: bool) -> Admission {
    runtime.ask_for_turn(task, node, 0, Stage::ExtractAttempt, "attempt", enqueued).0
}

fn candidate(path: &str, depth: usize) -> ExtractionCandidate {
    ExtractionCandidate {
        path: text(path),
        relative_path: text("name"),
        depth,
        source: CandidateSource::EmbeddedFinding,
        detected_format: None,
        embedded_offset: Some(17),
        embedded_size: Some(128),
    }
}

fn stored(task: &str, node: &str) -> TaskExecutionRepository {
    let mut repo = TaskExecutionRepository::new();
    let new = NewTaskExecution {
        id: text(task),
        kind: "extract".to_string(),
        inputs_json: "[]".to_string(),
        output_path: Some(text("/out")),
        started_at: text("2026-09-19T00:00:00Z"),
        config_snapshot_json: Some(text("{}")),
        priority: Priority::Normal,
        queue_position: 0,
        recoverable: true,
        owner_epoch: 0,
    };
    let root = NewNode {
        id: text(node),
        parent_id: None,
        root_id: text(node),
        input_path: text("/in"),
        input_ref_json: text("{}"),
        config_revision: 0,
        generation: 0,
    };
    repo.submit(new, vec![root]).unwrap();
    repo
}

#[test]
fn waiting_for_input_releases_stage_capacity() {
    let mut runtime = RuntimeState::new(one_at_a_time());
    submit(&mut runtime, "first", &["a"]);
    submit(&mut runtime, "second", &["b"]);
    let mut repo = stored("first", "a");

    assert_eq!(ask(&mut runtime, "first", "a", false), Admission::Admitted);
    assert!(repo.tasks[0]
        .transition(
            "a",
            0,
            ExecutionState::Ready,
            ExecutionState::Running,
            Stage::ExtractAttempt,
            None
        )
        .is_some());
    assert_eq!(ask(&mut runtime, "second", "b", false), Admission::Waiting);
    assert_eq!(ask(&mut runtime, "second", "b", true), Admission::Waiting);

    assert!(runtime.release_node("first", "a", 20));
    let decision = PendingDecision {
        id: text("decision"),
        generation: 0,
        kind: text("password"),
        evidence: text("input.zip"),
    };
    assert!(repo.tasks[0].wait_for_decision("a", Stage::ExtractAttempt, decision).is_some());
    assert_eq!(ask(&mut runtime, "second", "b", true), Admission::Admitted);

    runtime.release_task("first");
    repo.tasks[0].finish_pending_task(StopStatus::Cancelled, "test_complete");
    assert!(repo.tasks[0].head.finished);
    runtime.release_task("second");
    assert_eq!(runtime.coordinator.resources().used().backend_processes, 0);
}

#[test]
fn waiting_for_stage_admission_stops_on_cancellation() {
    let mut runtime = RuntimeState::new(one_at_a_time());
    submit(&mut runtime, "task", &["first", "second"]);
    assert_eq!(ask(&mut runtime, "task", "first", false), Admission::Admitted);
    assert_eq!(ask(&mut runtime, "task", "second", false), Admission::Waiting);
    runtime.stop_waiting("task", "second", 0, "attempt");
    assert_eq!(runtime.coordinator.resources().used().backend_processes, 1);
    assert_eq!(runtime.active.len(), 1);
    assert_eq!(runtime.active[0].stage.node_id, "first");
    runtime.release_task("task");
    assert_eq!(ask(&mut runtime, "task", "first", false), Admission::Cancelled);
}

#[test]
fn restart_claims_interrupted_node_with_new_generation() {
    let mut repo = stored("task", "node");
    assert!(repo.tasks[0]
        .transition(
            "node",
            0,
            ExecutionState::Ready,
            ExecutionState::Running,
            Stage::ExtractAttempt,
            Some(text("attempt"))
        )
        .is_some());

    let recovered = repo.claim_recoverable(1);
    let node = &repo.tasks[recovered[0].task].nodes[recovered[0].nodes[0]];
    assert_eq!(node.generation, 1);
    assert_eq!(node.execution_state.as_str(), "ready");

    let (inputs, identity) =
        decode_recovery(&repo.tasks[0], &recovered[0], vec![candidate("/in/node", 0)]).unwrap();
    assert_eq!(inputs, vec!["/in/node"]);
    assert_eq!(identity.roots[0].generation, 1);
    let mut runtime = RuntimeState::new(one_at_a_time());
    submit(&mut runtime, "task", &["node"]);
    let (admission, _) =
        runtime.ask_for_turn("task", "node", 1, Stage::ResolveInputs, "attempt", false);
    assert_eq!(admission, Admission::Admitted);
    assert!(repo.tasks[0]
        .transition(
            "node",
            1,
            ExecutionState::Ready,
            ExecutionState::Running,
            Stage::ResolveInputs,
            None
        )
        .is_some());
}

#[test]
fn restart_keeps_paused_task_out_of_recovery_dispatch_until_resumed() {
    let mut repo = stored("task", "node");
    assert!(repo.tasks[0].set_paused(true));
    let recovered = repo.claim_recoverable(1);
    assert!(repo.tasks[recovered[0].task].head.paused);

    let mut runtime = RuntimeState::new(one_at_a_time());
    runtime.submit(
        text("task"),
        TaskPriority::Normal,
        0,
        Some(true),
        vec![resources("task", "node")],
    );
    let mut queue =
        RecoveryQueue { tasks: vec![Recovered { task_id: text("task"), paused: true }] };
    assert!(queue.take_runnable_recovery().is_empty());
    assert_eq!(ask(&mut runtime, "task", "node", false), Admission::Waiting);

    assert!(runtime.coordinator.set_paused("task", false));
    queue.set_paused("task", false);
    assert_eq!(queue.take_runnable_recovery().len(), 1);
    assert_eq!(ask(&mut runtime, "task", "node", true), Admission::Admitted);
}

#[test]
fn unknown_task_gets_no_turn() {
    let mut runtime = RuntimeState::new(one_at_a_time());
    runtime.register(resources("nobody", "node"));
    assert_eq!(ask(&mut runtime, "nobody", "node", false), Admission::UnknownTask);
    assert_eq!(ask(&mut runtime, "nobody", "other", false), Admission::Cancelled);
}

#[test]
fn children_work_where_their_parent_does() {
    let mut runtime = RuntimeState::new(one_at_a_time());
    submit(&mut runtime, "task", &["parent"]);
    let child = runtime
        .child_of(
            "task",
            "parent",
            text("child"),
            text("parent"),
            text("/out/inner.zip"),
            text("device:2"),
            text("device:2"),
        )
        .unwrap();
    assert_eq!(child.output_root, "/out");
    assert_eq!(child.node_id, "child");
    runtime.register(child);
    assert!(runtime.find_node("task", "child").is_some());
    assert!(runtime
        .child_of("task", "stranger", text("x"), text("x"), text("/"), text(""), text(""))
        .is_none());
}

#[test]
fn stages_ask_for_what_they_use() {
    let node = resources("task", "node");
    let extract = resources_for(Stage::ExtractAttempt, &node);
    assert_eq!(extract.cpu_units, 1);
    assert_eq!(extract.backend_processes, 1);
    assert_eq!(extract.artifact_reads, vec!["/in/node"]);
    assert_eq!(extract.io_domains.get("device:1"), 1);
    assert_eq!(extract.io_domains.get("device:2"), 1);
    let commit = resources_for(Stage::Commit, &node);
    assert_eq!(commit.target_paths, vec!["/out"]);
    assert_eq!(commit.io_domains.len(), 1);
    let plan = resources_for(Stage::InspectAndPlan, &node);
    assert_eq!(plan.io_domains.len(), 0);
    assert_eq!(estimated_cost(Stage::ExtractAttempt), 100);
    assert_eq!(estimated_cost(Stage::ScanEmbedded), 40);
    assert_eq!(estimated_cost(Stage::PrepareAccess), 20);
    assert_eq!(estimated_cost(Stage::Commit), 5);
    assert_eq!(estimated_cost(Stage::ResolveInputs), 10);
    assert_eq!(task_priority(Priority::High), TaskPriority::High);
}

#[test]
fn submissions_are_checked() {
    assert_eq!(check_submission(&Some(text("/out")), 3), Ok(3));
    assert_eq!(check_submission(&None, 3), Err(SubmissionError::NoOutputPath));
    assert_eq!(check_submission(&Some(text("/out")), -1), Err(SubmissionError::NegativePosition));
    assert_eq!(check_recovered(&Some(text("/out")), 0), Ok(0));
    assert_eq!(check_recovered(&None, 0), Err(RecoveryError::NoOutputPath));
    assert_eq!(check_recovered(&Some(text("/out")), -1), Err(RecoveryError::NegativePosition));
    assert_eq!(stored_position(7), Ok(7));
    assert_eq!(stored_position(u64::MAX), Err(SubmissionError::PositionTooLarge));
    assert_eq!(
        SubmissionError::NoOutputPath.describe(),
        "extract task requires an output path"
    );
    assert_eq!(
        RecoveryError::NoOutputPath.describe("t"),
        "recoverable task t has no output path"
    );
}

#[test]
fn interrupted_commit_is_not_decoded() {
    let mut repo = stored("task", "node");
    repo.tasks[0].transition(
        "node",
        0,
        ExecutionState::Ready,
        ExecutionState::Running,
        Stage::Commit,
        None,
    );
    repo.tasks[0].begin_commit("node", 0, text("{}"));
    let recovered = repo.claim_recoverable(1);
    let candidates = vec![candidate("/in/node", 0); recovered[0].nodes.len()];
    assert!(decode_recovery(&repo.tasks[0], &recovered[0], candidates).is_err());
}

#[test]
fn recovery_preserves_identity_and_budget() {
    let mut repo = stored("task", "node");
    let recovered = repo.claim_recoverable(1);
    let task = &mut repo.tasks[0];
    task.head.committed_output_files = 5;
    task.head.committed_output_bytes = 99;
    task.head.nested_candidate_count = 2;
    let wanted = candidate("/in/a.zip", 2);
    let (inputs, identity) = decode_recovery(task, &recovered[0], vec![wanted]).unwrap();
    assert_eq!(inputs, vec!["/in/a.zip"]);
    assert_eq!(identity.task_id, "task");
    assert_eq!(identity.roots.len(), 1);
    assert_eq!(identity.roots[0].node_id, "node");
    assert_eq!(identity.roots[0].root_id, "node");
    assert_eq!(identity.roots[0].generation, 1);
    assert_eq!(identity.roots[0].candidate.depth, 2);
    assert_eq!(identity.roots[0].candidate.embedded_offset, Some(17));
    assert_eq!(identity.budget.output_files, 5);
    assert_eq!(identity.budget.output_bytes, 99);
    assert_eq!(identity.budget.nested_candidates, 2);

    task.nodes[0].execution_state = ExecutionState::Committing;
    assert_eq!(check_recovery(task, &recovered[0]), Err(RecoveryError::NeedsReconciliation));
    let error = decode_recovery(task, &recovered[0], vec![candidate("/a", 0)]).err().unwrap();
    assert_eq!(error, RecoveryError::NeedsReconciliation);
    task.nodes[0].execution_state = ExecutionState::Ready;
    task.nodes[0].generation = -1;
    let error = decode_recovery(task, &recovered[0], vec![candidate("/a", 0)]).err().unwrap();
    assert_eq!(error, RecoveryError::NegativeGeneration(0));
    assert_eq!(
        describe_recovery_error(error, task, &recovered[0]),
        "recoverable node node has a negative generation"
    );
    task.head.config_snapshot_json = None;
    let error = decode_recovery(task, &recovered[0], vec![candidate("/a", 0)]).err().unwrap();
    assert_eq!(error, RecoveryError::NoSnapshot);
    assert_eq!(
        describe_recovery_error(error, task, &recovered[0]),
        "recoverable task task has no configuration snapshot"
    );
}

#[test]
fn host_runs_one_archive_program() {
    let capacity = host_capacity(8);
    assert_eq!(capacity.cpu_units, 8);
    assert_eq!(capacity.backend_processes, 1);
}

fn steps(events: &[TransitionEvent]) -> TransitionStep {
    events.iter().fold(TransitionStep::Release, |step, event| transition(step, *event))
}

#[test]
fn stage_is_entered_step_by_step() {
    let done = TransitionEvent::Done;
    assert_eq!(steps(&[done]), TransitionStep::MarkWaiting);
    assert_eq!(steps(&[done, TransitionEvent::Refused]), TransitionStep::Stale);
    assert_eq!(steps(&[done, done, TransitionEvent::Failed]), TransitionStep::Failed);
    assert_eq!(steps(&[done, done, done, done]), TransitionStep::Running);
    assert_eq!(
        steps(&[done, done, done, TransitionEvent::Refused]),
        TransitionStep::GiveBack
    );
    assert_eq!(
        steps(&[done, done, done, TransitionEvent::Refused, done]),
        TransitionStep::Stale
    );
}

#[test]
fn leases_are_counted_with_the_stages_that_wait() {
    let mut runtime = RuntimeState::new(one_at_a_time());
    assert!(runtime.coordinator.has_place());
    assert!(runtime.leases_last(u64::MAX - 1));
    assert!(!runtime.leases_last(u64::MAX));
    submit(&mut runtime, "task", &["a", "b"]);
    assert!(matches!(ask(&mut runtime, "task", "a", false), Admission::Admitted));
    assert!(matches!(ask(&mut runtime, "task", "b", false), Admission::Waiting));
    assert_eq!(runtime.coordinator.leases(), 1);
    assert!(runtime.leases_last(u64::MAX - 3));
    assert!(!runtime.leases_last(u64::MAX - 2));
}
