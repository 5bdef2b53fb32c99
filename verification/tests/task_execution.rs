//! The durable state of tasks.

use smartzip::coordinator::Stage;
use smartzip::db::SmartZipDb;
use smartzip::recovery::TaskExecutionRepository;
use smartzip::task_execution::{
    ExecutionState, NewNode, NewTaskExecution, NodeFacts, PendingDecision, Priority, RowStatus,
    StopStatus, StoreError, TaskPhase, TaskState,
};
use smartzip::workflow::reason::NodeStatus;

fn text(s: &str) -> String {
    s.to_string()
}

fn node(id: &str, parent: Option<&str>, path: &str) -> NewNode {
    NewNode {
        id: text(id),
        parent_id: parent.map(text),
        root_id: text(id),
        input_path: text(path),
        input_ref_json: format!("{{\"path\":\"{path}\"}}"),
        config_revision: 0,
        generation: 0,
    }
}

fn task(id: &str) -> NewTaskExecution {
    NewTaskExecution {
        id: text(id),
        kind: "extract".to_string(),
        inputs_json: "[]".to_string(),
        output_path: Some(text("/out")),
        started_at: text("2026-09-19T00:00:00Z"),
        config_snapshot_json: Some(text("{}")),
        priority: Priority::Normal,
        queue_position: 0,
        recoverable: true,
        owner_epoch: 0,
    }
}

fn submitted() -> TaskExecutionRepository {
    let mut repo = TaskExecutionRepository::new();
    repo.submit(task("task"), vec![node("root", None, "/in.zip")]).unwrap();
    repo
}

fn state(repo: &mut TaskExecutionRepository) -> &mut TaskState {
    let k = repo.find("task").unwrap();
    &mut repo.tasks[k]
}

fn no_facts() -> NodeFacts {
    NodeFacts {
        output_path: None,
        sample_hash: None,
        file_size: None,
        embedded_offset: None,
        has_password: false,
        password_id: None,
        encoding: None,
        encoding_corrected: false,
    }
}

fn start(task: &mut TaskState, stage: Stage) -> bool {
    task.transition(
        "root",
        0,
        ExecutionState::Ready,
        ExecutionState::Running,
        stage,
        Some(text("a1")),
    )
    .is_some()
}

fn decision() -> PendingDecision {
    PendingDecision {
        id: text("d1"),
        generation: 0,
        kind: text("password"),
        evidence: text("password required"),
    }
}

#[test]
fn transition_and_reply_require_current_generation_decision_and_owner() {
    let mut repo = submitted();
    let task = state(&mut repo);
    assert!(start(task, Stage::ExtractAttempt));
    assert!(!start(task, Stage::ExtractAttempt));
    assert!(task.wait_for_decision("root", Stage::ExtractAttempt, decision()).is_some());
    assert!(task.accept_decision_reply("root", 0, text("other"), 0).is_none());
    assert!(task.accept_decision_reply("root", 1, text("d1"), 0).is_none());
    assert!(task.accept_decision_reply("root", 0, text("d1"), 1).is_none());
    assert!(task.accept_decision_reply("root", 0, text("d1"), 0).is_some());
    assert!(task.accept_decision_reply("root", 0, text("d1"), 0).is_none());
    let node = task.node("root", 0).unwrap();
    assert_eq!(node.execution_state.as_str(), "ready");
    assert!(node.decision.is_none());
}

#[test]
fn task_and_roots_roll_back_together() {
    let mut repo = TaskExecutionRepository::new();
    let refused =
        repo.submit(task("bad"), vec![node("same", None, "/one.zip"), node("same", None, "/two.zip")]);
    assert_eq!(refused, Err(StoreError::DuplicateNode));
    assert!(repo.find("bad").is_none());
    assert_eq!(repo.tasks.len(), 0);
}

#[test]
fn one_name_for_one_task() {
    let mut repo = submitted();
    assert_eq!(repo.submit(task("task"), vec![]), Err(StoreError::DuplicateTask));
    assert_eq!(repo.tasks.len(), 1);
}

#[test]
fn terminal_node_is_the_single_file_history_and_finishes_task() {
    let mut repo = submitted();
    let task = state(&mut repo);
    let facts = NodeFacts {
        output_path: Some(text("/out/in")),
        sample_hash: Some(text("hash")),
        file_size: Some(42),
        has_password: true,
        encoding: Some(text("utf-8")),
        encoding_corrected: true,
        ..no_facts()
    };
    assert!(task
        .finish_node("root", 0, NodeStatus::Extracted, None, true, facts, 2, 42)
        .unwrap()
        .is_some());
    assert_eq!(task.nodes.len(), 1);
    assert_eq!(task.nodes[0].status, RowStatus::Ended(NodeStatus::Extracted));
    assert_eq!(task.head.phase.as_str(), "completed");
    assert_eq!(task.nodes[0].commit_json.as_deref(), Some("{\"published\":true}"));
    assert_eq!((task.head.committed_output_files, task.head.committed_output_bytes), (2, 42));

    let mut db = SmartZipDb::in_memory();
    db.note_execution(task, "2026-09-19T00:00:01Z").unwrap();
    let files = db.files.list_by_task("task");
    assert_eq!(files.len(), 1);
    assert_eq!(db.files.rows[files[0]].row.status, "extracted");
    let found = db.tasks.find_by_id("task").unwrap();
    assert_eq!(db.tasks.rows[found].status.as_str(), "completed");
}

fn cancel(task: &mut TaskState, node: &str) -> bool {
    task.finish_node(
        node,
        0,
        NodeStatus::Cancelled,
        Some(text("cancelled")),
        false,
        no_facts(),
        0,
        0,
    )
    .unwrap()
    .is_some()
}

#[test]
fn cancelled_node_finishes_task_as_cancelled() {
    let mut repo = submitted();
    let task = state(&mut repo);
    assert!(cancel(task, "root"));
    assert_eq!(task.head.phase.as_str(), "cancelled");
}

#[test]
fn completed_node_followed_by_cancelled_node_finishes_task_as_cancelled() {
    let mut repo = submitted();
    let task = state(&mut repo);
    assert_eq!(task.enqueue_child(node("second", Some("root"), "/second.zip")), Ok(true));
    let facts = NodeFacts { output_path: Some(text("/out/in")), ..no_facts() };
    assert!(task
        .finish_node("root", 0, NodeStatus::Extracted, None, true, facts, 0, 0)
        .unwrap()
        .is_some());
    assert!(!task.head.finished);
    assert!(cancel(task, "second"));
    assert_eq!(task.head.phase.as_str(), "cancelled");
}

#[test]
fn recovery_snapshot_preserves_paused_state() {
    let mut repo = submitted();
    assert!(state(&mut repo).set_paused(true));
    let recovered = repo.claim_recoverable(1);
    assert_eq!(recovered.len(), 1);
    assert!(repo.tasks[recovered[0].task].head.paused);
}

#[test]
fn stopping_task_preserves_node_with_commit_intent_for_recovery() {
    let mut repo = submitted();
    let task = state(&mut repo);
    assert!(start(task, Stage::Commit));
    assert!(task.begin_commit("root", 0, text("{\"phase\":\"prepared\"}")).is_some());
    task.finish_pending_task(StopStatus::Failed, "worker_failed");
    let node = task.node("root", 0).unwrap();
    assert_eq!(node.execution_state.as_str(), "committing");
    assert_eq!(node.commit_json.as_deref(), Some("{\"phase\":\"prepared\"}"));
    assert_eq!(task.head.phase.as_str(), "recovering");
    assert!(!task.head.finished);
}

#[test]
fn stopping_task_ends_its_other_nodes() {
    let mut repo = submitted();
    let task = state(&mut repo);
    let events = task.finish_pending_task(StopStatus::Cancelled, "stopped");
    assert_eq!(events.len(), 1);
    assert_eq!(task.head.phase, TaskPhase::Cancelled);
    assert_eq!(task.nodes[0].status, RowStatus::Ended(NodeStatus::Cancelled));
    assert_eq!(task.nodes[0].reason.as_deref(), Some("stopped"));
}

#[test]
fn worker_of_an_earlier_generation_changes_nothing() {
    let mut repo = submitted();
    assert!(start(state(&mut repo), Stage::Commit));
    let recovered = repo.claim_recoverable(1);
    assert_eq!(recovered[0].nodes, vec![0]);
    let task = state(&mut repo);
    assert_eq!(task.nodes[0].generation, 1);
    assert!(task.begin_commit("root", 0, text("{}")).is_none());
    assert!(!task.record_artifacts("root", 0, text("{}")));
    assert_eq!(
        task.finish_node("root", 0, NodeStatus::Extracted, None, true, no_facts(), 1, 1)
            .unwrap()
            .is_some(),
        false
    );
    assert_eq!(task.head.committed_output_files, 0);
}

#[test]
fn ended_node_stays_ended() {
    let mut repo = submitted();
    let task = state(&mut repo);
    assert!(cancel(task, "root"));
    assert!(!cancel(task, "root"));
    assert!(!start(task, Stage::Commit));
    assert!(!task.set_priority(Priority::High));
    assert!(!task.set_paused(true));
    assert!(!task.reorder(7));
}

#[test]
fn commit_goes_through_its_steps() {
    let mut repo = submitted();
    let task = state(&mut repo);
    assert!(task.begin_commit("root", 0, text("{}")).is_none());
    assert!(start(task, Stage::Commit));
    assert!(task.record_artifacts("root", 0, text("[1]")));
    assert!(task.begin_commit("root", 0, text("one")).is_some());
    assert!(task.begin_commit("root", 0, text("two")).is_none());
    assert!(task.abort_commit("root", 0).is_some());
    assert_eq!(task.node("root", 0).unwrap().commit_json, None);
    assert!(task.begin_commit("root", 0, text("three")).is_some());
    assert!(task.commit_published("root", 0, text("done")).is_some());
    assert_eq!(task.node("root", 0).unwrap().commit_json.as_deref(), Some("done"));
    assert!(task.reset_commit_for_retry("root", 0).is_some());
    assert!(task.node("root", 0).is_none());
    let node = task.node("root", 1).unwrap();
    assert_eq!(node.commit_json, None);
    assert_eq!(node.artifact_refs_json.as_deref(), Some("[1]"));
    assert!(task.clear_artifacts("root", 1));
    assert_eq!(task.node("root", 1).unwrap().artifact_refs_json, None);
}

#[test]
fn child_is_taken_in_once() {
    let mut repo = submitted();
    let task = state(&mut repo);
    assert_eq!(task.enqueue_child(node("a", Some("root"), "/x.zip")), Ok(true));
    assert_eq!(task.enqueue_child(node("b", Some("root"), "/x.zip")), Ok(false));
    assert_eq!(task.enqueue_child(node("a", Some("root"), "/y.zip")), Err(StoreError::DuplicateNode));
    assert_eq!(task.nodes.len(), 2);
    assert!(task.child_exists("root", "{\"path\":\"/x.zip\"}"));
    assert_eq!(task.head.nested_candidate_count, 1);
}

#[test]
fn priorities_have_numbers() {
    for priority in [Priority::Background, Priority::Normal, Priority::High] {
        assert_eq!(Priority::from_number(priority.number()), Some(priority));
    }
    assert_eq!(Priority::from_number(3), None);
    assert_eq!(Priority::from_number(-1), None);
}

#[test]
fn recovered_tasks_go_on_in_their_order() {
    let mut repo = TaskExecutionRepository::new();
    for (id, priority, position) in
        [("low", Priority::Background, 0), ("late", Priority::High, 2), ("early", Priority::High, 1)]
    {
        let new = NewTaskExecution { priority, queue_position: position, ..task(id) };
        repo.submit(new, vec![node(id, None, "/in.zip")]).unwrap();
    }
    repo.submit(NewTaskExecution { recoverable: false, ..task("gone") }, vec![]).unwrap();
    let order: Vec<String> = repo
        .claim_recoverable(4)
        .iter()
        .map(|r| repo.tasks[r.task].head.id.clone())
        .collect();
    assert_eq!(order, vec!["early", "late", "low"]);
    assert_eq!(repo.tasks[0].head.owner_epoch, 4);
}

#[test]
fn set_terminal_status_ends_a_task() {
    let mut repo = submitted();
    let task = state(&mut repo);
    task.set_terminal_task_status(TaskPhase::Partial);
    assert!(task.head.finished);
    assert_eq!(task.head.phase.as_str(), "partial");
}
