//! Rows that belong together.

use smartzip::db::SmartZipDb;
use smartzip::events::TaskEventLevel;
use smartzip::file_extractions::NewFileExtraction;
use smartzip::history::{FileExtractionRow, KnownFileEncodingUpsert, KnownFileUpsert};
use smartzip::password::NewPassword;
use smartzip::task::NewTask;
use smartzip::task_event::NewTaskEvent;
use smartzip::recovery::TaskExecutionRepository;
use smartzip::task_execution::{
    NewNode, NewTaskExecution, NodeFacts, Priority, RowStatus, StageEvent, StoreError, TaskPhase,
};
use smartzip::workflow::reason::NodeStatus;

fn text(s: &str) -> String {
    s.to_string()
}

fn seed_task(db: &mut SmartZipDb, id: &str) {
    db.insert_task(NewTask {
        id: text(id),
        kind: text("extract"),
        input_summary: text("a.zip"),
        output_path: None,
        started_at: text("2026-07-02T00:00:00Z"),
    })
    .unwrap();
}

fn base(task_id: &str, input: &str, status: &str) -> NewFileExtraction {
    NewFileExtraction {
        task_id: text(task_id),
        row: FileExtractionRow {
            input_path: text(input),
            sample_hash: None,
            file_size: None,
            offset: None,
            output_path: None,
            has_password: false,
            password_id: None,
            status: text(status),
            reason: None,
            encoding: None,
            encoding_corrected: false,
            damaged_volumes_json: None,
            test_report_json: None,
        },
        created_at: text("2026-07-02T00:00:00Z"),
    }
}

fn event(task_id: &str) -> NewTaskEvent {
    NewTaskEvent {
        task_id: text(task_id),
        level: TaskEventLevel::Info,
        event_type: text("Started"),
        message: text("s"),
        data_json: None,
        created_at: text("2026-07-02T00:00:01Z"),
    }
}

fn keep_password(db: &mut SmartZipDb, value: &str) -> i64 {
    db.upsert_password(NewPassword { value: text(value), source: text("manual"), pinned: false })
}

fn extracted(password_id: Option<i64>) -> KnownFileUpsert {
    KnownFileUpsert {
        sample_hash: text("h"),
        size: 7,
        name: Some(text("a.zip")),
        offset: None,
        password_id,
    }
}

#[test]
fn cascade_delete_removes_rows_with_task() {
    let mut db = SmartZipDb::in_memory();
    seed_task(&mut db, "t1");
    db.insert_file(base("t1", "/a.zip", "extracted")).unwrap();
    db.delete_task("t1");
    assert!(db.files.list_by_task("t1").is_empty());
}

#[test]
fn cascade_delete_removes_events_when_task_removed() {
    let mut db = SmartZipDb::in_memory();
    seed_task(&mut db, "task-cascade");
    db.insert_event(event("task-cascade")).unwrap();
    db.delete_task("task-cascade");
    let events = db.events.list_by_task("task-cascade");
    assert!(events.is_empty(), "cascade delete should clear events");
}

#[test]
fn other_tasks_keep_their_rows() {
    let mut db = SmartZipDb::in_memory();
    for id in ["t1", "t2", "t3"] {
        seed_task(&mut db, id);
        db.insert_event(event(id)).unwrap();
        db.insert_file(base(id, "/a.zip", "extracted")).unwrap();
    }
    db.delete_task("t2");
    assert!(db.tasks.find_by_id("t2").is_none());
    let left: Vec<&str> = db.events.rows.iter().map(|e| e.task_id.as_str()).collect();
    assert_eq!(left, ["t1", "t3"]);
    let left: Vec<i64> = db.files.rows.iter().map(|e| e.id).collect();
    assert_eq!(left, [1, 3]);
    assert_eq!(db.insert_event(event("t1")), Ok(4));
    db.delete_task("unknown");
    assert_eq!(db.tasks.rows.len(), 2);
}

#[test]
fn rows_need_their_task_and_password() {
    let mut db = SmartZipDb::in_memory();
    assert_eq!(db.insert_event(event("t1")), Err(StoreError::UnknownTask));
    assert_eq!(
        db.insert_file(base("t1", "/a.zip", "failed")),
        Err(StoreError::UnknownTask)
    );
    seed_task(&mut db, "t1");
    let mut row = base("t1", "/a.zip", "extracted");
    row.row.password_id = Some(1);
    assert_eq!(db.insert_file(row), Err(StoreError::UnknownPassword));
    assert_eq!(
        db.note_extract(extracted(Some(1)), text("2026-07-02T00:00:00Z")),
        Err(StoreError::UnknownPassword)
    );
    assert!(db.files.rows.is_empty() && db.events.rows.is_empty() && db.known.rows.is_empty());
    assert_eq!(
        db.passwords.record_match_success(1, Some("zip"), None, text("now")),
        Err(StoreError::UnknownPassword)
    );
    let again = NewTask {
        id: text("t1"),
        kind: text("detect"),
        input_summary: text(""),
        output_path: None,
        started_at: text("2026-07-03T00:00:00Z"),
    };
    assert_eq!(db.insert_task(again), Err(StoreError::DuplicateTask));
}

#[test]
fn deleted_password_is_forgotten_everywhere() {
    let mut db = SmartZipDb::in_memory();
    seed_task(&mut db, "t1");
    let gone = keep_password(&mut db, "secret");
    let kept = keep_password(&mut db, "other");
    for id in [gone, kept] {
        let mut row = base("t1", "/a.zip", "extracted");
        row.row.password_id = Some(id);
        db.insert_file(row).unwrap();
        db.passwords.record_match_success(id, Some("zip"), Some("a"), text("now")).unwrap();
    }
    db.note_extract(extracted(Some(gone)), text("2026-07-02T00:00:00Z")).unwrap();
    db.delete_password(gone);
    let ids: Vec<Option<i64>> = db.files.rows.iter().map(|r| r.row.password_id).collect();
    assert_eq!(ids, [None, Some(kept)]);
    assert_eq!(db.known.rows[0].password_id, None);
    assert_eq!(db.known.rows[0].last_extract_at.as_deref(), Some("2026-07-02T00:00:00Z"));
    assert!(db.passwords.matches_for(gone).is_empty());
    assert_eq!(db.passwords.matches_for(kept).len(), 1);
    assert!(db.passwords.contains(kept) && !db.passwords.contains(gone));
    assert_eq!(keep_password(&mut db, "secret"), 3);
}

#[test]
fn notes_on_a_file_meet_in_one_entry() {
    let mut db = SmartZipDb::in_memory();
    db.note_encoding(KnownFileEncodingUpsert {
        sample_hash: text("h"),
        size: 7,
        name: Some(text("a.zip")),
        offset: None,
        encoding: text("GBK"),
    });
    db.note_extract(extracted(None), text("2026-07-02T00:00:00Z")).unwrap();
    assert_eq!(db.known.rows.len(), 1);
    let file = &db.known.rows[0];
    assert_eq!(file.confirmed_encoding.as_deref(), Some("GBK"));
    assert_eq!(file.names_offsets.len(), 1);
    assert!(file.last_extract_at.is_some());
}

fn execution(id: &str) -> NewTaskExecution {
    NewTaskExecution {
        id: text(id),
        kind: text("extract"),
        output_path: Some(text("/out")),
        started_at: text("2026-09-19T00:00:00Z"),
        inputs_json: text("[\"/in.zip\"]"),
        config_snapshot_json: Some(text("{}")),
        priority: Priority::Normal,
        queue_position: 0,
        recoverable: true,
        owner_epoch: 0,
    }
}

fn root(id: &str, path: &str) -> NewNode {
    NewNode {
        id: text(id),
        parent_id: None,
        root_id: text(id),
        input_path: text(path),
        input_ref_json: text("{}"),
        config_revision: 0,
        generation: 0,
    }
}

fn facts(password_id: Option<i64>) -> NodeFacts {
    NodeFacts {
        output_path: Some(text("/out/in")),
        sample_hash: Some(text("hash")),
        file_size: Some(7),
        embedded_offset: None,
        has_password: true,
        password_id,
        encoding: Some(text("GBK")),
        encoding_corrected: true,
    }
}

fn stage(node: &str, state: &str, attempt: Option<&str>) -> StageEvent {
    StageEvent {
        node_id: text(node),
        stage: text("cleanup"),
        attempt_id: attempt.map(text),
        state: text(state),
    }
}

#[test]
fn submitted_task_is_found_with_its_nodes() {
    let mut db = SmartZipDb::in_memory();
    let mut executions = TaskExecutionRepository::new();
    let roots = || vec![root("a", "/a.zip"), root("b", "/b.zip")];
    db.submit_execution(&mut executions, execution("task"), roots(), "now").unwrap();

    let task = &db.tasks.rows[db.tasks.find_by_id("task").unwrap()];
    assert_eq!((task.kind.as_str(), task.status), ("extract", TaskPhase::Queued));
    assert_eq!(task.output_path.as_deref(), Some("/out"));
    assert!(task.finished_at.is_none());
    let listed = db.files.list_by_task("task");
    let rows: Vec<_> = listed.iter().map(|place| &db.files.rows[*place]).collect();
    assert_eq!(rows.len(), 2);
    assert_eq!((rows[0].row.input_path.as_str(), rows[0].row.status.as_str()), ("/a.zip", "pending"));
    assert_eq!(rows[1].node_id.as_deref(), Some("b"));
    assert_eq!(rows[1].created_at, "now");

    let again = db.submit_execution(&mut executions, execution("task"), roots(), "then");
    assert_eq!(again, Err(StoreError::DuplicateTask));
    let twice = vec![root("a", "/a.zip"), root("a", "/b.zip")];
    let refused = db.submit_execution(&mut executions, execution("other"), twice, "then");
    assert_eq!(refused, Err(StoreError::DuplicateNode));
    seed_task(&mut db, "history");
    let known = db.submit_execution(&mut executions, execution("history"), roots(), "then");
    assert_eq!(known, Err(StoreError::DuplicateTask));
    assert_eq!(executions.tasks.len(), 1);
    assert!(db.tasks.find_by_id("other").is_none());
}

#[test]
fn history_follows_an_execution_to_its_end() {
    let mut db = SmartZipDb::in_memory();
    let mut executions = TaskExecutionRepository::new();
    let password = keep_password(&mut db, "secret");
    seed_task(&mut db, "other");
    db.insert_file(base("other", "/x.zip", "extracted")).unwrap();
    let roots = vec![root("a", "/a.zip"), root("b", "/b.zip")];
    db.submit_execution(&mut executions, execution("task"), roots, "first").unwrap();

    let task = &mut executions.tasks[0];
    task.finish_node("a", 0, NodeStatus::Extracted, None, true, facts(Some(password)), 1, 2)
        .unwrap()
        .unwrap();
    db.note_execution(task, "second").unwrap();
    let row = |db: &SmartZipDb, node: &str| db.files.find_node("task", node).unwrap();
    let (a, b) = (row(&db, "a"), row(&db, "b"));
    assert_eq!(db.files.rows[a].row.status, "extracted");
    assert_eq!(db.files.rows[a].row.password_id, Some(password));
    assert_eq!(db.files.rows[a].row.encoding.as_deref(), Some("GBK"));
    assert_eq!(db.files.rows[a].created_at, "first");
    assert_eq!(db.files.rows[b].row.status, "pending");
    let place = db.tasks.find_by_id("task").unwrap();
    assert_eq!(db.tasks.rows[place].status, TaskPhase::Running);
    assert!(db.tasks.rows[place].finished_at.is_none());

    let reason = Some(text("corrupt"));
    task.finish_node("b", 0, NodeStatus::Failed, reason, false, facts(None), 0, 0)
        .unwrap()
        .unwrap();
    db.note_execution(task, "third").unwrap();
    db.note_execution(task, "fourth").unwrap();
    assert_eq!(db.tasks.rows[place].status, TaskPhase::Partial);
    assert_eq!(db.tasks.rows[place].finished_at.as_deref(), Some("third"));
    assert_eq!(db.files.rows[b].row.reason.as_deref(), Some("corrupt"));
    assert_eq!(db.files.rows.len(), 3);
    assert_eq!(db.files.rows[0].row.input_path, "/x.zip");
    assert!(db.files.rows[0].node_id.is_none());

    db.delete_password(password);
    assert_eq!(db.note_execution(&executions.tasks[0], "fifth"), Err(StoreError::UnknownPassword));
    executions.forget_password(password);
    db.note_execution(&executions.tasks[0], "fifth").unwrap();
    assert!(db.files.rows[a].row.password_id.is_none());
    assert!(db.files.rows[a].row.has_password);
    assert_eq!(RowStatus::Pending.as_str(), "pending");
}

#[test]
fn changes_of_nodes_are_numbered_within_their_task() {
    let mut db = SmartZipDb::in_memory();
    assert_eq!(
        db.note_stage("t1", stage("a", "ready", None), text("now")),
        Err(StoreError::UnknownTask)
    );
    seed_task(&mut db, "t1");
    seed_task(&mut db, "t2");
    db.insert_event(event("t1")).unwrap();
    db.note_stage("t1", stage("a", "ready", None), text("now")).unwrap();
    db.note_stage("t2", stage("b", "ready", None), text("now")).unwrap();
    let id = db.note_stage("t1", stage("a", "running", Some("x")), text("later")).unwrap();

    let last = db.events.rows.last().unwrap();
    assert_eq!((last.id, id), (4, 4));
    assert_eq!(last.level, TaskEventLevel::Info);
    assert_eq!((last.event_type.as_str(), last.message.as_str()), ("stage", "running"));
    let note = last.stage.as_ref().unwrap();
    assert_eq!((note.node_id.as_str(), note.stage.as_str(), note.sequence), ("a", "cleanup", 2));
    assert_eq!(note.attempt_id.as_deref(), Some("x"));
    assert_eq!(db.events.rows[2].stage.as_ref().unwrap().sequence, 1);
    assert!(db.events.rows[0].stage.is_none());
    assert_eq!(db.events.last_stage("t1"), Some(2));
    assert_eq!(db.events.last_stage("t3"), None);
}
