//! What was written is what is read.

use smartzip::coordinator::{Stage, TaskPriority};
use smartzip::db::SmartZipDb;
use smartzip::events::TaskEventLevel;
use smartzip::execution_runtime::{Admission, NodeResources, RuntimeState};
use smartzip::password::{NewPassword, PasswordRepository};
use smartzip::resources::{DomainUnits, ResourceCapacity};
use smartzip::task::{NewTask, TaskFinish, TaskStatus};
use smartzip::task_execution::TaskPhase;
use smartzip::task_event::NewTaskEvent;

fn text(s: &str) -> String {
    s.to_string()
}

fn task(id: &str) -> NewTask {
    NewTask {
        id: text(id),
        kind: text("extract"),
        input_summary: text("a.zip"),
        output_path: Some(text("/out")),
        started_at: text("2026-07-02T00:00:00Z"),
    }
}

fn event(task_id: &str, at: &str) -> NewTaskEvent {
    NewTaskEvent {
        task_id: text(task_id),
        level: TaskEventLevel::Info,
        event_type: text("Progress"),
        message: text("at work"),
        data_json: None,
        created_at: text(at),
    }
}

#[test]
fn notes_reach_one_task_only() {
    let mut db = SmartZipDb::in_memory();
    db.insert_task(task("a")).unwrap();
    db.insert_task(task("b")).unwrap();
    let note = TaskFinish { status: Some(TaskStatus::Partial), ..TaskFinish::default() };
    db.tasks.finish("a", note);
    let a = &db.tasks.rows[db.tasks.find_by_id("a").unwrap()];
    let b = &db.tasks.rows[db.tasks.find_by_id("b").unwrap()];
    assert_eq!(a.status, TaskPhase::Partial);
    assert_eq!(a.output_path, Some(text("/out")));
    assert_eq!(b.status, TaskPhase::Running);
}

#[test]
fn event_is_listed_with_its_task_alone() {
    let mut db = SmartZipDb::in_memory();
    db.insert_task(task("a")).unwrap();
    db.insert_task(task("b")).unwrap();
    db.insert_event(event("b", "2026-07-02T00:00:05Z")).unwrap();
    let before = db.events.list_by_task("b");
    db.insert_event(event("a", "2026-07-02T00:00:01Z")).unwrap();
    assert_eq!(db.events.list_by_task("a"), vec![1]);
    assert_eq!(db.events.list_by_task("b"), before);
}

#[test]
fn numbers_are_not_given_out_again() {
    let mut db = SmartZipDb::in_memory();
    db.insert_task(task("a")).unwrap();
    assert_eq!(db.insert_event(event("a", "2026-07-02T00:00:01Z")), Ok(1));
    db.delete_task("a");
    db.insert_task(task("a")).unwrap();
    assert_eq!(db.insert_event(event("a", "2026-07-02T00:00:02Z")), Ok(2));
}

#[test]
fn password_that_is_kept_again_is_in_use_again() {
    let mut repo = PasswordRepository::new();
    let new = |value: &str| NewPassword { value: text(value), source: text("manual"), pinned: false };
    let id = repo.upsert(new("one"));
    let other = repo.upsert(new("two"));
    repo.disable(id);
    assert_eq!(repo.ranked_candidates(10).len(), 1);
    assert_eq!(repo.upsert(new("one")), id);
    let row = &repo.rows[repo.get_by_value("one").unwrap()];
    assert!(!row.disabled);
    assert_eq!(row.id, id);
    assert_eq!(repo.rows[repo.get_by_value("two").unwrap()].id, other);
}

#[test]
fn two_commits_to_one_target_take_turns() {
    let mut domains = DomainUnits::new();
    domains.set("device:1", 8);
    let mut runtime = RuntimeState::new(ResourceCapacity {
        cpu_units: 8,
        backend_processes: 8,
        io_domains: domains,
        ..ResourceCapacity::default()
    });
    let node = |id: &str, out: &str| NodeResources {
        task_id: text("task"),
        node_id: text(id),
        root_id: text(id),
        input: format!("/in/{id}"),
        output_root: text(out),
        source_io_domain: format!("source:{id}"),
        target_io_domain: format!("target:{id}"),
    };
    let nodes = vec![node("a", "/out"), node("b", "/out/deep"), node("c", "/elsewhere")];
    runtime.submit(text("task"), TaskPriority::Normal, 0, None, nodes);
    let mut ask = |id: &str| runtime.ask_for_turn("task", id, 0, Stage::Commit, "attempt", false).0;
    assert_eq!(ask("a"), Admission::Admitted);
    assert_eq!(ask("b"), Admission::Waiting);
    assert_eq!(ask("c"), Admission::Admitted);
    runtime.release_node("task", "a", 1);
    assert_eq!(
        runtime.ask_for_turn("task", "b", 0, Stage::Commit, "attempt", true).0,
        Admission::Admitted
    );
}
