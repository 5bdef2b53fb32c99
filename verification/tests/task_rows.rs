//! The rows of tasks, of their events and of what they did to files.

use smartzip::embedded_archive_detection::{
    EmbeddedArchiveDetectionRepository, NewEmbeddedArchiveDetection,
};
use smartzip::encoding_detection::{EncodingDetectionRepository, NewEncodingDetection};
use smartzip::events::TaskEventLevel;
use smartzip::file_extractions::{FileExtractionRepository, NewFileExtraction};
use smartzip::history::{known_rows, FileExtractionRow, TaskCompletionStatus};
use smartzip::task::{NewTask, TaskFinish, TaskRepository, TaskStatus};
use smartzip::task_event::{NewTaskEvent, TaskEventRepository};
use smartzip::task_execution::TaskPhase;
use smartzip::types::EncodingMode;

fn text(s: &str) -> String {
    s.to_string()
}

fn new_task(id: &str, input_summary: &str, output_path: Option<&str>, at: &str) -> NewTask {
    NewTask {
        id: text(id),
        kind: text("extract"),
        input_summary: text(input_summary),
        output_path: output_path.map(text),
        started_at: text(at),
    }
}

#[test]
fn insert_and_find_task() {
    let mut repo = TaskRepository::new();
    repo.insert(new_task("task-1", "a.zip, b.zip", Some("/tmp/out"), "2026-07-02T00:00:00Z"));

    let record = &repo.rows[repo.find_by_id("task-1").unwrap()];
    assert_eq!(record.status.as_str(), "running");
    assert_eq!(record.kind, "extract");
    assert_eq!(record.output_path.as_deref(), Some("/tmp/out"));
}

#[test]
fn finish_updates_only_supplied_fields() {
    let mut repo = TaskRepository::new();
    repo.insert(new_task("task-2", "a.zip", None, "2026-07-02T00:00:00Z"));
    repo.finish(
        "task-2",
        TaskFinish {
            status: Some(TaskStatus::Completed),
            finished_at: Some(text("2026-07-02T00:00:05Z")),
            password_attempts: Some(3),
            encoding_selected: Some(text("gb18030")),
            embedded_found: Some(2),
            ..TaskFinish::default()
        },
    );

    let record = &repo.rows[repo.find_by_id("task-2").unwrap()];
    assert_eq!(record.status.as_str(), "completed");
    assert_eq!(record.finished_at.as_deref(), Some("2026-07-02T00:00:05Z"));
    assert_eq!(record.password_attempts, 3);
    assert_eq!(record.encoding_selected.as_deref(), Some("gb18030"));
    assert_eq!(record.embedded_found, 2);
    assert!(record.error_code.is_none());
}

#[test]
fn recent_returns_newest_first() {
    let mut repo = TaskRepository::new();
    for (id, started_at) in [
        ("task-a", "2026-07-01T00:00:00Z"),
        ("task-b", "2026-07-02T00:00:00Z"),
        ("task-c", "2026-06-30T00:00:00Z"),
    ] {
        repo.insert(new_task(id, "x.zip", None, started_at));
    }
    let recent = repo.recent(10);
    assert_eq!(repo.rows[recent[0]].id, "task-b");
    assert_eq!(repo.rows[recent[1]].id, "task-a");
    assert_eq!(repo.rows[recent[2]].id, "task-c");
}

#[test]
fn unknown_task_is_not_finished() {
    let mut repo = TaskRepository::new();
    repo.insert(new_task("task", "a.zip", None, "2026-07-02T00:00:00Z"));
    repo.finish("other", TaskFinish { status: Some(TaskStatus::Failed), ..TaskFinish::default() });
    assert_eq!(repo.rows[0].status, TaskPhase::Running);
    repo.finish("task", TaskFinish::default());
    assert_eq!(repo.rows[0].status, TaskPhase::Running);
}

#[test]
fn insert_and_list_preserves_order() {
    let mut repo = TaskEventRepository::new();
    for (ty, msg, at) in [
        ("Started", "started", "2026-07-02T00:00:01Z"),
        ("Progress", "extracting", "2026-07-02T00:00:02Z"),
        ("Completed", "completed", "2026-07-02T00:00:03Z"),
    ] {
        repo.insert(NewTaskEvent {
            task_id: text("task-events"),
            level: TaskEventLevel::Info,
            event_type: text(ty),
            message: text(msg),
            data_json: None,
            created_at: text(at),
        });
    }
    let events = repo.list_by_task("task-events");
    assert_eq!(events.len(), 3);
    assert_eq!(repo.rows[events[0]].event_type, "Started");
    assert_eq!(repo.rows[events[2]].event_type, "Completed");
    assert!(repo.list_by_task("other").is_empty());
}

fn base(task_id: &str, input: &str, status: &str) -> NewFileExtraction {
    NewFileExtraction {
        task_id: text(task_id),
        row: FileExtractionRow {
            input_path: text(input),
            sample_hash: None,
            file_size: None,
            offset: None,
            output_path: None,
            has_password: false,
            password_id: None,
            status: text(status),
            reason: None,
            encoding: None,
            encoding_corrected: false,
            damaged_volumes_json: None,
            test_report_json: None,
        },
        created_at: text("2026-07-02T00:00:01Z"),
    }
}

fn with_reason(mut new: NewFileExtraction, reason: &str) -> NewFileExtraction {
    new.row.reason = Some(text(reason));
    new
}

#[test]
fn insert_and_list_by_task_preserves_order() {
    let mut repo = FileExtractionRepository::new();
    repo.insert(base("t1", "/a.zip", "extracted"));
    let mut second = base("t1", "/a.zip", "extracted");
    second.row.offset = Some(4096);
    repo.insert(second);

    let rows = repo.list_by_task("t1");
    assert_eq!(rows.len(), 2);
    assert_eq!(repo.rows[rows[0]].row.offset, None);
    assert_eq!(repo.rows[rows[1]].row.offset, Some(4096));
}

#[test]
fn filter_by_status_and_reason() {
    let mut repo = FileExtractionRepository::new();
    repo.insert(base("t1", "/ok.zip", "extracted"));
    repo.insert(with_reason(base("t1", "/dup.zip", "skipped"), "duplicate"));
    repo.insert(with_reason(base("t1", "/bad.zip", "failed"), "wrong_password"));

    assert_eq!(repo.list_by_status("skipped", 10).len(), 1);
    assert_eq!(repo.list_by_status("extracted", 10).len(), 1);
    let by_reason = repo.list_by_reason("wrong_password", 10);
    assert_eq!(by_reason.len(), 1);
    assert_eq!(repo.rows[by_reason[0]].row.input_path, "/bad.zip");
    let combined = repo.list_by_status_and_reason("skipped", "duplicate", 10);
    assert_eq!(combined.len(), 1);
    assert_eq!(repo.rows[combined[0]].row.input_path, "/dup.zip");
}

#[test]
fn recent_is_newest_first() {
    let mut repo = FileExtractionRepository::new();
    let first = repo.insert(base("t1", "/one.zip", "extracted"));
    let second = repo.insert(base("t1", "/two.zip", "extracted"));
    let recent = repo.recent(10);
    assert_eq!(repo.rows[recent[0]].id, second);
    assert_eq!(repo.rows[recent[1]].id, first);
    assert_eq!(repo.recent(1).len(), 1);
}

#[test]
fn rows_of_files_by_their_end() {
    let failed = FileExtractionRow::failed("/a.zip", Some(7), "corrupt");
    assert_eq!(failed.status, "failed");
    assert_eq!(failed.reason.as_deref(), Some("corrupt"));
    assert_eq!(failed.offset, Some(7));
    let skipped = FileExtractionRow::skipped("/a.zip", None, "duplicate");
    assert_eq!(skipped.status, "skipped");
    assert_eq!(skipped.offset, None);
    let extracted = FileExtractionRow::extracted("/a.zip", None, "/out/a");
    assert_eq!(extracted.status, "extracted");
    assert_eq!(extracted.reason, None);
    assert_eq!(extracted.output_path.as_deref(), Some("/out/a"));
    assert!(!extracted.has_password);
}

#[test]
fn counts_decide_the_status_of_a_task() {
    let of = TaskCompletionStatus::from_counts;
    assert_eq!(of(1, 0, false), TaskCompletionStatus::Completed);
    assert_eq!(of(0, 0, false), TaskCompletionStatus::Completed);
    assert_eq!(of(1, 1, false), TaskCompletionStatus::Partial);
    assert_eq!(of(0, 1, false), TaskCompletionStatus::Failed);
    assert_eq!(of(1, 1, true), TaskCompletionStatus::Cancelled);
    assert_eq!(of(1, 1, false).to_status(), TaskStatus::Partial);
}

fn detection(format: &str, offset: u64, confidence: f32, size_hint: Option<u64>) -> NewEmbeddedArchiveDetection {
    NewEmbeddedArchiveDetection {
        file_path_hash: text("hash"),
        format: text(format),
        offset,
        confidence: confidence.to_bits(),
        size_hint,
        created_at: text("2026-07-02T00:00:00Z"),
    }
}

#[test]
fn insert_many_persists_all_rows() {
    let mut repo = EmbeddedArchiveDetectionRepository::new();
    let inserted = repo.insert_many(vec![
        detection("zip", 0, 0.8, Some(1024)),
        detection("rar", 2048, 0.6, None),
    ]);
    assert_eq!(inserted, 2);
    let rows: Vec<_> = repo.recent_by_hash("hash", 5).into_iter().map(|k| &repo.rows[k]).collect();
    assert_eq!(rows.len(), 2);
    assert!(rows.iter().any(|r| r.format == "rar" && r.offset == 2048));
    assert!(rows.iter().any(|r| r.format == "zip" && r.size_hint == Some(1024)));
    assert_eq!(rows[0].format, "rar");
    assert_eq!(rows[0].id, 2);
}

#[test]
fn empty_batch_is_noop() {
    let mut repo = EmbeddedArchiveDetectionRepository::new();
    assert_eq!(repo.insert_many(vec![]), 0);
    assert!(repo.rows.is_empty());
}

fn encoding(hash: &str, name: &str, confidence: f32, candidates: &str, at: &str) -> NewEncodingDetection {
    NewEncodingDetection {
        archive_path_hash: text(hash),
        archive_format: Some(text("zip")),
        selected_encoding: text(name),
        confidence: confidence.to_bits(),
        user_corrected: false,
        candidates_json: text(candidates),
        created_at: text(at),
    }
}

#[test]
fn insert_and_lookup_by_hash() {
    let mut repo = EncodingDetectionRepository::new();
    repo.insert(encoding(
        "abc",
        "GB18030",
        0.87,
        r#"[{"name":"GB18030","confidence":0.87}]"#,
        "2026-07-02T00:00:00Z",
    ));
    let rows = repo.recent_by_hash("abc", 5);
    assert_eq!(rows.len(), 1);
    let row = &repo.rows[rows[0]];
    assert_eq!(row.selected_encoding, "GB18030");
    assert!((f32::from_bits(row.confidence) - 0.87).abs() < 1e-6);
}

#[test]
fn recent_returns_most_recent_first() {
    let mut repo = EncodingDetectionRepository::new();
    for (name, at) in [("GBK", "2026-07-02T00:00:00Z"), ("GB18030", "2026-07-02T00:00:01Z")] {
        repo.insert(encoding("same", name, 0.5, "[]", at));
    }
    let rows = repo.recent_by_hash("same", 5);
    assert_eq!(repo.rows[rows[0]].selected_encoding, "GB18030");
    assert_eq!(repo.rows[rows[1]].selected_encoding, "GBK");
}

#[test]
fn extracted_file_is_known_by_its_sample() {
    let (hash, name) = (Some(text("hash")), Some(text("a.zip")));
    let auto = EncodingMode::Auto;
    assert!(known_rows(&None, Some(7), &name, None, None, &auto).is_none());
    assert!(known_rows(&hash, None, &name, None, None, &auto).is_none());
    let (file, encoding) = known_rows(&hash, Some(7), &name, Some(4), Some(3), &auto).unwrap();
    assert_eq!((file.sample_hash.as_str(), file.size, file.offset), ("hash", 7, Some(4)));
    assert_eq!((file.name.as_deref(), file.password_id), (Some("a.zip"), Some(3)));
    assert!(encoding.is_none());
    let asked = EncodingMode::Override(text("GBK"));
    let (_, encoding) = known_rows(&hash, Some(7), &None, None, None, &asked).unwrap();
    let encoding = encoding.unwrap();
    assert_eq!((encoding.encoding.as_str(), encoding.size, encoding.name), ("GBK", 7, None));
}
