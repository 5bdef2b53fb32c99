//! The log of a task's events.

use smartzip::events::{
    describe_event, reuse_decision, EventLog, EventSink, TaskEvent, TaskEventKind, TaskEventLevel, RETAINED_EVENTS,
};
use smartzip::embedded::Confidence;
use smartzip::types::{ArchiveFormat, EncodingMode};

fn event(kind: TaskEventKind) -> TaskEvent {
    TaskEvent { task_id: "task".to_string(), kind }
}

#[test]
fn non_progress_flood_is_bounded_and_terminal_and_live_events_survive() {
    let mut seen = 0usize;
    let mut sink = EventSink::new(true);
    let mut push = |sink: &mut EventSink, kind| {
        sink.push(event(kind));
        seen += sink.tell().len();
    };
    push(&mut sink, TaskEventKind::Started);
    for _ in 0..10_000 {
        push(&mut sink, TaskEventKind::PasswordTried { candidate_id: None });
    }
    push(&mut sink, TaskEventKind::Finished { status: "failed".into() });
    let events = sink.snapshot();
    assert_eq!(events.len(), RETAINED_EVENTS);
    assert!(matches!(events[0].kind, TaskEventKind::Started));
    assert!(matches!(events[2].kind, TaskEventKind::Warning { .. }));
    assert!(matches!(events.last().unwrap().kind, TaskEventKind::Finished { .. }));
    assert_eq!(seen, 10_002);
}

#[test]
fn listener_is_told_each_event_once_and_in_order() {
    let mut sink = EventSink::new(true);
    sink.push(event(TaskEventKind::Started));
    sink.push(event(TaskEventKind::Completed));
    let told = sink.tell();
    assert!(matches!(told[0].kind, TaskEventKind::Started));
    assert!(matches!(told[1].kind, TaskEventKind::Completed));
    assert_eq!(told.len(), 2);
    assert!(sink.tell().is_empty());
    for _ in 0..RETAINED_EVENTS {
        sink.push(event(TaskEventKind::PasswordTried { candidate_id: None }));
    }
    assert!(sink.log.dropped > 0);
    assert_eq!(sink.tell().len(), RETAINED_EVENTS);

    let mut silent = EventSink::new(false);
    silent.push(event(TaskEventKind::Started));
    assert!(silent.tell().is_empty());
    assert_eq!(silent.snapshot().len(), 1);
}

#[test]
fn few_events_are_all_kept() {
    let mut log = EventLog::new();
    log.push(event(TaskEventKind::Started));
    log.push(event(TaskEventKind::Completed));
    let events = log.snapshot();
    assert_eq!(events.len(), 2);
    assert!(matches!(events[1].kind, TaskEventKind::Completed));
}

fn described(kind: TaskEventKind) -> (TaskEventLevel, String, String) {
    let d = describe_event(&kind);
    (d.level, d.event_type, d.message)
}

fn row(level: TaskEventLevel, event_type: &str, message: &str) -> (TaskEventLevel, String, String) {
    (level, event_type.to_string(), message.to_string())
}

#[test]
fn events_have_words() {
    let info = TaskEventLevel::Info;
    let warn = TaskEventLevel::Warn;
    assert_eq!(described(TaskEventKind::Started), row(info, "Started", "task started"));
    assert_eq!(described(TaskEventKind::Completed), row(info, "Completed", "task completed"));
    assert_eq!(
        described(TaskEventKind::PasswordTried { candidate_id: Some(7) }),
        row(info, "PasswordTried", "password candidate 7")
    );
    assert_eq!(
        described(TaskEventKind::PasswordTried { candidate_id: None }),
        row(info, "PasswordTried", "password candidate")
    );
    assert_eq!(
        described(TaskEventKind::EncodingDetected {
            selected: EncodingMode::Auto,
            percent: 85,
            evidence: "{}".into()
        }),
        row(info, "EncodingDetected", "selected auto @ 85%")
    );
    assert_eq!(
        described(TaskEventKind::EmbeddedArchiveFound {
            offset: 255,
            size: Some(9),
            format: ArchiveFormat::Rar,
            confidence: Confidence::High,
            description: "x".into()
        }),
        row(info, "EmbeddedArchiveFound", "rar @ 0xFF — x")
    );
    assert_eq!(
        described(TaskEventKind::EmbeddedArchiveSelected {
            offset: 16,
            size: None,
            format: ArchiveFormat::Zip,
            reason: "r".into()
        }),
        row(info, "EmbeddedArchiveSelected", "zip @ 0x10")
    );
    assert_eq!(
        described(TaskEventKind::EmbeddedArchiveSelectionRequired {
            path: "/a".into(),
            findings_count: 3
        }),
        row(warn, "EmbeddedArchiveSelectionRequired", "3 findings for /a")
    );
    assert_eq!(
        described(TaskEventKind::LargeEmbeddedScanConfirmationRequired {
            path: "/a".into(),
            file_size: 9,
            threshold: 8
        }),
        row(warn, "LargeEmbeddedScanConfirmationRequired", "/a: 9 bytes > 8")
    );
    assert_eq!(
        described(TaskEventKind::Warning { message: "w".into() }),
        row(warn, "Warning", "w")
    );
    assert_eq!(
        described(TaskEventKind::Failed { error: "e".into() }),
        row(TaskEventLevel::Error, "Failed", "e")
    );
    assert_eq!(TaskEventLevel::Error.as_str(), "error");
}

#[test]
fn some_events_carry_data() {
    let carries = |kind: TaskEventKind| describe_event(&kind).carries_data;
    assert!(!carries(TaskEventKind::Started));
    assert!(!carries(TaskEventKind::OutputCreated { path: "/a".into() }));
    assert!(!carries(TaskEventKind::Warning { message: "w".into() }));
    assert!(!carries(TaskEventKind::Failed { error: "e".into() }));
    assert!(!carries(TaskEventKind::Completed));
    assert!(carries(TaskEventKind::Progress { message: "p".into() }));
    assert!(carries(TaskEventKind::PasswordTried { candidate_id: None }));
    assert!(carries(TaskEventKind::Route { summary: "r".into() }));
    assert!(carries(TaskEventKind::EmbeddedArchiveCarved { source: "/a".into(), offset: 1 }));
    assert!(carries(TaskEventKind::BusinessContainerSkipped {
        path: "/a".into(),
        kind: "Docx".into()
    }));
    assert!(carries(reuse_decision("/a")));
}

#[test]
fn reuse_is_told_as_a_decision() {
    let kind = reuse_decision("/in/a.zip");
    assert_eq!(
        kind,
        TaskEventKind::Decision {
            stage: "reuse".into(),
            action: "skip".into(),
            reason: "already_extracted".into(),
            policy_key: "extraction.reuse.skip_completed".into(),
            source: "history".into(),
            detail: Some("/in/a.zip".into()),
        }
    );
    assert_eq!(described(kind), row(TaskEventLevel::Info, "Decision", "reuse: skip (already_extracted)"));
}
