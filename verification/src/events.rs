//! What is told about a task while it runs, and how much of it is kept.

use vstd::prelude::*;
use vstd::string::*;
use crate::embedded::Confidence;
use crate::text::{push_decimal, push_hexadecimal};
use crate::types::{ArchiveFormat, EncodingMode};

verus! {

/// How many events are kept, with the notice about those that are not.
pub const RETAINED_EVENTS: usize = 4096;

/// Something that happened.
#[derive(Debug, PartialEq, Eq)]
pub enum TaskEventKind {
    Started,
    Progress { message: String },
    PasswordTried { candidate_id: Option<i64> },
    /// A choice of an archive tool, in words.
    Route { summary: String },
    /// An encoding, with its worth in hundredths, and all candidates with theirs as they are
    /// stored.
    EncodingDetected { selected: EncodingMode, percent: u64, evidence: String },
    EmbeddedArchiveFound {
        offset: u64,
        size: Option<u64>,
        format: ArchiveFormat,
        confidence: Confidence,
        description: String,
    },
    EmbeddedArchiveSelected {
        offset: u64,
        size: Option<u64>,
        format: ArchiveFormat,
        reason: String,
    },
    EmbeddedArchiveCarved { source: String, offset: u64 },
    EmbeddedArchiveSelectionRequired { path: String, findings_count: usize },
    LargeEmbeddedScanConfirmationRequired { path: String, file_size: u64, threshold: u64 },
    BusinessContainerSkipped { path: String, kind: String },
    /// What a setting led to, and where the fact that it was applied to came from.
    Decision {
        stage: String,
        action: String,
        reason: String,
        policy_key: String,
        source: String,
        detail: Option<String>,
    },
    OutputCreated { path: String },
    Warning { message: String },
    Failed { error: String },
    Completed,
    Finished { status: String },
}

impl Clone for TaskEventKind {
    fn clone(&self) -> (r: Self)
        ensures
            r == *self,
    {
        match self {
            TaskEventKind::Started => TaskEventKind::Started,
            TaskEventKind::Progress { message } => TaskEventKind::Progress {
                message: message.clone(),
            },
            TaskEventKind::PasswordTried { candidate_id } => TaskEventKind::PasswordTried {
                candidate_id: *candidate_id,
            },
            TaskEventKind::Route { summary } => TaskEventKind::Route { summary: summary.clone() },
            TaskEventKind::EncodingDetected { selected, percent, evidence } => {
                TaskEventKind::EncodingDetected {
                    selected: selected.clone(),
                    percent: *percent,
                    evidence: evidence.clone(),
                }
            },
            TaskEventKind::EmbeddedArchiveFound { offset, size, format, confidence, description } => {
                TaskEventKind::EmbeddedArchiveFound {
                    offset: *offset,
                    size: *size,
                    format: format.clone(),
                    confidence: *confidence,
                    description: description.clone(),
                }
            },
            TaskEventKind::EmbeddedArchiveSelected { offset, size, format, reason } => {
                TaskEventKind::EmbeddedArchiveSelected {
                    offset: *offset,
                    size: *size,
                    format: format.clone(),
                    reason: reason.clone(),
                }
            },
            TaskEventKind::EmbeddedArchiveCarved { source, offset } => {
                TaskEventKind::EmbeddedArchiveCarved { source: source.clone(), offset: *offset }
            },
            TaskEventKind::EmbeddedArchiveSelectionRequired { path, findings_count } => {
                TaskEventKind::EmbeddedArchiveSelectionRequired {
                    path: path.clone(),
                    findings_count: *findings_count,
                }
            },
            TaskEventKind::LargeEmbeddedScanConfirmationRequired { path, file_size, threshold } => {
                TaskEventKind::LargeEmbeddedScanConfirmationRequired {
                    path: path.clone(),
                    file_size: *file_size,
                    threshold: *threshold,
                }
            },
            TaskEventKind::BusinessContainerSkipped { path, kind } => {
                TaskEventKind::BusinessContainerSkipped { path: path.clone(), kind: kind.clone() }
            },
            TaskEventKind::Decision { stage, action, reason, policy_key, source, detail } => {
                TaskEventKind::Decision {
                    stage: stage.clone(),
                    action: action.clone(),
                    reason: reason.clone(),
                    policy_key: policy_key.clone(),
                    source: source.clone(),
                    detail: match detail {
                        Some(text) => Some(text.clone()),
                        None => None,
                    },
                }
            },
            TaskEventKind::OutputCreated { path } => TaskEventKind::OutputCreated {
                path: path.clone(),
            },
            TaskEventKind::Warning { message } => TaskEventKind::Warning {
                message: message.clone(),
            },
            TaskEventKind::Failed { error } => TaskEventKind::Failed { error: error.clone() },
            TaskEventKind::Completed => TaskEventKind::Completed,
            TaskEventKind::Finished { status } => TaskEventKind::Finished {
                status: status.clone(),
            },
        }
    }
}

/// Something that happened in a task.
#[derive(Debug, PartialEq, Eq)]
pub struct TaskEvent {
    pub task_id: String,
    pub kind: TaskEventKind,
}

impl Clone for TaskEvent {
    fn clone(&self) -> (r: Self)
        ensures
            r == *self,
    {
        TaskEvent { task_id: self.task_id.clone(), kind: self.kind.clone() }
    }
}

/// How grave an event is.
#[derive(Clone, Copy, Debug, PartialEq, Eq, Structural)]
pub enum TaskEventLevel {
    Info,
    Warn,
    Error,
}

impl TaskEventLevel {
    /// The word that is stored for the level.
    pub open spec fn text(self) -> Seq<char> {
        match self {
            TaskEventLevel::Info => "info"@,
            TaskEventLevel::Warn => "warn"@,
            TaskEventLevel::Error => "error"@,
        }
    }

    pub fn as_str(self) -> (r: &'static str)
        ensures
            r@ == self.text(),
    {
        match self {
            TaskEventLevel::Info => "info",
            TaskEventLevel::Warn => "warn",
            TaskEventLevel::Error => "error",
        }
    }
}

/// An event as it is stored.
#[derive(Debug)]
pub struct EventDescription {
    pub level: TaskEventLevel,
    pub event_type: String,
    pub message: String,
    /// What the event is made of is stored beside the words.
    pub carries_data: bool,
}

/// How grave an event of this kind is.
pub open spec fn level_of(kind: TaskEventKind) -> TaskEventLevel {
    match kind {
        TaskEventKind::EmbeddedArchiveSelectionRequired { .. }
        | TaskEventKind::LargeEmbeddedScanConfirmationRequired { .. }
        | TaskEventKind::Warning { .. } => TaskEventLevel::Warn,
        TaskEventKind::Failed { .. } => TaskEventLevel::Error,
        _ => TaskEventLevel::Info,
    }
}

/// The name of the kind.
pub open spec fn type_of(kind: TaskEventKind) -> Seq<char> {
    match kind {
        TaskEventKind::Started => "Started"@,
        TaskEventKind::Progress { .. } => "Progress"@,
        TaskEventKind::PasswordTried { .. } => "PasswordTried"@,
        TaskEventKind::Route { .. } => "Route"@,
        TaskEventKind::EncodingDetected { .. } => "EncodingDetected"@,
        TaskEventKind::EmbeddedArchiveFound { .. } => "EmbeddedArchiveFound"@,
        TaskEventKind::EmbeddedArchiveSelected { .. } => "EmbeddedArchiveSelected"@,
        TaskEventKind::EmbeddedArchiveCarved { .. } => "EmbeddedArchiveCarved"@,
        TaskEventKind::EmbeddedArchiveSelectionRequired { .. } => {
            "EmbeddedArchiveSelectionRequired"@
        },
        TaskEventKind::LargeEmbeddedScanConfirmationRequired { .. } => {
            "LargeEmbeddedScanConfirmationRequired"@
        },
        TaskEventKind::BusinessContainerSkipped { .. } => "BusinessContainerSkipped"@,
        TaskEventKind::Decision { .. } => "Decision"@,
        TaskEventKind::OutputCreated { .. } => "OutputCreated"@,
        TaskEventKind::Warning { .. } => "Warning"@,
        TaskEventKind::Failed { .. } => "Failed"@,
        TaskEventKind::Completed => "Completed"@,
        TaskEventKind::Finished { .. } => "Finished"@,
    }
}

/// A place in a file, as it is told.
pub open spec fn at_offset(offset: u64) -> Seq<char> {
    " @ 0x"@ + crate::text::hexadecimal(offset as nat, true)
}

/// What an event says.
pub open spec fn message_of(kind: TaskEventKind) -> Seq<char> {
    match kind {
        TaskEventKind::Started => "task started"@,
        TaskEventKind::Progress { message } => message@,
        TaskEventKind::PasswordTried { candidate_id } => match candidate_id {
            Some(id) => "password candidate "@ + crate::text::signed_decimal(id as int),
            None => "password candidate"@,
        },
        TaskEventKind::Route { summary } => summary@,
        TaskEventKind::EncodingDetected { selected, percent, .. } => "selected "@ + (match selected {
            EncodingMode::Auto => "auto"@,
            EncodingMode::Override(name) => name@,
        }) + " @ "@ + crate::text::decimal(percent as nat) + "%"@,
        TaskEventKind::EmbeddedArchiveFound { offset, format, description, .. } => format.text()
            + at_offset(offset) + " — "@ + description@,
        TaskEventKind::EmbeddedArchiveSelected { offset, format, .. } => format.text() + at_offset(
            offset,
        ),
        TaskEventKind::EmbeddedArchiveCarved { source, offset } => source@ + at_offset(offset),
        TaskEventKind::EmbeddedArchiveSelectionRequired { path, findings_count } => {
            crate::text::decimal(findings_count as nat) + " findings for "@ + path@
        },
        TaskEventKind::LargeEmbeddedScanConfirmationRequired { path, file_size, threshold } => path@
            + ": "@ + crate::text::decimal(file_size as nat) + " bytes > "@
            + crate::text::decimal(threshold as nat),
        TaskEventKind::BusinessContainerSkipped { path, kind } => path@ + " ("@ + kind@ + ")"@,
        TaskEventKind::Decision { stage, action, reason, .. } => stage@ + ": "@ + action@ + " ("@
            + reason@ + ")"@,
        TaskEventKind::OutputCreated { path } => path@,
        TaskEventKind::Warning { message } => message@,
        TaskEventKind::Failed { error } => error@,
        TaskEventKind::Completed => "task completed"@,
        TaskEventKind::Finished { status } => status@,
    }
}

fn push_offset(text: &mut String, offset: u64)
    ensures
        final(text)@ == old(text)@ + at_offset(offset),
{
    let ghost before = text@;
    text.append(" @ 0x");
    push_hexadecimal(text, offset, true);
    assert(text@ =~= before + at_offset(offset));
}

fn message(kind: &TaskEventKind) -> (r: String)
    ensures
        r@ == message_of(*kind),
{
    match kind {
        TaskEventKind::Started => "task started".to_owned(),
        TaskEventKind::Progress { message } => message.clone(),
        TaskEventKind::PasswordTried { candidate_id } => match candidate_id {
            Some(id) => {
                let mut text: String = "password candidate ".to_owned();
                crate::text::push_signed(&mut text, *id);
                text
            },
            None => "password candidate".to_owned(),
        },
        TaskEventKind::Route { summary } => summary.clone(),
        TaskEventKind::EncodingDetected { selected, percent, .. } => {
            let mut text: String = "selected ".to_owned();
            match selected {
                EncodingMode::Auto => text.append("auto"),
                EncodingMode::Override(name) => text.append(name.as_str()),
            }
            text.append(" @ ");
            push_decimal(&mut text, *percent);
            text.append("%");
            text
        },
        TaskEventKind::EmbeddedArchiveFound { offset, format, description, .. } => {
            let mut text: String = format.as_str().to_owned();
            push_offset(&mut text, *offset);
            text.append(" — ");
            text.append(description.as_str());
            text
        },
        TaskEventKind::EmbeddedArchiveSelected { offset, format, .. } => {
            let mut text: String = format.as_str().to_owned();
            push_offset(&mut text, *offset);
            text
        },
        TaskEventKind::EmbeddedArchiveCarved { source, offset } => {
            let mut text: String = source.clone();
            push_offset(&mut text, *offset);
            text
        },
        TaskEventKind::EmbeddedArchiveSelectionRequired { path, findings_count } => {
            let mut text: String = String::new();
            push_decimal(&mut text, *findings_count as u64);
            text.append(" findings for ");
            text.append(path.as_str());
            assert(text@ =~= message_of(*kind));
            text
        },
        TaskEventKind::LargeEmbeddedScanConfirmationRequired { path, file_size, threshold } => {
            let mut text: String = path.clone();
            text.append(": ");
            push_decimal(&mut text, *file_size);
            text.append(" bytes > ");
            push_decimal(&mut text, *threshold);
            text
        },
        TaskEventKind::BusinessContainerSkipped { path, kind } => {
            let mut text: String = path.clone();
            text.append(" (");
            text.append(kind.as_str());
            text.append(")");
            text
        },
        TaskEventKind::Decision { stage, action, reason, .. } => {
            let mut text: String = stage.clone();
            text.append(": ");
            text.append(action.as_str());
            text.append(" (");
            text.append(reason.as_str());
            text.append(")");
            text
        },
        TaskEventKind::OutputCreated { path } => path.clone(),
        TaskEventKind::Warning { message } => message.clone(),
        TaskEventKind::Failed { error } => error.clone(),
        TaskEventKind::Completed => "task completed".to_owned(),
        TaskEventKind::Finished { status } => status.clone(),
    }
}

fn kind_name(kind: &TaskEventKind) -> (r: &'static str)
    ensures
        r@ == type_of(*kind),
{
    match kind {
        TaskEventKind::Started => "Started",
        TaskEventKind::Progress { .. } => "Progress",
        TaskEventKind::PasswordTried { .. } => "PasswordTried",
        TaskEventKind::Route { .. } => "Route",
        TaskEventKind::EncodingDetected { .. } => "EncodingDetected",
        TaskEventKind::EmbeddedArchiveFound { .. } => "EmbeddedArchiveFound",
        TaskEventKind::EmbeddedArchiveSelected { .. } => "EmbeddedArchiveSelected",
        TaskEventKind::EmbeddedArchiveCarved { .. } => "EmbeddedArchiveCarved",
        TaskEventKind::EmbeddedArchiveSelectionRequired { .. } => {
            "EmbeddedArchiveSelectionRequired"
        },
        TaskEventKind::LargeEmbeddedScanConfirmationRequired { .. } => {
            "LargeEmbeddedScanConfirmationRequired"
        },
        TaskEventKind::BusinessContainerSkipped { .. } => "BusinessContainerSkipped",
        TaskEventKind::Decision { .. } => "Decision",
        TaskEventKind::OutputCreated { .. } => "OutputCreated",
        TaskEventKind::Warning { .. } => "Warning",
        TaskEventKind::Failed { .. } => "Failed",
        TaskEventKind::Completed => "Completed",
        TaskEventKind::Finished { .. } => "Finished",
    }
}

/// An event as it is stored.
pub fn describe_event(kind: &TaskEventKind) -> (r: EventDescription)
    ensures
        r.level == level_of(*kind),
        r.event_type@ == type_of(*kind),
        r.message@ == message_of(*kind),
        r.carries_data == !(kind is Started || kind is OutputCreated || kind is Warning
            || kind is Failed || kind is Completed),
{
    let level = match kind {
        TaskEventKind::EmbeddedArchiveSelectionRequired { .. }
        | TaskEventKind::LargeEmbeddedScanConfirmationRequired { .. }
        | TaskEventKind::Warning { .. } => TaskEventLevel::Warn,
        TaskEventKind::Failed { .. } => TaskEventLevel::Error,
        _ => TaskEventLevel::Info,
    };
    let carries_data: bool = match kind {
        TaskEventKind::Started
        | TaskEventKind::OutputCreated { .. }
        | TaskEventKind::Warning { .. }
        | TaskEventKind::Failed { .. }
        | TaskEventKind::Completed => false,
        _ => true,
    };
    EventDescription {
        level,
        event_type: kind_name(kind).to_owned(),
        message: message(kind),
        carries_data,
    }
}

/// That an archive is passed over because an earlier task extracted it.
pub fn reuse_decision(path: &str) -> (r: TaskEventKind)
    ensures
        r matches TaskEventKind::Decision { stage, action, reason, policy_key, source, detail } && {
            &&& stage@ == "reuse"@
            &&& action@ == "skip"@
            &&& reason@ == "already_extracted"@
            &&& policy_key@ == "extraction.reuse.skip_completed"@
            &&& source@ == "history"@
            &&& crate::text::opt_text(detail) == Some(path@)
        },
{
    TaskEventKind::Decision {
        stage: "reuse".to_owned(),
        action: "skip".to_owned(),
        reason: "already_extracted".to_owned(),
        policy_key: "extraction.reuse.skip_completed".to_owned(),
        source: "history".to_owned(),
        detail: Some(path.to_owned()),
    }
}

/// The events that are kept of all that came: the first two, and the last ones.
pub open spec fn kept(came: Seq<TaskEvent>) -> Seq<TaskEvent> {
    if came.len() < RETAINED_EVENTS {
        came
    } else {
        came.take(2) + came.skip(came.len() - (RETAINED_EVENTS - 3))
    }
}

/// How many are not kept.
pub open spec fn omitted(came: Seq<TaskEvent>) -> int {
    if came.len() < RETAINED_EVENTS {
        0
    } else {
        came.len() - (RETAINED_EVENTS - 1)
    }
}

/// The words of the notice.
pub open spec fn notice(n: nat) -> Seq<char> {
    crate::text::decimal(n)
        + " earlier diagnostic events omitted; per-file outcomes are tracked separately"@
}

/// The events of a task that are kept.
#[derive(Debug)]
pub struct EventLog {
    pub events: Vec<TaskEvent>,
    pub dropped: usize,
}

impl EventLog {
    /// The log has been told this, and nothing else.
    pub open spec fn holds(&self, came: Seq<TaskEvent>) -> bool {
        self.events@ == kept(came) && self.dropped == omitted(came)
    }

    /// There is room for the notice, and there are two events before it.
    pub open spec fn wf(&self) -> bool {
        self.events@.len() < RETAINED_EVENTS && (self.dropped > 0 ==> self.events@.len() >= 2)
    }

    pub fn new() -> (r: EventLog)
        ensures
            r.wf(),
            r.holds(Seq::empty()),
    {
        let r = EventLog { events: Vec::new(), dropped: 0 };
        assert(r.events@ =~= Seq::<TaskEvent>::empty());
        r
    }

    /// Takes one more event in.
    pub fn push(&mut self, event: TaskEvent)
        requires
            old(self).wf(),
            old(self).dropped < usize::MAX,
        ensures
            final(self).wf(),
            final(self).events@ == (if old(self).events@.len() == RETAINED_EVENTS - 1 {
                old(self).events@.remove(2)
            } else {
                old(self).events@
            }).push(event),
            final(self).dropped == old(self).dropped + if old(self).events@.len()
                == RETAINED_EVENTS - 1 {
                1int
            } else {
                0int
            },
            forall|came: Seq<TaskEvent>| #[trigger]
                old(self).holds(came) ==> final(self).holds(came.push(event)),
    {
        let ghost was = *self;
        if self.events.len() == RETAINED_EVENTS - 1 {
            self.events.remove(2);
            self.dropped += 1;
        }
        self.events.push(event);
        proof {
            assert forall|came: Seq<TaskEvent>| #[trigger] was.holds(came) implies self.holds(
                came.push(event),
            ) by {
                let now = came.push(event);
                if came.len() < RETAINED_EVENTS - 1 {
                    assert(self.events@ =~= kept(now));
                } else {
                    let last = RETAINED_EVENTS - 3;
                    assert(now.take(2) =~= came.take(2));
                    if came.len() == RETAINED_EVENTS - 1 {
                        assert(came.remove(2).push(event) =~= now.take(2) + now.skip(
                            now.len() - last,
                        ));
                    } else {
                        assert(kept(came).remove(2).push(event) =~= now.take(2) + now.skip(
                            now.len() - last,
                        ));
                    }
                }
            }
        }
    }

    /// What is kept, with a notice behind the first two events where something is missing.
    pub fn snapshot(&self) -> (r: Vec<TaskEvent>)
        requires
            self.wf(),
        ensures
            self.dropped == 0 ==> r@ == self.events@,
            self.dropped > 0 ==> {
                &&& r@.len() == self.events@.len() + 1
                &&& r@.remove(2) == self.events@
                &&& r@[2].task_id == self.events@[0].task_id
                &&& (r@[2].kind matches TaskEventKind::Warning { message } && message@ == notice(
                    self.dropped as nat,
                ))
            },
    {
        let mut events: Vec<TaskEvent> = Vec::new();
        let mut i: usize = 0;
        while i < self.events.len()
            invariant
                i <= self.events@.len(),
                events@ == self.events@.take(i as int),
            decreases self.events.len() - i,
        {
            events.push(self.events[i].clone());
            i += 1;
            assert(self.events@.take(i as int) =~= self.events@.take(i - 1).push(
                self.events@[i - 1],
            ));
        }
        assert(events@ =~= self.events@);
        if self.dropped > 0 {
            let mut message: String = String::new();
            push_decimal(&mut message, self.dropped as u64);
            message.append(
                " earlier diagnostic events omitted; per-file outcomes are tracked separately",
            );
            assert(message@ =~= notice(self.dropped as nat));
            let task_id: String = self.events[0].task_id.clone();
            let ghost before = events@;
            events.insert(2, TaskEvent { task_id, kind: TaskEventKind::Warning { message } });
            assert(events@.remove(2) =~= before);
        }
        events
    }
}

/// Where the events of a task go: into its log, and to the listener, where there is one.
#[derive(Debug)]
pub struct EventSink {
    pub log: EventLog,
    pub listening: bool,
    pub untold: Vec<TaskEvent>,
}

impl EventSink {
    /// These events came, and the listener has been told those.
    pub open spec fn holds(&self, came: Seq<TaskEvent>, told: Seq<TaskEvent>) -> bool {
        &&& self.log.holds(came)
        &&& if self.listening {
            told + self.untold@ == came
        } else {
            told.len() == 0 && self.untold@.len() == 0
        }
    }

    pub fn new(listening: bool) -> (r: EventSink)
        ensures
            r.log.wf(),
            r.listening == listening,
            r.untold@.len() == 0,
            r.holds(Seq::empty(), Seq::empty()),
    {
        let r = EventSink { log: EventLog::new(), listening, untold: Vec::new() };
        assert(Seq::<TaskEvent>::empty() + r.untold@ =~= Seq::<TaskEvent>::empty());
        r
    }

    /// Takes one more event in, for the log and for the listener.
    pub fn push(&mut self, event: TaskEvent)
        requires
            old(self).log.wf(),
            old(self).log.dropped < usize::MAX,
        ensures
            final(self).log.wf(),
            final(self).listening == old(self).listening,
            final(self).log.events@ == (if old(self).log.events@.len() == RETAINED_EVENTS - 1 {
                old(self).log.events@.remove(2)
            } else {
                old(self).log.events@
            }).push(event),
            final(self).log.dropped == old(self).log.dropped + if old(self).log.events@.len()
                == RETAINED_EVENTS - 1 {
                1int
            } else {
                0int
            },
            final(self).untold@ == (if old(self).listening {
                old(self).untold@.push(event)
            } else {
                old(self).untold@
            }),
            forall|came: Seq<TaskEvent>, told: Seq<TaskEvent>| #[trigger]
                old(self).holds(came, told) ==> final(self).holds(came.push(event), told),
    {
        let ghost was = *self;
        if self.listening {
            self.untold.push(event.clone());
        }
        self.log.push(event);
        proof {
            assert forall|came: Seq<TaskEvent>, told: Seq<TaskEvent>| #[trigger]
                was.holds(came, told) implies self.holds(came.push(event), told) by {
                assert(was.log.holds(came));
                if self.listening {
                    assert(told + self.untold@ =~= (told + was.untold@).push(event));
                }
            }
        }
    }

    /// What the listener has to be told now, in the order in which it came.
    pub fn tell(&mut self) -> (r: Vec<TaskEvent>)
        ensures
            r@ == old(self).untold@,
            final(self).log == old(self).log,
            final(self).listening == old(self).listening,
            final(self).untold@.len() == 0,
            forall|came: Seq<TaskEvent>, told: Seq<TaskEvent>| #[trigger]
                old(self).holds(came, told) ==> final(self).holds(came, told + r@),
    {
        let ghost was = *self;
        let mut r: Vec<TaskEvent> = Vec::new();
        std::mem::swap(&mut self.untold, &mut r);
        proof {
            assert forall|came: Seq<TaskEvent>, told: Seq<TaskEvent>| #[trigger]
                was.holds(came, told) implies self.holds(came, told + r@) by {
                assert((told + r@) + self.untold@ =~= told + was.untold@);
            }
        }
        r
    }

    /// What the log keeps.
    pub fn snapshot(&self) -> (r: Vec<TaskEvent>)
        requires
            self.log.wf(),
        ensures
            self.log.dropped == 0 ==> r@ == self.log.events@,
            self.log.dropped > 0 ==> {
                &&& r@.len() == self.log.events@.len() + 1
                &&& r@.remove(2) == self.log.events@
                &&& r@[2].task_id == self.log.events@[0].task_id
                &&& (r@[2].kind matches TaskEventKind::Warning { message } && message@ == notice(
                    self.log.dropped as nat,
                ))
            },
    {
        self.log.snapshot()
    }
}

/// A listener that has been told all it has to be told knows every event that came, once and in
/// its order, also those that the log does not keep.
pub proof fn listener_is_told_everything(sink: EventSink, came: Seq<TaskEvent>, told: Seq<TaskEvent>)
    requires
        sink.holds(came, told),
        sink.listening,
        sink.untold@.len() == 0,
    ensures
        told == came,
        told.len() == sink.log.events@.len() + sink.log.dropped,
{
    assert(told + sink.untold@ =~= told);
}

/// However many events come, the first two and the last ones are kept, and no more than the
/// limit with the notice.
pub proof fn flood_is_bounded(log: EventLog, came: Seq<TaskEvent>, k: int)
    requires
        log.holds(came),
        RETAINED_EVENTS <= came.len(),
        0 <= k < RETAINED_EVENTS - 3,
    ensures
        log.events@.len() + 1 == RETAINED_EVENTS,
        log.events@[0] == came[0],
        log.events@[1] == came[1],
        log.events@[RETAINED_EVENTS - 2 - k] == came[came.len() - 1 - k],
        log.dropped + log.events@.len() == came.len(),
{
}

/// A log that is not full keeps everything.
pub proof fn few_events_are_kept(log: EventLog, came: Seq<TaskEvent>)
    requires
        log.holds(came),
        came.len() < RETAINED_EVENTS,
    ensures
        log.events@ == came,
        log.dropped == 0,
{
}

/// Only a failure is an error, and only what the user should look at is a warning.
pub proof fn failures_are_errors(kind: TaskEventKind)
    ensures
        level_of(kind) == TaskEventLevel::Error <==> kind is Failed,
        level_of(kind) == TaskEventLevel::Warn <==> kind is Warning || kind
            is EmbeddedArchiveSelectionRequired || kind is LargeEmbeddedScanConfirmationRequired,
        kind matches TaskEventKind::Failed { error } ==> message_of(kind) == error@,
        kind matches TaskEventKind::Warning { message } ==> message_of(kind) == message@,
        kind matches TaskEventKind::OutputCreated { path } ==> message_of(kind) == path@,
        kind matches TaskEventKind::Finished { status } ==> message_of(kind) == status@,
{
}

/// Every event is kept or counted as omitted, and the first and the last one are always kept.
pub proof fn events_are_kept_or_counted(came: Seq<TaskEvent>)
    ensures
        kept(came).len() + omitted(came) == came.len(),
        came.len() > 0 ==> kept(came)[0] == came[0] && kept(came).last() == came.last(),
        omitted(came) > 0 ==> kept(came).len() == RETAINED_EVENTS - 1,
        omitted(came) == 0 ==> kept(came) == came,
        kept(came).len() < RETAINED_EVENTS,
{
    if came.len() == RETAINED_EVENTS - 1 {
        assert(kept(came) =~= came);
    }
}

} // verus!
