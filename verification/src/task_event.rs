//! The rows of the events.

use vstd::prelude::*;
use crate::events::TaskEventLevel;
use crate::order::{keep_rows, rank, Ranked};
use crate::task_execution::StageEvent;
use crate::text::{is_text_before, same_text};

verus! {

/// An event to keep.
#[derive(Debug)]
pub struct NewTaskEvent {
    pub task_id: String,
    pub level: TaskEventLevel,
    pub event_type: String,
    pub message: String,
    pub data_json: Option<String>,
    pub created_at: String,
}

/// Where in the course of a node an event stands, and its place among such events of the task.
#[derive(Debug, PartialEq, Eq)]
pub struct StageNote {
    pub node_id: String,
    pub stage: String,
    pub attempt_id: Option<String>,
    pub sequence: i64,
}

/// An event that is kept.
#[derive(Debug, PartialEq, Eq)]
pub struct TaskEventRecord {
    pub id: i64,
    pub task_id: String,
    pub level: TaskEventLevel,
    pub event_type: String,
    pub message: String,
    pub data_json: Option<String>,
    pub stage: Option<StageNote>,
    pub created_at: String,
}

impl TaskEventRecord {
    /// The row of an event.
    pub open spec fn of(id: i64, new: NewTaskEvent) -> TaskEventRecord {
        TaskEventRecord {
            id,
            task_id: new.task_id,
            level: new.level,
            event_type: new.event_type,
            message: new.message,
            data_json: new.data_json,
            stage: None,
            created_at: new.created_at,
        }
    }

    /// This is the row of a change of a node: it says at which stage the node came to which state.
    pub open spec fn is_stage(
        self,
        id: i64,
        task_id: Seq<char>,
        event: StageEvent,
        sequence: i64,
        at: String,
    ) -> bool {
        &&& self.id == id
        &&& self.task_id@ == task_id
        &&& self.level == TaskEventLevel::Info
        &&& self.event_type@ == "stage"@
        &&& self.message == event.state
        &&& self.data_json is None
        &&& self.stage == Some(
            StageNote {
                node_id: event.node_id,
                stage: event.stage,
                attempt_id: event.attempt_id,
                sequence,
            },
        )
        &&& self.created_at == at
    }

    /// The place among the changes of the task's nodes, where the row is one of them.
    pub open spec fn place(self) -> Option<i64> {
        match self.stage {
            Some(note) => Some(note.sequence),
            None => None,
        }
    }
}

/// The greatest place that a change of one of the task's nodes has.
pub open spec fn last_place(rows: Seq<TaskEventRecord>, task_id: Seq<char>) -> Option<i64>
    decreases rows.len(),
{
    if rows.len() == 0 {
        None
    } else {
        let before = last_place(rows.drop_last(), task_id);
        match (rows.last().place(), before) {
            (Some(n), None) if rows.last().task_id@ == task_id => Some(n),
            (Some(n), Some(m)) if rows.last().task_id@ == task_id && n > m => Some(n),
            _ => before,
        }
    }
}

/// The place that the next change of one of the task's nodes takes.
pub open spec fn next_place(rows: Seq<TaskEventRecord>, task_id: Seq<char>) -> int {
    match last_place(rows, task_id) {
        Some(n) => n + 1,
        None => 1,
    }
}

/// The earlier event goes first, and of two at the same time the one that was noted first.
impl Ranked for TaskEventRecord {
    open spec fn precedes(&self, other: &TaskEventRecord) -> bool {
        crate::text::text_before(self.created_at@, other.created_at@) || (self.created_at@
            == other.created_at@ && self.id < other.id)
    }

    fn comes_before(&self, other: &TaskEventRecord) -> (r: bool) {
        is_text_before(self.created_at.as_str(), other.created_at.as_str()) || (same_text(
            self.created_at.as_str(),
            other.created_at.as_str(),
        ) && self.id < other.id)
    }

    proof fn order_is_strict(a: &TaskEventRecord, b: &TaskEventRecord, c: &TaskEventRecord) {
        crate::text::texts_are_in_line(a.created_at@, a.created_at@, a.created_at@);
        crate::text::texts_are_in_line(a.created_at@, b.created_at@, c.created_at@);
        crate::text::texts_are_in_line(a.created_at@, c.created_at@, b.created_at@);
        crate::text::texts_are_in_line(b.created_at@, c.created_at@, a.created_at@);
        crate::text::texts_are_in_line(c.created_at@, a.created_at@, b.created_at@);
    }
}

/// These are the rows of the one task.
pub open spec fn of_task(rows: Seq<TaskEventRecord>, task_id: Seq<char>) -> Seq<bool> {
    rows.map_values(|e: TaskEventRecord| e.task_id@ == task_id)
}

/// The rows of all events.
#[derive(Debug)]
pub struct TaskEventRepository {
    pub rows: Vec<TaskEventRecord>,
    pub last_id: i64,
}

impl TaskEventRepository {
    /// No row has a number above the last one that was given out.
    pub open spec fn is_numbered(&self) -> bool {
        forall|k: int| 0 <= k < self.rows@.len() ==> (#[trigger] self.rows@[k]).id <= self.last_id
    }

    pub fn new() -> (r: TaskEventRepository)
        ensures
            r.is_numbered(),
            r.rows@.len() == 0,
            r.last_id == 0,
    {
        TaskEventRepository { rows: Vec::new(), last_id: 0 }
    }

    /// Keeps an event, and gives its number.
    pub fn insert(&mut self, event: NewTaskEvent) -> (r: i64)
        requires
            old(self).last_id < i64::MAX,
        ensures
            r == old(self).last_id + 1,
            final(self).last_id == r,
            final(self).rows@ == old(self).rows@.push(TaskEventRecord::of(r, event)),
            old(self).is_numbered() ==> final(self).is_numbered(),
    {
        let id: i64 = self.last_id + 1;
        self.last_id = id;
        self.rows.push(
            TaskEventRecord {
                id,
                task_id: event.task_id,
                level: event.level,
                event_type: event.event_type,
                message: event.message,
                data_json: event.data_json,
                stage: None,
                created_at: event.created_at,
            },
        );
        id
    }

    /// The greatest place that a change of one of the task's nodes has.
    pub fn last_stage(&self, task_id: &str) -> (r: Option<i64>)
        ensures
            r == last_place(self.rows@, task_id@),
    {
        let mut last: Option<i64> = None;
        let mut i: usize = 0;
        assert(self.rows@.take(0).len() == 0);
        while i < self.rows.len()
            invariant
                i <= self.rows@.len(),
                last == last_place(self.rows@.take(i as int), task_id@),
            decreases self.rows.len() - i,
        {
            let row = &self.rows[i];
            assert(self.rows@.take(i + 1).drop_last() =~= self.rows@.take(i as int));
            assert(self.rows@.take(i + 1).last() == self.rows@[i as int]);
            if same_text(row.task_id.as_str(), task_id) {
                if let Some(note) = &row.stage {
                    let greater = match last {
                        Some(m) => note.sequence > m,
                        None => true,
                    };
                    if greater {
                        last = Some(note.sequence);
                    }
                }
            }
            i += 1;
        }
        assert(self.rows@.take(self.rows@.len() as int) =~= self.rows@);
        last
    }

    /// Keeps a change of a node, in the place behind all such changes of the task, and gives its
    /// number.
    pub fn insert_stage(&mut self, task_id: &str, event: StageEvent, at: String) -> (r: i64)
        requires
            old(self).last_id < i64::MAX,
            next_place(old(self).rows@, task_id@) <= i64::MAX,
        ensures
            r == old(self).last_id + 1,
            final(self).last_id == r,
            final(self).rows@.len() == old(self).rows@.len() + 1,
            final(self).rows@.drop_last() == old(self).rows@,
            final(self).rows@.last().is_stage(
                r,
                task_id@,
                event,
                next_place(old(self).rows@, task_id@) as i64,
                at,
            ),
            old(self).is_numbered() ==> final(self).is_numbered(),
    {
        let sequence: i64 = match self.last_stage(task_id) {
            Some(n) => n + 1,
            None => 1,
        };
        let id: i64 = self.last_id + 1;
        let row = TaskEventRecord {
            id,
            task_id: task_id.to_string(),
            level: TaskEventLevel::Info,
            event_type: "stage".to_string(),
            message: event.state,
            data_json: None,
            stage: Some(
                StageNote {
                    node_id: event.node_id,
                    stage: event.stage,
                    attempt_id: event.attempt_id,
                    sequence,
                },
            ),
            created_at: at,
        };
        self.last_id = id;
        self.rows.push(row);
        assert(self.rows@.drop_last() =~= old(self).rows@);
        id
    }

    /// Drops what belongs to a task, together with the task. The rest stays in its order, and no
    /// number is given out again.
    pub fn drop_task(&mut self, task_id: &str)
        ensures
            final(self).rows@ == old(self).rows@.filter(|e: TaskEventRecord| e.task_id@ != task_id@),
            forall|k: int|
                0 <= k < final(self).rows@.len() ==> (#[trigger] final(self).rows@[k]).task_id@
                    != task_id@,
            final(self).last_id == old(self).last_id,
            old(self).is_numbered() ==> final(self).is_numbered(),
    {
        let ghost before = self.rows@;
        let mut others: Vec<bool> = Vec::new();
        let mut i: usize = 0;
        while i < self.rows.len()
            invariant
                i <= self.rows@.len(),
                others@.len() == i,
                forall|k: int|
                    0 <= k < i ==> #[trigger] others@[k] == (self.rows@[k].task_id@ != task_id@),
            decreases self.rows.len() - i,
        {
            others.push(!same_text(self.rows[i].task_id.as_str(), task_id));
            i += 1;
        }
        keep_rows(&mut self.rows, &others);
        proof {
            let keep = |e: TaskEventRecord| e.task_id@ != task_id@;
            assert(self.rows@ == before.filter(keep));
            crate::order::lemma_kept_rows(before, keep);
            assert forall|k: int| 0 <= k < self.rows@.len() && old(self).is_numbered() implies (
            #[trigger] self.rows@[k]).id <= self.last_id by {
                let j = choose|j: int| 0 <= j < before.len() && before[j] == before.filter(keep)[k];
                assert(old(self).rows@[j].id <= old(self).last_id);
            }
        }
    }

    /// The events of a task, the oldest first.
    pub fn list_by_task(&self, task_id: &str) -> (r: Vec<usize>)
        ensures
            crate::order::ranks(r@, self.rows@, of_task(self.rows@, task_id@)),
    {
        let mut wanted: Vec<bool> = Vec::new();
        let mut i: usize = 0;
        while i < self.rows.len()
            invariant
                i <= self.rows@.len(),
                wanted@.len() == i,
                forall|k: int|
                    0 <= k < i ==> #[trigger] wanted@[k] == (self.rows@[k].task_id@ == task_id@),
            decreases self.rows.len() - i,
        {
            wanted.push(same_text(self.rows[i].task_id.as_str(), task_id));
            i += 1;
        }
        assert(wanted@ =~= of_task(self.rows@, task_id@));
        rank(&self.rows, &wanted)
    }
}

proof fn lemma_last_place(rows: Seq<TaskEventRecord>, task_id: Seq<char>)
    ensures
        forall|k: int|
            0 <= k < rows.len() && (#[trigger] rows[k]).task_id@ == task_id ==> (
            rows[k].place() matches Some(n) ==> (last_place(rows, task_id) matches Some(m) && n <= m)),
    decreases rows.len(),
{
    if rows.len() > 0 {
        let rest = rows.drop_last();
        lemma_last_place(rest, task_id);
        assert forall|k: int| 0 <= k < rows.len() && (#[trigger] rows[k]).task_id@ == task_id implies (
        rows[k].place() matches Some(n) ==> (last_place(rows, task_id) matches Some(m) && n <= m)) by {
            if k < rest.len() {
                assert(rest[k] == rows[k]);
            }
        }
    }
}

/// A change of a node is kept behind every earlier change of a node of its task, and the places
/// of every other task's changes stay as they were.
pub proof fn changes_are_counted_up(
    before: Seq<TaskEventRecord>,
    row: TaskEventRecord,
    other: Seq<char>,
)
    requires
        row.stage is Some,
        row.stage->0.sequence == next_place(before, row.task_id@),
        other != row.task_id@,
    ensures
        forall|k: int|
            0 <= k < before.len() && (#[trigger] before[k]).task_id@ == row.task_id@ ==> (
            before[k].place() matches Some(n) ==> n < row.stage->0.sequence),
        last_place(before.push(row), row.task_id@) == row.place(),
        next_place(before.push(row), row.task_id@) == next_place(before, row.task_id@) + 1,
        last_place(before.push(row), other) == last_place(before, other),
{
    lemma_last_place(before, row.task_id@);
    assert(before.push(row).drop_last() =~= before);
}

/// An event that is kept is listed among those of its task, and the list of every other task
/// stays as it was.
pub proof fn kept_event_is_listed(
    before: Seq<TaskEventRecord>,
    event: TaskEventRecord,
    places: Seq<usize>,
    other: Seq<char>,
    others: Seq<usize>,
)
    requires
        crate::order::ranks(places, before.push(event), of_task(before.push(event), event.task_id@)),
        other != event.task_id@,
        crate::order::ranks(others, before, of_task(before, other)),
    ensures
        exists|i: int| 0 <= i < places.len() && #[trigger] places[i] == before.len(),
        crate::order::ranks(others, before.push(event), of_task(before.push(event), other)),
{
    crate::order::added_row_is_listed(
        places,
        before,
        event,
        of_task(before.push(event), event.task_id@),
    );
    assert(of_task(before.push(event), event.task_id@).last());
    crate::order::unwanted_row_changes_nothing(others, before, event, of_task(before, other));
    assert(of_task(before.push(event), other) =~= of_task(before, other).push(false));
}

/// Events are listed as they came: none that came later stands before an earlier one, and of two
/// at one time the one that was kept first comes first.
pub proof fn earlier_events_come_first(
    rows: Seq<TaskEventRecord>,
    task_id: Seq<char>,
    places: Seq<usize>,
    i: int,
    j: int,
)
    requires
        crate::order::ranks(places, rows, of_task(rows, task_id)),
        0 <= i < j < places.len(),
    ensures
        !crate::text::text_before(
            rows[places[j] as int].created_at@,
            rows[places[i] as int].created_at@,
        ),
        rows[places[i] as int].created_at@ == rows[places[j] as int].created_at@
            ==> rows[places[i] as int].id <= rows[places[j] as int].id,
        rows[places[i] as int].task_id@ == task_id,
        rows[places[j] as int].task_id@ == task_id,
{
    assert(of_task(rows, task_id)[places[i] as int]);
    assert(of_task(rows, task_id)[places[j] as int]);
    assert(!rows[places[j] as int].precedes(&rows[places[i] as int]));
}

} // verus!
