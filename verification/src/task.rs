//! The rows of the tasks.

use vstd::prelude::*;
use crate::order::{limit_places, rank, Ranked};
use crate::task_execution::{StoreError, TaskHead, TaskPhase};
use crate::text::{copy_opt, is_text_before, same_text};

verus! {

/// How far a task has come, as its row says.
#[derive(Clone, Copy, Debug, PartialEq, Eq, Structural)]
pub enum TaskStatus {
    Running,
    Completed,
    Partial,
    Failed,
    Cancelled,
}

impl TaskStatus {
    /// The word that is stored for the status.
    pub open spec fn text(self) -> Seq<char> {
        match self {
            TaskStatus::Running => "running"@,
            TaskStatus::Completed => "completed"@,
            TaskStatus::Partial => "partial"@,
            TaskStatus::Failed => "failed"@,
            TaskStatus::Cancelled => "cancelled"@,
        }
    }

    pub fn as_str(self) -> (r: &'static str)
        ensures
            r@ == self.text(),
    {
        match self {
            TaskStatus::Running => "running",
            TaskStatus::Completed => "completed",
            TaskStatus::Partial => "partial",
            TaskStatus::Failed => "failed",
            TaskStatus::Cancelled => "cancelled",
        }
    }

    /// The status as a task's row holds it.
    pub open spec fn stored(self) -> TaskPhase {
        match self {
            TaskStatus::Running => TaskPhase::Running,
            TaskStatus::Completed => TaskPhase::Completed,
            TaskStatus::Partial => TaskPhase::Partial,
            TaskStatus::Failed => TaskPhase::Failed,
            TaskStatus::Cancelled => TaskPhase::Cancelled,
        }
    }

    pub fn phase(self) -> (r: TaskPhase)
        ensures
            r == self.stored(),
            r.text() == self.text(),
    {
        match self {
            TaskStatus::Running => TaskPhase::Running,
            TaskStatus::Completed => TaskPhase::Completed,
            TaskStatus::Partial => TaskPhase::Partial,
            TaskStatus::Failed => TaskPhase::Failed,
            TaskStatus::Cancelled => TaskPhase::Cancelled,
        }
    }
}

/// A task that begins.
#[derive(Debug)]
pub struct NewTask {
    pub id: String,
    pub kind: String,
    pub input_summary: String,
    pub output_path: Option<String>,
    pub started_at: String,
}

/// What is noted about a task later on. What is not given stays as it is.
#[derive(Debug)]
pub struct TaskFinish {
    pub status: Option<TaskStatus>,
    pub finished_at: Option<String>,
    pub error_code: Option<String>,
    pub error_message: Option<String>,
    pub password_attempts: Option<i64>,
    pub encoding_selected: Option<String>,
    pub embedded_found: Option<i64>,
    pub output_path: Option<String>,
}

impl Default for TaskFinish {
    fn default() -> (r: TaskFinish)
        ensures
            r == (TaskFinish {
                status: None,
                finished_at: None,
                error_code: None,
                error_message: None,
                password_attempts: None,
                encoding_selected: None,
                embedded_found: None,
                output_path: None,
            }),
    {
        TaskFinish {
            status: None,
            finished_at: None,
            error_code: None,
            error_message: None,
            password_attempts: None,
            encoding_selected: None,
            embedded_found: None,
            output_path: None,
        }
    }
}

/// A task's row.
#[derive(Debug, PartialEq, Eq)]
pub struct TaskRecord {
    pub id: String,
    pub kind: String,
    pub status: TaskPhase,
    pub input_summary: String,
    pub output_path: Option<String>,
    pub started_at: String,
    pub finished_at: Option<String>,
    pub error_code: Option<String>,
    pub error_message: Option<String>,
    pub password_attempts: i64,
    pub encoding_selected: Option<String>,
    pub embedded_found: i64,
}

/// The new value, where there is one.
pub open spec fn updated<T>(new: Option<T>, old: T) -> T {
    match new {
        Some(v) => v,
        None => old,
    }
}

/// The new value, where there is one, in a column that may be empty.
pub open spec fn overlaid<T>(new: Option<T>, old: Option<T>) -> Option<T> {
    match new {
        Some(v) => Some(v),
        None => old,
    }
}

impl TaskRecord {
    /// The row of a task that begins.
    pub open spec fn begun(new: NewTask) -> TaskRecord {
        TaskRecord {
            id: new.id,
            kind: new.kind,
            status: TaskPhase::Running,
            input_summary: new.input_summary,
            output_path: new.output_path,
            started_at: new.started_at,
            finished_at: None,
            error_code: None,
            error_message: None,
            password_attempts: 0,
            encoding_selected: None,
            embedded_found: 0,
        }
    }

    /// This is the row of a task that was taken in to be executed.
    pub open spec fn is_first(self, head: TaskHead, at: Seq<char>) -> bool {
        &&& self.id == head.id
        &&& self.kind == head.kind
        &&& self.status == head.phase
        &&& self.input_summary@.len() == 0
        &&& self.output_path == head.output_path
        &&& self.started_at == head.started_at
        &&& crate::text::opt_text(self.finished_at) == (if head.finished {
            Some(at)
        } else {
            None
        })
        &&& self.error_code is None
        &&& self.error_message is None
        &&& self.password_attempts == 0
        &&& self.encoding_selected is None
        &&& self.embedded_found == 0
    }

    /// The row follows the execution: it says how far the task has come, and a task that has
    /// ended keeps the time at which it did first.
    pub open spec fn follows(self, new: TaskRecord, head: TaskHead, at: Seq<char>) -> bool {
        &&& new == (TaskRecord { status: head.phase, finished_at: new.finished_at, ..self })
        &&& crate::text::opt_text(new.finished_at) == (if !head.finished {
            None
        } else if self.finished_at is Some {
            crate::text::opt_text(self.finished_at)
        } else {
            Some(at)
        })
    }

    /// The row with what was noted.
    pub open spec fn noted(self, f: TaskFinish) -> TaskRecord {
        TaskRecord {
            status: match f.status {
                Some(status) => status.stored(),
                None => self.status,
            },
            finished_at: overlaid(f.finished_at, self.finished_at),
            error_code: overlaid(f.error_code, self.error_code),
            error_message: overlaid(f.error_message, self.error_message),
            password_attempts: updated(f.password_attempts, self.password_attempts),
            encoding_selected: overlaid(f.encoding_selected, self.encoding_selected),
            embedded_found: updated(f.embedded_found, self.embedded_found),
            output_path: overlaid(f.output_path, self.output_path),
            ..self
        }
    }

    fn note(self, f: TaskFinish) -> (r: TaskRecord)
        ensures
            r == self.noted(f),
    {
        let mut row = self;
        if let Some(status) = f.status {
            row.status = status.phase();
        }
        if f.finished_at.is_some() {
            row.finished_at = f.finished_at;
        }
        if f.error_code.is_some() {
            row.error_code = f.error_code;
        }
        if f.error_message.is_some() {
            row.error_message = f.error_message;
        }
        if let Some(attempts) = f.password_attempts {
            row.password_attempts = attempts;
        }
        if f.encoding_selected.is_some() {
            row.encoding_selected = f.encoding_selected;
        }
        if let Some(count) = f.embedded_found {
            row.embedded_found = count;
        }
        if f.output_path.is_some() {
            row.output_path = f.output_path;
        }
        row
    }
}

/// The task that began later goes first, and of two that began at once the one with the later
/// name.
impl Ranked for TaskRecord {
    open spec fn precedes(&self, other: &TaskRecord) -> bool {
        crate::text::text_before(other.started_at@, self.started_at@) || (self.started_at@
            == other.started_at@ && crate::text::text_before(other.id@, self.id@))
    }

    fn comes_before(&self, other: &TaskRecord) -> (r: bool) {
        is_text_before(other.started_at.as_str(), self.started_at.as_str()) || (same_text(
            self.started_at.as_str(),
            other.started_at.as_str(),
        ) && is_text_before(other.id.as_str(), self.id.as_str()))
    }

    proof fn order_is_strict(a: &TaskRecord, b: &TaskRecord, c: &TaskRecord) {
        crate::text::texts_are_in_line(a.started_at@, a.started_at@, a.started_at@);
        crate::text::texts_are_in_line(c.started_at@, b.started_at@, a.started_at@);
        crate::text::texts_are_in_line(b.started_at@, c.started_at@, a.started_at@);
        crate::text::texts_are_in_line(b.started_at@, a.started_at@, c.started_at@);
        crate::text::texts_are_in_line(c.started_at@, a.started_at@, b.started_at@);
        crate::text::texts_are_in_line(a.id@, a.id@, a.id@);
        crate::text::texts_are_in_line(c.id@, b.id@, a.id@);
        crate::text::texts_are_in_line(b.id@, c.id@, a.id@);
        crate::text::texts_are_in_line(c.id@, a.id@, b.id@);
    }
}

/// The rows of all tasks.
#[derive(Debug)]
pub struct TaskRepository {
    pub rows: Vec<TaskRecord>,
}

impl TaskRepository {
    /// No two tasks have one name.
    pub open spec fn wf(&self) -> bool {
        forall|i: int, j: int|
            0 <= i < j < self.rows@.len() ==> (#[trigger] self.rows@[i]).id@ != (
            #[trigger] self.rows@[j]).id@
    }

    /// The row at `k` is that of the task with this name.
    pub open spec fn is_at(&self, k: int, id: Seq<char>) -> bool {
        0 <= k < self.rows@.len() && self.rows@[k].id@ == id
    }

    pub fn new() -> (r: TaskRepository)
        ensures
            r.wf(),
            r.rows@.len() == 0,
    {
        TaskRepository { rows: Vec::new() }
    }

    /// The rows say how far the execution has come, and nothing else of them is new.
    pub open spec fn with_execution(&self, new: TaskRepository, head: TaskHead, at: Seq<char>) -> bool {
        &&& forall|k: int| #[trigger]
            self.is_at(k, head.id@) ==> new.rows@ == self.rows@.update(k, new.rows@[k])
                && self.rows@[k].follows(new.rows@[k], head, at)
        &&& !self.has(head.id@) ==> new.rows@.len() == self.rows@.len() + 1 && new.rows@.drop_last()
            == self.rows@ && new.rows@.last().is_first(head, at)
    }

    /// Notes how far an execution has come.
    pub fn note_execution(&mut self, head: &TaskHead, at: &str)
        requires
            old(self).wf(),
        ensures
            final(self).wf(),
            final(self).has(head.id@),
            old(self).with_execution(*final(self), *head, at@),
    {
        let ghost was = *self;
        match self.find_by_id(head.id.as_str()) {
            Some(k) => {
                let mut row: TaskRecord = self.rows.remove(k);
                let ghost before = row;
                row.status = head.phase;
                if !head.finished {
                    row.finished_at = None;
                } else if row.finished_at.is_none() {
                    row.finished_at = Some(at.to_string());
                }
                self.rows.insert(k, row);
                assert(self.rows@ =~= was.rows@.update(k as int, row));
                assert(self.is_at(k as int, head.id@));
                proof {
                    assert forall|i: int, j: int| 0 <= i < j < self.rows@.len() implies (
                    #[trigger] self.rows@[i]).id@ != (#[trigger] self.rows@[j]).id@ by {
                        assert(was.rows@[i].id@ != was.rows@[j].id@);
                    }
                    assert forall|i: int| #[trigger] was.is_at(i, head.id@) implies i == k by {
                        if i < k {
                            assert(was.rows@[i].id@ != was.rows@[k as int].id@);
                        } else if k < i {
                            assert(was.rows@[k as int].id@ != was.rows@[i].id@);
                        }
                    }
                    assert(was.rows@[k as int].follows(row, *head, at@));
                }
            },
            None => {
                let finished_at = if head.finished {
                    Some(at.to_string())
                } else {
                    None
                };
                let row = TaskRecord {
                    id: head.id.clone(),
                    kind: head.kind.clone(),
                    status: head.phase,
                    input_summary: String::new(),
                    output_path: copy_opt(&head.output_path),
                    started_at: head.started_at.clone(),
                    finished_at,
                    error_code: None,
                    error_message: None,
                    password_attempts: 0,
                    encoding_selected: None,
                    embedded_found: 0,
                };
                self.rows.push(row);
                assert(self.rows@.drop_last() =~= was.rows@);
                assert(self.is_at(was.rows@.len() as int, head.id@));
                proof {
                    assert forall|i: int, j: int| 0 <= i < j < self.rows@.len() implies (
                    #[trigger] self.rows@[i]).id@ != (#[trigger] self.rows@[j]).id@ by {
                        assert(!was.is_at(i, head.id@));
                    }
                }
            },
        }
    }

    pub fn find_by_id(&self, id: &str) -> (r: Option<usize>)
        ensures
            match r {
                Some(k) => self.is_at(k as int, id@),
                None => forall|k: int| !#[trigger] self.is_at(k, id@),
            },
    {
        let mut i: usize = 0;
        while i < self.rows.len()
            invariant
                i <= self.rows@.len(),
                forall|k: int| k < i ==> !#[trigger] self.is_at(k, id@),
            decreases self.rows.len() - i,
        {
            if same_text(self.rows[i].id.as_str(), id) {
                return Some(i);
            }
            i += 1;
        }
        None
    }

    /// Notes that a task begins.
    pub fn insert(&mut self, new_task: NewTask) -> (r: Result<(), StoreError>)
        requires
            old(self).wf(),
        ensures
            final(self).wf(),
            match r {
                Ok(()) => {
                    &&& forall|k: int| !#[trigger] old(self).is_at(k, new_task.id@)
                    &&& final(self).rows@ == old(self).rows@.push(TaskRecord::begun(new_task))
                },
                Err(e) => {
                    &&& e == StoreError::DuplicateTask
                    &&& exists|k: int| #[trigger] old(self).is_at(k, new_task.id@)
                    &&& *final(self) == *old(self)
                },
            },
    {
        if let Some(k) = self.find_by_id(new_task.id.as_str()) {
            assert(old(self).is_at(k as int, new_task.id@));
            return Err(StoreError::DuplicateTask);
        }
        let ghost was = *self;
        let row = TaskRecord {
            id: new_task.id,
            kind: new_task.kind,
            status: TaskPhase::Running,
            input_summary: new_task.input_summary,
            output_path: new_task.output_path,
            started_at: new_task.started_at,
            finished_at: None,
            error_code: None,
            error_message: None,
            password_attempts: 0,
            encoding_selected: None,
            embedded_found: 0,
        };
        self.rows.push(row);
        proof {
            assert forall|i: int, j: int| 0 <= i < j < self.rows@.len() implies (
            #[trigger] self.rows@[i]).id@ != (#[trigger] self.rows@[j]).id@ by {
                if j == was.rows@.len() {
                    assert(!was.is_at(i, new_task.id@));
                }
            }
        }
        Ok(())
    }

    /// Takes the row of a task out.
    pub fn remove(&mut self, id: &str)
        requires
            old(self).wf(),
        ensures
            final(self).wf(),
            final(self).rows@ == old(self).rows@.filter(|t: TaskRecord| t.id@ != id@),
            forall|k: int| !#[trigger] final(self).is_at(k, id@),
            forall|other: Seq<char>| other != id@ ==> (#[trigger] final(self).has(other)
                == old(self).has(other)),
    {
        let ghost was = *self;
        let ghost other = |t: TaskRecord| t.id@ != id@;
        match self.find_by_id(id) {
            Some(k) => {
                let _ = self.rows.remove(k);
                proof {
                    lemma_one_out(was, *self, k as int, id@, other);
                }
            },
            None => {
                proof {
                    assert forall|i: int| 0 <= i < was.rows@.len() implies other(
                        #[trigger] was.rows@[i],
                    ) by {
                        assert(!was.is_at(i, id@));
                    }
                    lemma_all_stay(was.rows@, other);
                }
            },
        }
    }

    /// There is a task with this name.
    pub open spec fn has(&self, id: Seq<char>) -> bool {
        exists|k: int| #[trigger] self.is_at(k, id)
    }

    /// Whether there is a task with this name.
    pub fn contains(&self, id: &str) -> (r: bool)
        ensures
            r == self.has(id@),
    {
        match self.find_by_id(id) {
            Some(k) => {
                assert(self.is_at(k as int, id@));
                true
            },
            None => false,
        }
    }

    /// Notes something about a task.
    pub fn finish(&mut self, id: &str, finish: TaskFinish)
        requires
            old(self).wf(),
        ensures
            final(self).wf(),
            final(self).rows@.len() == old(self).rows@.len(),
            forall|k: int|
                0 <= k < old(self).rows@.len() ==> #[trigger] final(self).rows@[k] == (
                if old(self).is_at(k, id@) {
                    old(self).rows@[k].noted(finish)
                } else {
                    old(self).rows@[k]
                }),
    {
        let ghost was = *self;
        if let Some(k) = self.find_by_id(id) {
            let row: TaskRecord = self.rows.remove(k);
            self.rows.insert(k, row.note(finish));
            proof {
                assert(was.is_at(k as int, id@));
                assert(self.rows@ =~= was.rows@.update(k as int, was.rows@[k as int].noted(finish)));
                assert forall|i: int| #[trigger] was.is_at(i, id@) implies i == k by {
                    assert(was.rows@[i].id@ == was.rows@[k as int].id@);
                }
                assert forall|i: int, j: int| 0 <= i < j < self.rows@.len() implies (
                #[trigger] self.rows@[i]).id@ != (#[trigger] self.rows@[j]).id@ by {
                    assert(was.rows@[i].id@ != was.rows@[j].id@);
                }
            }
        }
    }

    /// The latest tasks, the newest first.
    pub fn recent(&self, limit: usize) -> (r: Vec<usize>)
        ensures
            exists|places: Seq<usize>| #[trigger]
                crate::order::ranks(places, self.rows@, all_of(self.rows@.len())) && r@
                    == crate::order::limited(places, limit),
    {
        let mut wanted: Vec<bool> = Vec::new();
        let mut i: usize = 0;
        while i < self.rows.len()
            invariant
                i <= self.rows@.len(),
                wanted@ == all_of(i as nat),
            decreases self.rows.len() - i,
        {
            wanted.push(true);
            i += 1;
            assert(wanted@ =~= all_of(i as nat));
        }
        let places = rank(&self.rows, &wanted);
        let ghost sorted = places@;
        assert(crate::order::ranks(sorted, self.rows@, all_of(self.rows@.len())));
        limit_places(places, limit)
    }
}

proof fn lemma_all_stay(rows: Seq<TaskRecord>, keep: spec_fn(TaskRecord) -> bool)
    requires
        forall|i: int| 0 <= i < rows.len() ==> keep(#[trigger] rows[i]),
    ensures
        rows.filter(keep) == rows,
    decreases rows.len(),
{
    reveal(Seq::filter);
    if rows.len() > 0 {
        let rest = rows.drop_last();
        assert forall|i: int| 0 <= i < rest.len() implies keep(#[trigger] rest[i]) by {
            assert(rest[i] == rows[i]);
        }
        lemma_all_stay(rest, keep);
        assert(keep(rows[rows.len() - 1]));
        assert(rest.push(rows.last()) =~= rows);
    }
}

proof fn lemma_one_out(
    a: TaskRepository,
    b: TaskRepository,
    k: int,
    id: Seq<char>,
    keep: spec_fn(TaskRecord) -> bool,
)
    requires
        forall|t: TaskRecord| #[trigger] keep(t) == (t.id@ != id),
        a.wf(),
        a.is_at(k, id),
        b.rows@ == a.rows@.remove(k),
    ensures
        b.wf(),
        b.rows@ == a.rows@.filter(keep),
        forall|i: int| !#[trigger] b.is_at(i, id),
        forall|other: Seq<char>| other != id ==> (#[trigger] b.has(other) == a.has(other)),
{
    assert forall|i: int| 0 <= i < b.rows@.len() implies #[trigger] b.rows@[i] == a.rows@[if i < k {
        i
    } else {
        i + 1
    }] && b.rows@[i].id@ != id by {
        let j = if i < k {
            i
        } else {
            i + 1
        };
        if j < k {
            assert(a.rows@[j].id@ != a.rows@[k].id@);
        } else {
            assert(a.rows@[k].id@ != a.rows@[j].id@);
        }
    }
    assert forall|other: Seq<char>| other != id implies (#[trigger] b.has(other) == a.has(other)) by {
        if a.has(other) {
            let i = choose|i: int| #[trigger] a.is_at(i, other);
            let j = if i < k {
                i
            } else {
                i - 1
            };
            assert(b.rows@[j] == a.rows@[i]);
            assert(b.is_at(j, other));
        }
        if b.has(other) {
            let j = choose|j: int| #[trigger] b.is_at(j, other);
            let i = if j < k {
                j
            } else {
                j + 1
            };
            assert(a.is_at(i, other));
        }
    }
    lemma_all_but_one(a.rows@, k, keep, a.rows@.len() as int);
    assert(a.rows@.take(a.rows@.len() as int) =~= a.rows@);
    assert(a.rows@.take(a.rows@.len() as int).remove(k) =~= b.rows@);
}

proof fn lemma_all_but_one(
    rows: Seq<TaskRecord>,
    k: int,
    keep: spec_fn(TaskRecord) -> bool,
    n: int,
)
    requires
        0 <= k < n <= rows.len(),
        !keep(rows[k]),
        forall|i: int| 0 <= i < rows.len() && i != k ==> keep(#[trigger] rows[i]),
    ensures
        rows.take(n).filter(keep) == rows.take(n).remove(k),
    decreases n,
{
    reveal(Seq::filter);
    let all = rows.take(n);
    assert(all.drop_last() =~= rows.take(n - 1));
    assert(all.last() == rows[n - 1]);
    if n == k + 1 {
        let head = rows.take(k);
        assert forall|i: int| 0 <= i < head.len() implies keep(#[trigger] head[i]) by {
            assert(head[i] == rows[i]);
        }
        lemma_all_stay(head, keep);
        assert(all.remove(k) =~= head);
    } else {
        lemma_all_but_one(rows, k, keep, n - 1);
        assert(all.remove(k) =~= rows.take(n - 1).remove(k).push(rows[n - 1]));
    }
}

/// Every row is wanted.
pub open spec fn all_of(n: nat) -> Seq<bool> {
    Seq::new(n, |i: int| true)
}

/// A note without a value changes nothing.
pub proof fn empty_note_changes_nothing(row: TaskRecord, f: TaskFinish)
    requires
        f.status is None,
        f.finished_at is None,
        f.error_code is None,
        f.error_message is None,
        f.password_attempts is None,
        f.encoding_selected is None,
        f.embedded_found is None,
        f.output_path is None,
    ensures
        row.noted(f) == row,
{
}

/// A task that begins is found by its name, as it began, and no other task is touched.
pub proof fn begun_task_is_found(before: TaskRepository, after: TaskRepository, new: NewTask)
    requires
        after.wf(),
        after.rows@ == before.rows@.push(TaskRecord::begun(new)),
    ensures
        after.has(new.id@),
        forall|k: int| #[trigger] after.is_at(k, new.id@) ==> after.rows@[k] == TaskRecord::begun(new),
        forall|k: int, id: Seq<char>|
            id != new.id@ ==> #[trigger] after.is_at(k, id) == before.is_at(k, id),
        forall|k: int, id: Seq<char>| #[trigger]
            before.is_at(k, id) ==> after.rows@[k] == before.rows@[k],
{
    let n = before.rows@.len() as int;
    assert(after.is_at(n, new.id@));
    assert forall|k: int| #[trigger] after.is_at(k, new.id@) implies k == n by {
        if k < n {
            assert(after.rows@[k].id@ != after.rows@[n].id@);
        }
    }
}

/// What was noted last about a task is what is found of it, and no other task is touched.
pub proof fn note_is_found(before: TaskRepository, after: TaskRepository, id: Seq<char>, f: TaskFinish)
    requires
        before.has(id),
        after.rows@.len() == before.rows@.len(),
        forall|k: int|
            0 <= k < before.rows@.len() ==> #[trigger] after.rows@[k] == (if before.is_at(k, id) {
                before.rows@[k].noted(f)
            } else {
                before.rows@[k]
            }),
    ensures
        after.has(id),
        forall|k: int| #[trigger]
            after.is_at(k, id) ==> before.is_at(k, id) && after.rows@[k] == before.rows@[k].noted(f)
                && (f.status matches Some(s) ==> after.rows@[k].status == s.stored()),
        forall|k: int, other: Seq<char>| #[trigger]
            before.is_at(k, other) && other != id ==> after.rows@[k] == before.rows@[k],
{
    let k = choose|k: int| #[trigger] before.is_at(k, id);
    assert(after.rows@[k].id@ == id);
    assert(after.is_at(k, id));
    assert forall|i: int| #[trigger] after.is_at(i, id) implies before.is_at(i, id)
        && after.rows@[i] == before.rows@[i].noted(f) && (f.status matches Some(s)
        ==> after.rows@[i].status == s.stored()) by {
        assert(after.rows@[i].id@ == before.rows@[i].id@);
    }
}

/// Tasks are listed by falling start: none that began earlier comes before one that began later,
/// and of two that began at once the one with the later name comes first.
pub proof fn later_tasks_come_first(rows: Seq<TaskRecord>, wanted: Seq<bool>, places: Seq<usize>, i: int, j: int)
    requires
        crate::order::ranks(places, rows, wanted),
        0 <= i < j < places.len(),
    ensures
        !crate::text::text_before(
            rows[places[i] as int].started_at@,
            rows[places[j] as int].started_at@,
        ),
        rows[places[i] as int].started_at@ == rows[places[j] as int].started_at@
            ==> !crate::text::text_before(rows[places[i] as int].id@, rows[places[j] as int].id@),
{
    assert(!rows[places[j] as int].precedes(&rows[places[i] as int]));
}

/// A task that begins is running and has not ended, and nothing is known of it yet.
pub proof fn begun_task_runs(new: NewTask)
    ensures
        ({
            let row = TaskRecord::begun(new);
            &&& row.status == TaskPhase::Running
            &&& row.finished_at is None
            &&& row.error_code is None && row.error_message is None
            &&& row.password_attempts == 0 && row.embedded_found == 0
            &&& row.encoding_selected is None
            &&& row.id == new.id && row.kind == new.kind
            &&& row.input_summary == new.input_summary
            &&& row.output_path == new.output_path && row.started_at == new.started_at
        }),
{
}

/// What is noted of a task replaces what was there, field by field, and what is not noted stays.
pub proof fn notes_replace_field_by_field(row: TaskRecord, f: TaskFinish)
    ensures
        ({
            let after = row.noted(f);
            &&& after.id == row.id && after.kind == row.kind && after.started_at == row.started_at
            &&& after.input_summary == row.input_summary
            &&& f.status is None ==> after.status == row.status
            &&& f.status matches Some(s) ==> after.status.text() == s.text()
            &&& f.finished_at is Some ==> after.finished_at == f.finished_at
            &&& f.finished_at is None ==> after.finished_at == row.finished_at
            &&& f.error_code is Some ==> after.error_code == f.error_code
            &&& f.error_code is None ==> after.error_code == row.error_code
            &&& f.error_message is Some ==> after.error_message == f.error_message
            &&& f.error_message is None ==> after.error_message == row.error_message
            &&& f.output_path is Some ==> after.output_path == f.output_path
            &&& f.output_path is None ==> after.output_path == row.output_path
            &&& f.encoding_selected is Some ==> after.encoding_selected == f.encoding_selected
            &&& f.encoding_selected is None ==> after.encoding_selected == row.encoding_selected
            &&& f.password_attempts matches Some(n) ==> after.password_attempts == n
            &&& f.password_attempts is None ==> after.password_attempts == row.password_attempts
            &&& f.embedded_found matches Some(n) ==> after.embedded_found == n
            &&& f.embedded_found is None ==> after.embedded_found == row.embedded_found
        }),
{
}

/// The row of an execution has a time of its end exactly where the execution has ended, and that
/// time is the first one that was noted.
pub proof fn end_is_noted_once(before: TaskRecord, after: TaskRecord, head: TaskHead, at: Seq<char>)
    requires
        before.follows(after, head, at),
    ensures
        after.status == head.phase,
        after.finished_at is Some <==> head.finished,
        head.finished && before.finished_at is Some ==> after.finished_at->0@
            == before.finished_at->0@,
        head.finished && before.finished_at is None ==> after.finished_at->0@ == at,
        after.id == before.id,
        after.output_path == before.output_path,
        after.started_at == before.started_at,
{
}

} // verus!
