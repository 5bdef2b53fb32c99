//! The tables together: what one row says of another one holds.

use vstd::prelude::*;
use crate::file_extractions::{FileExtractionRecord, FileExtractionRepository, NewFileExtraction};
use crate::history::{KnownFileEncodingUpsert, KnownFileUpsert};
use crate::known_files::{KnownFile, KnownFileRepository, NameOffset};
use crate::password::{NewPassword, PasswordRepository};
use crate::task::{NewTask, TaskRepository};
use crate::task_event::{NewTaskEvent, TaskEventRecord, TaskEventRepository};
use crate::recovery::TaskExecutionRepository;
use crate::task_execution::{NewNode, NewTaskExecution, StageEvent, StoreError, TaskState};

verus! {

/// The history of the tasks.
#[derive(Debug)]
pub struct SmartZipDb {
    pub tasks: TaskRepository,
    pub events: TaskEventRepository,
    pub files: FileExtractionRepository,
    pub passwords: PasswordRepository,
    pub known: KnownFileRepository,
}

/// The password, where there is one, is kept.
pub open spec fn is_kept(passwords: PasswordRepository, id: Option<i64>) -> bool {
    id matches Some(n) ==> passwords.knows(n)
}

/// Each event is one of a task that is there.
pub open spec fn events_have_tasks(events: Seq<TaskEventRecord>, tasks: TaskRepository) -> bool {
    forall|i: int| 0 <= i < events.len() ==> tasks.has((#[trigger] events[i]).task_id@)
}

/// Each row of the log is one of a task that is there, with a password that is there or none.
pub open spec fn files_have_owners(
    files: Seq<FileExtractionRecord>,
    tasks: TaskRepository,
    passwords: PasswordRepository,
) -> bool {
    forall|i: int|
        0 <= i < files.len() ==> tasks.has((#[trigger] files[i]).task_id@) && is_kept(
            passwords,
            files[i].row.password_id,
        )
}

/// Each known file has a password that is there, or none.
pub open spec fn known_have_passwords(
    known: Seq<KnownFile>,
    passwords: PasswordRepository,
) -> bool {
    forall|i: int| 0 <= i < known.len() ==> is_kept(passwords, (#[trigger] known[i]).password_id)
}

/// The log follows the nodes of a task, one after the other.
pub open spec fn follows_nodes(
    steps: Seq<FileExtractionRepository>,
    state: TaskState,
    at: Seq<char>,
) -> bool {
    &&& steps.len() == state.nodes@.len() + 1
    &&& forall|i: int|
        #![trigger state.nodes@[i]]
        0 <= i < state.nodes@.len() ==> steps[i].with_node(
            steps[i + 1],
            state.head.id@,
            state.nodes@[i],
            at,
        )
}

/// Every node is stored with a password that is there, or none.
pub open spec fn nodes_have_passwords(state: TaskState, passwords: PasswordRepository) -> bool {
    forall|i: int|
        0 <= i < state.nodes@.len() ==> is_kept(
            passwords,
            crate::file_extractions::node_password(#[trigger] state.nodes@[i]),
        )
}

/// One of the rows tells what is stored about the node.
pub open spec fn shows_node(
    files: FileExtractionRepository,
    task_id: Seq<char>,
    node: crate::task_execution::NodeRecord,
) -> bool {
    exists|k: int| #[trigger]
        files.is_node_at(k, task_id, node.node_id@) && crate::file_extractions::tells_node(
            files.rows@[k].row,
            node,
        )
}

/// The first nodes of a task are in the log.
pub open spec fn shows_nodes(files: FileExtractionRepository, state: TaskState, n: int) -> bool {
    forall|i: int|
        0 <= i < n ==> shows_node(files, state.head.id@, #[trigger] state.nodes@[i])
}

impl SmartZipDb {
    /// The history tells of the execution: how far the task has come, whether it has ended, and
    /// how far each of its nodes is.
    pub open spec fn shows(&self, state: TaskState) -> bool {
        &&& exists|k: int| #[trigger]
            self.tasks.is_at(k, state.head.id@) && self.tasks.rows@[k].status == state.head.phase && (
            self.tasks.rows@[k].finished_at is Some) == state.head.finished
        &&& shows_nodes(self.files, state, state.nodes@.len() as int)
    }

    /// No row speaks of a task or a password that is not there, and no number is given twice.
    pub open spec fn wf(&self) -> bool {
        &&& self.tasks.wf()
        &&& self.passwords.wf()
        &&& self.known.wf()
        &&& self.events.is_numbered()
        &&& self.files.is_numbered()
        &&& self.files.is_one_per_node()
        &&& events_have_tasks(self.events.rows@, self.tasks)
        &&& files_have_owners(self.files.rows@, self.tasks, self.passwords)
        &&& known_have_passwords(self.known.rows@, self.passwords)
    }

    /// Nothing is kept yet.
    pub fn in_memory() -> (r: SmartZipDb)
        ensures
            r.wf(),
            r.tasks.rows@.len() == 0,
            r.events.rows@.len() == 0,
            r.files.rows@.len() == 0,
            r.passwords.rows@.len() == 0,
            r.passwords.matches@.len() == 0,
            r.known.rows@.len() == 0,
            r.events.last_id == 0,
            r.files.last_id == 0,
            r.passwords.last_id == 0,
            r.passwords.last_match_id == 0,
    {
        SmartZipDb {
            tasks: TaskRepository::new(),
            events: TaskEventRepository::new(),
            files: FileExtractionRepository::new(),
            passwords: PasswordRepository::new(),
            known: KnownFileRepository::new(),
        }
    }

    /// Notes that a task begins.
    pub fn insert_task(&mut self, task: NewTask) -> (r: Result<(), StoreError>)
        requires
            old(self).wf(),
        ensures
            final(self).wf(),
            final(self).events == old(self).events,
            final(self).files == old(self).files,
            final(self).passwords == old(self).passwords,
            final(self).known == old(self).known,
            match r {
                Ok(()) => {
                    &&& !old(self).tasks.has(task.id@)
                    &&& final(self).tasks.rows@ == old(self).tasks.rows@.push(
                        crate::task::TaskRecord::begun(task),
                    )
                },
                Err(e) => {
                    &&& e == StoreError::DuplicateTask
                    &&& old(self).tasks.has(task.id@)
                    &&& final(self).tasks == old(self).tasks
                },
            },
    {
        let ghost was = self.tasks;
        let r = self.tasks.insert(task);
        proof {
            lemma_tasks_grow(was, self.tasks);
        }
        r
    }

    /// Keeps an event of a task, and gives its number.
    pub fn insert_event(&mut self, event: NewTaskEvent) -> (r: Result<i64, StoreError>)
        requires
            old(self).wf(),
            old(self).events.last_id < i64::MAX,
        ensures
            final(self).wf(),
            final(self).tasks == old(self).tasks,
            final(self).files == old(self).files,
            final(self).passwords == old(self).passwords,
            final(self).known == old(self).known,
            match r {
                Ok(id) => {
                    &&& old(self).tasks.has(event.task_id@)
                    &&& id == old(self).events.last_id + 1
                    &&& final(self).events.last_id == id
                    &&& final(self).events.rows@ == old(self).events.rows@.push(
                        TaskEventRecord::of(id, event),
                    )
                },
                Err(e) => {
                    &&& e == StoreError::UnknownTask
                    &&& !old(self).tasks.has(event.task_id@)
                    &&& final(self).events == old(self).events
                },
            },
    {
        if !self.tasks.contains(event.task_id.as_str()) {
            return Err(StoreError::UnknownTask);
        }
        Ok(self.events.insert(event))
    }

    /// Keeps a change of a node of a task, and gives its number.
    pub fn note_stage(&mut self, task_id: &str, event: StageEvent, at: String) -> (r: Result<
        i64,
        StoreError,
    >)
        requires
            old(self).wf(),
            old(self).events.last_id < i64::MAX,
            crate::task_event::next_place(old(self).events.rows@, task_id@) <= i64::MAX,
        ensures
            final(self).wf(),
            final(self).tasks == old(self).tasks,
            final(self).files == old(self).files,
            final(self).passwords == old(self).passwords,
            final(self).known == old(self).known,
            match r {
                Ok(id) => {
                    &&& old(self).tasks.has(task_id@)
                    &&& id == old(self).events.last_id + 1
                    &&& final(self).events.last_id == id
                    &&& final(self).events.rows@.len() == old(self).events.rows@.len() + 1
                    &&& final(self).events.rows@.drop_last() == old(self).events.rows@
                    &&& final(self).events.rows@.last().is_stage(
                        id,
                        task_id@,
                        event,
                        crate::task_event::next_place(old(self).events.rows@, task_id@) as i64,
                        at,
                    )
                },
                Err(e) => {
                    &&& e == StoreError::UnknownTask
                    &&& !old(self).tasks.has(task_id@)
                    &&& final(self).events == old(self).events
                },
            },
    {
        if !self.tasks.contains(task_id) {
            return Err(StoreError::UnknownTask);
        }
        let ghost was = self.events.rows@;
        let id = self.events.insert_stage(task_id, event, at);
        proof {
            assert forall|i: int| 0 <= i < self.events.rows@.len() implies self.tasks.has(
                (#[trigger] self.events.rows@[i]).task_id@,
            ) by {
                if i < was.len() {
                    assert(self.events.rows@[i] == self.events.rows@.drop_last()[i]);
                }
            }
        }
        Ok(id)
    }

    /// Brings the history up to what is stored about an execution.
    pub fn note_execution(&mut self, state: &TaskState, at: &str) -> (r: Result<(), StoreError>)
        requires
            old(self).wf(),
            old(self).files.last_id + state.nodes@.len() <= i64::MAX,
        ensures
            final(self).wf(),
            final(self).events == old(self).events,
            final(self).passwords == old(self).passwords,
            final(self).known == old(self).known,
            match r {
                Ok(()) => {
                    &&& nodes_have_passwords(*state, old(self).passwords)
                    &&& old(self).tasks.with_execution(final(self).tasks, state.head, at@)
                    &&& exists|steps: Seq<FileExtractionRepository>| #[trigger]
                        follows_nodes(steps, *state, at@) && steps[0] == old(self).files
                            && steps.last() == final(self).files
                    &&& state.wf() ==> final(self).shows(*state)
                    &&& forall|other: TaskState|
                        other.head.id@ != state.head.id@ && #[trigger] old(self).shows(other)
                            ==> final(self).shows(other)
                },
                Err(e) => {
                    &&& e == StoreError::UnknownPassword
                    &&& !nodes_have_passwords(*state, old(self).passwords)
                    &&& *final(self) == *old(self)
                },
            },
    {
        let ghost was = *self;
        let mut i: usize = 0;
        while i < state.nodes.len()
            invariant
                *self == was,
                was == *old(self),
                was.wf(),
                i <= state.nodes@.len(),
                forall|k: int|
                    0 <= k < i ==> is_kept(
                        self.passwords,
                        crate::file_extractions::node_password(#[trigger] state.nodes@[k]),
                    ),
            decreases state.nodes.len() - i,
        {
            if let Some(facts) = &state.nodes[i].facts {
                if let Some(id) = facts.password_id {
                    if !self.passwords.contains(id) {
                        assert(!is_kept(
                            was.passwords,
                            crate::file_extractions::node_password(state.nodes@[i as int]),
                        ));
                        return Err(StoreError::UnknownPassword);
                    }
                }
            }
            i += 1;
        }
        self.tasks.note_execution(&state.head, at);
        proof {
            lemma_tasks_follow(was.tasks, self.tasks, state.head, at@);
        }
        let ghost mut steps = seq![was.files];
        let mut j: usize = 0;
        while j < state.nodes.len()
            invariant
                j <= state.nodes@.len(),
                nodes_have_passwords(*state, was.passwords),
                was.files.last_id + state.nodes@.len() <= i64::MAX,
                self.files.last_id <= was.files.last_id + j,
                self.events == was.events,
                self.passwords == was.passwords,
                self.known == was.known,
                was.wf(),
                was == *old(self),
                self.tasks.wf(),
                self.tasks.has(state.head.id@),
                forall|id: Seq<char>| #[trigger] was.tasks.has(id) ==> self.tasks.has(id),
                was.tasks.with_execution(self.tasks, state.head, at@),
                self.files.is_numbered(),
                self.files.is_one_per_node(),
                files_have_owners(self.files.rows@, self.tasks, self.passwords),
                steps.len() == j + 1,
                steps[0] == was.files,
                steps.last() == self.files,
                forall|k: int|
                    #![trigger state.nodes@[k]]
                    0 <= k < j ==> steps[k].with_node(
                        steps[k + 1],
                        state.head.id@,
                        state.nodes@[k],
                        at@,
                    ),
                state.wf() ==> shows_nodes(self.files, *state, j as int),
                forall|other: TaskState|
                    other.head.id@ != state.head.id@ && #[trigger] shows_nodes(
                        was.files,
                        other,
                        other.nodes@.len() as int,
                    ) ==> shows_nodes(self.files, other, other.nodes@.len() as int),
            decreases state.nodes.len() - j,
        {
            let ghost before = self.files;
            let ghost node = state.nodes@[j as int];
            self.files.note_node(state.head.id.as_str(), &state.nodes[j], at);
            proof {
                lemma_node_is_shown(before, self.files, state.head.id@, node, at@);
                lemma_owners_stay(before, self.files, state.head.id@, node, at@, self.tasks, self.passwords);
                if state.wf() {
                    assert forall|k: int| 0 <= k < j + 1 implies shows_node(
                        self.files,
                        state.head.id@,
                        #[trigger] state.nodes@[k],
                    ) by {
                        if k < j {
                            assert(state.nodes@[k].node_id@ != node.node_id@);
                            lemma_others_stay_shown(
                                before,
                                self.files,
                                state.head.id@,
                                node,
                                at@,
                                state.head.id@,
                                state.nodes@[k],
                            );
                        }
                    }
                }
                assert forall|other: TaskState|
                    other.head.id@ != state.head.id@ && #[trigger] shows_nodes(
                        was.files,
                        other,
                        other.nodes@.len() as int,
                    ) implies shows_nodes(self.files, other, other.nodes@.len() as int) by {
                    assert(shows_nodes(before, other, other.nodes@.len() as int));
                    assert forall|k: int| 0 <= k < other.nodes@.len() implies shows_node(
                        self.files,
                        other.head.id@,
                        #[trigger] other.nodes@[k],
                    ) by {
                        lemma_others_stay_shown(
                            before,
                            self.files,
                            state.head.id@,
                            node,
                            at@,
                            other.head.id@,
                            other.nodes@[k],
                        );
                    }
                }
                let longer = steps.push(self.files);
                assert forall|k: int|
                    #![trigger state.nodes@[k]]
                    0 <= k < j + 1 implies longer[k].with_node(
                    longer[k + 1],
                    state.head.id@,
                    state.nodes@[k],
                    at@,
                ) by {
                    if k < j {
                        assert(longer[k] == steps[k] && longer[k + 1] == steps[k + 1]);
                    }
                }
                steps = longer;
            }
            j += 1;
        }
        proof {
            assert(follows_nodes(steps, *state, at@));
            lemma_task_is_shown(was.tasks, self.tasks, state.head, at@);
            assert forall|e: int| 0 <= e < self.events.rows@.len() implies self.tasks.has(
                (#[trigger] self.events.rows@[e]).task_id@,
            ) by {
                assert(was.tasks.has(was.events.rows@[e].task_id@));
            }
            assert forall|other: TaskState|
                other.head.id@ != state.head.id@ && #[trigger] was.shows(other) implies self.shows(
                other,
            ) by {
                assert(shows_nodes(was.files, other, other.nodes@.len() as int));
                let k = choose|k: int| #[trigger]
                    was.tasks.is_at(k, other.head.id@) && was.tasks.rows@[k].status
                        == other.head.phase && (was.tasks.rows@[k].finished_at is Some)
                        == other.head.finished;
                lemma_other_task_stays(was.tasks, self.tasks, state.head, at@, k, other.head.id@);
            }
        }
        Ok(())
    }

    /// Takes a task in to be executed, with all its roots or not at all. The history tells of it
    /// from then on.
    pub fn submit_execution(
        &mut self,
        executions: &mut TaskExecutionRepository,
        task: NewTaskExecution,
        roots: Vec<NewNode>,
        at: &str,
    ) -> (r: Result<(), StoreError>)
        requires
            old(self).wf(),
            old(executions).wf(),
            old(self).files.last_id + roots@.len() <= i64::MAX,
        ensures
            final(self).wf(),
            final(executions).wf(),
            ({
                let taken = old(self).tasks.has(task.id@) || exists|k: int|
                    0 <= k < old(executions).tasks@.len() && (#[trigger] old(executions).tasks@[k]).head.id@ == task.id@;
                let twice = exists|i: int, j: int|
                    0 <= i < j < roots@.len() && (#[trigger] roots@[i]).id@ == (
                    #[trigger] roots@[j]).id@;
                match r {
                    Ok(()) => {
                        &&& !taken && !twice
                        &&& final(executions).tasks@.len() == old(executions).tasks@.len() + 1
                        &&& final(executions).tasks@.drop_last() == old(executions).tasks@
                        &&& final(executions).tasks@.last().head
                            == TaskExecutionRepository::queued(task)
                        &&& final(executions).tasks@.last().nodes@.len() == roots@.len()
                        &&& forall|k: int|
                            0 <= k < roots@.len() ==> #[trigger] final(executions).tasks@.last().nodes@[k]
                                == crate::task_execution::NodeRecord::fresh(roots@[k])
                        &&& final(self).shows(final(executions).tasks@.last())
                        &&& old(self).tasks.with_execution(
                            final(self).tasks,
                            TaskExecutionRepository::queued(task),
                            at@,
                        )
                        &&& exists|steps: Seq<FileExtractionRepository>| #[trigger]
                            follows_nodes(steps, final(executions).tasks@.last(), at@) && steps[0]
                                == old(self).files && steps.last() == final(self).files
                        &&& final(self).events == old(self).events
                        &&& final(self).passwords == old(self).passwords
                        &&& final(self).known == old(self).known
                        &&& forall|other: TaskState|
                            other.head.id@ != task.id@ && #[trigger] old(self).shows(other)
                                ==> final(self).shows(other)
                    },
                    Err(e) => {
                        &&& taken || twice
                        &&& e == (if taken {
                            StoreError::DuplicateTask
                        } else {
                            StoreError::DuplicateNode
                        })
                        &&& *final(self) == *old(self)
                        &&& *final(executions) == *old(executions)
                    },
                }
            }),
    {
        if self.tasks.contains(task.id.as_str()) {
            return Err(StoreError::DuplicateTask);
        }
        let ghost given = roots@;
        match executions.submit(task, roots) {
            Ok(()) => {},
            Err(e) => {
                return Err(e);
            },
        }
        let last: usize = executions.tasks.len() - 1;
        let ghost state = executions.tasks@.last();
        assert(executions.tasks@[last as int].wf());
        let noted = self.note_execution(&executions.tasks[last], at);
        proof {
            assert forall|i: int| 0 <= i < state.nodes@.len() implies is_kept(
                old(self).passwords,
                crate::file_extractions::node_password(#[trigger] state.nodes@[i]),
            ) by {
                assert(state.nodes@[i] == crate::task_execution::NodeRecord::fresh(given[i]));
            }
        }
        noted
    }

    /// Logs what a task did to a file, and gives its number.
    pub fn insert_file(&mut self, new: NewFileExtraction) -> (r: Result<i64, StoreError>)
        requires
            old(self).wf(),
            old(self).files.last_id < i64::MAX,
        ensures
            final(self).wf(),
            final(self).tasks == old(self).tasks,
            final(self).events == old(self).events,
            final(self).passwords == old(self).passwords,
            final(self).known == old(self).known,
            match r {
                Ok(id) => {
                    &&& old(self).tasks.has(new.task_id@)
                    &&& is_kept(old(self).passwords, new.row.password_id)
                    &&& id == old(self).files.last_id + 1
                    &&& final(self).files.last_id == id
                    &&& final(self).files.rows@ == old(self).files.rows@.push(
                        FileExtractionRecord {
                            id,
                            task_id: new.task_id,
                            node_id: None,
                            row: new.row,
                            created_at: new.created_at,
                        },
                    )
                },
                Err(e) => {
                    &&& e == (if old(self).tasks.has(new.task_id@) {
                        StoreError::UnknownPassword
                    } else {
                        StoreError::UnknownTask
                    })
                    &&& !old(self).tasks.has(new.task_id@) || !is_kept(
                        old(self).passwords,
                        new.row.password_id,
                    )
                    &&& final(self).files == old(self).files
                },
            },
    {
        if !self.tasks.contains(new.task_id.as_str()) {
            return Err(StoreError::UnknownTask);
        }
        if let Some(id) = new.row.password_id {
            if !self.passwords.contains(id) {
                return Err(StoreError::UnknownPassword);
            }
        }
        Ok(self.files.insert(new))
    }

    /// Keeps a password, and gives its number.
    pub fn upsert_password(&mut self, input: NewPassword) -> (r: i64)
        requires
            old(self).wf(),
            old(self).passwords.last_id < i64::MAX,
        ensures
            final(self).wf(),
            final(self).tasks == old(self).tasks,
            final(self).events == old(self).events,
            final(self).files == old(self).files,
            final(self).known == old(self).known,
            final(self).passwords.knows(r),
            forall|id: i64| #[trigger] old(self).passwords.knows(id) ==> final(self).passwords.knows(id),
            forall|k: int| #[trigger]
                old(self).passwords.has_value(k, input.value@) ==> r
                    == old(self).passwords.rows@[k].id && final(self).passwords.rows@
                    == old(self).passwords.rows@.update(
                    k,
                    old(self).passwords.rows@[k].again(input),
                ),
            (forall|k: int| !#[trigger] old(self).passwords.has_value(k, input.value@)) ==> r
                == old(self).passwords.last_id + 1 && final(self).passwords.rows@
                == old(self).passwords.rows@.push(crate::password::PasswordRecord::first(r, input)),
            final(self).passwords.last_id == (if r > old(self).passwords.last_id {
                r
            } else {
                old(self).passwords.last_id
            }),
            final(self).passwords.matches == old(self).passwords.matches,
            final(self).passwords.last_match_id == old(self).passwords.last_match_id,
    {
        let ghost was = self.passwords;
        let r = self.passwords.upsert(input);
        proof {
            lemma_passwords_stay(was, self.passwords, r, input);
        }
        r
    }

    /// Notes that a file was extracted.
    pub fn note_extract(&mut self, file: KnownFileUpsert, at: String) -> (r: Result<(), StoreError>)
        requires
            old(self).wf(),
        ensures
            final(self).wf(),
            final(self).tasks == old(self).tasks,
            final(self).events == old(self).events,
            final(self).files == old(self).files,
            final(self).passwords == old(self).passwords,
            match r {
                Ok(()) => {
                    &&& is_kept(old(self).passwords, file.password_id)
                    &&& old(self).known.with_extraction(
                        final(self).known,
                        file.sample_hash,
                        file.size,
                        observed(file.name, file.offset),
                        file.password_id,
                        at,
                    )
                },
                Err(e) => {
                    &&& e == StoreError::UnknownPassword
                    &&& !is_kept(old(self).passwords, file.password_id)
                    &&& final(self).known == old(self).known
                },
            },
    {
        if let Some(id) = file.password_id {
            if !self.passwords.contains(id) {
                return Err(StoreError::UnknownPassword);
            }
        }
        let ghost was = self.known;
        let name = observe(file.name, file.offset);
        self.known.upsert_extract(file.sample_hash, file.size, name, file.password_id, at);
        proof {
            let new = self.known.rows@;
            let (hash, size) = (file.sample_hash@, file.size);
            assert forall|i: int| 0 <= i < new.len() implies is_kept(
                self.passwords,
                (#[trigger] new[i]).password_id,
            ) by {
                if exists|k: int| #[trigger] was.is_at(k, hash, size) {
                    let k = choose|k: int| #[trigger] was.is_at(k, hash, size);
                    assert(new[i] == was.rows@.update(k, new[k])[i]);
                    assert(is_kept(self.passwords, was.rows@[i].password_id));
                } else if i < was.rows@.len() {
                    assert(new[i] == new.drop_last()[i]);
                    assert(is_kept(self.passwords, was.rows@[i].password_id));
                } else {
                    let blank = choose|blank: KnownFile| #[trigger]
                        KnownFileRepository::is_blank(blank, file.sample_hash, file.size)
                            && KnownFileRepository::extracted(
                            blank,
                            new.last(),
                            name,
                            file.password_id,
                            at,
                        );
                    assert(blank.password_id is None);
                }
            }
        }
        Ok(())
    }

    /// Notes the encoding that the user confirmed for a file.
    pub fn note_encoding(&mut self, file: KnownFileEncodingUpsert)
        requires
            old(self).wf(),
        ensures
            final(self).wf(),
            final(self).tasks == old(self).tasks,
            final(self).events == old(self).events,
            final(self).files == old(self).files,
            final(self).passwords == old(self).passwords,
            old(self).known.with_confirmation(
                final(self).known,
                file.sample_hash,
                file.size,
                observed(file.name, file.offset),
                file.encoding,
            ),
    {
        let ghost was = self.known;
        let name = observe(file.name, file.offset);
        self.known.upsert_confirmed_encoding(file.sample_hash, file.size, name, file.encoding);
        proof {
            let new = self.known.rows@;
            let (hash, size) = (file.sample_hash@, file.size);
            assert forall|i: int| 0 <= i < new.len() implies is_kept(
                self.passwords,
                (#[trigger] new[i]).password_id,
            ) by {
                if exists|k: int| #[trigger] was.is_at(k, hash, size) {
                    let k = choose|k: int| #[trigger] was.is_at(k, hash, size);
                    assert(new[i] == was.rows@.update(k, new[k])[i]);
                    assert(is_kept(self.passwords, was.rows@[i].password_id));
                } else if i < was.rows@.len() {
                    assert(new[i] == new.drop_last()[i]);
                    assert(is_kept(self.passwords, was.rows@[i].password_id));
                } else {
                    let blank = choose|blank: KnownFile| #[trigger]
                        KnownFileRepository::is_blank(blank, file.sample_hash, file.size)
                            && KnownFileRepository::confirmed(
                            blank,
                            new.last(),
                            name,
                            file.encoding,
                        );
                    assert(blank.password_id is None);
                }
            }
        }
    }

    /// Deletes a task, and with it its events and what it logged.
    pub fn delete_task(&mut self, id: &str)
        requires
            old(self).wf(),
        ensures
            final(self).wf(),
            final(self).tasks.rows@ == old(self).tasks.rows@.filter(
                |t: crate::task::TaskRecord| t.id@ != id@,
            ),
            final(self).events.rows@ == old(self).events.rows@.filter(
                |e: TaskEventRecord| e.task_id@ != id@,
            ),
            final(self).files.rows@ == old(self).files.rows@.filter(
                |e: FileExtractionRecord| e.task_id@ != id@,
            ),
            !final(self).tasks.has(id@),
            final(self).events.last_id == old(self).events.last_id,
            final(self).files.last_id == old(self).files.last_id,
            final(self).passwords == old(self).passwords,
            final(self).known == old(self).known,
    {
        let ghost was = *self;
        self.tasks.remove(id);
        self.events.drop_task(id);
        self.files.drop_task(id);
        proof {
            let of_other = |e: TaskEventRecord| e.task_id@ != id@;
            let by_other = |e: FileExtractionRecord| e.task_id@ != id@;
            crate::order::lemma_kept_rows(was.events.rows@, of_other);
            crate::order::lemma_kept_rows(was.files.rows@, by_other);
            assert forall|i: int| 0 <= i < self.events.rows@.len() implies self.tasks.has(
                (#[trigger] self.events.rows@[i]).task_id@,
            ) by {
                let e = was.events.rows@.filter(of_other)[i];
                assert(was.events.rows@.contains(e));
                let j = choose|j: int| 0 <= j < was.events.rows@.len() && was.events.rows@[j] == e;
                assert(was.tasks.has(was.events.rows@[j].task_id@));
            }
            assert forall|i: int| 0 <= i < self.files.rows@.len() implies self.tasks.has(
                (#[trigger] self.files.rows@[i]).task_id@,
            ) && is_kept(self.passwords, self.files.rows@[i].row.password_id) by {
                let e = was.files.rows@.filter(by_other)[i];
                assert(was.files.rows@.contains(e));
                let j = choose|j: int| 0 <= j < was.files.rows@.len() && was.files.rows@[j] == e;
                assert(was.tasks.has(was.files.rows@[j].task_id@));
            }
        }
    }

    /// Deletes a password, with what was known of it. The files that it opened stay known, and
    /// what was logged stays, without the password.
    pub fn delete_password(&mut self, id: i64)
        requires
            old(self).wf(),
        ensures
            final(self).wf(),
            !final(self).passwords.knows(id),
            final(self).passwords.matches@ == old(self).passwords.matches@.filter(
                |m: crate::password::PasswordMatch| m.password_id != id,
            ),
            forall|k: int|
                0 <= k < old(self).passwords.rows@.len() && (#[trigger] old(
                    self,
                ).passwords.rows@[k]).id == id ==> final(self).passwords.rows@ == old(
                    self,
                ).passwords.rows@.remove(k),
            !old(self).passwords.knows(id) ==> final(self).passwords.rows@ == old(
                self,
            ).passwords.rows@,
            final(self).passwords.last_id == old(self).passwords.last_id,
            final(self).passwords.last_match_id == old(self).passwords.last_match_id,
            final(self).files.last_id == old(self).files.last_id,
            forall|other: i64| other != id ==> #[trigger] final(self).passwords.knows(other) == old(self).passwords.knows(other),
            final(self).files.rows@ == old(self).files.rows@.map_values(
                |r: FileExtractionRecord| crate::file_extractions::without_password(r, id),
            ),
            final(self).known.rows@ == old(self).known.rows@.map_values(
                |r: KnownFile| crate::known_files::without_password(r, id),
            ),
            final(self).tasks == old(self).tasks,
            final(self).events == old(self).events,
    {
        let ghost was = *self;
        self.passwords.delete(id);
        self.files.clear_password(id);
        self.known.clear_password(id);
        proof {
            assert forall|i: int| 0 <= i < self.files.rows@.len() implies self.tasks.has(
                (#[trigger] self.files.rows@[i]).task_id@,
            ) && is_kept(self.passwords, self.files.rows@[i].row.password_id) by {
                assert(was.tasks.has(was.files.rows@[i].task_id@));
                assert(is_kept(was.passwords, was.files.rows@[i].row.password_id));
            }
            assert forall|i: int| 0 <= i < self.known.rows@.len() implies is_kept(
                self.passwords,
                (#[trigger] self.known.rows@[i]).password_id,
            ) by {
                assert(is_kept(was.passwords, was.known.rows@[i].password_id));
            }
        }
    }
}

/// The name under which a file was seen, and where in it the archive stands; nothing for a file
/// without a name.
pub open spec fn observed(name: Option<String>, offset: Option<i64>) -> Option<NameOffset> {
    match name {
        Some(name) => Some(NameOffset { name, offset }),
        None => None,
    }
}

fn observe(name: Option<String>, offset: Option<i64>) -> (r: Option<NameOffset>)
    ensures
        r == observed(name, offset),
{
    match name {
        Some(name) => Some(NameOffset { name, offset }),
        None => None,
    }
}

proof fn lemma_tasks_grow(a: TaskRepository, b: TaskRepository)
    requires
        a.rows@.len() <= b.rows@.len(),
        forall|i: int| 0 <= i < a.rows@.len() ==> (#[trigger] b.rows@[i]).id@ == a.rows@[i].id@,
    ensures
        forall|id: Seq<char>| #[trigger] a.has(id) ==> b.has(id),
{
    assert forall|id: Seq<char>| #[trigger] a.has(id) implies b.has(id) by {
        let k = choose|k: int| #[trigger] a.is_at(k, id);
        assert(b.rows@[k].id@ == a.rows@[k].id@);
        assert(b.is_at(k, id));
    }
}

proof fn lemma_passwords_stay(
    a: PasswordRepository,
    b: PasswordRepository,
    r: i64,
    input: NewPassword,
)
    requires
        forall|k: int| #[trigger]
            a.has_value(k, input.value@) ==> r == a.rows@[k].id && b.rows@ == a.rows@.update(
                k,
                a.rows@[k].again(input),
            ),
        (forall|k: int| !#[trigger] a.has_value(k, input.value@)) ==> b.rows@ == a.rows@.push(
            crate::password::PasswordRecord::first(r, input),
        ),
    ensures
        b.knows(r),
        forall|id: i64| #[trigger] a.knows(id) ==> b.knows(id),
{
    if exists|k: int| #[trigger] a.has_value(k, input.value@) {
        let k = choose|k: int| #[trigger] a.has_value(k, input.value@);
        assert(b.rows@[k].id == r);
    } else {
        assert(b.rows@[a.rows@.len() as int].id == r);
    }
    assert forall|id: i64| #[trigger] a.knows(id) implies b.knows(id) by {
        let i = choose|i: int| 0 <= i < a.rows@.len() && (#[trigger] a.rows@[i]).id == id;
        assert(b.rows@[i].id == id);
    }
}

proof fn lemma_tasks_follow(
    a: TaskRepository,
    b: TaskRepository,
    head: crate::task_execution::TaskHead,
    at: Seq<char>,
)
    requires
        a.with_execution(b, head, at),
    ensures
        forall|id: Seq<char>| #[trigger] a.has(id) ==> b.has(id),
{
    if a.has(head.id@) {
        let k = choose|k: int| #[trigger] a.is_at(k, head.id@);
        assert forall|i: int| 0 <= i < a.rows@.len() implies (#[trigger] b.rows@[i]).id@
            == a.rows@[i].id@ by {
            assert(b.rows@[i] == a.rows@.update(k, b.rows@[k])[i]);
        }
    } else {
        assert forall|i: int| 0 <= i < a.rows@.len() implies (#[trigger] b.rows@[i]).id@
            == a.rows@[i].id@ by {
            assert(b.rows@[i] == b.rows@.drop_last()[i]);
        }
    }
    lemma_tasks_grow(a, b);
}

proof fn lemma_task_is_shown(
    a: TaskRepository,
    b: TaskRepository,
    head: crate::task_execution::TaskHead,
    at: Seq<char>,
)
    requires
        a.with_execution(b, head, at),
    ensures
        exists|k: int| #[trigger]
            b.is_at(k, head.id@) && b.rows@[k].status == head.phase && (
            b.rows@[k].finished_at is Some) == head.finished,
{
    if a.has(head.id@) {
        let k = choose|k: int| #[trigger] a.is_at(k, head.id@);
        assert(b.is_at(k, head.id@));
    } else {
        assert(b.is_at(a.rows@.len() as int, head.id@));
    }
}

proof fn lemma_other_task_stays(
    a: TaskRepository,
    b: TaskRepository,
    head: crate::task_execution::TaskHead,
    at: Seq<char>,
    k: int,
    other: Seq<char>,
)
    requires
        a.with_execution(b, head, at),
        a.is_at(k, other),
        other != head.id@,
    ensures
        b.is_at(k, other),
        b.rows@[k] == a.rows@[k],
{
    if a.has(head.id@) {
        let i = choose|i: int| #[trigger] a.is_at(i, head.id@);
        assert(b.rows@[k] == a.rows@.update(i, b.rows@[i])[k]);
    } else {
        assert(b.rows@[k] == b.rows@.drop_last()[k]);
    }
}

proof fn lemma_node_is_shown(
    a: FileExtractionRepository,
    b: FileExtractionRepository,
    task_id: Seq<char>,
    node: crate::task_execution::NodeRecord,
    at: Seq<char>,
)
    requires
        a.with_node(b, task_id, node, at),
    ensures
        shows_node(b, task_id, node),
{
    if exists|k: int| #[trigger] a.is_node_at(k, task_id, node.node_id@) {
        let k = choose|k: int| #[trigger] a.is_node_at(k, task_id, node.node_id@);
        assert(b.is_node_at(k, task_id, node.node_id@));
    } else {
        assert(b.is_node_at(a.rows@.len() as int, task_id, node.node_id@));
    }
}

proof fn lemma_others_stay_shown(
    a: FileExtractionRepository,
    b: FileExtractionRepository,
    task_id: Seq<char>,
    node: crate::task_execution::NodeRecord,
    at: Seq<char>,
    other_task: Seq<char>,
    other: crate::task_execution::NodeRecord,
)
    requires
        a.with_node(b, task_id, node, at),
        shows_node(a, other_task, other),
        other_task != task_id || other.node_id@ != node.node_id@,
    ensures
        shows_node(b, other_task, other),
{
    let k = choose|k: int| #[trigger]
        a.is_node_at(k, other_task, other.node_id@) && crate::file_extractions::tells_node(
            a.rows@[k].row,
            other,
        );
    if exists|i: int| #[trigger] a.is_node_at(i, task_id, node.node_id@) {
        let i = choose|i: int| #[trigger] a.is_node_at(i, task_id, node.node_id@);
        assert(b.rows@[k] == a.rows@.update(i, b.rows@[i])[k]);
    } else {
        assert(b.rows@[k] == b.rows@.drop_last()[k]);
    }
    assert(b.is_node_at(k, other_task, other.node_id@));
}

proof fn lemma_owners_stay(
    a: FileExtractionRepository,
    b: FileExtractionRepository,
    task_id: Seq<char>,
    node: crate::task_execution::NodeRecord,
    at: Seq<char>,
    tasks: TaskRepository,
    passwords: PasswordRepository,
)
    requires
        a.with_node(b, task_id, node, at),
        files_have_owners(a.rows@, tasks, passwords),
        tasks.has(task_id),
        is_kept(passwords, crate::file_extractions::node_password(node)),
    ensures
        files_have_owners(b.rows@, tasks, passwords),
{
    assert forall|i: int| 0 <= i < b.rows@.len() implies tasks.has((#[trigger] b.rows@[i]).task_id@)
        && is_kept(passwords, b.rows@[i].row.password_id) by {
        if exists|k: int| #[trigger] a.is_node_at(k, task_id, node.node_id@) {
            let k = choose|k: int| #[trigger] a.is_node_at(k, task_id, node.node_id@);
            assert(b.rows@[i] == a.rows@.update(k, b.rows@[k])[i]);
            assert(tasks.has(a.rows@[i].task_id@));
        } else if i < a.rows@.len() {
            assert(b.rows@[i] == b.rows@.drop_last()[i]);
            assert(tasks.has(a.rows@[i].task_id@));
        }
    }
}

/// Where the history tells of an execution, the task is found under its name with the state that
/// it is in, and each of its nodes is among the rows that are listed for the task.
pub proof fn execution_is_found(
    db: SmartZipDb,
    state: TaskState,
    found: int,
    node: int,
    places: Seq<usize>,
)
    requires
        db.wf(),
        db.shows(state),
        db.tasks.is_at(found, state.head.id@),
        0 <= node < state.nodes@.len(),
        crate::order::ranks(
            places,
            crate::file_extractions::numbers(db.files.rows@),
            crate::file_extractions::of_task(db.files.rows@, state.head.id@),
        ),
    ensures
        db.tasks.rows@[found].status == state.head.phase,
        (db.tasks.rows@[found].finished_at is Some) == state.head.finished,
        exists|i: int|
            0 <= i < places.len() && db.files.is_node_at(
                (#[trigger] places[i]) as int,
                state.head.id@,
                state.nodes@[node].node_id@,
            ) && crate::file_extractions::tells_node(
                db.files.rows@[places[i] as int].row,
                state.nodes@[node],
            ),
{
    let k = choose|k: int| #[trigger]
        db.tasks.is_at(k, state.head.id@) && db.tasks.rows@[k].status == state.head.phase && (
        db.tasks.rows@[k].finished_at is Some) == state.head.finished;
    if k < found {
        assert(db.tasks.rows@[k].id@ != db.tasks.rows@[found].id@);
    } else if found < k {
        assert(db.tasks.rows@[found].id@ != db.tasks.rows@[k].id@);
    }
    let n = state.nodes@[node];
    assert(shows_node(db.files, state.head.id@, n));
    let at = choose|at: int| #[trigger]
        db.files.is_node_at(at, state.head.id@, n.node_id@) && crate::file_extractions::tells_node(
            db.files.rows@[at].row,
            n,
        );
    assert(crate::file_extractions::of_task(db.files.rows@, state.head.id@)[at]);
    let i = choose|i: int| 0 <= i < places.len() && #[trigger] places[i] == at;
    assert(db.files.is_node_at(places[i] as int, state.head.id@, n.node_id@));
}

/// A password that is deleted is forgotten in the history and in the executions alike: what the
/// history told of an execution it still tells.
pub proof fn password_is_forgotten_alike(
    before: SmartZipDb,
    after: SmartZipDb,
    was: TaskState,
    now: TaskState,
    id: i64,
)
    requires
        before.shows(was),
        after.tasks == before.tasks,
        after.files.rows@ == before.files.rows@.map_values(
            |r: FileExtractionRecord| crate::file_extractions::without_password(r, id),
        ),
        was.without_password(now, id),
    ensures
        after.shows(now),
{
    assert forall|i: int| 0 <= i < now.nodes@.len() implies shows_node(
        after.files,
        now.head.id@,
        #[trigger] now.nodes@[i],
    ) by {
        let node = was.nodes@[i];
        assert(shows_node(before.files, was.head.id@, node));
        let k = choose|k: int| #[trigger]
            before.files.is_node_at(k, was.head.id@, node.node_id@)
                && crate::file_extractions::tells_node(before.files.rows@[k].row, node);
        assert(now.nodes@[i] == node.without_password(id));
        assert(after.files.is_node_at(k, now.head.id@, now.nodes@[i].node_id@));
    }
}

/// A task that was deleted has left nothing behind.
pub proof fn nothing_is_left_of_a_task(db: SmartZipDb, id: Seq<char>)
    requires
        db.wf(),
        !db.tasks.has(id),
    ensures
        forall|i: int| 0 <= i < db.events.rows@.len() ==> (#[trigger] db.events.rows@[i]).task_id@ != id,
        forall|i: int| 0 <= i < db.files.rows@.len() ==> (#[trigger] db.files.rows@[i]).task_id@ != id,
{
}

} // verus!
