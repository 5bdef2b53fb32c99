//! All tasks, and what a new session takes up again of them.

use vstd::prelude::*;
use crate::task_execution::{
    restart, ExecutionState, NewNode, NewTaskExecution, NodeChange, NodeFacts, NodeRecord,
    RowStatus, StoreError, TaskHead, TaskPhase, TaskState,
};
use crate::text::{is_text_before, same_text};

verus! {

impl NodeRecord {
    /// The node without this password.
    pub open spec fn without_password(self, id: i64) -> NodeRecord {
        match self.facts {
            Some(f) if f.password_id == Some(id) => NodeRecord {
                facts: Some(NodeFacts { password_id: None, ..f }),
                ..self
            },
            _ => self,
        }
    }

    /// Somebody of the last session was at work on the node.
    pub open spec fn was_held(self) -> bool {
        self.execution_state == ExecutionState::Running || self.execution_state
            == ExecutionState::WaitingResources || self.execution_state
            == ExecutionState::Persisting || self.execution_state == ExecutionState::Committing
            || self.execution_state == ExecutionState::Cancelling
    }

    /// The node as a new session finds it: one that may have published something is kept for
    /// a look, without its worker, and any other one starts over in its next generation.
    pub open spec fn reclaimed(self) -> NodeRecord {
        if self.status != RowStatus::Pending {
            self
        } else if self.commit_json is None {
            crate::task_execution::restarted(self)
        } else if self.was_held() {
            NodeRecord {
                execution_state: ExecutionState::Interrupted,
                attempt_id: None,
                ..self
            }
        } else {
            self
        }
    }

    fn reclaim(self) -> (r: NodeRecord)
        requires
            self.status == RowStatus::Pending ==> self.generation < i64::MAX,
        ensures
            r == self.reclaimed(),
    {
        let mut n = self;
        if n.status == RowStatus::Pending {
            if n.commit_json.is_none() {
                restart(&mut n);
            } else {
                match n.execution_state {
                    ExecutionState::Running
                    | ExecutionState::WaitingResources
                    | ExecutionState::Persisting
                    | ExecutionState::Committing
                    | ExecutionState::Cancelling => {
                        n.execution_state = ExecutionState::Interrupted;
                        n.attempt_id = None;
                    },
                    _ => {},
                }
            }
        }
        n
    }
}

impl TaskState {
    /// A new session takes the task up again.
    pub open spec fn is_recoverable(&self) -> bool {
        self.head.recoverable && !self.head.finished
    }

    /// Every node that has not ended has a next generation.
    pub open spec fn has_generations(&self) -> bool {
        forall|k: int|
            0 <= k < self.nodes@.len() && self.nodes@[k].status == RowStatus::Pending ==> (
            #[trigger] self.nodes@[k]).generation < i64::MAX
    }

    /// The new state is the old one, in the hands of a new session.
    pub open spec fn taken_over(&self, new: TaskState, owner_epoch: i64) -> bool {
        if self.is_recoverable() {
            &&& new.head == (TaskHead {
                owner_epoch,
                phase: if self.head.phase == TaskPhase::Running {
                    TaskPhase::Recovering
                } else {
                    self.head.phase
                },
                ..self.head
            })
            &&& new.nodes@.len() == self.nodes@.len()
            &&& forall|k: int|
                0 <= k < self.nodes@.len() ==> new.nodes@[k] == (
                #[trigger] self.nodes@[k]).reclaimed()
        } else {
            new == *self
        }
    }

    fn take_over(&mut self, owner_epoch: i64)
        requires
            old(self).wf(),
            old(self).has_generations(),
        ensures
            final(self).wf(),
            old(self).taken_over(*final(self), owner_epoch),
    {
        if !self.head.recoverable || self.head.finished {
            return;
        }
        let ghost was = *self;
        let mut i: usize = 0;
        while i < self.nodes.len()
            invariant
                i <= was.nodes@.len(),
                was.has_generations(),
                self.head == was.head,
                self.nodes@.len() == was.nodes@.len(),
                crate::task_execution::distinct(self.nodes@),
                forall|k: int|
                    0 <= k < i ==> self.nodes@[k] == (#[trigger] was.nodes@[k]).reclaimed(),
                forall|k: int|
                    i <= k < was.nodes@.len() ==> #[trigger] self.nodes@[k] == was.nodes@[k],
            decreases was.nodes@.len() - i,
        {
            let ghost before = self.nodes@;
            assert(before[i as int] == was.nodes@[i as int]);
            let node: NodeRecord = self.nodes.remove(i);
            self.nodes.insert(i, node.reclaim());
            proof {
                assert(self.nodes@ =~= before.update(i as int, self.nodes@[i as int]));
                assert forall|a: int, b: int| 0 <= a < b < self.nodes@.len() implies (
                #[trigger] self.nodes@[a]).node_id@ != (#[trigger] self.nodes@[b]).node_id@ by {
                    assert(before[a].node_id@ != before[b].node_id@);
                }
                assert forall|k: int| i < k < was.nodes@.len() implies #[trigger] self.nodes@[k]
                    == was.nodes@[k] by {
                    assert(before[k] == was.nodes@[k]);
                }
            }
            i += 1;
        }
        self.head.owner_epoch = owner_epoch;
        if self.head.phase == TaskPhase::Running {
            self.head.phase = TaskPhase::Recovering;
        }
    }

    /// The new state is the old one, without this password.
    pub open spec fn without_password(&self, new: TaskState, id: i64) -> bool {
        &&& new.head == self.head
        &&& new.nodes@ == self.nodes@.map_values(|n: NodeRecord| n.without_password(id))
    }

    fn forget_password(&mut self, id: i64)
        requires
            old(self).wf(),
        ensures
            final(self).wf(),
            old(self).without_password(*final(self), id),
    {
        let ghost was = self.nodes@;
        let ghost forget = |n: NodeRecord| n.without_password(id);
        let mut i: usize = 0;
        while i < self.nodes.len()
            invariant
                i <= self.nodes@.len(),
                self.nodes@.len() == was.len(),
                was == old(self).nodes@,
                self.head == old(self).head,
                forget == (|n: NodeRecord| n.without_password(id)),
                forall|k: int| 0 <= k < i ==> #[trigger] self.nodes@[k] == forget(was[k]),
                forall|k: int| i <= k < was.len() ==> #[trigger] self.nodes@[k] == was[k],
            decreases self.nodes.len() - i,
        {
            let mut node: NodeRecord = self.nodes.remove(i);
            if let Some(facts) = node.facts {
                let mut kept: NodeFacts = facts;
                if kept.password_id == Some(id) {
                    kept.password_id = None;
                }
                node.facts = Some(kept);
            }
            self.nodes.insert(i, node);
            i += 1;
        }
        assert(self.nodes@ =~= was.map_values(forget));
        proof {
            assert forall|a: int, b: int| 0 <= a < b < self.nodes@.len() implies (
            #[trigger] self.nodes@[a]).node_id@ != (#[trigger] self.nodes@[b]).node_id@ by {
                assert(was[a].node_id@ != was[b].node_id@);
            }
        }
    }

    fn pending_nodes(&self) -> (r: Vec<usize>)
        ensures
            lists_pending(r@, self.nodes@),
    {
        let mut r: Vec<usize> = Vec::new();
        let mut i: usize = 0;
        assert(self.nodes@.take(0) =~= Seq::<NodeRecord>::empty());
        while i < self.nodes.len()
            invariant
                i <= self.nodes@.len(),
                lists_pending(r@, self.nodes@.take(i as int)),
            decreases self.nodes.len() - i,
        {
            let ghost listed = r@;
            let ghost part = self.nodes@.take(i as int);
            let ghost next = self.nodes@.take(i + 1);
            if self.nodes[i].status == RowStatus::Pending {
                r.push(i);
            }
            proof {
                assert forall|k: int|
                    0 <= k < next.len() && (#[trigger] next[k]).status
                        == RowStatus::Pending implies exists|j: int|
                    0 <= j < r@.len() && #[trigger] r@[j] == k by {
                    if k < i {
                        assert(part[k] == next[k]);
                        let j = choose|j: int| 0 <= j < listed.len() && #[trigger] listed[j] == k;
                        assert(r@[j] == k);
                    } else {
                        assert(r@[r@.len() - 1] == k);
                    }
                }
                assert forall|j: int| 0 <= j < r@.len() implies (#[trigger] r@[j]) < next.len()
                    && next[r@[j] as int].status == RowStatus::Pending by {
                    if j < listed.len() {
                        assert(r@[j] == listed[j]);
                        assert(part[listed[j] as int] == next[listed[j] as int]);
                    }
                }
            }
            i += 1;
        }
        assert(self.nodes@.take(i as int) =~= self.nodes@);
        r
    }
}

/// These are the places of the nodes that have not ended, in order.
pub open spec fn lists_pending(places: Seq<usize>, nodes: Seq<NodeRecord>) -> bool {
    &&& forall|j: int|
        0 <= j < places.len() ==> (#[trigger] places[j]) < nodes.len()
            && nodes[places[j] as int].status == RowStatus::Pending
    &&& forall|i: int, j: int| 0 <= i < j < places.len() ==> places[i] < places[j]
    &&& forall|k: int|
        0 <= k < nodes.len() && (#[trigger] nodes[k]).status == RowStatus::Pending ==> exists|j: int|
            0 <= j < places.len() && #[trigger] places[j] == k
}

/// A task that a new session takes up again: which one it is, and which of its nodes have
/// not ended.
#[derive(Debug, PartialEq, Eq)]
pub struct RecoveredTaskRecord {
    pub task: usize,
    pub nodes: Vec<usize>,
}

/// The first task is taken up before the second one: the higher priority goes first, then
/// the earlier place in the queue, then the earlier start.
pub open spec fn resumes_before(a: TaskHead, b: TaskHead) -> bool {
    a.priority.rank() > b.priority.rank() || (a.priority == b.priority && (a.queue_position
        < b.queue_position || (a.queue_position == b.queue_position && crate::text::text_before(
        a.started_at@,
        b.started_at@,
    ))))
}

fn goes_before(a: &TaskHead, b: &TaskHead) -> (r: bool)
    ensures
        r == resumes_before(*a, *b),
{
    a.priority.number() > b.priority.number() || (a.priority == b.priority && (a.queue_position
        < b.queue_position || (a.queue_position == b.queue_position && is_text_before(
        a.started_at.as_str(),
        b.started_at.as_str(),
    ))))
}

/// All tasks, in the order in which they were taken in.
#[derive(Debug)]
pub struct TaskExecutionRepository {
    pub tasks: Vec<TaskState>,
}

impl TaskExecutionRepository {
    /// No two tasks have one name, and each one is sound.
    pub open spec fn wf(&self) -> bool {
        &&& forall|i: int| 0 <= i < self.tasks@.len() ==> (#[trigger] self.tasks@[i]).wf()
        &&& forall|i: int, j: int|
            0 <= i < j < self.tasks@.len() ==> (#[trigger] self.tasks@[i]).head.id@ != (
            #[trigger] self.tasks@[j]).head.id@
    }

    pub fn new() -> (r: TaskExecutionRepository)
        ensures
            r.wf(),
            r.tasks@.len() == 0,
    {
        TaskExecutionRepository { tasks: Vec::new() }
    }

    /// Where the task with this name is.
    pub fn find(&self, task_id: &str) -> (r: Option<usize>)
        ensures
            match r {
                Some(k) => k < self.tasks@.len() && self.tasks@[k as int].head.id@ == task_id@,
                None => forall|k: int|
                    0 <= k < self.tasks@.len() ==> (#[trigger] self.tasks@[k]).head.id@
                        != task_id@,
            },
    {
        let mut i: usize = 0;
        while i < self.tasks.len()
            invariant
                i <= self.tasks@.len(),
                forall|k: int| 0 <= k < i ==> (#[trigger] self.tasks@[k]).head.id@ != task_id@,
            decreases self.tasks.len() - i,
        {
            if same_text(self.tasks[i].head.id.as_str(), task_id) {
                return Some(i);
            }
            i += 1;
        }
        None
    }

    /// Forgets which password opened a node wherever it was this one.
    pub fn forget_password(&mut self, id: i64)
        requires
            old(self).wf(),
        ensures
            final(self).wf(),
            final(self).tasks@.len() == old(self).tasks@.len(),
            forall|k: int|
                0 <= k < old(self).tasks@.len() ==> (#[trigger] old(self).tasks@[k]).without_password(
                    final(self).tasks@[k],
                    id,
                ),
    {
        let ghost was = self.tasks@;
        let mut i: usize = 0;
        while i < self.tasks.len()
            invariant
                i <= self.tasks@.len(),
                self.tasks@.len() == was.len(),
                self.wf(),
                was == old(self).tasks@,
                forall|k: int|
                    0 <= k < i ==> (#[trigger] was[k]).without_password(self.tasks@[k], id),
                forall|k: int| i <= k < was.len() ==> #[trigger] self.tasks@[k] == was[k],
            decreases self.tasks.len() - i,
        {
            let ghost before = self.tasks@;
            assert(before[i as int].wf() && before[i as int] == was[i as int]);
            let mut task: TaskState = self.tasks.remove(i);
            task.forget_password(id);
            self.tasks.insert(i, task);
            proof {
                assert(self.tasks@ =~= before.update(i as int, task));
                assert forall|a: int| 0 <= a < self.tasks@.len() implies (
                #[trigger] self.tasks@[a]).wf() by {
                    assert(before[a].wf());
                }
                assert forall|a: int, b: int| 0 <= a < b < self.tasks@.len() implies (
                #[trigger] self.tasks@[a]).head.id@ != (#[trigger] self.tasks@[b]).head.id@ by {
                    assert(before[a].head.id@ != before[b].head.id@);
                }
                assert forall|k: int| i < k < was.len() implies #[trigger] self.tasks@[k]
                    == was[k] by {
                    assert(before[k] == was[k]);
                }
            }
            i += 1;
        }
    }

    /// A task as it is taken in: queued, not paused, with nothing committed.
    pub open spec fn queued(task: NewTaskExecution) -> TaskHead {
        TaskHead {
            id: task.id,
            kind: task.kind,
            output_path: task.output_path,
            started_at: task.started_at,
            inputs_json: task.inputs_json,
            config_snapshot_json: task.config_snapshot_json,
            priority: task.priority,
            queue_position: task.queue_position,
            paused: false,
            recoverable: task.recoverable,
            owner_epoch: task.owner_epoch,
            phase: TaskPhase::Queued,
            finished: false,
            committed_output_files: 0,
            committed_output_bytes: 0,
            nested_candidate_count: 0,
        }
    }

    /// Takes a task in with all its roots, or nothing of it.
    pub fn submit(&mut self, task: NewTaskExecution, roots: Vec<NewNode>) -> (r: Result<
        (),
        StoreError,
    >)
        requires
            old(self).wf(),
        ensures
            final(self).wf(),
            ({
                let taken = exists|k: int|
                    0 <= k < old(self).tasks@.len() && (#[trigger] old(self).tasks@[k]).head.id@
                        == task.id@;
                let twice = exists|i: int, j: int|
                    0 <= i < j < roots@.len() && (#[trigger] roots@[i]).id@ == (
                    #[trigger] roots@[j]).id@;
                match r {
                    Ok(()) => {
                        &&& !taken && !twice
                        &&& final(self).tasks@.len() == old(self).tasks@.len() + 1
                        &&& final(self).tasks@.drop_last() == old(self).tasks@
                        &&& final(self).tasks@.last().head == TaskExecutionRepository::queued(task)
                        &&& final(self).tasks@.last().nodes@.len() == roots@.len()
                        &&& forall|k: int|
                            #![trigger roots@[k]]
                            #![trigger final(self).tasks@.last().nodes@[k]]
                            0 <= k < roots@.len() ==> final(self).tasks@.last().nodes@[k]
                                == NodeRecord::fresh(roots@[k])
                    },
                    Err(StoreError::DuplicateTask) => taken && *final(self) == *old(self),
                    Err(e) => e == StoreError::DuplicateNode && !taken && twice && *final(self)
                        == *old(self),
                }
            }),
    {
        if self.find(task.id.as_str()).is_some() {
            return Err(StoreError::DuplicateTask);
        }
        let head = TaskHead {
            id: task.id,
            kind: task.kind,
            output_path: task.output_path,
            started_at: task.started_at,
            inputs_json: task.inputs_json,
            config_snapshot_json: task.config_snapshot_json,
            priority: task.priority,
            queue_position: task.queue_position,
            paused: false,
            recoverable: task.recoverable,
            owner_epoch: task.owner_epoch,
            phase: TaskPhase::Queued,
            finished: false,
            committed_output_files: 0,
            committed_output_bytes: 0,
            nested_candidate_count: 0,
        };
        let ghost all = roots@;
        let mut state = TaskState { head, nodes: Vec::new() };
        let mut rest = roots;
        while rest.len() > 0
            invariant
                state.wf(),
                state.head == TaskExecutionRepository::queued(task),
                rest@.len() + state.nodes@.len() == all.len(),
                rest@ == all.skip(state.nodes@.len() as int),
                forall|k: int|
                    0 <= k < state.nodes@.len() ==> #[trigger] state.nodes@[k]
                        == NodeRecord::fresh(all[k]),
                *self == *old(self),
                self.wf(),
                forall|k: int|
                    0 <= k < self.tasks@.len() ==> (#[trigger] self.tasks@[k]).head.id@
                        != task.id@,
                roots@ == all,
            decreases rest@.len(),
        {
            let ghost done = state.nodes@.len() as int;
            let root: NewNode = rest.remove(0);
            assert(root == all[done]);
            assert(rest@ =~= all.skip(done + 1));
            if state.holds_node(root.id.as_str()) {
                proof {
                    let k = choose|k: int|
                        0 <= k < state.nodes@.len() && (#[trigger] state.nodes@[k]).node_id@
                            == root.id@;
                    assert(state.nodes@[k] == NodeRecord::fresh(all[k]));
                    assert(all[k].id@ == all[done].id@);
                }
                return Err(StoreError::DuplicateNode);
            }
            let node = NodeRecord::from_new(root);
            state.nodes.push(node);
        }
        proof {
            assert forall|i: int, j: int| 0 <= i < j < all.len() implies (#[trigger] all[i]).id@
                != (#[trigger] all[j]).id@ by {
                assert(state.nodes@[i].node_id@ != state.nodes@[j].node_id@);
            }
        }
        self.tasks.push(state);
        assert(self.tasks@.drop_last() =~= old(self).tasks@);
        proof {
            assert forall|k: int| 0 <= k < roots@.len() implies self.tasks@.last().nodes@[k]
                == NodeRecord::fresh(#[trigger] roots@[k]) by {
                assert(state.nodes@[k] == NodeRecord::fresh(all[k]));
            }
        }
        Ok(())
    }

    /// These are the tasks that are taken up again, each one once, in the order in which they
    /// go on.
    pub open spec fn resumes(tasks: Seq<TaskState>, r: Seq<RecoveredTaskRecord>) -> bool {
        resumes_up_to(tasks, r, tasks.len() as int)
    }

    /// Takes up what an earlier session has left unfinished.
    pub fn claim_recoverable(&mut self, owner_epoch: i64) -> (r: Vec<RecoveredTaskRecord>)
        requires
            old(self).wf(),
            forall|i: int|
                0 <= i < old(self).tasks@.len() ==> (
                #[trigger] old(self).tasks@[i]).has_generations(),
        ensures
            final(self).wf(),
            final(self).tasks@.len() == old(self).tasks@.len(),
            forall|i: int|
                0 <= i < old(self).tasks@.len() ==> (#[trigger] old(self).tasks@[i]).taken_over(
                    final(self).tasks@[i],
                    owner_epoch,
                ),
            TaskExecutionRepository::resumes(final(self).tasks@, r@),
    {
        let ghost was = self.tasks@;
        let mut i: usize = 0;
        while i < self.tasks.len()
            invariant
                i <= was.len(),
                self.tasks@.len() == was.len(),
                forall|k: int| 0 <= k < was.len() ==> (#[trigger] was[k]).has_generations(),
                forall|k: int| 0 <= k < was.len() ==> (#[trigger] was[k]).wf(),
                self.wf(),
                forall|k: int|
                    0 <= k < i ==> (#[trigger] was[k]).taken_over(self.tasks@[k], owner_epoch),
                forall|k: int| i <= k < was.len() ==> #[trigger] self.tasks@[k] == was[k],
            decreases was.len() - i,
        {
            let ghost before = self.tasks@;
            assert(before[i as int] == was[i as int]);
            let mut task: TaskState = self.tasks.remove(i);
            task.take_over(owner_epoch);
            self.tasks.insert(i, task);
            proof {
                assert(self.tasks@ =~= before.update(i as int, task));
                assert forall|a: int, b: int| 0 <= a < b < self.tasks@.len() implies (
                #[trigger] self.tasks@[a]).head.id@ != (#[trigger] self.tasks@[b]).head.id@ by {
                    assert(before[a].head.id@ != before[b].head.id@);
                }
                assert forall|k: int| i < k < was.len() implies #[trigger] self.tasks@[k]
                    == was[k] by {
                    assert(before[k] == was[k]);
                }
            }
            i += 1;
        }
        self.recovered()
    }

    fn recovered(&self) -> (r: Vec<RecoveredTaskRecord>)
        ensures
            TaskExecutionRepository::resumes(self.tasks@, r@),
    {
        let mut r: Vec<RecoveredTaskRecord> = Vec::new();
        let mut i: usize = 0;
        while i < self.tasks.len()
            invariant
                i <= self.tasks@.len(),
                resumes_up_to(self.tasks@, r@, i as int),
            decreases self.tasks.len() - i,
        {
            if self.tasks[i].head.recoverable && !self.tasks[i].head.finished {
                self.place(&mut r, i);
            }
            i += 1;
        }
        r
    }

    fn place(&self, r: &mut Vec<RecoveredTaskRecord>, task: usize)
        requires
            task < self.tasks@.len(),
            self.tasks@[task as int].is_recoverable(),
            resumes_up_to(self.tasks@, old(r)@, task as int),
        ensures
            resumes_up_to(self.tasks@, final(r)@, task + 1),
    {
        let ghost was = r@;
        let ghost tasks = self.tasks@;
        let mut at: usize = 0;
        while at < r.len() && !goes_before(
            &self.tasks[task].head,
            &self.tasks[r[at].task].head,
        )
            invariant
                at <= r@.len(),
                r@ == was,
                tasks == self.tasks@,
                task < tasks.len(),
                resumes_up_to(tasks, was, task as int),
                forall|k: int|
                    0 <= k < at ==> !resumes_before(
                        tasks[task as int].head,
                        tasks[(#[trigger] was[k]).task as int].head,
                    ),
            decreases r@.len() - at,
        {
            at += 1;
        }
        let nodes = self.tasks[task].pending_nodes();
        r.insert(at, RecoveredTaskRecord { task, nodes });
        proof {
            let new = r@;
            let spot = at as int;
            let head = tasks[task as int].head;
            assert forall|i: int, j: int| 0 <= i < j < new.len() implies (#[trigger] new[i]).task
                != (#[trigger] new[j]).task && !resumes_before(
                tasks[new[j].task as int].head,
                tasks[new[i].task as int].head,
            ) by {
                let a = if i < spot { i } else { i - 1 };
                let b = if j < spot { j } else { j - 1 };
                if i != spot && j != spot {
                    assert(new[i] == was[a] && new[j] == was[b]);
                } else if i == spot {
                    assert(new[j] == was[j - 1]);
                    let first = tasks[was[spot].task as int].head;
                    let later = tasks[was[j - 1].task as int].head;
                    assert(resumes_before(head, first));
                    assert(spot == j - 1 || !resumes_before(later, first));
                    lemma_resume_order(head, first, later);
                } else {
                    assert(new[i] == was[i]);
                }
            }
            assert forall|k: int|
                0 <= k <= task && (#[trigger] tasks[k]).is_recoverable() implies exists|i: int|
                0 <= i < new.len() && (#[trigger] new[i]).task == k by {
                if k == task {
                    assert(new[spot].task == k);
                } else {
                    let i = choose|i: int| 0 <= i < was.len() && (#[trigger] was[i]).task == k;
                    if i < spot {
                        assert(new[i] == was[i]);
                    } else {
                        assert(new[i + 1] == was[i]);
                    }
                }
            }
            assert forall|i: int| 0 <= i < new.len() implies (#[trigger] new[i]).task <= task
                && tasks[new[i].task as int].is_recoverable() && lists_pending(
                new[i].nodes@,
                tasks[new[i].task as int].nodes@,
            ) by {
                if i < spot {
                    assert(new[i] == was[i]);
                } else if i > spot {
                    assert(new[i] == was[i - 1]);
                }
            }
        }
    }
}

/// Of the first tasks, those that are taken up again, in the order in which they go on.
pub open spec fn resumes_up_to(tasks: Seq<TaskState>, r: Seq<RecoveredTaskRecord>, n: int) -> bool {
    &&& n <= tasks.len()
    &&& forall|i: int|
        0 <= i < r.len() ==> (#[trigger] r[i]).task < n && tasks[r[i].task as int].is_recoverable()
            && lists_pending(r[i].nodes@, tasks[r[i].task as int].nodes@)
    &&& forall|i: int, j: int|
        0 <= i < j < r.len() ==> (#[trigger] r[i]).task != (#[trigger] r[j]).task
            && !resumes_before(tasks[r[j].task as int].head, tasks[r[i].task as int].head)
    &&& forall|k: int|
        0 <= k < n && (#[trigger] tasks[k]).is_recoverable() ==> exists|i: int|
            0 <= i < r.len() && (#[trigger] r[i]).task == k
}

/// One that goes before `b` is not behind anything that `b` is not behind.
proof fn lemma_resume_order(a: TaskHead, b: TaskHead, c: TaskHead)
    requires
        resumes_before(a, b),
        b == c || !resumes_before(c, b),
    ensures
        !resumes_before(c, a),
{
    let x = vstd::utf8::encode_utf8(a.started_at@);
    let y = vstd::utf8::encode_utf8(b.started_at@);
    let z = vstd::utf8::encode_utf8(c.started_at@);
    crate::text::lemma_before_total(x, y);
    crate::text::lemma_before_total(x, z);
    if crate::text::bytes_before(z, x) && crate::text::bytes_before(x, y) {
        crate::text::lemma_before_transitive(z, x, y);
    }
}

/// When a new session has taken a task over, no worker of the last one is at work on its
/// nodes, and whoever knows an earlier generation of a node without a commit is refused.
pub proof fn last_session_is_shut_out(
    old: TaskState,
    new: TaskState,
    owner_epoch: i64,
    k: int,
    change: NodeChange,
)
    requires
        old.wf(),
        old.has_generations(),
        old.is_recoverable(),
        old.taken_over(new, owner_epoch),
        0 <= k < old.nodes@.len(),
    ensures
        new.nodes@[k].status == RowStatus::Pending ==> !new.nodes@[k].was_held(),
        old.nodes@[k].is_open() ==> new.refuses(
            old.nodes@[k].node_id@,
            old.nodes@[k].generation,
            change,
        ),
        old.nodes@[k].awaits_recovery() ==> new.nodes@[k].commit_json == old.nodes@[k].commit_json
            && new.nodes@[k].generation == old.nodes@[k].generation,
{
    let n = old.nodes@[k];
    if n.is_open() {
        assert forall|i: int| #[trigger]
            new.live_at(i, n.node_id@, n.generation) implies !change.admitted(new.nodes@[i]) by {
            assert(new.nodes@[i] == old.nodes@[i].reclaimed());
            if i != k {
                assert(old.nodes@[i].node_id@ == old.nodes@[k].node_id@);
            }
        }
    }
}

/// A paused task stays paused when a new session takes it over.
pub proof fn takeover_keeps_pause(old: TaskState, new: TaskState, owner_epoch: i64)
    requires
        old.taken_over(new, owner_epoch),
    ensures
        new.head.paused == old.head.paused,
        new.head.priority == old.head.priority,
        new.head.queue_position == old.head.queue_position,
        new.head.committed_output_files == old.head.committed_output_files,
        new.head.committed_output_bytes == old.head.committed_output_bytes,
{
}

/// What has ended stays as it is. What has not ended and has announced nothing starts over, in a
/// generation that no worker of the last session knows. What may have published something keeps
/// its generation and what it announced, and nobody is at work on it.
pub proof fn takeover_frees_the_nodes(n: NodeRecord)
    requires
        n.generation < i64::MAX,
    ensures
        ({
            let after = n.reclaimed();
            &&& after.node_id == n.node_id
            &&& after.status == n.status
            &&& after.commit_json == n.commit_json
            &&& after.input_ref_json == n.input_ref_json
            &&& n.status != RowStatus::Pending ==> after == n
            &&& n.status == RowStatus::Pending && n.commit_json is None ==> {
                &&& after.generation == n.generation + 1
                &&& after.execution_state == ExecutionState::Ready
                &&& after.attempt_id is None
                &&& after.decision is None
            }
            &&& n.status == RowStatus::Pending && n.commit_json is Some ==> {
                &&& after.generation == n.generation
                &&& after.execution_state != ExecutionState::Running
                &&& after.execution_state != ExecutionState::Committing
                &&& after.execution_state != ExecutionState::Persisting
                &&& after.execution_state != ExecutionState::Cancelling
                &&& after.execution_state != ExecutionState::WaitingResources
                &&& after.execution_state == ExecutionState::Interrupted || after == n
            }
        }),
{
}

/// A new session takes over exactly the tasks that are recoverable and have not finished. Such a
/// task belongs to it, is recovering where it was running, and has lost nothing that it committed.
pub proof fn takeover_claims_the_unfinished(before: TaskState, after: TaskState, owner_epoch: i64)
    requires
        before.taken_over(after, owner_epoch),
    ensures
        before.head.finished || !before.head.recoverable ==> after == before,
        !before.head.finished && before.head.recoverable ==> {
            &&& after.head.owner_epoch == owner_epoch
            &&& before.head.phase == TaskPhase::Running ==> after.head.phase
                == TaskPhase::Recovering
            &&& before.head.phase != TaskPhase::Running ==> after.head.phase == before.head.phase
            &&& !after.head.finished
            &&& after.head.committed_output_files == before.head.committed_output_files
            &&& after.head.committed_output_bytes == before.head.committed_output_bytes
            &&& after.head.nested_candidate_count == before.head.nested_candidate_count
            &&& after.head.priority == before.head.priority
            &&& after.head.queue_position == before.head.queue_position
            &&& after.nodes@.len() == before.nodes@.len()
        },
{
}

/// Tasks go on by falling priority; of one priority the earlier place in the queue goes first, and
/// of one place the earlier start.
pub proof fn resumed_tasks_go_by_priority(
    tasks: Seq<TaskState>,
    resumed: Seq<RecoveredTaskRecord>,
    i: int,
    j: int,
)
    requires
        TaskExecutionRepository::resumes(tasks, resumed),
        0 <= i < j < resumed.len(),
    ensures
        ({
            let a = tasks[resumed[i].task as int].head;
            let b = tasks[resumed[j].task as int].head;
            &&& b.priority == crate::task_execution::Priority::High ==> a.priority
                == crate::task_execution::Priority::High
            &&& a.priority == crate::task_execution::Priority::Background ==> b.priority
                == crate::task_execution::Priority::Background
            &&& a.priority == b.priority ==> a.queue_position <= b.queue_position
            &&& a.priority == b.priority && a.queue_position == b.queue_position
                ==> !crate::text::text_before(b.started_at@, a.started_at@)
            &&& a.recoverable && !a.finished && b.recoverable && !b.finished
        }),
{
}

/// A task that is taken in waits in the queue: it has not begun, is not paused, and has written
/// nothing.
pub proof fn submitted_task_waits(task: NewTaskExecution)
    ensures
        ({
            let head = TaskExecutionRepository::queued(task);
            &&& head.phase == TaskPhase::Queued
            &&& !head.finished && !head.paused
            &&& head.committed_output_files == 0 && head.committed_output_bytes == 0
            &&& head.nested_candidate_count == 0
            &&& head.id == task.id && head.kind == task.kind
            &&& head.output_path == task.output_path
            &&& head.priority == task.priority
            &&& head.queue_position == task.queue_position
            &&& head.recoverable == task.recoverable
            &&& head.owner_epoch == task.owner_epoch
            &&& head.config_snapshot_json == task.config_snapshot_json
        }),
{
}

/// A password that is forgotten stands at no node any more, and nothing else of a node changes.
pub proof fn forgotten_password_is_gone(n: NodeRecord, id: i64)
    ensures
        ({
            let after = n.without_password(id);
            &&& crate::file_extractions::node_password(after) != Some(id)
            &&& crate::file_extractions::node_password(n) != Some(id) ==> after == n
            &&& after.status == n.status && after.node_id == n.node_id
            &&& after.facts is Some == n.facts is Some
            &&& after.facts matches Some(f) ==> f.output_path == n.facts->0.output_path
                && f.sample_hash == n.facts->0.sample_hash && f.has_password
                == n.facts->0.has_password
        }),
{
}

} // verus!
