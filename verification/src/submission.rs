//! Taking tasks in, and taking up those that an earlier session has left.

use vstd::prelude::*;
use vstd::string::*;
use crate::coordinator::{ScheduledTask, TaskCoordinator, TaskPriority};
use crate::execution::{ExtractRootIdentity, ExtractTaskIdentity, TaskBudgetSnapshot};
use crate::execution_runtime::{NodeResources, RuntimeState};
use crate::recovery::RecoveredTaskRecord;
use crate::resources::ResourceCapacity;
use crate::task_execution::{ExecutionState, NodeRecord, RowStatus, TaskState};
use crate::text::same_text;
use crate::types::ExtractionCandidate;

verus! {

/// Why a task cannot be taken in, or not be put at a place.
#[derive(Clone, Copy, Debug, PartialEq, Eq, Structural)]
pub enum SubmissionError {
    NoOutputPath,
    NegativePosition,
    PositionTooLarge,
}

impl SubmissionError {
    /// The words for it.
    pub open spec fn text(self) -> Seq<char> {
        match self {
            SubmissionError::NoOutputPath => "extract task requires an output path"@,
            SubmissionError::NegativePosition => "queue position must be non-negative"@,
            SubmissionError::PositionTooLarge => "queue position exceeds SQLite integer"@,
        }
    }

    pub fn describe(self) -> (r: &'static str)
        ensures
            r@ == self.text(),
    {
        match self {
            SubmissionError::NoOutputPath => "extract task requires an output path",
            SubmissionError::NegativePosition => "queue position must be non-negative",
            SubmissionError::PositionTooLarge => "queue position exceeds SQLite integer",
        }
    }
}

/// Why a recovered task cannot go on.
#[derive(Clone, Copy, Debug, PartialEq, Eq, Structural)]
pub enum RecoveryError {
    NoOutputPath,
    NegativePosition,
    NeedsReconciliation,
    NoSnapshot,
    /// The node at this place among the recovered ones.
    NegativeGeneration(usize),
}

impl RecoveryError {
    /// The words for it, with the name of the task, or of the node.
    pub open spec fn text(self, name: Seq<char>) -> Seq<char> {
        match self {
            RecoveryError::NoOutputPath => "recoverable task "@ + name + " has no output path"@,
            RecoveryError::NegativePosition => "recoverable task "@ + name
                + " has a negative queue position"@,
            RecoveryError::NeedsReconciliation => "recoverable task "@ + name
                + " requires commit reconciliation"@,
            RecoveryError::NoSnapshot => "recoverable task "@ + name
                + " has no configuration snapshot"@,
            RecoveryError::NegativeGeneration(_) => "recoverable node "@ + name
                + " has a negative generation"@,
        }
    }

    pub fn describe(self, name: &str) -> (r: String)
        ensures
            r@ == self.text(name@),
    {
        let mut text: String = match self {
            RecoveryError::NegativeGeneration(_) => "recoverable node ".to_owned(),
            _ => "recoverable task ".to_owned(),
        };
        text.append(name);
        match self {
            RecoveryError::NoOutputPath => text.append(" has no output path"),
            RecoveryError::NegativePosition => text.append(" has a negative queue position"),
            RecoveryError::NeedsReconciliation => text.append(" requires commit reconciliation"),
            RecoveryError::NoSnapshot => text.append(" has no configuration snapshot"),
            RecoveryError::NegativeGeneration(_) => text.append(" has a negative generation"),
        }
        text
    }
}

/// A new task needs a place for its output, and a position that is not negative.
pub fn check_submission(output_path: &Option<String>, queue_position: i64) -> (r: Result<
    u64,
    SubmissionError,
>)
    ensures
        r == (if *output_path is None {
            Err::<u64, SubmissionError>(SubmissionError::NoOutputPath)
        } else if queue_position < 0 {
            Err(SubmissionError::NegativePosition)
        } else {
            Ok(queue_position as u64)
        }),
        r is Ok <==> *output_path is Some && queue_position >= 0,
        r matches Ok(position) ==> position as int == queue_position as int,
        r == Err::<u64, SubmissionError>(SubmissionError::NoOutputPath) <==> *output_path is None,
{
    if output_path.is_none() {
        Err(SubmissionError::NoOutputPath)
    } else if queue_position < 0 {
        Err(SubmissionError::NegativePosition)
    } else {
        Ok(queue_position as u64)
    }
}

/// So does a recovered one.
pub fn check_recovered(output_path: &Option<String>, queue_position: i64) -> (r: Result<
    u64,
    RecoveryError,
>)
    ensures
        r == (if *output_path is None {
            Err::<u64, RecoveryError>(RecoveryError::NoOutputPath)
        } else if queue_position < 0 {
            Err(RecoveryError::NegativePosition)
        } else {
            Ok(queue_position as u64)
        }),
        r is Ok <==> *output_path is Some && queue_position >= 0,
        r matches Ok(position) ==> position as int == queue_position as int,
        r == Err::<u64, RecoveryError>(RecoveryError::NoOutputPath) <==> *output_path is None,
{
    match check_submission(output_path, queue_position) {
        Ok(position) => Ok(position),
        Err(SubmissionError::NoOutputPath) => Err(RecoveryError::NoOutputPath),
        Err(_) => Err(RecoveryError::NegativePosition),
    }
}

/// A position as it is stored.
pub fn stored_position(queue_position: u64) -> (r: Result<i64, SubmissionError>)
    ensures
        r == (if queue_position > i64::MAX {
            Err::<i64, SubmissionError>(SubmissionError::PositionTooLarge)
        } else {
            Ok(queue_position as i64)
        }),
        r is Ok <==> queue_position <= i64::MAX,
        r matches Ok(position) ==> position as int == queue_position as int,
{
    if queue_position > i64::MAX as u64 {
        Err(SubmissionError::PositionTooLarge)
    } else {
        Ok(queue_position as i64)
    }
}

/// The nodes, with one more, in place of one with the same name.
pub open spec fn with_node(nodes: Seq<NodeResources>, n: NodeResources) -> Seq<NodeResources> {
    if exists|k: int|
        0 <= k < nodes.len() && crate::execution_runtime::is_node(
            #[trigger] nodes[k],
            n.task_id@,
            n.node_id@,
        ) {
        Seq::new(
            nodes.len(),
            |k: int|
                if crate::execution_runtime::is_node(nodes[k], n.task_id@, n.node_id@) {
                    n
                } else {
                    nodes[k]
                },
        )
    } else {
        nodes.push(n)
    }
}

/// The nodes, with these, one after the other.
pub open spec fn with_nodes(nodes: Seq<NodeResources>, more: Seq<NodeResources>) -> Seq<
    NodeResources,
>
    decreases more.len(),
{
    if more.len() == 0 {
        nodes
    } else {
        with_node(with_nodes(nodes, more.drop_last()), more.last())
    }
}

/// What there is, once the devices of these nodes are known.
pub open spec fn with_all_domains(
    limits: crate::resources::Demand,
    more: Seq<NodeResources>,
) -> crate::resources::Demand
    decreases more.len(),
{
    if more.len() == 0 {
        limits
    } else {
        crate::execution_runtime::with_domains(
            with_all_domains(limits, more.drop_last()),
            more.last(),
        )
    }
}

/// The scheduler, with a task that was taken in. One that is known keeps its priority, its
/// service and what waits for it.
pub open spec fn took_in(
    a: TaskCoordinator,
    b: TaskCoordinator,
    task_id: Seq<char>,
    priority: TaskPriority,
    position: u64,
    paused: Option<bool>,
) -> bool {
    &&& b.positions() == a.positions() + 1
    &&& if a.is_unknown(task_id) {
        exists|at: int|
            {
                &&& 0 <= at < b.tasks().len()
                &&& b.tasks().remove(at) == a.tasks()
                &&& (#[trigger] b.tasks()[at]).task_id@ == task_id
                &&& b.tasks()[at].priority == priority
                &&& b.tasks()[at].queue_position == position
                &&& b.tasks()[at].paused == (paused == Some(true))
                &&& b.tasks()[at].service == 0
                &&& b.tasks()[at].roots@.len() == 0
            }
    } else {
        &&& b.tasks().len() == a.tasks().len()
        &&& forall|i: int|
            0 <= i < a.tasks().len() ==> #[trigger] b.tasks()[i] == (if a.is_at(i, task_id) {
                ScheduledTask {
                    queue_position: position,
                    paused: match paused {
                        Some(p) => p,
                        None => a.tasks()[i].paused,
                    },
                    ..a.tasks()[i]
                }
            } else {
                a.tasks()[i]
            })
    }
}

impl RuntimeState {
    /// Takes a task in with the nodes that it starts from.
    pub fn submit(
        &mut self,
        task_id: String,
        priority: TaskPriority,
        queue_position: u64,
        paused: Option<bool>,
        nodes: Vec<NodeResources>,
    )
        requires
            old(self).wf(),
            old(self).coordinator.positions() < u64::MAX,
        ensures
            final(self).wf(),
            final(self).active == old(self).active,
            took_in(
                old(self).coordinator,
                final(self).coordinator,
                task_id@,
                priority,
                queue_position,
                paused,
            ),
            final(self).coordinator.broker().grants() == old(self).coordinator.broker().grants(),
            final(self).coordinator.broker().in_use() == old(self).coordinator.broker().in_use(),
            final(self).coordinator.broker().last_lease()
                == old(self).coordinator.broker().last_lease(),
            final(self).lease_need() == old(self).lease_need(),
            final(self).coordinator.broker().limits() == with_all_domains(
                old(self).coordinator.broker().limits(),
                nodes@,
            ),
            final(self).nodes@ == with_nodes(old(self).nodes@, nodes@),
    {
        let ghost was = *self;
        let name: String = task_id.clone();
        self.coordinator.submit(task_id, priority);
        let ghost submitted = self.coordinator;
        self.coordinator.reorder(name.as_str(), queue_position);
        let ghost placed = self.coordinator;
        if let Some(p) = paused {
            self.coordinator.set_paused(name.as_str(), p);
        }
        proof {
            lemma_took_in(
                was.coordinator,
                submitted,
                placed,
                self.coordinator,
                task_id,
                priority,
                queue_position,
                paused,
            );
            assert forall|i: int| 0 <= i < self.active@.len() implies crate::execution_runtime::is_held(
                self.coordinator,
                #[trigger] self.active@[i],
            ) by {
                assert(crate::execution_runtime::is_held(was.coordinator, was.active@[i]));
            }
        }
        let ghost ready = *self;
        let ghost all = nodes@;
        let ghost mut done: int = 0;
        let mut rest = nodes;
        assert(all.skip(0) =~= all);
        assert(all.take(0) =~= Seq::<NodeResources>::empty());
        while rest.len() > 0
            invariant
                0 <= done <= all.len(),
                rest@ == all.skip(done),
                self.wf(),
                self.active == was.active,
                self.coordinator.tasks() == ready.coordinator.tasks(),
                self.coordinator.positions() == ready.coordinator.positions(),
                self.coordinator.broker().grants() == ready.coordinator.broker().grants(),
                self.coordinator.broker().in_use() == ready.coordinator.broker().in_use(),
                self.coordinator.broker().last_lease()
                    == ready.coordinator.broker().last_lease(),
                self.coordinator.broker().limits() == with_all_domains(
                    ready.coordinator.broker().limits(),
                    all.take(done),
                ),
                self.nodes@ == with_nodes(was.nodes@, all.take(done)),
            decreases rest@.len(),
        {
            let node: NodeResources = rest.remove(0);
            let ghost before = *self;
            proof {
                assert(node == all[done]);
                assert(rest@ =~= all.skip(done + 1));
                assert(all.take(done + 1).drop_last() =~= all.take(done));
                assert(all.take(done + 1).last() == node);
            }
            self.register(node);
            proof {
                lemma_registered(before, *self, node);
                done = done + 1;
            }
        }
        assert(all.take(done) =~= all);
        proof {
            lemma_same_waiting(was.coordinator, self.coordinator, name@, priority, queue_position, paused);
        }
    }
}

proof fn lemma_same_waiting(
    a: TaskCoordinator,
    b: TaskCoordinator,
    task_id: Seq<char>,
    priority: TaskPriority,
    position: u64,
    paused: Option<bool>,
)
    requires
        took_in(a, b, task_id, priority, position, paused),
    ensures
        crate::execution_runtime::waiting_in(b.tasks()) == crate::execution_runtime::waiting_in(
            a.tasks(),
        ),
{
    if a.is_unknown(task_id) {
        let at = choose|at: int|
            {
                &&& 0 <= at < b.tasks().len()
                &&& b.tasks().remove(at) == a.tasks()
                &&& (#[trigger] b.tasks()[at]).task_id@ == task_id
                &&& b.tasks()[at].priority == priority
                &&& b.tasks()[at].queue_position == position
                &&& b.tasks()[at].paused == (paused == Some(true))
                &&& b.tasks()[at].service == 0
                &&& b.tasks()[at].roots@.len() == 0
            };
        crate::execution_runtime::lemma_removed_waiting(b.tasks(), at);
    } else {
        assert forall|i: int| 0 <= i < a.tasks().len() implies (#[trigger] b.tasks()[i]).roots
            == a.tasks()[i].roots by {}
        crate::execution_runtime::lemma_fewer_waiting(a.tasks(), b.tasks());
        assert forall|i: int| 0 <= i < b.tasks().len() implies crate::execution_runtime::waiting_of(
            (#[trigger] a.tasks()[i]).roots@,
        ) <= crate::execution_runtime::waiting_of(b.tasks()[i].roots@) by {
            assert(b.tasks()[i].roots == a.tasks()[i].roots);
        }
        crate::execution_runtime::lemma_fewer_waiting(b.tasks(), a.tasks());
    }
}

proof fn lemma_registered(a: RuntimeState, b: RuntimeState, n: NodeResources)
    requires
        a.wf(),
        forall|k: int| #[trigger]
            a.knows_at(k, n.task_id@, n.node_id@) ==> b.nodes@ == a.nodes@.update(k, n),
        (forall|k: int| !#[trigger] a.knows_at(k, n.task_id@, n.node_id@)) ==> b.nodes@
            == a.nodes@.push(n),
    ensures
        b.nodes@ == with_node(a.nodes@, n),
{
    let nodes = a.nodes@;
    if exists|k: int|
        0 <= k < nodes.len() && crate::execution_runtime::is_node(
            #[trigger] nodes[k],
            n.task_id@,
            n.node_id@,
        ) {
        let k = choose|k: int|
            0 <= k < nodes.len() && crate::execution_runtime::is_node(
                #[trigger] nodes[k],
                n.task_id@,
                n.node_id@,
            );
        assert(a.knows_at(k, n.task_id@, n.node_id@));
        assert forall|j: int|
            0 <= j < nodes.len() && crate::execution_runtime::is_node(
                #[trigger] nodes[j],
                n.task_id@,
                n.node_id@,
            ) implies j == k by {
            if j < k {
                assert(!crate::execution_runtime::is_node(
                    nodes[k],
                    nodes[j].task_id@,
                    nodes[j].node_id@,
                ));
            } else if k < j {
                assert(!crate::execution_runtime::is_node(
                    nodes[j],
                    nodes[k].task_id@,
                    nodes[k].node_id@,
                ));
            }
        }
        assert(b.nodes@ =~= with_node(nodes, n));
    } else {
        assert forall|k: int| !#[trigger] a.knows_at(k, n.task_id@, n.node_id@) by {
            if 0 <= k < nodes.len() {
                assert(!crate::execution_runtime::is_node(nodes[k], n.task_id@, n.node_id@));
            }
        }
    }
}

proof fn lemma_took_in(
    a: TaskCoordinator,
    submitted: TaskCoordinator,
    placed: TaskCoordinator,
    b: TaskCoordinator,
    task_id: String,
    priority: TaskPriority,
    position: u64,
    paused: Option<bool>,
)
    requires
        a.wf(),
        submitted.wf(),
        a.positions() < u64::MAX,
        submitted.positions() == a.positions() + 1,
        !a.is_unknown(task_id@) ==> submitted.tasks() == a.tasks(),
        a.is_unknown(task_id@) ==> exists|at: int|
            {
                &&& 0 <= at <= a.tasks().len()
                &&& submitted.tasks().len() == a.tasks().len() + 1
                &&& (#[trigger] submitted.tasks()[at]).task_id == task_id
                &&& submitted.tasks().remove(at) == a.tasks()
                &&& submitted.tasks()[at].priority == priority
                &&& submitted.tasks()[at].queue_position == a.positions()
                &&& !submitted.tasks()[at].paused
                &&& submitted.tasks()[at].service == 0
                &&& submitted.tasks()[at].roots@.len() == 0
            },
        placed.positions() == submitted.positions(),
        placed.tasks().len() == submitted.tasks().len(),
        forall|i: int|
            0 <= i < submitted.tasks().len() ==> #[trigger] placed.tasks()[i] == (
            if submitted.is_at(i, task_id@) {
                ScheduledTask { queue_position: position, ..submitted.tasks()[i] }
            } else {
                submitted.tasks()[i]
            }),
        b.positions() == placed.positions(),
        b.tasks().len() == placed.tasks().len(),
        forall|i: int|
            0 <= i < placed.tasks().len() ==> #[trigger] b.tasks()[i] == (
            if placed.is_at(i, task_id@) && paused is Some {
                ScheduledTask { paused: paused->0, ..placed.tasks()[i] }
            } else {
                placed.tasks()[i]
            }),
    ensures
        took_in(a, b, task_id@, priority, position, paused),
{
    if a.is_unknown(task_id@) {
        let at = choose|at: int|
            {
                &&& 0 <= at <= a.tasks().len()
                &&& submitted.tasks().len() == a.tasks().len() + 1
                &&& (#[trigger] submitted.tasks()[at]).task_id == task_id
                &&& submitted.tasks().remove(at) == a.tasks()
                &&& submitted.tasks()[at].priority == priority
                &&& submitted.tasks()[at].queue_position == a.positions()
                &&& !submitted.tasks()[at].paused
                &&& submitted.tasks()[at].service == 0
                &&& submitted.tasks()[at].roots@.len() == 0
            };
        assert(submitted.is_at(at, task_id@));
        assert(placed.tasks()[at].task_id@ == task_id@);
        assert(placed.is_at(at, task_id@));
        assert(b.tasks()[at].task_id@ == task_id@);
        assert forall|i: int| 0 <= i < b.tasks().len() && i != at implies b.tasks()[i]
            == submitted.tasks()[i] by {
            let j = if i < at { i } else { i - 1 };
            assert(submitted.tasks().remove(at)[j] == submitted.tasks()[i]);
            assert(a.tasks()[j].task_id@ != task_id@);
            assert(!submitted.is_at(i, task_id@));
            assert(placed.tasks()[i] == submitted.tasks()[i]);
            assert(!placed.is_at(i, task_id@));
        }
        assert(b.tasks().remove(at) =~= submitted.tasks().remove(at));
    } else {
        assert forall|i: int| 0 <= i < a.tasks().len() implies #[trigger] b.tasks()[i] == (
        if a.is_at(i, task_id@) {
            ScheduledTask {
                queue_position: position,
                paused: match paused {
                    Some(p) => p,
                    None => a.tasks()[i].paused,
                },
                ..a.tasks()[i]
            }
        } else {
            a.tasks()[i]
        }) by {
            assert(submitted.is_at(i, task_id@) == a.is_at(i, task_id@));
            assert(placed.tasks()[i].task_id == a.tasks()[i].task_id);
            assert(placed.is_at(i, task_id@) == a.is_at(i, task_id@));
        }
    }
}

impl RuntimeState {
    /// What a node that was found below another one works with: the output of a task lies in one
    /// place. There is nothing for a node whose parent is unknown.
    pub fn child_of(
        &self,
        task_id: &str,
        parent_id: &str,
        child_id: String,
        root_id: String,
        input: String,
        source_io_domain: String,
        target_io_domain: String,
    ) -> (r: Option<NodeResources>)
        ensures
            r is Some == exists|k: int| self.knows_at(k, task_id@, parent_id@),
            match r {
                Some(child) => {
                    &&& child.task_id@ == task_id@
                    &&& child.node_id@ == child_id@
                    &&& child.root_id@ == root_id@
                    &&& child.input@ == input@
                    &&& child.source_io_domain@ == source_io_domain@
                    &&& child.target_io_domain@ == target_io_domain@
                    &&& exists|k: int| #[trigger]
                        self.knows_at(k, task_id@, parent_id@) && child.output_root@
                            == self.nodes@[k].output_root@
                },
                None => true,
            },
    {
        match self.find_node(task_id, parent_id) {
            Some(k) => {
                assert(self.knows_at(k as int, task_id@, parent_id@));
                Some(
                    NodeResources {
                        task_id: task_id.to_owned(),
                        node_id: child_id,
                        root_id,
                        input,
                        output_root: self.nodes[k].output_root.clone(),
                        source_io_domain,
                        target_io_domain,
                    },
                )
            },
            None => None,
        }
    }
}

/// What a machine with this many processors offers: one archive program runs at a time.
pub fn host_capacity(processors: u32) -> (r: ResourceCapacity)
    ensures
        r.wf(),
        r.cpu_units == processors,
        r.backend_processes == 1,
        r.memory_bytes == 0,
        r.temporary_bytes == 0,
        r.io_domains@ == Map::<Seq<char>, u32>::empty(),
{
    let mut capacity = ResourceCapacity::default();
    capacity.cpu_units = processors;
    capacity.backend_processes = 1;
    capacity
}

/// A recovered task that has not been started yet.
#[derive(Debug)]
pub struct Recovered {
    pub task_id: String,
    pub paused: bool,
}

/// Those that are paused, or those that are not, in order.
pub open spec fn with_pause(tasks: Seq<Recovered>, paused: bool) -> Seq<Recovered>
    decreases tasks.len(),
{
    if tasks.len() == 0 {
        Seq::empty()
    } else if tasks.last().paused == paused {
        with_pause(tasks.drop_last(), paused).push(tasks.last())
    } else {
        with_pause(tasks.drop_last(), paused)
    }
}

/// The recovered tasks that have not been started yet.
#[derive(Debug)]
pub struct RecoveryQueue {
    pub tasks: Vec<Recovered>,
}

impl RecoveryQueue {
    /// Takes those out that are not paused. The others stay.
    pub fn take_runnable_recovery(&mut self) -> (r: Vec<Recovered>)
        ensures
            r@ == with_pause(old(self).tasks@, false),
            final(self).tasks@ == with_pause(old(self).tasks@, true),
    {
        let ghost all = self.tasks@;
        let mut rest: Vec<Recovered> = Vec::new();
        std::mem::swap(&mut rest, &mut self.tasks);
        let mut runnable: Vec<Recovered> = Vec::new();
        let mut paused: Vec<Recovered> = Vec::new();
        let ghost mut done: int = 0;
        assert(all.skip(0) =~= all);
        assert(all.take(0) =~= Seq::<Recovered>::empty());
        while rest.len() > 0
            invariant
                0 <= done <= all.len(),
                rest@ == all.skip(done),
                runnable@ == with_pause(all.take(done), false),
                paused@ == with_pause(all.take(done), true),
            decreases rest@.len(),
        {
            let task: Recovered = rest.remove(0);
            proof {
                assert(task == all[done]);
                assert(rest@ =~= all.skip(done + 1));
                assert(all.take(done + 1).drop_last() =~= all.take(done));
                assert(all.take(done + 1).last() == task);
                done = done + 1;
            }
            if task.paused {
                paused.push(task);
            } else {
                runnable.push(task);
            }
        }
        assert(all.take(done) =~= all);
        self.tasks = paused;
        runnable
    }

    /// Notes that a task is paused, or is not, where it has not been started yet.
    pub fn set_paused(&mut self, task_id: &str, paused: bool)
        ensures
            final(self).tasks@.len() == old(self).tasks@.len(),
            forall|k: int|
                0 <= k < old(self).tasks@.len() ==> #[trigger] final(self).tasks@[k] == (
                if old(self).tasks@[k].task_id@ == task_id@ && forall|j: int|
                    0 <= j < k ==> (#[trigger] old(self).tasks@[j]).task_id@ != task_id@ {
                    Recovered { paused, ..old(self).tasks@[k] }
                } else {
                    old(self).tasks@[k]
                }),
    {
        let ghost all = self.tasks@;
        let mut i: usize = 0;
        while i < self.tasks.len()
            invariant
                i <= all.len(),
                self.tasks@ == all,
                all == old(self).tasks@,
                forall|k: int| 0 <= k < i ==> (#[trigger] all[k]).task_id@ != task_id@,
            decreases all.len() - i,
        {
            if same_text(self.tasks[i].task_id.as_str(), task_id) {
                let task: Recovered = self.tasks.remove(i);
                self.tasks.insert(i, Recovered { task_id: task.task_id, paused });
                proof {
                    assert(self.tasks@ =~= all.update(
                        i as int,
                        Recovered { paused, ..all[i as int] },
                    ));
                    assert(all[i as int].task_id@ == task_id@);
                }
                return ;
            }
            i += 1;
        }
    }
}

/// The recovered nodes are among the task's.
pub open spec fn names_nodes(record: RecoveredTaskRecord, task: TaskState) -> bool {
    forall|i: int|
        0 <= i < record.nodes@.len() ==> (#[trigger] record.nodes@[i]) < task.nodes@.len()
}

/// The node of the task that stands at a place among the recovered ones.
pub open spec fn recovered_node(task: TaskState, record: RecoveredTaskRecord, i: int) -> NodeRecord {
    task.nodes@[record.nodes@[i] as int]
}

/// Some recovered node may have published something.
pub open spec fn has_unready(task: TaskState, record: RecoveredTaskRecord) -> bool {
    exists|i: int|
        0 <= i < record.nodes@.len() && (#[trigger] recovered_node(task, record, i)).execution_state
            != ExecutionState::Ready
}

/// The words for why a recovered task cannot go on, with the name of the node where one stands in
/// the way, and of the task otherwise.
pub fn describe_recovery_error(
    error: RecoveryError,
    task: &TaskState,
    record: &RecoveredTaskRecord,
) -> (r: String)
    requires
        names_nodes(*record, *task),
        error matches RecoveryError::NegativeGeneration(k) ==> k < record.nodes@.len(),
    ensures
        r@ == error.text(
            match error {
                RecoveryError::NegativeGeneration(k) => {
                    recovered_node(*task, *record, k as int).node_id@
                },
                _ => task.head.id@,
            },
        ),
{
    match error {
        RecoveryError::NegativeGeneration(k) => {
            let at: usize = record.nodes[k];
            error.describe(task.nodes[at].node_id.as_str())
        },
        _ => error.describe(task.head.id.as_str()),
    }
}

/// A recovered task can be read only where no node has to be looked at first, and where it is
/// known how the task was to run.
pub fn check_recovery(task: &TaskState, record: &RecoveredTaskRecord) -> (r: Result<
    (),
    RecoveryError,
>)
    requires
        names_nodes(*record, *task),
    ensures
        r == (if has_unready(*task, *record) {
            Err::<(), RecoveryError>(RecoveryError::NeedsReconciliation)
        } else if task.head.config_snapshot_json is None {
            Err(RecoveryError::NoSnapshot)
        } else {
            Ok(())
        }),
        r is Ok <==> !has_unready(*task, *record) && task.head.config_snapshot_json is Some,
        has_unready(*task, *record) ==> r == Err::<(), RecoveryError>(RecoveryError::NeedsReconciliation),
{
    let mut i: usize = 0;
    while i < record.nodes.len()
        invariant
            i <= record.nodes@.len(),
            names_nodes(*record, *task),
            forall|k: int|
                0 <= k < i ==> (#[trigger] recovered_node(*task, *record, k)).execution_state
                    == ExecutionState::Ready,
        decreases record.nodes.len() - i,
    {
        let at: usize = record.nodes[i];
        if task.nodes[at].execution_state != ExecutionState::Ready {
            assert(recovered_node(*task, *record, i as int).execution_state
                != ExecutionState::Ready);
            return Err(RecoveryError::NeedsReconciliation);
        }
        i += 1;
    }
    if task.head.config_snapshot_json.is_none() {
        return Err(RecoveryError::NoSnapshot);
    }
    Ok(())
}

/// The root that a recovered node goes on as: the node itself, under the root that it had, in the
/// generation that it is in now.
pub open spec fn is_recovered_as(
    node: NodeRecord,
    candidate: ExtractionCandidate,
    root: ExtractRootIdentity,
) -> bool {
    &&& root.node_id@ == node.node_id@
    &&& root.root_id@ == node.root_node_id@
    &&& root.generation == node.generation
    &&& root.candidate == candidate
}

/// The task goes on under its name, from its recovered nodes in their order, each for its archive,
/// and with what it has used up of its limits.
pub open spec fn is_recovered_task(
    task: TaskState,
    record: RecoveredTaskRecord,
    candidates: Seq<ExtractionCandidate>,
    inputs: Seq<String>,
    id: ExtractTaskIdentity,
) -> bool {
    &&& id.task_id@ == task.head.id@
    &&& id.roots@.len() == record.nodes@.len()
    &&& forall|i: int|
        0 <= i < record.nodes@.len() ==> is_recovered_as(
            recovered_node(task, record, i),
            candidates[i],
            #[trigger] id.roots@[i],
        )
    &&& inputs.len() == record.nodes@.len()
    &&& forall|i: int|
        0 <= i < record.nodes@.len() ==> (#[trigger] inputs[i])@ == candidates[i].path@
    &&& id.budget.output_files == task.head.committed_output_files
    &&& id.budget.output_bytes == task.head.committed_output_bytes
    &&& id.budget.nested_candidates == task.head.nested_candidate_count
}

/// What a new session takes over and reads goes on as what the earlier session left: the same
/// task, the same nodes under the same roots, the same use of the limits. A node that had neither
/// ended nor begun to commit is in its next generation. The roots stand for the inputs.
pub proof fn recovery_preserves_identity(
    left: TaskState,
    taken: TaskState,
    owner_epoch: i64,
    record: RecoveredTaskRecord,
    candidates: Seq<ExtractionCandidate>,
    inputs: Seq<String>,
    id: ExtractTaskIdentity,
)
    requires
        left.has_generations(),
        left.taken_over(taken, owner_epoch),
        left.is_recoverable(),
        names_nodes(record, taken),
        is_recovered_task(taken, record, candidates, inputs, id),
    ensures
        id.task_id@ == left.head.id@,
        id.budget.output_files == left.head.committed_output_files,
        id.budget.output_bytes == left.head.committed_output_bytes,
        id.budget.nested_candidates == left.head.nested_candidate_count,
        id.roots@.len() == record.nodes@.len(),
        forall|i: int|
            0 <= i < id.roots@.len() ==> {
                let node = recovered_node(left, record, i);
                &&& (#[trigger] id.roots@[i]).node_id@ == node.node_id@
                &&& id.roots@[i].root_id@ == node.root_node_id@
                &&& node.status == RowStatus::Pending && node.commit_json is None
                    ==> id.roots@[i].generation == node.generation + 1
                &&& id.roots@[i].candidate.path@ == inputs[i]@
            },
        inputs.len() == id.roots@.len(),
{
    assert forall|i: int| 0 <= i < id.roots@.len() implies {
        let node = recovered_node(left, record, i);
        &&& (#[trigger] id.roots@[i]).node_id@ == node.node_id@
        &&& id.roots@[i].root_id@ == node.root_node_id@
        &&& node.status == RowStatus::Pending && node.commit_json is None
            ==> id.roots@[i].generation == node.generation + 1
        &&& id.roots@[i].candidate.path@ == inputs[i]@
    } by {
        assert(is_recovered_as(recovered_node(taken, record, i), candidates[i], id.roots@[i]));
        assert(record.nodes@[i] < taken.nodes@.len());
        let k = record.nodes@[i] as int;
        assert(taken.nodes@[k] == left.nodes@[k].reclaimed());
        assert(inputs[i]@ == candidates[i].path@);
    }
}

/// Reads how a recovered task goes on, with the archives of its nodes: the inputs, and the task
/// with the nodes it goes on from and what it has used up of its limits. A task with a node that
/// may have published something is to be looked at first.
pub fn decode_recovery(
    task: &TaskState,
    record: &RecoveredTaskRecord,
    candidates: Vec<ExtractionCandidate>,
) -> (r: Result<(Vec<String>, ExtractTaskIdentity), RecoveryError>)
    requires
        names_nodes(*record, *task),
        candidates@.len() == record.nodes@.len(),
    ensures
        match r {
            Ok((inputs, id)) => {
                &&& !has_unready(*task, *record)
                &&& task.head.config_snapshot_json is Some
                &&& is_recovered_task(*task, *record, candidates@, inputs@, id)
            },
            Err(RecoveryError::NeedsReconciliation) => has_unready(*task, *record),
            Err(RecoveryError::NoSnapshot) => !has_unready(*task, *record)
                && task.head.config_snapshot_json is None,
            Err(RecoveryError::NegativeGeneration(k)) => {
                &&& !has_unready(*task, *record)
                &&& task.head.config_snapshot_json is Some
                &&& k < record.nodes@.len()
                &&& recovered_node(*task, *record, k as int).generation < 0
                &&& forall|i: int|
                    0 <= i < k ==> (#[trigger] recovered_node(*task, *record, i)).generation >= 0
            },
            Err(_) => false,
        },
{
    if let Err(error) = check_recovery(task, record) {
        return Err(error);
    }
    let mut inputs: Vec<String> = Vec::new();
    let mut roots: Vec<ExtractRootIdentity> = Vec::new();
    let mut j: usize = 0;
    while j < record.nodes.len()
        invariant
            j <= record.nodes@.len(),
            names_nodes(*record, *task),
            candidates@.len() == record.nodes@.len(),
            !has_unready(*task, *record),
            task.head.config_snapshot_json is Some,
            inputs@.len() == j,
            roots@.len() == j,
            forall|k: int|
                0 <= k < j ==> is_recovered_as(
                    recovered_node(*task, *record, k),
                    candidates@[k],
                    #[trigger] roots@[k],
                ),
            forall|k: int| 0 <= k < j ==> (#[trigger] inputs@[k])@ == candidates@[k].path@,
        decreases record.nodes.len() - j,
    {
        let node: &NodeRecord = &task.nodes[record.nodes[j]];
        if node.generation < 0 {
            proof {
                assert forall|i: int| 0 <= i < j implies (#[trigger] recovered_node(
                    *task,
                    *record,
                    i,
                )).generation >= 0 by {
                    assert(is_recovered_as(
                        recovered_node(*task, *record, i),
                        candidates@[i],
                        roots@[i],
                    ));
                }
            }
            return Err(RecoveryError::NegativeGeneration(j));
        }
        let candidate: &ExtractionCandidate = &candidates[j];
        inputs.push(candidate.path.clone());
        roots.push(
            ExtractRootIdentity {
                node_id: node.node_id.clone(),
                root_id: node.root_node_id.clone(),
                generation: node.generation as u64,
                candidate: candidate.clone(),
            },
        );
        j += 1;
    }
    let budget = TaskBudgetSnapshot {
        output_files: task.head.committed_output_files,
        output_bytes: task.head.committed_output_bytes,
        nested_candidates: task.head.nested_candidate_count,
    };
    Ok((inputs, ExtractTaskIdentity { task_id: task.head.id.clone(), roots, budget }))
}

/// Every recovered task is among those that are paused or among those that are not, once and as
/// its own mark says.
pub proof fn pause_parts_the_recovered(tasks: Seq<Recovered>, paused: bool, task: Recovered)
    ensures
        with_pause(tasks, true).len() + with_pause(tasks, false).len() == tasks.len(),
        with_pause(tasks, paused).contains(task) <==> tasks.contains(task) && task.paused == paused,
    decreases tasks.len(),
{
    if tasks.len() > 0 {
        pause_parts_the_recovered(tasks.drop_last(), paused, task);
        pause_parts_the_recovered(tasks.drop_last(), !paused, task);
        assert(tasks =~= tasks.drop_last().push(tasks.last()));
        let rest = with_pause(tasks.drop_last(), paused);
        crate::order::lemma_pushed(tasks.drop_last(), tasks.last(), task);
        crate::order::lemma_pushed(rest, tasks.last(), task);
    }
}

/// A node that is made known is known as it was said last. All others are known as they were, and
/// none of them twice.
pub proof fn known_nodes_are_replaced(nodes: Seq<NodeResources>, n: NodeResources, k: int)
    ensures
        exists|j: int|
            0 <= j < with_node(nodes, n).len() && #[trigger] with_node(nodes, n)[j] == n,
        with_node(nodes, n).len() >= nodes.len(),
        with_node(nodes, n).len() <= nodes.len() + 1,
        0 <= k < nodes.len() && crate::execution_runtime::is_node(nodes[k], n.task_id@, n.node_id@)
            ==> with_node(nodes, n)[k] == n && with_node(nodes, n).len() == nodes.len(),
        0 <= k < nodes.len() && !crate::execution_runtime::is_node(
            nodes[k],
            n.task_id@,
            n.node_id@,
        ) ==> with_node(nodes, n)[k] == nodes[k],
{
    let all = with_node(nodes, n);
    if exists|j: int|
        0 <= j < nodes.len() && crate::execution_runtime::is_node(
            #[trigger] nodes[j],
            n.task_id@,
            n.node_id@,
        ) {
        let j = choose|j: int|
            0 <= j < nodes.len() && crate::execution_runtime::is_node(
                #[trigger] nodes[j],
                n.task_id@,
                n.node_id@,
            );
        assert(all[j] == n);
    } else {
        assert(all[nodes.len() as int] == n);
    }
}

/// A task that is taken in again keeps its name, its priority, its service and what waits for it,
/// and goes on or rests only where that is said. No other task is touched.
pub proof fn task_is_taken_in_once(
    a: TaskCoordinator,
    b: TaskCoordinator,
    task_id: Seq<char>,
    priority: TaskPriority,
    position: u64,
    paused: Option<bool>,
    i: int,
)
    requires
        took_in(a, b, task_id, priority, position, paused),
        !a.is_unknown(task_id),
        0 <= i < a.tasks().len(),
    ensures
        b.tasks().len() == a.tasks().len(),
        b.tasks()[i].task_id == a.tasks()[i].task_id,
        b.tasks()[i].priority == a.tasks()[i].priority,
        b.tasks()[i].service == a.tasks()[i].service,
        b.tasks()[i].roots == a.tasks()[i].roots,
        a.is_at(i, task_id) ==> b.tasks()[i].queue_position == position,
        a.is_at(i, task_id) && paused is None ==> b.tasks()[i].paused == a.tasks()[i].paused,
        a.is_at(i, task_id) && paused is Some ==> b.tasks()[i].paused == paused->0,
        !a.is_at(i, task_id) ==> b.tasks()[i] == a.tasks()[i],
{
}

/// A new task starts with nothing to its account and nothing that waits, and rests only where that
/// is said; the others keep their order.
pub proof fn new_task_starts_afresh(
    a: TaskCoordinator,
    b: TaskCoordinator,
    task_id: Seq<char>,
    priority: TaskPriority,
    position: u64,
    paused: Option<bool>,
)
    requires
        took_in(a, b, task_id, priority, position, paused),
        a.is_unknown(task_id),
    ensures
        b.tasks().len() == a.tasks().len() + 1,
        exists|at: int|
            {
                &&& #[trigger] b.is_at(at, task_id)
                &&& b.tasks()[at].service == 0
                &&& b.tasks()[at].roots@.len() == 0
                &&& b.tasks()[at].priority == priority
                &&& b.tasks()[at].queue_position == position
                &&& b.tasks()[at].paused <==> paused is Some && paused->0
                &&& b.tasks().remove(at) == a.tasks()
            },
{
    let at = choose|at: int|
        {
            &&& 0 <= at < b.tasks().len()
            &&& b.tasks().remove(at) == a.tasks()
            &&& (#[trigger] b.tasks()[at]).task_id@ == task_id
            &&& b.tasks()[at].priority == priority
            &&& b.tasks()[at].queue_position == position
            &&& b.tasks()[at].paused == (paused == Some(true))
            &&& b.tasks()[at].service == 0
            &&& b.tasks()[at].roots@.len() == 0
        };
    assert(b.is_at(at, task_id));
    assert(b.tasks().remove(at).len() == b.tasks().len() - 1);
}

} // verus!
