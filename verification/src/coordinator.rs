//! The scheduler: which stage of which task runs next.

use std::collections::VecDeque;

use vstd::prelude::*;
use crate::resources::{ResourceBroker, ResourceCapacity, ResourceLease, ResourceRequest};
use crate::text::{is_text_before, same_text};

verus! {

/// How much of the service a task is due.
#[derive(Clone, Copy, Debug, PartialEq, Eq, Structural)]
pub enum TaskPriority {
    Background,
    Normal,
    High,
}

impl TaskPriority {
    /// The share of a task with this priority.
    pub open spec fn share(self) -> u64 {
        match self {
            TaskPriority::Background => 1,
            TaskPriority::Normal => 2,
            TaskPriority::High => 4,
        }
    }

    pub fn weight(self) -> (r: u64)
        ensures
            r == self.share(),
            r > 0,
    {
        match self {
            TaskPriority::Background => 1,
            TaskPriority::Normal => 2,
            TaskPriority::High => 4,
        }
    }
}

/// A step in the work on one archive.
#[derive(Clone, Copy, Debug, PartialEq, Eq, Structural)]
pub enum Stage {
    ResolveInputs,
    Fingerprint,
    ScanEmbedded,
    ReadMetadata,
    AnalyzeEncoding,
    PrepareAccess,
    ExtractAttempt,
    InspectAndPlan,
    Commit,
    DiscoverChildren,
    ReadMember,
    DecodePreview,
    Cleanup,
}

impl Stage {
    /// The word that is stored for the stage.
    pub open spec fn text(self) -> Seq<char> {
        match self {
            Stage::ResolveInputs => "resolve_inputs"@,
            Stage::Fingerprint => "fingerprint"@,
            Stage::ScanEmbedded => "scan_embedded"@,
            Stage::ReadMetadata => "read_metadata"@,
            Stage::AnalyzeEncoding => "analyze_encoding"@,
            Stage::PrepareAccess => "prepare_access"@,
            Stage::ExtractAttempt => "extract_attempt"@,
            Stage::InspectAndPlan => "inspect_and_plan"@,
            Stage::Commit => "commit"@,
            Stage::DiscoverChildren => "discover_children"@,
            Stage::ReadMember => "read_member"@,
            Stage::DecodePreview => "decode_preview"@,
            Stage::Cleanup => "cleanup"@,
        }
    }

    pub fn as_str(self) -> (r: &'static str)
        ensures
            r@ == self.text(),
    {
        match self {
            Stage::ResolveInputs => "resolve_inputs",
            Stage::Fingerprint => "fingerprint",
            Stage::ScanEmbedded => "scan_embedded",
            Stage::ReadMetadata => "read_metadata",
            Stage::AnalyzeEncoding => "analyze_encoding",
            Stage::PrepareAccess => "prepare_access",
            Stage::ExtractAttempt => "extract_attempt",
            Stage::InspectAndPlan => "inspect_and_plan",
            Stage::Commit => "commit",
            Stage::DiscoverChildren => "discover_children",
            Stage::ReadMember => "read_member",
            Stage::DecodePreview => "decode_preview",
            Stage::Cleanup => "cleanup",
        }
    }
}

/// One stage of one node, waiting for its turn.
#[derive(Debug)]
pub struct StageRun {
    pub task_id: String,
    pub node_id: String,
    pub root_id: String,
    pub stage: Stage,
    pub generation: u64,
    pub attempt_id: String,
    pub resources: ResourceRequest,
    pub estimated_cost: u64,
}

/// The stages of one root that wait, in order.
#[derive(Debug)]
pub struct RootQueue {
    pub root_id: String,
    pub waiting: VecDeque<StageRun>,
}

impl RootQueue {
    /// Something waits, and it can be asked for.
    pub open spec fn wf(&self) -> bool {
        &&& self.waiting@.len() > 0
        &&& forall|i: int| 0 <= i < self.waiting@.len() ==> (#[trigger] self.waiting@[i]).resources.wf()
    }
}

/// A task that was submitted, with its roots in the order of their turns.
#[derive(Debug)]
pub struct ScheduledTask {
    pub task_id: String,
    pub priority: TaskPriority,
    pub queue_position: u64,
    pub paused: bool,
    pub service: u64,
    pub roots: Vec<RootQueue>,
}

impl ScheduledTask {
    /// Each root is listed once, something waits at each, and all of it belongs to the task.
    pub open spec fn wf(&self) -> bool {
        &&& forall|i: int, k: int|
            0 <= i < self.roots@.len() && 0 <= k < self.roots@[i].waiting@.len() ==> (
            #[trigger] self.roots@[i].waiting@[k]).task_id@ == self.task_id@
        &&& forall|i: int| 0 <= i < self.roots@.len() ==> (#[trigger] self.roots@[i]).wf()
        &&& forall|i: int, j: int|
            0 <= i < j < self.roots@.len() ==> (#[trigger] self.roots@[i]).root_id@ != (
            #[trigger] self.roots@[j]).root_id@
    }

    /// The service that the task has had for its share.
    pub open spec fn normalized(&self) -> int {
        self.service as int / self.priority.share() as int
    }

    /// The two tasks are alike in all but the roots.
    pub open spec fn same_settings(&self, other: &ScheduledTask) -> bool {
        &&& self.task_id == other.task_id
        &&& self.priority == other.priority
        &&& self.queue_position == other.queue_position
        &&& self.paused == other.paused
        &&& self.service == other.service
    }

    fn find_root(&self, root_id: &str) -> (r: Option<usize>)
        ensures
            match r {
                Some(i) => i < self.roots@.len() && self.roots@[i as int].root_id@ == root_id@,
                None => forall|k: int|
                    0 <= k < self.roots@.len() ==> (#[trigger] self.roots@[k]).root_id@ != root_id@,
            },
    {
        let mut i: usize = 0;
        while i < self.roots.len()
            invariant
                i <= self.roots@.len(),
                forall|k: int|
                    0 <= k < i ==> (#[trigger] self.roots@[k]).root_id@ != root_id@,
            decreases self.roots.len() - i,
        {
            if same_text(self.roots[i].root_id.as_str(), root_id) {
                return Some(i);
            }
            i += 1;
        }
        None
    }
}

/// The roots with one more stage: behind those that wait for the same root, or as a new last
/// root.
pub open spec fn with_stage(before: Seq<RootQueue>, after: Seq<RootQueue>, stage: StageRun) -> bool {
    ||| exists|i: int|
        {
            &&& 0 <= i < before.len()
            &&& (#[trigger] before[i]).root_id@ == stage.root_id@
            &&& after.len() == before.len()
            &&& after[i].root_id == before[i].root_id
            &&& after[i].waiting@ == before[i].waiting@.push(stage)
            &&& forall|k: int| 0 <= k < before.len() && k != i ==> #[trigger] after[k] == before[k]
        }
    ||| {
        &&& forall|k: int| 0 <= k < before.len() ==> (#[trigger] before[k]).root_id@
            != stage.root_id@
        &&& after.len() == before.len() + 1
        &&& after.drop_last() == before
        &&& after.last().root_id@ == stage.root_id@
        &&& after.last().waiting@ == seq![stage]
    }
}

/// A stage that runs, with what it was granted.
#[derive(Debug)]
pub struct Dispatch {
    pub stage: StageRun,
    pub lease: ResourceLease,
}

/// The tasks, and what they share.
#[derive(Debug)]
pub struct TaskCoordinator {
    tasks: Vec<ScheduledTask>,
    broker: ResourceBroker,
    next_position: u64,
}

/// The tasks are listed by rising name, each once.
pub open spec fn ordered(tasks: Seq<ScheduledTask>) -> bool {
    forall|i: int, j: int|
        0 <= i < j < tasks.len() ==> crate::text::text_before(
            (#[trigger] tasks[i]).task_id@,
            (#[trigger] tasks[j]).task_id@,
        )
}

/// The stage at the head of a root.
pub open spec fn head(tasks: Seq<ScheduledTask>, t: int, r: int) -> StageRun {
    tasks[t].roots@[r].waiting@[0]
}

/// There is a root `r` of a task `t` that is not paused, and the stage at its head can run now.
pub open spec fn runnable(
    tasks: Seq<ScheduledTask>,
    broker: ResourceBroker,
    t: int,
    r: int,
) -> bool {
    &&& 0 <= t < tasks.len()
    &&& 0 <= r < tasks[t].roots@.len()
    &&& !tasks[t].paused
    &&& crate::resources::admissible(broker, head(tasks, t, r).resources@)
}

/// Root `r` of task `t` has its turn before root `q` of task `p`: the task with less service for
/// its share goes first, then the one with the lower position, then the order of the lists.
pub open spec fn before(tasks: Seq<ScheduledTask>, t: int, r: int, p: int, q: int) -> bool {
    let (a, b) = (tasks[t].normalized(), tasks[p].normalized());
    let (x, y) = (tasks[t].queue_position, tasks[p].queue_position);
    a < b || (a == b && (x < y || (x == y && (t < p || (t == p && r <= q)))))
}

/// The roots once the head of root `r` has left: the root goes to the end, or away where nothing
/// waits at it any more.
pub open spec fn rotated(before: Seq<RootQueue>, after: Seq<RootQueue>, r: int) -> bool {
    let rest = before[r].waiting@.drop_first();
    if rest.len() == 0 {
        after == before.remove(r)
    } else {
        &&& after.len() == before.len()
        &&& after.drop_last() == before.remove(r)
        &&& after.last().root_id == before[r].root_id
        &&& after.last().waiting@ == rest
    }
}

/// `a` and `b` together, at most the largest number.
pub open spec fn capped(a: int) -> int {
    if a > u64::MAX {
        u64::MAX as int
    } else {
        a
    }
}

/// A cost counts as at least one.
pub open spec fn charge(cost: u64) -> int {
    if cost > 1 {
        cost as int
    } else {
        1
    }
}

impl TaskCoordinator {
    pub closed spec fn tasks(&self) -> Seq<ScheduledTask> {
        self.tasks@
    }

    pub closed spec fn broker(&self) -> ResourceBroker {
        self.broker
    }

    pub closed spec fn positions(&self) -> u64 {
        self.next_position
    }

    pub closed spec fn wf(&self) -> bool {
        &&& self.broker.wf()
        &&& ordered(self.tasks@)
        &&& forall|i: int| 0 <= i < self.tasks@.len() ==> (#[trigger] self.tasks@[i]).wf()
    }

    /// The position of the task with this name.
    pub open spec fn is_at(&self, i: int, task_id: Seq<char>) -> bool {
        0 <= i < self.tasks().len() && self.tasks()[i].task_id@ == task_id
    }

    /// No task has this name.
    pub open spec fn is_unknown(&self, task_id: Seq<char>) -> bool {
        forall|i: int|
            0 <= i < self.tasks().len() ==> (#[trigger] self.tasks()[i]).task_id@ != task_id
    }

    pub fn new(capacity: ResourceCapacity) -> (r: TaskCoordinator)
        requires
            capacity.wf(),
        ensures
            r.wf(),
            r.tasks().len() == 0,
            r.positions() == 0,
            r.broker().grants().len() == 0,
            r.broker().last_lease() == 0,
            r.broker().limits() == capacity@,
            r.broker().in_use() == crate::resources::no_demand(),
    {
        TaskCoordinator { tasks: Vec::new(), broker: ResourceBroker::new(capacity), next_position: 0 }
    }

    fn find(&self, task_id: &str) -> (r: Option<usize>)
        ensures
            match r {
                Some(i) => self.is_at(i as int, task_id@),
                None => self.is_unknown(task_id@),
            },
    {
        let mut i: usize = 0;
        while i < self.tasks.len()
            invariant
                i <= self.tasks@.len(),
                forall|k: int|
                    0 <= k < i ==> (#[trigger] self.tasks@[k]).task_id@ != task_id@,
            decreases self.tasks.len() - i,
        {
            if same_text(self.tasks[i].task_id.as_str(), task_id) {
                return Some(i);
            }
            i += 1;
        }
        None
    }

    /// The number of the last lease.
    pub fn leases(&self) -> (r: u64)
        ensures
            r == self.broker().last_lease(),
    {
        self.broker.leases()
    }

    /// Whether there is a place for one more task.
    pub fn has_place(&self) -> (r: bool)
        ensures
            r == (self.positions() < u64::MAX),
    {
        self.next_position < u64::MAX
    }

    /// How many tasks there are.
    pub fn task_count(&self) -> (r: usize)
        ensures
            r == self.tasks().len(),
    {
        self.tasks.len()
    }

    /// The task at a place.
    pub fn task(&self, i: usize) -> (r: &ScheduledTask)
        requires
            i < self.tasks().len(),
        ensures
            *r == self.tasks()[i as int],
    {
        &self.tasks[i]
    }

    /// Takes a task in, behind all others. One that is known stays as it is, but its turn to be
    /// placed is used up.
    pub fn submit(&mut self, task_id: String, priority: TaskPriority)
        requires
            old(self).wf(),
            old(self).positions() < u64::MAX,
        ensures
            final(self).wf(),
            final(self).broker() == old(self).broker(),
            final(self).positions() == old(self).positions() + 1,
            !old(self).is_unknown(task_id@) ==> final(self).tasks() == old(self).tasks(),
            old(self).is_unknown(task_id@) ==> exists|at: int|
                {
                    &&& 0 <= at <= old(self).tasks().len()
                    &&& final(self).tasks().len() == old(self).tasks().len() + 1
                    &&& (#[trigger] final(self).tasks()[at]).task_id == task_id
                    &&& final(self).tasks().remove(at) == old(self).tasks()
                    &&& final(self).tasks()[at].priority == priority
                    &&& final(self).tasks()[at].queue_position == old(self).positions()
                    &&& !final(self).tasks()[at].paused
                    &&& final(self).tasks()[at].service == 0
                    &&& final(self).tasks()[at].roots@.len() == 0
                },
    {
        let position: u64 = self.next_position;
        self.next_position += 1;
        if self.find(task_id.as_str()).is_some() {
            return ;
        }
        let ghost known = self.tasks@;
        let mut at: usize = 0;
        while at < self.tasks.len() && is_text_before(
            self.tasks[at].task_id.as_str(),
            task_id.as_str(),
        )
            invariant
                at <= self.tasks@.len(),
                forall|k: int|
                    0 <= k < at ==> crate::text::text_before(
                        (#[trigger] self.tasks@[k]).task_id@,
                        task_id@,
                    ),
            decreases self.tasks.len() - at,
        {
            at += 1;
        }
        let task = ScheduledTask {
            task_id,
            priority,
            queue_position: position,
            paused: false,
            service: 0,
            roots: Vec::new(),
        };
        self.tasks.insert(at, task);
        proof {
            assert(self.tasks@.remove(at as int) =~= known);
            assert(self.tasks()[at as int].task_id == task_id);
            assert forall|i: int, j: int| 0 <= i < j < self.tasks@.len() implies crate::text::text_before(
                (#[trigger] self.tasks@[i]).task_id@,
                (#[trigger] self.tasks@[j]).task_id@,
            ) by {
                let i0 = if i < at {
                    i
                } else {
                    i - 1
                };
                let j0 = if j < at {
                    j
                } else {
                    j - 1
                };
                if i != at {
                    assert(self.tasks@[i] == known[i0]);
                }
                if j != at {
                    assert(self.tasks@[j] == known[j0]);
                }
                if j == at {
                    assert(crate::text::text_before(known[i].task_id@, task_id@));
                } else if i == at {
                    let a = vstd::utf8::encode_utf8(task_id@);
                    let b = vstd::utf8::encode_utf8(known[at as int].task_id@);
                    crate::text::lemma_before_total(b, a);
                    if a == b {
                        crate::text::lemma_utf8_injective(task_id@, known[at as int].task_id@);
                    }
                    if j - 1 > at {
                        crate::text::lemma_before_transitive(
                            a,
                            b,
                            vstd::utf8::encode_utf8(known[j - 1].task_id@),
                        );
                    }
                }
            }
            assert forall|i: int| 0 <= i < self.tasks@.len() implies (
            #[trigger] self.tasks@[i]).wf() by {
                if i < at {
                    assert(self.tasks@[i] == known[i]);
                } else if i > at {
                    assert(self.tasks@[i] == known[i - 1]);
                }
            }
        }
    }

    /// Puts a stage behind those that wait for the same root. A stage of an unknown task is
    /// turned away.
    pub fn enqueue(&mut self, stage: StageRun) -> (r: bool)
        requires
            old(self).wf(),
            stage.resources.wf(),
        ensures
            final(self).wf(),
            final(self).broker() == old(self).broker(),
            final(self).positions() == old(self).positions(),
            r == !old(self).is_unknown(stage.task_id@),
            !r ==> final(self).tasks() == old(self).tasks(),
            final(self).tasks().len() == old(self).tasks().len(),
            forall|i: int|
                0 <= i < old(self).tasks().len() ==> if old(self).is_at(i, stage.task_id@) {
                    &&& (#[trigger] final(self).tasks()[i]).same_settings(&old(self).tasks()[i])
                    &&& with_stage(old(self).tasks()[i].roots@, final(self).tasks()[i].roots@, stage)
                } else {
                    final(self).tasks()[i] == old(self).tasks()[i]
                },
    {
        let ghost known = self.tasks@;
        match self.find(stage.task_id.as_str()) {
            None => false,
            Some(i) => {
                let mut task = self.tasks.remove(i);
                let ghost before = task;
                assert(before == known[i as int]);
                match task.find_root(stage.root_id.as_str()) {
                    Some(r) => {
                        let mut queue = task.roots.remove(r);
                        let ghost q0 = queue;
                        queue.waiting.push_back(stage);
                        task.roots.insert(r, queue);
                        proof {
                            assert(task.roots@ =~= before.roots@.update(r as int, queue));
                            assert(task.roots@[r as int].waiting@ == before.roots@[r as int].waiting@.push(
                                stage,
                            ));
                            assert(with_stage(before.roots@, task.roots@, stage)) by {
                                assert(before.roots@[r as int].root_id@ == stage.root_id@);
                            }
                            assert forall|k: int| 0 <= k < queue.waiting@.len() implies (
                            #[trigger] queue.waiting@[k]).resources.wf() by {
                                if k < q0.waiting@.len() {
                                    assert(queue.waiting@[k] == q0.waiting@[k]);
                                }
                            }
                        }
                    },
                    None => {
                        let root_id = stage.root_id.clone();
                        let mut waiting: VecDeque<StageRun> = VecDeque::new();
                        waiting.push_back(stage);
                        assert(waiting@ =~= seq![stage]);
                        task.roots.push(RootQueue { root_id, waiting });
                        proof {
                            assert(task.roots@.drop_last() =~= before.roots@);
                            assert(task.roots@.last().waiting@ == seq![stage]);
                        }
                    },
                }
                self.tasks.insert(i, task);
                proof {
                    assert(self.tasks@ =~= known.update(i as int, task));
                    lemma_names_kept(known, self.tasks@);
                    lemma_unique_name(known, i as int, stage.task_id@);
                }
                true
            },
        }
    }

    /// Gives a task another priority, and says whether there is such a task.
    pub fn set_priority(&mut self, task_id: &str, priority: TaskPriority) -> (r: bool)
        requires
            old(self).wf(),
        ensures
            final(self).wf(),
            final(self).broker() == old(self).broker(),
            final(self).positions() == old(self).positions(),
            r == !old(self).is_unknown(task_id@),
            final(self).tasks().len() == old(self).tasks().len(),
            forall|i: int|
                0 <= i < old(self).tasks().len() ==> #[trigger] final(self).tasks()[i] == (if old(self).is_at(i, task_id@) {
                    ScheduledTask { priority, ..old(self).tasks()[i] }
                } else {
                    old(self).tasks()[i]
                }),
    {
        let ghost known = self.tasks@;
        match self.find(task_id) {
            None => false,
            Some(i) => {
                let mut task = self.tasks.remove(i);
                task.priority = priority;
                self.tasks.insert(i, task);
                proof {
                    assert(self.tasks@ =~= known.update(i as int, task));
                    lemma_names_kept(known, self.tasks@);
                    lemma_unique_name(known, i as int, task_id@);
                }
                true
            },
        }
    }

    /// Holds a task back or lets it go on, and says whether there is such a task.
    pub fn set_paused(&mut self, task_id: &str, paused: bool) -> (r: bool)
        requires
            old(self).wf(),
        ensures
            final(self).wf(),
            final(self).broker() == old(self).broker(),
            final(self).positions() == old(self).positions(),
            r == !old(self).is_unknown(task_id@),
            final(self).tasks().len() == old(self).tasks().len(),
            forall|i: int|
                0 <= i < old(self).tasks().len() ==> #[trigger] final(self).tasks()[i] == (if old(self).is_at(i, task_id@) {
                    ScheduledTask { paused, ..old(self).tasks()[i] }
                } else {
                    old(self).tasks()[i]
                }),
    {
        let ghost known = self.tasks@;
        match self.find(task_id) {
            None => false,
            Some(i) => {
                let mut task = self.tasks.remove(i);
                task.paused = paused;
                self.tasks.insert(i, task);
                proof {
                    assert(self.tasks@ =~= known.update(i as int, task));
                    lemma_names_kept(known, self.tasks@);
                    lemma_unique_name(known, i as int, task_id@);
                }
                true
            },
        }
    }

    /// Gives a task another position, and says whether there is such a task.
    pub fn reorder(&mut self, task_id: &str, position: u64) -> (r: bool)
        requires
            old(self).wf(),
        ensures
            final(self).wf(),
            final(self).broker() == old(self).broker(),
            final(self).positions() == old(self).positions(),
            r == !old(self).is_unknown(task_id@),
            final(self).tasks().len() == old(self).tasks().len(),
            forall|i: int|
                0 <= i < old(self).tasks().len() ==> #[trigger] final(self).tasks()[i] == (if old(self).is_at(i, task_id@) {
                    ScheduledTask { queue_position: position, ..old(self).tasks()[i] }
                } else {
                    old(self).tasks()[i]
                }),
    {
        let ghost known = self.tasks@;
        match self.find(task_id) {
            None => false,
            Some(i) => {
                let mut task = self.tasks.remove(i);
                task.queue_position = position;
                self.tasks.insert(i, task);
                proof {
                    assert(self.tasks@ =~= known.update(i as int, task));
                    lemma_names_kept(known, self.tasks@);
                    lemma_unique_name(known, i as int, task_id@);
                }
                true
            },
        }
    }

    /// Forgets a task and all that waits for it.
    pub fn remove(&mut self, task_id: &str)
        requires
            old(self).wf(),
        ensures
            final(self).wf(),
            final(self).broker() == old(self).broker(),
            final(self).positions() == old(self).positions(),
            final(self).is_unknown(task_id@),
            old(self).is_unknown(task_id@) ==> final(self).tasks() == old(self).tasks(),
            forall|i: int| #[trigger]
                old(self).is_at(i, task_id@) ==> final(self).tasks() == old(self).tasks().remove(i),
    {
        let ghost known = self.tasks@;
        match self.find(task_id) {
            None => {},
            Some(i) => {
                let _ = self.tasks.remove(i);
                proof {
                    assert forall|a: int| 0 <= a < self.tasks@.len() implies #[trigger] self.tasks@[a]
                        == known[if a < i {
                        a
                    } else {
                        a + 1
                    }] by {}
                    lemma_unique_name(known, i as int, task_id@);
                }
            },
        }
    }

    /// The broker that all tasks share.
    pub fn resources(&self) -> (r: &ResourceBroker)
        ensures
            *r == self.broker(),
    {
        &self.broker
    }

    /// Sets how much there is of one domain.
    pub fn set_io_domain_capacity(&mut self, domain: String, units: u32)
        requires
            old(self).wf(),
        ensures
            final(self).wf(),
            final(self).tasks() == old(self).tasks(),
            final(self).positions() == old(self).positions(),
            final(self).broker().grants() == old(self).broker().grants(),
            final(self).broker().in_use() == old(self).broker().in_use(),
            final(self).broker().last_lease() == old(self).broker().last_lease(),
            final(self).broker().limits() == (crate::resources::Demand {
                io_domains: old(self).broker().limits().io_domains.insert(domain@, units),
                ..old(self).broker().limits()
            }),
    {
        self.broker.set_io_domain_capacity(domain, units);
    }
}

proof fn lemma_names_kept(a: Seq<ScheduledTask>, b: Seq<ScheduledTask>)
    requires
        ordered(a),
        a.len() == b.len(),
        forall|i: int| 0 <= i < a.len() ==> (#[trigger] b[i]).task_id@ == a[i].task_id@,
    ensures
        ordered(b),
{
    assert forall|i: int, j: int| 0 <= i < j < b.len() implies crate::text::text_before(
        (#[trigger] b[i]).task_id@,
        (#[trigger] b[j]).task_id@,
    ) by {
        assert(crate::text::text_before(a[i].task_id@, a[j].task_id@));
    }
}

proof fn lemma_unique_name(tasks: Seq<ScheduledTask>, i: int, name: Seq<char>)
    requires
        ordered(tasks),
        0 <= i < tasks.len(),
        tasks[i].task_id@ == name,
    ensures
        forall|k: int|
            0 <= k < tasks.len() && (#[trigger] tasks[k]).task_id@ == name ==> k == i,
{
    assert forall|k: int| 0 <= k < tasks.len() && (#[trigger] tasks[k]).task_id@
        == name implies k == i by {
        crate::text::lemma_before_total(
            vstd::utf8::encode_utf8(name),
            vstd::utf8::encode_utf8(name),
        );
        if k < i {
            assert(crate::text::text_before(tasks[k].task_id@, tasks[i].task_id@));
        } else if i < k {
            assert(crate::text::text_before(tasks[i].task_id@, tasks[k].task_id@));
        }
    }
}

/// What became of the tasks when root `r` of task `t` had its turn.
pub open spec fn served(
    before: Seq<ScheduledTask>,
    after: Seq<ScheduledTask>,
    t: int,
    r: int,
) -> bool {
    &&& after.len() == before.len()
    &&& forall|k: int| 0 <= k < before.len() && k != t ==> #[trigger] after[k] == before[k]
    &&& after[t].task_id == before[t].task_id
    &&& after[t].priority == before[t].priority
    &&& after[t].queue_position == before[t].queue_position
    &&& after[t].paused == before[t].paused
    &&& after[t].service == capped(
        before[t].service + charge(head(before, t, r).estimated_cost),
    )
    &&& rotated(before[t].roots@, after[t].roots@, r)
}

/// The stage belongs to this attempt.
pub open spec fn is_attempt(
    stage: StageRun,
    node_id: Seq<char>,
    generation: u64,
    attempt_id: Seq<char>,
) -> bool {
    stage.node_id@ == node_id && stage.generation == generation && stage.attempt_id@ == attempt_id
}

/// The stages that do not belong to the attempt, in order.
pub open spec fn without_attempt(
    s: Seq<StageRun>,
    node_id: Seq<char>,
    generation: u64,
    attempt_id: Seq<char>,
) -> Seq<StageRun>
    decreases s.len(),
{
    if s.len() == 0 {
        Seq::empty()
    } else {
        let rest = without_attempt(s.drop_last(), node_id, generation, attempt_id);
        if is_attempt(s.last(), node_id, generation, attempt_id) {
            rest
        } else {
            rest.push(s.last())
        }
    }
}

/// The roots and what waits at them.
pub open spec fn waiting_at(roots: Seq<RootQueue>) -> Seq<(String, Seq<StageRun>)> {
    roots.map_values(|q: RootQueue| (q.root_id, q.waiting@))
}

/// The roots without the stages of the attempt, and without those at which nothing waits then.
pub open spec fn pruned(
    roots: Seq<RootQueue>,
    node_id: Seq<char>,
    generation: u64,
    attempt_id: Seq<char>,
) -> Seq<(String, Seq<StageRun>)>
    decreases roots.len(),
{
    if roots.len() == 0 {
        Seq::empty()
    } else {
        let rest = pruned(roots.drop_last(), node_id, generation, attempt_id);
        let left = without_attempt(roots.last().waiting@, node_id, generation, attempt_id);
        if left.len() == 0 {
            rest
        } else {
            rest.push((roots.last().root_id, left))
        }
    }
}

/// Some stage of the attempt waits.
pub open spec fn waits(
    roots: Seq<RootQueue>,
    node_id: Seq<char>,
    generation: u64,
    attempt_id: Seq<char>,
) -> bool {
    exists|i: int, k: int|
        0 <= i < roots.len() && 0 <= k < roots[i].waiting@.len() && is_attempt(
            #[trigger] roots[i].waiting@[k],
            node_id,
            generation,
            attempt_id,
        )
}

fn keep_others(
    waiting: VecDeque<StageRun>,
    node_id: &str,
    generation: u64,
    attempt_id: &str,
) -> (r: (VecDeque<StageRun>, bool))
    requires
        forall|i: int| 0 <= i < waiting@.len() ==> (#[trigger] waiting@[i]).resources.wf(),
    ensures
        r.0@ == without_attempt(waiting@, node_id@, generation, attempt_id@),
        r.1 == exists|k: int|
            0 <= k < waiting@.len() && is_attempt(
                #[trigger] waiting@[k],
                node_id@,
                generation,
                attempt_id@,
            ),
        forall|i: int| 0 <= i < r.0@.len() ==> (#[trigger] r.0@[i]).resources.wf(),
        forall|i: int| 0 <= i < r.0@.len() ==> waiting@.contains(#[trigger] r.0@[i]),
{
    let ghost all = waiting@;
    let mut rest = waiting;
    let mut kept: VecDeque<StageRun> = VecDeque::new();
    let mut removed: bool = false;
    let ghost mut done: int = 0;
    assert(all.skip(0) =~= all);
    assert(all.take(0) =~= Seq::empty());
    while rest.len() > 0
        invariant
            0 <= done <= all.len(),
            rest@ == all.skip(done),
            kept@ == without_attempt(all.take(done), node_id@, generation, attempt_id@),
            removed == exists|k: int|
                0 <= k < done && is_attempt(
                    #[trigger] all[k],
                    node_id@,
                    generation,
                    attempt_id@,
                ),
            forall|i: int| 0 <= i < all.len() ==> (#[trigger] all[i]).resources.wf(),
            forall|i: int| 0 <= i < kept@.len() ==> (#[trigger] kept@[i]).resources.wf(),
            forall|i: int| 0 <= i < kept@.len() ==> all.contains(#[trigger] kept@[i]),
        decreases rest.len(),
    {
        match rest.pop_front() {
            Some(stage) => {
                assert(stage == all[done]);
                let hit: bool = same_text(stage.node_id.as_str(), node_id) && stage.generation
                    == generation && same_text(stage.attempt_id.as_str(), attempt_id);
                proof {
                    assert(all.take(done + 1).drop_last() =~= all.take(done));
                    assert(all.take(done + 1).last() == stage);
                    assert(rest@ =~= all.skip(done + 1));
                }
                if hit {
                    removed = true;
                    assert(is_attempt(all[done], node_id@, generation, attempt_id@));
                } else {
                    kept.push_back(stage);
                }
                proof {
                    done = done + 1;
                }
            },
            None => {},
        }
    }
    assert(all.take(done) =~= all);
    (kept, removed)
}

proof fn lemma_pruned_names(
    roots: Seq<RootQueue>,
    node_id: Seq<char>,
    generation: u64,
    attempt_id: Seq<char>,
    i: int,
) -> (k: int)
    requires
        0 <= i < pruned(roots, node_id, generation, attempt_id).len(),
    ensures
        0 <= k < roots.len(),
        pruned(roots, node_id, generation, attempt_id)[i].0 == roots[k].root_id,
    decreases roots.len(),
{
    let rest = pruned(roots.drop_last(), node_id, generation, attempt_id);
    if i < rest.len() {
        lemma_pruned_names(roots.drop_last(), node_id, generation, attempt_id, i)
    } else {
        roots.len() - 1
    }
}

impl ScheduledTask {
    /// Takes the stages of one attempt out, and says whether there were any.
    fn prune(&mut self, node_id: &str, generation: u64, attempt_id: &str) -> (r: bool)
        requires
            old(self).wf(),
        ensures
            final(self).wf(),
            final(self).same_settings(old(self)),
            waiting_at(final(self).roots@) == pruned(
                old(self).roots@,
                node_id@,
                generation,
                attempt_id@,
            ),
            r == waits(old(self).roots@, node_id@, generation, attempt_id@),
    {
        let ghost all = self.roots@;
        let mut removed: bool = false;
        let mut roots: Vec<RootQueue> = Vec::new();
        let count: usize = self.roots.len();
        let mut done: usize = 0;
        assert(waiting_at(roots@) =~= pruned(all.take(0), node_id@, generation, attempt_id@));
        assert(all.skip(0) =~= all);
        while done < count
            invariant
                done <= count,
                count == all.len(),
                self.roots@ == all.skip(done as int),
                self.same_settings(old(self)),
                waiting_at(roots@) == pruned(
                    all.take(done as int),
                    node_id@,
                    generation,
                    attempt_id@,
                ),
                removed == waits(all.take(done as int), node_id@, generation, attempt_id@),
                forall|i: int| 0 <= i < all.len() ==> (#[trigger] all[i]).wf(),
                forall|i: int, j: int|
                    0 <= i < j < all.len() ==> (#[trigger] all[i]).root_id@ != (
                    #[trigger] all[j]).root_id@,
                forall|i: int| 0 <= i < roots@.len() ==> (#[trigger] roots@[i]).wf(),
                forall|i: int, j: int|
                    0 <= i < j < roots@.len() ==> (#[trigger] roots@[i]).root_id@ != (
                    #[trigger] roots@[j]).root_id@,
                forall|i: int, k: int|
                    0 <= i < all.len() && 0 <= k < all[i].waiting@.len() ==> (
                    #[trigger] all[i].waiting@[k]).task_id@ == self.task_id@,
                forall|i: int, k: int|
                    0 <= i < roots@.len() && 0 <= k < roots@[i].waiting@.len() ==> (
                    #[trigger] roots@[i].waiting@[k]).task_id@ == self.task_id@,
            decreases count - done,
        {
            let queue = self.roots.remove(0);
            let ghost before = roots@;
            assert(queue == all[done as int]);
            assert(self.roots@ =~= all.skip(done + 1));
            let (left, hit) = keep_others(queue.waiting, node_id, generation, attempt_id);
            let ghost head_part = all.take(done as int);
            proof {
                assert(all.take(done + 1).drop_last() =~= head_part);
                assert(all.take(done + 1).last() == queue);
                lemma_waits_step(head_part, queue, node_id@, generation, attempt_id@);
                assert(all.take(done + 1) =~= head_part.push(queue));
            }
            removed = removed || hit;
            if left.len() > 0 {
                roots.push(RootQueue { root_id: queue.root_id, waiting: left });
                proof {
                    assert(waiting_at(roots@) =~= waiting_at(before).push((queue.root_id, left@)));
                    assert forall|i: int, k: int|
                        0 <= i < roots@.len() && 0 <= k < roots@[i].waiting@.len() implies (
                    #[trigger] roots@[i].waiting@[k]).task_id@ == self.task_id@ by {
                        if i < before.len() {
                            assert(roots@[i] == before[i]);
                            assert(before[i].waiting@[k].task_id@ == self.task_id@);
                        } else {
                            assert(queue.waiting@.contains(left@[k]));
                            let m = choose|m: int|
                                0 <= m < queue.waiting@.len() && queue.waiting@[m] == left@[k];
                            assert(all[done as int].waiting@[m].task_id@ == self.task_id@);
                        }
                    }
                    assert forall|i: int, j: int| 0 <= i < j < roots@.len() implies (
                    #[trigger] roots@[i]).root_id@ != (#[trigger] roots@[j]).root_id@ by {
                        if j == before.len() {
                            let p = pruned(head_part, node_id@, generation, attempt_id@);
                            assert(waiting_at(before)[i] == p[i]);
                            let k = lemma_pruned_names(
                                head_part,
                                node_id@,
                                generation,
                                attempt_id@,
                                i,
                            );
                            assert(head_part[k] == all[k]);
                            assert(before[i].root_id == p[i].0);
                        }
                    }
                }
            }
            done += 1;
        }
        assert(all.take(done as int) =~= all);
        self.roots = roots;
        removed
    }
}

proof fn lemma_waits_step(
    roots: Seq<RootQueue>,
    queue: RootQueue,
    node_id: Seq<char>,
    generation: u64,
    attempt_id: Seq<char>,
)
    ensures
        waits(roots.push(queue), node_id, generation, attempt_id) == (waits(
            roots,
            node_id,
            generation,
            attempt_id,
        ) || exists|k: int|
            0 <= k < queue.waiting@.len() && is_attempt(
                #[trigger] queue.waiting@[k],
                node_id,
                generation,
                attempt_id,
            )),
{
    let more = roots.push(queue);
    if waits(more, node_id, generation, attempt_id) {
        let (i, k) = choose|i: int, k: int|
            0 <= i < more.len() && 0 <= k < more[i].waiting@.len() && is_attempt(
                #[trigger] more[i].waiting@[k],
                node_id,
                generation,
                attempt_id,
            );
        if i < roots.len() {
            assert(more[i] == roots[i]);
            assert(is_attempt(roots[i].waiting@[k], node_id, generation, attempt_id));
        } else {
            assert(is_attempt(queue.waiting@[k], node_id, generation, attempt_id));
        }
    }
    if waits(roots, node_id, generation, attempt_id) {
        let (i, k) = choose|i: int, k: int|
            0 <= i < roots.len() && 0 <= k < roots[i].waiting@.len() && is_attempt(
                #[trigger] roots[i].waiting@[k],
                node_id,
                generation,
                attempt_id,
            );
        assert(more[i] == roots[i]);
        assert(is_attempt(more[i].waiting@[k], node_id, generation, attempt_id));
    }
    if exists|k: int|
        0 <= k < queue.waiting@.len() && is_attempt(
            #[trigger] queue.waiting@[k],
            node_id,
            generation,
            attempt_id,
        ) {
        let k = choose|k: int|
            0 <= k < queue.waiting@.len() && is_attempt(
                #[trigger] queue.waiting@[k],
                node_id,
                generation,
                attempt_id,
            );
        assert(more[roots.len() as int] == queue);
        assert(is_attempt(more[roots.len() as int].waiting@[k], node_id, generation, attempt_id));
    }
}

impl TaskCoordinator {
    /// Takes the stages of one attempt out of a task's queues, and says whether there were any.
    pub fn remove_queued_stage(
        &mut self,
        task_id: &str,
        node_id: &str,
        generation: u64,
        attempt_id: &str,
    ) -> (r: bool)
        requires
            old(self).wf(),
        ensures
            final(self).wf(),
            final(self).broker() == old(self).broker(),
            final(self).positions() == old(self).positions(),
            r == exists|i: int| #[trigger]
                old(self).is_at(i, task_id@) && waits(
                    old(self).tasks()[i].roots@,
                    node_id@,
                    generation,
                    attempt_id@,
                ),
            final(self).tasks().len() == old(self).tasks().len(),
            forall|i: int|
                0 <= i < old(self).tasks().len() ==> if old(self).is_at(i, task_id@) {
                    &&& (#[trigger] final(self).tasks()[i]).same_settings(&old(self).tasks()[i])
                    &&& waiting_at(final(self).tasks()[i].roots@) == pruned(
                        old(self).tasks()[i].roots@,
                        node_id@,
                        generation,
                        attempt_id@,
                    )
                } else {
                    final(self).tasks()[i] == old(self).tasks()[i]
                },
    {
        let ghost known = self.tasks@;
        match self.find(task_id) {
            None => false,
            Some(i) => {
                let mut task = self.tasks.remove(i);
                let removed: bool = task.prune(node_id, generation, attempt_id);
                self.tasks.insert(i, task);
                proof {
                    assert(self.tasks@ =~= known.update(i as int, task));
                    lemma_names_kept(known, self.tasks@);
                    lemma_unique_name(known, i as int, task_id@);
                    assert(old(self).is_at(i as int, task_id@));
                }
                removed
            },
        }
    }

    fn find_next(&self) -> (r: Option<(usize, usize)>)
        requires
            self.wf(),
        ensures
            match r {
                Some((t, q)) => runnable(self.tasks(), self.broker(), t as int, q as int) && (forall|
                    x: int,
                    y: int,
                | #[trigger]
                    runnable(self.tasks(), self.broker(), x, y) ==> before(
                        self.tasks(),
                        t as int,
                        q as int,
                        x,
                        y,
                    )),
                None => forall|x: int, y: int| !#[trigger]
                    runnable(self.tasks(), self.broker(), x, y),
            },
    {
        let ghost tasks = self.tasks@;
        let mut best: Option<(usize, usize)> = None;
        let mut t: usize = 0;
        while t < self.tasks.len()
            invariant
                self.wf(),
                tasks == self.tasks@,
                t <= tasks.len(),
                match best {
                    Some((bt, br)) => bt < t && runnable(tasks, self.broker, bt as int, br as int)
                        && (forall|x: int, y: int|
                        x < t && #[trigger] runnable(tasks, self.broker, x, y) ==> before(
                            tasks,
                            bt as int,
                            br as int,
                            x,
                            y,
                        )),
                    None => forall|x: int, y: int|
                        x < t ==> !#[trigger] runnable(tasks, self.broker, x, y),
                },
            decreases self.tasks.len() - t,
        {
            let task = &self.tasks[t];
            if !task.paused {
                let mut q: usize = 0;
                while q < task.roots.len()
                    invariant
                        self.wf(),
                        tasks == self.tasks@,
                        t < tasks.len(),
                        *task == tasks[t as int],
                        !task.paused,
                        q <= task.roots@.len(),
                        match best {
                            Some((bt, br)) => bt <= t && (bt == t ==> br < q) && runnable(
                                tasks,
                                self.broker,
                                bt as int,
                                br as int,
                            ) && (forall|x: int, y: int|
                                (x < t || (x == t && y < q)) && #[trigger] runnable(
                                    tasks,
                                    self.broker,
                                    x,
                                    y,
                                ) ==> before(tasks, bt as int, br as int, x, y)),
                            None => forall|x: int, y: int|
                                (x < t || (x == t && y < q)) ==> !#[trigger] runnable(
                                    tasks,
                                    self.broker,
                                    x,
                                    y,
                                ),
                        },
                    decreases task.roots.len() - q,
                {
                    assert(tasks[t as int].wf());
                    assert(task.roots@[q as int].wf());
                    let queue = &task.roots[q];
                    let stage = &queue.waiting[0];
                    assert(*stage == head(tasks, t as int, q as int));
                    assert(queue.waiting@[0].resources.wf());
                    if self.broker.admits(&stage.resources) {
                        assert(runnable(tasks, self.broker, t as int, q as int));
                        let better: bool = match best {
                            None => true,
                            Some((bt, _)) => {
                                let other = &self.tasks[bt];
                                let mine: u64 = task.service / task.priority.weight();
                                let theirs: u64 = other.service / other.priority.weight();
                                mine < theirs || (mine == theirs && task.queue_position
                                    < other.queue_position)
                            },
                        };
                        if better {
                            best = Some((t, q));
                        }
                    }
                    q += 1;
                }
            }
            t += 1;
        }
        best
    }

    /// Takes the stage whose turn it is: of all heads that can run now, the one of the task that
    /// has had the least service for its share. A head that cannot run stops no other.
    pub fn dispatch_next(&mut self) -> (r: Option<Dispatch>)
        requires
            old(self).wf(),
            old(self).broker().last_lease() < u64::MAX,
        ensures
            final(self).wf(),
            final(self).positions() == old(self).positions(),
            final(self).broker().limits() == old(self).broker().limits(),
            match r {
                None => {
                    &&& forall|x: int, y: int| !#[trigger]
                        runnable(old(self).tasks(), old(self).broker(), x, y)
                    &&& final(self).tasks() == old(self).tasks()
                    &&& final(self).broker() == old(self).broker()
                },
                Some(d) => exists|t: int, q: int| #[trigger]
                    dispatched(*old(self), *final(self), d, t, q),
            },
    {
        let ghost known = self.tasks@;
        let (t, q) = match self.find_next() {
            Some(found) => found,
            None => {
                return None;
            },
        };
        assert(runnable(known, self.broker, t as int, q as int));
        assert(known[t as int].wf());
        assert(known[t as int].roots@[q as int].wf());
        let lease = match self.broker.try_acquire(&self.tasks[t].roots[q].waiting[0].resources) {
            Ok(lease) => lease,
            Err(_) => {
                assert(false);
                return None;
            },
        };
        let mut task = self.tasks.remove(t);
        let ghost before_task = task;
        assert(before_task == known[t as int]);
        let mut queue = task.roots.remove(q);
        let ghost before_queue = queue;
        match queue.waiting.pop_front() {
            None => {
                assert(false);
                None
            },
            Some(stage) => {
                let cost: u64 = if stage.estimated_cost > 1 {
                    stage.estimated_cost
                } else {
                    1
                };
                task.service = task.service.saturating_add(cost);
                if queue.waiting.len() > 0 {
                    task.roots.push(queue);
                }
                proof {
                    let rest = before_queue.waiting@.drop_first();
                    assert forall|k: int| 0 <= k < rest.len() implies (
                    #[trigger] rest[k]).resources.wf() by {
                        assert(rest[k] == before_queue.waiting@[k + 1]);
                    }
                    let left = before_task.roots@.remove(q as int);
                    assert forall|a: int| 0 <= a < left.len() implies #[trigger] left[a]
                        == before_task.roots@[if a < q {
                        a
                    } else {
                        a + 1
                    }] by {}
                    if rest.len() > 0 {
                        assert(task.roots@.drop_last() =~= left);
                        assert(task.roots@.last() == queue);
                        assert(queue.waiting@ == rest);
                    } else {
                        assert(task.roots@ == left);
                    }
                    assert(rotated(before_task.roots@, task.roots@, q as int));
                    assert forall|i: int, j: int| 0 <= i < j < task.roots@.len() implies (
                    #[trigger] task.roots@[i]).root_id@ != (#[trigger] task.roots@[j]).root_id@ by {
                        assert(task.roots@[i] == left[i]);
                        if j < left.len() {
                            assert(task.roots@[j] == left[j]);
                        } else {
                            assert(task.roots@[j].root_id == before_task.roots@[q as int].root_id);
                        }
                    }
                    assert forall|i: int| 0 <= i < task.roots@.len() implies (
                    #[trigger] task.roots@[i]).wf() by {
                        if i < left.len() {
                            assert(task.roots@[i] == left[i]);
                        }
                    }
                }
                self.tasks.insert(t, task);
                proof {
                    assert(self.tasks@ =~= known.update(t as int, task));
                    lemma_names_kept(known, self.tasks@);
                    assert(served(known, self.tasks@, t as int, q as int));
                }
                let d = Dispatch { stage, lease };
                assert(dispatched(*old(self), *self, d, t as int, q as int));
                Some(d)
            },
        }
    }

    /// Takes back what a finished stage was granted, and charges its task what it really cost.
    pub fn complete(&mut self, dispatch: Dispatch, actual_cost: u64)
        requires
            old(self).wf(),
            dispatch.lease.wf(),
            crate::resources::is_genuine(old(self).broker(), dispatch.lease),
        ensures
            final(self).wf(),
            final(self).positions() == old(self).positions(),
            completed(*old(self), *final(self), dispatch, actual_cost),
    {
        let Dispatch { stage, lease } = dispatch;
        self.broker.release(lease);
        let ghost known = self.tasks@;
        if let Some(i) = self.find(stage.task_id.as_str()) {
            let mut task = self.tasks.remove(i);
            let estimated: u64 = if stage.estimated_cost > 1 {
                stage.estimated_cost
            } else {
                1
            };
            let actual: u64 = if actual_cost > 1 {
                actual_cost
            } else {
                1
            };
            if actual_cost > estimated {
                task.service = task.service.saturating_add(actual_cost - estimated);
            } else {
                task.service = task.service.saturating_sub(estimated - actual);
            }
            self.tasks.insert(i, task);
            proof {
                assert(self.tasks@ =~= known.update(i as int, task));
                lemma_names_kept(known, self.tasks@);
                lemma_unique_name(known, i as int, stage.task_id@);
            }
        }
    }
}

/// The stage at the head of root `q` of task `t` had its turn: it was the first among those that
/// could run, was granted what it needs, and its task was charged the estimated cost.
pub open spec fn dispatched(
    was: TaskCoordinator,
    now: TaskCoordinator,
    d: Dispatch,
    t: int,
    q: int,
) -> bool {
    &&& runnable(was.tasks(), was.broker(), t, q)
    &&& forall|x: int, y: int| #[trigger]
        runnable(was.tasks(), was.broker(), x, y) ==> before(was.tasks(), t, q, x, y)
    &&& d.stage == head(was.tasks(), t, q)
    &&& crate::resources::granted(was.broker(), now.broker(), d.stage.resources@, d.lease)
    &&& served(was.tasks(), now.tasks(), t, q)
}

/// What the stage was granted is taken back, and its task, where it is still known, is charged the
/// actual cost in place of the estimated one.
pub open spec fn completed(
    was: TaskCoordinator,
    now: TaskCoordinator,
    d: Dispatch,
    actual_cost: u64,
) -> bool {
    &&& crate::resources::taken_back(was.broker(), now.broker(), d.lease)
    &&& now.tasks().len() == was.tasks().len()
    &&& forall|i: int|
        0 <= i < was.tasks().len() ==> #[trigger] now.tasks()[i] == (if was.is_at(
            i,
            d.stage.task_id@,
        ) {
            ScheduledTask {
                service: settled(
                    was.tasks()[i].service,
                    d.stage.estimated_cost,
                    actual_cost,
                ) as u64,
                ..was.tasks()[i]
            }
        } else {
            was.tasks()[i]
        })
}

/// A stage that has its turn and is completed costs its task what it really took, at least one,
/// whatever was estimated. Nothing else is charged. The numbers stay below the largest one.
pub proof fn turns_cost_what_they_took(
    first: TaskCoordinator,
    during: TaskCoordinator,
    last: TaskCoordinator,
    d: Dispatch,
    actual_cost: u64,
    t: int,
    q: int,
)
    requires
        first.wf(),
        dispatched(first, during, d, t, q),
        completed(during, last, d, actual_cost),
        first.tasks()[t].service + charge(d.stage.estimated_cost) <= u64::MAX,
        first.tasks()[t].service + charge(actual_cost) <= u64::MAX,
    ensures
        last.tasks().len() == first.tasks().len(),
        last.tasks()[t].task_id@ == d.stage.task_id@,
        last.tasks()[t].service == first.tasks()[t].service + charge(actual_cost),
        forall|i: int|
            0 <= i < first.tasks().len() && i != t ==> #[trigger] last.tasks()[i]
                == first.tasks()[i],
{
    let task = first.tasks()[t];
    assert(task.wf());
    assert(task.roots@[q].wf());
    assert(task.roots@[q].waiting@[0].task_id@ == task.task_id@);
    assert(during.is_at(t, d.stage.task_id@));
    assert forall|i: int| 0 <= i < first.tasks().len() && i != t implies #[trigger] last.tasks()[i]
        == first.tasks()[i] by {
        assert(during.tasks()[i] == first.tasks()[i]);
        lemma_unique_name(first.tasks(), t, task.task_id@);
        assert(!during.is_at(i, d.stage.task_id@));
    }
}

/// A stage that has its turn and is completed leaves what is in use as it was, whatever became of
/// its task meanwhile. The other leases ask for something of each domain that they name.
pub proof fn completion_restores_use(
    first: TaskCoordinator,
    during: TaskCoordinator,
    late: TaskCoordinator,
    last: TaskCoordinator,
    d: Dispatch,
    actual_cost: u64,
    t: int,
    q: int,
)
    requires
        first.wf(),
        crate::resources::asks_for_domains(first.broker().grants()),
        dispatched(first, during, d, t, q),
        late.broker() == during.broker(),
        completed(late, last, d, actual_cost),
    ensures
        last.broker().in_use() == first.broker().in_use(),
        last.broker().grants() == first.broker().grants(),
        last.broker().limits() == first.broker().limits(),
{
    crate::resources::lease_gives_back_what_it_took(
        first.broker(),
        during.broker(),
        last.broker(),
        d.stage.resources@,
        d.lease,
    );
}

/// The service of a task once an estimated cost gave way to the real one, between zero and the
/// largest number.
pub open spec fn settled(service: u64, estimated: u64, actual: u64) -> int {
    let corrected = service - charge(estimated) + charge(actual);
    if corrected < 0 {
        0
    } else {
        capped(corrected)
    }
}

/// The tasks are in the order of their names, and something waits at each of their roots.
pub proof fn tasks_are_in_order(coordinator: TaskCoordinator)
    requires
        coordinator.wf(),
    ensures
        coordinator.broker().wf(),
        ordered(coordinator.tasks()),
        forall|i: int|
            0 <= i < coordinator.tasks().len() ==> (#[trigger] coordinator.tasks()[i]).wf(),
{
}

/// Turns are decided: of two different heads that can run, one comes strictly first.
pub proof fn turns_are_decided(tasks: Seq<ScheduledTask>, t: int, q: int, x: int, y: int)
    requires
        before(tasks, t, q, x, y),
        before(tasks, x, y, t, q),
    ensures
        t == x,
        q == y,
{
}

/// A task that has had more service for its share gives way, whatever its priority: once it has
/// had its share times one more than what the other has had for its own, the other comes first.
pub proof fn overserved_gives_way(tasks: Seq<ScheduledTask>, h: int, b: int, q: int, y: int)
    requires
        0 <= h < tasks.len(),
        0 <= b < tasks.len(),
        tasks[h].service >= tasks[h].priority.share() * (tasks[b].normalized() + 1),
    ensures
        before(tasks, b, y, h, q),
        !before(tasks, h, q, b, y),
{
    let s = tasks[h].service as int;
    let n = tasks[b].normalized();
    match tasks[h].priority {
        TaskPriority::Background => {
            assert(s / 1 >= n + 1);
        },
        TaskPriority::Normal => {
            assert(s >= 2 * (n + 1));
            assert(s / 2 >= n + 1);
        },
        TaskPriority::High => {
            assert(s >= 4 * (n + 1));
            assert(s / 4 >= n + 1);
        },
    }
}

/// Each turn adds to the service of the task that had it, until the number is used up.
pub proof fn turns_add_service(
    before: Seq<ScheduledTask>,
    after: Seq<ScheduledTask>,
    t: int,
    q: int,
)
    requires
        0 <= t < before.len(),
        served(before, after, t, q),
    ensures
        after[t].service > before[t].service || after[t].service == u64::MAX,
{
}

/// An estimate that turned out right leaves the service as it is.
pub proof fn right_estimate_changes_nothing(service: u64, cost: u64)
    ensures
        settled(service, cost, cost) == service,
{
}

/// A task of a higher priority has twice the share of one of the next lower priority.
pub proof fn shares_double()
    ensures
        TaskPriority::Background.share() > 0,
        TaskPriority::Normal.share() == TaskPriority::Background.share()
            + TaskPriority::Background.share(),
        TaskPriority::High.share() == TaskPriority::Normal.share() + TaskPriority::Normal.share(),
        TaskPriority::Background.share() < 2,
{
}

/// The task with less service for its share has its turn first. Of two with the same, the one with
/// the lower position has; of two with the same position the one listed first, and in one task the
/// root listed first.
pub proof fn less_service_goes_first(tasks: Seq<ScheduledTask>, t: int, r: int, p: int, q: int)
    ensures
        tasks[t].normalized() < tasks[p].normalized() ==> before(tasks, t, r, p, q) && !before(
            tasks,
            p,
            q,
            t,
            r,
        ),
        tasks[t].normalized() == tasks[p].normalized() && tasks[t].queue_position
            < tasks[p].queue_position ==> before(tasks, t, r, p, q) && !before(tasks, p, q, t, r),
        tasks[t].normalized() == tasks[p].normalized() && tasks[t].queue_position
            == tasks[p].queue_position && t < p ==> before(tasks, t, r, p, q) && !before(
            tasks,
            p,
            q,
            t,
            r,
        ),
        before(tasks, t, r, t, q) <==> r <= q,
{
}

/// The same service weighs half as much where the share is twice as large.
pub proof fn larger_shares_weigh_less(low: ScheduledTask, high: ScheduledTask)
    requires
        low.service == high.service,
    ensures
        low.priority == TaskPriority::Background ==> low.normalized() == low.service,
        low.priority == TaskPriority::Background && high.priority == TaskPriority::Normal
            ==> high.normalized() == low.normalized() / 2,
        low.priority == TaskPriority::Normal && high.priority == TaskPriority::High
            ==> high.normalized() == low.normalized() / 2,
{
    assert(high.service as int / 4 == (high.service as int / 2) / 2);
}

/// What can run belongs to a task that does not rest, and stands at the head of one of its roots.
pub proof fn resting_tasks_wait(
    tasks: Seq<ScheduledTask>,
    broker: ResourceBroker,
    t: int,
    r: int,
)
    ensures
        runnable(tasks, broker, t, r) ==> !tasks[t].paused,
        runnable(tasks, broker, t, r) ==> 0 <= t < tasks.len() && 0 <= r < tasks[t].roots@.len(),
        runnable(tasks, broker, t, r) ==> crate::resources::within(
            tasks[t].roots@[r].waiting@[0].resources@,
            broker.limits(),
        ),
        0 <= t < tasks.len() && !tasks[t].paused && 0 <= r < tasks[t].roots@.len()
            && !runnable(tasks, broker, t, r) ==> !crate::resources::admissible(
            broker,
            tasks[t].roots@[r].waiting@[0].resources@,
        ),
{
}

/// A turn is never free: it is charged at least one, and else what it cost. A dearer turn is never
/// charged less.
pub proof fn no_turn_is_free(cost: u64, more: u64)
    ensures
        charge(cost) >= 1,
        cost >= 1 ==> charge(cost) == cost,
        cost <= more ==> charge(cost) <= charge(more),
        charge(0) == charge(1),
{
}

/// The real cost takes the place of the estimated one: a turn that cost more than was thought
/// leaves more service to the task's account, one that cost less leaves less, by the difference,
/// as far as the account goes.
pub proof fn cost_takes_the_place_of_the_estimate(service: u64, estimated: u64, actual: u64)
    ensures
        0 <= settled(service, estimated, actual) <= u64::MAX,
        charge(actual) >= charge(estimated) ==> settled(service, estimated, actual) >= service,
        charge(actual) <= charge(estimated) ==> settled(service, estimated, actual) <= service,
        service >= charge(estimated) && service - charge(estimated) + charge(actual) <= u64::MAX
            ==> settled(service, estimated, actual) - service == charge(actual) - charge(estimated),
{
}

/// The task that had its turn loses the head of one root, and no other stage. The root is then the
/// last one of the task, or none, where nothing waits at it any more; the others move up.
pub proof fn turn_takes_the_head(
    before: Seq<ScheduledTask>,
    after: Seq<ScheduledTask>,
    t: int,
    r: int,
)
    requires
        served(before, after, t, r),
        0 <= t < before.len(),
        0 <= r < before[t].roots@.len(),
        before[t].roots@[r].waiting@.len() > 0,
    ensures
        before[t].roots@[r].waiting@.len() == 1 ==> after[t].roots@.len() + 1
            == before[t].roots@.len(),
        before[t].roots@[r].waiting@.len() > 1 ==> {
            &&& after[t].roots@.len() == before[t].roots@.len()
            &&& after[t].roots@.last().root_id@ == before[t].roots@[r].root_id@
            &&& seq![head(before, t, r)] + after[t].roots@.last().waiting@
                == before[t].roots@[r].waiting@
        },
        forall|k: int| 0 <= k < r ==> #[trigger] after[t].roots@[k] == before[t].roots@[k],
        forall|k: int|
            r < k < before[t].roots@.len() ==> after[t].roots@[k - 1] == #[trigger] before[t].roots@[k],
        after[t].service >= before[t].service,
        after[t].priority == before[t].priority,
        after[t].paused == before[t].paused,
{
    let (x, y) = (before[t].roots@, after[t].roots@);
    let rest = x[r].waiting@.drop_first();
    assert(seq![x[r].waiting@[0]] + rest =~= x[r].waiting@);
    if rest.len() > 0 {
        assert forall|k: int| 0 <= k < r implies #[trigger] y[k] == x[k] by {
            assert(y.drop_last()[k] == x.remove(r)[k]);
        }
        assert forall|k: int| r < k < x.len() implies y[k - 1] == #[trigger] x[k] by {
            assert(y.drop_last()[k - 1] == x.remove(r)[k - 1]);
        }
    }
}

/// A stage waits behind all that wait at its root, and nothing that waited before is moved.
pub proof fn stages_wait_in_line(before: Seq<RootQueue>, after: Seq<RootQueue>, stage: StageRun)
    requires
        with_stage(before, after, stage),
    ensures
        before.len() <= after.len() <= before.len() + 1,
        exists|i: int|
            0 <= i < after.len() && (#[trigger] after[i]).root_id@ == stage.root_id@
                && after[i].waiting@.len() > 0 && after[i].waiting@.last() == stage,
        forall|k: int|
            0 <= k < before.len() ==> (#[trigger] after[k]).root_id == before[k].root_id
                && before[k].waiting@.is_prefix_of(after[k].waiting@),
        forall|k: int|
            0 <= k < before.len() && before[k].root_id@ != stage.root_id@ ==> #[trigger] after[k]
                == before[k],
{
    if exists|i: int| 0 <= i < before.len() && (#[trigger] before[i]).root_id@ == stage.root_id@ {
        let i = choose|i: int|
            {
                &&& 0 <= i < before.len()
                &&& (#[trigger] before[i]).root_id@ == stage.root_id@
                &&& after.len() == before.len()
                &&& after[i].root_id == before[i].root_id
                &&& after[i].waiting@ == before[i].waiting@.push(stage)
                &&& forall|k: int|
                    0 <= k < before.len() && k != i ==> #[trigger] after[k] == before[k]
            };
        assert(after[i].waiting@.last() == stage);
        assert forall|k: int| 0 <= k < before.len() implies (#[trigger] after[k]).root_id
            == before[k].root_id && before[k].waiting@.is_prefix_of(after[k].waiting@) by {
            if k == i {
                assert(before[i].waiting@ =~= after[i].waiting@.subrange(
                    0,
                    before[i].waiting@.len() as int,
                ));
            } else {
                assert(before[k].waiting@ =~= after[k].waiting@.subrange(
                    0,
                    before[k].waiting@.len() as int,
                ));
            }
        }
    } else {
        assert(after[before.len() as int].waiting@.last() == stage);
        assert forall|k: int| 0 <= k < before.len() implies #[trigger] after[k] == before[k]
            && before[k].waiting@.is_prefix_of(after[k].waiting@) by {
            assert(after.drop_last()[k] == before[k]);
            assert(before[k].waiting@ =~= after[k].waiting@.subrange(
                0,
                before[k].waiting@.len() as int,
            ));
        }
    }
}

/// Of an attempt that is withdrawn no stage waits any more, and all other stages still do.
pub proof fn withdrawn_attempt_waits_no_more(
    s: Seq<StageRun>,
    node_id: Seq<char>,
    generation: u64,
    attempt_id: Seq<char>,
    stage: StageRun,
)
    ensures
        without_attempt(s, node_id, generation, attempt_id).contains(stage) <==> s.contains(stage)
            && !(stage.node_id@ == node_id && stage.generation == generation && stage.attempt_id@
            == attempt_id),
    decreases s.len(),
{
    if s.len() > 0 {
        withdrawn_attempt_waits_no_more(s.drop_last(), node_id, generation, attempt_id, stage);
        assert(s =~= s.drop_last().push(s.last()));
        let rest = without_attempt(s.drop_last(), node_id, generation, attempt_id);
        crate::order::lemma_pushed(s.drop_last(), s.last(), stage);
        crate::order::lemma_pushed(rest, s.last(), stage);
    }
}

/// Once the stages of an attempt are withdrawn, none of them waits at any root, and no root is
/// left at which nothing waits.
pub proof fn pruned_roots_hold_other_stages(
    roots: Seq<RootQueue>,
    node_id: Seq<char>,
    generation: u64,
    attempt_id: Seq<char>,
    i: int,
)
    requires
        0 <= i < pruned(roots, node_id, generation, attempt_id).len(),
    ensures
        ({
            let left = pruned(roots, node_id, generation, attempt_id)[i];
            &&& left.1.len() > 0
            &&& forall|stage: StageRun| #[trigger]
                left.1.contains(stage) ==> !is_attempt(stage, node_id, generation, attempt_id)
            &&& exists|k: int|
                0 <= k < roots.len() && (#[trigger] roots[k]).root_id == left.0
        }),
    decreases roots.len(),
{
    let rest = pruned(roots.drop_last(), node_id, generation, attempt_id);
    if i < rest.len() {
        pruned_roots_hold_other_stages(roots.drop_last(), node_id, generation, attempt_id, i);
        let left = rest[i];
        let k = choose|k: int|
            0 <= k < roots.drop_last().len() && (#[trigger] roots.drop_last()[k]).root_id == left.0;
        assert(roots[k].root_id == left.0);
    } else {
        let kept = without_attempt(roots.last().waiting@, node_id, generation, attempt_id);
        assert forall|stage: StageRun| #[trigger] kept.contains(stage) implies !is_attempt(
            stage,
            node_id,
            generation,
            attempt_id,
        ) by {
            withdrawn_attempt_waits_no_more(
                roots.last().waiting@,
                node_id,
                generation,
                attempt_id,
                stage,
            );
        }
        assert(roots[roots.len() - 1].root_id == roots.last().root_id);
    }
}

} // verus!
