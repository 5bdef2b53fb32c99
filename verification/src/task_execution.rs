//! The durable state of a task: what each of its nodes is doing, and what a worker may change.
//!
//! A node belongs to whoever knows its generation. A worker of an earlier session holds an
//! earlier generation, and nothing that it reports changes the node any more.

use vstd::prelude::*;
use crate::coordinator::Stage;
use crate::text::{copy_opt, same_opt_text, same_text};
use crate::workflow::reason::NodeStatus;

verus! {

/// How much a task matters.
#[derive(Clone, Copy, Debug, PartialEq, Eq, Structural)]
pub enum Priority {
    Background,
    Normal,
    High,
}

impl Priority {
    /// The number that is stored for the priority.
    pub open spec fn rank(self) -> i64 {
        match self {
            Priority::Background => 0,
            Priority::Normal => 1,
            Priority::High => 2,
        }
    }

    pub fn number(self) -> (r: i64)
        ensures
            r == self.rank(),
    {
        match self {
            Priority::Background => 0,
            Priority::Normal => 1,
            Priority::High => 2,
        }
    }

    /// The priority that a number stands for.
    pub fn from_number(n: i64) -> (r: Option<Priority>)
        ensures
            match r {
                Some(p) => p.rank() == n,
                None => n < 0 || n > 2,
            },
    {
        if n == 0 {
            Some(Priority::Background)
        } else if n == 1 {
            Some(Priority::Normal)
        } else if n == 2 {
            Some(Priority::High)
        } else {
            None
        }
    }
}

/// What a node is doing.
#[derive(Clone, Copy, Debug, PartialEq, Eq, Structural)]
pub enum ExecutionState {
    Ready,
    Running,
    WaitingInput,
    WaitingResources,
    Persisting,
    Committing,
    Cancelling,
    Interrupted,
    Terminal,
}

impl ExecutionState {
    /// The word that is stored for the state.
    pub open spec fn text(self) -> Seq<char> {
        match self {
            ExecutionState::Ready => "ready"@,
            ExecutionState::Running => "running"@,
            ExecutionState::WaitingInput => "waiting_input"@,
            ExecutionState::WaitingResources => "waiting_resources"@,
            ExecutionState::Persisting => "persisting"@,
            ExecutionState::Committing => "committing"@,
            ExecutionState::Cancelling => "cancelling"@,
            ExecutionState::Interrupted => "interrupted"@,
            ExecutionState::Terminal => "terminal"@,
        }
    }

    pub fn as_str(self) -> (r: &'static str)
        ensures
            r@ == self.text(),
    {
        match self {
            ExecutionState::Ready => "ready",
            ExecutionState::Running => "running",
            ExecutionState::WaitingInput => "waiting_input",
            ExecutionState::WaitingResources => "waiting_resources",
            ExecutionState::Persisting => "persisting",
            ExecutionState::Committing => "committing",
            ExecutionState::Cancelling => "cancelling",
            ExecutionState::Interrupted => "interrupted",
            ExecutionState::Terminal => "terminal",
        }
    }
}

/// Whether a node has ended, and how.
#[derive(Clone, Copy, Debug, PartialEq, Eq, Structural)]
pub enum RowStatus {
    Pending,
    Ended(NodeStatus),
}

impl RowStatus {
    /// The word that is stored for the status.
    pub open spec fn text(self) -> Seq<char> {
        match self {
            RowStatus::Pending => "pending"@,
            RowStatus::Ended(status) => status.text(),
        }
    }

    pub fn as_str(self) -> (r: &'static str)
        ensures
            r@ == self.text(),
    {
        match self {
            RowStatus::Pending => "pending",
            RowStatus::Ended(status) => status.as_str(),
        }
    }
}

/// A question that a node waits for.
#[derive(Debug, PartialEq, Eq)]
pub struct PendingDecision {
    pub id: String,
    pub generation: i64,
    pub kind: String,
    pub evidence: String,
}

/// A node to be taken in.
#[derive(Debug)]
pub struct NewNode {
    pub id: String,
    pub parent_id: Option<String>,
    pub root_id: String,
    pub input_path: String,
    pub input_ref_json: String,
    pub config_revision: i64,
    pub generation: i64,
}

/// What is stored about a node.
#[derive(Debug, PartialEq, Eq)]
pub struct NodeRecord {
    pub node_id: String,
    pub parent_node_id: Option<String>,
    pub root_node_id: String,
    pub generation: i64,
    pub input_path: String,
    pub input_ref_json: String,
    pub config_revision: i64,
    pub stage: Stage,
    pub execution_state: ExecutionState,
    pub attempt_id: Option<String>,
    pub decision: Option<PendingDecision>,
    pub artifact_refs_json: Option<String>,
    pub commit_json: Option<String>,
    pub status: RowStatus,
    pub reason: Option<String>,
    pub facts: Option<NodeFacts>,
}

/// What is kept about a node that has ended.
#[derive(Debug, PartialEq, Eq)]
pub struct NodeFacts {
    pub output_path: Option<String>,
    pub sample_hash: Option<String>,
    pub file_size: Option<i64>,
    pub embedded_offset: Option<i64>,
    pub has_password: bool,
    pub password_id: Option<i64>,
    pub encoding: Option<String>,
    pub encoding_corrected: bool,
}

/// What a worker, a decision or a recovery does to a node.
#[derive(Debug)]
pub enum NodeChange {
    RecordArtifacts(String),
    ClearArtifacts,
    Transition {
        from: ExecutionState,
        to: ExecutionState,
        stage: Stage,
        attempt_id: Option<String>,
    },
    Wait { stage: Stage, decision: PendingDecision },
    BeginCommit(String),
    Published(String),
    Abort,
    Reset,
    Reply(String),
    Finish {
        status: NodeStatus,
        reason: Option<String>,
        commit_json: Option<String>,
        facts: NodeFacts,
    },
}

/// How far a task has come.
#[derive(Clone, Copy, Debug, PartialEq, Eq, Structural)]
pub enum TaskPhase {
    Queued,
    Running,
    Recovering,
    Completed,
    Partial,
    Failed,
    Cancelled,
}

impl TaskPhase {
    /// The word that is stored for the phase.
    pub open spec fn text(self) -> Seq<char> {
        match self {
            TaskPhase::Queued => "queued"@,
            TaskPhase::Running => "running"@,
            TaskPhase::Recovering => "recovering"@,
            TaskPhase::Completed => "completed"@,
            TaskPhase::Partial => "partial"@,
            TaskPhase::Failed => "failed"@,
            TaskPhase::Cancelled => "cancelled"@,
        }
    }

    pub fn as_str(self) -> (r: &'static str)
        ensures
            r@ == self.text(),
    {
        match self {
            TaskPhase::Queued => "queued",
            TaskPhase::Running => "running",
            TaskPhase::Recovering => "recovering",
            TaskPhase::Completed => "completed",
            TaskPhase::Partial => "partial",
            TaskPhase::Failed => "failed",
            TaskPhase::Cancelled => "cancelled",
        }
    }
}

/// A task to be taken in.
#[derive(Debug)]
pub struct NewTaskExecution {
    pub id: String,
    pub kind: String,
    pub output_path: Option<String>,
    pub started_at: String,
    pub inputs_json: String,
    pub config_snapshot_json: Option<String>,
    pub priority: Priority,
    pub queue_position: i64,
    pub recoverable: bool,
    pub owner_epoch: i64,
}

/// What is stored about a task, apart from its nodes.
#[derive(Debug)]
pub struct TaskHead {
    pub id: String,
    pub kind: String,
    pub output_path: Option<String>,
    pub started_at: String,
    pub inputs_json: String,
    pub config_snapshot_json: Option<String>,
    pub priority: Priority,
    pub queue_position: i64,
    pub paused: bool,
    pub recoverable: bool,
    pub owner_epoch: i64,
    pub phase: TaskPhase,
    pub finished: bool,
    pub committed_output_files: u64,
    pub committed_output_bytes: u64,
    pub nested_candidate_count: usize,
}

/// A task with its nodes, in the order in which they were taken in.
#[derive(Debug)]
pub struct TaskState {
    pub head: TaskHead,
    pub nodes: Vec<NodeRecord>,
}

/// A change of a node, as it is written down: in which stage it came to which state.
#[derive(Debug)]
pub struct StageEvent {
    pub node_id: String,
    pub stage: String,
    pub attempt_id: Option<String>,
    pub state: String,
}

/// What cannot be stored.
#[derive(Clone, Copy, Debug, PartialEq, Eq, Structural)]
pub enum StoreError {
    /// A number does not fit into its column.
    NumberTooLarge,
    /// Two nodes have one name.
    DuplicateNode,
    /// Two tasks have one name.
    DuplicateTask,
    /// There is no task with the name.
    UnknownTask,
    /// There is no password with the number.
    UnknownPassword,
}

/// The event tells of this node, stage and state.
pub open spec fn tells(
    event: StageEvent,
    node_id: Seq<char>,
    stage: Seq<char>,
    attempt: Option<Seq<char>>,
    state: Seq<char>,
) -> bool {
    &&& event.node_id@ == node_id
    &&& event.stage@ == stage
    &&& crate::text::opt_text(event.attempt_id) == attempt
    &&& event.state@ == state
}

impl NodeRecord {
    /// The node has this name and this generation, and has not ended.
    pub open spec fn is_live(self, node_id: Seq<char>, generation: i64) -> bool {
        self.node_id@ == node_id && self.generation == generation && self.status
            == RowStatus::Pending
    }

    /// A new node: ready for its first stage.
    pub open spec fn fresh(n: NewNode) -> NodeRecord {
        NodeRecord {
            node_id: n.id,
            parent_node_id: n.parent_id,
            root_node_id: n.root_id,
            generation: n.generation,
            input_path: n.input_path,
            input_ref_json: n.input_ref_json,
            config_revision: n.config_revision,
            stage: Stage::ResolveInputs,
            execution_state: ExecutionState::Ready,
            attempt_id: None,
            decision: None,
            artifact_refs_json: None,
            commit_json: None,
            status: RowStatus::Pending,
            reason: None,
            facts: None,
        }
    }

    pub(crate) fn from_new(n: NewNode) -> (r: NodeRecord)
        ensures
            r == NodeRecord::fresh(n),
    {
        NodeRecord {
            node_id: n.id,
            parent_node_id: n.parent_id,
            root_node_id: n.root_id,
            generation: n.generation,
            input_path: n.input_path,
            input_ref_json: n.input_ref_json,
            config_revision: n.config_revision,
            stage: Stage::ResolveInputs,
            execution_state: ExecutionState::Ready,
            attempt_id: None,
            decision: None,
            artifact_refs_json: None,
            commit_json: None,
            status: RowStatus::Pending,
            reason: None,
            facts: None,
        }
    }
}

impl NodeChange {
    /// The change may be made to a live node that is in this state.
    pub open spec fn admitted(self, n: NodeRecord) -> bool {
        match self {
            NodeChange::RecordArtifacts(_) => n.execution_state == ExecutionState::Running,
            NodeChange::ClearArtifacts => true,
            NodeChange::Transition { from, .. } => n.execution_state == from,
            NodeChange::Wait { stage, .. } => n.stage == stage && n.execution_state
                == ExecutionState::Running,
            NodeChange::BeginCommit(_) => n.stage == Stage::Commit && n.execution_state
                == ExecutionState::Running && n.commit_json is None,
            NodeChange::Published(_) => n.stage == Stage::Commit && n.execution_state
                == ExecutionState::Committing,
            NodeChange::Abort => n.stage == Stage::Commit && n.execution_state
                == ExecutionState::Committing,
            NodeChange::Reset => n.commit_json is Some,
            NodeChange::Reply(id) => n.execution_state == ExecutionState::WaitingInput && (
            n.decision matches Some(d) && d.id@ == id@ && d.generation == n.generation),
            NodeChange::Finish { .. } => true,
        }
    }

    /// The node after the change.
    pub open spec fn after(self, n: NodeRecord) -> NodeRecord {
        match self {
            NodeChange::RecordArtifacts(refs) => NodeRecord {
                artifact_refs_json: Some(refs),
                ..n
            },
            NodeChange::ClearArtifacts => NodeRecord { artifact_refs_json: None, ..n },
            NodeChange::Transition { to, stage, attempt_id, .. } => NodeRecord {
                execution_state: to,
                stage,
                attempt_id,
                ..n
            },
            NodeChange::Wait { decision, .. } => NodeRecord {
                execution_state: ExecutionState::WaitingInput,
                decision: Some(decision),
                ..n
            },
            NodeChange::BeginCommit(json) => NodeRecord {
                execution_state: ExecutionState::Committing,
                commit_json: Some(json),
                ..n
            },
            NodeChange::Published(json) => NodeRecord {
                execution_state: ExecutionState::Running,
                commit_json: Some(json),
                ..n
            },
            NodeChange::Abort => NodeRecord {
                execution_state: ExecutionState::Running,
                commit_json: None,
                ..n
            },
            NodeChange::Reset => NodeRecord { commit_json: None, ..restarted(n) },
            NodeChange::Reply(_) => NodeRecord {
                execution_state: ExecutionState::Ready,
                decision: None,
                ..n
            },
            NodeChange::Finish { status, reason, commit_json, facts } => NodeRecord {
                status: RowStatus::Ended(status),
                reason,
                execution_state: ExecutionState::Terminal,
                stage: Stage::Cleanup,
                attempt_id: None,
                commit_json,
                artifact_refs_json: None,
                facts: Some(facts),
                ..n
            },
        }
    }

    fn is_admitted(&self, n: &NodeRecord) -> (r: bool)
        ensures
            r == self.admitted(*n),
    {
        match self {
            NodeChange::RecordArtifacts(_) => n.execution_state == ExecutionState::Running,
            NodeChange::ClearArtifacts => true,
            NodeChange::Transition { from, .. } => n.execution_state == *from,
            NodeChange::Wait { stage, .. } => n.stage == *stage && n.execution_state
                == ExecutionState::Running,
            NodeChange::BeginCommit(_) => n.stage == Stage::Commit && n.execution_state
                == ExecutionState::Running && n.commit_json.is_none(),
            NodeChange::Published(_) => n.stage == Stage::Commit && n.execution_state
                == ExecutionState::Committing,
            NodeChange::Abort => n.stage == Stage::Commit && n.execution_state
                == ExecutionState::Committing,
            NodeChange::Reset => n.commit_json.is_some(),
            NodeChange::Reply(id) => n.execution_state == ExecutionState::WaitingInput
                && match &n.decision {
                Some(d) => same_text(d.id.as_str(), id.as_str()) && d.generation == n.generation,
                None => false,
            },
            NodeChange::Finish { .. } => true,
        }
    }

    fn applied(self, n: NodeRecord) -> (r: NodeRecord)
        requires
            self is Reset ==> n.generation < i64::MAX,
        ensures
            r == self.after(n),
    {
        let mut n = n;
        match self {
            NodeChange::RecordArtifacts(refs) => {
                n.artifact_refs_json = Some(refs);
            },
            NodeChange::ClearArtifacts => {
                n.artifact_refs_json = None;
            },
            NodeChange::Transition { from: _, to, stage, attempt_id } => {
                n.execution_state = to;
                n.stage = stage;
                n.attempt_id = attempt_id;
            },
            NodeChange::Wait { stage: _, decision } => {
                n.execution_state = ExecutionState::WaitingInput;
                n.decision = Some(decision);
            },
            NodeChange::BeginCommit(json) => {
                n.execution_state = ExecutionState::Committing;
                n.commit_json = Some(json);
            },
            NodeChange::Published(json) => {
                n.execution_state = ExecutionState::Running;
                n.commit_json = Some(json);
            },
            NodeChange::Abort => {
                n.execution_state = ExecutionState::Running;
                n.commit_json = None;
            },
            NodeChange::Reset => {
                restart(&mut n);
                n.commit_json = None;
            },
            NodeChange::Reply(_) => {
                n.execution_state = ExecutionState::Ready;
                n.decision = None;
            },
            NodeChange::Finish { status, reason, commit_json, facts } => {
                n.status = RowStatus::Ended(status);
                n.reason = reason;
                n.execution_state = ExecutionState::Terminal;
                n.stage = Stage::Cleanup;
                n.attempt_id = None;
                n.commit_json = commit_json;
                n.artifact_refs_json = None;
                n.facts = Some(facts);
            },
        }
        n
    }
}

/// The node in its next generation, ready for its first stage.
pub open spec fn restarted(n: NodeRecord) -> NodeRecord {
    NodeRecord {
        generation: (n.generation + 1) as i64,
        execution_state: ExecutionState::Ready,
        stage: Stage::ResolveInputs,
        attempt_id: None,
        decision: None,
        ..n
    }
}

pub(crate) fn restart(n: &mut NodeRecord)
    requires
        old(n).generation < i64::MAX,
    ensures
        *final(n) == restarted(*old(n)),
{
    n.generation = n.generation + 1;
    n.execution_state = ExecutionState::Ready;
    n.stage = Stage::ResolveInputs;
    n.attempt_id = None;
    n.decision = None;
}

/// No two nodes have one name.
pub open spec fn distinct(nodes: Seq<NodeRecord>) -> bool {
    forall|i: int, j: int|
        0 <= i < j < nodes.len() ==> (#[trigger] nodes[i]).node_id@ != (#[trigger] nodes[j]).node_id@
}

/// The task with its status at work, unless it has finished.
pub open spec fn at_work(head: TaskHead) -> TaskHead {
    if head.finished {
        head
    } else {
        TaskHead { phase: TaskPhase::Running, ..head }
    }
}

/// How many nodes have this status.
pub open spec fn count_status(nodes: Seq<NodeRecord>, status: RowStatus) -> nat
    decreases nodes.len(),
{
    if nodes.len() == 0 {
        0
    } else {
        count_status(nodes.drop_last(), status) + if nodes.last().status == status {
            1nat
        } else {
            0nat
        }
    }
}

/// How a task ends whose nodes have all ended: a cancelled node cancels it; of the others one
/// without failures is completed, one without a success has failed, and the rest are partial.
pub open spec fn final_phase(nodes: Seq<NodeRecord>) -> TaskPhase {
    if count_status(nodes, RowStatus::Ended(NodeStatus::Cancelled)) > 0 {
        TaskPhase::Cancelled
    } else if count_status(nodes, RowStatus::Ended(NodeStatus::Failed)) == 0 {
        TaskPhase::Completed
    } else if count_status(nodes, RowStatus::Ended(NodeStatus::Extracted)) == 0 {
        TaskPhase::Failed
    } else {
        TaskPhase::Partial
    }
}

/// One of the nodes has this status.
pub open spec fn some_node(nodes: Seq<NodeRecord>, status: RowStatus) -> bool {
    exists|i: int| 0 <= i < nodes.len() && (#[trigger] nodes[i]).status == status
}

proof fn lemma_counted(nodes: Seq<NodeRecord>, status: RowStatus)
    ensures
        count_status(nodes, status) > 0 <==> some_node(nodes, status),
    decreases nodes.len(),
{
    if nodes.len() > 0 {
        let rest = nodes.drop_last();
        lemma_counted(rest, status);
        if some_node(rest, status) {
            let i = choose|i: int| 0 <= i < rest.len() && (#[trigger] rest[i]).status == status;
            assert(nodes[i].status == status);
        }
        if some_node(nodes, status) {
            let i = choose|i: int| 0 <= i < nodes.len() && (#[trigger] nodes[i]).status == status;
            if i < rest.len() {
                assert(rest[i].status == status);
            }
        }
        if nodes.last().status == status {
            assert(nodes[nodes.len() - 1].status == status);
        }
    }
}

proof fn lemma_all_counted(nodes: Seq<NodeRecord>)
    ensures
        forall|status: RowStatus|
            #![trigger count_status(nodes, status)]
            #![trigger some_node(nodes, status)]
            count_status(nodes, status) > 0 <==> some_node(nodes, status),
{
    assert forall|status: RowStatus|
        #![trigger count_status(nodes, status)]
        #![trigger some_node(nodes, status)]
        count_status(nodes, status) > 0 <==> some_node(nodes, status) by {
        lemma_counted(nodes, status);
    }
}

fn count_nodes(nodes: &Vec<NodeRecord>, status: RowStatus) -> (r: usize)
    ensures
        r == count_status(nodes@, status),
{
    let mut count: usize = 0;
    let mut i: usize = 0;
    assert(nodes@.take(0).len() == 0);
    while i < nodes.len()
        invariant
            i <= nodes@.len(),
            count <= i,
            count == count_status(nodes@.take(i as int), status),
        decreases nodes.len() - i,
    {
        if nodes[i].status == status {
            count += 1;
        }
        i += 1;
        assert(nodes@.take(i as int).drop_last() =~= nodes@.take(i - 1));
        assert(nodes@.take(i as int).last() == nodes@[i - 1]);
    }
    assert(nodes@.take(i as int) =~= nodes@);
    count
}

fn event(node_id: &str, stage: &str, attempt: Option<String>, state: &str) -> (r: StageEvent)
    ensures
        tells(r, node_id@, stage@, crate::text::opt_text(attempt), state@),
{
    StageEvent {
        node_id: node_id.to_owned(),
        stage: stage.to_owned(),
        attempt_id: attempt,
        state: state.to_owned(),
    }
}

impl TaskState {
    /// No two nodes have one name, and the totals fit into their columns.
    pub open spec fn wf(&self) -> bool {
        &&& distinct(self.nodes@)
        &&& self.head.committed_output_files <= i64::MAX
        &&& self.head.committed_output_bytes <= i64::MAX
    }

    /// The node at `k` is the live one with this name and generation.
    pub open spec fn live_at(&self, k: int, node_id: Seq<char>, generation: i64) -> bool {
        0 <= k < self.nodes@.len() && self.nodes@[k].is_live(node_id, generation)
    }

    fn find_live(&self, node_id: &str, generation: i64) -> (r: Option<usize>)
        ensures
            match r {
                Some(k) => self.live_at(k as int, node_id@, generation),
                None => forall|k: int| !#[trigger] self.live_at(k, node_id@, generation),
            },
    {
        let mut i: usize = 0;
        while i < self.nodes.len()
            invariant
                i <= self.nodes@.len(),
                forall|k: int|
                    0 <= k < i ==> !(#[trigger] self.nodes@[k]).is_live(node_id@, generation),
            decreases self.nodes.len() - i,
        {
            let node = &self.nodes[i];
            if same_text(node.node_id.as_str(), node_id) && node.generation == generation
                && node.status == RowStatus::Pending {
                return Some(i);
            }
            i += 1;
        }
        None
    }

    /// The change was made to the live node with this name and generation, and to no other.
    pub open spec fn changed(
        self,
        new: TaskState,
        node_id: Seq<char>,
        generation: i64,
        change: NodeChange,
    ) -> bool {
        exists|k: int| #[trigger]
            self.live_at(k, node_id, generation) && change.admitted(self.nodes@[k]) && new.nodes@
                == self.nodes@.update(k, change.after(self.nodes@[k]))
    }

    /// No live node with this name and generation admits the change.
    pub open spec fn refuses(self, node_id: Seq<char>, generation: i64, change: NodeChange) -> bool {
        forall|k: int| #[trigger]
            self.live_at(k, node_id, generation) ==> !change.admitted(self.nodes@[k])
    }

    /// Makes a change to the live node with this name and generation, if there is one that
    /// admits it.
    fn apply(&mut self, node_id: &str, generation: i64, change: NodeChange) -> (r: bool)
        requires
            old(self).wf(),
            change is Reset ==> generation < i64::MAX,
        ensures
            final(self).wf(),
            final(self).head == old(self).head,
            r ==> old(self).changed(*final(self), node_id@, generation, change),
            !r ==> *final(self) == *old(self) && old(self).refuses(node_id@, generation, change),
    {
        let k: usize = match self.find_live(node_id, generation) {
            Some(k) => k,
            None => {
                return false;
            },
        };
        if !change.is_admitted(&self.nodes[k]) {
            proof {
                assert forall|i: int| #[trigger]
                    self.live_at(i, node_id@, generation) implies !change.admitted(
                    self.nodes@[i],
                ) by {
                    assert(self.nodes@[i].node_id@ == self.nodes@[k as int].node_id@);
                }
            }
            return false;
        }
        let node: NodeRecord = self.nodes.remove(k);
        let node = change.applied(node);
        self.nodes.insert(k, node);
        proof {
            let was = old(self).nodes@;
            assert(self.nodes@ =~= was.update(k as int, change.after(was[k as int])));
            assert(old(self).live_at(k as int, node_id@, generation));
            assert forall|i: int, j: int| 0 <= i < j < self.nodes@.len() implies (
            #[trigger] self.nodes@[i]).node_id@ != (#[trigger] self.nodes@[j]).node_id@ by {
                assert(was[i].node_id@ != was[j].node_id@);
            }
        }
        true
    }

    /// Notes what a running node has put aside.
    pub fn record_artifacts(&mut self, node_id: &str, generation: i64, artifact_refs_json: String) -> (r: bool)
        requires
            old(self).wf(),
        ensures
            final(self).wf(),
            final(self).head == old(self).head,
            r ==> old(self).changed(*final(self), node_id@, generation, NodeChange::RecordArtifacts(artifact_refs_json)),
            !r ==> *final(self) == *old(self) && old(self).refuses(
                node_id@,
                generation,
                NodeChange::RecordArtifacts(artifact_refs_json),
            ),
    {
        self.apply(node_id, generation, NodeChange::RecordArtifacts(artifact_refs_json))
    }

    /// Forgets what a node had put aside.
    pub fn clear_artifacts(&mut self, node_id: &str, generation: i64) -> (r: bool)
        requires
            old(self).wf(),
        ensures
            final(self).wf(),
            final(self).head == old(self).head,
            r ==> old(self).changed(*final(self), node_id@, generation, NodeChange::ClearArtifacts),
            !r ==> *final(self) == *old(self) && old(self).refuses(
                node_id@,
                generation,
                NodeChange::ClearArtifacts,
            ),
    {
        self.apply(node_id, generation, NodeChange::ClearArtifacts)
    }

    /// Moves a node from one state into another, in this stage and under this attempt.
    pub fn transition(
        &mut self,
        node_id: &str,
        generation: i64,
        from: ExecutionState,
        to: ExecutionState,
        stage: Stage,
        attempt_id: Option<String>,
    ) -> (r: Option<StageEvent>)
        requires
            old(self).wf(),
        ensures
            final(self).wf(),
            match r {
                Some(event) => {
                    &&& old(self).changed(*final(self), node_id@, generation, NodeChange::Transition { from, to, stage, attempt_id })
                    &&& final(self).head == at_work(old(self).head)
                    &&& tells(event, node_id@, stage.text(), crate::text::opt_text(attempt_id), to.text())
                },
                None => *final(self) == *old(self) && old(self).refuses(
                    node_id@,
                    generation,
                    NodeChange::Transition { from, to, stage, attempt_id },
                ),
            },
    {
        let told = copy_opt(&attempt_id);
        let ghost was = *self;
        if !self.apply(node_id, generation, NodeChange::Transition { from, to, stage, attempt_id }) {
            return None;
        }
        let ghost made = *self;
        if !self.head.finished {
            self.head.phase = TaskPhase::Running;
        }
        proof {
            let change = NodeChange::Transition { from, to, stage, attempt_id };
            was.lemma_changed_nodes(made, *self, node_id@, generation, change);
        }
        Some(event(node_id, stage.as_str(), told, to.as_str()))
    }

    /// Has a running node wait for a decision.
    pub fn wait_for_decision(&mut self, node_id: &str, stage: Stage, decision: PendingDecision) -> (r: Option<StageEvent>)
        requires
            old(self).wf(),
        ensures
            final(self).wf(),
            match r {
                Some(event) => {
                    &&& old(self).changed(*final(self), node_id@, decision.generation, NodeChange::Wait { stage, decision })
                    &&& final(self).head == old(self).head
                    &&& tells(event, node_id@, stage.text(), None::<Seq<char>>, "waiting_input"@)
                },
                None => *final(self) == *old(self) && old(self).refuses(
                    node_id@,
                    decision.generation,
                    NodeChange::Wait { stage, decision },
                ),
            },
    {
        if !self.apply(node_id, decision.generation, NodeChange::Wait { stage, decision }) {
            return None;
        }
        Some(event(node_id, stage.as_str(), None, "waiting_input"))
    }

    /// Notes what a running node is about to publish.
    pub fn begin_commit(&mut self, node_id: &str, generation: i64, commit_json: String) -> (r: Option<StageEvent>)
        requires
            old(self).wf(),
        ensures
            final(self).wf(),
            match r {
                Some(event) => {
                    &&& old(self).changed(*final(self), node_id@, generation, NodeChange::BeginCommit(commit_json))
                    &&& final(self).head == old(self).head
                    &&& tells(event, node_id@, "commit"@, None::<Seq<char>>, "committing"@)
                },
                None => *final(self) == *old(self) && old(self).refuses(
                    node_id@,
                    generation,
                    NodeChange::BeginCommit(commit_json),
                ),
            },
    {
        if !self.apply(node_id, generation, NodeChange::BeginCommit(commit_json)) {
            return None;
        }
        Some(event(node_id, "commit", None, "committing"))
    }

    /// Notes that a node has published its output.
    pub fn commit_published(&mut self, node_id: &str, generation: i64, commit_json: String) -> (r: Option<StageEvent>)
        requires
            old(self).wf(),
        ensures
            final(self).wf(),
            match r {
                Some(event) => {
                    &&& old(self).changed(*final(self), node_id@, generation, NodeChange::Published(commit_json))
                    &&& final(self).head == old(self).head
                    &&& tells(event, node_id@, "commit"@, None::<Seq<char>>, "published"@)
                },
                None => *final(self) == *old(self) && old(self).refuses(
                    node_id@,
                    generation,
                    NodeChange::Published(commit_json),
                ),
            },
    {
        if !self.apply(node_id, generation, NodeChange::Published(commit_json)) {
            return None;
        }
        Some(event(node_id, "commit", None, "published"))
    }

    /// Notes that a node has published nothing.
    pub fn abort_commit(&mut self, node_id: &str, generation: i64) -> (r: Option<StageEvent>)
        requires
            old(self).wf(),
        ensures
            final(self).wf(),
            match r {
                Some(event) => {
                    &&& old(self).changed(*final(self), node_id@, generation, NodeChange::Abort)
                    &&& final(self).head == old(self).head
                    &&& tells(event, node_id@, "commit"@, None::<Seq<char>>, "aborted"@)
                },
                None => *final(self) == *old(self) && old(self).refuses(
                    node_id@,
                    generation,
                    NodeChange::Abort,
                ),
            },
    {
        if !self.apply(node_id, generation, NodeChange::Abort) {
            return None;
        }
        Some(event(node_id, "commit", None, "aborted"))
    }

    /// Drops what a node was about to publish, and has it start over in its next generation.
    pub fn reset_commit_for_retry(&mut self, node_id: &str, generation: i64) -> (r: Option<StageEvent>)
        requires
            old(self).wf(),
            generation < i64::MAX,
        ensures
            final(self).wf(),
            match r {
                Some(event) => {
                    &&& old(self).changed(*final(self), node_id@, generation, NodeChange::Reset)
                    &&& final(self).head == old(self).head
                    &&& tells(event, node_id@, "recovery"@, None::<Seq<char>>, "ready"@)
                },
                None => *final(self) == *old(self) && old(self).refuses(
                    node_id@,
                    generation,
                    NodeChange::Reset,
                ),
            },
    {
        if !self.apply(node_id, generation, NodeChange::Reset) {
            return None;
        }
        Some(event(node_id, "recovery", None, "ready"))
    }

    proof fn lemma_changed_nodes(
        self,
        made: TaskState,
        new: TaskState,
        node_id: Seq<char>,
        generation: i64,
        change: NodeChange,
    )
        requires
            self.changed(made, node_id, generation, change),
            new.nodes@ == made.nodes@,
        ensures
            self.changed(new, node_id, generation, change),
    {
        let k = choose|k: int| #[trigger]
            self.live_at(k, node_id, generation) && change.admitted(self.nodes@[k])
                && made.nodes@ == self.nodes@.update(k, change.after(self.nodes@[k]));
        assert(self.live_at(k, node_id, generation));
    }

    /// Takes the reply to the question that a node waits for, where the node is in this
    /// generation, the question is this one, and the task is in these hands.
    pub fn accept_decision_reply(
        &mut self,
        node_id: &str,
        generation: i64,
        decision_id: String,
        owner_epoch: i64,
    ) -> (r: Option<StageEvent>)
        requires
            old(self).wf(),
        ensures
            final(self).wf(),
            match r {
                Some(event) => {
                    &&& old(self).head.owner_epoch == owner_epoch
                    &&& old(self).changed(
                        *final(self),
                        node_id@,
                        generation,
                        NodeChange::Reply(decision_id),
                    )
                    &&& final(self).head == old(self).head
                    &&& tells(event, node_id@, "decision"@, None, "ready"@)
                },
                None => *final(self) == *old(self) && (old(self).head.owner_epoch != owner_epoch
                    || old(self).refuses(node_id@, generation, NodeChange::Reply(decision_id))),
            },
    {
        if self.head.owner_epoch != owner_epoch {
            return None;
        }
        if !self.apply(node_id, generation, NodeChange::Reply(decision_id)) {
            return None;
        }
        Some(event(node_id, "decision", None, "ready"))
    }

    /// The task after one of its nodes has ended: its output is counted, and where no node is
    /// pending the task has finished as its nodes have.
    pub open spec fn settled(head: TaskHead, nodes: Seq<NodeRecord>, files: u64, bytes: u64) -> TaskHead {
        let counted = TaskHead {
            committed_output_files: (head.committed_output_files + files) as u64,
            committed_output_bytes: (head.committed_output_bytes + bytes) as u64,
            ..head
        };
        if head.finished || count_status(nodes, RowStatus::Pending) > 0 {
            at_work(counted)
        } else {
            TaskHead { phase: final_phase(nodes), finished: true, ..counted }
        }
    }

    /// Ends a node, with what became of it.
    pub fn finish_node(
        &mut self,
        node_id: &str,
        generation: i64,
        status: NodeStatus,
        reason: Option<String>,
        committed: bool,
        facts: NodeFacts,
        output_files: u64,
        output_bytes: u64,
    ) -> (r: Result<Option<StageEvent>, StoreError>)
        requires
            old(self).wf(),
            old(self).head.committed_output_files + output_files <= i64::MAX || output_files
                > i64::MAX,
            old(self).head.committed_output_bytes + output_bytes <= i64::MAX || output_bytes
                > i64::MAX,
        ensures
            final(self).wf(),
            match r {
                Err(e) => e == StoreError::NumberTooLarge && (output_files > i64::MAX
                    || output_bytes > i64::MAX) && *final(self) == *old(self),
                Ok(None) => output_files <= i64::MAX && output_bytes <= i64::MAX && *final(self)
                    == *old(self) && forall|k: int| !#[trigger]
                    old(self).live_at(k, node_id@, generation),
                Ok(Some(event)) => {
                    &&& output_files <= i64::MAX && output_bytes <= i64::MAX
                    &&& exists|commit_json: Option<String>|
                        {
                            &&& #[trigger] old(self).changed(
                                *final(self),
                                node_id@,
                                generation,
                                NodeChange::Finish { status, reason, commit_json, facts },
                            )
                            &&& crate::text::opt_text(commit_json) == if committed {
                                Some("{\"published\":true}"@)
                            } else {
                                None
                            }
                        }
                    &&& final(self).head == TaskState::settled(
                        old(self).head,
                        final(self).nodes@,
                        output_files,
                        output_bytes,
                    )
                    &&& !old(self).head.finished && !some_node(final(self).nodes@, RowStatus::Pending)
                        ==> final(self).head.finished && ends_as(
                        final(self).nodes@,
                        final(self).head.phase,
                    )
                    &&& !old(self).head.finished && some_node(final(self).nodes@, RowStatus::Pending)
                        ==> !final(self).head.finished && final(self).head.phase
                        == TaskPhase::Running
                    &&& old(self).head.finished ==> final(self).head.finished && final(self).head.phase == old(self).head.phase
                    &&& tells(event, node_id@, "cleanup"@, None, status.text())
                },
            },
    {
        if output_files > i64::MAX as u64 || output_bytes > i64::MAX as u64 {
            return Err(StoreError::NumberTooLarge);
        }
        let commit_json: Option<String> = if committed {
            Some("{\"published\":true}".to_owned())
        } else {
            None
        };
        let ghost change = NodeChange::Finish { status, reason, commit_json, facts };
        let ghost was = *self;
        if !self.apply(
            node_id,
            generation,
            NodeChange::Finish { status, reason, commit_json, facts },
        ) {
            return Ok(None);
        }
        let ghost made = *self;
        self.head.committed_output_files = self.head.committed_output_files + output_files;
        self.head.committed_output_bytes = self.head.committed_output_bytes + output_bytes;
        if !self.head.finished {
            if count_nodes(&self.nodes, RowStatus::Pending) == 0 {
                self.head.phase = closing_phase(&self.nodes);
                self.head.finished = true;
            } else {
                self.head.phase = TaskPhase::Running;
            }
        }
        proof {
            was.lemma_changed_nodes(made, *self, node_id@, generation, change);
            lemma_all_counted(self.nodes@);
        }
        Ok(Some(event(node_id, "cleanup", None, status.as_str())))
    }
}

fn closing_phase(nodes: &Vec<NodeRecord>) -> (r: TaskPhase)
    ensures
        r == final_phase(nodes@),
        ends_as(nodes@, r),
{
    proof {
        lemma_all_counted(nodes@);
    }
    if count_nodes(nodes, RowStatus::Ended(NodeStatus::Cancelled)) > 0 {
        TaskPhase::Cancelled
    } else if count_nodes(nodes, RowStatus::Ended(NodeStatus::Failed)) == 0 {
        TaskPhase::Completed
    } else if count_nodes(nodes, RowStatus::Ended(NodeStatus::Extracted)) == 0 {
        TaskPhase::Failed
    } else {
        TaskPhase::Partial
    }
}

/// A task with these nodes ends in this way: one cancelled node cancels it, and else it is
/// completed without a failed node, failed without an extracted one, and partial with both.
pub open spec fn ends_as(nodes: Seq<NodeRecord>, phase: TaskPhase) -> bool {
    let cancelled = some_node(nodes, RowStatus::Ended(NodeStatus::Cancelled));
    let failed = some_node(nodes, RowStatus::Ended(NodeStatus::Failed));
    let extracted = some_node(nodes, RowStatus::Ended(NodeStatus::Extracted));
    &&& phase == TaskPhase::Cancelled <==> cancelled
    &&& phase == TaskPhase::Completed <==> !cancelled && !failed
    &&& phase == TaskPhase::Failed <==> !cancelled && failed && !extracted
    &&& phase == TaskPhase::Partial <==> !cancelled && failed && extracted
}

/// A task whose last node has ended is finished as its nodes say: cancelled exactly where a node
/// was cancelled, and else completed exactly where none has failed, failed exactly where one has
/// failed and none was extracted, and partial exactly where there is one of each.
pub proof fn finished_task_tells_of_its_nodes(
    head: TaskHead,
    nodes: Seq<NodeRecord>,
    files: u64,
    bytes: u64,
)
    requires
        !head.finished,
        forall|i: int| 0 <= i < nodes.len() ==> (#[trigger] nodes[i]).status != RowStatus::Pending,
    ensures
        ({
            let phase = TaskState::settled(head, nodes, files, bytes).phase;
            let cancelled = exists|i: int|
                0 <= i < nodes.len() && (#[trigger] nodes[i]).status == RowStatus::Ended(
                    NodeStatus::Cancelled,
                );
            let failed = exists|i: int|
                0 <= i < nodes.len() && (#[trigger] nodes[i]).status == RowStatus::Ended(
                    NodeStatus::Failed,
                );
            let extracted = exists|i: int|
                0 <= i < nodes.len() && (#[trigger] nodes[i]).status == RowStatus::Ended(
                    NodeStatus::Extracted,
                );
            &&& phase == TaskPhase::Cancelled <==> cancelled
            &&& phase == TaskPhase::Completed <==> !cancelled && !failed
            &&& phase == TaskPhase::Failed <==> !cancelled && failed && !extracted
            &&& phase == TaskPhase::Partial <==> !cancelled && failed && extracted
        }),
        TaskState::settled(head, nodes, files, bytes).finished,
{
    lemma_all_counted(nodes);
    assert(!some_node(nodes, RowStatus::Pending));
    assert(some_node(nodes, RowStatus::Ended(NodeStatus::Cancelled)) == exists|i: int|
        0 <= i < nodes.len() && (#[trigger] nodes[i]).status == RowStatus::Ended(
            NodeStatus::Cancelled,
        ));
    assert(some_node(nodes, RowStatus::Ended(NodeStatus::Failed)) == exists|i: int|
        0 <= i < nodes.len() && (#[trigger] nodes[i]).status == RowStatus::Ended(
            NodeStatus::Failed,
        ));
    assert(some_node(nodes, RowStatus::Ended(NodeStatus::Extracted)) == exists|i: int|
        0 <= i < nodes.len() && (#[trigger] nodes[i]).status == RowStatus::Ended(
            NodeStatus::Extracted,
        ));
}

/// A task is at work as long as one of its nodes is pending, and counts what they wrote.
pub proof fn pending_node_keeps_a_task_at_work(
    head: TaskHead,
    nodes: Seq<NodeRecord>,
    files: u64,
    bytes: u64,
    i: int,
)
    requires
        !head.finished,
        0 <= i < nodes.len(),
        nodes[i].status == RowStatus::Pending,
        head.committed_output_files + files <= u64::MAX,
        head.committed_output_bytes + bytes <= u64::MAX,
    ensures
        ({
            let after = TaskState::settled(head, nodes, files, bytes);
            &&& after.phase == TaskPhase::Running
            &&& !after.finished
            &&& after.committed_output_files - head.committed_output_files == files
            &&& after.committed_output_bytes - head.committed_output_bytes == bytes
            &&& after.paused == head.paused
            &&& after.owner_epoch == head.owner_epoch
            &&& after.nested_candidate_count == head.nested_candidate_count
        }),
{
    lemma_all_counted(nodes);
    assert(some_node(nodes, RowStatus::Pending));
}

/// How a task is stopped.
#[derive(Clone, Copy, Debug, PartialEq, Eq, Structural)]
pub enum StopStatus {
    Failed,
    Cancelled,
}

impl StopStatus {
    /// How the task's open nodes end.
    pub open spec fn of_node(self) -> NodeStatus {
        match self {
            StopStatus::Failed => NodeStatus::Failed,
            StopStatus::Cancelled => NodeStatus::Cancelled,
        }
    }

    /// How the task ends.
    pub open spec fn of_task(self) -> TaskPhase {
        match self {
            StopStatus::Failed => TaskPhase::Failed,
            StopStatus::Cancelled => TaskPhase::Cancelled,
        }
    }

    fn node_status(self) -> (r: NodeStatus)
        ensures
            r == self.of_node(),
    {
        match self {
            StopStatus::Failed => NodeStatus::Failed,
            StopStatus::Cancelled => NodeStatus::Cancelled,
        }
    }

    fn task_phase(self) -> (r: TaskPhase)
        ensures
            r == self.of_task(),
    {
        match self {
            StopStatus::Failed => TaskPhase::Failed,
            StopStatus::Cancelled => TaskPhase::Cancelled,
        }
    }
}

impl NodeRecord {
    /// The node has not ended, and has announced nothing that it would publish.
    pub open spec fn is_open(self) -> bool {
        self.status == RowStatus::Pending && self.commit_json is None
    }

    /// The node has not ended, and what it announced may have been published.
    pub open spec fn awaits_recovery(self) -> bool {
        self.status == RowStatus::Pending && self.commit_json is Some
    }

    /// The new node is the old one, stopped for this reason.
    pub open spec fn stopped(self, new: NodeRecord, status: NodeStatus, reason: Seq<char>) -> bool {
        &&& new == (NodeRecord {
            status: RowStatus::Ended(status),
            execution_state: ExecutionState::Terminal,
            stage: Stage::Cleanup,
            attempt_id: None,
            reason: new.reason,
            ..self
        })
        &&& crate::text::opt_text(new.reason) == Some(reason)
    }
}

/// Where the open nodes are, in their order.
pub open spec fn open_nodes(nodes: Seq<NodeRecord>) -> Seq<int>
    decreases nodes.len(),
{
    if nodes.len() == 0 {
        Seq::empty()
    } else if nodes.last().is_open() {
        open_nodes(nodes.drop_last()).push(nodes.len() - 1)
    } else {
        open_nodes(nodes.drop_last())
    }
}

/// Each open node has been stopped, and the others are as they were.
pub open spec fn all_stopped(
    old: Seq<NodeRecord>,
    new: Seq<NodeRecord>,
    status: NodeStatus,
    reason: Seq<char>,
) -> bool {
    &&& new.len() == old.len()
    &&& forall|k: int|
        0 <= k < old.len() ==> if (#[trigger] old[k]).is_open() {
            old[k].stopped(new[k], status, reason)
        } else {
            new[k] == old[k]
        }
}

/// The events tell of the nodes at these places.
pub open spec fn tells_all(
    events: Seq<StageEvent>,
    nodes: Seq<NodeRecord>,
    places: Seq<int>,
    status: NodeStatus,
) -> bool {
    &&& events.len() == places.len()
    &&& forall|i: int|
        0 <= i < places.len() ==> tells(
            #[trigger] events[i],
            nodes[places[i]].node_id@,
            "cleanup"@,
            None,
            status.text(),
        )
}

proof fn lemma_open_places(nodes: Seq<NodeRecord>)
    ensures
        forall|i: int|
            0 <= i < open_nodes(nodes).len() ==> 0 <= #[trigger] open_nodes(nodes)[i]
                < nodes.len(),
    decreases nodes.len(),
{
    if nodes.len() > 0 {
        lemma_open_places(nodes.drop_last());
        let rest = open_nodes(nodes.drop_last());
        assert forall|i: int| 0 <= i < open_nodes(nodes).len() implies 0 <= #[trigger] open_nodes(
            nodes,
        )[i] < nodes.len() by {
            if i < rest.len() {
                assert(open_nodes(nodes)[i] == rest[i]);
            }
        }
    }
}

impl TaskState {
    /// Stops the task: its open nodes end, and so does the task, unless a node may have
    /// published something that is to be looked at first.
    pub fn finish_pending_task(&mut self, status: StopStatus, reason: &str) -> (r: Vec<StageEvent>)
        requires
            old(self).wf(),
        ensures
            final(self).wf(),
            all_stopped(old(self).nodes@, final(self).nodes@, status.of_node(), reason@),
            final(self).head == if exists|k: int|
                0 <= k < old(self).nodes@.len() && (#[trigger] old(self).nodes@[k]).awaits_recovery() {
                TaskHead { phase: TaskPhase::Recovering, finished: false, ..old(self).head }
            } else if old(self).head.finished {
                old(self).head
            } else {
                TaskHead { phase: status.of_task(), finished: true, ..old(self).head }
            },
            tells_all(
                r@,
                old(self).nodes@,
                open_nodes(old(self).nodes@),
                status.of_node(),
            ),
    {
        let ghost was = self.nodes@;
        let ghost head = self.head;
        let mut events: Vec<StageEvent> = Vec::new();
        let mut unsettled = false;
        let mut i: usize = 0;
        assert(was.take(0).len() == 0);
        while i < self.nodes.len()
            invariant
                i <= was.len(),
                self.head == head,
                self.nodes@.len() == was.len(),
                distinct(self.nodes@),
                forall|k: int|
                    0 <= k < i ==> if (#[trigger] was[k]).is_open() {
                        was[k].stopped(self.nodes@[k], status.of_node(), reason@)
                    } else {
                        self.nodes@[k] == was[k]
                    },
                forall|k: int| i <= k < was.len() ==> #[trigger] self.nodes@[k] == was[k],
                unsettled == exists|k: int|
                    0 <= k < i && (#[trigger] was[k]).awaits_recovery(),
                tells_all(events@, was, open_nodes(was.take(i as int)), status.of_node()),
            decreases was.len() - i,
        {
            let ghost before = self.nodes@;
            let ghost told = events@;
            proof {
                assert(was.take(i + 1).drop_last() =~= was.take(i as int));
                assert(was.take(i + 1).last() == was[i as int]);
            }
            if self.nodes[i].status == RowStatus::Pending {
                if self.nodes[i].commit_json.is_some() {
                    unsettled = true;
                    assert(was[i as int].awaits_recovery());
                } else {
                    let mut node: NodeRecord = self.nodes.remove(i);
                    events.push(
                        event(
                            node.node_id.as_str(),
                            "cleanup",
                            None,
                            status.node_status().as_str(),
                        ),
                    );
                    node.status = RowStatus::Ended(status.node_status());
                    node.reason = Some(reason.to_owned());
                    node.execution_state = ExecutionState::Terminal;
                    node.stage = Stage::Cleanup;
                    node.attempt_id = None;
                    self.nodes.insert(i, node);
                    proof {
                        assert(self.nodes@ =~= before.update(i as int, self.nodes@[i as int]));
                        assert forall|a: int, b: int| 0 <= a < b < self.nodes@.len() implies (
                        #[trigger] self.nodes@[a]).node_id@ != (
                        #[trigger] self.nodes@[b]).node_id@ by {
                            assert(before[a].node_id@ != before[b].node_id@);
                        }
                    }
                }
            }
            i += 1;
            proof {
                assert forall|k: int| i <= k < was.len() implies #[trigger] self.nodes@[k]
                    == was[k] by {
                    assert(before[k] == was[k]);
                }
                lemma_open_places(was.take(i - 1));
            }
        }
        assert(was.take(i as int) =~= was);
        if unsettled {
            self.head.phase = TaskPhase::Recovering;
            self.head.finished = false;
        } else if !self.head.finished {
            self.head.phase = status.task_phase();
            self.head.finished = true;
        }
        events
    }

    /// Ends the task as it is told to.
    pub fn set_terminal_task_status(&mut self, phase: TaskPhase)
        ensures
            final(self).nodes == old(self).nodes,
            final(self).head == (TaskHead { phase, finished: true, ..old(self).head }),
    {
        self.head.phase = phase;
        self.head.finished = true;
    }

    /// Gives a task that has not finished another priority.
    pub fn set_priority(&mut self, priority: Priority) -> (r: bool)
        ensures
            r == !old(self).head.finished,
            final(self).nodes == old(self).nodes,
            final(self).head == if r {
                TaskHead { priority, ..old(self).head }
            } else {
                old(self).head
            },
    {
        if self.head.finished {
            return false;
        }
        self.head.priority = priority;
        true
    }

    /// Holds a task that has not finished, or lets it go on.
    pub fn set_paused(&mut self, paused: bool) -> (r: bool)
        ensures
            r == !old(self).head.finished,
            final(self).nodes == old(self).nodes,
            final(self).head == if r {
                TaskHead { paused, ..old(self).head }
            } else {
                old(self).head
            },
    {
        if self.head.finished {
            return false;
        }
        self.head.paused = paused;
        true
    }

    /// Puts a task that has not finished at another place in the queue.
    pub fn reorder(&mut self, queue_position: i64) -> (r: bool)
        ensures
            r == !old(self).head.finished,
            final(self).nodes == old(self).nodes,
            final(self).head == if r {
                TaskHead { queue_position, ..old(self).head }
            } else {
                old(self).head
            },
    {
        if self.head.finished {
            return false;
        }
        self.head.queue_position = queue_position;
        true
    }

    /// A node of the task came from this parent and this input.
    pub open spec fn has_child(&self, parent: Option<Seq<char>>, input_ref: Seq<char>) -> bool {
        exists|k: int|
            0 <= k < self.nodes@.len() && crate::text::opt_text(
                (#[trigger] self.nodes@[k]).parent_node_id,
            ) == parent && self.nodes@[k].input_ref_json@ == input_ref
    }

    /// A node of the task has this name.
    pub open spec fn has_node(&self, node_id: Seq<char>) -> bool {
        exists|k: int|
            0 <= k < self.nodes@.len() && (#[trigger] self.nodes@[k]).node_id@ == node_id
    }

    fn holds_child(&self, parent_id: &Option<String>, input_ref_json: &str) -> (r: bool)
        ensures
            r == self.has_child(crate::text::opt_text(*parent_id), input_ref_json@),
    {
        let mut i: usize = 0;
        while i < self.nodes.len()
            invariant
                i <= self.nodes@.len(),
                forall|k: int|
                    0 <= k < i ==> !(crate::text::opt_text(
                        (#[trigger] self.nodes@[k]).parent_node_id,
                    ) == crate::text::opt_text(*parent_id) && self.nodes@[k].input_ref_json@
                        == input_ref_json@),
            decreases self.nodes.len() - i,
        {
            if same_opt_text(&self.nodes[i].parent_node_id, parent_id) && same_text(
                self.nodes[i].input_ref_json.as_str(),
                input_ref_json,
            ) {
                return true;
            }
            i += 1;
        }
        false
    }

    pub(crate) fn holds_node(&self, node_id: &str) -> (r: bool)
        ensures
            r == self.has_node(node_id@),
    {
        let mut i: usize = 0;
        while i < self.nodes.len()
            invariant
                i <= self.nodes@.len(),
                forall|k: int|
                    0 <= k < i ==> (#[trigger] self.nodes@[k]).node_id@ != node_id@,
            decreases self.nodes.len() - i,
        {
            if same_text(self.nodes[i].node_id.as_str(), node_id) {
                return true;
            }
            i += 1;
        }
        false
    }

    /// Whether a child of this parent came from this input.
    pub fn child_exists(&self, parent_id: &str, input_ref_json: &str) -> (r: bool)
        ensures
            r == self.has_child(Some(parent_id@), input_ref_json@),
    {
        let parent: Option<String> = Some(parent_id.to_owned());
        self.holds_child(&parent, input_ref_json)
    }

    /// Takes a child in, unless its parent already has one from the same input.
    pub fn enqueue_child(&mut self, child: NewNode) -> (r: Result<bool, StoreError>)
        requires
            old(self).wf(),
            old(self).head.nested_candidate_count < usize::MAX,
        ensures
            final(self).wf(),
            ({
                let known = old(self).has_child(
                    crate::text::opt_text(child.parent_id),
                    child.input_ref_json@,
                );
                match r {
                    Ok(false) => known && *final(self) == *old(self),
                    Ok(true) => {
                        &&& !known && !old(self).has_node(child.id@)
                        &&& final(self).nodes@ == old(self).nodes@.push(NodeRecord::fresh(child))
                        &&& final(self).head == (TaskHead {
                            nested_candidate_count: (old(self).head.nested_candidate_count
                                + 1) as usize,
                            ..old(self).head
                        })
                    },
                    Err(e) => e == StoreError::DuplicateNode && !known && old(self).has_node(
                        child.id@,
                    ) && *final(self) == *old(self),
                }
            }),
    {
        if self.holds_child(&child.parent_id, child.input_ref_json.as_str()) {
            return Ok(false);
        }
        if self.holds_node(child.id.as_str()) {
            return Err(StoreError::DuplicateNode);
        }
        let node = NodeRecord::from_new(child);
        self.nodes.push(node);
        self.head.nested_candidate_count = self.head.nested_candidate_count + 1;
        Ok(true)
    }

    /// The node with this name, in this generation.
    pub fn node(&self, node_id: &str, generation: i64) -> (r: Option<&NodeRecord>)
        ensures
            match r {
                Some(n) => self.nodes@.contains(*n) && n.node_id@ == node_id@ && n.generation
                    == generation,
                None => forall|k: int|
                    0 <= k < self.nodes@.len() ==> !((#[trigger] self.nodes@[k]).node_id@
                        == node_id@ && self.nodes@[k].generation == generation),
            },
    {
        let mut i: usize = 0;
        while i < self.nodes.len()
            invariant
                i <= self.nodes@.len(),
                forall|k: int|
                    0 <= k < i ==> !((#[trigger] self.nodes@[k]).node_id@ == node_id@
                        && self.nodes@[k].generation == generation),
            decreases self.nodes.len() - i,
        {
            if same_text(self.nodes[i].node_id.as_str(), node_id) && self.nodes[i].generation
                == generation {
                return Some(&self.nodes[i]);
            }
            i += 1;
        }
        None
    }
}

/// A worker that does not know the node's name and present generation, or that comes after
/// the node has ended, changes nothing of it.
pub proof fn stale_worker_changes_nothing(
    old: TaskState,
    new: TaskState,
    node_id: Seq<char>,
    generation: i64,
    change: NodeChange,
    k: int,
)
    requires
        old.wf(),
        old.changed(new, node_id, generation, change),
        0 <= k < old.nodes@.len(),
        !old.nodes@[k].is_live(node_id, generation),
    ensures
        new.nodes@[k] == old.nodes@[k],
{
}

/// A node that has ended takes no change any more, in whatever generation it is addressed.
pub proof fn ended_node_is_final(
    old: TaskState,
    new: TaskState,
    node_id: Seq<char>,
    generation: i64,
    end: NodeChange,
    later: i64,
    change: NodeChange,
)
    requires
        old.wf(),
        end is Finish,
        old.changed(new, node_id, generation, end),
    ensures
        new.refuses(node_id, later, change),
{
    lemma_only_node(old, new, node_id, generation, end, later);
}

/// A question is answered once: after a reply was taken, the node waits for none.
pub proof fn reply_is_taken_once(
    old: TaskState,
    new: TaskState,
    node_id: Seq<char>,
    generation: i64,
    reply: NodeChange,
    again: NodeChange,
)
    requires
        old.wf(),
        reply is Reply,
        again is Reply,
        old.changed(new, node_id, generation, reply),
    ensures
        new.refuses(node_id, generation, again),
{
    lemma_only_node(old, new, node_id, generation, reply, generation);
}

/// A node announces one commit at a time.
pub proof fn commit_is_announced_once(
    old: TaskState,
    new: TaskState,
    node_id: Seq<char>,
    generation: i64,
    first: NodeChange,
    second: NodeChange,
)
    requires
        old.wf(),
        first is BeginCommit,
        second is BeginCommit,
        old.changed(new, node_id, generation, first),
    ensures
        new.refuses(node_id, generation, second),
{
    lemma_only_node(old, new, node_id, generation, first, generation);
}

/// A node that starts over is out of reach for whoever worked on it before.
pub proof fn reset_shuts_out_the_old_worker(
    old: TaskState,
    new: TaskState,
    node_id: Seq<char>,
    generation: i64,
    change: NodeChange,
)
    requires
        old.wf(),
        generation < i64::MAX,
        old.changed(new, node_id, generation, NodeChange::Reset),
    ensures
        new.refuses(node_id, generation, change),
{
    lemma_only_node(old, new, node_id, generation, NodeChange::Reset, generation);
}

/// After a change no node but the changed one can answer to its name.
proof fn lemma_only_node(
    old: TaskState,
    new: TaskState,
    node_id: Seq<char>,
    generation: i64,
    change: NodeChange,
    later: i64,
)
    requires
        old.wf(),
        old.changed(new, node_id, generation, change),
    ensures
        exists|k: int| #[trigger]
            old.live_at(k, node_id, generation) && change.admitted(old.nodes@[k])
                && new.nodes@[k] == change.after(old.nodes@[k]) && forall|i: int| #[trigger]
            new.live_at(i, node_id, later) ==> i == k,
{
    let k = choose|k: int| #[trigger]
        old.live_at(k, node_id, generation) && change.admitted(old.nodes@[k]) && new.nodes@
            == old.nodes@.update(k, change.after(old.nodes@[k]));
    assert forall|i: int| #[trigger] new.live_at(i, node_id, later) implies i == k by {
        if i != k {
            assert(new.nodes@[i] == old.nodes@[i]);
            assert(old.nodes@[i].node_id@ == old.nodes@[k].node_id@);
        }
    }
    assert(old.live_at(k, node_id, generation));
}

/// Stopping a task leaves no node open, and keeps every node that may have published
/// something as it is.
pub proof fn stop_keeps_announced_commits(
    old: Seq<NodeRecord>,
    new: Seq<NodeRecord>,
    status: NodeStatus,
    reason: Seq<char>,
    k: int,
)
    requires
        all_stopped(old, new, status, reason),
        0 <= k < old.len(),
    ensures
        !new[k].is_open(),
        old[k].awaits_recovery() ==> new[k] == old[k],
{
    assert(old[k].is_open() || !old[k].is_open());
}

/// Whatever is done to a node, it stays the node that it is: no change touches what it is called,
/// where it came from or what it works on. Only its end gives it a status, and only a reset takes
/// it to another generation, which is the next one.
pub proof fn changes_keep_the_node(change: NodeChange, n: NodeRecord)
    requires
        n.generation < i64::MAX,
    ensures
        ({
            let after = change.after(n);
            &&& after.node_id == n.node_id
            &&& after.parent_node_id == n.parent_node_id
            &&& after.root_node_id == n.root_node_id
            &&& after.input_path == n.input_path
            &&& after.input_ref_json == n.input_ref_json
            &&& after.config_revision == n.config_revision
            &&& !(change is Finish) ==> after.status == n.status && after.reason == n.reason
                && after.facts == n.facts
            &&& !(change is Reset) ==> after.generation == n.generation
            &&& change is Reset ==> after.generation == n.generation + 1
        }),
{
}

/// A commit that is announced and taken back leaves the node as it was, and so do artifacts that
/// are recorded and cleared where there were none.
pub proof fn abort_undoes_the_announcement(n: NodeRecord, commit: String, refs: String)
    requires
        NodeChange::BeginCommit(commit).admitted(n),
    ensures
        NodeChange::Abort.admitted(NodeChange::BeginCommit(commit).after(n)),
        NodeChange::Abort.after(NodeChange::BeginCommit(commit).after(n)) == n,
        NodeChange::BeginCommit(commit).after(n).commit_json == Some(commit),
        n.artifact_refs_json is None ==> NodeChange::ClearArtifacts.after(
            NodeChange::RecordArtifacts(refs).after(n),
        ) == n,
        NodeChange::RecordArtifacts(refs).after(n).artifact_refs_json == Some(refs),
{
}

/// What is published is what the node keeps: between the announcement and the publication the
/// node is committing, and after it the node runs on with the record of what it published.
pub proof fn publication_follows_the_announcement(n: NodeRecord, intent: String, done: String)
    requires
        NodeChange::BeginCommit(intent).admitted(n),
    ensures
        ({
            let announced = NodeChange::BeginCommit(intent).after(n);
            let published = NodeChange::Published(done).after(announced);
            &&& announced.execution_state == ExecutionState::Committing
            &&& NodeChange::Published(done).admitted(announced)
            &&& published.execution_state == ExecutionState::Running
            &&& published.commit_json == Some(done)
            &&& !NodeChange::Published(done).admitted(published)
            &&& !NodeChange::Abort.admitted(published)
            &&& !NodeChange::BeginCommit(intent).admitted(published)
        }),
{
}

/// A node that waits for an answer takes that answer alone, and is then ready to go on in the
/// stage that it was in, with nothing left to answer.
pub proof fn answer_ends_the_wait(n: NodeRecord, decision: PendingDecision, id: String)
    requires
        (NodeChange::Wait { stage: n.stage, decision }).admitted(n),
    ensures
        ({
            let waiting = (NodeChange::Wait { stage: n.stage, decision }).after(n);
            let answered = NodeChange::Reply(id).after(waiting);
            &&& waiting.execution_state == ExecutionState::WaitingInput
            &&& waiting.decision == Some(decision)
            &&& NodeChange::Reply(id).admitted(waiting) <==> id@ == decision.id@
                && decision.generation == n.generation
            &&& answered.execution_state == ExecutionState::Ready
            &&& answered.decision is None
            &&& answered.stage == n.stage
            &&& !NodeChange::Reply(id).admitted(answered)
        }),
{
}

/// A worker takes over a node only from the state that it expects, and the node is then where the
/// worker says it is, with the worker's attempt.
pub proof fn transition_starts_from_its_state(
    n: NodeRecord,
    from: ExecutionState,
    to: ExecutionState,
    stage: Stage,
    attempt_id: Option<String>,
)
    ensures
        ({
            let change = NodeChange::Transition { from, to, stage, attempt_id };
            let after = change.after(n);
            &&& change.admitted(n) <==> n.execution_state == from
            &&& after.execution_state == to
            &&& after.stage == stage
            &&& after.attempt_id == attempt_id
            &&& after.commit_json == n.commit_json
            &&& after.decision == n.decision
            &&& after.artifact_refs_json == n.artifact_refs_json
        }),
{
}

/// A node that has ended keeps how and why, and nothing that a worker would go on from; a task
/// has no more pending nodes with it.
pub proof fn ended_node_has_no_worker(
    n: NodeRecord,
    status: NodeStatus,
    reason: Option<String>,
    commit_json: Option<String>,
    facts: NodeFacts,
)
    ensures
        ({
            let change = NodeChange::Finish { status, reason, commit_json, facts };
            let after = change.after(n);
            &&& change.admitted(n)
            &&& after.status == RowStatus::Ended(status)
            &&& after.reason == reason
            &&& after.facts == Some(facts)
            &&& after.commit_json == commit_json
            &&& after.execution_state == ExecutionState::Terminal
            &&& after.attempt_id is None
            &&& after.artifact_refs_json is None
            &&& !after.is_open() && !after.awaits_recovery()
            &&& forall|id: Seq<char>, generation: i64| !#[trigger] after.is_live(id, generation)
        }),
{
}

/// A node that starts over does so from the beginning, in a generation that no worker knows.
pub proof fn restart_begins_anew(n: NodeRecord, id: Seq<char>)
    requires
        n.generation < i64::MAX,
    ensures
        ({
            let after = restarted(n);
            &&& after.generation > n.generation
            &&& after.execution_state == ExecutionState::Ready
            &&& after.stage == Stage::ResolveInputs
            &&& after.attempt_id is None
            &&& after.decision is None
            &&& after.status == n.status
            &&& after.commit_json == n.commit_json
            &&& !after.is_live(id, n.generation)
        }),
{
}

/// A new node waits for its first stage: nothing was done for it and nothing is known of it.
pub proof fn new_node_is_untouched(n: NewNode)
    ensures
        ({
            let node = NodeRecord::fresh(n);
            &&& node.is_live(n.id@, n.generation)
            &&& node.is_open()
            &&& node.execution_state == ExecutionState::Ready
            &&& node.stage == Stage::ResolveInputs
            &&& node.attempt_id is None && node.decision is None && node.artifact_refs_json is None
            &&& node.reason is None && node.facts is None
            &&& node.parent_node_id == n.parent_id
            &&& node.root_node_id == n.root_id
            &&& node.input_path == n.input_path
            &&& node.input_ref_json == n.input_ref_json
            &&& node.config_revision == n.config_revision
        }),
{
}

/// A task that is stopped says of itself what its nodes say of themselves.
pub proof fn stop_says_one_thing(status: StopStatus)
    ensures
        RowStatus::Ended(status.of_node()).text() == status.of_task().text(),
        status.of_task() == TaskPhase::Failed <==> status.of_node() == NodeStatus::Failed,
        status.of_task() == TaskPhase::Cancelled <==> status.of_node() == NodeStatus::Cancelled,
        status.of_task() == TaskPhase::Cancelled <==> status == StopStatus::Cancelled,
{
}

/// A stop ends exactly the nodes that are pending and have announced nothing: each of them with
/// its status and its reason, in the generation that it was in.
pub proof fn stop_ends_the_open_nodes(
    before: Seq<NodeRecord>,
    after: Seq<NodeRecord>,
    status: NodeStatus,
    reason: Seq<char>,
    k: int,
)
    requires
        all_stopped(before, after, status, reason),
        0 <= k < before.len(),
    ensures
        after.len() == before.len(),
        after[k].node_id == before[k].node_id,
        after[k].generation == before[k].generation,
        before[k].status == RowStatus::Pending && before[k].commit_json is None ==> {
            &&& after[k].status == RowStatus::Ended(status)
            &&& crate::text::opt_text(after[k].reason) == Some(reason)
            &&& after[k].execution_state == ExecutionState::Terminal
            &&& after[k].attempt_id is None
        },
        before[k].status != RowStatus::Pending || before[k].commit_json is Some ==> after[k]
            == before[k],
{
}

/// The higher priority has the higher number.
pub proof fn priorities_rise(a: Priority, b: Priority)
    ensures
        Priority::Background.rank() < Priority::Normal.rank() < Priority::High.rank(),
        a.rank() == b.rank() <==> a == b,
{
}

/// What a task, a node and a worker say of one and the same thing is one word.
pub proof fn stored_words_agree()
    ensures
        RowStatus::Ended(NodeStatus::Failed).text() == TaskPhase::Failed.text(),
        RowStatus::Ended(NodeStatus::Cancelled).text() == TaskPhase::Cancelled.text(),
        ExecutionState::Running.text() == TaskPhase::Running.text(),
        RowStatus::Ended(NodeStatus::Extracted).text() != RowStatus::Ended(
            NodeStatus::Failed,
        ).text(),
        RowStatus::Pending.text() != RowStatus::Ended(NodeStatus::Extracted).text(),
        RowStatus::Pending.text() != RowStatus::Ended(NodeStatus::Skipped).text(),
        TaskPhase::Completed.text() != TaskPhase::Failed.text(),
        TaskPhase::Completed.text() != TaskPhase::Partial.text(),
{
    reveal_strlit("extracted");
    reveal_strlit("failed");
    reveal_strlit("pending");
    reveal_strlit("skipped");
    reveal_strlit("completed");
    reveal_strlit("partial");
    assert("pending"@[0] != "skipped"@[0]);
    assert("completed"@.len() != "partial"@.len());
}

} // verus!
