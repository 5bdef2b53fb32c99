//! Which stages of which nodes run: the scheduler together with the nodes that it serves.

use vstd::prelude::*;
use crate::coordinator::{
    Dispatch, Stage, StageRun, TaskCoordinator, TaskPriority,
};
use crate::resources::{ResourceCapacity, ResourceRequest};
use crate::task_execution::Priority;
use crate::text::same_text;

verus! {

/// What a node reads and writes.
#[derive(Debug)]
pub struct NodeResources {
    pub task_id: String,
    pub node_id: String,
    pub root_id: String,
    pub input: String,
    pub output_root: String,
    pub source_io_domain: String,
    pub target_io_domain: String,
}

/// The priority that the scheduler gives a stored one.
pub open spec fn scheduled_as(priority: Priority) -> TaskPriority {
    match priority {
        Priority::Background => TaskPriority::Background,
        Priority::Normal => TaskPriority::Normal,
        Priority::High => TaskPriority::High,
    }
}

pub fn task_priority(priority: Priority) -> (r: TaskPriority)
    ensures
        r == scheduled_as(priority),
{
    match priority {
        Priority::Background => TaskPriority::Background,
        Priority::Normal => TaskPriority::Normal,
        Priority::High => TaskPriority::High,
    }
}

/// A stage starts a process of the archive tool.
pub open spec fn runs_backend(stage: Stage) -> bool {
    stage == Stage::ExtractAttempt || stage == Stage::ReadMetadata || stage == Stage::ReadMember
}

/// A stage reads the node's input.
pub open spec fn reads_input(stage: Stage) -> bool {
    runs_backend(stage) || stage == Stage::ScanEmbedded || stage == Stage::Fingerprint || stage
        == Stage::PrepareAccess
}

/// A stage reads what was put out.
pub open spec fn reads_output(stage: Stage) -> bool {
    stage == Stage::DiscoverChildren || stage == Stage::DecodePreview
}

/// A stage works where the output is.
pub open spec fn uses_target(stage: Stage) -> bool {
    stage == Stage::ExtractAttempt || stage == Stage::Commit || reads_output(stage)
}

/// What a stage asks for: one processor, one unit of each device that it works on, and the
/// paths that nobody may write, or that nobody else may use, meanwhile.
pub open spec fn demand_of(stage: Stage, node: NodeResources) -> crate::resources::Demand {
    let source = if reads_input(stage) {
        Map::empty().insert(node.source_io_domain@, 1u32)
    } else {
        Map::empty()
    };
    crate::resources::Demand {
        cpu_units: 1,
        memory_bytes: 0,
        backend_processes: if runs_backend(stage) {
            1
        } else {
            0
        },
        temporary_bytes: 0,
        io_domains: if uses_target(stage) {
            source.insert(node.target_io_domain@, 1u32)
        } else {
            source
        },
        artifact_reads: if reads_input(stage) {
            seq![node.input@]
        } else if reads_output(stage) {
            seq![node.output_root@]
        } else {
            Seq::empty()
        },
        target_paths: if stage == Stage::Commit {
            seq![node.output_root@]
        } else {
            Seq::empty()
        },
    }
}

pub fn resources_for(stage: Stage, node: &NodeResources) -> (r: ResourceRequest)
    ensures
        r.wf(),
        r@ == demand_of(stage, *node),
{
    let mut request: ResourceRequest = ResourceRequest::default();
    request.cpu_units = 1;
    match stage {
        Stage::ExtractAttempt | Stage::ReadMetadata | Stage::ReadMember => {
            request.backend_processes = 1;
            request.artifact_reads.push(node.input.clone());
            request.io_domains.set(node.source_io_domain.as_str(), 1);
            if stage == Stage::ExtractAttempt {
                request.io_domains.set(node.target_io_domain.as_str(), 1);
            }
        },
        Stage::ScanEmbedded | Stage::Fingerprint | Stage::PrepareAccess => {
            request.artifact_reads.push(node.input.clone());
            request.io_domains.set(node.source_io_domain.as_str(), 1);
        },
        Stage::Commit => {
            request.target_paths.push(node.output_root.clone());
            request.io_domains.set(node.target_io_domain.as_str(), 1);
        },
        Stage::DiscoverChildren | Stage::DecodePreview => {
            request.artifact_reads.push(node.output_root.clone());
            request.io_domains.set(node.target_io_domain.as_str(), 1);
        },
        Stage::ResolveInputs | Stage::AnalyzeEncoding | Stage::InspectAndPlan | Stage::Cleanup => {},
    }
    assert(request@.artifact_reads =~= demand_of(stage, *node).artifact_reads);
    assert(request@.target_paths =~= demand_of(stage, *node).target_paths);
    assert(request@.io_domains =~= demand_of(stage, *node).io_domains);
    request
}

/// What a stage is thought to cost.
pub open spec fn expected_cost(stage: Stage) -> u64 {
    match stage {
        Stage::ExtractAttempt => 100,
        Stage::ScanEmbedded | Stage::DiscoverChildren => 40,
        Stage::ReadMetadata | Stage::PrepareAccess | Stage::ReadMember => 20,
        Stage::Commit | Stage::Cleanup => 5,
        Stage::ResolveInputs
        | Stage::Fingerprint
        | Stage::AnalyzeEncoding
        | Stage::InspectAndPlan
        | Stage::DecodePreview => 10,
    }
}

pub fn estimated_cost(stage: Stage) -> (r: u64)
    ensures
        r == expected_cost(stage),
{
    match stage {
        Stage::ExtractAttempt => 100,
        Stage::ScanEmbedded | Stage::DiscoverChildren => 40,
        Stage::ReadMetadata | Stage::PrepareAccess | Stage::ReadMember => 20,
        Stage::Commit | Stage::Cleanup => 5,
        Stage::ResolveInputs
        | Stage::Fingerprint
        | Stage::AnalyzeEncoding
        | Stage::InspectAndPlan
        | Stage::DecodePreview => 10,
    }
}

/// The two coordinators hold the same tasks and have granted the same.
pub open spec fn alike(a: TaskCoordinator, b: TaskCoordinator) -> bool {
    a.tasks() == b.tasks() && a.broker() == b.broker() && a.positions() == b.positions()
}

/// The second coordinator is the first one after it has given a stage its turn.
pub open spec fn gave_turn(a: TaskCoordinator, b: TaskCoordinator, d: Dispatch) -> bool {
    &&& b.positions() == a.positions()
    &&& b.broker().limits() == a.broker().limits()
    &&& d.lease.wf()
    &&& d.lease.demand() == d.stage.resources@
    &&& d.lease.number() == a.broker().last_lease() + 1
    &&& b.broker().last_lease() == a.broker().last_lease() + 1
    &&& b.broker().in_use() == crate::resources::plus(a.broker().in_use(), d.stage.resources@)
    &&& b.broker().grants() == a.broker().grants().push(
        crate::resources::Grant { id: d.lease.number(), demand: d.stage.resources@ },
    )
    &&& exists|t: int, q: int|
        {
            &&& #[trigger] crate::coordinator::runnable(a.tasks(), a.broker(), t, q)
            &&& forall|x: int, y: int| #[trigger]
                crate::coordinator::runnable(a.tasks(), a.broker(), x, y)
                    ==> crate::coordinator::before(a.tasks(), t, q, x, y)
            &&& d.stage == crate::coordinator::head(a.tasks(), t, q)
            &&& crate::coordinator::served(a.tasks(), b.tasks(), t, q)
        }
}

/// The second coordinator is the first one after it has given these stages their turns, one
/// after the other.
pub open spec fn gave_turns(a: TaskCoordinator, b: TaskCoordinator, ds: Seq<Dispatch>) -> bool
    decreases ds.len(),
{
    if ds.len() == 0 {
        alike(a, b)
    } else {
        exists|mid: TaskCoordinator|
            gave_turns(a, mid, ds.drop_last()) && #[trigger] gave_turn(mid, b, ds.last())
    }
}

/// The stages that run, once these have begun: one that begins takes the place of one of the
/// same node.
pub open spec fn begun(active: Seq<Dispatch>, ds: Seq<Dispatch>) -> Seq<Dispatch>
    decreases ds.len(),
{
    if ds.len() == 0 {
        active
    } else {
        let d = ds.last();
        others(begun(active, ds.drop_last()), d.stage.task_id@, d.stage.node_id@).push(d)
    }
}

/// The stage is one of this node.
pub open spec fn is_of(d: Dispatch, task_id: Seq<char>, node_id: Seq<char>) -> bool {
    d.stage.task_id@ == task_id && d.stage.node_id@ == node_id
}

/// The stages that are not of this node.
pub open spec fn others(active: Seq<Dispatch>, task_id: Seq<char>, node_id: Seq<char>) -> Seq<
    Dispatch,
>
    decreases active.len(),
{
    if active.len() == 0 {
        Seq::empty()
    } else if is_of(active.last(), task_id, node_id) {
        others(active.drop_last(), task_id, node_id)
    } else {
        others(active.drop_last(), task_id, node_id).push(active.last())
    }
}

/// No two stages are of one node, and no two were granted under one number.
pub open spec fn apart(active: Seq<Dispatch>) -> bool {
    forall|i: int, j: int|
        0 <= i < j < active.len() ==> !is_of(
            #[trigger] active[j],
            (#[trigger] active[i]).stage.task_id@,
            active[i].stage.node_id@,
        ) && active[i].lease.number() != active[j].lease.number()
}

proof fn lemma_others_none(active: Seq<Dispatch>, task_id: Seq<char>, node_id: Seq<char>)
    requires
        forall|i: int| 0 <= i < active.len() ==> !is_of(#[trigger] active[i], task_id, node_id),
    ensures
        others(active, task_id, node_id) == active,
    decreases active.len(),
{
    if active.len() > 0 {
        assert forall|i: int| 0 <= i < active.drop_last().len() implies !is_of(
            #[trigger] active.drop_last()[i],
            task_id,
            node_id,
        ) by {
            assert(active.drop_last()[i] == active[i]);
        }
        lemma_others_none(active.drop_last(), task_id, node_id);
        assert(active =~= active.drop_last().push(active.last()));
    }
}

proof fn lemma_others_one(active: Seq<Dispatch>, task_id: Seq<char>, node_id: Seq<char>, k: int)
    requires
        apart(active),
        0 <= k < active.len(),
        is_of(active[k], task_id, node_id),
    ensures
        others(active, task_id, node_id) == active.remove(k),
    decreases active.len(),
{
    let rest = active.drop_last();
    if k == active.len() - 1 {
        assert forall|i: int| 0 <= i < rest.len() implies !is_of(
            #[trigger] rest[i],
            task_id,
            node_id,
        ) by {
            assert(rest[i] == active[i]);
            assert(!is_of(active[k], active[i].stage.task_id@, active[i].stage.node_id@));
        }
        lemma_others_none(rest, task_id, node_id);
        assert(active.remove(k) =~= rest);
    } else {
        assert forall|i: int, j: int| 0 <= i < j < rest.len() implies !is_of(
            #[trigger] rest[j],
            (#[trigger] rest[i]).stage.task_id@,
            rest[i].stage.node_id@,
        ) && rest[i].lease.number() != rest[j].lease.number() by {
            assert(rest[i] == active[i] && rest[j] == active[j]);
        }
        lemma_others_one(rest, task_id, node_id, k);
        assert(!is_of(
            active[active.len() - 1],
            active[k].stage.task_id@,
            active[k].stage.node_id@,
        ));
        assert(active.remove(k) =~= rest.remove(k).push(active.last()));
    }
}

proof fn lemma_others_from(active: Seq<Dispatch>, task_id: Seq<char>, node_id: Seq<char>)
    ensures
        forall|i: int|
            0 <= i < others(active, task_id, node_id).len() ==> !is_of(
                #[trigger] others(active, task_id, node_id)[i],
                task_id,
                node_id,
            ) && active.contains(others(active, task_id, node_id)[i]),
    decreases active.len(),
{
    if active.len() > 0 {
        let rest = active.drop_last();
        lemma_others_from(rest, task_id, node_id);
        let kept = others(active, task_id, node_id);
        assert forall|i: int| 0 <= i < kept.len() implies !is_of(
            #[trigger] kept[i],
            task_id,
            node_id,
        ) && active.contains(kept[i]) by {
            if i < others(rest, task_id, node_id).len() {
                assert(kept[i] == others(rest, task_id, node_id)[i]);
                let j = choose|j: int| 0 <= j < rest.len() && rest[j] == kept[i];
                assert(active[j] == kept[i]);
            } else {
                assert(active[active.len() - 1] == kept[i]);
            }
        }
    }
}

proof fn lemma_others_apart(active: Seq<Dispatch>, task_id: Seq<char>, node_id: Seq<char>)
    requires
        apart(active),
    ensures
        apart(others(active, task_id, node_id)),
    decreases active.len(),
{
    if active.len() > 0 {
        let rest = active.drop_last();
        assert(apart(rest)) by {
            assert forall|i: int, j: int| 0 <= i < j < rest.len() implies !is_of(
                #[trigger] rest[j],
                (#[trigger] rest[i]).stage.task_id@,
                rest[i].stage.node_id@,
            ) && rest[i].lease.number() != rest[j].lease.number() by {
                assert(rest[i] == active[i] && rest[j] == active[j]);
            }
        }
        lemma_others_apart(rest, task_id, node_id);
        lemma_others_from(rest, task_id, node_id);
        let part = others(rest, task_id, node_id);
        let kept = others(active, task_id, node_id);
        assert forall|i: int, j: int| 0 <= i < j < kept.len() implies !is_of(
            #[trigger] kept[j],
            (#[trigger] kept[i]).stage.task_id@,
            kept[i].stage.node_id@,
        ) && kept[i].lease.number() != kept[j].lease.number() by {
            assert(kept[i] == part[i]);
            if j < part.len() {
                assert(kept[j] == part[j]);
            } else {
                let k = choose|k: int| 0 <= k < rest.len() && rest[k] == part[i];
                assert(active[k] == part[i]);
                assert(kept[j] == active[active.len() - 1]);
            }
        }
    }
}

/// How many stages wait at the roots of a task.
pub open spec fn waiting_of(roots: Seq<crate::coordinator::RootQueue>) -> nat
    decreases roots.len(),
{
    if roots.len() == 0 {
        0
    } else {
        waiting_of(roots.drop_last()) + roots.last().waiting@.len()
    }
}

/// How many stages wait in all.
pub open spec fn waiting_in(tasks: Seq<crate::coordinator::ScheduledTask>) -> nat
    decreases tasks.len(),
{
    if tasks.len() == 0 {
        0
    } else {
        waiting_in(tasks.drop_last()) + waiting_of(tasks.last().roots@)
    }
}

proof fn lemma_waiting_remove(roots: Seq<crate::coordinator::RootQueue>, r: int)
    requires
        0 <= r < roots.len(),
    ensures
        waiting_of(roots) == waiting_of(roots.remove(r)) + roots[r].waiting@.len(),
    decreases roots.len(),
{
    if r == roots.len() - 1 {
        assert(roots.remove(r) =~= roots.drop_last());
    } else {
        lemma_waiting_remove(roots.drop_last(), r);
        assert(roots.remove(r).drop_last() =~= roots.drop_last().remove(r));
        assert(roots.remove(r).last() == roots.last());
    }
}

proof fn lemma_waiting_update(
    tasks: Seq<crate::coordinator::ScheduledTask>,
    after: Seq<crate::coordinator::ScheduledTask>,
    t: int,
)
    requires
        0 <= t < tasks.len(),
        after.len() == tasks.len(),
        forall|k: int| 0 <= k < tasks.len() && k != t ==> #[trigger] after[k] == tasks[k],
    ensures
        waiting_in(after) + waiting_of(tasks[t].roots@) == waiting_in(tasks) + waiting_of(
            after[t].roots@,
        ),
    decreases tasks.len(),
{
    if t == tasks.len() - 1 {
        assert(after.drop_last() =~= tasks.drop_last());
    } else {
        assert forall|k: int| 0 <= k < tasks.drop_last().len() && k != t implies #[trigger]
            after.drop_last()[k] == tasks.drop_last()[k] by {
            assert(after[k] == tasks[k]);
        }
        lemma_waiting_update(tasks.drop_last(), after.drop_last(), t);
        assert(after[tasks.len() - 1] == tasks[tasks.len() - 1]);
    }
}

proof fn lemma_turn_uses_one(
    tasks: Seq<crate::coordinator::ScheduledTask>,
    after: Seq<crate::coordinator::ScheduledTask>,
    t: int,
    q: int,
)
    requires
        0 <= t < tasks.len(),
        0 <= q < tasks[t].roots@.len(),
        tasks[t].roots@[q].waiting@.len() > 0,
        crate::coordinator::served(tasks, after, t, q),
    ensures
        waiting_in(after) + 1 == waiting_in(tasks),
{
    let roots = tasks[t].roots@;
    let new = after[t].roots@;
    lemma_waiting_remove(roots, q);
    lemma_waiting_update(tasks, after, t);
    let rest = roots[q].waiting@.drop_first();
    if rest.len() > 0 {
        assert(waiting_of(new) == waiting_of(new.drop_last()) + new.last().waiting@.len());
    }
}

/// The scheduler, the nodes that it serves, and the stages that run.
#[derive(Debug)]
pub struct RuntimeState {
    pub coordinator: TaskCoordinator,
    pub nodes: Vec<NodeResources>,
    pub active: Vec<Dispatch>,
}

/// The lease is one that was granted and not given back.
pub open spec fn is_held(c: TaskCoordinator, d: Dispatch) -> bool {
    &&& d.lease.wf()
    &&& exists|k: int|
        0 <= k < c.broker().grants().len() && (#[trigger] c.broker().grants()[k]).id
            == d.lease.number() && c.broker().grants()[k].demand == d.lease.demand()
}

impl RuntimeState {
    /// What runs holds what it was granted, each node runs one stage at most, and each node is
    /// known once.
    pub open spec fn wf(&self) -> bool {
        &&& self.coordinator.wf()
        &&& apart(self.active@)
        &&& forall|i: int|
            0 <= i < self.active@.len() ==> is_held(self.coordinator, #[trigger] self.active@[i])
        &&& forall|i: int, j: int|
            0 <= i < j < self.nodes@.len() ==> !is_node(
                #[trigger] self.nodes@[j],
                (#[trigger] self.nodes@[i]).task_id@,
                self.nodes@[i].node_id@,
            )
    }

    /// How many numbers of leases are used up once all stages that wait have had their turn.
    pub open spec fn lease_need(&self) -> int {
        self.coordinator.broker().last_lease() + waiting_in(self.coordinator.tasks())
    }

    /// The numbers of the leases last for all stages that wait, and so many more.
    pub open spec fn has_leases(&self, more: nat) -> bool {
        self.lease_need() + more < u64::MAX
    }

    /// Whether the numbers of the leases last for all stages that wait, and so many more.
    pub fn leases_last(&self, more: u64) -> (r: bool)
        ensures
            r == self.has_leases(more as nat),
    {
        let ghost tasks = self.coordinator.tasks();
        let ghost used = self.coordinator.broker().last_lease() as int;
        let count: usize = self.coordinator.task_count();
        let mut need: u64 = self.coordinator.leases();
        let mut i: usize = 0;
        assert(tasks.take(0).len() == 0);
        while i < count
            invariant
                i <= count,
                count == tasks.len(),
                tasks == self.coordinator.tasks(),
                need == crate::coordinator::capped(used + waiting_in(tasks.take(i as int))),
                used >= 0,
            decreases count - i,
        {
            let task = self.coordinator.task(i);
            let ghost before = used + waiting_in(tasks.take(i as int));
            let mut k: usize = 0;
            assert(task.roots@.take(0).len() == 0);
            while k < task.roots.len()
                invariant
                    k <= task.roots@.len(),
                    need == crate::coordinator::capped(
                        before + waiting_of(task.roots@.take(k as int)),
                    ),
                    before >= 0,
                decreases task.roots.len() - k,
            {
                assert(task.roots@.take(k + 1).drop_last() =~= task.roots@.take(k as int));
                assert(task.roots@.take(k + 1).last() == task.roots@[k as int]);
                need = need.saturating_add(task.roots[k].waiting.len() as u64);
                k += 1;
            }
            assert(task.roots@.take(k as int) =~= task.roots@);
            assert(tasks.take(i + 1).drop_last() =~= tasks.take(i as int));
            assert(tasks.take(i + 1).last() == tasks[i as int]);
            i += 1;
        }
        assert(tasks.take(i as int) =~= tasks);
        need.saturating_add(more) < u64::MAX
    }

    /// The stages that can run have begun: their turns were given one after the other, until
    /// none was left that could run.
    pub open spec fn driven(
        c: TaskCoordinator,
        active: Seq<Dispatch>,
        new: RuntimeState,
        ds: Seq<Dispatch>,
    ) -> bool {
        &&& gave_turns(c, new.coordinator, ds)
        &&& new.active@ == begun(active, ds)
        &&& forall|x: int, y: int| !#[trigger]
            crate::coordinator::runnable(
                new.coordinator.tasks(),
                new.coordinator.broker(),
                x,
                y,
            )
    }

    fn find_active(&self, task_id: &str, node_id: &str) -> (r: Option<usize>)
        ensures
            match r {
                Some(k) => k < self.active@.len() && is_of(
                    self.active@[k as int],
                    task_id@,
                    node_id@,
                ),
                None => forall|k: int|
                    0 <= k < self.active@.len() ==> !is_of(
                        #[trigger] self.active@[k],
                        task_id@,
                        node_id@,
                    ),
            },
    {
        let mut i: usize = 0;
        while i < self.active.len()
            invariant
                i <= self.active@.len(),
                forall|k: int|
                    0 <= k < i ==> !is_of(#[trigger] self.active@[k], task_id@, node_id@),
            decreases self.active.len() - i,
        {
            let stage = &self.active[i].stage;
            if same_text(stage.task_id.as_str(), task_id) && same_text(
                stage.node_id.as_str(),
                node_id,
            ) {
                return Some(i);
            }
            i += 1;
        }
        None
    }

    fn begin(&mut self, d: Dispatch, before: Ghost<TaskCoordinator>)
        requires
            old(self).coordinator.wf(),
            apart(old(self).active@),
            before@.wf(),
            forall|i: int|
                0 <= i < old(self).active@.len() ==> is_held(
                    before@,
                    #[trigger] old(self).active@[i],
                ),
            gave_turn(before@, old(self).coordinator, d),
        ensures
            final(self).coordinator == old(self).coordinator,
            final(self).nodes == old(self).nodes,
            final(self).active@ == others(
                old(self).active@,
                d.stage.task_id@,
                d.stage.node_id@,
            ).push(d),
            apart(final(self).active@),
            forall|i: int|
                0 <= i < final(self).active@.len() ==> is_held(
                    final(self).coordinator,
                    #[trigger] final(self).active@[i],
                ),
    {
        let ghost was = self.active@;
        let ghost name = d.stage.task_id@;
        let ghost node = d.stage.node_id@;
        match self.find_active(d.stage.task_id.as_str(), d.stage.node_id.as_str()) {
            Some(k) => {
                proof {
                    lemma_others_one(was, name, node, k as int);
                }
                let _ = self.active.remove(k);
            },
            None => {
                proof {
                    lemma_others_none(was, name, node);
                }
            },
        }
        assert(self.active@ == others(was, name, node));
        self.active.push(d);
        proof {
            lemma_begun_held(was, before@, self.coordinator, d);
        }
    }

    /// Lets every stage begin that can run, and says whether there was one.
    pub fn drive(&mut self) -> (r: bool)
        requires
            old(self).wf(),
            old(self).has_leases(0),
        ensures
            final(self).wf(),
            final(self).nodes == old(self).nodes,
            exists|ds: Seq<Dispatch>| #[trigger]
                RuntimeState::driven(old(self).coordinator, old(self).active@, *final(self), ds)
                    && r == (ds.len() > 0),
            final(self).lease_need() == old(self).lease_need(),
    {
        let ghost start = self.coordinator;
        let ghost running = self.active@;
        let ghost mut ds: Seq<Dispatch> = Seq::empty();
        let mut any = false;
        loop
            invariant
                self.wf(),
                self.has_leases(0),
                self.lease_need() == old(self).lease_need(),
                self.nodes == old(self).nodes,
                start == old(self).coordinator,
                running == old(self).active@,
                gave_turns(start, self.coordinator, ds),
                self.active@ == begun(running, ds),
                any == (ds.len() > 0),
            ensures
                RuntimeState::driven(start, running, *self, ds),
            decreases waiting_in(self.coordinator.tasks()),
        {
            let ghost mid = self.coordinator;
            match self.coordinator.dispatch_next() {
                None => {
                    proof {
                        lemma_alike_turns(start, mid, self.coordinator, ds);
                    }
                    break ;
                },
                Some(d) => {
                    proof {
                        crate::coordinator::tasks_are_in_order(mid);
                        let (t, q) = choose|t: int, q: int|
                            {
                                &&& #[trigger] crate::coordinator::runnable(
                                    mid.tasks(),
                                    mid.broker(),
                                    t,
                                    q,
                                )
                                &&& forall|x: int, y: int| #[trigger]
                                    crate::coordinator::runnable(
                                        mid.tasks(),
                                        mid.broker(),
                                        x,
                                        y,
                                    ) ==> crate::coordinator::before(mid.tasks(), t, q, x, y)
                                &&& d.stage == crate::coordinator::head(mid.tasks(), t, q)
                                &&& crate::coordinator::served(
                                    mid.tasks(),
                                    self.coordinator.tasks(),
                                    t,
                                    q,
                                )
                            };
                        assert(mid.tasks()[t].wf());
                        assert(mid.tasks()[t].roots@[q].wf());
                        lemma_turn_uses_one(mid.tasks(), self.coordinator.tasks(), t, q);
                        assert(gave_turn(mid, self.coordinator, d));
                        let more = ds.push(d);
                        assert(more.drop_last() =~= ds);
                        lemma_turn_added(start, mid, self.coordinator, ds, d);
                        assert(begun(running, more) == others(
                            begun(running, ds),
                            d.stage.task_id@,
                            d.stage.node_id@,
                        ).push(d));
                        ds = more;
                    }
                    any = true;
                    self.begin(d, Ghost(mid));
                },
            }
        }
        any
    }
}

proof fn lemma_begun_held(
    was: Seq<Dispatch>,
    before: TaskCoordinator,
    after: TaskCoordinator,
    d: Dispatch,
)
    requires
        before.wf(),
        apart(was),
        forall|i: int| 0 <= i < was.len() ==> is_held(before, #[trigger] was[i]),
        gave_turn(before, after, d),
    ensures
        apart(others(was, d.stage.task_id@, d.stage.node_id@).push(d)),
        forall|i: int|
            0 <= i < others(was, d.stage.task_id@, d.stage.node_id@).push(d).len() ==> is_held(
                after,
                #[trigger] others(was, d.stage.task_id@, d.stage.node_id@).push(d)[i],
            ),
{
    let name = d.stage.task_id@;
    let node = d.stage.node_id@;
    let rest = others(was, name, node);
    let new = rest.push(d);
    let g0 = before.broker().grants();
    let g1 = after.broker().grants();
    lemma_others_from(was, name, node);
    lemma_others_apart(was, name, node);
    crate::coordinator::tasks_are_in_order(before);
    crate::resources::use_is_the_sum_of_grants(before.broker());
    assert forall|i: int| 0 <= i < rest.len() implies is_held(after, #[trigger] rest[i])
        && rest[i].lease.number() != d.lease.number() by {
        let j = choose|j: int| 0 <= j < was.len() && was[j] == rest[i];
        assert(is_held(before, was[j]));
        let k = choose|k: int|
            0 <= k < g0.len() && (#[trigger] g0[k]).id == was[j].lease.number() && g0[k].demand
                == was[j].lease.demand();
        assert(g1[k] == g0[k]);
    }
    assert(g1[g0.len() as int].id == d.lease.number());
    assert forall|i: int| 0 <= i < new.len() implies is_held(after, #[trigger] new[i]) by {
        if i < rest.len() {
            assert(new[i] == rest[i]);
        }
    }
    assert forall|i: int, j: int| 0 <= i < j < new.len() implies !is_of(
        #[trigger] new[j],
        (#[trigger] new[i]).stage.task_id@,
        new[i].stage.node_id@,
    ) && new[i].lease.number() != new[j].lease.number() by {
        assert(new[i] == rest[i]);
        if j < rest.len() {
            assert(new[j] == rest[j]);
        } else {
            assert(!is_of(rest[i], name, node));
        }
    }
}

proof fn lemma_turn_added(
    a: TaskCoordinator,
    b: TaskCoordinator,
    c: TaskCoordinator,
    ds: Seq<Dispatch>,
    d: Dispatch,
)
    requires
        gave_turns(a, b, ds),
        gave_turn(b, c, d),
    ensures
        gave_turns(a, c, ds.push(d)),
{
    let more = ds.push(d);
    assert(more.drop_last() =~= ds);
    assert(gave_turn(b, c, more.last()));
}

proof fn lemma_alike_turns(a: TaskCoordinator, b: TaskCoordinator, c: TaskCoordinator, ds: Seq<Dispatch>)
    requires
        gave_turns(a, b, ds),
        alike(b, c),
    ensures
        gave_turns(a, c, ds),
{
    if ds.len() > 0 {
        let mid = choose|mid: TaskCoordinator|
            gave_turns(a, mid, ds.drop_last()) && #[trigger] gave_turn(mid, b, ds.last());
        assert(gave_turn(mid, c, ds.last()));
        assert(gave_turns(a, mid, ds.drop_last()));
    }
}

/// The node has this name.
pub open spec fn is_node(n: NodeResources, task_id: Seq<char>, node_id: Seq<char>) -> bool {
    n.task_id@ == task_id && n.node_id@ == node_id
}

proof fn lemma_same_roots(
    a: Seq<crate::coordinator::ScheduledTask>,
    b: Seq<crate::coordinator::ScheduledTask>,
)
    requires
        a.len() == b.len(),
        forall|i: int| 0 <= i < a.len() ==> (#[trigger] b[i]).roots == a[i].roots,
    ensures
        waiting_in(b) == waiting_in(a),
    decreases a.len(),
{
    if a.len() > 0 {
        assert forall|i: int| 0 <= i < a.drop_last().len() implies (
        #[trigger] b.drop_last()[i]).roots == a.drop_last()[i].roots by {
            assert(b[i].roots == a[i].roots);
        }
        lemma_same_roots(a.drop_last(), b.drop_last());
        assert(b[a.len() - 1].roots == a[a.len() - 1].roots);
    }
}

proof fn lemma_with_stage(
    a: Seq<crate::coordinator::RootQueue>,
    b: Seq<crate::coordinator::RootQueue>,
    stage: StageRun,
)
    requires
        crate::coordinator::with_stage(a, b, stage),
    ensures
        waiting_of(b) == waiting_of(a) + 1,
{
    if exists|i: int|
        {
            &&& 0 <= i < a.len()
            &&& (#[trigger] a[i]).root_id@ == stage.root_id@
            &&& b.len() == a.len()
            &&& b[i].root_id == a[i].root_id
            &&& b[i].waiting@ == a[i].waiting@.push(stage)
            &&& forall|k: int| 0 <= k < a.len() && k != i ==> #[trigger] b[k] == a[k]
        } {
        let i = choose|i: int|
            {
                &&& 0 <= i < a.len()
                &&& (#[trigger] a[i]).root_id@ == stage.root_id@
                &&& b.len() == a.len()
                &&& b[i].root_id == a[i].root_id
                &&& b[i].waiting@ == a[i].waiting@.push(stage)
                &&& forall|k: int| 0 <= k < a.len() && k != i ==> #[trigger] b[k] == a[k]
            };
        lemma_waiting_remove(a, i);
        lemma_waiting_remove(b, i);
        assert(a.remove(i) =~= b.remove(i));
    } else {
        assert(b.last().waiting@.len() == 1);
    }
}

/// How many stages wait, of what waits at each root.
spec fn sum_waiting(at: Seq<(String, Seq<StageRun>)>) -> nat
    decreases at.len(),
{
    if at.len() == 0 {
        0
    } else {
        sum_waiting(at.drop_last()) + at.last().1.len()
    }
}

proof fn lemma_sum_waiting(roots: Seq<crate::coordinator::RootQueue>)
    ensures
        sum_waiting(crate::coordinator::waiting_at(roots)) == waiting_of(roots),
    decreases roots.len(),
{
    let at = crate::coordinator::waiting_at(roots);
    if roots.len() > 0 {
        lemma_sum_waiting(roots.drop_last());
        assert(at.drop_last() =~= crate::coordinator::waiting_at(roots.drop_last()));
    }
}

proof fn lemma_without_attempt(
    s: Seq<StageRun>,
    node_id: Seq<char>,
    generation: u64,
    attempt_id: Seq<char>,
)
    ensures
        crate::coordinator::without_attempt(s, node_id, generation, attempt_id).len() <= s.len(),
    decreases s.len(),
{
    if s.len() > 0 {
        lemma_without_attempt(s.drop_last(), node_id, generation, attempt_id);
    }
}

proof fn lemma_pruned(
    roots: Seq<crate::coordinator::RootQueue>,
    node_id: Seq<char>,
    generation: u64,
    attempt_id: Seq<char>,
)
    ensures
        sum_waiting(crate::coordinator::pruned(roots, node_id, generation, attempt_id))
            <= waiting_of(roots),
    decreases roots.len(),
{
    if roots.len() > 0 {
        let rest = crate::coordinator::pruned(roots.drop_last(), node_id, generation, attempt_id);
        let left = crate::coordinator::without_attempt(
            roots.last().waiting@,
            node_id,
            generation,
            attempt_id,
        );
        lemma_pruned(roots.drop_last(), node_id, generation, attempt_id);
        lemma_without_attempt(roots.last().waiting@, node_id, generation, attempt_id);
        if left.len() > 0 {
            let all = rest.push((roots.last().root_id, left));
            assert(all.drop_last() =~= rest);
        }
    }
}

/// The second coordinator is the first one with one more stage that waits.
pub open spec fn queued_stage(a: TaskCoordinator, b: TaskCoordinator, run: StageRun) -> bool {
    &&& b.broker() == a.broker()
    &&& b.positions() == a.positions()
    &&& !a.is_unknown(run.task_id@)
    &&& b.tasks().len() == a.tasks().len()
    &&& forall|i: int|
        0 <= i < a.tasks().len() ==> if a.is_at(i, run.task_id@) {
            &&& (#[trigger] b.tasks()[i]).same_settings(&a.tasks()[i])
            &&& crate::coordinator::with_stage(a.tasks()[i].roots@, b.tasks()[i].roots@, run)
        } else {
            b.tasks()[i] == a.tasks()[i]
        }
}

proof fn lemma_queued_waiting(a: TaskCoordinator, b: TaskCoordinator, run: StageRun)
    requires
        a.wf(),
        queued_stage(a, b, run),
    ensures
        waiting_in(b.tasks()) == waiting_in(a.tasks()) + 1,
{
    crate::coordinator::tasks_are_in_order(a);
    let i = choose|i: int|
        0 <= i < a.tasks().len() && (#[trigger] a.tasks()[i]).task_id@ == run.task_id@;
    assert(a.is_at(i, run.task_id@));
    assert(b.tasks()[i].same_settings(&a.tasks()[i]));
    assert forall|k: int| 0 <= k < a.tasks().len() && k != i implies #[trigger] b.tasks()[k]
        == a.tasks()[k] by {
        let x = vstd::utf8::encode_utf8(run.task_id@);
        crate::text::lemma_before_total(x, x);
        if a.is_at(k, run.task_id@) {
            if k < i {
                assert(crate::text::text_before(a.tasks()[k].task_id@, a.tasks()[i].task_id@));
            } else {
                assert(crate::text::text_before(a.tasks()[i].task_id@, a.tasks()[k].task_id@));
            }
        }
    }
    lemma_with_stage(a.tasks()[i].roots@, b.tasks()[i].roots@, run);
    lemma_waiting_update(a.tasks(), b.tasks(), i);
}

/// The second coordinator is the first one after it has taken back what a stage was granted.
pub open spec fn took_back(a: TaskCoordinator, b: TaskCoordinator, d: Dispatch, cost: u64) -> bool {
    &&& b.positions() == a.positions()
    &&& b.broker().limits() == a.broker().limits()
    &&& b.broker().last_lease() == a.broker().last_lease()
    &&& b.broker().in_use() == crate::resources::minus(a.broker().in_use(), d.lease.demand())
    &&& exists|k: int|
        {
            &&& 0 <= k < a.broker().grants().len()
            &&& (#[trigger] a.broker().grants()[k]).id == d.lease.number()
            &&& b.broker().grants() == a.broker().grants().remove(k)
        }
    &&& b.tasks().len() == a.tasks().len()
    &&& forall|i: int|
        0 <= i < a.tasks().len() ==> #[trigger] b.tasks()[i] == (if a.is_at(i, d.stage.task_id@) {
            crate::coordinator::ScheduledTask {
                service: crate::coordinator::settled(
                    a.tasks()[i].service,
                    d.stage.estimated_cost,
                    cost,
                ) as u64,
                ..a.tasks()[i]
            }
        } else {
            a.tasks()[i]
        })
}

impl RuntimeState {
    /// The stage at `k` gives back what it was granted.
    fn end_active(&mut self, k: usize, cost: u64)
        requires
            old(self).wf(),
            k < old(self).active@.len(),
        ensures
            final(self).wf(),
            final(self).nodes == old(self).nodes,
            final(self).active@ == old(self).active@.remove(k as int),
            took_back(
                old(self).coordinator,
                final(self).coordinator,
                old(self).active@[k as int],
                cost,
            ),
            waiting_in(final(self).coordinator.tasks()) == waiting_in(
                old(self).coordinator.tasks(),
            ),
    {
        let ghost was = *self;
        let ghost d = self.active@[k as int];
        let ghost g0 = self.coordinator.broker().grants();
        proof {
            assert(is_held(was.coordinator, was.active@[k as int]));
            crate::coordinator::tasks_are_in_order(was.coordinator);
            crate::resources::use_is_the_sum_of_grants(was.coordinator.broker());
        }
        let ghost at = choose|at: int|
            0 <= at < g0.len() && (#[trigger] g0[at]).id == d.lease.number() && g0[at].demand
                == d.lease.demand();
        let dispatch = self.active.remove(k);
        self.coordinator.complete(dispatch, cost);
        proof {
            let g1 = self.coordinator.broker().grants();
            assert(g0[at].id == d.lease.number());
            assert(g1 == g0.remove(at));
            assert forall|i: int| 0 <= i < self.active@.len() implies is_held(
                self.coordinator,
                #[trigger] self.active@[i],
            ) by {
                let j = if i < k { i } else { i + 1 };
                assert(self.active@[i] == was.active@[j]);
                assert(is_held(was.coordinator, was.active@[j]));
                let b = choose|b: int|
                    0 <= b < g0.len() && (#[trigger] g0[b]).id == was.active@[j].lease.number()
                        && g0[b].demand == was.active@[j].lease.demand();
                if j < k {
                    assert(was.active@[j].lease.number() != was.active@[k as int].lease.number());
                } else {
                    assert(was.active@[k as int].lease.number() != was.active@[j].lease.number());
                }
                if b < at {
                    assert(g1[b] == g0[b]);
                } else {
                    assert(g1[b - 1] == g0[b]);
                }
            }
            assert forall|i: int, j: int| 0 <= i < j < self.active@.len() implies !is_of(
                #[trigger] self.active@[j],
                (#[trigger] self.active@[i]).stage.task_id@,
                self.active@[i].stage.node_id@,
            ) && self.active@[i].lease.number() != self.active@[j].lease.number() by {
                let a = if i < k { i } else { i + 1 };
                let b = if j < k { j } else { j + 1 };
                assert(self.active@[i] == was.active@[a] && self.active@[j] == was.active@[b]);
            }
            lemma_same_roots(was.coordinator.tasks(), self.coordinator.tasks());
        }
    }

    /// A stage of this node runs.
    pub open spec fn is_active(&self, task_id: Seq<char>, node_id: Seq<char>) -> bool {
        exists|k: int|
            0 <= k < self.active@.len() && is_of(#[trigger] self.active@[k], task_id, node_id)
    }

    /// The scheduler, once the node's stage has ended: what it was granted is taken back, and
    /// its task is charged what it cost, at least one.
    pub open spec fn ended(&self, mid: TaskCoordinator, task_id: Seq<char>, node_id: Seq<char>, cost: u64) -> bool {
        if self.is_active(task_id, node_id) {
            exists|k: int|
                0 <= k < self.active@.len() && is_of(#[trigger] self.active@[k], task_id, node_id)
                    && took_back(
                    self.coordinator,
                    mid,
                    self.active@[k],
                    if cost > 1 {
                        cost
                    } else {
                        1
                    },
                )
        } else {
            alike(self.coordinator, mid)
        }
    }

    /// Ends the stage of a node, if one runs, and lets the next ones begin.
    pub fn release_node(&mut self, task_id: &str, node_id: &str, elapsed: u64) -> (r: bool)
        requires
            old(self).wf(),
            old(self).has_leases(0),
        ensures
            final(self).wf(),
            final(self).lease_need() == old(self).lease_need(),
            final(self).nodes == old(self).nodes,
            exists|mid: TaskCoordinator, ds: Seq<Dispatch>|
                {
                    &&& old(self).ended(mid, task_id@, node_id@, elapsed)
                    &&& #[trigger] RuntimeState::driven(
                        mid,
                        others(old(self).active@, task_id@, node_id@),
                        *final(self),
                        ds,
                    )
                    &&& r == (ds.len() > 0)
                },
    {
        let ghost was = *self;
        let cost: u64 = if elapsed > 1 {
            elapsed
        } else {
            1
        };
        match self.find_active(task_id, node_id) {
            Some(k) => {
                proof {
                    lemma_others_one(was.active@, task_id@, node_id@, k as int);
                    assert(is_of(was.active@[k as int], task_id@, node_id@));
                }
                self.end_active(k, cost);
            },
            None => {
                proof {
                    lemma_others_none(was.active@, task_id@, node_id@);
                }
            },
        }
        let ghost mid = *self;
        assert(was.ended(mid.coordinator, task_id@, node_id@, elapsed));
        self.drive()
    }
}

/// What came of asking for a turn.
#[derive(Clone, Copy, Debug, PartialEq, Eq, Structural)]
pub enum Admission {
    /// The node is not known, because its task was released.
    Cancelled,
    /// The task is not known to the scheduler.
    UnknownTask,
    /// The stage runs.
    Admitted,
    /// The stage waits.
    Waiting,
}

/// This is the stage that a node asks for.
pub open spec fn is_run(
    run: StageRun,
    node: NodeResources,
    generation: u64,
    stage: Stage,
    attempt_id: Seq<char>,
) -> bool {
    &&& run.task_id@ == node.task_id@
    &&& run.node_id@ == node.node_id@
    &&& run.root_id@ == node.root_id@
    &&& run.stage == stage
    &&& run.generation == generation
    &&& run.attempt_id@ == attempt_id
    &&& run.resources@ == demand_of(stage, node)
    &&& run.estimated_cost == expected_cost(stage)
}

/// How many units there are of the devices that a node works on: one of each.
pub open spec fn with_domains(
    limits: crate::resources::Demand,
    node: NodeResources,
) -> crate::resources::Demand {
    crate::resources::Demand {
        io_domains: limits.io_domains.insert(node.source_io_domain@, 1u32).insert(
            node.target_io_domain@,
            1u32,
        ),
        ..limits
    }
}

impl RuntimeState {
    pub fn new(capacity: ResourceCapacity) -> (r: RuntimeState)
        requires
            capacity.wf(),
        ensures
            r.wf(),
            r.nodes@.len() == 0,
            r.active@.len() == 0,
            r.coordinator.tasks().len() == 0,
            r.coordinator.positions() == 0,
            r.coordinator.broker().limits() == capacity@,
            r.coordinator.broker().grants().len() == 0,
            r.coordinator.broker().in_use() == crate::resources::no_demand(),
            r.lease_need() == 0,
    {
        RuntimeState {
            coordinator: TaskCoordinator::new(capacity),
            nodes: Vec::new(),
            active: Vec::new(),
        }
    }

    /// The node at `k` has this name.
    pub open spec fn knows_at(&self, k: int, task_id: Seq<char>, node_id: Seq<char>) -> bool {
        0 <= k < self.nodes@.len() && is_node(self.nodes@[k], task_id, node_id)
    }

    /// Where a node is.
    pub fn find_node(&self, task_id: &str, node_id: &str) -> (r: Option<usize>)
        ensures
            match r {
                Some(k) => self.knows_at(k as int, task_id@, node_id@),
                None => forall|k: int| !#[trigger] self.knows_at(k, task_id@, node_id@),
            },
    {
        let mut i: usize = 0;
        while i < self.nodes.len()
            invariant
                i <= self.nodes@.len(),
                forall|k: int| k < i ==> !#[trigger] self.knows_at(k, task_id@, node_id@),
            decreases self.nodes.len() - i,
        {
            let node = &self.nodes[i];
            if same_text(node.task_id.as_str(), task_id) && same_text(
                node.node_id.as_str(),
                node_id,
            ) {
                return Some(i);
            }
            i += 1;
        }
        None
    }

    /// Makes a node known, in place of one with the same name.
    pub fn register(&mut self, node: NodeResources)
        requires
            old(self).wf(),
        ensures
            final(self).wf(),
            final(self).active == old(self).active,
            final(self).coordinator.tasks() == old(self).coordinator.tasks(),
            final(self).coordinator.positions() == old(self).coordinator.positions(),
            final(self).coordinator.broker().grants() == old(self).coordinator.broker().grants(),
            final(self).coordinator.broker().in_use() == old(self).coordinator.broker().in_use(),
            final(self).coordinator.broker().limits() == with_domains(
                old(self).coordinator.broker().limits(),
                node,
            ),
            final(self).coordinator.broker().last_lease()
                == old(self).coordinator.broker().last_lease(),
            final(self).lease_need() == old(self).lease_need(),
            forall|k: int| #[trigger]
                old(self).knows_at(k, node.task_id@, node.node_id@) ==> final(self).nodes@
                    == old(self).nodes@.update(k, node),
            (forall|k: int| !#[trigger] old(self).knows_at(k, node.task_id@, node.node_id@))
                ==> final(self).nodes@ == old(self).nodes@.push(node),
    {
        let ghost was = *self;
        self.coordinator.set_io_domain_capacity(node.source_io_domain.clone(), 1);
        self.coordinator.set_io_domain_capacity(node.target_io_domain.clone(), 1);
        proof {
            assert forall|i: int| 0 <= i < self.active@.len() implies is_held(
                self.coordinator,
                #[trigger] self.active@[i],
            ) by {
                assert(is_held(was.coordinator, was.active@[i]));
            }
        }
        match self.find_node(node.task_id.as_str(), node.node_id.as_str()) {
            Some(k) => {
                proof {
                    assert forall|j: int| #[trigger]
                        was.knows_at(j, node.task_id@, node.node_id@) implies j == k by {
                        assert(self.knows_at(k as int, node.task_id@, node.node_id@));
                        if j < k {
                            assert(!is_node(
                                was.nodes@[k as int],
                                was.nodes@[j].task_id@,
                                was.nodes@[j].node_id@,
                            ));
                        } else if k < j {
                            assert(!is_node(
                                was.nodes@[j],
                                was.nodes@[k as int].task_id@,
                                was.nodes@[k as int].node_id@,
                            ));
                        }
                    }
                    assert(was.knows_at(k as int, node.task_id@, node.node_id@));
                }
                self.nodes.set(k, node);
            },
            None => {
                proof {
                    assert forall|k: int| !#[trigger]
                        was.knows_at(k, node.task_id@, node.node_id@) by {
                        assert(!self.knows_at(k, node.task_id@, node.node_id@));
                    }
                }
                self.nodes.push(node);
                proof {
                    assert forall|i: int, j: int| 0 <= i < j < self.nodes@.len() implies !is_node(
                        #[trigger] self.nodes@[j],
                        (#[trigger] self.nodes@[i]).task_id@,
                        self.nodes@[i].node_id@,
                    ) by {
                        if j == was.nodes@.len() {
                            assert(!was.knows_at(i, node.task_id@, node.node_id@));
                        }
                    }
                }
            },
        }
    }

    /// The scheduler after it has been asked for the stage, where it had not been asked before.
    pub open spec fn asked(
        a: TaskCoordinator,
        mid: TaskCoordinator,
        node: NodeResources,
        generation: u64,
        stage: Stage,
        attempt_id: Seq<char>,
        enqueued: bool,
    ) -> bool {
        if enqueued {
            alike(a, mid)
        } else {
            exists|run: StageRun| #[trigger]
                queued_stage(a, mid, run) && is_run(run, node, generation, stage, attempt_id)
        }
    }

    /// Asks for a turn for a stage of a node: once for its place in the queue, and as often as
    /// something has changed whether the stage runs by now.
    pub fn ask_for_turn(
        &mut self,
        task_id: &str,
        node_id: &str,
        generation: u64,
        stage: Stage,
        attempt_id: &str,
        enqueued: bool,
    ) -> (r: (Admission, bool))
        requires
            old(self).wf(),
            old(self).has_leases(1),
        ensures
            final(self).wf(),
            final(self).lease_need() <= old(self).lease_need() + if enqueued {
                0int
            } else {
                1int
            },
            final(self).nodes == old(self).nodes,
            match r.0 {
                Admission::Cancelled => {
                    &&& forall|k: int| !#[trigger] old(self).knows_at(k, task_id@, node_id@)
                    &&& *final(self) == *old(self)
                    &&& !r.1
                },
                Admission::UnknownTask => {
                    &&& !enqueued
                    &&& exists|k: int| #[trigger] old(self).knows_at(k, task_id@, node_id@)
                    &&& !old(self).is_active(task_id@, node_id@)
                    &&& old(self).coordinator.is_unknown(task_id@)
                    &&& alike(old(self).coordinator, final(self).coordinator)
                    &&& final(self).active == old(self).active
                    &&& !r.1
                },
                _ => {
                    &&& (r.0 == Admission::Admitted) == final(self).is_active(task_id@, node_id@)
                    &&& exists|k: int| #[trigger] old(self).knows_at(k, task_id@, node_id@)
                    &&& old(self).is_active(task_id@, node_id@) ==> *final(self) == *old(self)
                        && !r.1
                    &&& !old(self).is_active(task_id@, node_id@) ==> exists|
                        k: int,
                        mid: TaskCoordinator,
                        ds: Seq<Dispatch>,
                    |
                        {
                            &&& #[trigger] old(self).knows_at(k, task_id@, node_id@)
                            &&& RuntimeState::asked(
                                old(self).coordinator,
                                mid,
                                old(self).nodes@[k],
                                generation,
                                stage,
                                attempt_id@,
                                enqueued,
                            )
                            &&& #[trigger] RuntimeState::driven(
                                mid,
                                old(self).active@,
                                *final(self),
                                ds,
                            )
                            &&& r.1 == (ds.len() > 0)
                        }
                },
            },
    {
        let ghost was = *self;
        let k: usize = match self.find_node(task_id, node_id) {
            Some(k) => k,
            None => {
                return (Admission::Cancelled, false);
            },
        };
        assert(was.knows_at(k as int, task_id@, node_id@));
        if let Some(a) = self.find_active(task_id, node_id) {
            assert(is_of(was.active@[a as int], task_id@, node_id@));
            return (Admission::Admitted, false);
        }
        if !enqueued {
            let node = &self.nodes[k];
            let run = StageRun {
                task_id: task_id.to_owned(),
                node_id: node_id.to_owned(),
                root_id: node.root_id.clone(),
                stage,
                generation,
                attempt_id: attempt_id.to_owned(),
                resources: resources_for(stage, node),
                estimated_cost: estimated_cost(stage),
            };
            let ghost asked_for = run;
            if !self.coordinator.enqueue(run) {
                proof {
                    assert forall|i: int| 0 <= i < self.active@.len() implies is_held(
                        self.coordinator,
                        #[trigger] self.active@[i],
                    ) by {
                        assert(is_held(was.coordinator, was.active@[i]));
                    }
                }
                return (Admission::UnknownTask, false);
            }
            proof {
                assert(queued_stage(was.coordinator, self.coordinator, asked_for));
                lemma_queued_waiting(was.coordinator, self.coordinator, asked_for);
                assert forall|i: int| 0 <= i < self.active@.len() implies is_held(
                    self.coordinator,
                    #[trigger] self.active@[i],
                ) by {
                    assert(is_held(was.coordinator, was.active@[i]));
                }
            }
        }
        let ghost mid = *self;
        assert(RuntimeState::asked(
            was.coordinator,
            mid.coordinator,
            was.nodes@[k as int],
            generation,
            stage,
            attempt_id@,
            enqueued,
        ));
        let dispatched = self.drive();
        match self.find_active(task_id, node_id) {
            Some(a) => {
                assert(is_of(self.active@[a as int], task_id@, node_id@));
                (Admission::Admitted, dispatched)
            },
            None => (Admission::Waiting, dispatched),
        }
    }
}

/// The second coordinator is the first one without the stages of this attempt that wait.
pub open spec fn withdrew(
    a: TaskCoordinator,
    b: TaskCoordinator,
    task_id: Seq<char>,
    node_id: Seq<char>,
    generation: u64,
    attempt_id: Seq<char>,
) -> bool {
    &&& b.broker() == a.broker()
    &&& b.positions() == a.positions()
    &&& b.tasks().len() == a.tasks().len()
    &&& forall|i: int|
        0 <= i < a.tasks().len() ==> if a.is_at(i, task_id) {
            &&& (#[trigger] b.tasks()[i]).same_settings(&a.tasks()[i])
            &&& crate::coordinator::waiting_at(b.tasks()[i].roots@) == crate::coordinator::pruned(
                a.tasks()[i].roots@,
                node_id,
                generation,
                attempt_id,
            )
        } else {
            b.tasks()[i] == a.tasks()[i]
        }
}

pub proof fn lemma_fewer_waiting(
    a: Seq<crate::coordinator::ScheduledTask>,
    b: Seq<crate::coordinator::ScheduledTask>,
)
    requires
        a.len() == b.len(),
        forall|i: int|
            0 <= i < a.len() ==> waiting_of((#[trigger] b[i]).roots@) <= waiting_of(a[i].roots@),
    ensures
        waiting_in(b) <= waiting_in(a),
    decreases a.len(),
{
    if a.len() > 0 {
        assert forall|i: int| 0 <= i < a.drop_last().len() implies waiting_of(
            (#[trigger] b.drop_last()[i]).roots@,
        ) <= waiting_of(a.drop_last()[i].roots@) by {
            assert(waiting_of(b[i].roots@) <= waiting_of(a[i].roots@));
        }
        lemma_fewer_waiting(a.drop_last(), b.drop_last());
        assert(waiting_of(b[a.len() - 1].roots@) <= waiting_of(a[a.len() - 1].roots@));
    }
}

pub proof fn lemma_removed_waiting(tasks: Seq<crate::coordinator::ScheduledTask>, t: int)
    requires
        0 <= t < tasks.len(),
    ensures
        waiting_in(tasks) == waiting_in(tasks.remove(t)) + waiting_of(tasks[t].roots@),
    decreases tasks.len(),
{
    if t == tasks.len() - 1 {
        assert(tasks.remove(t) =~= tasks.drop_last());
    } else {
        lemma_removed_waiting(tasks.drop_last(), t);
        assert(tasks.remove(t).drop_last() =~= tasks.drop_last().remove(t));
        assert(tasks.remove(t).last() == tasks.last());
    }
}

/// The stages of all other tasks.
pub open spec fn of_other_tasks(active: Seq<Dispatch>, task_id: Seq<char>) -> Seq<Dispatch>
    decreases active.len(),
{
    if active.len() == 0 {
        Seq::empty()
    } else if active.last().stage.task_id@ == task_id {
        of_other_tasks(active.drop_last(), task_id)
    } else {
        of_other_tasks(active.drop_last(), task_id).push(active.last())
    }
}

proof fn lemma_other_tasks_none(active: Seq<Dispatch>, task_id: Seq<char>)
    requires
        forall|i: int|
            0 <= i < active.len() ==> (#[trigger] active[i]).stage.task_id@ != task_id,
    ensures
        of_other_tasks(active, task_id) == active,
    decreases active.len(),
{
    if active.len() > 0 {
        assert forall|i: int| 0 <= i < active.drop_last().len() implies (
        #[trigger] active.drop_last()[i]).stage.task_id@ != task_id by {
            assert(active[i].stage.task_id@ != task_id);
        }
        lemma_other_tasks_none(active.drop_last(), task_id);
        assert(active =~= active.drop_last().push(active.last()));
    }
}

proof fn lemma_other_tasks_remove(active: Seq<Dispatch>, task_id: Seq<char>, k: int)
    requires
        0 <= k < active.len(),
        active[k].stage.task_id@ == task_id,
    ensures
        of_other_tasks(active.remove(k), task_id) == of_other_tasks(active, task_id),
    decreases active.len(),
{
    if k == active.len() - 1 {
        assert(active.remove(k) =~= active.drop_last());
    } else {
        lemma_other_tasks_remove(active.drop_last(), task_id, k);
        assert(active.remove(k).drop_last() =~= active.drop_last().remove(k));
        assert(active.remove(k).last() == active.last());
    }
}

/// The nodes of all other tasks.
pub open spec fn nodes_of_others(nodes: Seq<NodeResources>, task_id: Seq<char>) -> Seq<NodeResources>
    decreases nodes.len(),
{
    if nodes.len() == 0 {
        Seq::empty()
    } else if nodes.last().task_id@ == task_id {
        nodes_of_others(nodes.drop_last(), task_id)
    } else {
        nodes_of_others(nodes.drop_last(), task_id).push(nodes.last())
    }
}

/// The second coordinator is the first one without a task and without what its stages were
/// granted.
pub open spec fn let_go(
    a: TaskCoordinator,
    b: TaskCoordinator,
    active: Seq<Dispatch>,
    task_id: Seq<char>,
) -> bool {
    &&& b.positions() == a.positions()
    &&& b.broker().limits() == a.broker().limits()
    &&& b.broker().last_lease() == a.broker().last_lease()
    &&& a.is_unknown(task_id) ==> b.tasks() == a.tasks()
    &&& forall|i: int| #[trigger] a.is_at(i, task_id) ==> b.tasks() == a.tasks().remove(i)
    &&& forall|g: crate::resources::Grant| #[trigger]
        b.broker().grants().contains(g) <==> a.broker().grants().contains(g) && forall|k: int|
            0 <= k < active.len() && (#[trigger] active[k]).stage.task_id@ == task_id
                ==> active[k].lease.number() != g.id
}

impl RuntimeState {
    /// Gives up waiting for a turn: the stages of this attempt leave the queue.
    pub fn stop_waiting(
        &mut self,
        task_id: &str,
        node_id: &str,
        generation: u64,
        attempt_id: &str,
    ) -> (r: bool)
        requires
            old(self).wf(),
            old(self).has_leases(0),
        ensures
            final(self).wf(),
            final(self).lease_need() <= old(self).lease_need(),
            final(self).nodes == old(self).nodes,
            exists|mid: TaskCoordinator, ds: Seq<Dispatch>|
                {
                    &&& withdrew(
                        old(self).coordinator,
                        mid,
                        task_id@,
                        node_id@,
                        generation,
                        attempt_id@,
                    )
                    &&& #[trigger] RuntimeState::driven(
                        mid,
                        old(self).active@,
                        *final(self),
                        ds,
                    )
                    &&& r == (ds.len() > 0)
                },
    {
        let ghost was = *self;
        self.coordinator.remove_queued_stage(task_id, node_id, generation, attempt_id);
        let ghost mid = *self;
        proof {
            let a = was.coordinator;
            let b = mid.coordinator;
            assert(withdrew(a, b, task_id@, node_id@, generation, attempt_id@));
            assert forall|i: int| 0 <= i < a.tasks().len() implies waiting_of(
                (#[trigger] b.tasks()[i]).roots@,
            ) <= waiting_of(a.tasks()[i].roots@) by {
                if a.is_at(i, task_id@) {
                    lemma_sum_waiting(b.tasks()[i].roots@);
                    lemma_pruned(a.tasks()[i].roots@, node_id@, generation, attempt_id@);
                }
            }
            lemma_fewer_waiting(a.tasks(), b.tasks());
            assert forall|i: int| 0 <= i < self.active@.len() implies is_held(
                self.coordinator,
                #[trigger] self.active@[i],
            ) by {
                assert(is_held(was.coordinator, was.active@[i]));
            }
        }
        self.drive()
    }

    fn find_of_task(&self, task_id: &str) -> (r: Option<usize>)
        ensures
            match r {
                Some(k) => k < self.active@.len() && self.active@[k as int].stage.task_id@
                    == task_id@,
                None => forall|k: int|
                    0 <= k < self.active@.len() ==> (#[trigger] self.active@[k]).stage.task_id@
                        != task_id@,
            },
    {
        let mut i: usize = 0;
        while i < self.active.len()
            invariant
                i <= self.active@.len(),
                forall|k: int|
                    0 <= k < i ==> (#[trigger] self.active@[k]).stage.task_id@ != task_id@,
            decreases self.active.len() - i,
        {
            if same_text(self.active[i].stage.task_id.as_str(), task_id) {
                return Some(i);
            }
            i += 1;
        }
        None
    }

    /// Forgets the nodes of a task.
    fn drop_nodes(&mut self, task_id: &str)
        requires
            old(self).wf(),
        ensures
            final(self).wf(),
            final(self).coordinator == old(self).coordinator,
            final(self).active == old(self).active,
            final(self).nodes@ == nodes_of_others(old(self).nodes@, task_id@),
    {
        let ghost was = self.nodes@;
        let mut kept: Vec<NodeResources> = Vec::new();
        let mut rest: Vec<NodeResources> = Vec::new();
        std::mem::swap(&mut rest, &mut self.nodes);
        let ghost mut done: int = 0;
        assert(was.take(0) =~= Seq::<NodeResources>::empty());
        assert(was.skip(0) =~= was);
        while rest.len() > 0
            invariant
                0 <= done <= was.len(),
                rest@ == was.skip(done),
                kept@ == nodes_of_others(was.take(done), task_id@),
                forall|i: int| 0 <= i < kept@.len() ==> was.take(done).contains(#[trigger] kept@[i]),
                forall|i: int, j: int|
                    0 <= i < j < was.len() ==> !is_node(
                        #[trigger] was[j],
                        (#[trigger] was[i]).task_id@,
                        was[i].node_id@,
                    ),
                forall|i: int, j: int|
                    0 <= i < j < kept@.len() ==> !is_node(
                        #[trigger] kept@[j],
                        (#[trigger] kept@[i]).task_id@,
                        kept@[i].node_id@,
                    ),
                self.coordinator == old(self).coordinator,
                self.active == old(self).active,
            decreases rest@.len(),
        {
            let node: NodeResources = rest.remove(0);
            let ghost before = kept@;
            proof {
                assert(node == was[done]);
                assert(rest@ =~= was.skip(done + 1));
                assert(was.take(done + 1).drop_last() =~= was.take(done));
                assert(was.take(done + 1).last() == node);
            }
            if !same_text(node.task_id.as_str(), task_id) {
                kept.push(node);
            }
            proof {
                assert forall|i: int| 0 <= i < kept@.len() implies was.take(done + 1).contains(
                    #[trigger] kept@[i],
                ) by {
                    if i < before.len() {
                        let j = choose|j: int| 0 <= j < done && was.take(done)[j] == before[i];
                        assert(was.take(done + 1)[j] == kept@[i]);
                    } else {
                        assert(was.take(done + 1)[done] == kept@[i]);
                    }
                }
                assert forall|i: int, j: int| 0 <= i < j < kept@.len() implies !is_node(
                    #[trigger] kept@[j],
                    (#[trigger] kept@[i]).task_id@,
                    kept@[i].node_id@,
                ) by {
                    if j == before.len() {
                        let a = choose|a: int| 0 <= a < done && was.take(done)[a] == before[i];
                        assert(was[a] == kept@[i]);
                        assert(was[done] == kept@[j]);
                    }
                }
                done = done + 1;
            }
        }
        assert(was.take(done) =~= was);
        self.nodes = kept;
    }

    /// Forgets a task: what its stages were granted is taken back, and the next ones begin.
    pub fn release_task(&mut self, task_id: &str) -> (r: bool)
        requires
            old(self).wf(),
            old(self).has_leases(0),
        ensures
            final(self).wf(),
            final(self).lease_need() <= old(self).lease_need(),
            final(self).nodes@ == nodes_of_others(old(self).nodes@, task_id@),
            exists|mid: TaskCoordinator, ds: Seq<Dispatch>|
                {
                    &&& let_go(old(self).coordinator, mid, old(self).active@, task_id@)
                    &&& #[trigger] RuntimeState::driven(
                        mid,
                        of_other_tasks(old(self).active@, task_id@),
                        *final(self),
                        ds,
                    )
                    &&& r == (ds.len() > 0)
                },
    {
        let ghost was = *self;
        let ghost a = was.coordinator;
        let mut next: Option<usize> = self.find_of_task(task_id);
        while next.is_some()
            invariant
                self.wf(),
                was == *old(self),
                a == was.coordinator,
                was.wf(),
                self.nodes == was.nodes,
                match next {
                    Some(k) => k < self.active@.len() && self.active@[k as int].stage.task_id@
                        == task_id@,
                    None => forall|k: int|
                        0 <= k < self.active@.len() ==> (
                        #[trigger] self.active@[k]).stage.task_id@ != task_id@,
                },
                of_other_tasks(self.active@, task_id@) == of_other_tasks(was.active@, task_id@),
                self.coordinator.positions() == a.positions(),
                self.coordinator.broker().limits() == a.broker().limits(),
                self.coordinator.broker().last_lease() == a.broker().last_lease(),
                waiting_in(self.coordinator.tasks()) == waiting_in(a.tasks()),
                same_but_service(a.tasks(), self.coordinator.tasks(), task_id@),
                forall|g: crate::resources::Grant|
                    given_back(
                        was.active@,
                        self.active@,
                        task_id@,
                        a.broker().grants(),
                        self.coordinator.broker().grants(),
                        g,
                    ),
                forall|k: int|
                    0 <= k < self.active@.len() ==> was.active@.contains(
                        #[trigger] self.active@[k],
                    ),
                forall|k: int|
                    0 <= k < was.active@.len() && (#[trigger] was.active@[k]).stage.task_id@
                        != task_id@ ==> self.active@.contains(was.active@[k]),
            decreases self.active@.len(),
        {
            if let Some(k) = next {
                let ghost mid = *self;
                proof {
                    lemma_other_tasks_remove(self.active@, task_id@, k as int);
                }
                self.end_active(k, 1);
                proof {
                    lemma_released_one(was, mid, *self, k as int, task_id@);
                }
            }
            next = self.find_of_task(task_id);
        }
        let ghost mid = *self;
        proof {
            lemma_other_tasks_none(mid.active@, task_id@);
            crate::coordinator::tasks_are_in_order(a);
            crate::coordinator::tasks_are_in_order(mid.coordinator);
        }
        self.coordinator.remove(task_id);
        let ghost cut = *self;
        proof {
            lemma_task_removed(was, mid, cut, task_id@);
            assert forall|i: int| 0 <= i < self.active@.len() implies is_held(
                self.coordinator,
                #[trigger] self.active@[i],
            ) by {
                assert(is_held(mid.coordinator, mid.active@[i]));
            }
        }
        self.drop_nodes(task_id);
        self.drive()
    }
}

/// The tasks are the same, but for the service of the one with this name.
spec fn same_but_service(
    a: Seq<crate::coordinator::ScheduledTask>,
    b: Seq<crate::coordinator::ScheduledTask>,
    task_id: Seq<char>,
) -> bool {
    &&& b.len() == a.len()
    &&& forall|i: int|
        0 <= i < a.len() ==> if a[i].task_id@ == task_id {
            (#[trigger] b[i]).task_id@ == task_id
        } else {
            b[i] == a[i]
        }
}

/// The grant is still there, unless it belonged to a stage of the task that has ended.
spec fn given_back(
    was: Seq<Dispatch>,
    now: Seq<Dispatch>,
    task_id: Seq<char>,
    before: Seq<crate::resources::Grant>,
    after: Seq<crate::resources::Grant>,
    g: crate::resources::Grant,
) -> bool {
    after.contains(g) <==> before.contains(g) && forall|k: int|
        0 <= k < was.len() && (#[trigger] was[k]).stage.task_id@ == task_id && !now.contains(was[k])
            ==> was[k].lease.number() != g.id
}

proof fn lemma_released_one(
    was: RuntimeState,
    mid: RuntimeState,
    now: RuntimeState,
    k: int,
    task_id: Seq<char>,
)
    requires
        was.wf(),
        mid.wf(),
        now.wf(),
        0 <= k < mid.active@.len(),
        mid.active@[k].stage.task_id@ == task_id,
        now.active@ == mid.active@.remove(k),
        took_back(mid.coordinator, now.coordinator, mid.active@[k], 1),
        same_but_service(was.coordinator.tasks(), mid.coordinator.tasks(), task_id),
        forall|g: crate::resources::Grant|
            given_back(
                was.active@,
                mid.active@,
                task_id,
                was.coordinator.broker().grants(),
                mid.coordinator.broker().grants(),
                g,
            ),
        forall|i: int|
            0 <= i < mid.active@.len() ==> was.active@.contains(#[trigger] mid.active@[i]),
        forall|i: int|
            0 <= i < was.active@.len() && (#[trigger] was.active@[i]).stage.task_id@ != task_id
                ==> mid.active@.contains(was.active@[i]),
    ensures
        same_but_service(was.coordinator.tasks(), now.coordinator.tasks(), task_id),
        forall|g: crate::resources::Grant|
            given_back(
                was.active@,
                now.active@,
                task_id,
                was.coordinator.broker().grants(),
                now.coordinator.broker().grants(),
                g,
            ),
        forall|i: int|
            0 <= i < now.active@.len() ==> was.active@.contains(#[trigger] now.active@[i]),
        forall|i: int|
            0 <= i < was.active@.len() && (#[trigger] was.active@[i]).stage.task_id@ != task_id
                ==> now.active@.contains(was.active@[i]),
{
    let d = mid.active@[k];
    let g0 = was.coordinator.broker().grants();
    let g1 = mid.coordinator.broker().grants();
    let g2 = now.coordinator.broker().grants();
    crate::coordinator::tasks_are_in_order(mid.coordinator);
    crate::resources::use_is_the_sum_of_grants(mid.coordinator.broker());
    let at = choose|at: int|
        0 <= at < g1.len() && (#[trigger] g1[at]).id == d.lease.number() && g2 == g1.remove(at);
    // What stays is what was there under another number.
    assert forall|g: crate::resources::Grant| g2.contains(g) <==> g1.contains(g) && g.id
        != d.lease.number() by {
        if g2.contains(g) {
            let i = choose|i: int| 0 <= i < g2.len() && g2[i] == g;
            let j = if i < at { i } else { i + 1 };
            assert(g1[j] == g);
            if j < at {
                assert(g1[j].id != g1[at].id);
            } else {
                assert(g1[at].id != g1[j].id);
            }
        }
        if g1.contains(g) && g.id != d.lease.number() {
            let i = choose|i: int| 0 <= i < g1.len() && g1[i] == g;
            if i < at {
                assert(g2[i] == g);
            } else {
                assert(g2[i - 1] == g);
            }
        }
    }
    // The stages that run are those that ran, but for the one that ended.
    assert forall|x: Dispatch| now.active@.contains(x) implies mid.active@.contains(x) && x.lease.number()
        != d.lease.number() by {
        let i = choose|i: int| 0 <= i < now.active@.len() && now.active@[i] == x;
        let j = if i < k { i } else { i + 1 };
        assert(mid.active@[j] == x);
        if j < k {
            assert(mid.active@[j].lease.number() != mid.active@[k].lease.number());
        } else {
            assert(mid.active@[k].lease.number() != mid.active@[j].lease.number());
        }
    }
    assert forall|x: Dispatch| mid.active@.contains(x) && x != d implies now.active@.contains(
        x,
    ) by {
        let i = choose|i: int| 0 <= i < mid.active@.len() && mid.active@[i] == x;
        if i < k {
            assert(now.active@[i] == x);
        } else {
            assert(now.active@[i - 1] == x);
        }
    }
    assert forall|g: crate::resources::Grant|
        given_back(was.active@, now.active@, task_id, g0, g2, g) by {
        assert(given_back(was.active@, mid.active@, task_id, g0, g1, g));
        if g2.contains(g) {
            assert forall|i: int|
                0 <= i < was.active@.len() && (#[trigger] was.active@[i]).stage.task_id@ == task_id
                    && !now.active@.contains(was.active@[i]) implies was.active@[i].lease.number()
                != g.id by {
                if mid.active@.contains(was.active@[i]) {
                    assert(was.active@[i] == d);
                }
            }
        }
        if g0.contains(g) && forall|i: int|
            0 <= i < was.active@.len() && (#[trigger] was.active@[i]).stage.task_id@ == task_id
                && !now.active@.contains(was.active@[i]) ==> was.active@[i].lease.number() != g.id {
            assert forall|i: int|
                0 <= i < was.active@.len() && (#[trigger] was.active@[i]).stage.task_id@ == task_id
                    && !mid.active@.contains(was.active@[i]) implies was.active@[i].lease.number()
                != g.id by {
                assert(!now.active@.contains(was.active@[i]));
            }
            let i = choose|i: int| 0 <= i < was.active@.len() && was.active@[i] == d;
            assert(was.active@[i] == d);
            assert(!now.active@.contains(was.active@[i]));
        }
    }
    assert forall|i: int| 0 <= i < now.active@.len() implies was.active@.contains(
        #[trigger] now.active@[i],
    ) by {
        let j = if i < k { i } else { i + 1 };
        assert(now.active@[i] == mid.active@[j]);
    }
    assert forall|i: int| 0 <= i < was.coordinator.tasks().len() implies if was.coordinator.tasks()[i].task_id@
        == task_id {
        (#[trigger] now.coordinator.tasks()[i]).task_id@ == task_id
    } else {
        now.coordinator.tasks()[i] == was.coordinator.tasks()[i]
    } by {
        assert(mid.coordinator.is_at(i, task_id) == (mid.coordinator.tasks()[i].task_id@ == task_id));
    }
}

proof fn lemma_task_removed(was: RuntimeState, mid: RuntimeState, cut: RuntimeState, task_id: Seq<char>)
    requires
        was.wf(),
        mid.wf(),
        cut.coordinator.wf(),
        same_but_service(was.coordinator.tasks(), mid.coordinator.tasks(), task_id),
        waiting_in(mid.coordinator.tasks()) == waiting_in(was.coordinator.tasks()),
        mid.coordinator.positions() == was.coordinator.positions(),
        mid.coordinator.broker().limits() == was.coordinator.broker().limits(),
        mid.coordinator.broker().last_lease() == was.coordinator.broker().last_lease(),
        forall|g: crate::resources::Grant|
            given_back(
                was.active@,
                mid.active@,
                task_id,
                was.coordinator.broker().grants(),
                mid.coordinator.broker().grants(),
                g,
            ),
        forall|k: int|
            0 <= k < mid.active@.len() ==> (#[trigger] mid.active@[k]).stage.task_id@ != task_id,
        cut.coordinator.broker() == mid.coordinator.broker(),
        cut.coordinator.positions() == mid.coordinator.positions(),
        mid.coordinator.is_unknown(task_id) ==> cut.coordinator.tasks()
            == mid.coordinator.tasks(),
        forall|i: int| #[trigger]
            mid.coordinator.is_at(i, task_id) ==> cut.coordinator.tasks()
                == mid.coordinator.tasks().remove(i),
    ensures
        let_go(was.coordinator, cut.coordinator, was.active@, task_id),
        waiting_in(cut.coordinator.tasks()) <= waiting_in(was.coordinator.tasks()),
{
    let a = was.coordinator.tasks();
    let b = mid.coordinator.tasks();
    crate::coordinator::tasks_are_in_order(was.coordinator);
    if was.coordinator.is_unknown(task_id) {
        assert forall|i: int| 0 <= i < b.len() implies (#[trigger] b[i]).task_id@ != task_id by {
            assert(a[i].task_id@ != task_id);
        }
        assert(mid.coordinator.is_unknown(task_id));
        assert forall|i: int| 0 <= i < a.len() implies b[i] == a[i] by {
            assert(a[i].task_id@ != task_id);
            assert(b[i].task_id@ != task_id);
        }
        assert(b =~= a);
    }
    assert forall|i: int| #[trigger]
        was.coordinator.is_at(i, task_id) implies cut.coordinator.tasks() == a.remove(i)
        && waiting_in(cut.coordinator.tasks()) <= waiting_in(a) by {
        assert(b[i].task_id@ == task_id);
        assert(mid.coordinator.is_at(i, task_id));
        assert forall|k: int| 0 <= k < a.len() && k != i implies b[k] == a[k] by {
            let x = vstd::utf8::encode_utf8(task_id);
            crate::text::lemma_before_total(x, x);
            if a[k].task_id@ == task_id {
                if k < i {
                    assert(crate::text::text_before(a[k].task_id@, a[i].task_id@));
                } else {
                    assert(crate::text::text_before(a[i].task_id@, a[k].task_id@));
                }
            }
            assert(b[k].task_id@ == b[k].task_id@);
        }
        assert(b.remove(i) =~= a.remove(i));
        lemma_removed_waiting(b, i);
    }
    if !was.coordinator.is_unknown(task_id) {
        let i = choose|i: int| 0 <= i < a.len() && (#[trigger] a[i]).task_id@ == task_id;
        assert(was.coordinator.is_at(i, task_id));
    }
    assert forall|g: crate::resources::Grant| #[trigger]
        cut.coordinator.broker().grants().contains(g)
            <==> was.coordinator.broker().grants().contains(g) && forall|k: int|
            0 <= k < was.active@.len() && (#[trigger] was.active@[k]).stage.task_id@ == task_id
                ==> was.active@[k].lease.number() != g.id by {
        assert(given_back(
            was.active@,
            mid.active@,
            task_id,
            was.coordinator.broker().grants(),
            mid.coordinator.broker().grants(),
            g,
        ));
        assert forall|k: int|
            0 <= k < was.active@.len() && (#[trigger] was.active@[k]).stage.task_id@
                == task_id implies !mid.active@.contains(was.active@[k]) by {
            if mid.active@.contains(was.active@[k]) {
                let j = choose|j: int|
                    0 <= j < mid.active@.len() && mid.active@[j] == was.active@[k];
                assert(mid.active@[j].stage.task_id@ != task_id);
            }
        }
    }
}

/// No stage that runs writes what another one that runs reads or writes.
pub proof fn running_stages_never_clash(state: RuntimeState, i: int, j: int)
    requires
        state.wf(),
        0 <= i < state.active@.len(),
        0 <= j < state.active@.len(),
        i != j,
    ensures
        !crate::resources::conflict(
            state.active@[i].lease.demand(),
            state.active@[j].lease.demand(),
        ),
{
    let grants = state.coordinator.broker().grants();
    let first = state.active@[i].lease;
    let second = state.active@[j].lease;
    assert(is_held(state.coordinator, state.active@[i]));
    assert(is_held(state.coordinator, state.active@[j]));
    let a = choose|k: int|
        0 <= k < grants.len() && (#[trigger] grants[k]).id == first.number() && grants[k].demand
            == first.demand();
    let b = choose|k: int|
        0 <= k < grants.len() && (#[trigger] grants[k]).id == second.number() && grants[k].demand
            == second.demand();
    assert(first.number() != second.number());
    crate::coordinator::tasks_are_in_order(state.coordinator);
    crate::resources::grants_never_clash(state.coordinator.broker(), a, b);
}

/// Once the turns are given, a stage that still waits at the head of its queue waits for the pause
/// of its task to end, or asks for what cannot be granted now.
pub proof fn nothing_idles(
    before: TaskCoordinator,
    active: Seq<Dispatch>,
    state: RuntimeState,
    ds: Seq<Dispatch>,
    t: int,
    q: int,
)
    requires
        RuntimeState::driven(before, active, state, ds),
        0 <= t < state.coordinator.tasks().len(),
        0 <= q < state.coordinator.tasks()[t].roots@.len(),
    ensures
        state.coordinator.tasks()[t].paused || !crate::resources::admissible(
            state.coordinator.broker(),
            crate::coordinator::head(state.coordinator.tasks(), t, q).resources@,
        ),
{
    let (tasks, broker) = (state.coordinator.tasks(), state.coordinator.broker());
    assert(!crate::coordinator::runnable(tasks, broker, t, q));
}

/// The scheduler keeps the order of the stored priorities, and each has a share of its own.
pub proof fn priorities_are_scheduled_in_order()
    ensures
        scheduled_as(Priority::Background).share() < scheduled_as(Priority::Normal).share(),
        scheduled_as(Priority::Normal).share() < scheduled_as(Priority::High).share(),
{
}

/// Two commits clash exactly where their outputs overlap. What reads an input clashes with a
/// commit exactly where that writes over it, and what looks at the output of its own node waits
/// for the commit of that node.
pub proof fn only_commits_clash(a: NodeResources, b: NodeResources, stage: Stage, other: Stage)
    ensures
        crate::resources::conflict(demand_of(Stage::Commit, a), demand_of(Stage::Commit, b))
            <==> crate::resources::overlap(a.output_root@, b.output_root@),
        reads_input(stage) ==> (crate::resources::conflict(
            demand_of(Stage::Commit, a),
            demand_of(stage, b),
        ) <==> crate::resources::overlap(a.output_root@, b.input@)),
        stage == Stage::DiscoverChildren || stage == Stage::DecodePreview
            ==> crate::resources::conflict(demand_of(Stage::Commit, a), demand_of(stage, a)),
        stage != Stage::Commit && other != Stage::Commit ==> !crate::resources::conflict(
            demand_of(stage, a),
            demand_of(other, b),
        ),
        stage == Stage::ResolveInputs || stage == Stage::AnalyzeEncoding || stage
            == Stage::InspectAndPlan || stage == Stage::Cleanup ==> !crate::resources::conflict(
            demand_of(Stage::Commit, a),
            demand_of(stage, b),
        ),
{
    let target = a.output_root@;
    let commit = demand_of(Stage::Commit, a);
    let second = demand_of(Stage::Commit, b);
    assert(commit.target_paths[0] == target);
    assert(second.target_paths[0] == b.output_root@);
    if crate::resources::overlap(target, b.output_root@) {
        assert(crate::resources::overlap(commit.target_paths[0], second.target_paths[0]));
    }
    let read = demand_of(stage, b);
    if reads_input(stage) {
        assert(read.artifact_reads[0] == b.input@);
        if crate::resources::overlap(target, b.input@) {
            assert(crate::resources::overlap(commit.target_paths[0], read.artifact_reads[0]));
        }
    }
    if reads_output(stage) {
        let own = demand_of(stage, a);
        assert(own.artifact_reads[0] == target);
        assert(crate::resources::overlap(commit.target_paths[0], own.artifact_reads[0]));
    }
}

/// A stage takes one processor, and one process of the archive tool only where it runs the tool.
/// It takes one unit of each device that it works on, and of no other.
pub proof fn stages_ask_for_what_they_use(stage: Stage, node: NodeResources, d: Seq<char>)
    ensures
        demand_of(stage, node).cpu_units == 1,
        demand_of(stage, node).memory_bytes == 0,
        demand_of(stage, node).temporary_bytes == 0,
        demand_of(stage, node).backend_processes <= 1,
        demand_of(stage, node).backend_processes == 1 ==> demand_of(
            stage,
            node,
        ).io_domains.contains_key(node.source_io_domain@) && demand_of(stage, node).artifact_reads
            == seq![node.input@],
        stage == Stage::ExtractAttempt || stage == Stage::ReadMetadata || stage == Stage::ReadMember
            <==> demand_of(stage, node).backend_processes == 1,
        demand_of(stage, node).io_domains.contains_key(d) ==> demand_of(stage, node).io_domains[d]
            == 1,
        demand_of(stage, node).io_domains.contains_key(d) ==> d == node.source_io_domain@ || d
            == node.target_io_domain@,
        stage == Stage::ExtractAttempt ==> demand_of(stage, node).io_domains.contains_key(
            node.target_io_domain@,
        ),
        stage == Stage::Commit || stage == Stage::DiscoverChildren || stage == Stage::DecodePreview
            ==> demand_of(stage, node).io_domains.contains_key(node.target_io_domain@),
        (stage == Stage::Commit || stage == Stage::DiscoverChildren || stage == Stage::DecodePreview)
            && node.source_io_domain@ != node.target_io_domain@ ==> !demand_of(
            stage,
            node,
        ).io_domains.contains_key(node.source_io_domain@),
        stage == Stage::ScanEmbedded || stage == Stage::Fingerprint || stage == Stage::PrepareAccess
            ==> demand_of(stage, node).io_domains.contains_key(node.source_io_domain@),
        (stage == Stage::ScanEmbedded || stage == Stage::Fingerprint || stage
            == Stage::PrepareAccess || stage == Stage::ReadMetadata || stage == Stage::ReadMember)
            && node.source_io_domain@ != node.target_io_domain@ ==> !demand_of(
            stage,
            node,
        ).io_domains.contains_key(node.target_io_domain@),
        stage == Stage::ResolveInputs || stage == Stage::AnalyzeEncoding || stage
            == Stage::InspectAndPlan || stage == Stage::Cleanup ==> !demand_of(
            stage,
            node,
        ).io_domains.contains_key(d),
        demand_of(stage, node).target_paths.len() > 0 <==> stage == Stage::Commit,
        demand_of(Stage::Commit, node).target_paths == seq![node.output_root@],
        demand_of(Stage::Commit, node).artifact_reads.len() == 0,
        demand_of(Stage::DiscoverChildren, node).artifact_reads == seq![node.output_root@],
        demand_of(Stage::DecodePreview, node).artifact_reads == seq![node.output_root@],
{
}

/// Once its devices are known, every stage of a node can run where one processor and one process
/// are allowed and nothing else runs.
pub proof fn known_devices_admit_every_stage(
    limits: crate::resources::Demand,
    stage: Stage,
    node: NodeResources,
)
    requires
        limits.cpu_units >= 1,
        limits.backend_processes >= 1,
    ensures
        crate::resources::within(demand_of(stage, node), with_domains(limits, node)),
        with_domains(limits, node).cpu_units == limits.cpu_units,
        with_domains(limits, node).backend_processes == limits.backend_processes,
        with_domains(limits, node).memory_bytes == limits.memory_bytes,
        with_domains(limits, node).temporary_bytes == limits.temporary_bytes,
        forall|d: Seq<char>|
            d != node.source_io_domain@ && d != node.target_io_domain@
                ==> crate::resources::amount(#[trigger] with_domains(limits, node).io_domains, d)
                == crate::resources::amount(limits.io_domains, d),
{
}

/// Nothing costs more than an extraction: two and a half scans, five looks into an archive, ten of
/// the stages that only think, or twenty commits or cleanups. Nothing is free.
pub proof fn extraction_costs_most(stage: Stage)
    ensures
        0 < expected_cost(stage) <= expected_cost(Stage::ExtractAttempt),
        stage != Stage::ExtractAttempt ==> expected_cost(stage) < expected_cost(
            Stage::ExtractAttempt,
        ),
        2 * expected_cost(Stage::ExtractAttempt) == 5 * expected_cost(Stage::ScanEmbedded),
        expected_cost(Stage::DiscoverChildren) == expected_cost(Stage::ScanEmbedded),
        expected_cost(Stage::ExtractAttempt) == 5 * expected_cost(Stage::PrepareAccess),
        expected_cost(Stage::ReadMetadata) == expected_cost(Stage::PrepareAccess),
        expected_cost(Stage::ReadMember) == expected_cost(Stage::PrepareAccess),
        expected_cost(Stage::ExtractAttempt) == 20 * expected_cost(Stage::Commit),
        expected_cost(Stage::Cleanup) == expected_cost(Stage::Commit),
        expected_cost(stage) >= expected_cost(Stage::Commit),
        stage == Stage::ResolveInputs || stage == Stage::Fingerprint || stage
            == Stage::AnalyzeEncoding || stage == Stage::InspectAndPlan || stage
            == Stage::DecodePreview ==> expected_cost(stage) == 2 * expected_cost(Stage::Commit),
        expected_cost(Stage::Commit) == 5,
{
}

/// Of a node that gives up its stage none is left among those that run, and every other stays.
pub proof fn other_stages_stay(
    active: Seq<Dispatch>,
    task_id: Seq<char>,
    node_id: Seq<char>,
    d: Dispatch,
)
    ensures
        others(active, task_id, node_id).contains(d) <==> active.contains(d) && !(d.stage.task_id@
            == task_id && d.stage.node_id@ == node_id),
        of_other_tasks(active, task_id).contains(d) <==> active.contains(d) && d.stage.task_id@
            != task_id,
    decreases active.len(),
{
    if active.len() > 0 {
        let front = active.drop_last();
        other_stages_stay(front, task_id, node_id, d);
        assert(active =~= front.push(active.last()));
        crate::order::lemma_pushed(front, active.last(), d);
        crate::order::lemma_pushed(others(front, task_id, node_id), active.last(), d);
        crate::order::lemma_pushed(of_other_tasks(front, task_id), active.last(), d);
    }
}

/// Of a task that is let go no node is known any more, and all others are.
pub proof fn other_nodes_stay(nodes: Seq<NodeResources>, task_id: Seq<char>, n: NodeResources)
    ensures
        nodes_of_others(nodes, task_id).contains(n) <==> nodes.contains(n) && n.task_id@ != task_id,
    decreases nodes.len(),
{
    if nodes.len() > 0 {
        let front = nodes.drop_last();
        other_nodes_stay(front, task_id, n);
        assert(nodes =~= front.push(nodes.last()));
        crate::order::lemma_pushed(front, nodes.last(), n);
        crate::order::lemma_pushed(nodes_of_others(front, task_id), nodes.last(), n);
    }
}

} // verus!
