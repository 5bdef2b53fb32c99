//! How a node gets into a stage: it gives up the stage that it is in, is marked as waiting, waits
//! for a turn, and is marked as running.

use vstd::prelude::*;

verus! {

/// What is done next.
#[derive(Clone, Copy, Debug, PartialEq, Eq, Structural)]
pub enum TransitionStep {
    /// Give up the stage that the node is in.
    Release,
    /// Mark the node as waiting for its resources.
    MarkWaiting,
    /// Ask for a turn.
    AskForTurn,
    /// Mark the node as running.
    MarkRunning,
    /// Give the turn back.
    GiveBack,
    /// The node runs.
    Running,
    /// The node has moved on without this worker.
    Stale,
    /// The task ends, or the store failed.
    Failed,
}

/// What came of it.
#[derive(Clone, Copy, Debug, PartialEq, Eq, Structural)]
pub enum TransitionEvent {
    /// It was done; a mark was set.
    Done,
    /// The mark was refused.
    Refused,
    /// There is no turn, or the store failed.
    Failed,
}

/// The step that follows.
pub open spec fn following(step: TransitionStep, event: TransitionEvent) -> TransitionStep {
    match (step, event) {
        (TransitionStep::Release, _) => TransitionStep::MarkWaiting,
        (TransitionStep::MarkWaiting, TransitionEvent::Done) => TransitionStep::AskForTurn,
        (TransitionStep::MarkWaiting, TransitionEvent::Refused) => TransitionStep::Stale,
        (TransitionStep::AskForTurn, TransitionEvent::Done) => TransitionStep::MarkRunning,
        (TransitionStep::MarkRunning, TransitionEvent::Done) => TransitionStep::Running,
        (TransitionStep::MarkRunning, TransitionEvent::Refused) => TransitionStep::GiveBack,
        (TransitionStep::GiveBack, _) => TransitionStep::Stale,
        (TransitionStep::Running, _) => TransitionStep::Running,
        (TransitionStep::Stale, _) => TransitionStep::Stale,
        _ => TransitionStep::Failed,
    }
}

pub fn transition(step: TransitionStep, event: TransitionEvent) -> (r: TransitionStep)
    ensures
        r == following(step, event),
{
    match (step, event) {
        (TransitionStep::Release, _) => TransitionStep::MarkWaiting,
        (TransitionStep::MarkWaiting, TransitionEvent::Done) => TransitionStep::AskForTurn,
        (TransitionStep::MarkWaiting, TransitionEvent::Refused) => TransitionStep::Stale,
        (TransitionStep::AskForTurn, TransitionEvent::Done) => TransitionStep::MarkRunning,
        (TransitionStep::MarkRunning, TransitionEvent::Done) => TransitionStep::Running,
        (TransitionStep::MarkRunning, TransitionEvent::Refused) => TransitionStep::GiveBack,
        (TransitionStep::GiveBack, _) => TransitionStep::Stale,
        (TransitionStep::Running, _) => TransitionStep::Running,
        (TransitionStep::Stale, _) => TransitionStep::Stale,
        _ => TransitionStep::Failed,
    }
}

/// The step after a number of events.
pub open spec fn after_all(events: Seq<TransitionEvent>) -> TransitionStep
    decreases events.len(),
{
    if events.len() == 0 {
        TransitionStep::Release
    } else {
        following(after_all(events.drop_last()), events.last())
    }
}

/// A node that runs was marked as waiting, got a turn, and was marked as running, in this order.
pub proof fn running_took_all_steps(events: Seq<TransitionEvent>)
    requires
        after_all(events) == TransitionStep::Running,
    ensures
        events.len() >= 4,
        events[1] == TransitionEvent::Done,
        events[2] == TransitionEvent::Done,
        events[3] == TransitionEvent::Done,
    decreases events.len(),
{
    if events.len() > 0 {
        let before = events.drop_last();
        if after_all(before) == TransitionStep::Running {
            running_took_all_steps(before);
        } else {
            lemma_marked(before);
        }
    }
}

proof fn lemma_marked(events: Seq<TransitionEvent>)
    requires
        after_all(events) == TransitionStep::MarkRunning,
    ensures
        events.len() == 3,
        events[1] == TransitionEvent::Done,
        events[2] == TransitionEvent::Done,
{
    reveal_with_fuel(after_all, 4);
    let a = events.drop_last();
    let b = a.drop_last();
    let c = b.drop_last();
    assert(after_all(a) == TransitionStep::AskForTurn);
    assert(after_all(b) == TransitionStep::MarkWaiting);
    assert(after_all(c) == TransitionStep::Release);
    if c.len() > 0 {
        assert(after_all(c) == following(after_all(c.drop_last()), c.last()));
    }
}

/// A node never runs once something was refused or has failed, and a worker whose mark was refused
/// ends as one that the node has left behind. A turn that was had and cannot be used is given back
/// before that.
pub proof fn unused_turns_are_given_back(step: TransitionStep, event: TransitionEvent)
    ensures
        following(step, event) == TransitionStep::Running && step != TransitionStep::Running ==> event
            == TransitionEvent::Done && step == TransitionStep::MarkRunning,
        following(step, event) == TransitionStep::GiveBack <==> step == TransitionStep::MarkRunning
            && event == TransitionEvent::Refused,
        following(step, event) == TransitionStep::MarkRunning <==> step
            == TransitionStep::AskForTurn && event == TransitionEvent::Done,
        following(step, event) == TransitionStep::AskForTurn <==> step
            == TransitionStep::MarkWaiting && event == TransitionEvent::Done,
        following(step, event) == TransitionStep::Stale && step != TransitionStep::Stale ==> step
            == TransitionStep::GiveBack || (step == TransitionStep::MarkWaiting && event
            == TransitionEvent::Refused),
        following(TransitionStep::GiveBack, event) == TransitionStep::Stale,
        following(TransitionStep::Release, event) == TransitionStep::MarkWaiting,
        event == TransitionEvent::Failed && (step == TransitionStep::MarkWaiting || step
            == TransitionStep::AskForTurn || step == TransitionStep::MarkRunning) ==> following(
            step,
            event,
        ) == TransitionStep::Failed,
        step == TransitionStep::Running || step == TransitionStep::Stale || step
            == TransitionStep::Failed ==> following(step, event) == step,
        event == TransitionEvent::Refused && step == TransitionStep::MarkWaiting ==> following(
            step,
            event,
        ) == TransitionStep::Stale,
{
}

} // verus!
