//! Whose turn it is.

use smartzip::coordinator::{Stage, StageRun, TaskCoordinator, TaskPriority};
use smartzip::resources::{DomainUnits, ResourceCapacity, ResourceRequest};

fn domains(names: &[&str]) -> DomainUnits {
    let mut units = DomainUnits::new();
    for name in names {
        units.set(name, 1);
    }
    units
}

fn stage(task: &str, root: &str, cost: u64, cpu: u32, domain: &str) -> StageRun {
    StageRun {
        task_id: task.to_string(),
        node_id: root.to_string(),
        root_id: root.to_string(),
        stage: Stage::ExtractAttempt,
        generation: 0,
        attempt_id: "attempt".to_string(),
        resources: ResourceRequest {
            cpu_units: cpu,
            io_domains: domains(&[domain]),
            ..Default::default()
        },
        estimated_cost: cost,
    }
}

fn coordinator() -> TaskCoordinator {
    TaskCoordinator::new(ResourceCapacity {
        cpu_units: 2,
        backend_processes: 2,
        io_domains: domains(&["a", "b"]),
        ..Default::default()
    })
}

#[test]
fn blocked_head_does_not_stop_fitting_work() {
    let mut coordinator = coordinator();
    coordinator.submit("first".to_string(), TaskPriority::Normal);
    coordinator.submit("second".to_string(), TaskPriority::Normal);
    assert!(coordinator.enqueue(stage("first", "root_a", 1, 3, "a")));
    assert!(coordinator.enqueue(stage("second", "root_b", 1, 1, "b")));
    let dispatch = coordinator.dispatch_next().unwrap();
    assert_eq!(dispatch.stage.task_id, "second");
}

#[test]
fn weighted_service_still_dispatches_background_task() {
    let mut coordinator = coordinator();
    coordinator.submit("high".to_string(), TaskPriority::High);
    coordinator.submit("background".to_string(), TaskPriority::Background);
    for _ in 0..8 {
        coordinator.enqueue(stage("high", "high_root", 1, 1, "a"));
    }
    coordinator.enqueue(stage("background", "background_root", 1, 1, "a"));
    let mut order = Vec::new();
    for _ in 0..5 {
        let dispatch = coordinator.dispatch_next().unwrap();
        order.push(dispatch.stage.task_id.clone());
        coordinator.complete(dispatch, 1);
    }
    assert!(order.contains(&"background".to_string()));
}

#[test]
fn unknown_tasks_are_refused() {
    let mut coordinator = coordinator();
    assert!(!coordinator.enqueue(stage("nobody", "root", 1, 1, "a")));
    assert!(!coordinator.set_priority("nobody", TaskPriority::High));
    assert!(!coordinator.set_paused("nobody", true));
    assert!(!coordinator.reorder("nobody", 1));
}

#[test]
fn paused_tasks_wait() {
    let mut coordinator = coordinator();
    coordinator.submit("task".to_string(), TaskPriority::Normal);
    coordinator.enqueue(stage("task", "root", 1, 1, "a"));
    assert!(coordinator.set_paused("task", true));
    assert!(coordinator.dispatch_next().is_none());
    assert!(coordinator.set_paused("task", false));
    assert!(coordinator.dispatch_next().is_some());
}

#[test]
fn roots_of_a_task_take_turns() {
    let mut coordinator = coordinator();
    coordinator.submit("task".to_string(), TaskPriority::Normal);
    for root in ["x", "x", "y"] {
        coordinator.enqueue(stage("task", root, 1, 1, "a"));
    }
    let mut order = Vec::new();
    while let Some(dispatch) = coordinator.dispatch_next() {
        order.push(dispatch.stage.root_id.clone());
        coordinator.complete(dispatch, 1);
    }
    assert_eq!(order, vec!["x", "y", "x"]);
}

#[test]
fn earlier_place_goes_first() {
    let mut coordinator = coordinator();
    coordinator.submit("a".to_string(), TaskPriority::Normal);
    coordinator.submit("b".to_string(), TaskPriority::Normal);
    coordinator.enqueue(stage("a", "ra", 1, 1, "a"));
    coordinator.enqueue(stage("b", "rb", 1, 1, "a"));
    assert!(coordinator.reorder("a", 9));
    assert_eq!(coordinator.dispatch_next().unwrap().stage.task_id, "b");
}

#[test]
fn removed_stage_is_not_dispatched() {
    let mut coordinator = coordinator();
    coordinator.submit("task".to_string(), TaskPriority::Normal);
    coordinator.enqueue(stage("task", "root", 1, 1, "a"));
    coordinator.remove_queued_stage("task", "root", 0, "other");
    coordinator.remove_queued_stage("task", "root", 0, "attempt");
    assert!(coordinator.dispatch_next().is_none());
}

#[test]
fn removed_task_is_unknown() {
    let mut coordinator = coordinator();
    coordinator.submit("task".to_string(), TaskPriority::Normal);
    coordinator.remove("task");
    assert!(!coordinator.enqueue(stage("task", "root", 1, 1, "a")));
}

#[test]
fn resources_come_back_with_the_stage() {
    let mut coordinator = coordinator();
    coordinator.submit("task".to_string(), TaskPriority::Normal);
    coordinator.enqueue(stage("task", "root", 1, 2, "a"));
    let dispatch = coordinator.dispatch_next().unwrap();
    assert_eq!(coordinator.resources().used().cpu_units, 2);
    coordinator.complete(dispatch, 5);
    assert_eq!(coordinator.resources().used().cpu_units, 0);
}

#[test]
fn weights_and_stage_names() {
    assert_eq!(TaskPriority::Background.weight(), 1);
    assert!(TaskPriority::Normal.weight() < TaskPriority::High.weight());
    assert_eq!(Stage::ResolveInputs.as_str(), "resolve_inputs");
    assert_eq!(Stage::ExtractAttempt.as_str(), "extract_attempt");
}

#[test]
fn turns_cost_what_they_took() {
    for (estimated, actual, charged) in [(10, 3, 3), (3, 10, 10), (0, 0, 1), (7, 7, 7), (5, 0, 1)] {
        let mut coordinator = coordinator();
        coordinator.submit("busy".to_string(), TaskPriority::Background);
        coordinator.submit("other".to_string(), TaskPriority::Background);
        coordinator.enqueue(stage("busy", "root", estimated, 1, "a"));
        let dispatch = coordinator.dispatch_next().unwrap();
        assert_eq!(coordinator.resources().used().cpu_units, 1);
        coordinator.complete(dispatch, actual);
        assert_eq!(coordinator.resources().used().cpu_units, 0);
        assert_eq!(coordinator.resources().used().io_domains.len(), 0);

        // The other task has as many turns of cost one as the first one was charged.
        for _ in 0..charged + 1 {
            coordinator.enqueue(stage("busy", "root", 1, 1, "a"));
            coordinator.enqueue(stage("other", "root", 1, 1, "b"));
        }
        let mut turns = 0;
        loop {
            let dispatch = coordinator.dispatch_next().unwrap();
            let first = dispatch.stage.task_id == "busy";
            coordinator.complete(dispatch, 1);
            if first {
                break;
            }
            turns += 1;
        }
        assert_eq!(turns, charged);
    }
}

#[test]
fn lease_of_a_removed_task_is_given_back() {
    let mut coordinator = coordinator();
    coordinator.submit("task".to_string(), TaskPriority::Normal);
    coordinator.enqueue(stage("task", "root", 5, 2, "a"));
    let dispatch = coordinator.dispatch_next().unwrap();
    coordinator.remove("task");
    coordinator.complete(dispatch, 9);
    assert_eq!(coordinator.resources().used().cpu_units, 0);
    assert_eq!(coordinator.resources().used().io_domains.len(), 0);
}
