//! Limits on what one task may write.

use smartzip::budget::{
    check_free_space, end_watch, next_walk, walk_is_due, watch_plan, watches_free_space,
    ExtractionLimits, InventoryFile, LimitExceeded, OutputInventory, TaskBudget, TreeEntry,
    TreeWalk, Usage, WatchNews, WatchPhase, WATCH_PERIOD,
};
use smartzip::execution::TaskBudgetSnapshot;
use smartzip::layout::{LayoutDecisionReason, LayoutPlan, LayoutPlanKind, PlanSource};

fn no_limits() -> ExtractionLimits {
    ExtractionLimits {
        max_files: 0,
        max_output_bytes: 0,
        min_free_bytes: 0,
        max_nested_candidates: 10_000,
    }
}

fn fresh() -> TaskBudget {
    TaskBudget::from_snapshot(TaskBudgetSnapshot {
        output_files: 0,
        output_bytes: 0,
        nested_candidates: 0,
    })
}

fn entry(path: &str, is_file: bool, len: u64) -> TreeEntry {
    TreeEntry { relative_path: path.to_string(), is_file, len }
}

#[test]
fn disabled_disk_limit_does_not_inspect_the_filesystem() {
    assert!(!watches_free_space(&no_limits()));
    assert_eq!(check_free_space(0, &no_limits()), Ok(()));
}

#[test]
fn default_limits_accept_large_outputs() {
    let mut budget = fresh();
    let attempt = budget.reserve_attempt();
    let usage = Usage { files: 200_000, bytes: 100 * 1024 * 1024 * 1024 };
    assert_eq!(budget.update(&attempt, usage, &no_limits()), Ok(()));
}

#[test]
fn output_inventory_accepts_links_without_following_them() {
    let mut walk = TreeWalk::new(Usage::default(), false);
    for (path, is_file, len) in [
        ("file", true, 5),
        ("hard", true, 5),
        ("link", false, 4),
        ("dangling", false, 7),
        ("loop", false, 1),
    ] {
        walk.visit(entry(path, is_file, len), &no_limits()).unwrap();
    }
    assert_eq!(walk.finish("/root".to_string()).usage, Usage { files: 5, bytes: 10 });
}

fn plan(source: PlanSource, kind: LayoutPlanKind) -> LayoutPlan {
    LayoutPlan {
        source,
        kind,
        target: "/published/wrapper".to_string(),
        reason: LayoutDecisionReason::SingleDirGoodName,
        warnings: Vec::new(),
    }
}

fn file(path: &str, size: u64) -> InventoryFile {
    InventoryFile { relative_path: path.to_string(), size }
}

fn staged() -> OutputInventory {
    OutputInventory {
        root: "/tmp/smartzip-staging".to_string(),
        usage: Usage::default(),
        files: vec![file("wrapper/nested.zip", 123), file("ignored.txt", 7)],
    }
}

#[test]
fn published_inventory_follows_the_selected_layout_source() {
    let plan = plan(
        PlanSource::SingleDir("/tmp/smartzip-staging/wrapper".to_string()),
        LayoutPlanKind::CommitSingleDirAsInnerName,
    );
    assert_eq!(staged().published_files(&plan).unwrap(), vec![file("nested.zip", 123)]);
}

#[test]
fn whole_tree_publishes_all_files() {
    let whole = plan(PlanSource::WholeTempDir, LayoutPlanKind::Empty);
    assert_eq!(staged().published_files(&whole).unwrap().len(), 2);
    let both = plan(
        PlanSource::SingleDir("/elsewhere".to_string()),
        LayoutPlanKind::PreserveBothSingleDir,
    );
    assert_eq!(staged().published_files(&both).unwrap().len(), 2);
    let outside = plan(
        PlanSource::SingleDir("/elsewhere".to_string()),
        LayoutPlanKind::CommitSingleDirAsInnerName,
    );
    assert!(staged().published_files(&outside).is_none());
}

#[test]
fn task_budget_counts_concurrent_roots_and_nested_candidates_once() {
    let mut budget = fresh();
    let limits = ExtractionLimits {
        max_files: 10,
        max_output_bytes: 20,
        min_free_bytes: 0,
        max_nested_candidates: 2,
    };
    let mut first = budget.reserve_attempt();
    let mut second = budget.reserve_attempt();
    budget.update(&first, Usage { files: 1, bytes: 15 }, &limits).unwrap();
    assert!(budget.update(&second, Usage { files: 1, bytes: 6 }, &limits).is_err());
    budget.update(&second, Usage { files: 1, bytes: 5 }, &limits).unwrap();
    budget.commit(&mut first);
    budget.commit(&mut second);

    assert!(budget.reserve_nested(limits.max_nested_candidates));
    assert!(budget.reserve_nested(limits.max_nested_candidates));
    assert!(!budget.reserve_nested(limits.max_nested_candidates));
    budget.release_nested();
    assert!(budget.reserve_nested(limits.max_nested_candidates));
}

#[test]
fn released_attempt_leaves_nothing() {
    let mut budget = fresh();
    let limits = ExtractionLimits { max_output_bytes: 10, ..no_limits() };
    let first = budget.reserve_attempt();
    budget.update(&first, Usage { files: 1, bytes: 10 }, &limits).unwrap();
    let mut second = budget.reserve_attempt();
    assert!(budget.update(&second, Usage { files: 1, bytes: 1 }, &limits).is_err());
    budget.release(first);
    budget.update(&second, Usage { files: 1, bytes: 1 }, &limits).unwrap();
    assert!(!second.committed());
    assert_eq!(budget.commit(&mut second), Usage { files: 1, bytes: 1 });
    assert!(second.committed());
}

#[test]
fn budget_goes_on_from_its_snapshot() {
    let mut budget = TaskBudget::from_snapshot(TaskBudgetSnapshot {
        output_files: 3,
        output_bytes: 9,
        nested_candidates: 1,
    });
    let limits = ExtractionLimits { max_output_bytes: 10, ..no_limits() };
    let attempt = budget.reserve_attempt();
    assert_eq!(
        budget.update(&attempt, Usage { files: 1, bytes: 2 }, &limits),
        Err(LimitExceeded::Bytes(10))
    );
    assert!(!budget.reserve_nested(1));
}

#[test]
fn cumulative_count_and_bytes_are_enforced() {
    let limits = ExtractionLimits { max_files: 1, max_output_bytes: 8, ..no_limits() };
    let mut by_count = TreeWalk::new(Usage { files: 1, bytes: 0 }, false);
    assert!(by_count.visit(entry("file", true, 5), &limits).is_err());
    let mut by_bytes = TreeWalk::new(Usage { files: 0, bytes: 4 }, false);
    assert!(by_bytes.visit(entry("file", true, 5), &limits).is_err());
    let mut fits = TreeWalk::new(Usage::default(), true);
    assert!(fits.visit(entry("file", true, 5), &limits).is_ok());
    assert_eq!(fits.files, vec![file("file", 5)]);
}

#[test]
fn limits_have_words() {
    assert_eq!(LimitExceeded::Entries(3).describe(), "output entry limit 3 exceeded");
    assert_eq!(LimitExceeded::Bytes(4).describe(), "output byte limit 4 exceeded");
    assert_eq!(LimitExceeded::FreeSpace(5).describe(), "free disk space fell below 5 bytes");
    assert_eq!(LimitExceeded::NestedCandidates.describe(), "nested candidate limit exceeded");
}

#[test]
fn free_space_is_kept() {
    let limits = ExtractionLimits { min_free_bytes: 100, ..no_limits() };
    assert_eq!(check_free_space(99, &limits), Err(LimitExceeded::FreeSpace(100)));
    assert_eq!(check_free_space(100, &limits), Ok(()));
}

#[test]
fn only_limits_that_apply_are_watched() {
    assert!(!watch_plan(&no_limits()).polls);
    let space = watch_plan(&ExtractionLimits { min_free_bytes: 1, ..no_limits() });
    assert!(space.polls && !space.walks_tree);
    let tree = watch_plan(&ExtractionLimits { max_files: 1, ..no_limits() });
    assert!(tree.polls && tree.walks_tree);
    assert!(walk_is_due(tree, 5, 5) && !walk_is_due(tree, 4, 5) && !walk_is_due(space, 5, 5));
    assert_eq!(next_walk(10, 1), 10 + WATCH_PERIOD);
    assert_eq!(next_walk(10, WATCH_PERIOD), 10 + 4 * WATCH_PERIOD);
}

#[test]
fn watch_ends_with_a_last_count() {
    let mut budget = fresh();
    let limits = ExtractionLimits { max_output_bytes: 10, ..no_limits() };
    let reservation = budget.reserve_attempt();
    let usage = Usage { files: 2, bytes: 10 };
    let running = WatchNews::Looked { cancelled: false };
    let stopped = WatchNews::Looked { cancelled: true };
    let mut step = |phase, news| end_watch(phase, news, &mut budget, &reservation, &limits);

    assert_eq!(step(WatchPhase::Extracted, stopped), WatchPhase::Cancelled);
    assert_eq!(step(WatchPhase::Extracted, WatchNews::Counted { usage }), WatchPhase::Extracted);
    let counting = step(WatchPhase::Extracted, running);
    assert_eq!(counting, WatchPhase::Counting);
    let large = WatchNews::Counted { usage: Usage { files: 1, bytes: 11 } };
    assert_eq!(step(counting, large), WatchPhase::Exceeded(LimitExceeded::Bytes(10)));
    let reserved = step(counting, WatchNews::Counted { usage });
    assert_eq!(reserved, WatchPhase::Reserved(usage));
    assert_eq!(step(reserved, stopped), WatchPhase::Cancelled);
    assert_eq!(step(reserved, running), WatchPhase::Done(usage));

    let mut reservation = reservation;
    assert_eq!(budget.commit(&mut reservation), usage);
}
