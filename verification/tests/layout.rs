//! Where extracted content goes.

use smartzip::layout::{
    decide_single_dir, decide_single_file, pick_best_duplicate_name, plan_layout,
    scan_visible_top_level, LayoutDecisionReason, LayoutPlan, LayoutPlanKind, LayoutRequest,
    NameEvidence, OutputLayoutPolicy, PlanSource, SingleRootNamePolicy, TopLevelItemSummary,
    TopLevelShape,
};

const MARGIN: f64 = 10.0;

fn is_generic(name: &str) -> bool {
    ["files", "downloads", "download", "images", "archive"].contains(&name)
}

/// A stand-in for the score of a name: the longer one says more, a generic one nothing.
fn score(name: &str) -> f64 {
    if is_generic(name) {
        0.0
    } else {
        name.len() as f64
    }
}

fn evidence(inner: &str, archive: &str) -> NameEvidence {
    NameEvidence {
        inner_is_generic: is_generic(inner),
        archive_is_generic: is_generic(archive),
        equivalent: inner == archive,
        inner_scores_higher: score(inner) > score(archive),
        inner_scores_clearly_higher: score(inner) > score(archive) + MARGIN,
        has_archive_extension: inner.ends_with(".zip"),
    }
}

fn make_item(name: &str, is_dir: bool) -> TopLevelItemSummary {
    TopLevelItemSummary { name: name.to_string(), path: name.to_string(), is_dir }
}

fn make_request(
    shape: TopLevelShape,
    archive_stem: &str,
    policy: OutputLayoutPolicy,
    single_policy: SingleRootNamePolicy,
) -> LayoutRequest {
    let output = "/tmp/smartzip-layout-test-output".to_string();
    LayoutRequest {
        shape,
        archive_path: format!("{output}/{archive_stem}.zip"),
        archive_stem: archive_stem.to_string(),
        output_root: output,
        layout_policy: policy,
        single_root_name_policy: single_policy,
    }
}

fn under(req: &LayoutRequest, name: &str) -> String {
    format!("{}/{}", req.output_root, name)
}

fn plan(req: &LayoutRequest) -> LayoutPlan {
    let inner = match &req.shape {
        TopLevelShape::SingleDir(item) | TopLevelShape::SingleFile(item) => item.name.as_str(),
        _ => "",
    };
    plan_layout(req, &evidence(inner, &req.archive_stem))
}

#[test]
fn scan_empty_dir() {
    assert_eq!(scan_visible_top_level(vec![]), TopLevelShape::Empty);
}

#[test]
fn scan_filters_metadata_entries() {
    let shape = scan_visible_top_level(vec![
        make_item("__MACOSX", false),
        make_item(".DS_Store", false),
        make_item("Thumbs.db", false),
        make_item("desktop.ini", false),
        make_item(".AppleDouble", false),
        make_item(".LSOverride", false),
        make_item("real_file.txt", false),
    ]);
    match &shape {
        TopLevelShape::SingleFile(item) => {
            assert_eq!(item.name, "real_file.txt");
            assert!(!item.is_dir);
        }
        other => panic!("expected SingleFile, got {:?}", other),
    }
}

#[test]
fn scan_multiple_items() {
    let shape = scan_visible_top_level(vec![
        make_item("a.txt", false),
        make_item("b.txt", false),
        make_item("__MACOSX", false),
    ]);
    match &shape {
        TopLevelShape::Multiple { items, count } => {
            assert_eq!(*count, 2);
            assert_eq!(items.len(), 2);
            let names: Vec<&str> = items.iter().map(|i| i.name.as_str()).collect();
            assert!(names.contains(&"a.txt"));
            assert!(names.contains(&"b.txt"));
        }
        other => panic!("expected Multiple, got {:?}", other),
    }
}

#[test]
fn scan_single_dir() {
    let shape = scan_visible_top_level(vec![make_item("MyProject", true)]);
    match &shape {
        TopLevelShape::SingleDir(item) => {
            assert_eq!(item.name, "MyProject");
            assert!(item.is_dir);
        }
        other => panic!("expected SingleDir, got {:?}", other),
    }
}

#[test]
fn plan_multiple_items_commit_archive_dir() {
    let items = vec![
        make_item("a.txt", false),
        make_item("b.txt", false),
    ];
    let req = make_request(
        TopLevelShape::Multiple {
            count: items.len(),
            items,
        },
        "my-archive",
        OutputLayoutPolicy::Smart,
        SingleRootNamePolicy::PreferArchiveName,
    );
    let plan = plan(&req);
    assert_eq!(plan.source, PlanSource::WholeTempDir);
    assert_eq!(
        plan.kind,
        LayoutPlanKind::CommitWholeTempAsArchiveDir {
            name: "my-archive".to_string()
        }
    );
    assert_eq!(plan.reason, LayoutDecisionReason::MultipleTopLevelItems);
}

#[test]
fn plan_raw_policy_always_raw_archive_dir() {
    let items = vec![
        make_item("a.txt", false),
        make_item("b.txt", false),
    ];
    let req = make_request(
        TopLevelShape::Multiple {
            count: items.len(),
            items,
        },
        "archive",
        OutputLayoutPolicy::Raw,
        SingleRootNamePolicy::PreferArchiveName,
    );
    let plan = plan(&req);
    assert_eq!(plan.source, PlanSource::WholeTempDir);
    assert_eq!(
        plan.kind,
        LayoutPlanKind::RawArchiveDir {
            name: "archive".to_string()
        }
    );
    assert_eq!(plan.reason, LayoutDecisionReason::RawPolicyForced);
}

#[test]
fn plan_empty_shape() {
    let req = make_request(
        TopLevelShape::Empty,
        "archive",
        OutputLayoutPolicy::Smart,
        SingleRootNamePolicy::PreferArchiveName,
    );
    let plan = plan(&req);
    assert_eq!(plan.source, PlanSource::WholeTempDir);
    assert_eq!(plan.kind, LayoutPlanKind::Empty);
    assert_eq!(plan.reason, LayoutDecisionReason::EmptyTempDir);
}

#[test]
fn plan_single_generic_dir_flattens_contents_with_auto() {
    let item = make_item("files", true);
    let req = make_request(
        TopLevelShape::SingleDir(item),
        "my-project-v2.0",
        OutputLayoutPolicy::Smart,
        SingleRootNamePolicy::Auto,
    );
    let plan = plan(&req);
    assert_eq!(
        plan.source,
        PlanSource::SingleDirContents("files".to_string())
    );
    assert_eq!(
        plan.kind,
        LayoutPlanKind::CommitSingleDirContentsAsArchiveName
    );
    assert_eq!(plan.target, under(&req, "my-project-v2.0"));
    assert_eq!(plan.reason, LayoutDecisionReason::SingleDirGenericName);
}

#[test]
fn plan_prefer_archive_name_wraps_single_dir() {
    let item = make_item("MyProject", true);
    let req = make_request(
        TopLevelShape::SingleDir(item),
        "my-archive",
        OutputLayoutPolicy::Smart,
        SingleRootNamePolicy::PreferArchiveName,
    );
    let plan = plan(&req);
    assert_eq!(
        plan.kind,
        LayoutPlanKind::CommitSingleDirContentsAsArchiveName
    );
    assert_eq!(
        plan.source,
        PlanSource::SingleDirContents("MyProject".to_string())
    );
    assert_eq!(plan.target, under(&req, "my-archive"));
    assert_eq!(plan.reason, LayoutDecisionReason::DefaultConservative);
}

#[test]
fn plan_prefer_inner_name_collapses_single_dir() {
    let item = make_item("MyProject", true);
    let req = make_request(
        TopLevelShape::SingleDir(item),
        "my-archive",
        OutputLayoutPolicy::Smart,
        SingleRootNamePolicy::PreferInnerName,
    );
    let plan = plan(&req);
    assert_eq!(
        plan.source,
        PlanSource::SingleDir("MyProject".to_string())
    );
    assert_eq!(plan.kind, LayoutPlanKind::CommitSingleDirAsInnerName);
    assert_eq!(plan.target, under(&req, "MyProject"));
    assert_eq!(plan.reason, LayoutDecisionReason::SingleDirGoodName);
}

#[test]
fn plan_preserve_both_single_dir() {
    let item = make_item("MyProject", true);
    let req = make_request(
        TopLevelShape::SingleDir(item),
        "my-archive",
        OutputLayoutPolicy::Smart,
        SingleRootNamePolicy::PreserveBoth,
    );
    let plan = plan(&req);
    assert_eq!(
        plan.source,
        PlanSource::SingleDir("MyProject".to_string())
    );
    assert_eq!(plan.kind, LayoutPlanKind::PreserveBothSingleDir);
    assert_eq!(plan.target, under(&req, "my-archive"));
    assert_eq!(plan.reason, LayoutDecisionReason::SingleDirGoodName);
}

#[test]
fn plan_single_generic_archive_uses_inner_name() {
    let item = make_item("The Great Gatsby", true);
    let req = make_request(
        TopLevelShape::SingleDir(item),
        "archive",
        OutputLayoutPolicy::Smart,
        SingleRootNamePolicy::Auto,
    );
    let plan = plan(&req);
    assert_eq!(plan.kind, LayoutPlanKind::CommitSingleDirAsInnerName);
    assert_eq!(plan.reason, LayoutDecisionReason::SingleDirGoodName);
}

#[test]
fn plan_single_dir_similar_to_archive_collapses() {
    let item = make_item("project-release", true);
    let req = make_request(
        TopLevelShape::SingleDir(item),
        "project-release",
        OutputLayoutPolicy::Smart,
        SingleRootNamePolicy::Auto,
    );
    let plan = plan(&req);
    assert_eq!(plan.kind, LayoutPlanKind::CommitSingleDirAsInnerName);
    assert_eq!(plan.reason, LayoutDecisionReason::SingleDirSimilarToArchive);
}

#[test]
fn plan_single_dir_good_name_beats_archive() {
    let item = make_item(
        "The Great Gatsby - F. Scott Fitzgerald (2024 Edition)",
        true,
    );
    let req = make_request(
        TopLevelShape::SingleDir(item),
        "book",
        OutputLayoutPolicy::Smart,
        SingleRootNamePolicy::Auto,
    );
    let plan = plan(&req);
    assert_eq!(plan.kind, LayoutPlanKind::CommitSingleDirAsInnerName);
    assert_eq!(plan.reason, LayoutDecisionReason::SingleDirGoodName);
}

#[test]
fn plan_single_file_generic_name_uses_archive() {
    let item = make_item("downloads", false);
    let req = make_request(
        TopLevelShape::SingleFile(item),
        "my-project",
        OutputLayoutPolicy::Smart,
        SingleRootNamePolicy::Auto,
    );
    let plan = plan(&req);
    assert_eq!(plan.kind, LayoutPlanKind::CommitSingleFileAsArchiveName);
    assert_eq!(plan.target, under(&req, "my-project"));
    assert_eq!(plan.reason, LayoutDecisionReason::SingleFileGenericName);
}

#[test]
fn plan_single_file_good_name_collapses() {
    let item = make_item(
        "The Great Gatsby - F. Scott Fitzgerald.pdf",
        false,
    );
    let req = make_request(
        TopLevelShape::SingleFile(item),
        "archive",
        OutputLayoutPolicy::Smart,
        SingleRootNamePolicy::Auto,
    );
    let plan = plan(&req);
    assert_eq!(plan.kind, LayoutPlanKind::CommitSingleFileAsInnerName);
    assert_eq!(plan.reason, LayoutDecisionReason::SingleFileGoodName);
}

#[test]
fn plan_single_file_archive_ext_beats_generic_archive() {
    let item = make_item(
        "The Great Gatsby - F. Scott Fitzgerald.zip",
        false,
    );
    let req = make_request(
        TopLevelShape::SingleFile(item),
        "abc",
        OutputLayoutPolicy::Smart,
        SingleRootNamePolicy::Auto,
    );
    let plan = plan(&req);
    assert_eq!(plan.kind, LayoutPlanKind::CommitSingleFileAsInnerName);
    assert_eq!(
        plan.target,
        under(&req, "The Great Gatsby - F. Scott Fitzgerald.zip")
    );
    assert_eq!(
        plan.reason,
        LayoutDecisionReason::SingleFileArchiveExtension
    );
}

#[test]
fn plan_prefer_archive_name_renames_single_file() {
    let item = make_item("document.pdf", false);
    let req = make_request(
        TopLevelShape::SingleFile(item),
        "download",
        OutputLayoutPolicy::Smart,
        SingleRootNamePolicy::PreferArchiveName,
    );
    let plan = plan(&req);
    assert_eq!(
        plan.source,
        PlanSource::SingleFile("document.pdf".to_string())
    );
    assert_eq!(plan.kind, LayoutPlanKind::CommitSingleFileAsArchiveName);
    assert_eq!(plan.target, under(&req, "download.pdf"));
    assert_eq!(plan.reason, LayoutDecisionReason::DefaultConservative);
}

#[test]
fn plan_prefer_inner_name_keeps_single_file() {
    let item = make_item("document.pdf", false);
    let req = make_request(
        TopLevelShape::SingleFile(item),
        "download",
        OutputLayoutPolicy::Smart,
        SingleRootNamePolicy::PreferInnerName,
    );
    let plan = plan(&req);
    assert_eq!(plan.kind, LayoutPlanKind::CommitSingleFileAsInnerName);
    assert_eq!(plan.target, under(&req, "document.pdf"));
    assert_eq!(plan.reason, LayoutDecisionReason::SingleFileGoodName);
}

#[test]
fn plan_preserve_both_single_file() {
    let item = make_item("document.pdf", false);
    let req = make_request(
        TopLevelShape::SingleFile(item),
        "download",
        OutputLayoutPolicy::Smart,
        SingleRootNamePolicy::PreserveBoth,
    );
    let plan = plan(&req);
    assert_eq!(plan.kind, LayoutPlanKind::PreserveBothSingleFile);
    assert_eq!(plan.target, under(&req, "download"));
    assert_eq!(plan.reason, LayoutDecisionReason::SingleFileGoodName);
}

#[test]
fn plan_auto_policy_prefers_inner_name() {
    let item = make_item("The Great Gatsby", true);
    let req = make_request(
        TopLevelShape::SingleDir(item),
        "archive",
        OutputLayoutPolicy::Smart,
        SingleRootNamePolicy::Auto,
    );
    let plan = plan(&req);
    assert_eq!(plan.kind, LayoutPlanKind::CommitSingleDirAsInnerName);
    assert_eq!(plan.reason, LayoutDecisionReason::SingleDirGoodName);
}

#[test]
fn plan_flat_single_policy_empty() {
    let req = make_request(
        TopLevelShape::Empty,
        "archive",
        OutputLayoutPolicy::FlatSingle,
        SingleRootNamePolicy::Auto,
    );
    let plan = plan(&req);
    assert_eq!(plan.kind, LayoutPlanKind::Empty);
    assert_eq!(plan.reason, LayoutDecisionReason::EmptyTempDir);
}

#[test]
fn plan_flat_single_collapses_single_dir() {
    let item = make_item("MyProject", true);
    let req = make_request(
        TopLevelShape::SingleDir(item),
        "archive",
        OutputLayoutPolicy::FlatSingle,
        SingleRootNamePolicy::Auto,
    );
    let plan = plan(&req);
    assert_eq!(plan.kind, LayoutPlanKind::CommitSingleDirAsInnerName);
    assert_eq!(
        plan.source,
        PlanSource::SingleDir("MyProject".to_string())
    );
    assert_eq!(plan.target, under(&req, "MyProject"));
}

#[test]
fn plan_flat_single_collapses_single_file() {
    let item = make_item("document.pdf", false);
    let req = make_request(
        TopLevelShape::SingleFile(item),
        "archive",
        OutputLayoutPolicy::FlatSingle,
        SingleRootNamePolicy::Auto,
    );
    let plan = plan(&req);
    assert_eq!(plan.kind, LayoutPlanKind::CommitSingleFileAsInnerName);
    assert_eq!(
        plan.source,
        PlanSource::SingleFile("document.pdf".to_string())
    );
    assert_eq!(plan.target, under(&req, "document.pdf"));
}

#[test]
fn plan_flat_single_wraps_multiple() {
    let items = vec![
        make_item("a.txt", false),
        make_item("b.txt", false),
    ];
    let req = make_request(
        TopLevelShape::Multiple {
            count: items.len(),
            items,
        },
        "archive",
        OutputLayoutPolicy::FlatSingle,
        SingleRootNamePolicy::Auto,
    );
    let plan = plan(&req);
    assert_eq!(
        plan.kind,
        LayoutPlanKind::CommitWholeTempAsArchiveDir {
            name: "archive".to_string()
        }
    );
    assert_eq!(plan.reason, LayoutDecisionReason::MultipleTopLevelItems);
}

#[test]
fn plan_prefer_archive_name_always_wraps_single_dir() {
    let item = make_item(
        "The Great Gatsby - F. Scott Fitzgerald",
        true,
    );
    let req = make_request(
        TopLevelShape::SingleDir(item),
        "downloads",
        OutputLayoutPolicy::Smart,
        SingleRootNamePolicy::PreferArchiveName,
    );
    let plan = plan(&req);
    assert_eq!(
        plan.kind,
        LayoutPlanKind::CommitSingleDirContentsAsArchiveName
    );
    assert_eq!(
        plan.source,
        PlanSource::SingleDirContents("The Great Gatsby - F. Scott Fitzgerald".to_string())
    );
    assert_eq!(plan.target, under(&req, "downloads"));
}

#[test]
fn plan_prefer_inner_name_always_collapses_dir() {
    let item = make_item("downloads", true);
    let req = make_request(
        TopLevelShape::SingleDir(item),
        "The Great Gatsby",
        OutputLayoutPolicy::Smart,
        SingleRootNamePolicy::PreferInnerName,
    );
    let plan = plan(&req);
    assert_eq!(plan.kind, LayoutPlanKind::CommitSingleDirAsInnerName);
    assert_eq!(
        plan.source,
        PlanSource::SingleDir("downloads".to_string())
    );
    assert_eq!(plan.target, under(&req, "downloads"));
}

#[test]
fn plan_prefer_archive_name_always_renames_single_file() {
    let item = make_item("The Great Gatsby.pdf", false);
    let req = make_request(
        TopLevelShape::SingleFile(item),
        "downloads",
        OutputLayoutPolicy::Smart,
        SingleRootNamePolicy::PreferArchiveName,
    );
    let plan = plan(&req);
    assert_eq!(plan.kind, LayoutPlanKind::CommitSingleFileAsArchiveName);
    assert_eq!(plan.target, under(&req, "downloads.pdf"));
}

#[test]
fn plan_prefer_inner_name_always_keeps_single_file() {
    let item = make_item("downloads.pdf", false);
    let req = make_request(
        TopLevelShape::SingleFile(item),
        "The Great Gatsby",
        OutputLayoutPolicy::Smart,
        SingleRootNamePolicy::PreferInnerName,
    );
    let plan = plan(&req);
    assert_eq!(plan.kind, LayoutPlanKind::CommitSingleFileAsInnerName);
    assert_eq!(plan.target, under(&req, "downloads.pdf"));
}

#[test]
fn plan_layout_populates_warnings() {
    let req = make_request(
        TopLevelShape::Empty,
        "archive",
        OutputLayoutPolicy::Smart,
        SingleRootNamePolicy::Auto,
    );
    let plan = plan(&req);
    assert!(plan.warnings.is_empty());
}

#[test]
fn layout_flat_single_dir_targets_output_root_inner_dir() {
    let item = make_item("ProjectName", true);
    let req = make_request(
        TopLevelShape::SingleDir(item),
        "archive",
        OutputLayoutPolicy::FlatSingle,
        SingleRootNamePolicy::Auto,
    );
    let plan = plan(&req);
    assert_eq!(plan.kind, LayoutPlanKind::CommitSingleDirAsInnerName);
    assert_eq!(plan.target, under(&req, "ProjectName"));
}

#[test]
fn layout_flat_single_file_targets_output_root_file() {
    let item = make_item("doc.pdf", false);
    let req = make_request(
        TopLevelShape::SingleFile(item),
        "archive",
        OutputLayoutPolicy::FlatSingle,
        SingleRootNamePolicy::Auto,
    );
    let plan = plan(&req);
    assert_eq!(plan.kind, LayoutPlanKind::CommitSingleFileAsInnerName);
    assert_eq!(plan.target, under(&req, "doc.pdf"));
}

#[test]
fn layout_prefer_archive_name_single_dir_flattens_contents() {
    let item = make_item("images", true);
    let req = make_request(
        TopLevelShape::SingleDir(item),
        "archive",
        OutputLayoutPolicy::Smart,
        SingleRootNamePolicy::PreferArchiveName,
    );
    let plan = plan(&req);
    assert_eq!(
        plan.kind,
        LayoutPlanKind::CommitSingleDirContentsAsArchiveName
    );
    assert_eq!(plan.target, under(&req, "archive"));
    assert_eq!(
        plan.source,
        PlanSource::SingleDirContents("images".to_string())
    );
}

fn pick<'a>(names: &Vec<&'a str>) -> Option<&'a str> {
    let ranks: Vec<u32> = names.iter().map(|name| score(name) as u32).collect();
    pick_best_duplicate_name(names, &ranks)
}

#[test]
fn pick_best_duplicate_prefers_scored_name() {
    let names = vec!["files", "The Great Gatsby"];
    let best = pick(&names).unwrap();
    assert_eq!(best, "The Great Gatsby");
}

#[test]
fn pick_best_duplicate_empty_list() {
    let names: Vec<&str> = vec![];
    assert!(pick(&names).is_none());
}

#[test]
fn pick_best_duplicate_single_item() {
    let names = vec!["only-one"];
    let best = pick(&names).unwrap();
    assert_eq!(best, "only-one");
}

#[test]
fn last_of_equal_duplicates_is_picked() {
    let names = vec!["aa", "bb", "c"];
    assert_eq!(pick(&names), Some("bb"));
}

#[test]
fn default_layout_policies() {
    assert_eq!(OutputLayoutPolicy::default(), OutputLayoutPolicy::Conservative);
    assert_eq!(SingleRootNamePolicy::default(), SingleRootNamePolicy::Auto);
}

#[test]
fn names_of_equal_worth_keep_the_whole_tree() {
    let req = make_request(
        TopLevelShape::SingleDir(make_item("abcdef", true)),
        "uvwxyz",
        OutputLayoutPolicy::Smart,
        SingleRootNamePolicy::AskWhenAmbiguous,
    );
    let by_dir = decide_single_dir(&req, &make_item("abcdef", true), &evidence("abcdef", "uvwxyz"));
    assert_eq!(by_dir.reason, LayoutDecisionReason::DefaultConservative);
    assert_eq!(by_dir.source, PlanSource::WholeTempDir);
    assert_eq!(by_dir.target, under(&req, "uvwxyz"));
    let by_file =
        decide_single_file(&req, &make_item("abcdef", false), &evidence("abcdef", "uvwxyz"));
    assert_eq!(by_file.reason, LayoutDecisionReason::DefaultConservative);
    assert_eq!(by_file.source, PlanSource::WholeTempDir);
}

#[test]
fn single_file_named_like_its_archive_stays() {
    let req = make_request(
        TopLevelShape::SingleFile(make_item("same", false)),
        "same",
        OutputLayoutPolicy::Smart,
        SingleRootNamePolicy::Auto,
    );
    let plan = plan(&req);
    assert_eq!(plan.reason, LayoutDecisionReason::SingleFileSimilarToArchive);
    assert_eq!(plan.target, under(&req, "same"));
}

#[test]
fn explicit_policy_ignores_names_here() {
    for policy in [
        SingleRootNamePolicy::PreferArchiveName,
        SingleRootNamePolicy::PreferInnerName,
        SingleRootNamePolicy::PreserveBoth,
    ] {
        let req = make_request(
            TopLevelShape::SingleDir(make_item("inner", true)),
            "outer",
            OutputLayoutPolicy::Smart,
            policy,
        );
        let a = plan_layout(&req, &evidence("files", "outer"));
        let b = plan_layout(&req, &evidence("outer", "outer"));
        assert_eq!(a, b);
    }
}

#[test]
fn scan_nonexistent_dir() {
    // A directory that cannot be read has no entries.
    assert_eq!(scan_visible_top_level(Vec::new()), TopLevelShape::Empty);
}

#[test]
fn raw_policy_comes_before_name_policies() {
    let item = make_item("inner", true);
    let req = make_request(
        TopLevelShape::SingleDir(make_item("inner", true)),
        "outer",
        OutputLayoutPolicy::Raw,
        SingleRootNamePolicy::PreferInnerName,
    );
    let by_dir = decide_single_dir(&req, &item, &evidence("inner", "outer"));
    assert_eq!(by_dir.reason, LayoutDecisionReason::RawPolicyForced);
    assert_eq!(by_dir.target, under(&req, "outer"));
    assert_eq!(by_dir, decide_single_file(&req, &item, &evidence("inner", "outer")));
    assert_eq!(by_dir, plan_layout(&req, &evidence("inner", "outer")));
}
