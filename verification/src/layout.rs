//! Where extracted content goes: under the archive's name, or under that of the one thing in it.

use vstd::prelude::*;
use vstd::string::*;
use crate::path::{join, path_extension};
use crate::text::same_text;

verus! {

/// How extracted content is placed.
#[derive(Clone, Copy, Debug, PartialEq, Eq, Structural)]
pub enum OutputLayoutPolicy {
    Smart,
    Raw,
    Conservative,
    /// A single top-level item goes straight into the output directory.
    FlatSingle,
}

impl Default for OutputLayoutPolicy {
    fn default() -> (r: Self)
        ensures
            r == OutputLayoutPolicy::Conservative,
    {
        OutputLayoutPolicy::Conservative
    }
}

/// Which name a single top-level item gets.
#[derive(Clone, Copy, Debug, PartialEq, Eq, Structural)]
pub enum SingleRootNamePolicy {
    PreferArchiveName,
    PreferInnerName,
    Auto,
    PreserveBoth,
    AskWhenAmbiguous,
}

impl Default for SingleRootNamePolicy {
    fn default() -> (r: Self)
        ensures
            r == SingleRootNamePolicy::Auto,
    {
        SingleRootNamePolicy::Auto
    }
}

/// One item at the top of an extracted tree.
#[derive(Debug, PartialEq, Eq)]
pub struct TopLevelItemSummary {
    pub name: String,
    pub path: String,
    pub is_dir: bool,
}

/// What stands at the top of an extracted tree.
#[derive(Debug, PartialEq, Eq)]
pub enum TopLevelShape {
    Empty,
    SingleFile(TopLevelItemSummary),
    SingleDir(TopLevelItemSummary),
    Multiple { items: Vec<TopLevelItemSummary>, count: usize },
}

/// What the layout is planned from.
#[derive(Debug)]
pub struct LayoutRequest {
    pub shape: TopLevelShape,
    pub archive_path: String,
    pub archive_stem: String,
    pub output_root: String,
    pub layout_policy: OutputLayoutPolicy,
    pub single_root_name_policy: SingleRootNamePolicy,
}

/// How the name of a single item compares to that of its archive.
#[derive(Clone, Copy, Debug, PartialEq, Eq, Structural)]
pub struct NameEvidence {
    /// The item's name says nothing.
    pub inner_is_generic: bool,
    /// The archive's name says nothing.
    pub archive_is_generic: bool,
    /// The two names are the same for all that matters.
    pub equivalent: bool,
    /// The item's name scores higher.
    pub inner_scores_higher: bool,
    /// The item's name scores higher by more than the margin.
    pub inner_scores_clearly_higher: bool,
    /// The item is an archive by its extension.
    pub has_archive_extension: bool,
}

/// What is moved into place.
#[derive(Debug, PartialEq, Eq)]
pub enum PlanSource {
    WholeTempDir,
    SingleDir(String),
    SingleDirContents(String),
    SingleFile(String),
}

/// How it is moved.
#[derive(Debug, PartialEq, Eq)]
pub enum LayoutPlanKind {
    CommitWholeTempAsArchiveDir { name: String },
    CommitSingleDirContentsAsArchiveName,
    CommitSingleDirAsInnerName,
    CommitSingleFileAsArchiveName,
    CommitSingleFileAsInnerName,
    PreserveBothSingleDir,
    PreserveBothSingleFile,
    RawArchiveDir { name: String },
    Empty,
}

/// Why it is moved like that.
#[derive(Clone, Copy, Debug, PartialEq, Eq, Structural)]
pub enum LayoutDecisionReason {
    MultipleTopLevelItems,
    SingleDirGoodName,
    SingleDirGenericName,
    SingleDirSimilarToArchive,
    SingleFileGoodName,
    SingleFileGenericName,
    SingleFileSimilarToArchive,
    SingleFileArchiveExtension,
    RawPolicyForced,
    EmptyTempDir,
    DefaultConservative,
}

/// The decided layout.
#[derive(Debug, PartialEq, Eq)]
pub struct LayoutPlan {
    pub source: PlanSource,
    pub kind: LayoutPlanKind,
    pub target: String,
    pub reason: LayoutDecisionReason,
    pub warnings: Vec<String>,
}

/// A layout as a value: what, how, where to and why.
pub struct Planned {
    pub source: PlanSource,
    pub kind: LayoutPlanKind,
    pub target: Seq<char>,
    pub reason: LayoutDecisionReason,
}

impl LayoutPlan {
    /// The plan is this layout, without a warning.
    pub open spec fn is(&self, p: Planned) -> bool {
        &&& self.source == p.source
        &&& self.kind == p.kind
        &&& self.target@ == p.target
        &&& self.reason == p.reason
        &&& self.warnings@.len() == 0
    }
}

/// The entries that systems leave behind and that do not count.
pub open spec fn is_metadata(name: Seq<char>) -> bool {
    ||| name == "__MACOSX"@
    ||| name == ".DS_Store"@
    ||| name == "Thumbs.db"@
    ||| name == "desktop.ini"@
    ||| name == ".AppleDouble"@
    ||| name == ".LSOverride"@
}

/// The items that count, in order.
pub open spec fn visible(items: Seq<TopLevelItemSummary>) -> Seq<TopLevelItemSummary>
    decreases items.len(),
{
    if items.len() == 0 {
        Seq::empty()
    } else if is_metadata(items.last().name@) {
        visible(items.drop_last())
    } else {
        visible(items.drop_last()).push(items.last())
    }
}

fn metadata_name(name: &str) -> (r: bool)
    ensures
        r == is_metadata(name@),
{
    same_text(name, "__MACOSX") || same_text(name, ".DS_Store") || same_text(name, "Thumbs.db")
        || same_text(name, "desktop.ini") || same_text(name, ".AppleDouble") || same_text(
        name,
        ".LSOverride",
    )
}

/// What the entries of a directory amount to once those that do not count are left out.
pub fn scan_visible_top_level(entries: Vec<TopLevelItemSummary>) -> (r: TopLevelShape)
    ensures
        match r {
            TopLevelShape::Empty => visible(entries@).len() == 0,
            TopLevelShape::SingleDir(item) => visible(entries@) == seq![item] && item.is_dir,
            TopLevelShape::SingleFile(item) => visible(entries@) == seq![item] && !item.is_dir,
            TopLevelShape::Multiple { items, count } => {
                &&& items@ == visible(entries@)
                &&& count == items@.len()
                &&& count >= 2
            },
        },
{
    let ghost all = entries@;
    let mut rest = entries;
    let mut kept: Vec<TopLevelItemSummary> = Vec::new();
    let count: usize = rest.len();
    let mut done: usize = 0;
    assert(all.skip(0) =~= all);
    assert(all.take(0) =~= Seq::empty());
    while done < count
        invariant
            done <= count,
            count == all.len(),
            rest@ == all.skip(done as int),
            kept@ == visible(all.take(done as int)),
        decreases count - done,
    {
        let item = rest.remove(0);
        assert(item == all[done as int]);
        assert(rest@ =~= all.skip(done + 1));
        assert(all.take(done + 1).drop_last() =~= all.take(done as int));
        assert(all.take(done + 1).last() == item);
        if !metadata_name(item.name.as_str()) {
            kept.push(item);
        }
        done += 1;
    }
    assert(all.take(done as int) =~= all);
    let n: usize = kept.len();
    if n == 0 {
        TopLevelShape::Empty
    } else if n == 1 {
        let item = kept.remove(0);
        assert(visible(all) =~= seq![item]);
        if item.is_dir {
            TopLevelShape::SingleDir(item)
        } else {
            TopLevelShape::SingleFile(item)
        }
    } else {
        TopLevelShape::Multiple { items: kept, count: n }
    }
}

/// The extension of a path with its dot, or nothing.
pub open spec fn dotted_extension(path: Seq<char>) -> Seq<char> {
    match crate::path::extension(path) {
        Some(ext) => seq!['.'] + ext,
        None => Seq::empty(),
    }
}

/// The archive's directory under the output root, with the whole tree in it.
pub open spec fn whole_tree(req: LayoutRequest, reason: LayoutDecisionReason) -> Planned {
    Planned {
        source: PlanSource::WholeTempDir,
        kind: LayoutPlanKind::CommitWholeTempAsArchiveDir { name: req.archive_stem },
        target: crate::path::joined(req.output_root@, req.archive_stem@),
        reason,
    }
}

/// Nothing to move.
pub open spec fn nothing(req: LayoutRequest) -> Planned {
    Planned {
        source: PlanSource::WholeTempDir,
        kind: LayoutPlanKind::Empty,
        target: req.output_root@,
        reason: LayoutDecisionReason::EmptyTempDir,
    }
}

/// The single directory under its own name.
pub open spec fn dir_as_is(
    req: LayoutRequest,
    item: TopLevelItemSummary,
    reason: LayoutDecisionReason,
) -> Planned {
    Planned {
        source: PlanSource::SingleDir(item.path),
        kind: LayoutPlanKind::CommitSingleDirAsInnerName,
        target: crate::path::joined(req.output_root@, item.name@),
        reason,
    }
}

/// The contents of the single directory under the archive's name.
pub open spec fn dir_renamed(
    req: LayoutRequest,
    item: TopLevelItemSummary,
    reason: LayoutDecisionReason,
) -> Planned {
    Planned {
        source: PlanSource::SingleDirContents(item.path),
        kind: LayoutPlanKind::CommitSingleDirContentsAsArchiveName,
        target: crate::path::joined(req.output_root@, req.archive_stem@),
        reason,
    }
}

/// The single file under its own name.
pub open spec fn file_as_is(
    req: LayoutRequest,
    item: TopLevelItemSummary,
    reason: LayoutDecisionReason,
) -> Planned {
    Planned {
        source: PlanSource::SingleFile(item.path),
        kind: LayoutPlanKind::CommitSingleFileAsInnerName,
        target: crate::path::joined(req.output_root@, item.name@),
        reason,
    }
}

/// The single file under the archive's name, with its own extension.
pub open spec fn file_renamed(
    req: LayoutRequest,
    item: TopLevelItemSummary,
    reason: LayoutDecisionReason,
) -> Planned {
    Planned {
        source: PlanSource::SingleFile(item.path),
        kind: LayoutPlanKind::CommitSingleFileAsArchiveName,
        target: crate::path::joined(
            req.output_root@,
            req.archive_stem@ + dotted_extension(item.path@),
        ),
        reason,
    }
}

/// Everything, untouched, in a directory with the archive's name.
pub open spec fn raw_tree(req: LayoutRequest) -> Planned {
    Planned {
        source: PlanSource::WholeTempDir,
        kind: LayoutPlanKind::RawArchiveDir { name: req.archive_stem },
        target: crate::path::joined(req.output_root@, req.archive_stem@),
        reason: LayoutDecisionReason::RawPolicyForced,
    }
}

/// The layout of a single directory: as the policies say, else by what the names are worth.
pub open spec fn single_dir(
    req: LayoutRequest,
    item: TopLevelItemSummary,
    names: NameEvidence,
) -> Planned {
    if req.layout_policy == OutputLayoutPolicy::Raw {
        raw_tree(req)
    } else {
        match req.single_root_name_policy {
            SingleRootNamePolicy::PreferArchiveName => dir_renamed(
                req,
                item,
                LayoutDecisionReason::DefaultConservative,
            ),
            SingleRootNamePolicy::PreferInnerName => dir_as_is(
                req,
                item,
                LayoutDecisionReason::SingleDirGoodName,
            ),
            SingleRootNamePolicy::PreserveBoth => Planned {
                source: PlanSource::SingleDir(item.path),
                kind: LayoutPlanKind::PreserveBothSingleDir,
                target: crate::path::joined(req.output_root@, req.archive_stem@),
                reason: LayoutDecisionReason::SingleDirGoodName,
            },
            _ => if names.equivalent {
                dir_as_is(req, item, LayoutDecisionReason::SingleDirSimilarToArchive)
            } else if names.inner_is_generic {
                dir_renamed(req, item, LayoutDecisionReason::SingleDirGenericName)
            } else if names.archive_is_generic || names.inner_scores_clearly_higher {
                dir_as_is(req, item, LayoutDecisionReason::SingleDirGoodName)
            } else {
                whole_tree(req, LayoutDecisionReason::DefaultConservative)
            },
        }
    }
}

/// The layout of a single file: as the policies say, else by what the names are worth.
pub open spec fn single_file(
    req: LayoutRequest,
    item: TopLevelItemSummary,
    names: NameEvidence,
) -> Planned {
    if req.layout_policy == OutputLayoutPolicy::Raw {
        raw_tree(req)
    } else {
        match req.single_root_name_policy {
            SingleRootNamePolicy::PreferArchiveName => file_renamed(
                req,
                item,
                LayoutDecisionReason::DefaultConservative,
            ),
            SingleRootNamePolicy::PreferInnerName => file_as_is(
                req,
                item,
                LayoutDecisionReason::SingleFileGoodName,
            ),
            SingleRootNamePolicy::PreserveBoth => Planned {
                source: PlanSource::SingleFile(item.path),
                kind: LayoutPlanKind::PreserveBothSingleFile,
                target: crate::path::joined(req.output_root@, req.archive_stem@),
                reason: LayoutDecisionReason::SingleFileGoodName,
            },
            _ => if names.equivalent {
                file_as_is(req, item, LayoutDecisionReason::SingleFileSimilarToArchive)
            } else if names.inner_is_generic {
                file_renamed(req, item, LayoutDecisionReason::SingleFileGenericName)
            } else if names.archive_is_generic {
                file_as_is(req, item, LayoutDecisionReason::SingleFileGoodName)
            } else if names.has_archive_extension && names.inner_scores_higher {
                file_as_is(req, item, LayoutDecisionReason::SingleFileArchiveExtension)
            } else if names.inner_scores_clearly_higher {
                file_as_is(req, item, LayoutDecisionReason::SingleFileGoodName)
            } else {
                whole_tree(req, LayoutDecisionReason::DefaultConservative)
            },
        }
    }
}

/// The layout for a request.
pub open spec fn planned(req: LayoutRequest, names: NameEvidence) -> Planned {
    if req.layout_policy == OutputLayoutPolicy::Raw {
        raw_tree(req)
    } else {
        let flat = req.layout_policy == OutputLayoutPolicy::FlatSingle;
        match req.shape {
            TopLevelShape::Empty => nothing(req),
            TopLevelShape::Multiple { items, count } => whole_tree(
                req,
                LayoutDecisionReason::MultipleTopLevelItems,
            ),
            TopLevelShape::SingleDir(item) => if flat {
                dir_as_is(req, item, LayoutDecisionReason::SingleDirGoodName)
            } else {
                single_dir(req, item, names)
            },
            TopLevelShape::SingleFile(item) => if flat {
                file_as_is(req, item, LayoutDecisionReason::SingleFileGoodName)
            } else {
                single_file(req, item, names)
            },
        }
    }
}

fn plan_whole(req: &LayoutRequest, reason: LayoutDecisionReason) -> (r: LayoutPlan)
    ensures
        r.is(whole_tree(*req, reason)),
{
    LayoutPlan {
        source: PlanSource::WholeTempDir,
        kind: LayoutPlanKind::CommitWholeTempAsArchiveDir { name: req.archive_stem.clone() },
        target: join(req.output_root.as_str(), req.archive_stem.as_str()),
        reason,
        warnings: Vec::new(),
    }
}

fn plan_nothing(req: &LayoutRequest) -> (r: LayoutPlan)
    ensures
        r.is(nothing(*req)),
{
    LayoutPlan {
        source: PlanSource::WholeTempDir,
        kind: LayoutPlanKind::Empty,
        target: req.output_root.clone(),
        reason: LayoutDecisionReason::EmptyTempDir,
        warnings: Vec::new(),
    }
}

fn plan_dir_as_is(
    req: &LayoutRequest,
    item: &TopLevelItemSummary,
    reason: LayoutDecisionReason,
) -> (r: LayoutPlan)
    ensures
        r.is(dir_as_is(*req, *item, reason)),
{
    LayoutPlan {
        source: PlanSource::SingleDir(item.path.clone()),
        kind: LayoutPlanKind::CommitSingleDirAsInnerName,
        target: join(req.output_root.as_str(), item.name.as_str()),
        reason,
        warnings: Vec::new(),
    }
}

fn plan_dir_renamed(
    req: &LayoutRequest,
    item: &TopLevelItemSummary,
    reason: LayoutDecisionReason,
) -> (r: LayoutPlan)
    ensures
        r.is(dir_renamed(*req, *item, reason)),
{
    LayoutPlan {
        source: PlanSource::SingleDirContents(item.path.clone()),
        kind: LayoutPlanKind::CommitSingleDirContentsAsArchiveName,
        target: join(req.output_root.as_str(), req.archive_stem.as_str()),
        reason,
        warnings: Vec::new(),
    }
}

fn plan_file_as_is(
    req: &LayoutRequest,
    item: &TopLevelItemSummary,
    reason: LayoutDecisionReason,
) -> (r: LayoutPlan)
    ensures
        r.is(file_as_is(*req, *item, reason)),
{
    LayoutPlan {
        source: PlanSource::SingleFile(item.path.clone()),
        kind: LayoutPlanKind::CommitSingleFileAsInnerName,
        target: join(req.output_root.as_str(), item.name.as_str()),
        reason,
        warnings: Vec::new(),
    }
}

fn plan_file_renamed(
    req: &LayoutRequest,
    item: &TopLevelItemSummary,
    reason: LayoutDecisionReason,
) -> (r: LayoutPlan)
    ensures
        r.is(file_renamed(*req, *item, reason)),
{
    let mut name: String = req.archive_stem.clone();
    if let Some(ext) = path_extension(item.path.as_str()) {
        name.push('.');
        name.append(ext.as_str());
    }
    assert(name@ =~= req.archive_stem@ + dotted_extension(item.path@));
    LayoutPlan {
        source: PlanSource::SingleFile(item.path.clone()),
        kind: LayoutPlanKind::CommitSingleFileAsArchiveName,
        target: join(req.output_root.as_str(), name.as_str()),
        reason,
        warnings: Vec::new(),
    }
}

fn plan_raw(req: &LayoutRequest) -> (r: LayoutPlan)
    ensures
        r.is(raw_tree(*req)),
{
    LayoutPlan {
        source: PlanSource::WholeTempDir,
        kind: LayoutPlanKind::RawArchiveDir { name: req.archive_stem.clone() },
        target: join(req.output_root.as_str(), req.archive_stem.as_str()),
        reason: LayoutDecisionReason::RawPolicyForced,
        warnings: Vec::new(),
    }
}

/// Decides the layout of a single directory.
pub fn decide_single_dir(
    req: &LayoutRequest,
    item: &TopLevelItemSummary,
    names: &NameEvidence,
) -> (r: LayoutPlan)
    ensures
        r.is(single_dir(*req, *item, *names)),
{
    if req.layout_policy == OutputLayoutPolicy::Raw {
        return plan_raw(req);
    }
    match req.single_root_name_policy {
        SingleRootNamePolicy::PreferArchiveName => {
            return plan_dir_renamed(req, item, LayoutDecisionReason::DefaultConservative);
        },
        SingleRootNamePolicy::PreferInnerName => {
            return plan_dir_as_is(req, item, LayoutDecisionReason::SingleDirGoodName);
        },
        SingleRootNamePolicy::PreserveBoth => {
            return LayoutPlan {
                source: PlanSource::SingleDir(item.path.clone()),
                kind: LayoutPlanKind::PreserveBothSingleDir,
                target: join(req.output_root.as_str(), req.archive_stem.as_str()),
                reason: LayoutDecisionReason::SingleDirGoodName,
                warnings: Vec::new(),
            };
        },
        _ => {},
    }
    if names.equivalent {
        return plan_dir_as_is(req, item, LayoutDecisionReason::SingleDirSimilarToArchive);
    }
    if names.archive_is_generic && !names.inner_is_generic {
        return plan_dir_as_is(req, item, LayoutDecisionReason::SingleDirGoodName);
    }
    if names.inner_is_generic {
        return plan_dir_renamed(req, item, LayoutDecisionReason::SingleDirGenericName);
    }
    if names.inner_scores_clearly_higher {
        return plan_dir_as_is(req, item, LayoutDecisionReason::SingleDirGoodName);
    }
    plan_whole(req, LayoutDecisionReason::DefaultConservative)
}

/// Decides the layout of a single file.
pub fn decide_single_file(
    req: &LayoutRequest,
    item: &TopLevelItemSummary,
    names: &NameEvidence,
) -> (r: LayoutPlan)
    ensures
        r.is(single_file(*req, *item, *names)),
{
    if req.layout_policy == OutputLayoutPolicy::Raw {
        return plan_raw(req);
    }
    match req.single_root_name_policy {
        SingleRootNamePolicy::PreferArchiveName => {
            return plan_file_renamed(req, item, LayoutDecisionReason::DefaultConservative);
        },
        SingleRootNamePolicy::PreferInnerName => {
            return plan_file_as_is(req, item, LayoutDecisionReason::SingleFileGoodName);
        },
        SingleRootNamePolicy::PreserveBoth => {
            return LayoutPlan {
                source: PlanSource::SingleFile(item.path.clone()),
                kind: LayoutPlanKind::PreserveBothSingleFile,
                target: join(req.output_root.as_str(), req.archive_stem.as_str()),
                reason: LayoutDecisionReason::SingleFileGoodName,
                warnings: Vec::new(),
            };
        },
        _ => {},
    }
    if names.equivalent {
        return plan_file_as_is(req, item, LayoutDecisionReason::SingleFileSimilarToArchive);
    }
    if names.archive_is_generic && !names.inner_is_generic {
        return plan_file_as_is(req, item, LayoutDecisionReason::SingleFileGoodName);
    }
    if names.inner_is_generic {
        return plan_file_renamed(req, item, LayoutDecisionReason::SingleFileGenericName);
    }
    if names.has_archive_extension && names.inner_scores_higher {
        return plan_file_as_is(req, item, LayoutDecisionReason::SingleFileArchiveExtension);
    }
    if names.inner_scores_clearly_higher {
        return plan_file_as_is(req, item, LayoutDecisionReason::SingleFileGoodName);
    }
    plan_whole(req, LayoutDecisionReason::DefaultConservative)
}

/// Plans where extracted content goes.
pub fn plan_layout(req: &LayoutRequest, names: &NameEvidence) -> (r: LayoutPlan)
    ensures
        r.is(planned(*req, *names)),
        r.source is WholeTempDir && !(r.kind is Empty) ==> r.target@ == crate::path::joined(
            req.output_root@,
            req.archive_stem@,
        ),
        r.kind is Empty ==> r.target@ == req.output_root@,
        req.shape is Multiple ==> r.source is WholeTempDir && !(r.kind is Empty),
{
    if req.layout_policy == OutputLayoutPolicy::Raw {
        return plan_raw(req);
    }
    let flat: bool = req.layout_policy == OutputLayoutPolicy::FlatSingle;
    match &req.shape {
        TopLevelShape::Empty => plan_nothing(req),
        TopLevelShape::Multiple { items: _, count: _ } => {
            plan_whole(req, LayoutDecisionReason::MultipleTopLevelItems)
        },
        TopLevelShape::SingleDir(item) => {
            if flat {
                plan_dir_as_is(req, item, LayoutDecisionReason::SingleDirGoodName)
            } else {
                decide_single_dir(req, item, names)
            }
        },
        TopLevelShape::SingleFile(item) => {
            if flat {
                plan_file_as_is(req, item, LayoutDecisionReason::SingleFileGoodName)
            } else {
                decide_single_file(req, item, names)
            }
        },
    }
}

/// Whatever the names are worth, an explicit policy decides: the evidence counts only where the
/// choice was left open.
pub proof fn explicit_policy_ignores_names(req: LayoutRequest, a: NameEvidence, b: NameEvidence)
    requires
        req.layout_policy == OutputLayoutPolicy::Raw || req.layout_policy
            == OutputLayoutPolicy::FlatSingle || req.single_root_name_policy
            == SingleRootNamePolicy::PreferArchiveName || req.single_root_name_policy
            == SingleRootNamePolicy::PreferInnerName || req.single_root_name_policy
            == SingleRootNamePolicy::PreserveBoth,
    ensures
        planned(req, a) == planned(req, b),
{
}

/// Only a plan for a single directory takes from it, and only one for a single file takes that
/// file: the source is always the whole tree or the one item.
pub proof fn source_fits_shape(req: LayoutRequest, names: NameEvidence)
    ensures
        match planned(req, names).source {
            PlanSource::WholeTempDir => true,
            PlanSource::SingleDir(path) => req.shape is SingleDir && req.shape->SingleDir_0.path
                == path,
            PlanSource::SingleDirContents(path) => req.shape is SingleDir
                && req.shape->SingleDir_0.path == path,
            PlanSource::SingleFile(path) => req.shape is SingleFile && req.shape->SingleFile_0.path
                == path,
        },
{
}

/// Of the names with the highest rank the last; nothing of no names. The rank stands for the
/// score of the name at the same position.
pub fn pick_best_duplicate_name<'a>(names: &Vec<&'a str>, ranks: &Vec<u32>) -> (r: Option<&'a str>)
    requires
        names@.len() == ranks@.len(),
    ensures
        match r {
            None => names@.len() == 0,
            Some(best) => exists|i: int|
                {
                    &&& 0 <= i < names@.len()
                    &&& best == #[trigger] names@[i]
                    &&& forall|j: int| 0 <= j <= i ==> #[trigger] ranks@[j] <= ranks@[i]
                    &&& forall|j: int| i < j < ranks@.len() ==> #[trigger] ranks@[j] < ranks@[i]
                },
        },
{
    if names.len() == 0 {
        return None;
    }
    let mut best: usize = 0;
    let mut i: usize = 1;
    while i < names.len()
        invariant
            best < i <= names@.len(),
            names@.len() == ranks@.len(),
            forall|j: int| 0 <= j <= best ==> #[trigger] ranks@[j] <= ranks@[best as int],
            forall|j: int| best < j < i ==> #[trigger] ranks@[j] < ranks@[best as int],
        decreases names.len() - i,
    {
        if ranks[i] >= ranks[best] {
            best = i;
        }
        i += 1;
    }
    Some(names[best])
}

/// The whole tree goes into a directory of the archive's name under the output root, and its name
/// is the one that the plan tells. Only where there is nothing to move does a plan point at the
/// output root itself.
pub proof fn whole_tree_goes_under_the_archive_name(req: LayoutRequest, names: NameEvidence)
    ensures
        ({
            let plan = planned(req, names);
            &&& plan.source is WholeTempDir && !(plan.kind is Empty) ==> {
                &&& plan.target == crate::path::joined(req.output_root@, req.archive_stem@)
                &&& match plan.kind {
                    LayoutPlanKind::CommitWholeTempAsArchiveDir { name } => name
                        == req.archive_stem,
                    LayoutPlanKind::RawArchiveDir { name } => name == req.archive_stem,
                    _ => false,
                }
            }
            &&& plan.kind is Empty <==> req.shape is Empty && req.layout_policy
                != OutputLayoutPolicy::Raw
            &&& plan.kind is Empty ==> plan.target == req.output_root@ && plan.source
                is WholeTempDir && plan.reason == LayoutDecisionReason::EmptyTempDir
            &&& req.shape is Multiple ==> plan.source is WholeTempDir && plan.target
                == crate::path::joined(req.output_root@, req.archive_stem@)
            &&& plan.kind is RawArchiveDir <==> req.layout_policy == OutputLayoutPolicy::Raw
        }),
{
}

/// A plan that keeps the inner name goes to that name, and one that takes the archive's name goes
/// to that name; a file keeps its extension. What is kept under both names stands in a directory
/// of the archive's name.
pub proof fn target_has_the_name_that_is_kept(req: LayoutRequest, names: NameEvidence)
    ensures
        ({
            let plan = planned(req, names);
            let under_stem = crate::path::joined(req.output_root@, req.archive_stem@);
            match plan.kind {
                LayoutPlanKind::CommitSingleDirAsInnerName => req.shape matches
                    TopLevelShape::SingleDir(item) && plan.source == PlanSource::SingleDir(item.path)
                    && plan.target == crate::path::joined(req.output_root@, item.name@),
                LayoutPlanKind::CommitSingleDirContentsAsArchiveName => req.shape matches
                    TopLevelShape::SingleDir(item) && plan.source == PlanSource::SingleDirContents(
                    item.path,
                ) && plan.target == under_stem,
                LayoutPlanKind::PreserveBothSingleDir => req.shape matches TopLevelShape::SingleDir(
                    item,
                ) && plan.source == PlanSource::SingleDir(item.path) && plan.target == under_stem,
                LayoutPlanKind::CommitSingleFileAsInnerName => req.shape matches
                    TopLevelShape::SingleFile(item) && plan.source == PlanSource::SingleFile(
                    item.path,
                ) && plan.target == crate::path::joined(req.output_root@, item.name@),
                LayoutPlanKind::CommitSingleFileAsArchiveName => req.shape matches
                    TopLevelShape::SingleFile(item) && plan.source == PlanSource::SingleFile(
                    item.path,
                ) && plan.target == crate::path::joined(
                    req.output_root@,
                    match crate::path::extension(item.path@) {
                        Some(ext) => req.archive_stem@ + (seq!['.'] + ext),
                        None => req.archive_stem@,
                    },
                ),
                LayoutPlanKind::PreserveBothSingleFile => req.shape matches
                    TopLevelShape::SingleFile(item) && plan.source == PlanSource::SingleFile(
                    item.path,
                ) && plan.target == under_stem,
                _ => plan.source is WholeTempDir,
            }
        }),
{
    if let TopLevelShape::SingleFile(item) = req.shape {
        assert(req.archive_stem@ + Seq::<char>::empty() =~= req.archive_stem@);
    }
}

/// Which of the two names a single item gets is what the policy says: the inner one where it is
/// preferred or the layout is flat, the archive's where that is preferred, and both where both
/// are to be kept.
pub proof fn single_item_follows_its_policy(req: LayoutRequest, names: NameEvidence)
    requires
        req.shape is SingleDir || req.shape is SingleFile,
        req.layout_policy != OutputLayoutPolicy::Raw,
    ensures
        ({
            let kind = planned(req, names).kind;
            let policy = req.single_root_name_policy;
            let inner = kind is CommitSingleDirAsInnerName || kind is CommitSingleFileAsInnerName;
            let outer = kind is CommitSingleDirContentsAsArchiveName || kind
                is CommitSingleFileAsArchiveName;
            let both = kind is PreserveBothSingleDir || kind is PreserveBothSingleFile;
            if req.layout_policy == OutputLayoutPolicy::FlatSingle {
                inner
            } else {
                &&& policy == SingleRootNamePolicy::PreferInnerName ==> inner
                &&& policy == SingleRootNamePolicy::PreferArchiveName ==> outer
                &&& policy == SingleRootNamePolicy::PreserveBoth <==> both
            }
        }),
{
}

/// Where the choice is open, a name that says nothing is not chosen: the item keeps its name where
/// both are the same, takes the archive's where its own says nothing, and keeps its own where only
/// the archive's says nothing or its own is clearly better. Else the whole tree stays together.
pub proof fn better_name_is_chosen(req: LayoutRequest, names: NameEvidence)
    requires
        req.shape is SingleDir || req.shape is SingleFile,
        req.layout_policy == OutputLayoutPolicy::Smart || req.layout_policy
            == OutputLayoutPolicy::Conservative,
        req.single_root_name_policy == SingleRootNamePolicy::Auto || req.single_root_name_policy
            == SingleRootNamePolicy::AskWhenAmbiguous,
    ensures
        ({
            let kind = planned(req, names).kind;
            let inner = kind is CommitSingleDirAsInnerName || kind is CommitSingleFileAsInnerName;
            let outer = kind is CommitSingleDirContentsAsArchiveName || kind
                is CommitSingleFileAsArchiveName;
            &&& names.equivalent ==> inner
            &&& outer <==> names.inner_is_generic && !names.equivalent
            &&& names.archive_is_generic && !names.inner_is_generic ==> inner
            &&& names.inner_scores_clearly_higher && !names.inner_is_generic ==> inner
            &&& req.shape is SingleFile && names.has_archive_extension && names.inner_scores_higher
                && !names.inner_is_generic ==> inner
            &&& inner ==> names.equivalent || names.archive_is_generic
                || names.inner_scores_clearly_higher || (req.shape is SingleFile
                && names.has_archive_extension && names.inner_scores_higher)
            &&& !inner && !outer ==> kind is CommitWholeTempAsArchiveDir
        }),
{
}

/// Of the top level everything counts but what systems leave behind.
pub proof fn leftovers_do_not_count(items: Seq<TopLevelItemSummary>, item: TopLevelItemSummary)
    ensures
        visible(items).contains(item) <==> items.contains(item) && !is_metadata(item.name@),
        visible(items).len() <= items.len(),
    decreases items.len(),
{
    if items.len() > 0 {
        leftovers_do_not_count(items.drop_last(), item);
        assert(items =~= items.drop_last().push(items.last()));
        crate::order::lemma_pushed(items.drop_last(), items.last(), item);
        crate::order::lemma_pushed(visible(items.drop_last()), items.last(), item);
    }
}

/// The stem of a file and its extension with the dot are its name.
pub proof fn stem_and_dotted_extension_make_the_name(path: Seq<char>)
    requires
        crate::path::file_name(path) is Some,
    ensures
        crate::path::file_stem(path)->0 + dotted_extension(path) == crate::path::file_name(path)->0,
{
    crate::path::name_is_stem_and_extension(path);
    if crate::path::extension(path) is Some {
        assert(crate::path::file_stem(path)->0 + dotted_extension(path) =~= crate::path::file_stem(
            path,
        )->0 + seq!['.'] + crate::path::extension(path)->0);
    } else {
        assert(crate::path::file_stem(path)->0 + dotted_extension(path) =~= crate::path::file_stem(
            path,
        )->0);
    }
}

} // verus!
