//! What one candidate turns out to be: whether its content is scanned, which format it has, and
//! whether its own output is searched for more archives.

use vstd::prelude::*;
use crate::embedded::{DetectionAction, EmbeddedArchiveFinding, EmbeddedScanMode};
use crate::interactive::EmbeddedSelectionChoice;
use crate::types::{
    is_zip, ArchiveFormat, CandidateSource, EncodingMode, ErrorKind, ExtractionCandidate,
};

verus! {

/// How eagerly extracted files are scanned for archives.
#[derive(Clone, Copy, Debug, PartialEq, Eq, Structural)]
pub enum NestedScan {
    Off,
    Dominant,
    Aggressive,
    All,
}

/// What happens to a nested archive that has been extracted.
#[derive(Clone, Copy, Debug, PartialEq, Eq, Structural)]
pub enum Cleanup {
    Keep,
    Trash,
    Delete,
}

/// The parts of the configuration that the workflow's decisions read.
#[derive(Clone, Copy, Debug, PartialEq, Eq, Structural)]
pub struct WorkflowConfig {
    pub never_prompt: bool,
    pub stop_on_error: bool,
    pub auto_discover_volumes: bool,
    pub recursion_enabled: bool,
    pub nested_scan: NestedScan,
    pub root_scan: bool,
    pub skip_completed: bool,
    pub nested_cleanup: Cleanup,
    pub asks_on_suspicious_encoding: bool,
    pub asks_on_conflict: bool,
}

/// The user may be asked.
pub open spec fn prompts(config: Option<WorkflowConfig>) -> bool {
    config is Some ==> !config->0.never_prompt
}

/// Whether the user may be asked at all.
pub fn may_prompt(config: Option<WorkflowConfig>) -> (r: bool)
    ensures
        r == (config is None || !config->0.never_prompt),
        r == prompts(config),
{
    match config {
        Some(c) => !c.never_prompt,
        None => true,
    }
}

/// Sibling volumes are looked for.
pub open spec fn looks_for_volumes(config: Option<WorkflowConfig>) -> bool {
    config is Some ==> config->0.auto_discover_volumes
}

/// Whether the sibling volumes of a candidate are looked for.
pub fn discovers_volumes(config: Option<WorkflowConfig>) -> (r: bool)
    ensures
        r == (config is None || config->0.auto_discover_volumes),
        r == looks_for_volumes(config),
{
    match config {
        Some(c) => c.auto_discover_volumes,
        None => true,
    }
}

/// Extracted files are scanned.
pub open spec fn looks_into_nested(config: Option<WorkflowConfig>, mode: EmbeddedScanMode) -> bool {
    &&& mode != EmbeddedScanMode::Ignore
    &&& config is Some ==> config->0.recursion_enabled
    &&& config is Some ==> config->0.nested_scan != NestedScan::Off
}

/// Whether extracted files are scanned for archives inside them.
pub fn nested_embedded_enabled(config: Option<WorkflowConfig>, mode: EmbeddedScanMode) -> (r: bool)
    ensures
        r == ((config is None || (config->0.recursion_enabled && config->0.nested_scan
            != NestedScan::Off)) && mode != EmbeddedScanMode::Ignore),
        r == looks_into_nested(config, mode),
{
    let allowed: bool = match config {
        Some(c) => c.recursion_enabled && c.nested_scan != NestedScan::Off,
        None => true,
    };
    allowed && mode != EmbeddedScanMode::Ignore
}

/// Files that are no archives by their header are searched.
pub open spec fn looks_into_unrecognized(config: Option<WorkflowConfig>) -> bool {
    config is Some ==> config->0.nested_scan == NestedScan::Aggressive || config->0.nested_scan
        == NestedScan::All
}

/// Whether files that are no archives by their header are searched for embedded ones.
pub fn scans_unrecognized(config: Option<WorkflowConfig>) -> (r: bool)
    ensures
        r == (config is None || config->0.nested_scan == NestedScan::Aggressive
            || config->0.nested_scan == NestedScan::All),
        r == looks_into_unrecognized(config),
{
    match config {
        Some(c) => c.nested_scan == NestedScan::Aggressive || c.nested_scan == NestedScan::All,
        None => true,
    }
}

/// The header is read.
pub open spec fn reads_header(config: Option<WorkflowConfig>, mode: EmbeddedScanMode) -> bool {
    config is Some ==> mode != EmbeddedScanMode::Ignore
}

/// Whether a candidate's header is read: not where a configured task ignores what files hold.
pub fn probes_header(config: Option<WorkflowConfig>, mode: EmbeddedScanMode) -> (r: bool)
    ensures
        r == !(config is Some && mode == EmbeddedScanMode::Ignore),
        r == reads_header(config, mode),
{
    !(config.is_some() && mode == EmbeddedScanMode::Ignore)
}

/// The user is asked before the candidate is extracted.
pub open spec fn asks_first(
    source: CandidateSource,
    depth: usize,
    mode: EmbeddedScanMode,
    extract_all: bool,
) -> bool {
    &&& source == CandidateSource::EmbeddedFinding
    &&& !extract_all
    &&& match mode {
        EmbeddedScanMode::Ask => true,
        EmbeddedScanMode::Auto => depth > 0,
        _ => false,
    }
}

/// Whether the user confirms a queued finding before it is extracted. Findings of a root are
/// confirmed in the mode that asks; deeper ones in the automatic mode too.
pub fn confirms_finding(
    source: CandidateSource,
    depth: usize,
    mode: EmbeddedScanMode,
    extract_all: bool,
) -> (r: bool)
    ensures
        r == (source == CandidateSource::EmbeddedFinding && (mode == EmbeddedScanMode::Ask || (mode
            == EmbeddedScanMode::Auto && depth > 0)) && !extract_all),
        r == asks_first(source, depth, mode, extract_all),
{
    source == CandidateSource::EmbeddedFinding && (mode == EmbeddedScanMode::Ask || (mode
        == EmbeddedScanMode::Auto && depth > 0)) && !extract_all
}

/// What follows the confirmation of a queued finding: whether it is extracted, and whether all
/// later ones are too.
pub fn confirmation(choice: Option<EmbeddedSelectionChoice>) -> (r: (bool, bool))
    ensures
        r.0 == (choice == Some(EmbeddedSelectionChoice::Extract) || choice == Some(
            EmbeddedSelectionChoice::ExtractAll,
        )),
        r.1 == (choice == Some(EmbeddedSelectionChoice::ExtractAll)),
        r.1 ==> r.0,
        choice is None || choice == Some(EmbeddedSelectionChoice::Skip) <==> !r.0,
        choice == Some(EmbeddedSelectionChoice::Extract) <==> r.0 && !r.1,
{
    match choice {
        Some(EmbeddedSelectionChoice::Extract) => (true, false),
        Some(EmbeddedSelectionChoice::ExtractAll) => (true, true),
        _ => (false, false),
    }
}

/// The header says that the whole file is an archive.
pub open spec fn is_header_archive(header: Option<(ArchiveFormat, u64)>) -> bool {
    header is Some && (header->0).1 == 0
}

/// The content is scanned.
pub open spec fn is_scanned(
    source: CandidateSource,
    in_volume_set: bool,
    header: Option<(ArchiveFormat, u64)>,
    deep_scan: bool,
    mode: EmbeddedScanMode,
    policy_allows: bool,
) -> bool {
    let by_request = deep_scan || mode == EmbeddedScanMode::All || mode
        == EmbeddedScanMode::Aggressive;
    &&& policy_allows
    &&& !in_volume_set
    &&& source != CandidateSource::RootInput && is_header_archive(header) ==> by_request
}

/// Whether the content of a candidate is scanned for archives: never that of a volume set, and
/// that of a nested archive only on request.
pub fn scans_content(
    source: CandidateSource,
    in_volume_set: bool,
    header: &Option<(ArchiveFormat, u64)>,
    deep_scan: bool,
    mode: EmbeddedScanMode,
    policy_allows: bool,
) -> (r: bool)
    ensures
        r == (!in_volume_set && policy_allows && (source == CandidateSource::RootInput
            || !is_header_archive(*header) || deep_scan || mode == EmbeddedScanMode::All || mode
            == EmbeddedScanMode::Aggressive)),
        r == is_scanned(source, in_volume_set, *header, deep_scan, mode, policy_allows),
{
    let header_archive: bool = match header {
        Some((_, offset)) => *offset == 0,
        None => false,
    };
    let explicit: bool = deep_scan || mode == EmbeddedScanMode::All || mode
        == EmbeddedScanMode::Aggressive;
    !in_volume_set && (source == CandidateSource::RootInput || !header_archive || explicit)
        && policy_allows
}

/// Whether a finding counts: those in a root always do, the others from a least size on.
pub fn keeps_finding(source: CandidateSource, meets_min_size: bool) -> (r: bool)
    ensures
        r == (source == CandidateSource::RootInput || meets_min_size),
{
    source == CandidateSource::RootInput || meets_min_size
}

/// Whether the archives found in a root become candidates of their own.
pub fn expands_root_findings(mode: EmbeddedScanMode) -> (r: bool)
    ensures
        r == (mode == EmbeddedScanMode::Auto || mode == EmbeddedScanMode::Ask || mode
            == EmbeddedScanMode::Aggressive || mode == EmbeddedScanMode::All),
        !r <==> mode == EmbeddedScanMode::Largest || mode == EmbeddedScanMode::Ignore,
{
    mode == EmbeddedScanMode::Auto || mode == EmbeddedScanMode::Ask || mode
        == EmbeddedScanMode::Aggressive || mode == EmbeddedScanMode::All
}

/// What is done about the findings of one candidate.
#[derive(Clone, Copy, Debug, PartialEq, Eq, Structural)]
pub enum FindingStep {
    /// Go on with the candidate; say that a finding was selected or not.
    Proceed { announce: bool },
    /// Ask the user first.
    Ask,
    /// Nothing here is to be extracted.
    Skip,
}

/// The candidate as the finding at `index`, if there is one.
pub open spec fn narrowed(
    candidate: ExtractionCandidate,
    findings: Seq<EmbeddedArchiveFinding>,
    index: Option<usize>,
) -> ExtractionCandidate {
    match index {
        Some(i) => if i < findings.len() {
            ExtractionCandidate {
                detected_format: Some(findings[i as int].format),
                embedded_offset: Some(findings[i as int].offset),
                embedded_size: findings[i as int].size,
                ..candidate
            }
        } else {
            candidate
        },
        None => candidate,
    }
}

/// Narrows a candidate down to one of its findings. Nothing else about it changes.
pub fn narrow_to_finding(
    candidate: &mut ExtractionCandidate,
    findings: &Vec<EmbeddedArchiveFinding>,
    index: Option<usize>,
)
    ensures
        *final(candidate) == narrowed(*old(candidate), findings@, index),
{
    if let Some(i) = index {
        if i < findings.len() {
            let finding = &findings[i];
            candidate.detected_format = Some(finding.format.clone());
            candidate.embedded_offset = Some(finding.offset);
            candidate.embedded_size = finding.size;
        }
    }
}

/// The step that a decision on findings leads to.
pub open spec fn step_after(action: DetectionAction, extract_all: bool) -> FindingStep {
    if action == DetectionAction::SkipByDefault || action == DetectionAction::ReportOnly {
        FindingStep::Skip
    } else if action == DetectionAction::AskUser && !extract_all {
        FindingStep::Ask
    } else {
        FindingStep::Proceed { announce: action != DetectionAction::ExtractDirect }
    }
}

/// What a decision on findings leads to. With the user's earlier word to extract everything,
/// nobody is asked again.
pub fn finding_step(action: DetectionAction, extract_all: bool) -> (r: FindingStep)
    ensures
        r == (match action {
            DetectionAction::ExtractDirect => FindingStep::Proceed { announce: false },
            DetectionAction::CarveAndExtract => FindingStep::Proceed { announce: true },
            DetectionAction::AskUser => if extract_all {
                FindingStep::Proceed { announce: true }
            } else {
                FindingStep::Ask
            },
            _ => FindingStep::Skip,
        }),
        r == step_after(action, extract_all),
{
    match action {
        DetectionAction::ExtractDirect => FindingStep::Proceed { announce: false },
        DetectionAction::CarveAndExtract => FindingStep::Proceed { announce: true },
        DetectionAction::AskUser => {
            if extract_all {
                FindingStep::Proceed { announce: true }
            } else {
                FindingStep::Ask
            }
        },
        _ => FindingStep::Skip,
    }
}

/// The candidate with the format that it is taken to have.
pub open spec fn with_format(
    candidate: ExtractionCandidate,
    header: Option<(ArchiveFormat, u64)>,
    by_extension: Option<ArchiveFormat>,
) -> ExtractionCandidate {
    if candidate.detected_format is Some {
        candidate
    } else if header is None {
        ExtractionCandidate { detected_format: by_extension, ..candidate }
    } else if (header->0).1 == 0 {
        ExtractionCandidate { detected_format: Some((header->0).0), ..candidate }
    } else {
        ExtractionCandidate {
            detected_format: Some((header->0).0),
            embedded_offset: Some((header->0).1),
            ..candidate
        }
    }
}

/// Without findings the header decides the format, and the extension where the header is silent.
/// A format that is known already stays.
pub fn settle_format(
    candidate: &mut ExtractionCandidate,
    header: Option<(ArchiveFormat, u64)>,
    by_extension: Option<ArchiveFormat>,
)
    ensures
        *final(candidate) == (if old(candidate).detected_format is Some {
            *old(candidate)
        } else {
            match header {
                Some((format, offset)) => ExtractionCandidate {
                    detected_format: Some(format),
                    embedded_offset: if offset > 0 {
                        Some(offset)
                    } else {
                        old(candidate).embedded_offset
                    },
                    ..*old(candidate)
                },
                None => ExtractionCandidate { detected_format: by_extension, ..*old(candidate) },
            }
        }),
        *final(candidate) == with_format(*old(candidate), header, by_extension),
{
    if candidate.detected_format.is_some() {
        return ;
    }
    match header {
        Some((format, offset)) => {
            candidate.detected_format = Some(format);
            if offset > 0 {
                candidate.embedded_offset = Some(offset);
            }
        },
        None => {
            candidate.detected_format = by_extension;
        },
    }
}

/// A root that a listing or a detection resolves to one archive: the selected finding, or what
/// the header says where the root is scanned, or what the extension says. Nothing is resolved
/// where no format is known.
pub open spec fn resolved_root(
    path: String,
    relative_path: String,
    findings: Seq<EmbeddedArchiveFinding>,
    selected: Option<usize>,
    header: Option<(ArchiveFormat, u64)>,
    by_extension: Option<ArchiveFormat>,
) -> Option<ExtractionCandidate> {
    let bare = ExtractionCandidate {
        path,
        relative_path,
        depth: 0,
        source: CandidateSource::RootInput,
        detected_format: None,
        embedded_offset: None,
        embedded_size: None,
    };
    if selected is Some && selected->0 < findings.len() {
        Some(narrowed(bare, findings, selected))
    } else if header is Some {
        Some(
            ExtractionCandidate {
                detected_format: Some((header->0).0),
                embedded_offset: if (header->0).1 > 0 {
                    Some((header->0).1)
                } else {
                    None
                },
                ..bare
            },
        )
    } else if by_extension is Some {
        Some(ExtractionCandidate { detected_format: by_extension, ..bare })
    } else {
        None
    }
}

/// Resolves a root to one archive. The second part of the result says whether the selection of
/// a finding behind the start of the file is announced.
pub fn resolve_root_candidate(
    path: String,
    relative_path: String,
    findings: &Vec<EmbeddedArchiveFinding>,
    selected: Option<usize>,
    header: Option<(ArchiveFormat, u64)>,
    by_extension: Option<ArchiveFormat>,
) -> (r: (Option<ExtractionCandidate>, bool))
    ensures
        r.0 == resolved_root(path, relative_path, findings@, selected, header, by_extension),
        r.1 == (selected is Some && selected->0 < findings@.len()
            && findings@[selected->0 as int].offset > 0),
{
    let mut candidate = ExtractionCandidate {
        path,
        relative_path,
        depth: 0,
        source: CandidateSource::RootInput,
        detected_format: None,
        embedded_offset: None,
        embedded_size: None,
    };
    if let Some(i) = selected {
        if i < findings.len() {
            narrow_to_finding(&mut candidate, findings, selected);
            let announce: bool = findings[i].offset > 0;
            return (Some(candidate), announce);
        }
    }
    match header {
        Some((format, offset)) => {
            candidate.detected_format = Some(format);
            candidate.embedded_offset = if offset > 0 {
                Some(offset)
            } else {
                None
            };
            (Some(candidate), false)
        },
        None => {
            match by_extension {
                Some(format) => {
                    candidate.detected_format = Some(format);
                    (Some(candidate), false)
                },
                None => (None, false),
            }
        },
    }
}

/// Whether a ZIP file is looked at as a document rather than an archive: nested ones only. What
/// the user named is extracted in any case.
pub fn checks_business_container(candidate: &ExtractionCandidate) -> (r: bool)
    ensures
        r == (candidate.depth > 0 && candidate.detected_format == Some(ArchiveFormat::Zip)),
{
    candidate.depth > 0 && is_zip(&candidate.detected_format)
}

/// An archive that was extracted before is left out.
pub open spec fn leaves_out(force: bool, config: Option<WorkflowConfig>, was_extracted: bool) -> bool {
    was_extracted && config is Some && config->0.skip_completed && !force
}

/// Whether an archive that was extracted in an earlier run is left out.
pub fn skips_completed(force: bool, config: Option<WorkflowConfig>, was_extracted: bool) -> (r: bool)
    ensures
        r == (!force && config is Some && config->0.skip_completed && was_extracted),
        r == leaves_out(force, config, was_extracted),
{
    match config {
        Some(c) => !force && c.skip_completed && was_extracted,
        None => false,
    }
}

/// The output is searched for more archives.
pub open spec fn looks_for_more(
    was_cancelled: bool,
    config: Option<WorkflowConfig>,
    depth: usize,
    recursion_limit: usize,
) -> bool {
    !was_cancelled && (config is Some ==> depth < recursion_limit)
}

/// Whether an extracted archive's output is searched for more archives.
pub fn discovers_nested(
    was_cancelled: bool,
    config: Option<WorkflowConfig>,
    depth: usize,
    recursion_limit: usize,
) -> (r: bool)
    ensures
        r == (!was_cancelled && (config is None || depth < recursion_limit)),
        r == looks_for_more(was_cancelled, config, depth, recursion_limit),
{
    !was_cancelled && (config.is_none() || depth < recursion_limit)
}

/// The archive is removed once it is extracted.
pub open spec fn is_removed(
    was_cancelled: bool,
    source: CandidateSource,
    config: Option<WorkflowConfig>,
) -> bool {
    &&& !was_cancelled
    &&& source != CandidateSource::RootInput
    &&& config is Some ==> config->0.nested_cleanup != Cleanup::Keep
}

/// Whether an extracted archive is removed: never one that the user named.
pub fn recycles(was_cancelled: bool, source: CandidateSource, config: Option<WorkflowConfig>) -> (r:
    bool)
    ensures
        r == (!was_cancelled && source != CandidateSource::RootInput && (config is None
            || config->0.nested_cleanup != Cleanup::Keep)),
        r == is_removed(was_cancelled, source, config),
{
    let cleans: bool = match config {
        Some(c) => c.nested_cleanup != Cleanup::Keep,
        None => true,
    };
    !was_cancelled && source != CandidateSource::RootInput && cleans
}

/// Whether the encoding of an extraction was settled by the user, now or earlier.
pub fn encoding_corrected(reused: bool, requested: &EncodingMode) -> (r: bool)
    ensures
        r == (reused || requested is Override),
{
    reused || !requested.is_auto()
}

/// The encoding that an archive is opened with: the user's choice, and in its absence the one
/// that was confirmed for this very file before.
pub open spec fn encoding_for(requested: EncodingMode, confirmed: Option<String>) -> EncodingMode {
    if requested is Auto && confirmed is Some {
        EncodingMode::Override(confirmed->0)
    } else {
        requested
    }
}

/// Picks the encoding that an archive is opened with, and says whether it is a reused one.
pub fn choose_encoding(requested: &EncodingMode, confirmed: &Option<String>) -> (r: (
    EncodingMode,
    bool,
))
    ensures
        r.0 == encoding_for(*requested, *confirmed),
        r.1 == (requested is Auto && confirmed is Some),
{
    match (requested, confirmed) {
        (EncodingMode::Auto, Some(name)) => (EncodingMode::Override(name.clone()), true),
        _ => (requested.clone(), false),
    }
}

/// Whether the names of an archive are examined for their encoding.
pub fn assesses_encoding(detects: bool, mode: &EncodingMode, format: &Option<ArchiveFormat>) -> (r:
    bool)
    ensures
        r == (detects && mode is Auto && *format == Some(ArchiveFormat::Zip)),
{
    detects && mode.is_auto() && is_zip(format)
}

/// What a stage's begin leads to.
#[derive(Clone, Copy, Debug, PartialEq, Eq, Structural)]
pub enum StageEntry {
    Entered,
    /// The task is ending; the node is interrupted.
    Interrupted,
    /// The node has moved on without this worker.
    Stale,
    /// The recorder failed.
    Broken(ErrorKind),
}

/// What the answer of the recorder leads to.
pub open spec fn entry(answer: Option<Result<bool, ErrorKind>>, cancelled: bool) -> StageEntry {
    if answer == Some(Ok::<bool, ErrorKind>(false)) {
        StageEntry::Stale
    } else if cancelled && (answer is None || answer == Some(
        Err::<bool, ErrorKind>(ErrorKind::Cancelled),
    )) {
        StageEntry::Interrupted
    } else if answer is Some && answer->0 is Err {
        StageEntry::Broken(answer->0->Err_0)
    } else {
        StageEntry::Entered
    }
}

/// Takes in the answer of the recorder that a stage was reported to. Without a recorder a stage
/// is entered unless the task was cancelled.
pub fn enter_stage(answer: Option<Result<bool, ErrorKind>>, cancelled: bool) -> (r: StageEntry)
    ensures
        r == (match answer {
            None => if cancelled {
                StageEntry::Interrupted
            } else {
                StageEntry::Entered
            },
            Some(Ok(true)) => StageEntry::Entered,
            Some(Ok(false)) => StageEntry::Stale,
            Some(Err(error)) => if error == ErrorKind::Cancelled && cancelled {
                StageEntry::Interrupted
            } else {
                StageEntry::Broken(error)
            },
        }),
        r == entry(answer, cancelled),
{
    match answer {
        None => {
            if cancelled {
                StageEntry::Interrupted
            } else {
                StageEntry::Entered
            }
        },
        Some(Ok(true)) => StageEntry::Entered,
        Some(Ok(false)) => StageEntry::Stale,
        Some(Err(error)) => {
            if error == ErrorKind::Cancelled && cancelled {
                StageEntry::Interrupted
            } else {
                StageEntry::Broken(error)
            }
        },
    }
}

/// An encoding that the user asked for is used, whatever was confirmed before; what was confirmed
/// for this very file is used where nothing was asked for.
pub proof fn asked_encoding_wins(requested: EncodingMode, confirmed: Option<String>)
    ensures
        requested is Override ==> encoding_for(requested, confirmed) == requested,
        requested is Auto && confirmed is None ==> encoding_for(requested, confirmed) is Auto,
        requested is Auto && confirmed is Some ==> encoding_for(requested, confirmed).name()
            == Some(confirmed->0@),
{
}

/// A candidate that is narrowed to a finding stays the file that it is: it is read where the
/// finding stands, as what the finding is. A place where there is no finding changes nothing.
pub proof fn narrowing_keeps_the_file(
    candidate: ExtractionCandidate,
    findings: Seq<EmbeddedArchiveFinding>,
    index: Option<usize>,
)
    ensures
        ({
            let after = narrowed(candidate, findings, index);
            &&& after.path == candidate.path
            &&& after.relative_path == candidate.relative_path
            &&& after.depth == candidate.depth
            &&& after.source == candidate.source
            &&& match index {
                Some(i) if i < findings.len() => after.embedded_offset == Some(
                    findings[i as int].offset,
                ) && after.embedded_size == findings[i as int].size && after.detected_format
                    == Some(findings[i as int].format),
                _ => after == candidate,
            }
        }),
{
}

/// A root is resolved exactly where its format is known: from the finding that was selected, else
/// from its header, else from its extension. It is then the root that the user named.
pub proof fn resolved_root_has_a_format(
    path: String,
    relative_path: String,
    findings: Seq<EmbeddedArchiveFinding>,
    selected: Option<usize>,
    header: Option<(ArchiveFormat, u64)>,
    by_extension: Option<ArchiveFormat>,
)
    ensures
        ({
            let root = resolved_root(path, relative_path, findings, selected, header, by_extension);
            let chosen = selected is Some && selected->0 < findings.len();
            &&& root is Some <==> chosen || header is Some || by_extension is Some
            &&& root matches Some(r) ==> {
                &&& r.path == path && r.relative_path == relative_path
                &&& r.depth == 0 && r.source == CandidateSource::RootInput
                &&& r.detected_format is Some
                &&& chosen ==> r.embedded_offset == Some(findings[selected->0 as int].offset)
                &&& !chosen && header is Some ==> r.detected_format == Some((header->0).0) && (
                r.embedded_offset == Some((header->0).1) || ((header->0).1 == 0
                    && r.embedded_offset is None))
                &&& !chosen && header is None ==> r.detected_format == by_extension
                    && r.embedded_offset is None
            }
        }),
{
}

/// A task without settings leaves nothing undone: the user may be asked, sibling volumes are
/// looked for, every file is searched that the mode lets be searched, nothing is left out for
/// having been extracted before, and nested archives are removed.
pub proof fn task_without_settings_does_all(
    mode: EmbeddedScanMode,
    source: CandidateSource,
    depth: usize,
    limit: usize,
    force: bool,
    was_extracted: bool,
)
    ensures
        prompts(None),
        looks_for_volumes(None),
        looks_into_nested(None, mode) <==> mode != EmbeddedScanMode::Ignore,
        looks_into_unrecognized(None),
        reads_header(None, mode),
        looks_for_more(false, None, depth, limit),
        !leaves_out(force, None, was_extracted),
        is_removed(false, source, None) <==> source != CandidateSource::RootInput,
{
}

/// What the settings forbid is not done, and what none of them forbids is.
pub proof fn settings_are_heeded(c: WorkflowConfig, mode: EmbeddedScanMode)
    ensures
        c.never_prompt ==> !prompts(Some(c)),
        !c.never_prompt ==> prompts(Some(c)),
        !c.auto_discover_volumes ==> !looks_for_volumes(Some(c)),
        c.auto_discover_volumes ==> looks_for_volumes(Some(c)),
        !c.recursion_enabled ==> !looks_into_nested(Some(c), mode),
        c.nested_scan == NestedScan::Off ==> !looks_into_nested(Some(c), mode)
            && !looks_into_unrecognized(Some(c)),
        c.nested_scan == NestedScan::Dominant ==> !looks_into_unrecognized(Some(c)),
        looks_into_unrecognized(Some(c)) && c.recursion_enabled && mode != EmbeddedScanMode::Ignore
            ==> looks_into_nested(Some(c), mode),
        c.recursion_enabled && c.nested_scan != NestedScan::Off ==> (looks_into_nested(
            Some(c),
            mode,
        ) <==> reads_header(Some(c), mode)),
        c.nested_scan == NestedScan::Aggressive ==> looks_into_unrecognized(Some(c)),
        c.nested_scan == NestedScan::All ==> looks_into_unrecognized(Some(c)),
        reads_header(Some(c), mode) <==> mode != EmbeddedScanMode::Ignore,
{
}

/// The user is asked about archives found inside files only, and no more once everything is to be
/// extracted. The mode that asks does so at every depth; the automatic one trusts what lies in a
/// file that the user named, and asks about everything deeper.
pub proof fn findings_are_confirmed(
    source: CandidateSource,
    depth: usize,
    mode: EmbeddedScanMode,
    extract_all: bool,
)
    ensures
        !asks_first(source, depth, mode, true),
        source != CandidateSource::EmbeddedFinding ==> !asks_first(source, depth, mode, extract_all),
        asks_first(CandidateSource::EmbeddedFinding, depth, EmbeddedScanMode::Ask, false),
        asks_first(CandidateSource::EmbeddedFinding, depth, EmbeddedScanMode::Auto, false) <==> depth
            != 0,
        asks_first(source, depth, mode, extract_all) ==> mode == EmbeddedScanMode::Ask || mode
            == EmbeddedScanMode::Auto,
{
}

/// Of a set of volumes nothing is scanned, nor anything that the policy does not allow. What else
/// the user named is scanned in any case; a nested archive only on request, and a nested file that
/// is no archive always.
pub proof fn archives_are_scanned_on_request(
    source: CandidateSource,
    in_volume_set: bool,
    header: Option<(ArchiveFormat, u64)>,
    deep_scan: bool,
    mode: EmbeddedScanMode,
    policy_allows: bool,
)
    ensures
        !is_scanned(source, true, header, deep_scan, mode, policy_allows),
        !is_scanned(source, in_volume_set, header, deep_scan, mode, false),
        is_scanned(CandidateSource::RootInput, false, header, deep_scan, mode, true),
        header is None ==> is_scanned(source, false, header, deep_scan, mode, true),
        header is Some && (header->0).1 > 0 ==> is_scanned(
            source,
            false,
            header,
            deep_scan,
            mode,
            true,
        ),
        is_scanned(source, false, header, true, mode, true),
        is_scanned(source, false, header, deep_scan, EmbeddedScanMode::All, true),
        is_scanned(source, false, header, deep_scan, EmbeddedScanMode::Aggressive, true),
        is_scanned(source, in_volume_set, header, deep_scan, mode, policy_allows)
            && is_header_archive(header) && !deep_scan && mode != EmbeddedScanMode::All && mode
            != EmbeddedScanMode::Aggressive ==> source == CandidateSource::RootInput,
{
}

/// What is passed over or merely reported is never extracted. The user is asked where the decision
/// says so and they have not said to extract everything. A finding that is gone on with is
/// announced, unless the file is the archive itself.
pub proof fn decisions_lead_to_steps(action: DetectionAction, extract_all: bool)
    ensures
        step_after(action, true) !is Ask,
        step_after(action, extract_all) is Ask <==> action == DetectionAction::AskUser
            && !extract_all,
        action != DetectionAction::AskUser ==> step_after(action, true) == step_after(action, false),
        step_after(DetectionAction::AskUser, true) == step_after(
            DetectionAction::CarveAndExtract,
            extract_all,
        ),
        step_after(action, extract_all) == (FindingStep::Proceed { announce: false }) <==> action
            == DetectionAction::ExtractDirect,
        step_after(DetectionAction::CarveAndExtract, extract_all) == (FindingStep::Proceed {
            announce: true,
        }),
        step_after(action, extract_all) is Skip <==> action == DetectionAction::SkipByDefault
            || action == DetectionAction::ReportOnly,
{
}

/// A format that is known stays, with its place. Else the header comes before the extension, and
/// moves the candidate to where it was found, if that is behind the start. Nothing else about the
/// candidate changes.
pub proof fn known_format_stays(
    candidate: ExtractionCandidate,
    header: Option<(ArchiveFormat, u64)>,
    by_extension: Option<ArchiveFormat>,
)
    ensures
        ({
            let settled = with_format(candidate, header, by_extension);
            &&& settled.path == candidate.path
            &&& settled.relative_path == candidate.relative_path
            &&& settled.depth == candidate.depth
            &&& settled.source == candidate.source
            &&& settled.embedded_size == candidate.embedded_size
            &&& candidate.detected_format is Some ==> settled == candidate
            &&& candidate.detected_format is None && header is Some ==> settled.detected_format
                == Some((header->0).0)
            &&& candidate.detected_format is None && header is None ==> settled.detected_format
                == by_extension
            &&& settled.embedded_offset != candidate.embedded_offset ==> header is Some
                && settled.embedded_offset == Some((header->0).1) && !is_header_archive(header)
            &&& candidate.detected_format is None && header is Some && !is_header_archive(header)
                ==> settled.embedded_offset == Some((header->0).1)
        }),
{
}

/// An archive is left out only where it was extracted before and the settings ask for that, and
/// never where the user insists.
pub proof fn finished_archives_are_left_out(
    force: bool,
    config: Option<WorkflowConfig>,
    was_extracted: bool,
)
    ensures
        !leaves_out(true, config, was_extracted),
        !leaves_out(force, config, false),
        config is Some ==> (leaves_out(false, config, true) <==> config->0.skip_completed),
{
}

/// What the user named is never removed, and nothing is after a cancellation; nested archives are,
/// unless they are to be kept.
pub proof fn named_archives_are_kept(
    was_cancelled: bool,
    source: CandidateSource,
    config: Option<WorkflowConfig>,
)
    ensures
        !is_removed(was_cancelled, CandidateSource::RootInput, config),
        !is_removed(true, source, config),
        config is Some && config->0.nested_cleanup == Cleanup::Keep ==> !is_removed(
            was_cancelled,
            source,
            config,
        ),
        config is Some && source != CandidateSource::RootInput ==> (is_removed(false, source, config)
            <==> config->0.nested_cleanup == Cleanup::Trash || config->0.nested_cleanup
            == Cleanup::Delete),
{
}

/// The limit on the depth holds for configured tasks: what lies at the limit is not searched, and
/// what lies above it is. Nothing is searched after a cancellation.
pub proof fn depth_is_limited(config: WorkflowConfig, depth: usize, limit: usize)
    ensures
        !looks_for_more(true, Some(config), depth, limit),
        !looks_for_more(true, None, depth, limit),
        depth >= limit ==> !looks_for_more(false, Some(config), depth, limit),
        depth < limit ==> looks_for_more(false, Some(config), depth, limit),
{
}

/// A stage is entered where the recorder took it in, and, where there is none, unless the task was
/// cancelled. An interruption needs a cancellation, and every other error is told as it is.
pub proof fn stages_are_entered_with_leave(
    answer: Option<Result<bool, ErrorKind>>,
    cancelled: bool,
)
    ensures
        entry(answer, cancelled) is Stale <==> answer == Some(Ok::<bool, ErrorKind>(false)),
        answer is Some ==> (entry(answer, cancelled) is Entered <==> answer == Some(
            Ok::<bool, ErrorKind>(true),
        )),
        answer is None ==> (entry(answer, cancelled) is Entered <==> !cancelled),
        answer is None ==> (entry(answer, cancelled) is Interrupted <==> cancelled),
        entry(answer, false) !is Interrupted,
        entry(answer, cancelled) matches StageEntry::Broken(error) ==> answer == Some(
            Err::<bool, ErrorKind>(error),
        ),
        answer is Some && answer->0 is Err && answer->0->Err_0 != ErrorKind::Cancelled ==> entry(
            answer,
            cancelled,
        ) is Broken,
        answer == Some(Err::<bool, ErrorKind>(ErrorKind::Cancelled)) ==> (entry(answer, cancelled)
            is Interrupted <==> cancelled),
{
    if answer is Some && answer->0 is Ok {
        if answer->0->Ok_0 {
            assert(answer == Some(Ok::<bool, ErrorKind>(true)));
        } else {
            assert(answer == Some(Ok::<bool, ErrorKind>(false)));
        }
    }
}

} // verus!
