//! Archives inside other files: which of the findings is worth extracting, and how.

use vstd::prelude::*;
use vstd::string::*;
use crate::detect::DetectionKind;
use crate::text::push_decimal;
use crate::types::ArchiveFormat;

verus! {

/// How sure the scanner is of a finding.
#[derive(Clone, Copy, Debug, PartialEq, Eq, Structural)]
pub enum Confidence {
    Low,
    Medium,
    High,
}

impl Confidence {
    /// The word for the confidence.
    pub open spec fn text(self) -> Seq<char> {
        match self {
            Confidence::Low => "low"@,
            Confidence::Medium => "medium"@,
            Confidence::High => "high"@,
        }
    }

    pub fn as_str(self) -> (r: &'static str)
        ensures
            r@ == self.text(),
    {
        match self {
            Confidence::Low => "low",
            Confidence::Medium => "medium",
            Confidence::High => "high",
        }
    }
}

/// An archive that was found inside a file.
///
/// `rank` orders findings of one file by the share of the file that they cover: it is the bit
/// pattern of that share as a positive double, which is in the order of the numbers.
#[derive(Debug)]
pub struct EmbeddedArchiveFinding {
    pub offset: u64,
    pub size: Option<u64>,
    pub format: ArchiveFormat,
    pub confidence: Confidence,
    pub rank: Option<u64>,
}

/// An archive inside a file, as the scanner reports it.
#[derive(Debug)]
pub struct ScannedFinding {
    pub offset: u64,
    pub size: Option<u64>,
    pub format: ArchiveFormat,
    pub confidence: Confidence,
}

/// What is done about embedded archives.
#[derive(Clone, Copy, Debug, PartialEq, Eq, Structural)]
pub enum EmbeddedScanMode {
    Auto,
    Ask,
    Largest,
    Aggressive,
    All,
    Ignore,
}

/// When an embedded archive is taken for the file's real content.
#[derive(Clone, Copy, Debug, PartialEq, Eq, Structural)]
pub struct EmbeddedScanPolicy {
    pub mode: EmbeddedScanMode,
    /// The least rank at which a finding dominates; none dominates without it.
    pub dominant_min_rank: Option<u64>,
    pub min_finding_size_bytes: u64,
}

/// What to do with a file that holds findings.
#[derive(Clone, Copy, Debug, PartialEq, Eq, Structural)]
pub enum DetectionAction {
    ExtractDirect,
    CarveAndExtract,
    AskUser,
    SkipByDefault,
    ReportOnly,
}

/// Why a decision came out as it did.
#[derive(Clone, Copy, Debug, PartialEq, Eq, Structural)]
pub enum DecisionReason {
    NoFindings,
    ModeIgnore,
    DirectWithExtension,
    DirectDisguised,
    Dominant { offset: u64 },
    BelowThreshold { offset: u64 },
    NoRatio,
}

/// One finding as it is reported.
#[derive(Debug)]
pub struct FindingSummary {
    pub offset: u64,
    pub size: Option<u64>,
    pub format: String,
    pub confidence: String,
    pub rank: Option<u64>,
}

/// The decision on the findings of one file.
#[derive(Debug)]
pub struct DetectionDecision {
    pub kind: DetectionKind,
    pub action: DetectionAction,
    pub selected_index: Option<usize>,
    pub findings_summary: Vec<FindingSummary>,
    pub archive_rank: Option<u64>,
    pub reason: DecisionReason,
}

/// How many bytes a finding covers: its size, or everything up to the end of the file. A finding
/// that covers nothing, and one in an empty file, has no share.
pub open spec fn covered(file_size: u64, offset: u64, size: Option<u64>) -> Option<u64> {
    let bytes = match size {
        Some(n) => n,
        None => if offset < file_size {
            (file_size - offset) as u64
        } else {
            0
        },
    };
    if file_size == 0 || bytes == 0 {
        None
    } else {
        Some(bytes)
    }
}

/// The bytes that a finding covers, where it has a share of the file.
pub fn effective_size(file_size: u64, offset: u64, size: Option<u64>) -> (r: Option<u64>)
    ensures
        r == covered(file_size, offset, size),
{
    if file_size == 0 {
        return None;
    }
    let effective: u64 = match size {
        Some(n) => n,
        None => file_size.saturating_sub(offset),
    };
    if effective == 0 {
        return None;
    }
    Some(effective)
}

/// The finding in a file of this size. Its rank is the share that was computed for it, where it
/// has one.
pub open spec fn ranked(file_size: u64, found: ScannedFinding, share: u64) -> EmbeddedArchiveFinding {
    EmbeddedArchiveFinding {
        offset: found.offset,
        size: found.size,
        format: found.format,
        confidence: found.confidence,
        rank: if covered(file_size, found.offset, found.size) is Some {
            Some(share)
        } else {
            None
        },
    }
}

/// Ranks one finding in a file of this size by the share that was computed for it.
pub fn rank_finding(file_size: u64, found: ScannedFinding, share: u64) -> (r: EmbeddedArchiveFinding)
    ensures
        r == ranked(file_size, found, share),
{
    let rank: Option<u64> = match effective_size(file_size, found.offset, found.size) {
        Some(_) => Some(share),
        None => None,
    };
    EmbeddedArchiveFinding {
        offset: found.offset,
        size: found.size,
        format: found.format,
        confidence: found.confidence,
        rank,
    }
}

/// Ranks the findings in a file of this size by the shares that were computed for them.
pub fn rank_findings(file_size: u64, found: Vec<ScannedFinding>, shares: &Vec<u64>) -> (r: Vec<
    EmbeddedArchiveFinding,
>)
    requires
        shares@.len() == found@.len(),
    ensures
        r@.len() == found@.len(),
        forall|i: int|
            0 <= i < found@.len() ==> #[trigger] r@[i] == ranked(file_size, found@[i], shares@[i]),
{
    let ghost all = found@;
    let mut rest = found;
    let mut out: Vec<EmbeddedArchiveFinding> = Vec::new();
    while rest.len() > 0
        invariant
            shares@.len() == all.len(),
            found@ == all,
            out@.len() + rest@.len() == all.len(),
            rest@ == all.skip(out@.len() as int),
            forall|i: int|
                0 <= i < out@.len() ==> #[trigger] out@[i] == ranked(file_size, all[i], shares@[i]),
        decreases rest@.len(),
    {
        let ghost done = out@.len() as int;
        let next: ScannedFinding = rest.remove(0);
        assert(next == all[done]);
        assert(rest@ =~= all.skip(done + 1));
        let share: u64 = shares[out.len()];
        out.push(rank_finding(file_size, next, share));
    }
    out
}

/// The finding at `i` covers the largest share, and of those that cover as much it is the last.
pub open spec fn is_dominant(findings: Seq<EmbeddedArchiveFinding>, i: int) -> bool {
    &&& 0 <= i < findings.len()
    &&& findings[i].rank is Some
    &&& forall|j: int|
        0 <= j < findings.len() && (#[trigger] findings[j]).rank is Some ==> if j <= i {
            findings[j].rank->0 <= findings[i].rank->0
        } else {
            findings[j].rank->0 < findings[i].rank->0
        }
}

/// The finding that covers the largest share of the file; of equals the last.
pub fn find_dominant(findings: &Vec<EmbeddedArchiveFinding>) -> (r: Option<(usize, u64)>)
    ensures
        match r {
            Some((i, rank)) => is_dominant(findings@, i as int) && findings@[i as int].rank == Some(
                rank,
            ),
            None => forall|j: int|
                0 <= j < findings@.len() ==> (#[trigger] findings@[j]).rank is None,
        },
{
    let mut best: Option<(usize, u64)> = None;
    let mut i: usize = 0;
    while i < findings.len()
        invariant
            i <= findings@.len(),
            match best {
                Some((b, rank)) => {
                    &&& b < i
                    &&& findings@[b as int].rank == Some(rank)
                    &&& forall|j: int|
                        0 <= j < i && (#[trigger] findings@[j]).rank is Some ==> if j <= b {
                            findings@[j].rank->0 <= rank
                        } else {
                            findings@[j].rank->0 < rank
                        }
                },
                None => forall|j: int| 0 <= j < i ==> (#[trigger] findings@[j]).rank is None,
            },
        decreases findings.len() - i,
    {
        if let Some(rank) = findings[i].rank {
            let better: bool = match best {
                Some((_, top)) => rank >= top,
                None => true,
            };
            if better {
                best = Some((i, rank));
            }
        }
        i += 1;
    }
    best
}

/// There is at most one dominant finding.
pub proof fn dominant_is_unique(findings: Seq<EmbeddedArchiveFinding>, i: int, k: int)
    requires
        is_dominant(findings, i),
        is_dominant(findings, k),
    ensures
        i == k,
{
}

/// The action on a finding that does not stand at the start of the file and does not dominate it.
pub open spec fn minor_action(mode: EmbeddedScanMode) -> DetectionAction {
    match mode {
        EmbeddedScanMode::Ask => DetectionAction::AskUser,
        EmbeddedScanMode::Auto => DetectionAction::AskUser,
        EmbeddedScanMode::Ignore => DetectionAction::SkipByDefault,
        _ => DetectionAction::CarveAndExtract,
    }
}

/// The finding covers enough of the file to be its real content.
pub open spec fn dominates(policy: EmbeddedScanPolicy, rank: u64) -> bool {
    policy.dominant_min_rank is Some && rank >= policy.dominant_min_rank->0
}

/// The summary reports the finding.
pub open spec fn summarises(summary: FindingSummary, finding: EmbeddedArchiveFinding) -> bool {
    &&& summary.offset == finding.offset
    &&& summary.size == finding.size
    &&& summary.format@ == finding.format.text()
    &&& summary.confidence@ == finding.confidence.text()
    &&& summary.rank == finding.rank
}

/// The kind, the action and the reason for the dominant finding.
pub open spec fn decided(
    finding: EmbeddedArchiveFinding,
    policy: EmbeddedScanPolicy,
    file_ext_is_archive: bool,
) -> (DetectionKind, DetectionAction, DecisionReason) {
    if finding.offset == 0 {
        if file_ext_is_archive {
            (
                DetectionKind::DirectArchive,
                DetectionAction::ExtractDirect,
                DecisionReason::DirectWithExtension,
            )
        } else {
            (
                DetectionKind::DirectArchiveDisguised,
                DetectionAction::ExtractDirect,
                DecisionReason::DirectDisguised,
            )
        }
    } else if dominates(policy, finding.rank->0) {
        (
            DetectionKind::PrependedCarrier,
            DetectionAction::CarveAndExtract,
            DecisionReason::Dominant { offset: finding.offset },
        )
    } else {
        (
            DetectionKind::EmbeddedPayload,
            minor_action(policy.mode),
            DecisionReason::BelowThreshold { offset: finding.offset },
        )
    }
}

fn summarise(findings: &Vec<EmbeddedArchiveFinding>) -> (r: Vec<FindingSummary>)
    ensures
        r@.len() == findings@.len(),
        forall|i: int|
            0 <= i < r@.len() ==> summarises(#[trigger] r@[i], findings@[i]),
{
    let mut out: Vec<FindingSummary> = Vec::new();
    let mut i: usize = 0;
    while i < findings.len()
        invariant
            i <= findings@.len(),
            out@.len() == i,
            forall|k: int| 0 <= k < i ==> summarises(#[trigger] out@[k], findings@[k]),
        decreases findings.len() - i,
    {
        let f = &findings[i];
        out.push(
            FindingSummary {
                offset: f.offset,
                size: f.size,
                format: f.format.as_str().to_owned(),
                confidence: f.confidence.as_str().to_owned(),
                rank: f.rank,
            },
        );
        i += 1;
    }
    out
}

/// Decides what is done with a file by the archives found in it.
pub fn select_embedded_action(
    findings: &Vec<EmbeddedArchiveFinding>,
    policy: &EmbeddedScanPolicy,
    file_ext_is_archive: bool,
) -> (r: DetectionDecision)
    ensures
        r.findings_summary@.len() == findings@.len(),
        forall|i: int|
            0 <= i < findings@.len() ==> summarises(
                #[trigger] r.findings_summary@[i],
                findings@[i],
            ),
        findings@.len() == 0 ==> {
            &&& r.kind == DetectionKind::NotArchive
            &&& r.action == DetectionAction::ReportOnly
            &&& r.selected_index is None
            &&& r.archive_rank is None
            &&& r.reason == DecisionReason::NoFindings
        },
        forall|i: int| #[trigger]
            is_dominant(findings@, i) ==> {
                &&& r.archive_rank == findings@[i].rank
                &&& policy.mode == EmbeddedScanMode::Ignore ==> {
                    &&& r.kind == DetectionKind::EmbeddedPayload
                    &&& r.action == DetectionAction::SkipByDefault
                    &&& r.selected_index is None
                    &&& r.reason == DecisionReason::ModeIgnore
                }
                &&& policy.mode != EmbeddedScanMode::Ignore ==> {
                    &&& r.selected_index == Some(i as usize)
                    &&& (r.kind, r.action, r.reason) == decided(
                        findings@[i],
                        *policy,
                        file_ext_is_archive,
                    )
                }
            },
        findings@.len() > 0 && (forall|i: int|
            0 <= i < findings@.len() ==> (#[trigger] findings@[i]).rank is None) ==> {
            &&& r.archive_rank is None
            &&& r.selected_index is None
            &&& if policy.mode == EmbeddedScanMode::Ignore {
                &&& r.kind == DetectionKind::EmbeddedPayload
                &&& r.action == DetectionAction::SkipByDefault
                &&& r.reason == DecisionReason::ModeIgnore
            } else {
                &&& r.kind == DetectionKind::NotArchive
                &&& r.action == DetectionAction::ReportOnly
                &&& r.reason == DecisionReason::NoRatio
            }
        },
{
    let summaries = summarise(findings);
    if findings.len() == 0 {
        return DetectionDecision {
            kind: DetectionKind::NotArchive,
            action: DetectionAction::ReportOnly,
            selected_index: None,
            findings_summary: summaries,
            archive_rank: None,
            reason: DecisionReason::NoFindings,
        };
    }
    let dominant = find_dominant(findings);
    proof {
        if let Some((d, rank)) = dominant {
            assert forall|i: int| #[trigger] is_dominant(findings@, i) implies i == d by {
                dominant_is_unique(findings@, i, d as int);
            }
            assert(findings@[d as int].rank is Some);
        }
    }
    if policy.mode == EmbeddedScanMode::Ignore {
        let archive_rank: Option<u64> = match dominant {
            Some((_, rank)) => Some(rank),
            None => None,
        };
        return DetectionDecision {
            kind: DetectionKind::EmbeddedPayload,
            action: DetectionAction::SkipByDefault,
            selected_index: None,
            findings_summary: summaries,
            archive_rank,
            reason: DecisionReason::ModeIgnore,
        };
    }
    if let Some((index, rank)) = dominant {
        let finding = &findings[index];
        let enough: bool = match policy.dominant_min_rank {
            Some(least) => rank >= least,
            None => false,
        };
        let (kind, action, reason): (DetectionKind, DetectionAction, DecisionReason) =
            if finding.offset == 0 {
            if file_ext_is_archive {
                (
                    DetectionKind::DirectArchive,
                    DetectionAction::ExtractDirect,
                    DecisionReason::DirectWithExtension,
                )
            } else {
                (
                    DetectionKind::DirectArchiveDisguised,
                    DetectionAction::ExtractDirect,
                    DecisionReason::DirectDisguised,
                )
            }
        } else if enough {
            (
                DetectionKind::PrependedCarrier,
                DetectionAction::CarveAndExtract,
                DecisionReason::Dominant { offset: finding.offset },
            )
        } else {
            let action = match policy.mode {
                EmbeddedScanMode::Ask => DetectionAction::AskUser,
                EmbeddedScanMode::Auto => DetectionAction::AskUser,
                EmbeddedScanMode::Ignore => DetectionAction::SkipByDefault,
                _ => DetectionAction::CarveAndExtract,
            };
            (
                DetectionKind::EmbeddedPayload,
                action,
                DecisionReason::BelowThreshold { offset: finding.offset },
            )
        };
        return DetectionDecision {
            kind,
            action,
            selected_index: Some(index),
            findings_summary: summaries,
            archive_rank: Some(rank),
            reason,
        };
    }
    DetectionDecision {
        kind: DetectionKind::NotArchive,
        action: DetectionAction::ReportOnly,
        selected_index: None,
        findings_summary: summaries,
        archive_rank: None,
        reason: DecisionReason::NoRatio,
    }
}

/// Under the modes that ask, a finding behind the start of the file that does not dominate it is
/// left to the user.
pub proof fn minor_findings_are_asked_about(
    finding: EmbeddedArchiveFinding,
    policy: EmbeddedScanPolicy,
    file_ext_is_archive: bool,
)
    requires
        policy.mode == EmbeddedScanMode::Ask || policy.mode == EmbeddedScanMode::Auto,
        finding.offset > 0,
        !dominates(policy, finding.rank->0),
    ensures
        decided(finding, policy, file_ext_is_archive).1 == DetectionAction::AskUser,
{
}

/// The sentence that explains a decision. The percentages are those of the finding's share and
/// of the least share that dominates, in whole numbers.
pub open spec fn reason_text(
    reason: DecisionReason,
    percent: Seq<char>,
    threshold: Seq<char>,
) -> Seq<char> {
    match reason {
        DecisionReason::NoFindings => "no embedded findings"@,
        DecisionReason::ModeIgnore => "scan mode is Ignore"@,
        DecisionReason::DirectWithExtension => "archive at offset 0 with archive extension"@,
        DecisionReason::DirectDisguised =>
            "archive at offset 0 but file extension is not an archive type"@,
        DecisionReason::Dominant { offset } => "dominant finding at offset "@
            + crate::text::decimal(offset as nat) + " covers "@ + percent + "% of file"@,
        DecisionReason::BelowThreshold { offset } => "dominant finding at offset "@
            + crate::text::decimal(offset as nat) + " covers "@ + percent + "% of file (below "@
            + threshold + "% threshold)"@,
        DecisionReason::NoRatio => "no findings with calculable ratio"@,
    }
}

/// Writes the sentence that explains a decision.
pub fn describe_reason(reason: DecisionReason, percent: &str, threshold: &str) -> (r: String)
    ensures
        r@ == reason_text(reason, percent@, threshold@),
{
    match reason {
        DecisionReason::NoFindings => "no embedded findings".to_owned(),
        DecisionReason::ModeIgnore => "scan mode is Ignore".to_owned(),
        DecisionReason::DirectWithExtension => "archive at offset 0 with archive extension".to_owned(),
        DecisionReason::DirectDisguised =>
            "archive at offset 0 but file extension is not an archive type".to_owned(),
        DecisionReason::Dominant { offset } => {
            let mut out: String = "dominant finding at offset ".to_owned();
            push_decimal(&mut out, offset);
            out.append(" covers ");
            out.append(percent);
            out.append("% of file");
            out
        },
        DecisionReason::BelowThreshold { offset } => {
            let mut out: String = "dominant finding at offset ".to_owned();
            push_decimal(&mut out, offset);
            out.append(" covers ");
            out.append(percent);
            out.append("% of file (below ");
            out.append(threshold);
            out.append("% threshold)");
            out
        },
        DecisionReason::NoRatio => "no findings with calculable ratio".to_owned(),
    }
}

/// Of a file that is empty nothing is chosen, whatever was found in it: no finding has a share.
pub proof fn empty_file_has_no_shares(found: Seq<ScannedFinding>, shares: Seq<u64>, i: int)
    requires
        0 <= i < found.len(),
        shares.len() == found.len(),
    ensures
        ranked(0, found[i], shares[i]).rank is None,
        !is_dominant(
            Seq::new(found.len(), |k: int| ranked(0, found[k], shares[k])),
            i,
        ),
{
}

/// What dominates the findings of a file covers something of it, and is ranked by its own share.
pub proof fn dominant_covers_something(
    file_size: u64,
    found: Seq<ScannedFinding>,
    shares: Seq<u64>,
    i: int,
)
    requires
        shares.len() == found.len(),
        is_dominant(Seq::new(found.len(), |k: int| ranked(file_size, found[k], shares[k])), i),
    ensures
        covered(file_size, found[i].offset, found[i].size) is Some,
        ranked(file_size, found[i], shares[i]).rank == Some(shares[i]),
{
}

/// An archive at the start of a file is extracted as it stands, disguised where the file is not
/// called like an archive. One further inside is carved out where it dominates the file; where it
/// does not, the mode decides, and a mode that asks or leaves alone never carves.
pub proof fn dominant_finding_is_treated_by_its_place(
    finding: EmbeddedArchiveFinding,
    policy: EmbeddedScanPolicy,
    file_ext_is_archive: bool,
)
    requires
        finding.rank is Some,
    ensures
        ({
            let (kind, action, reason) = decided(finding, policy, file_ext_is_archive);
            let enough = policy.dominant_min_rank is Some && finding.rank->0
                >= policy.dominant_min_rank->0;
            &&& action == DetectionAction::ExtractDirect <==> finding.offset == 0
            &&& kind == DetectionKind::DirectArchive <==> finding.offset == 0
                && file_ext_is_archive
            &&& kind == DetectionKind::DirectArchiveDisguised <==> finding.offset == 0
                && !file_ext_is_archive
            &&& kind == DetectionKind::PrependedCarrier <==> finding.offset > 0 && enough
            &&& kind == DetectionKind::EmbeddedPayload <==> finding.offset > 0 && !enough
            &&& finding.offset > 0 && enough ==> action == DetectionAction::CarveAndExtract
                && reason == (DecisionReason::Dominant { offset: finding.offset })
            &&& finding.offset > 0 && !enough ==> reason == (DecisionReason::BelowThreshold {
                offset: finding.offset,
            })
            &&& finding.offset > 0 && !enough && (policy.mode == EmbeddedScanMode::Ask
                || policy.mode == EmbeddedScanMode::Auto) ==> action == DetectionAction::AskUser
            &&& finding.offset > 0 && !enough && policy.mode == EmbeddedScanMode::Ignore ==> action
                == DetectionAction::SkipByDefault
            &&& finding.offset > 0 && !enough && (policy.mode == EmbeddedScanMode::Largest
                || policy.mode == EmbeddedScanMode::Aggressive || policy.mode
                == EmbeddedScanMode::All) ==> action == DetectionAction::CarveAndExtract
            &&& action != DetectionAction::ReportOnly
        }),
{
}

/// A finding of known size covers that size, and one of unknown size all up to the end of the
/// file; what covers nothing has no share.
pub proof fn finding_covers_its_size(file_size: u64, offset: u64, size: Option<u64>)
    ensures
        covered(file_size, offset, size) matches Some(bytes) ==> bytes > 0 && file_size > 0,
        size is Some && size->0 > 0 && file_size > 0 ==> covered(file_size, offset, size) == size,
        size is None && offset < file_size ==> (covered(file_size, offset, size) matches Some(bytes)
            && offset + bytes == file_size),
        size is None && offset >= file_size ==> covered(file_size, offset, size) is None,
        size == Some(0u64) ==> covered(file_size, offset, size) is None,
{
}

/// What the user is asked about in one mode that asks is asked about in the other, nothing is done
/// where findings are ignored, and every other mode extracts.
pub proof fn modes_treat_minor_findings(mode: EmbeddedScanMode)
    ensures
        minor_action(EmbeddedScanMode::Ask) == minor_action(EmbeddedScanMode::Auto),
        minor_action(mode) == DetectionAction::AskUser <==> mode == EmbeddedScanMode::Ask || mode
            == EmbeddedScanMode::Auto,
        minor_action(mode) == DetectionAction::CarveAndExtract <==> mode
            == EmbeddedScanMode::Largest || mode == EmbeddedScanMode::Aggressive || mode
            == EmbeddedScanMode::All,
        minor_action(mode) == DetectionAction::SkipByDefault <==> mode == EmbeddedScanMode::Ignore,
{
}

} // verus!
