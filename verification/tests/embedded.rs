//! Which archive inside a file is worth extracting.

use smartzip::detect::DetectionKind;
use smartzip::embedded::{
    describe_reason, effective_size, find_dominant, rank_finding, rank_findings,
    select_embedded_action, Confidence, DecisionReason, DetectionAction, DetectionDecision,
    EmbeddedArchiveFinding, EmbeddedScanMode, EmbeddedScanPolicy, ScannedFinding,
};
use smartzip::types::ArchiveFormat;

fn finding(offset: u64, size: Option<u64>, format: ArchiveFormat) -> EmbeddedArchiveFinding {
    EmbeddedArchiveFinding { offset, size, format, confidence: Confidence::High, rank: None }
}

fn compute_ratio(file_size: u64, finding: &EmbeddedArchiveFinding) -> Option<f64> {
    effective_size(file_size, finding.offset, finding.size)
        .map(|effective| effective as f64 / file_size as f64)
}

fn default_policy() -> EmbeddedScanPolicy {
    EmbeddedScanPolicy {
        mode: EmbeddedScanMode::Auto,
        dominant_min_rank: Some(0.70f64.to_bits()),
        min_finding_size_bytes: 0,
    }
}

fn scanned(offset: u64, size: Option<u64>) -> ScannedFinding {
    ScannedFinding { offset, size, format: ArchiveFormat::Zip, confidence: Confidence::High }
}

fn decide(
    file_size: u64,
    findings: Vec<EmbeddedArchiveFinding>,
    policy: &EmbeddedScanPolicy,
    file_ext_is_archive: bool,
) -> DetectionDecision {
    let shares = findings
        .iter()
        .map(|finding| compute_ratio(file_size, finding).map_or(0, f64::to_bits))
        .collect();
    let found = findings
        .into_iter()
        .map(|f| ScannedFinding {
            offset: f.offset,
            size: f.size,
            format: f.format,
            confidence: f.confidence,
        })
        .collect();
    let ranked = rank_findings(file_size, found, &shares);
    select_embedded_action(&ranked, policy, file_ext_is_archive)
}

#[test]
fn only_findings_with_a_share_are_ranked() {
    let found = vec![scanned(0, Some(10)), scanned(100, None), scanned(40, None)];
    let ranked = rank_findings(100, found, &vec![7, 8, 9]);
    let ranks: Vec<_> = ranked.iter().map(|finding| finding.rank).collect();
    assert_eq!(ranks, vec![Some(7), None, Some(9)]);
    assert_eq!((ranked[2].offset, ranked[2].size), (40, None));
    assert_eq!(rank_finding(0, scanned(0, Some(10)), 5).rank, None);
    assert_eq!(rank_finding(20, scanned(0, Some(10)), 5).rank, Some(5));
}

#[test]
fn zero_findings() {
    let d = decide(1024, vec![], &default_policy(), false);
    assert_eq!(d.kind, DetectionKind::NotArchive);
    assert_eq!(d.action, DetectionAction::ReportOnly);
    assert!(d.selected_index.is_none());
    assert!(d.findings_summary.is_empty());
}

#[test]
fn offset_zero_direct() {
    let f = finding(0, Some(100), ArchiveFormat::Zip);
    let d = decide(100, vec![f], &default_policy(), true);
    assert_eq!(d.kind, DetectionKind::DirectArchive);
    assert_eq!(d.action, DetectionAction::ExtractDirect);
    assert_eq!(d.selected_index, Some(0));
}

#[test]
fn offset_zero_disguised() {
    let f = finding(0, Some(100), ArchiveFormat::Zip);
    let d = decide(100, vec![f], &default_policy(), false);
    assert_eq!(d.kind, DetectionKind::DirectArchiveDisguised);
    assert_eq!(d.action, DetectionAction::ExtractDirect);
}

#[test]
fn dominant_prepended() {
    // prefix.jpg 1KB + rar 99KB = 100KB total, rar ratio 99%
    let f = finding(1024, Some(99 * 1024), ArchiveFormat::Rar);
    let d = decide(100 * 1024, vec![f], &default_policy(), false);
    assert_eq!(d.kind, DetectionKind::PrependedCarrier);
    assert_eq!(d.action, DetectionAction::CarveAndExtract);
    assert_eq!(d.selected_index, Some(0));
    let ratio = f64::from_bits(d.archive_rank.unwrap());
    assert!(ratio >= 0.90, "ratio was {ratio}");
}

#[test]
fn low_ratio() {
    // 10MB image + 5MB zip: ratio = 5/15 ≈ 0.33
    let f = finding(10 * 1024 * 1024, Some(5 * 1024 * 1024), ArchiveFormat::Zip);
    let total = 15 * 1024 * 1024;
    let d = decide(total, vec![f], &default_policy(), false);
    assert_eq!(d.kind, DetectionKind::EmbeddedPayload);
    assert_eq!(d.action, DetectionAction::AskUser);
}

#[test]
fn multi_finding_largest() {
    // 8KB jpg prefix + 80KB RAR + 12KB junk = 100KB. RAR ratio = 80%
    let f1 = finding(0, Some(8 * 1024), ArchiveFormat::Zip);
    let f2 = finding(8 * 1024, Some(80 * 1024), ArchiveFormat::Rar);
    let f3 = finding(88 * 1024, Some(12 * 1024), ArchiveFormat::Gzip);
    let d = decide(100 * 1024, vec![f1, f2, f3], &default_policy(), false);
    assert_eq!(d.selected_index, Some(1), "should select RAR as dominant");
    assert_eq!(d.kind, DetectionKind::PrependedCarrier);
    assert_eq!(d.action, DetectionAction::CarveAndExtract);
    let ratio = f64::from_bits(d.archive_rank.unwrap());
    assert!(ratio >= 0.75, "ratio was {ratio}");
}

#[test]
fn multi_finding_no_dominant() {
    // 40KB + 40KB + 20KB = 100KB. Largest is 40% < 70% threshold
    let f1 = finding(0, Some(40 * 1024), ArchiveFormat::Zip);
    let f2 = finding(40 * 1024, Some(40 * 1024), ArchiveFormat::Rar);
    let d = decide(100 * 1024, vec![f1, f2], &default_policy(), false);
    assert_eq!(d.kind, DetectionKind::EmbeddedPayload);
    assert_eq!(d.action, DetectionAction::AskUser);
}

#[test]
fn ask_mode() {
    let f = finding(1024, Some(5 * 1024), ArchiveFormat::Zip);
    let mut policy = default_policy();
    policy.mode = EmbeddedScanMode::Ask;
    let d = decide(10 * 1024, vec![f], &policy, false);
    assert_eq!(d.kind, DetectionKind::EmbeddedPayload);
    assert_eq!(d.action, DetectionAction::AskUser);
}

#[test]
fn ignore_mode() {
    let f = finding(0, Some(100), ArchiveFormat::Zip);
    let mut policy = default_policy();
    policy.mode = EmbeddedScanMode::Ignore;
    let d = decide(100, vec![f], &policy, true);
    assert_eq!(d.action, DetectionAction::SkipByDefault);
}

#[test]
fn size_none_estimates_to_eof() {
    // size=None at offset=10 in a 100-byte file → effective = 90
    let f = finding(10, None, ArchiveFormat::Rar);
    let d = decide(100, vec![f], &default_policy(), false);
    let ratio = f64::from_bits(d.archive_rank.unwrap());
    assert!((ratio - 0.90).abs() < 0.01, "expected ~0.90, got {ratio}");
    assert_eq!(d.kind, DetectionKind::PrependedCarrier);
}

#[test]
fn compute_ratio_basic() {
    let f = finding(10, Some(90), ArchiveFormat::Zip);
    let r = compute_ratio(100, &f).unwrap();
    assert!((r - 0.90).abs() < f64::EPSILON);
}

#[test]
fn compute_ratio_zero_file_size() {
    let f = finding(0, Some(100), ArchiveFormat::Zip);
    assert!(compute_ratio(0, &f).is_none());
}

#[test]
fn compute_ratio_none_size_uses_eof() {
    let f = finding(20, None, ArchiveFormat::Zip);
    let r = compute_ratio(100, &f).unwrap();
    assert!((r - 0.80).abs() < f64::EPSILON);
}

#[test]
fn compute_ratio_offset_at_eof() {
    let f = finding(100, None, ArchiveFormat::Zip);
    assert!(compute_ratio(100, &f).is_none());
}

#[test]
fn findings_summary_populated() {
    let f = finding(50, Some(50), ArchiveFormat::Rar);
    let d = decide(100, vec![f], &default_policy(), false);
    assert_eq!(d.findings_summary.len(), 1);
    assert_eq!(d.findings_summary[0].offset, 50);
    assert_eq!(d.findings_summary[0].format, "rar");
    assert!(d.findings_summary[0].rank.is_some());
}

#[test]
fn reasons_are_told() {
    let none = decide(1024, vec![], &default_policy(), false);
    assert_eq!(none.reason, DecisionReason::NoFindings);
    let no_share = decide(0, vec![finding(0, Some(1), ArchiveFormat::Zip)], &default_policy(), true);
    assert_eq!(no_share.reason, DecisionReason::NoRatio);
    assert_eq!(no_share.kind, DetectionKind::NotArchive);
    assert_eq!(no_share.action, DetectionAction::ReportOnly);
    let carrier = decide(100, vec![finding(10, None, ArchiveFormat::Zip)], &default_policy(), true);
    assert_eq!(carrier.reason, DecisionReason::Dominant { offset: 10 });
    let minor = decide(100, vec![finding(90, None, ArchiveFormat::Zip)], &default_policy(), true);
    assert_eq!(minor.reason, DecisionReason::BelowThreshold { offset: 90 });
}

#[test]
fn eager_modes_carve_minor_findings() {
    for mode in [EmbeddedScanMode::Largest, EmbeddedScanMode::Aggressive, EmbeddedScanMode::All] {
        let mut policy = default_policy();
        policy.mode = mode;
        let d = decide(100, vec![finding(90, None, ArchiveFormat::Zip)], &policy, false);
        assert_eq!(d.action, DetectionAction::CarveAndExtract);
        assert_eq!(d.kind, DetectionKind::EmbeddedPayload);
    }
}

#[test]
fn last_of_equal_findings_dominates() {
    let findings = vec![
        EmbeddedArchiveFinding { rank: Some(7), ..finding(1, None, ArchiveFormat::Zip) },
        EmbeddedArchiveFinding { rank: Some(7), ..finding(2, None, ArchiveFormat::Rar) },
        finding(3, None, ArchiveFormat::Tar),
    ];
    assert_eq!(find_dominant(&findings), Some((1, 7)));
    assert_eq!(find_dominant(&vec![]), None);
}

#[test]
fn confidence_has_a_word() {
    assert_eq!(Confidence::Low.as_str(), "low");
    assert_eq!(Confidence::Medium.as_str(), "medium");
    assert_eq!(Confidence::High.as_str(), "high");
}

#[test]
fn reasons_have_words() {
    assert_eq!(describe_reason(DecisionReason::NoFindings, "", ""), "no embedded findings");
    assert_eq!(describe_reason(DecisionReason::ModeIgnore, "", ""), "scan mode is Ignore");
    assert_eq!(
        describe_reason(DecisionReason::Dominant { offset: 1024 }, "99", "70"),
        "dominant finding at offset 1024 covers 99% of file"
    );
    assert_eq!(
        describe_reason(DecisionReason::BelowThreshold { offset: 8 }, "33", "70"),
        "dominant finding at offset 8 covers 33% of file (below 70% threshold)"
    );
    assert_eq!(
        describe_reason(DecisionReason::NoRatio, "", ""),
        "no findings with calculable ratio"
    );
}
