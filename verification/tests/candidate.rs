//! What is tried on a candidate, and what its file is worth.

use smartzip::types::{
    ArchiveFormat, CandidateSource, ExtractionCandidate, PasswordCandidate, PasswordSource,
};
use smartzip::workflow::candidate::{
    finding_meets_min_size, format_from_extension, is_recyclable, order_candidates,
    output_dir_for_candidate, source_paths,
};

fn password_candidate(value: &str, source: PasswordSource) -> PasswordCandidate {
    PasswordCandidate { id: None, value: value.to_string(), source }
}

fn candidate(path: &str, relative_path: &str, depth: usize, source: CandidateSource) -> ExtractionCandidate {
    ExtractionCandidate {
        path: path.to_string(),
        relative_path: relative_path.to_string(),
        depth,
        source,
        detected_format: Some(ArchiveFormat::Zip),
        embedded_offset: None,
        embedded_size: None,
    }
}

#[test]
fn password_order_is_explicit_then_known_then_batch_then_database() {
    let base = vec![
        password_candidate("cli", PasswordSource::Manual),
        password_candidate("", PasswordSource::Empty),
        password_candidate("db", PasswordSource::Database),
    ];
    let known = password_candidate("known", PasswordSource::Database);
    let batch = vec![password_candidate("batch", PasswordSource::Recent)];
    let ordered = order_candidates(&base, &Some(known), &batch);
    assert_eq!(
        ordered.iter().map(|candidate| candidate.value.as_str()).collect::<Vec<_>>(),
        vec!["cli", "known", "batch", "", "db"],
    );
}

#[test]
fn no_password_is_tried_twice() {
    let base = vec![
        password_candidate("a", PasswordSource::Database),
        password_candidate("b", PasswordSource::Manual),
        password_candidate("c", PasswordSource::Database),
    ];
    let batch = vec![
        password_candidate("c", PasswordSource::Recent),
        password_candidate("b", PasswordSource::Recent),
    ];
    let ordered = order_candidates(&base, &None, &batch);
    let values: Vec<&str> = ordered.iter().map(|p| p.value.as_str()).collect();
    assert_eq!(values, vec!["b", "c", "a"]);
    assert_eq!(ordered[1].source, PasswordSource::Recent);
}

#[test]
fn nested_candidate_output_uses_archive_parent_as_global_output_root() {
    let root = candidate("/inputs/outer.zip", "outer", 0, CandidateSource::RootInput);
    let nested = candidate(
        "/managed-output/outer/inner.zip",
        "outer/inner",
        1,
        CandidateSource::ExtractedFile,
    );
    assert_eq!(output_dir_for_candidate("/managed-output", &root), "/managed-output/outer");
    assert_eq!(output_dir_for_candidate("/managed-output", &nested), "/managed-output/outer/inner");
}

#[test]
fn only_regular_extracted_archives_inside_output_are_recyclable() {
    let mut candidate =
        candidate("/root/output/inner.zip", "inner", 1, CandidateSource::ExtractedFile);
    assert!(is_recyclable(&candidate, "/root/output"));

    candidate.source = CandidateSource::RootInput;
    assert!(!is_recyclable(&candidate, "/root/output"));

    candidate.source = CandidateSource::EmbeddedFinding;
    assert!(!is_recyclable(&candidate, "/root/output"));

    candidate.source = CandidateSource::ExtractedFile;
    candidate.embedded_offset = Some(0);
    assert!(is_recyclable(&candidate, "/root/output"));

    candidate.embedded_offset = Some(16);
    assert!(!is_recyclable(&candidate, "/root/output"));

    candidate.embedded_offset = None;
    candidate.path = "/root/outside.zip".to_string();
    assert!(!is_recyclable(&candidate, "/root/output"));
}

#[test]
fn format_from_extension_parametrized() {
    for (path, expected) in [
        ("a.zip", Some(ArchiveFormat::Zip)),
        ("a.7z", Some(ArchiveFormat::SevenZip)),
        ("a.rar", Some(ArchiveFormat::Rar)),
        ("a.tar", Some(ArchiveFormat::Tar)),
        ("a.gz", Some(ArchiveFormat::Gzip)),
        ("a.gzip", Some(ArchiveFormat::Gzip)),
        ("a.tgz", Some(ArchiveFormat::Gzip)),
        ("a.bz2", Some(ArchiveFormat::Bzip2)),
        ("a.xz", Some(ArchiveFormat::Xz)),
        ("a.cab", Some(ArchiveFormat::Cab)),
        ("a.iso", Some(ArchiveFormat::Iso)),
        ("a.dmg", Some(ArchiveFormat::Dmg)),
        ("a.zst", Some(ArchiveFormat::Zstd)),
        ("a.zstd", Some(ArchiveFormat::Zstd)),
        ("a.lz4", Some(ArchiveFormat::Lz4)),
        ("a.lzma", Some(ArchiveFormat::Lzma)),
        ("a.txt", None),
        ("a.bin", None),
        ("no-extension", None),
        ("a.ZIP", Some(ArchiveFormat::Zip)),
        ("A.7Z", Some(ArchiveFormat::SevenZip)),
    ] {
        assert_eq!(format_from_extension(path), expected);
    }
}

#[test]
fn small_findings_do_not_count() {
    assert!(!finding_meets_min_size(Some(9), 10));
    assert!(finding_meets_min_size(Some(10), 10));
    assert!(finding_meets_min_size(None, 10));
}

#[test]
fn extracted_root_came_from_its_volumes() {
    let members = Some(vec!["/in/a.001".to_string(), "/in/a.002".to_string()]);
    let of = |source, members| source_paths(source, members, "/in/a.001");
    assert_eq!(of(CandidateSource::RootInput, &members), vec!["/in/a.001", "/in/a.002"]);
    assert_eq!(of(CandidateSource::RootInput, &None), vec!["/in/a.001"]);
    assert!(of(CandidateSource::ExtractedFile, &members).is_empty());
}
