//! What the first bytes of a file say.

use smartzip::detect::{
    classify_by_header, detect_archive_header, detect_non_archive_header, is_archive_at_offset,
    is_archive_extension, matches_prefix, ordinary_type, DetectionKind,
};
use smartzip::types::ArchiveFormat;

#[test]
fn detects_zip_magic() {
    let data = b"PK\x03\x04rest";
    let (fmt, off) = detect_archive_header(data).unwrap();
    assert_eq!(fmt, ArchiveFormat::Zip);
    assert_eq!(off, 0);
}

#[test]
fn detects_zip_empty_central() {
    let data = b"PK\x05\x06rest";
    let (fmt, off) = detect_archive_header(data).unwrap();
    assert_eq!(fmt, ArchiveFormat::Zip);
    assert_eq!(off, 0);
}

#[test]
fn detects_rar4() {
    let data = b"Rar!\x1a\x07\x00rest";
    let (fmt, _) = detect_archive_header(data).unwrap();
    assert_eq!(fmt, ArchiveFormat::Rar);
}

#[test]
fn detects_rar5() {
    let mut data = vec![0u8; 8];
    data[..8].copy_from_slice(b"Rar!\x1a\x07\x01\x00");
    let (fmt, _) = detect_archive_header(&data).unwrap();
    assert_eq!(fmt, ArchiveFormat::Rar);
}

#[test]
fn detects_7z() {
    let mut data = vec![0u8; 6];
    data[..6].copy_from_slice(b"\x37\x7a\xbc\xaf\x27\x1c");
    let (fmt, _) = detect_archive_header(&data).unwrap();
    assert_eq!(fmt, ArchiveFormat::SevenZip);
}

#[test]
fn detects_gzip() {
    let data = b"\x1f\x8b\x08rest";
    let (fmt, _) = detect_archive_header(data).unwrap();
    assert_eq!(fmt, ArchiveFormat::Gzip);
}

#[test]
fn detects_bzip2() {
    let data = b"BZh9rest";
    let (fmt, _) = detect_archive_header(data).unwrap();
    assert_eq!(fmt, ArchiveFormat::Bzip2);
}

#[test]
fn detects_xz() {
    let mut data = vec![0u8; 6];
    data[..6].copy_from_slice(b"\xfd\x37\x7a\x58\x5a\x00");
    let (fmt, _) = detect_archive_header(&data).unwrap();
    assert_eq!(fmt, ArchiveFormat::Xz);
}

#[test]
fn detects_tar_at_offset_257() {
    let mut data = vec![0u8; 263];
    data[257..263].copy_from_slice(b"ustar\0");
    let (fmt, _) = detect_archive_header(&data).unwrap();
    assert_eq!(fmt, ArchiveFormat::Tar);
}

#[test]
fn returns_none_for_too_short() {
    assert!(detect_archive_header(b"PK").is_none());
    assert!(detect_archive_header(b"").is_none());
}

#[test]
fn returns_none_for_unknown() {
    assert!(detect_archive_header(b"hello world").is_none());
}

#[test]
fn is_archive_at_offset_works() {
    let mut data = vec![0u8; 128];
    data[64..68].copy_from_slice(b"PK\x03\x04");
    assert!(is_archive_at_offset(&data, 64));
    assert!(!is_archive_at_offset(&data, 0));
    assert!(!is_archive_at_offset(&data, 999));
}

#[test]
fn detects_jpeg() {
    let data = b"\xff\xd8\xff\xe0rest";
    assert!(detect_non_archive_header(data));
}

#[test]
fn detects_png() {
    let mut data = vec![0u8; 8];
    data[..8].copy_from_slice(b"\x89PNG\r\n\x1a\n");
    assert!(detect_non_archive_header(&data));
}

#[test]
fn detects_pdf() {
    let data = b"%PDF-1.4rest";
    assert!(detect_non_archive_header(data));
}

#[test]
fn detects_elf() {
    // infer's ELF matcher requires >52 bytes
    let mut data = vec![0u8; 64];
    data[0..4].copy_from_slice(b"\x7fELF");
    data[1..4].copy_from_slice(b"ELF");
    assert!(detect_non_archive_header(&data));
}

#[test]
fn detects_riff() {
    // infer detects WAV (RIFF/WAVE) not generic RIFF
    let mut data = vec![0u8; 16];
    data[0..4].copy_from_slice(b"RIFF");
    data[8..12].copy_from_slice(b"WAVE");
    assert!(detect_non_archive_header(&data));
}

#[test]
fn detects_exe() {
    let data = b"MZ\x90\x00rest";
    assert!(detect_non_archive_header(data));
}

#[test]
fn detects_mp4() {
    let mut data = vec![0u8; 16];
    data[0..3].copy_from_slice(b"\x00\x00\x00");
    data[4..8].copy_from_slice(b"ftyp");
    data[8..12].copy_from_slice(b"isom");
    assert!(detect_non_archive_header(&data));
}

#[test]
fn non_archive_returns_false_for_empty() {
    assert!(!detect_non_archive_header(b""));
}

#[test]
fn non_archive_returns_false_for_archive_header() {
    assert!(!detect_non_archive_header(b"PK\x03\x04"));
}

#[test]
fn classify_direct_archive() {
    assert_eq!(
        classify_by_header(Some(ArchiveFormat::Zip), false, false),
        DetectionKind::DirectArchive
    );
}

#[test]
fn classify_not_archive_with_header() {
    assert_eq!(
        classify_by_header(None, true, false),
        DetectionKind::NotArchive
    );
}

#[test]
fn classify_not_archive_ext_but_non_archive_header() {
    assert_eq!(
        classify_by_header(None, true, true),
        DetectionKind::NotArchive
    );
}

#[test]
fn classify_ambiguous_ext_only() {
    assert_eq!(
        classify_by_header(None, false, true),
        DetectionKind::Ambiguous
    );
}

#[test]
fn classify_not_archive_nothing() {
    assert_eq!(
        classify_by_header(None, false, false),
        DetectionKind::NotArchive
    );
}

#[test]
fn probe_file_header_reads_zip() {
    assert_eq!(
        detect_archive_header(b"PK\x03\x04some data here"),
        Some((ArchiveFormat::Zip, 0))
    );
}

#[test]
fn probe_file_header_returns_none_for_unknown() {
    assert!(detect_archive_header(b"hello world this is not an archive").is_none());
}

#[test]
fn prefix_is_no_longer_than_the_bytes() {
    assert!(matches_prefix(b"abc", b"ab"));
    assert!(matches_prefix(b"ab", b""));
    assert!(!matches_prefix(b"a", b"ab"));
    assert!(!matches_prefix(b"xb", b"ab"));
}

#[test]
fn ordinary_types_are_no_archives() {
    assert!(is_archive_extension("7z"));
    assert!(!is_archive_extension("jpg"));
    assert!(ordinary_type(&Some("jpg".to_string())));
    assert!(!ordinary_type(&Some("zip".to_string())));
    assert!(!ordinary_type(&None));
}

#[test]
fn plain_text_is_of_no_known_type() {
    assert!(!detect_non_archive_header(b"hello world"));
}

#[test]
fn tar_signature_needs_its_place() {
    let mut data = vec![0u8; 262];
    data[256..262].copy_from_slice(b"ustar\0");
    assert!(detect_archive_header(&data).is_none());
}
