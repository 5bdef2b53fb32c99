//! Where a ZIP file inside another file ends.

use smartzip::embedded_zip::{detect_zip_end, search_start};

const EOCD_SIGNATURE: [u8; 4] = [0x50, 0x4b, 0x05, 0x06];

fn make_eocd(comment: &[u8]) -> Vec<u8> {
    let mut buf = Vec::new();
    buf.extend_from_slice(&EOCD_SIGNATURE);
    buf.extend_from_slice(&[0u8; 16]);
    let comment_len = comment.len() as u16;
    buf.extend_from_slice(&comment_len.to_le_bytes());
    buf.extend_from_slice(comment);
    buf
}

fn detect(file: &[u8], zip_start_offset: u64) -> Option<u64> {
    let at = search_start(file.len() as u64, zip_start_offset)?;
    detect_zip_end(at, &file[at as usize..])
}

#[test]
fn detect_zip_end_finds_eocd() {
    let mut file = vec![0xFF; 128];
    file.extend_from_slice(&make_eocd(b""));
    file.extend_from_slice(&[0xAB; 64]);
    assert_eq!(detect(&file, 0), Some(150));
}

#[test]
fn detect_zip_end_returns_none_when_no_eocd() {
    assert_eq!(detect(&[0xAA; 200], 0), None);
}

#[test]
fn detect_zip_end_with_comment() {
    let comment = b"this is a zip comment";
    let mut file = vec![0xFF; 50];
    let eocd_start = 50u64;
    file.extend_from_slice(&make_eocd(comment));
    file.extend_from_slice(&[0xCC; 30]);
    assert_eq!(detect(&file, 0), Some(eocd_start + 22 + comment.len() as u64));
}

#[test]
fn detect_zip_end_respects_zip_start_offset() {
    let mut file = vec![0xFF; 50];
    file.extend_from_slice(&make_eocd(b""));
    assert_eq!(detect(&file, 60), None);
    assert_eq!(detect(&file, 0), Some(72));
}

#[test]
fn last_record_that_fits_counts() {
    let mut file = make_eocd(b"");
    file.extend_from_slice(&make_eocd(b"xy"));
    file.pop();
    assert_eq!(detect(&file, 0), Some(22));
}

#[test]
fn search_covers_the_longest_record() {
    assert_eq!(search_start(10, 10), None);
    assert_eq!(search_start(11, 10), Some(10));
    assert_eq!(search_start(1_000_000, 0), Some(1_000_000 - 65_557));
    assert_eq!(search_start(1_000_000, 999_999), Some(999_999));
}
