//! What is known of files from earlier extractions.

use smartzip::known_files::{KnownFile, KnownFileRepository, NameOffset};

fn no(name: &str, offset: Option<i64>) -> NameOffset {
    NameOffset { name: name.to_string(), offset }
}

fn extract(
    repo: &mut KnownFileRepository,
    hash: &str,
    size: i64,
    name: Option<NameOffset>,
    password_id: Option<i64>,
    at: &str,
) {
    repo.upsert_extract(hash.to_string(), size, name, password_id, at.to_string());
}

fn confirm(
    repo: &mut KnownFileRepository,
    hash: &str,
    size: i64,
    name: Option<NameOffset>,
    encoding: &str,
) {
    repo.upsert_confirmed_encoding(hash.to_string(), size, name, encoding.to_string());
}

fn find<'a>(repo: &'a KnownFileRepository, hash: &str, size: i64) -> &'a KnownFile {
    &repo.rows[repo.find(hash, size).unwrap()]
}

#[test]
fn upsert_extract_creates_then_appends_names() {
    let mut repo = KnownFileRepository::new();
    extract(&mut repo, "h", 100, Some(no("a.zip", None)), Some(1), "2026-07-02T00:00:00Z");
    extract(&mut repo, "h", 100, Some(no("inner", Some(2048))), None, "2026-07-03T00:00:00Z");

    let got = find(&repo, "h", 100);
    assert_eq!(got.names_offsets, vec![no("a.zip", None), no("inner", Some(2048))]);
    assert_eq!(got.password_id, Some(1));
    assert_eq!(got.last_extract_at.as_deref(), Some("2026-07-03T00:00:00Z"));
}

#[test]
fn duplicate_name_offset_not_appended_twice() {
    let mut repo = KnownFileRepository::new();
    extract(&mut repo, "h", 1, Some(no("a", None)), None, "2026-07-02T00:00:00Z");
    extract(&mut repo, "h", 1, Some(no("a", None)), None, "2026-07-02T00:00:01Z");
    assert_eq!(find(&repo, "h", 1).names_offsets.len(), 1);
}

#[test]
fn extract_never_overwrites_confirmed_encoding() {
    let mut repo = KnownFileRepository::new();
    confirm(&mut repo, "h", 1, Some(no("a", None)), "gb18030");
    extract(&mut repo, "h", 1, None, Some(1), "2026-07-02T00:00:00Z");
    let got = find(&repo, "h", 1);
    assert_eq!(got.confirmed_encoding.as_deref(), Some("gb18030"));
    assert_eq!(got.last_extract_at.as_deref(), Some("2026-07-02T00:00:00Z"));
    assert_eq!(got.password_id, Some(1));
}

#[test]
fn confirmed_encoding_overwrites_prior_value() {
    let mut repo = KnownFileRepository::new();
    confirm(&mut repo, "h", 1, None, "gbk");
    confirm(&mut repo, "h", 1, None, "gb18030");
    assert_eq!(find(&repo, "h", 1).confirmed_encoding.as_deref(), Some("gb18030"));
}

#[test]
fn confirmed_encoding_does_not_set_last_extract_at() {
    let mut repo = KnownFileRepository::new();
    confirm(&mut repo, "h", 1, None, "gbk");
    assert!(find(&repo, "h", 1).last_extract_at.is_none());
}

#[test]
fn dedup_hit_respects_window() {
    let mut repo = KnownFileRepository::new();
    extract(&mut repo, "h", 1, None, None, "2026-06-15T00:00:00Z");
    assert!(repo.dedup_hit("h", 1, "2026-06-01T00:00:00Z"));
    assert!(!repo.dedup_hit("h", 1, "2026-07-01T00:00:00Z"));
}

#[test]
fn dedup_miss_when_only_encoding_confirmed() {
    let mut repo = KnownFileRepository::new();
    confirm(&mut repo, "h", 1, None, "gbk");
    assert!(!repo.dedup_hit("h", 1, "2000-01-01T00:00:00Z"));
}

#[test]
fn files_are_told_apart_by_hash_and_size() {
    let mut repo = KnownFileRepository::new();
    extract(&mut repo, "h", 1, None, None, "2026-06-15T00:00:00Z");
    assert!(repo.find("h", 2).is_none());
    assert!(repo.find("g", 1).is_none());
    assert!(!repo.dedup_hit("h", 2, "2000-01-01T00:00:00Z"));
}
