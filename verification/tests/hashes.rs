//! The hashes that stand for paths and for content.

use smartzip::path_hash::path_hash;
use smartzip::sample_hash::{
    hash_parts, sample_hash, sample_hash_segment, sample_plan, segment_plan,
};

#[test]
fn same_path_hashes_identically() {
    let path = b"/tmp/does-not-exist/archive.zip";
    assert_eq!(path_hash(None, path), path_hash(None, path));
}

#[test]
fn distinct_paths_hash_differently() {
    assert_ne!(path_hash(None, b"/tmp/a.zip"), path_hash(None, b"/tmp/b.zip"));
}

#[test]
fn hash_is_lowercase_hex_of_fixed_length() {
    let hash = path_hash(None, b"/tmp/does-not-exist/archive.zip");
    assert_eq!(hash.len(), 64);
    assert!(hash.chars().all(|c| c.is_ascii_hexdigit() && !c.is_ascii_uppercase()));
}

#[test]
fn resolved_path_is_hashed_where_there_is_one() {
    assert_eq!(path_hash(Some(b"/real"), b"/link"), path_hash(None, b"/real"));
    assert_ne!(path_hash(Some(b"/real"), b"/link"), path_hash(None, b"/link"));
}

#[test]
fn path_hash_is_sha256() {
    assert_eq!(
        path_hash(None, b"abc"),
        "ba7816bf8f01cfea414140de5dae2223b00361a396177a9cb410ff61f20015ad"
    );
}

#[test]
fn small_file_hashes_full_content() {
    let (ha, sa) = sample_hash(b"hello world");
    let (hb, sb) = sample_hash(b"hello world");
    assert_eq!(ha, hb);
    assert_eq!(sa, 11);
    assert_eq!(sb, 11);
}

#[test]
fn small_files_differing_content_differ() {
    assert_ne!(sample_hash(b"hello world").0, sample_hash(b"hello WORLD").0);
}

#[test]
fn large_file_samples_head_and_tail() {
    let mut data = vec![0u8; 256 * 1024];
    for (i, byte) in data.iter_mut().enumerate() {
        *byte = (i % 251) as u8;
    }
    let (h, size) = sample_hash(&data);
    assert_eq!(size, 256 * 1024);
    assert_eq!(h.len(), 64);

    let mut middle_changed = data.clone();
    middle_changed[128 * 1024] ^= 0xFF;
    assert_eq!(sample_hash(&middle_changed).0, h);

    let mut head_changed = data.clone();
    head_changed[0] ^= 0xFF;
    assert_ne!(sample_hash(&head_changed).0, h);

    let plan = sample_plan(0, size);
    let head = &data[plan.head_offset as usize..(plan.head_offset + plan.head_len) as usize];
    let tail = &data[plan.tail_offset as usize..(plan.tail_offset + plan.tail_len) as usize];
    assert_eq!(hash_parts(head, tail), h);
}

#[test]
fn segment_unknown_size_returns_none() {
    assert!(sample_hash_segment(b"abcdefgh", 0, None).is_none());
    assert!(segment_plan(0, None).is_none());
    assert!(segment_plan(0, Some(0)).is_none());
}

#[test]
fn segment_hashes_requested_range() {
    let (ha, sa) = sample_hash_segment(b"XXhelloYY", 2, Some(5)).unwrap();
    let (hb, _) = sample_hash_segment(b"ZZhelloWW", 2, Some(5)).unwrap();
    assert_eq!(ha, hb);
    assert_eq!(sa, 5);
    assert_eq!(ha, sample_hash(b"hello").0);
}

#[test]
fn segment_beyond_its_host_has_no_hash() {
    assert!(sample_hash_segment(b"abc", 2, Some(2)).is_none());
    assert!(sample_hash_segment(b"abc", 2, Some(1)).is_some());
}

#[test]
fn sample_hash_is_blake3() {
    assert_eq!(
        sample_hash(b"").0,
        "af1349b9f5f9a1a6a0404dea36dcc9499bcb25c9adc112b7cc9a93cae41f3262"
    );
}
