//! What the first bytes of a file say about it.

use vstd::prelude::*;
use crate::text::same_text;
use crate::types::ArchiveFormat;

verus! {

/// What a file is taken for.
#[derive(Clone, Copy, Debug, PartialEq, Eq, Structural)]
pub enum DetectionKind {
    NotArchive,
    DirectArchive,
    DirectArchiveDisguised,
    PrependedCarrier,
    EmbeddedPayload,
    Ambiguous,
}

/// `bytes` start with `magic`.
pub open spec fn starts(bytes: Seq<u8>, magic: Seq<u8>) -> bool {
    magic.len() <= bytes.len() && bytes.take(magic.len() as int) == magic
}

/// `magic` stands at `offset`.
pub open spec fn stands_at(bytes: Seq<u8>, magic: Seq<u8>, offset: int) -> bool {
    offset + magic.len() <= bytes.len() && bytes.subrange(offset, offset + magic.len()) == magic
}

pub open spec fn magic_zip() -> Seq<u8> {
    seq![0x50u8, 0x4b, 0x03, 0x04]
}

pub open spec fn magic_zip_empty() -> Seq<u8> {
    seq![0x50u8, 0x4b, 0x05, 0x06]
}

pub open spec fn magic_rar4() -> Seq<u8> {
    seq![0x52u8, 0x61, 0x72, 0x21, 0x1a, 0x07, 0x00]
}

pub open spec fn magic_rar5() -> Seq<u8> {
    seq![0x52u8, 0x61, 0x72, 0x21, 0x1a, 0x07, 0x01, 0x00]
}

pub open spec fn magic_7z() -> Seq<u8> {
    seq![0x37u8, 0x7a, 0xbc, 0xaf, 0x27, 0x1c]
}

pub open spec fn magic_gzip() -> Seq<u8> {
    seq![0x1fu8, 0x8b]
}

pub open spec fn magic_bzip2() -> Seq<u8> {
    seq![0x42u8, 0x5a]
}

pub open spec fn magic_xz() -> Seq<u8> {
    seq![0xfdu8, 0x37, 0x7a, 0x58, 0x5a, 0x00]
}

pub open spec fn magic_tar() -> Seq<u8> {
    seq![0x75u8, 0x73, 0x74, 0x61, 0x72, 0x00]
}

/// The format whose signature the bytes carry. Fewer than six bytes carry none.
pub open spec fn header_format(bytes: Seq<u8>) -> Option<ArchiveFormat> {
    if bytes.len() < 6 {
        None
    } else if starts(bytes, magic_zip()) || starts(bytes, magic_zip_empty()) {
        Some(ArchiveFormat::Zip)
    } else if starts(bytes, magic_rar5()) || starts(bytes, magic_rar4()) {
        Some(ArchiveFormat::Rar)
    } else if starts(bytes, magic_7z()) {
        Some(ArchiveFormat::SevenZip)
    } else if starts(bytes, magic_gzip()) {
        Some(ArchiveFormat::Gzip)
    } else if starts(bytes, magic_bzip2()) {
        Some(ArchiveFormat::Bzip2)
    } else if starts(bytes, magic_xz()) {
        Some(ArchiveFormat::Xz)
    } else if stands_at(bytes, magic_tar(), 257) {
        Some(ArchiveFormat::Tar)
    } else {
        None
    }
}

fn matches_at(haystack: &[u8], needle: &[u8], offset: usize) -> (r: bool)
    ensures
        r == stands_at(haystack@, needle@, offset as int),
{
    if offset > haystack.len() || needle.len() > haystack.len() - offset {
        return false;
    }
    let mut i: usize = 0;
    while i < needle.len()
        invariant
            i <= needle@.len(),
            offset + needle@.len() <= haystack@.len(),
            haystack@.len() <= usize::MAX,
            forall|k: int| 0 <= k < i ==> haystack@[offset + k] == #[trigger] needle@[k],
        decreases needle.len() - i,
    {
        if haystack[offset + i] != needle[i] {
            proof {
                assert(haystack@.subrange(offset as int, offset + needle@.len())[i as int]
                    != needle@[i as int]);
            }
            return false;
        }
        i += 1;
    }
    assert(haystack@.subrange(offset as int, offset + needle@.len()) =~= needle@);
    true
}

/// Whether `haystack` starts with `needle`.
pub fn matches_prefix(haystack: &[u8], needle: &[u8]) -> (r: bool)
    ensures
        r == starts(haystack@, needle@),
{
    let r = matches_at(haystack, needle, 0);
    proof {
        if needle@.len() <= haystack@.len() {
            assert(haystack@.subrange(0, needle@.len() as int) =~= haystack@.take(
                needle@.len() as int,
            ));
        }
    }
    r
}

/// The format whose signature the bytes carry, and where the archive starts.
pub fn detect_archive_header(bytes: &[u8]) -> (r: Option<(ArchiveFormat, u64)>)
    ensures
        match r {
            Some((format, offset)) => header_format(bytes@) == Some(format) && offset == 0,
            None => header_format(bytes@) is None,
        },
{
    if bytes.len() < 6 {
        return None;
    }
    let zip: [u8; 4] = [0x50, 0x4b, 0x03, 0x04];
    let zip_empty: [u8; 4] = [0x50, 0x4b, 0x05, 0x06];
    let rar4: [u8; 7] = [0x52, 0x61, 0x72, 0x21, 0x1a, 0x07, 0x00];
    let rar5: [u8; 8] = [0x52, 0x61, 0x72, 0x21, 0x1a, 0x07, 0x01, 0x00];
    let seven_zip: [u8; 6] = [0x37, 0x7a, 0xbc, 0xaf, 0x27, 0x1c];
    let gzip: [u8; 2] = [0x1f, 0x8b];
    let bzip2: [u8; 2] = [0x42, 0x5a];
    let xz: [u8; 6] = [0xfd, 0x37, 0x7a, 0x58, 0x5a, 0x00];
    let tar: [u8; 6] = [0x75, 0x73, 0x74, 0x61, 0x72, 0x00];
    proof {
        assert(zip@ =~= magic_zip());
        assert(zip_empty@ =~= magic_zip_empty());
        assert(rar4@ =~= magic_rar4());
        assert(rar5@ =~= magic_rar5());
        assert(seven_zip@ =~= magic_7z());
        assert(gzip@ =~= magic_gzip());
        assert(bzip2@ =~= magic_bzip2());
        assert(xz@ =~= magic_xz());
        assert(tar@ =~= magic_tar());
    }
    if matches_prefix(bytes, zip.as_slice()) || matches_prefix(bytes, zip_empty.as_slice()) {
        return Some((ArchiveFormat::Zip, 0));
    }
    if matches_prefix(bytes, rar5.as_slice()) || matches_prefix(bytes, rar4.as_slice()) {
        return Some((ArchiveFormat::Rar, 0));
    }
    if matches_prefix(bytes, seven_zip.as_slice()) {
        return Some((ArchiveFormat::SevenZip, 0));
    }
    if matches_prefix(bytes, gzip.as_slice()) {
        return Some((ArchiveFormat::Gzip, 0));
    }
    if matches_prefix(bytes, bzip2.as_slice()) {
        return Some((ArchiveFormat::Bzip2, 0));
    }
    if matches_prefix(bytes, xz.as_slice()) {
        return Some((ArchiveFormat::Xz, 0));
    }
    if matches_at(bytes, tar.as_slice(), 257) {
        return Some((ArchiveFormat::Tar, 0));
    }
    None
}

/// Whether an archive signature stands at `offset`.
pub fn is_archive_at_offset(bytes: &[u8], offset: usize) -> (r: bool)
    ensures
        r == (offset < bytes@.len() && header_format(bytes@.skip(offset as int)) is Some),
{
    if offset >= bytes.len() {
        return false;
    }
    let (_, rest) = bytes.split_at(offset);
    assert(rest@ =~= bytes@.skip(offset as int));
    detect_archive_header(rest).is_some()
}

/// The extension that the `infer` crate gives to the file type of the bytes.
pub uninterp spec fn inferred_extension(bytes: Seq<u8>) -> Option<Seq<char>>;

/// `infer::get` looks the bytes up in the crate's table of signatures; the first type whose
/// matcher accepts them is the answer, and its extension is returned here. The table is fixed,
/// so the answer depends on the bytes alone.
#[verifier::external_body]
fn infer_extension(bytes: &[u8]) -> (r: Option<String>)
    ensures
        crate::text::opt_text(r) == inferred_extension(bytes@),
{
    infer::get(bytes).map(|kind| kind.extension().to_owned())
}

/// The extensions of archives.
pub open spec fn archive_extensions() -> Seq<Seq<char>> {
    seq![
        "zip"@,
        "rar"@,
        "7z"@,
        "tar"@,
        "gz"@,
        "tgz"@,
        "bz2"@,
        "xz"@,
        "zst"@,
        "zstd"@,
        "lz4"@,
        "lzma"@,
        "cab"@,
        "iso"@,
        "dmg"@,
    ]
}

/// Whether the extension is that of an archive.
pub fn is_archive_extension(extension: &str) -> (r: bool)
    ensures
        r == archive_extensions().contains(extension@),
{
    let known: [&str; 15] = [
        "zip",
        "rar",
        "7z",
        "tar",
        "gz",
        "tgz",
        "bz2",
        "xz",
        "zst",
        "zstd",
        "lz4",
        "lzma",
        "cab",
        "iso",
        "dmg",
    ];
    let mut i: usize = 0;
    assert(forall|k: int| 0 <= k < 15 ==> #[trigger] known@[k]@ == archive_extensions()[k]);
    while i < 15
        invariant
            i <= 15,
            archive_extensions().len() == 15,
            forall|k: int| 0 <= k < 15 ==> #[trigger] known@[k]@ == archive_extensions()[k],
            forall|k: int| 0 <= k < i ==> #[trigger] archive_extensions()[k] != extension@,
        decreases 15 - i,
    {
        if same_text(known[i], extension) {
            assert(archive_extensions()[i as int] == extension@);
            return true;
        }
        i += 1;
    }
    false
}

/// An ordinary file: its type is known and is not that of an archive.
pub open spec fn is_ordinary_type(extension: Option<Seq<char>>) -> bool {
    extension is Some && !archive_extensions().contains(extension->0)
}

/// Whether a file type with this extension is an ordinary file's.
pub fn ordinary_type(extension: &Option<String>) -> (r: bool)
    ensures
        r == is_ordinary_type(crate::text::opt_text(*extension)),
{
    match extension {
        Some(name) => !is_archive_extension(name.as_str()),
        None => false,
    }
}

/// Whether the bytes belong to an ordinary file, which cannot be a volume of an archive.
pub fn detect_non_archive_header(bytes: &[u8]) -> (r: bool)
    ensures
        r == (bytes@.len() > 0 && is_ordinary_type(inferred_extension(bytes@))),
{
    if bytes.len() == 0 {
        return false;
    }
    ordinary_type(&infer_extension(bytes))
}

/// What a file is taken for by its signature, its type and its extension.
pub open spec fn kind_by_header(
    has_signature: bool,
    ordinary: bool,
    archive_extension: bool,
) -> DetectionKind {
    if has_signature {
        DetectionKind::DirectArchive
    } else if !ordinary && archive_extension {
        DetectionKind::Ambiguous
    } else {
        DetectionKind::NotArchive
    }
}

pub fn classify_by_header(
    header: Option<ArchiveFormat>,
    has_non_archive_header: bool,
    file_ext_is_archive: bool,
) -> (r: DetectionKind)
    ensures
        r == kind_by_header(header is Some, has_non_archive_header, file_ext_is_archive),
{
    match (header, has_non_archive_header, file_ext_is_archive) {
        (Some(_), _, _) => DetectionKind::DirectArchive,
        (None, true, true) => DetectionKind::NotArchive,
        (None, false, true) => DetectionKind::Ambiguous,
        (None, true, false) => DetectionKind::NotArchive,
        (None, false, false) => DetectionKind::NotArchive,
    }
}

/// An archive is found at an offset exactly where the bytes from there on carry a signature of
/// their own: nothing before the offset matters.
pub proof fn offset_ignores_prefix(prefix: Seq<u8>, rest: Seq<u8>)
    ensures
        header_format((prefix + rest).skip(prefix.len() as int)) == header_format(rest),
{
    assert((prefix + rest).skip(prefix.len() as int) =~= rest);
}

/// A signature decides by the bytes it covers: what follows the first 263 bytes never changes
/// the answer.
pub proof fn header_is_local(bytes: Seq<u8>)
    requires
        bytes.len() >= 263,
    ensures
        header_format(bytes) == header_format(bytes.take(263)),
{
    let head = bytes.take(263);
    assert forall|m: Seq<u8>| m.len() <= 8 implies #[trigger] starts(bytes, m) == starts(head, m) by {
        assert(bytes.take(m.len() as int) =~= head.take(m.len() as int));
    }
    assert(bytes.subrange(257, 263) =~= head.subrange(257, 263));
    assert(stands_at(bytes, magic_tar(), 257) == stands_at(head, magic_tar(), 257));
}

/// A file with a signature is an archive, whatever it is called. One without is in doubt only
/// where it is called like an archive and nothing says that it is an ordinary file.
pub proof fn signature_decides(has_signature: bool, ordinary: bool, archive_extension: bool)
    ensures
        kind_by_header(has_signature, ordinary, archive_extension) == DetectionKind::DirectArchive
            <==> has_signature,
        kind_by_header(has_signature, ordinary, archive_extension) == DetectionKind::Ambiguous
            <==> !has_signature && !ordinary && archive_extension,
        kind_by_header(has_signature, ordinary, archive_extension) == DetectionKind::NotArchive
            <==> !has_signature && (ordinary || !archive_extension),
{
}

/// A file is told by the bytes that it starts with, and by them alone for all formats but one.
pub proof fn formats_are_told_by_their_signature(bytes: Seq<u8>)
    requires
        bytes.len() >= 6,
    ensures
        header_format(bytes) == Some(ArchiveFormat::Zip) <==> bytes[0] == 0x50 && bytes[1] == 0x4b
            && ((bytes[2] == 3 && bytes[3] == 4) || (bytes[2] == 5 && bytes[3] == 6)),
        header_format(bytes) == Some(ArchiveFormat::SevenZip) <==> bytes[0] == 0x37 && bytes[1]
            == 0x7a && bytes[2] == 0xbc && bytes[3] == 0xaf && bytes[4] == 0x27 && bytes[5] == 0x1c,
        header_format(bytes) == Some(ArchiveFormat::Gzip) <==> bytes[0] == 0x1f && bytes[1] == 0x8b,
        header_format(bytes) == Some(ArchiveFormat::Bzip2) <==> bytes[0] == 0x42 && bytes[1] == 0x5a,
        header_format(bytes) == Some(ArchiveFormat::Xz) <==> bytes[0] == 0xfd && bytes[1] == 0x37
            && bytes[2] == 0x7a && bytes[3] == 0x58 && bytes[4] == 0x5a && bytes[5] == 0,
{
    assert(starts(bytes, magic_zip()) == (bytes[0] == 0x50 && bytes[1] == 0x4b && bytes[2] == 3
        && bytes[3] == 4)) by {
        lemma_starts(bytes, magic_zip());
    }
    assert(starts(bytes, magic_zip_empty()) == (bytes[0] == 0x50 && bytes[1] == 0x4b && bytes[2]
        == 5 && bytes[3] == 6)) by {
        lemma_starts(bytes, magic_zip_empty());
    }
    lemma_starts(bytes, magic_rar4());
    lemma_starts(bytes, magic_rar5());
    assert(magic_rar4()[0] == 0x52 && magic_rar5()[0] == 0x52);
    assert(starts(bytes, magic_rar4()) || starts(bytes, magic_rar5()) ==> bytes[0] == 0x52);
    assert(starts(bytes, magic_7z()) == (bytes[0] == 0x37 && bytes[1] == 0x7a && bytes[2] == 0xbc
        && bytes[3] == 0xaf && bytes[4] == 0x27 && bytes[5] == 0x1c)) by {
        lemma_starts(bytes, magic_7z());
    }
    assert(starts(bytes, magic_gzip()) == (bytes[0] == 0x1f && bytes[1] == 0x8b)) by {
        lemma_starts(bytes, magic_gzip());
    }
    assert(starts(bytes, magic_bzip2()) == (bytes[0] == 0x42 && bytes[1] == 0x5a)) by {
        lemma_starts(bytes, magic_bzip2());
    }
    assert(starts(bytes, magic_xz()) == (bytes[0] == 0xfd && bytes[1] == 0x37 && bytes[2] == 0x7a
        && bytes[3] == 0x58 && bytes[4] == 0x5a && bytes[5] == 0)) by {
        lemma_starts(bytes, magic_xz());
    }
}

proof fn lemma_starts(bytes: Seq<u8>, magic: Seq<u8>)
    ensures
        starts(bytes, magic) <==> magic.len() <= bytes.len() && forall|i: int|
            0 <= i < magic.len() ==> bytes[i] == #[trigger] magic[i],
{
    if magic.len() <= bytes.len() {
        if starts(bytes, magic) {
            assert forall|i: int| 0 <= i < magic.len() implies bytes[i] == #[trigger] magic[i] by {
                assert(bytes.take(magic.len() as int)[i] == magic[i]);
            }
        }
        if forall|i: int| 0 <= i < magic.len() ==> bytes[i] == #[trigger] magic[i] {
            assert(bytes.take(magic.len() as int) =~= magic);
        }
    }
}

/// An archive of either RAR version is told by its first bytes, and a TAR archive, which starts
/// with a name, by the word behind its first header.
pub proof fn rar_and_tar_are_told_by_their_signature(bytes: Seq<u8>)
    requires
        bytes.len() >= 263,
    ensures
        header_format(bytes) == Some(ArchiveFormat::Rar) <==> bytes[0] == 0x52 && bytes[1] == 0x61
            && bytes[2] == 0x72 && bytes[3] == 0x21 && bytes[4] == 0x1a && bytes[5] == 7 && (
        bytes[6] == 0 || (bytes[6] == 1 && bytes[7] == 0)),
        header_format(bytes) == Some(ArchiveFormat::Tar) ==> bytes[257] == 0x75 && bytes[258] == 0x73
            && bytes[259] == 0x74 && bytes[260] == 0x61 && bytes[261] == 0x72 && bytes[262] == 0,
        bytes[257] == 0x75 && bytes[258] == 0x73 && bytes[259] == 0x74 && bytes[260] == 0x61
            && bytes[261] == 0x72 && bytes[262] == 0 ==> header_format(bytes) is Some,
        header_format(bytes) is None ==> !stands_at(bytes, magic_tar(), 257),
{
    lemma_starts(bytes, magic_zip());
    lemma_starts(bytes, magic_zip_empty());
    lemma_starts(bytes, magic_rar4());
    lemma_starts(bytes, magic_rar5());
    assert(magic_zip()[0] == 0x50 && magic_zip_empty()[0] == 0x50);
    assert(starts(bytes, magic_rar4()) == (bytes[0] == 0x52 && bytes[1] == 0x61 && bytes[2] == 0x72
        && bytes[3] == 0x21 && bytes[4] == 0x1a && bytes[5] == 7 && bytes[6] == 0));
    assert(starts(bytes, magic_rar5()) == (bytes[0] == 0x52 && bytes[1] == 0x61 && bytes[2] == 0x72
        && bytes[3] == 0x21 && bytes[4] == 0x1a && bytes[5] == 7 && bytes[6] == 1 && bytes[7]
        == 0));
    let word = bytes.subrange(257, 263);
    if word == magic_tar() {
        assert(word[0] == magic_tar()[0] && word[1] == magic_tar()[1] && word[2] == magic_tar()[2]
            && word[3] == magic_tar()[3] && word[4] == magic_tar()[4] && word[5]
            == magic_tar()[5]);
    }
    if bytes[257] == 0x75 && bytes[258] == 0x73 && bytes[259] == 0x74 && bytes[260] == 0x61
        && bytes[261] == 0x72 && bytes[262] == 0 {
        assert(word =~= magic_tar());
    }
}

/// A file without an extension is never taken for an ordinary one.
pub proof fn ordinary_files_have_a_type(extension: Option<Seq<char>>)
    ensures
        extension is None ==> !is_ordinary_type(extension),
        extension is Some && archive_extensions().contains(extension->0) ==> !is_ordinary_type(
            extension,
        ),
        extension is Some && !archive_extensions().contains(extension->0) ==> is_ordinary_type(
            extension,
        ),
{
}

} // verus!
