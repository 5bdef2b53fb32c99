//! The values that the extraction logic passes around.

use vstd::prelude::*;
use crate::text::same_text;

verus! {

/// An archive container format.
#[derive(Debug, PartialEq, Eq)]
pub enum ArchiveFormat {
    Zip,
    SevenZip,
    Rar,
    Tar,
    Gzip,
    Bzip2,
    Xz,
    Zstd,
    Lz4,
    Lzma,
    Iso,
    Dmg,
    Cab,
    Unknown(String),
}

impl Clone for ArchiveFormat {
    fn clone(&self) -> (r: Self)
        ensures
            r == *self,
    {
        match self {
            ArchiveFormat::Zip => ArchiveFormat::Zip,
            ArchiveFormat::SevenZip => ArchiveFormat::SevenZip,
            ArchiveFormat::Rar => ArchiveFormat::Rar,
            ArchiveFormat::Tar => ArchiveFormat::Tar,
            ArchiveFormat::Gzip => ArchiveFormat::Gzip,
            ArchiveFormat::Bzip2 => ArchiveFormat::Bzip2,
            ArchiveFormat::Xz => ArchiveFormat::Xz,
            ArchiveFormat::Zstd => ArchiveFormat::Zstd,
            ArchiveFormat::Lz4 => ArchiveFormat::Lz4,
            ArchiveFormat::Lzma => ArchiveFormat::Lzma,
            ArchiveFormat::Iso => ArchiveFormat::Iso,
            ArchiveFormat::Dmg => ArchiveFormat::Dmg,
            ArchiveFormat::Cab => ArchiveFormat::Cab,
            ArchiveFormat::Unknown(name) => ArchiveFormat::Unknown(name.clone()),
        }
    }
}

impl ArchiveFormat {
    /// The name of the format.
    pub open spec fn text(self) -> Seq<char> {
        match self {
            ArchiveFormat::Zip => "zip"@,
            ArchiveFormat::SevenZip => "7z"@,
            ArchiveFormat::Rar => "rar"@,
            ArchiveFormat::Tar => "tar"@,
            ArchiveFormat::Gzip => "gzip"@,
            ArchiveFormat::Bzip2 => "bzip2"@,
            ArchiveFormat::Xz => "xz"@,
            ArchiveFormat::Zstd => "zstd"@,
            ArchiveFormat::Lz4 => "lz4"@,
            ArchiveFormat::Lzma => "lzma"@,
            ArchiveFormat::Iso => "iso"@,
            ArchiveFormat::Dmg => "dmg"@,
            ArchiveFormat::Cab => "cab"@,
            ArchiveFormat::Unknown(name) => name@,
        }
    }

    pub fn as_str(&self) -> (r: &str)
        ensures
            r@ == self.text(),
    {
        match self {
            ArchiveFormat::Zip => "zip",
            ArchiveFormat::SevenZip => "7z",
            ArchiveFormat::Rar => "rar",
            ArchiveFormat::Tar => "tar",
            ArchiveFormat::Gzip => "gzip",
            ArchiveFormat::Bzip2 => "bzip2",
            ArchiveFormat::Xz => "xz",
            ArchiveFormat::Zstd => "zstd",
            ArchiveFormat::Lz4 => "lz4",
            ArchiveFormat::Lzma => "lzma",
            ArchiveFormat::Iso => "iso",
            ArchiveFormat::Dmg => "dmg",
            ArchiveFormat::Cab => "cab",
            ArchiveFormat::Unknown(name) => name.as_str(),
        }
    }
}

/// A copy of an optional format.
pub fn copy_format(format: &Option<ArchiveFormat>) -> (r: Option<ArchiveFormat>)
    ensures
        r == *format,
{
    match format {
        Some(f) => Some(f.clone()),
        None => None,
    }
}

/// Whether the format is known to be ZIP.
pub fn is_zip(format: &Option<ArchiveFormat>) -> (r: bool)
    ensures
        r == (*format == Some(ArchiveFormat::Zip)),
{
    match format {
        Some(ArchiveFormat::Zip) => true,
        _ => false,
    }
}

/// Where a candidate came from.
#[derive(Clone, Copy, Debug, PartialEq, Eq, Structural)]
pub enum CandidateSource {
    /// Named by the user.
    RootInput,
    /// Found among the files of an extracted archive.
    ExtractedFile,
    /// Found inside another file.
    EmbeddedFinding,
}

/// One archive that may be extracted.
#[derive(Debug, PartialEq, Eq)]
pub struct ExtractionCandidate {
    pub path: String,
    pub relative_path: String,
    pub depth: usize,
    pub source: CandidateSource,
    pub detected_format: Option<ArchiveFormat>,
    pub embedded_offset: Option<u64>,
    pub embedded_size: Option<u64>,
}

impl Clone for ExtractionCandidate {
    fn clone(&self) -> (r: Self)
        ensures
            r == *self,
    {
        ExtractionCandidate {
            path: self.path.clone(),
            relative_path: self.relative_path.clone(),
            depth: self.depth,
            source: self.source,
            detected_format: copy_format(&self.detected_format),
            embedded_offset: self.embedded_offset,
            embedded_size: self.embedded_size,
        }
    }
}

/// What went wrong in an archive operation.
#[derive(Clone, Copy, Debug, PartialEq, Eq, Structural)]
pub enum ErrorKind {
    WrongPassword,
    PasswordRequired,
    PasswordIndeterminate,
    Cancelled,
    Io,
    CorruptedArchive,
    UnsupportedFormat,
    UnsupportedContainer,
    UnsupportedCodec,
    BackendProtocolError,
    BackendFailed,
    ResourceLimit,
}

/// How member names are decoded.
#[derive(Debug, PartialEq, Eq)]
pub enum EncodingMode {
    Auto,
    Override(String),
}

impl EncodingMode {
    /// The name of the chosen encoding; nothing for automatic detection.
    pub open spec fn name(self) -> Option<Seq<char>> {
        match self {
            EncodingMode::Auto => None,
            EncodingMode::Override(name) => Some(name@),
        }
    }

    pub fn is_auto(&self) -> (r: bool)
        ensures
            r == (*self is Auto),
    {
        match self {
            EncodingMode::Auto => true,
            EncodingMode::Override(_) => false,
        }
    }

    /// Whether both modes decode alike.
    pub fn same(&self, other: &EncodingMode) -> (r: bool)
        ensures
            r == (self.name() == other.name()),
    {
        match (self, other) {
            (EncodingMode::Auto, EncodingMode::Auto) => true,
            (EncodingMode::Override(a), EncodingMode::Override(b)) => {
                same_text(a.as_str(), b.as_str())
            },
            _ => false,
        }
    }
}

impl Clone for EncodingMode {
    fn clone(&self) -> (r: Self)
        ensures
            r == *self,
    {
        match self {
            EncodingMode::Auto => EncodingMode::Auto,
            EncodingMode::Override(name) => EncodingMode::Override(name.clone()),
        }
    }
}

/// Where a password came from.
#[derive(Clone, Copy, Debug, PartialEq, Eq, Structural)]
pub enum PasswordSource {
    Manual,
    Recent,
    Database,
    Empty,
}

/// One password to try.
#[derive(Debug, PartialEq, Eq)]
pub struct PasswordCandidate {
    pub id: Option<i64>,
    pub value: String,
    pub source: PasswordSource,
}

impl Clone for PasswordCandidate {
    fn clone(&self) -> (r: Self)
        ensures
            r == *self,
    {
        PasswordCandidate { id: self.id, value: self.value.clone(), source: self.source }
    }
}

/// The state of a task's cancellation at one moment.
#[derive(Clone, Copy, Debug, PartialEq, Eq, Structural)]
pub struct Cancellation {
    /// The task is to end, for whatever reason.
    pub cancelled: bool,
    /// The user asked for the end.
    pub user: bool,
    /// A failed candidate asked for the end.
    pub stopped_on_error: bool,
}

} // verus!
