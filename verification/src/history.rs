//! What a task leaves behind in its history.

use vstd::prelude::*;
use vstd::string::*;
use crate::task::TaskStatus;
use crate::text::{copy_opt, own};
use crate::types::EncodingMode;

verus! {

/// How a task ended.
#[derive(Clone, Copy, Debug, PartialEq, Eq, Structural)]
pub enum TaskCompletionStatus {
    Completed,
    Partial,
    Failed,
    Cancelled,
}

impl TaskCompletionStatus {
    /// A cancelled task is cancelled. Of the others one without failures is completed, one
    /// without a success has failed, and the rest are partial.
    pub open spec fn of_counts(processed: nat, failed: nat, cancelled: bool) -> TaskCompletionStatus {
        if cancelled {
            TaskCompletionStatus::Cancelled
        } else if failed == 0 {
            TaskCompletionStatus::Completed
        } else if processed == 0 {
            TaskCompletionStatus::Failed
        } else {
            TaskCompletionStatus::Partial
        }
    }

    pub fn from_counts(processed: usize, failed: usize, cancelled: bool) -> (r: TaskCompletionStatus)
        ensures
            r == TaskCompletionStatus::of_counts(processed as nat, failed as nat, cancelled),
    {
        if cancelled {
            TaskCompletionStatus::Cancelled
        } else if failed == 0 {
            TaskCompletionStatus::Completed
        } else if processed == 0 {
            TaskCompletionStatus::Failed
        } else {
            TaskCompletionStatus::Partial
        }
    }

    /// The status that the task's row gets.
    pub open spec fn stored(self) -> TaskStatus {
        match self {
            TaskCompletionStatus::Completed => TaskStatus::Completed,
            TaskCompletionStatus::Partial => TaskStatus::Partial,
            TaskCompletionStatus::Failed => TaskStatus::Failed,
            TaskCompletionStatus::Cancelled => TaskStatus::Cancelled,
        }
    }

    pub fn to_status(self) -> (r: TaskStatus)
        ensures
            r == self.stored(),
    {
        match self {
            TaskCompletionStatus::Completed => TaskStatus::Completed,
            TaskCompletionStatus::Partial => TaskStatus::Partial,
            TaskCompletionStatus::Failed => TaskStatus::Failed,
            TaskCompletionStatus::Cancelled => TaskStatus::Cancelled,
        }
    }
}

/// What is noted when a task ends.
#[derive(Debug)]
pub struct TaskOutcome {
    pub status: TaskCompletionStatus,
    pub output_path: Option<String>,
}

/// One thing that was done to one file.
#[derive(Debug)]
pub struct FileExtractionRow {
    pub input_path: String,
    pub sample_hash: Option<String>,
    pub file_size: Option<i64>,
    pub offset: Option<i64>,
    pub output_path: Option<String>,
    pub has_password: bool,
    pub password_id: Option<i64>,
    pub status: String,
    pub reason: Option<String>,
    pub encoding: Option<String>,
    pub encoding_corrected: bool,
    pub damaged_volumes_json: Option<String>,
    pub test_report_json: Option<String>,
}

/// The place of an archive in its file, as it is kept.
pub open spec fn kept_offset(offset: Option<u64>) -> Option<i64> {
    match offset {
        Some(at) => Some(at as i64),
        None => None,
    }
}

impl FileExtractionRow {
    /// The row says how one file ended, and nothing more.
    pub open spec fn says(
        &self,
        input_path: Seq<char>,
        offset: Option<u64>,
        status: Seq<char>,
        reason: Option<Seq<char>>,
        output_path: Option<Seq<char>>,
    ) -> bool {
        &&& self.input_path@ == input_path
        &&& self.offset == kept_offset(offset)
        &&& self.status@ == status
        &&& crate::text::opt_text(self.reason) == reason
        &&& crate::text::opt_text(self.output_path) == output_path
        &&& self.damaged_volumes_json is None
        &&& self.test_report_json is None
    }

    /// Nothing is known of the file itself.
    pub open spec fn is_bare(&self) -> bool {
        &&& self.sample_hash is None
        &&& self.file_size is None
        &&& !self.has_password
        &&& self.password_id is None
        &&& self.encoding is None
        &&& !self.encoding_corrected
    }

    fn with_status(
        input_path: &str,
        offset: Option<u64>,
        status: &str,
        reason: Option<&str>,
        output_path: Option<&str>,
    ) -> (r: FileExtractionRow)
        ensures
            r.says(
                input_path@,
                offset,
                status@,
                crate::text::opt_str(reason),
                crate::text::opt_str(output_path),
            ),
            r.is_bare(),
    {
        FileExtractionRow {
            input_path: input_path.to_owned(),
            sample_hash: None,
            file_size: None,
            offset: match offset {
                Some(at) => Some(#[verifier::truncate] (at as i64)),
                None => None,
            },
            output_path: own(output_path),
            has_password: false,
            password_id: None,
            status: status.to_owned(),
            reason: own(reason),
            encoding: None,
            encoding_corrected: false,
            damaged_volumes_json: None,
            test_report_json: None,
        }
    }

    /// A file that could not be extracted.
    pub fn failed(input_path: &str, offset: Option<u64>, reason: &str) -> (r: FileExtractionRow)
        ensures
            r.says(input_path@, offset, "failed"@, Some(reason@), None),
            r.is_bare(),
    {
        FileExtractionRow::with_status(input_path, offset, "failed", Some(reason), None)
    }

    /// A file that was left alone.
    pub fn skipped(input_path: &str, offset: Option<u64>, reason: &str) -> (r: FileExtractionRow)
        ensures
            r.says(input_path@, offset, "skipped"@, Some(reason@), None),
            r.is_bare(),
    {
        FileExtractionRow::with_status(input_path, offset, "skipped", Some(reason), None)
    }

    /// A file that was extracted.
    pub fn extracted(input_path: &str, offset: Option<u64>, output_path: &str) -> (r: FileExtractionRow)
        ensures
            r.says(input_path@, offset, "extracted"@, None, Some(output_path@)),
            r.is_bare(),
    {
        FileExtractionRow::with_status(input_path, offset, "extracted", None, Some(output_path))
    }
}

/// What is known of a file from an earlier extraction.
#[derive(Debug)]
pub struct KnownFileHit {
    pub password_id: Option<i64>,
    pub confirmed_encoding: Option<String>,
    pub last_extract_at: Option<String>,
}

impl Default for KnownFileHit {
    fn default() -> (r: KnownFileHit)
        ensures
            r == (KnownFileHit {
                password_id: None,
                confirmed_encoding: None,
                last_extract_at: None,
            }),
    {
        KnownFileHit { password_id: None, confirmed_encoding: None, last_extract_at: None }
    }
}

/// A file that was extracted.
#[derive(Debug)]
pub struct KnownFileUpsert {
    pub sample_hash: String,
    pub size: i64,
    pub name: Option<String>,
    pub offset: Option<i64>,
    pub password_id: Option<i64>,
}

/// A file whose encoding the user has confirmed.
#[derive(Debug)]
pub struct KnownFileEncodingUpsert {
    pub sample_hash: String,
    pub size: i64,
    pub name: Option<String>,
    pub offset: Option<i64>,
    pub encoding: String,
}

/// The rows under which a file is known once it was extracted: one that it was, and one for the
/// encoding where the user asked for it. Nothing is noted of a file that was not sampled.
pub fn known_rows(
    sample_hash: &Option<String>,
    size: Option<i64>,
    name: &Option<String>,
    offset: Option<u64>,
    password_id: Option<i64>,
    requested: &EncodingMode,
) -> (r: Option<(KnownFileUpsert, Option<KnownFileEncodingUpsert>)>)
    ensures
        r is Some == (sample_hash is Some && size is Some),
        r matches Some((file, encoding)) ==> {
            &&& file.sample_hash@ == sample_hash->0@
            &&& file.size == size->0
            &&& file.name == *name
            &&& file.offset == kept_offset(offset)
            &&& file.password_id == password_id
            &&& encoding is Some == requested is Override
            &&& encoding matches Some(confirmed) ==> {
                &&& confirmed.sample_hash@ == sample_hash->0@
                &&& confirmed.size == size->0
                &&& confirmed.name == *name
                &&& confirmed.offset == kept_offset(offset)
                &&& Some(confirmed.encoding@) == requested.name()
            }
        },
{
    let kept: Option<i64> = match offset {
        Some(at) => Some(at as i64),
        None => None,
    };
    match (sample_hash, size) {
        (Some(hash), Some(size)) => {
            let encoding = match requested {
                EncodingMode::Override(encoding) => Some(
                    KnownFileEncodingUpsert {
                        sample_hash: hash.clone(),
                        size,
                        name: copy_opt(name),
                        offset: kept,
                        encoding: encoding.clone(),
                    },
                ),
                EncodingMode::Auto => None,
            };
            let file = KnownFileUpsert {
                sample_hash: hash.clone(),
                size,
                name: copy_opt(name),
                offset: kept,
                password_id,
            };
            Some((file, encoding))
        },
        _ => None,
    }
}

/// A task is completed exactly where nothing failed, failed where something did and nothing was
/// processed, and partial where there is both; a cancelled one is cancelled whatever was done.
pub proof fn completion_tells_of_the_counts(processed: nat, failed: nat, cancelled: bool)
    ensures
        ({
            let status = TaskCompletionStatus::of_counts(processed, failed, cancelled);
            &&& status == TaskCompletionStatus::Cancelled <==> cancelled
            &&& status == TaskCompletionStatus::Completed <==> !cancelled && failed == 0
            &&& status == TaskCompletionStatus::Failed <==> !cancelled && failed > 0 && processed
                == 0
            &&& status == TaskCompletionStatus::Partial <==> !cancelled && failed > 0 && processed
                > 0
        }),
{
}

/// One more failure never makes a task look better, and the row keeps what the task came to.
pub proof fn failure_is_never_hidden(processed: nat, failed: nat)
    requires
        failed > 0,
    ensures
        TaskCompletionStatus::of_counts(processed, failed, false).stored() != TaskStatus::Completed,
        TaskCompletionStatus::of_counts(processed, failed, true).stored() == TaskStatus::Cancelled,
        TaskCompletionStatus::of_counts(0, failed, false).stored() == TaskStatus::Failed,
        TaskCompletionStatus::of_counts(processed, 0, false).stored() == TaskStatus::Completed,
        processed > 0 ==> TaskCompletionStatus::of_counts(processed, failed, false).stored()
            == TaskStatus::Partial,
{
}

/// The place of an archive is kept as it is, as far as a signed number goes, and none is kept where
/// there is none.
pub proof fn places_are_kept(offset: Option<u64>)
    ensures
        kept_offset(offset) is Some <==> offset is Some,
        offset is Some && offset->0 <= i64::MAX ==> kept_offset(offset)->0 == offset->0,
{
}

} // verus!
