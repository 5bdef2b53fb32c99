//! One way out for a candidate: what is logged, told and counted when the work on it ends.

use vstd::prelude::*;
use crate::events::TaskEventKind;
use crate::history::{FileExtractionRow, KnownFileEncodingUpsert, KnownFileUpsert};
use crate::path::path_file_name;
use crate::text::copy_opt;
use crate::types::ExtractionCandidate;
use crate::workflow::reason::NodeStatus;

verus! {

/// What was found out about a candidate.
#[derive(Debug)]
pub struct CandidateDetails {
    pub input_path: Option<String>,
    pub sample_hash: Option<String>,
    pub file_size: Option<i64>,
    pub has_password: bool,
    pub password_id: Option<i64>,
    pub encoding: Option<String>,
    pub encoding_corrected: bool,
    pub confirmed_encoding: Option<String>,
}

impl CandidateDetails {
    /// Nothing was found out.
    pub open spec fn is_empty(self) -> bool {
        &&& self.input_path is None
        &&& self.sample_hash is None
        &&& self.file_size is None
        &&& !self.has_password
        &&& self.password_id is None
        &&& self.encoding is None
        &&& !self.encoding_corrected
        &&& self.confirmed_encoding is None
    }
}

impl Default for CandidateDetails {
    fn default() -> (r: CandidateDetails)
        ensures
            r.is_empty(),
    {
        CandidateDetails {
            input_path: None,
            sample_hash: None,
            file_size: None,
            has_password: false,
            password_id: None,
            encoding: None,
            encoding_corrected: false,
            confirmed_encoding: None,
        }
    }
}

/// How the work on a candidate ended.
#[derive(Debug)]
pub enum CandidateOutcome {
    Skipped(String),
    Failed { reason: String, error: String },
    Extracted(String),
    /// The input could not be read. It counts as a failure, and is logged as skipped.
    Unreadable,
    /// The embedded archive could not be cut out. It counts as a failure, and is logged as
    /// skipped.
    CarveFailed(String),
}

impl CandidateOutcome {
    /// What is logged as the status.
    pub open spec fn status(self) -> NodeStatus {
        match self {
            CandidateOutcome::Failed { .. } => NodeStatus::Failed,
            CandidateOutcome::Extracted(_) => NodeStatus::Extracted,
            _ => NodeStatus::Skipped,
        }
    }

    /// What is logged as the reason.
    pub open spec fn reason(self) -> Option<Seq<char>> {
        match self {
            CandidateOutcome::Skipped(reason) => Some(reason@),
            CandidateOutcome::Failed { reason, .. } => Some(reason@),
            CandidateOutcome::Extracted(_) => None,
            CandidateOutcome::Unreadable => Some("not_found"@),
            CandidateOutcome::CarveFailed(error) => Some(error@),
        }
    }

    /// It counts as a failure of the task.
    pub open spec fn is_failure(self) -> bool {
        self is Failed || self is Unreadable || self is CarveFailed
    }

    /// What is told, if anything.
    pub open spec fn event(self) -> Option<TaskEventKind> {
        match self {
            CandidateOutcome::Failed { error, .. } => Some(TaskEventKind::Failed { error }),
            CandidateOutcome::CarveFailed(error) => Some(TaskEventKind::Failed { error }),
            CandidateOutcome::Extracted(path) => Some(TaskEventKind::OutputCreated { path }),
            _ => None,
        }
    }

    /// Where the output is.
    pub open spec fn output(self) -> Option<Seq<char>> {
        match self {
            CandidateOutcome::Extracted(path) => Some(path@),
            _ => None,
        }
    }
}

/// What is to be told and logged.
#[derive(Debug)]
pub struct Report {
    pub event: Option<TaskEventKind>,
    pub row: FileExtractionRow,
    pub known: Option<KnownFileUpsert>,
    pub confirmed: Option<KnownFileEncodingUpsert>,
}

/// The place of a candidate inside its file, as it is stored.
pub open spec fn stored_offset(candidate: ExtractionCandidate) -> Option<i64> {
    match candidate.embedded_offset {
        Some(o) => Some(o as i64),
        None => None,
    }
}

/// The row says this.
pub open spec fn logs(
    row: FileExtractionRow,
    candidate: ExtractionCandidate,
    details: CandidateDetails,
    outcome: CandidateOutcome,
) -> bool {
    &&& row.input_path@ == (match details.input_path {
        Some(path) => path@,
        None => candidate.path@,
    })
    &&& row.sample_hash == details.sample_hash
    &&& row.file_size == details.file_size
    &&& row.offset == stored_offset(candidate)
    &&& crate::text::opt_text(row.output_path) == outcome.output()
    &&& row.has_password == details.has_password
    &&& row.password_id == details.password_id
    &&& row.status@ == outcome.status().text()
    &&& crate::text::opt_text(row.reason) == outcome.reason()
    &&& row.encoding == details.encoding
    &&& row.encoding_corrected == details.encoding_corrected
    &&& row.damaged_volumes_json is None
    &&& row.test_report_json is None
}

/// The entry of the known files says this.
pub open spec fn notes(
    known: KnownFileUpsert,
    candidate: ExtractionCandidate,
    details: CandidateDetails,
) -> bool {
    &&& details.sample_hash == Some(known.sample_hash)
    &&& details.file_size == Some(known.size)
    &&& crate::text::opt_text(known.name) == crate::path::file_name(candidate.path@)
    &&& known.offset == stored_offset(candidate)
    &&& known.password_id == details.password_id
}

/// So does that of a confirmed encoding.
pub open spec fn notes_encoding(
    known: KnownFileEncodingUpsert,
    candidate: ExtractionCandidate,
    details: CandidateDetails,
) -> bool {
    &&& details.sample_hash == Some(known.sample_hash)
    &&& details.file_size == Some(known.size)
    &&& crate::text::opt_text(known.name) == crate::path::file_name(candidate.path@)
    &&& known.offset == stored_offset(candidate)
    &&& details.confirmed_encoding == Some(known.encoding)
}

/// The candidates that are done, and how many failed.
#[derive(Debug)]
pub struct CandidateResults {
    pub processed: Vec<ExtractionCandidate>,
    pub skipped: Vec<ExtractionCandidate>,
    pub failed_count: usize,
}

impl CandidateResults {
    pub fn new() -> (r: CandidateResults)
        ensures
            r.processed@.len() == 0,
            r.skipped@.len() == 0,
            r.failed_count == 0,
    {
        CandidateResults { processed: Vec::new(), skipped: Vec::new(), failed_count: 0 }
    }

    /// Counts a failure of the task as a whole, and says what is told.
    pub fn fail_task(&mut self, error: String) -> (r: TaskEventKind)
        requires
            old(self).failed_count < usize::MAX,
        ensures
            r == (TaskEventKind::Failed { error }),
            final(self).failed_count == old(self).failed_count + 1,
            final(self).processed@ == old(self).processed@,
            final(self).skipped@ == old(self).skipped@,
    {
        self.failed_count += 1;
        TaskEventKind::Failed { error }
    }

    /// Skips a candidate of which nothing was found out.
    pub fn skip(&mut self, candidate: ExtractionCandidate, reason: String) -> (r: Report)
        ensures
            final(self).failed_count == old(self).failed_count,
            final(self).processed@ == old(self).processed@,
            final(self).skipped@ == old(self).skipped@.push(candidate),
            r.event is None,
            r.known is None,
            r.confirmed is None,
            exists|details: CandidateDetails|
                #![trigger details.is_empty()]
                details.is_empty() && logs(
                    r.row,
                    candidate,
                    details,
                    CandidateOutcome::Skipped(reason),
                ),
    {
        let details = CandidateDetails::default();
        assert(details.is_empty());
        self.settle(candidate, details, CandidateOutcome::Skipped(reason))
    }

    /// Ends the work on a candidate.
    pub fn finish(
        &mut self,
        candidate: ExtractionCandidate,
        details: CandidateDetails,
        outcome: CandidateOutcome,
    ) -> (r: Report)
        requires
            old(self).failed_count < usize::MAX,
        ensures
            final(self).failed_count == old(self).failed_count + if outcome.is_failure() {
                1int
            } else {
                0int
            },
            final(self).processed@ == (if outcome is Extracted {
                old(self).processed@.push(candidate)
            } else {
                old(self).processed@
            }),
            final(self).skipped@ == (if outcome is Extracted {
                old(self).skipped@
            } else {
                old(self).skipped@.push(candidate)
            }),
            r.event == outcome.event(),
            logs(r.row, candidate, details, outcome),
            match r.known {
                Some(known) => outcome is Extracted && notes(known, candidate, details),
                None => !(outcome is Extracted && details.sample_hash is Some
                    && details.file_size is Some),
            },
            match r.confirmed {
                Some(known) => r.known is Some && notes_encoding(known, candidate, details),
                None => !(r.known is Some && details.confirmed_encoding is Some),
            },
            final(self).processed@.len() + final(self).skipped@.len() == old(self).processed@.len()
                + old(self).skipped@.len() + 1,
            final(self).failed_count > old(self).failed_count ==> final(self).skipped@.len()
                == old(self).skipped@.len() + 1,
            outcome is Extracted ==> final(self).failed_count == old(self).failed_count
                && final(self).processed@.last() == candidate,
            outcome is Skipped ==> final(self).failed_count == old(self).failed_count,
            r.known is Some <==> outcome is Extracted && details.sample_hash is Some && details.file_size
                is Some,
            r.confirmed is Some <==> outcome is Extracted && details.sample_hash is Some
                && details.file_size is Some && details.confirmed_encoding is Some,
    {
        if let CandidateOutcome::Unreadable = outcome {
            self.failed_count += 1;
        }
        if let CandidateOutcome::Failed { .. } = outcome {
            self.failed_count += 1;
        }
        if let CandidateOutcome::CarveFailed(_) = outcome {
            self.failed_count += 1;
        }
        self.settle(candidate, details, outcome)
    }

    fn settle(
        &mut self,
        candidate: ExtractionCandidate,
        details: CandidateDetails,
        outcome: CandidateOutcome,
    ) -> (r: Report)
        ensures
            final(self).failed_count == old(self).failed_count,
            final(self).processed@ == (if outcome is Extracted {
                old(self).processed@.push(candidate)
            } else {
                old(self).processed@
            }),
            final(self).skipped@ == (if outcome is Extracted {
                old(self).skipped@
            } else {
                old(self).skipped@.push(candidate)
            }),
            r.event == outcome.event(),
            logs(r.row, candidate, details, outcome),
            match r.known {
                Some(known) => outcome is Extracted && notes(known, candidate, details),
                None => !(outcome is Extracted && details.sample_hash is Some
                    && details.file_size is Some),
            },
            match r.confirmed {
                Some(known) => r.known is Some && notes_encoding(known, candidate, details),
                None => !(r.known is Some && details.confirmed_encoding is Some),
            },
    {
        let offset: Option<i64> = match candidate.embedded_offset {
            Some(o) => Some(#[verifier::truncate] (o as i64)),
            None => None,
        };
        let input_path: String = match &details.input_path {
            Some(path) => path.clone(),
            None => candidate.path.clone(),
        };
        let mut known: Option<KnownFileUpsert> = None;
        let mut confirmed: Option<KnownFileEncodingUpsert> = None;
        let mut extracted = false;
        if let CandidateOutcome::Extracted(_) = outcome {
            extracted = true;
            if let (Some(hash), Some(size)) = (&details.sample_hash, details.file_size) {
                known = Some(
                    KnownFileUpsert {
                        sample_hash: hash.clone(),
                        size,
                        name: path_file_name(candidate.path.as_str()),
                        offset,
                        password_id: details.password_id,
                    },
                );
                if let Some(encoding) = &details.confirmed_encoding {
                    confirmed = Some(
                        KnownFileEncodingUpsert {
                            sample_hash: hash.clone(),
                            size,
                            name: path_file_name(candidate.path.as_str()),
                            offset,
                            encoding: encoding.clone(),
                        },
                    );
                }
            }
        }
        let (event, status, reason, output_path): (
            Option<TaskEventKind>,
            NodeStatus,
            Option<String>,
            Option<String>,
        ) = match outcome {
            CandidateOutcome::Skipped(reason) => (None, NodeStatus::Skipped, Some(reason), None),
            CandidateOutcome::Failed { reason, error } => (
                Some(TaskEventKind::Failed { error }),
                NodeStatus::Failed,
                Some(reason),
                None,
            ),
            CandidateOutcome::Extracted(path) => (
                Some(TaskEventKind::OutputCreated { path: path.clone() }),
                NodeStatus::Extracted,
                None,
                Some(path),
            ),
            CandidateOutcome::Unreadable => (
                None,
                NodeStatus::Skipped,
                Some("not_found".to_owned()),
                None,
            ),
            CandidateOutcome::CarveFailed(error) => (
                Some(TaskEventKind::Failed { error: error.clone() }),
                NodeStatus::Skipped,
                Some(error),
                None,
            ),
        };
        let row = FileExtractionRow {
            input_path,
            sample_hash: copy_opt(&details.sample_hash),
            file_size: details.file_size,
            offset,
            output_path,
            has_password: details.has_password,
            password_id: details.password_id,
            status: status.as_str().to_owned(),
            reason,
            encoding: copy_opt(&details.encoding),
            encoding_corrected: details.encoding_corrected,
            damaged_volumes_json: None,
            test_report_json: None,
        };
        if extracted {
            self.processed.push(candidate);
        } else {
            self.skipped.push(candidate);
        }
        Report { event, row, known, confirmed }
    }
}

/// Only an extracted archive is logged as one, has no reason, and has an output, of which the user
/// is told. A failure is never passed off as a success. What could not be read or cut out counts
/// as a failure too, but is logged as skipped; of an unreadable input nothing is told.
pub proof fn outcome_is_told_alike(outcome: CandidateOutcome)
    ensures
        outcome.status() == NodeStatus::Extracted <==> outcome.output() is Some,
        outcome.reason() is None <==> outcome.output() is Some,
        outcome.is_failure() ==> outcome.output() is None && outcome.status()
            != NodeStatus::Extracted,
        outcome.status() == NodeStatus::Failed <==> outcome is Failed,
        outcome.status() == NodeStatus::Failed ==> outcome.is_failure(),
        outcome is Skipped ==> !outcome.is_failure() && outcome.event() is None,
        outcome matches CandidateOutcome::Skipped(reason) ==> outcome.reason() == Some(reason@),
        outcome is Unreadable ==> outcome.is_failure() && outcome.event() is None,
        outcome matches CandidateOutcome::CarveFailed(error) ==> outcome.is_failure()
            && outcome.reason() == Some(error@),
        outcome.event() matches Some(TaskEventKind::OutputCreated { path }) ==> outcome.output()
            == Some(path@),
        outcome.output() is Some ==> outcome.event() is Some,
        outcome matches CandidateOutcome::Failed { error, .. } ==> outcome.event() == Some(
            TaskEventKind::Failed { error },
        ),
        outcome matches CandidateOutcome::CarveFailed(error) ==> outcome.event() == Some(
            TaskEventKind::Failed { error },
        ),
        outcome.event() matches Some(TaskEventKind::Failed { .. }) ==> outcome.is_failure(),
{
}

/// A row tells of the candidate itself where nothing else is known of its place, says what was
/// found out as it was found out, and has an output or a reason, never both.
pub proof fn row_tells_of_its_outcome(
    row: FileExtractionRow,
    candidate: ExtractionCandidate,
    details: CandidateDetails,
    outcome: CandidateOutcome,
)
    requires
        logs(row, candidate, details, outcome),
    ensures
        details.input_path is None ==> row.input_path@ == candidate.path@,
        details.input_path matches Some(path) ==> row.input_path@ == path@,
        row.output_path is Some <==> outcome is Extracted,
        row.reason is Some <==> row.output_path is None,
        outcome matches CandidateOutcome::Extracted(path) ==> row.output_path->0@ == path@,
        candidate.embedded_offset is None <==> row.offset is None,
        candidate.embedded_offset is Some && candidate.embedded_offset->0 <= i64::MAX
            ==> row.offset->0 == candidate.embedded_offset->0,
        row.sample_hash == details.sample_hash,
        row.file_size == details.file_size,
        row.password_id == details.password_id,
        row.has_password == details.has_password,
        row.encoding == details.encoding,
        row.encoding_corrected == details.encoding_corrected,
{
}

/// What is noted of a file is noted under its sample and its size, by the last name of its path and
/// at its own place.
pub proof fn file_is_noted_by_its_sample(
    known: KnownFileUpsert,
    encoded: KnownFileEncodingUpsert,
    candidate: ExtractionCandidate,
    details: CandidateDetails,
)
    requires
        notes(known, candidate, details),
        notes_encoding(encoded, candidate, details),
    ensures
        known.sample_hash == encoded.sample_hash,
        known.size == encoded.size,
        known.offset == encoded.offset,
        known.offset == stored_offset(candidate),
        crate::text::opt_text(known.name) == crate::text::opt_text(encoded.name),
        known.name is Some <==> crate::path::file_name(candidate.path@) is Some,
        known.password_id == details.password_id,
        details.confirmed_encoding is Some && details.confirmed_encoding->0 == encoded.encoding,
{
}

} // verus!
