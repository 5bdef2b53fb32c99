//! The words that a finished node is recorded with.

use vstd::prelude::*;
use crate::types::ErrorKind;

verus! {

/// How a node ended.
#[derive(Clone, Copy, Debug, PartialEq, Eq, Structural)]
pub enum NodeStatus {
    Extracted,
    Skipped,
    Failed,
    Cancelled,
}

impl NodeStatus {
    /// The word that is stored for the status.
    pub open spec fn text(self) -> Seq<char> {
        match self {
            NodeStatus::Extracted => "extracted"@,
            NodeStatus::Skipped => "skipped"@,
            NodeStatus::Failed => "failed"@,
            NodeStatus::Cancelled => "cancelled"@,
        }
    }

    pub fn as_str(self) -> (r: &'static str)
        ensures
            r@ == self.text(),
    {
        match self {
            NodeStatus::Extracted => "extracted",
            NodeStatus::Skipped => "skipped",
            NodeStatus::Failed => "failed",
            NodeStatus::Cancelled => "cancelled",
        }
    }
}

/// Why a node was not extracted.
#[derive(Clone, Copy, Debug, PartialEq, Eq, Structural)]
pub enum Reason {
    Duplicate,
    RecursionLimit,
    NotFound,
    BusinessContainer,
    AlreadyExtracted,
    ExpandedToEmbedded,
    EncodingSkipped,
    TargetExists,
    PasswordRequired,
    WrongPassword,
    PasswordIndeterminate,
    IncompleteVolume,
    GroupingAmbiguous,
    MaterializeFailed,
    NestedCandidateLimit,
    PrepareAccessFailed,
    Corrupt,
    BackendFailed,
    Cancelled,
    TaskStopped,
}

impl Reason {
    /// The word that is stored for the reason.
    pub open spec fn text(self) -> Seq<char> {
        match self {
            Reason::Duplicate => "duplicate"@,
            Reason::RecursionLimit => "recursion_limit"@,
            Reason::NotFound => "not_found"@,
            Reason::BusinessContainer => "business_container"@,
            Reason::AlreadyExtracted => "already_extracted"@,
            Reason::ExpandedToEmbedded => "expanded_to_embedded"@,
            Reason::EncodingSkipped => "encoding_skipped"@,
            Reason::TargetExists => "target_exists"@,
            Reason::PasswordRequired => "password_required"@,
            Reason::WrongPassword => "wrong_password"@,
            Reason::PasswordIndeterminate => "password_indeterminate"@,
            Reason::IncompleteVolume => "incomplete_volume"@,
            Reason::GroupingAmbiguous => "grouping_ambiguous"@,
            Reason::MaterializeFailed => "materialize_failed"@,
            Reason::NestedCandidateLimit => "nested_candidate_limit"@,
            Reason::PrepareAccessFailed => "prepare_access_failed"@,
            Reason::Corrupt => "corrupt"@,
            Reason::BackendFailed => "backend_failed"@,
            Reason::Cancelled => "cancelled"@,
            Reason::TaskStopped => "task_stopped"@,
        }
    }

    pub fn as_str(self) -> (r: &'static str)
        ensures
            r@ == self.text(),
    {
        match self {
            Reason::Duplicate => "duplicate",
            Reason::RecursionLimit => "recursion_limit",
            Reason::NotFound => "not_found",
            Reason::BusinessContainer => "business_container",
            Reason::AlreadyExtracted => "already_extracted",
            Reason::ExpandedToEmbedded => "expanded_to_embedded",
            Reason::EncodingSkipped => "encoding_skipped",
            Reason::TargetExists => "target_exists",
            Reason::PasswordRequired => "password_required",
            Reason::WrongPassword => "wrong_password",
            Reason::PasswordIndeterminate => "password_indeterminate",
            Reason::IncompleteVolume => "incomplete_volume",
            Reason::GroupingAmbiguous => "grouping_ambiguous",
            Reason::MaterializeFailed => "materialize_failed",
            Reason::NestedCandidateLimit => "nested_candidate_limit",
            Reason::PrepareAccessFailed => "prepare_access_failed",
            Reason::Corrupt => "corrupt",
            Reason::BackendFailed => "backend_failed",
            Reason::Cancelled => "cancelled",
            Reason::TaskStopped => "task_stopped",
        }
    }
}

/// The reason that a failed extraction is filed under.
pub open spec fn reason_of_error(error: ErrorKind) -> Reason {
    match error {
        ErrorKind::PasswordIndeterminate => Reason::PasswordIndeterminate,
        ErrorKind::WrongPassword => Reason::WrongPassword,
        ErrorKind::PasswordRequired => Reason::WrongPassword,
        ErrorKind::Io => Reason::NotFound,
        ErrorKind::CorruptedArchive => Reason::Corrupt,
        _ => Reason::BackendFailed,
    }
}

/// Files a failed extraction under a reason.
pub fn classify_error(error: ErrorKind) -> (r: Reason)
    ensures
        r == reason_of_error(error),
{
    match error {
        ErrorKind::PasswordIndeterminate => Reason::PasswordIndeterminate,
        ErrorKind::WrongPassword => Reason::WrongPassword,
        ErrorKind::PasswordRequired => Reason::WrongPassword,
        ErrorKind::Io => Reason::NotFound,
        ErrorKind::CorruptedArchive => Reason::Corrupt,
        _ => Reason::BackendFailed,
    }
}

/// Another grouping of the same volumes might not end in this error.
pub open spec fn is_group_error(error: ErrorKind) -> bool {
    match error {
        ErrorKind::CorruptedArchive => true,
        ErrorKind::WrongPassword => true,
        ErrorKind::PasswordRequired => true,
        ErrorKind::PasswordIndeterminate => true,
        ErrorKind::UnsupportedFormat => true,
        ErrorKind::UnsupportedContainer => true,
        ErrorKind::UnsupportedCodec => true,
        ErrorKind::BackendProtocolError => true,
        _ => false,
    }
}

/// Whether another grouping of the same volumes is worth a trial after this error.
pub fn retryable_group_error(error: ErrorKind) -> (r: bool)
    ensures
        r == is_group_error(error),
{
    match error {
        ErrorKind::CorruptedArchive => true,
        ErrorKind::WrongPassword => true,
        ErrorKind::PasswordRequired => true,
        ErrorKind::PasswordIndeterminate => true,
        ErrorKind::UnsupportedFormat => true,
        ErrorKind::UnsupportedContainer => true,
        ErrorKind::UnsupportedCodec => true,
        ErrorKind::BackendProtocolError => true,
        _ => false,
    }
}

/// Trouble with a password is filed as that and as nothing else, damage as damage, and a file that
/// could not be read as one that is not there.
pub proof fn errors_are_filed_by_their_kind(error: ErrorKind)
    ensures
        ({
            let reason = reason_of_error(error);
            &&& reason == Reason::WrongPassword <==> error == ErrorKind::WrongPassword || error
                == ErrorKind::PasswordRequired
            &&& reason == Reason::PasswordIndeterminate <==> error
                == ErrorKind::PasswordIndeterminate
            &&& reason == Reason::Corrupt <==> error == ErrorKind::CorruptedArchive
            &&& reason == Reason::NotFound <==> error == ErrorKind::Io
            &&& reason != Reason::Corrupt && reason != Reason::NotFound && reason
                != Reason::WrongPassword && reason != Reason::PasswordIndeterminate ==> reason
                == Reason::BackendFailed
        }),
{
}

/// Another grouping of the volumes is worth a try where the archive itself could not be read, and
/// not where the machine, the user or the tool was the trouble.
pub proof fn grouping_is_no_cure_for_the_machine(error: ErrorKind)
    ensures
        is_group_error(error) <==> error != ErrorKind::Cancelled && error != ErrorKind::Io && error
            != ErrorKind::ResourceLimit && error != ErrorKind::BackendFailed,
{
}

} // verus!
