//! What the failures of the archive tools are called.

use vstd::prelude::*;
use vstd::string::*;
use crate::types::ErrorKind;

verus! {

/// A failure of an archive operation.
#[derive(Debug)]
pub struct ArchiveFailure {
    pub kind: ErrorKind,
    pub path: Option<String>,
    pub format: Option<String>,
    pub backend: Option<String>,
    pub exit_code: Option<i32>,
    pub detail: Option<String>,
}

/// Why a test of an archive failed.
#[derive(Clone, Copy, Debug, PartialEq, Eq, Structural)]
pub enum TestFailure {
    PasswordRequired,
    PasswordRejected,
    PasswordIndeterminate,
    Corruption,
    Cancelled,
    Other,
}

/// What a failed test left behind.
#[derive(Debug)]
pub struct TestDiagnostics {
    pub failure: Option<TestFailure>,
    pub adapter_id: String,
    pub exit_code: Option<i32>,
    pub stderr: String,
}

/// The kind of failure that a failed test is.
pub open spec fn kind_of(failure: Option<TestFailure>) -> ErrorKind {
    match failure {
        Some(TestFailure::PasswordRequired) => ErrorKind::PasswordRequired,
        Some(TestFailure::PasswordRejected) => ErrorKind::WrongPassword,
        Some(TestFailure::PasswordIndeterminate) => ErrorKind::CorruptedArchive,
        Some(TestFailure::Corruption) => ErrorKind::CorruptedArchive,
        Some(TestFailure::Cancelled) => ErrorKind::Cancelled,
        _ => ErrorKind::BackendFailed,
    }
}

/// The words for it.
pub open spec fn detail_of(d: TestDiagnostics) -> Option<Seq<char>> {
    match d.failure {
        Some(TestFailure::PasswordIndeterminate) => Some(
            "wrong password or damaged encrypted data; test could not distinguish them"@,
        ),
        Some(TestFailure::Corruption) => Some("archive integrity test failed"@),
        Some(TestFailure::PasswordRequired)
        | Some(TestFailure::PasswordRejected)
        | Some(TestFailure::Cancelled) => None,
        _ => Some("archive test failed: "@ + d.stderr@),
    }
}

fn bare(kind: ErrorKind, path: Option<&str>, detail: Option<String>) -> (r: ArchiveFailure)
    ensures
        r.kind == kind,
        crate::text::opt_text(r.path) == crate::text::opt_str(path),
        r.format is None,
        r.backend is None,
        r.exit_code is None,
        r.detail == detail,
{
    ArchiveFailure {
        kind,
        path: crate::text::own(path),
        format: None,
        backend: None,
        exit_code: None,
        detail,
    }
}

/// The failure that a failed test of an archive is.
pub fn failed_test_error(diagnostics: &TestDiagnostics, path: &str) -> (r: ArchiveFailure)
    ensures
        r.kind == kind_of(diagnostics.failure),
        crate::text::opt_text(r.detail) == detail_of(*diagnostics),
        crate::text::opt_text(r.path) == (if r.kind == ErrorKind::Cancelled || r.kind
            == ErrorKind::BackendFailed {
            None
        } else {
            Some(path@)
        }),
        r.format is None,
        crate::text::opt_text(r.backend) == (if r.kind == ErrorKind::BackendFailed {
            Some(diagnostics.adapter_id@)
        } else {
            None
        }),
        r.exit_code == (if r.kind == ErrorKind::BackendFailed {
            diagnostics.exit_code
        } else {
            None
        }),
{
    match diagnostics.failure {
        Some(TestFailure::PasswordRequired) => bare(ErrorKind::PasswordRequired, Some(path), None),
        Some(TestFailure::PasswordRejected) => bare(ErrorKind::WrongPassword, Some(path), None),
        Some(TestFailure::PasswordIndeterminate) => bare(
            ErrorKind::CorruptedArchive,
            Some(path),
            Some(
                "wrong password or damaged encrypted data; test could not distinguish them".to_owned(),
            ),
        ),
        Some(TestFailure::Corruption) => bare(
            ErrorKind::CorruptedArchive,
            Some(path),
            Some("archive integrity test failed".to_owned()),
        ),
        Some(TestFailure::Cancelled) => bare(ErrorKind::Cancelled, None, None),
        _ => {
            let mut detail: String = "archive test failed: ".to_owned();
            detail.append(diagnostics.stderr.as_str());
            ArchiveFailure {
                kind: ErrorKind::BackendFailed,
                path: None,
                format: None,
                backend: Some(diagnostics.adapter_id.clone()),
                exit_code: diagnostics.exit_code,
                detail: Some(detail),
            }
        },
    }
}

/// A format that is not supported is told of the file that was asked about, without a guess at
/// what it might be; any other failure stays as it is.
pub fn map_detect_error(error: ArchiveFailure, path: &str) -> (r: ArchiveFailure)
    ensures
        error.kind != ErrorKind::UnsupportedFormat ==> r == error,
        error.kind == ErrorKind::UnsupportedFormat ==> r.kind == error.kind
            && crate::text::opt_text(r.path) == Some(path@) && r.format is None && r.backend is None
            && r.exit_code is None && r.detail is None,
{
    match error.kind {
        ErrorKind::UnsupportedFormat => bare(ErrorKind::UnsupportedFormat, Some(path), None),
        _ => error,
    }
}

/// The words for a call that broke off.
pub open spec fn broke_off(action: Seq<char>, path: Seq<char>, message: Seq<char>) -> Seq<char> {
    "panic while "@ + action + " "@ + path + ": "@ + message
}

/// The failure that a call that broke off is.
pub fn backend_panic(backend: &str, action: &str, path: &str, message: &str) -> (r: ArchiveFailure)
    ensures
        r.kind == ErrorKind::BackendFailed,
        r.path is None,
        r.format is None,
        crate::text::opt_text(r.backend) == Some(backend@),
        r.exit_code is None,
        crate::text::opt_text(r.detail) == Some(broke_off(action@, path@, message@)),
{
    let mut detail: String = "panic while ".to_owned();
    detail.append(action);
    detail.append(" ");
    detail.append(path);
    detail.append(": ");
    detail.append(message);
    ArchiveFailure {
        kind: ErrorKind::BackendFailed,
        path: None,
        format: None,
        backend: Some(backend.to_owned()),
        exit_code: None,
        detail: Some(detail),
    }
}

/// A test that failed for its password says so, a damaged archive is one, and so is one that may
/// be; a cancelled test is cancelled. Anything else is a failure of the tool.
pub proof fn failed_tests_are_told_apart(failure: Option<TestFailure>)
    ensures
        kind_of(failure) == ErrorKind::PasswordRequired <==> failure == Some(
            TestFailure::PasswordRequired,
        ),
        kind_of(failure) == ErrorKind::WrongPassword <==> failure == Some(
            TestFailure::PasswordRejected,
        ),
        kind_of(failure) == ErrorKind::CorruptedArchive <==> failure == Some(
            TestFailure::Corruption,
        ) || failure == Some(TestFailure::PasswordIndeterminate),
        kind_of(failure) == ErrorKind::Cancelled <==> failure == Some(TestFailure::Cancelled),
        failure is None ==> kind_of(failure) == ErrorKind::BackendFailed,
{
}

/// A failed test is told in words unless its kind says all there is to say; what is not understood
/// is told in the words of the tool.
pub proof fn failures_that_need_words_have_them(d: TestDiagnostics)
    ensures
        detail_of(d) is None <==> d.failure == Some(TestFailure::PasswordRequired) || d.failure
            == Some(TestFailure::PasswordRejected) || d.failure == Some(TestFailure::Cancelled),
        d.failure is None || d.failure == Some(TestFailure::Other) ==> detail_of(d) is Some
            && crate::text::has_tail(detail_of(d)->0, d.stderr@),
{
    crate::text::tails_end_texts("archive test failed: "@, d.stderr@);
}

} // verus!
