//! What the answers of the recorder that keeps a task's state lead to.

use vstd::prelude::*;
use crate::types::ErrorKind;

verus! {

/// What the recorder answers: whether it took the report in, or that it failed. There may be no
/// recorder.
pub type Answer = Option<Result<bool, ErrorKind>>;

/// The report counts: the recorder took it in, or there is none.
pub open spec fn counts(answer: Answer) -> bool {
    answer is None || answer == Some(Ok::<bool, ErrorKind>(true))
}

/// A report that does not count is an error: the recorder's own, or that of a worker that has
/// lost its node.
pub open spec fn error_of(answer: Answer) -> ErrorKind {
    match answer {
        Some(Err(error)) => error,
        _ => ErrorKind::BackendFailed,
    }
}

fn taken(answer: Answer) -> (r: Result<(), ErrorKind>)
    ensures
        r == (if counts(answer) {
            Ok(())
        } else {
            Err(error_of(answer))
        }),
{
    match answer {
        None => Ok(()),
        Some(Ok(true)) => Ok(()),
        Some(Ok(false)) => Err(ErrorKind::BackendFailed),
        Some(Err(error)) => Err(error),
    }
}

/// The user is asked only once the question is kept.
pub fn begin_decision(kept: Answer) -> (r: Result<(), ErrorKind>)
    ensures
        r == (if counts(kept) {
            Ok(())
        } else {
            Err(error_of(kept))
        }),
{
    taken(kept)
}

/// What follows the user's reply.
#[derive(Clone, Copy, Debug, PartialEq, Eq, Structural)]
pub enum AfterReply {
    /// The node goes on.
    GoOn,
    /// The node enters its stage again and then goes on.
    EnterAgain,
}

/// A reply counts once it is taken in. The wait for it gave the stage up, so the node enters it
/// again.
pub fn finish_decision(accepted: Answer) -> (r: Result<AfterReply, ErrorKind>)
    ensures
        r == (if accepted is None {
            Ok(AfterReply::GoOn)
        } else if counts(accepted) {
            Ok(AfterReply::EnterAgain)
        } else {
            Err(error_of(accepted))
        }),
{
    let none: bool = accepted.is_none();
    match taken(accepted) {
        Ok(()) => if none {
            Ok(AfterReply::GoOn)
        } else {
            Ok(AfterReply::EnterAgain)
        },
        Err(error) => Err(error),
    }
}

/// The end of a node counts only where the recorder takes it in.
pub fn finish_execution(answer: Answer) -> (r: Result<(), ErrorKind>)
    ensures
        r == (if counts(answer) {
            Ok(())
        } else {
            Err(error_of(answer))
        }),
{
    taken(answer)
}

/// A report counts exactly where nobody records, or the recorder took it in; one that was refused
/// or failed never does, and its error is the recorder's own where there is one.
pub proof fn refused_reports_do_not_count(answer: Answer)
    ensures
        answer is None ==> counts(answer),
        answer == Some(Ok::<bool, ErrorKind>(true)) ==> counts(answer),
        answer == Some(Ok::<bool, ErrorKind>(false)) ==> !counts(answer) && error_of(answer)
            == ErrorKind::BackendFailed,
        answer matches Some(Err(error)) ==> !counts(answer) && error_of(answer) == error,
{
}

} // verus!
