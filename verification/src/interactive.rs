//! What a user may answer.

use vstd::prelude::*;

verus! {

/// What to do where the output's target exists.
#[derive(Clone, Copy, Debug, PartialEq, Eq, Structural)]
pub enum OutputCollisionStrategy {
    Skip,
    Overwrite,
    Rename,
}

/// What to do with an embedded archive.
#[derive(Clone, Copy, Debug, PartialEq, Eq, Structural)]
pub enum EmbeddedSelectionChoice {
    Extract,
    Skip,
    ExtractAll,
}

/// What to do about a doubtful encoding of member names.
#[derive(Debug, PartialEq, Eq)]
pub enum EncodingConfirmationChoice {
    AcceptDetected,
    Override(String),
    SkipArchive,
}

} // verus!
