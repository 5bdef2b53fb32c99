//! Opening an archive: which passwords are tried, when the user is asked, and what comes of it.

use vstd::prelude::*;
use vstd::string::*;
use crate::text::push_decimal;
use crate::types::{ArchiveFormat, EncodingMode, ErrorKind, PasswordCandidate, is_zip};

verus! {

/// What to do next.
#[derive(Clone, Copy, Debug, PartialEq, Eq, Structural)]
pub enum AccessStep {
    /// List the archive with the password at this place.
    Try(usize),
    /// Ask the user for a password.
    Prompt,
    /// The passwords are used up, or one fitted.
    Conclude,
}

/// What a refused attempt leads to.
#[derive(Clone, Copy, Debug, PartialEq, Eq, Structural)]
pub enum Refusal {
    /// Go on; the failure is noted with the password.
    Noted,
    /// Go on.
    Unnoted,
    /// The archive cannot be opened at all.
    Fatal(ErrorKind),
}

/// What an answer of the user leads to.
#[derive(Clone, Copy, Debug, PartialEq, Eq, Structural)]
pub enum PromptStep {
    /// The task was cancelled meanwhile.
    Cancelled,
    /// The user gave up.
    GaveUp,
    /// List the archive with what the user said.
    Try,
}

/// The state of opening an archive.
#[derive(Debug)]
pub struct PasswordAccess {
    pub candidates: Vec<PasswordCandidate>,
    pub can_prompt: bool,
    /// How many candidates were tried.
    pub tried: usize,
    pub used_password: Option<String>,
    pub saw_wrong_password: bool,
    pub prompt_cancelled: bool,
    pub listed: bool,
    /// The number of the stored password that opened the archive, where it has one.
    pub accepted_id: Option<i64>,
}

/// What opening an archive for its listing came to.
#[derive(Debug)]
pub struct ArchiveAccessOutcome {
    pub password_id: Option<i64>,
    /// The content is known to need a password.
    pub has_password: bool,
    pub encoding_mode: EncodingMode,
}

/// A refusal that a stored password leads to.
pub open spec fn refusal(error: ErrorKind, password: Seq<char>) -> Refusal {
    if error == ErrorKind::WrongPassword {
        Refusal::Noted
    } else if error == ErrorKind::PasswordRequired && password.len() == 0 {
        Refusal::Unnoted
    } else {
        Refusal::Fatal(error)
    }
}

impl PasswordAccess {
    pub open spec fn wf(&self) -> bool {
        &&& self.tried <= self.candidates@.len()
        &&& self.listed ==> self.used_password is Some
        &&& self.used_password is Some ==> self.listed
        &&& self.accepted_id is Some ==> self.listed
    }

    pub fn new(candidates: Vec<PasswordCandidate>, can_prompt: bool) -> (r: PasswordAccess)
        ensures
            r.wf(),
            r.candidates@ == candidates@,
            r == (PasswordAccess {
                candidates,
                can_prompt,
                tried: 0,
                used_password: None,
                saw_wrong_password: false,
                prompt_cancelled: false,
                listed: false,
                accepted_id: None,
            }),
    {
        PasswordAccess {
            candidates,
            can_prompt,
            tried: 0,
            used_password: None,
            saw_wrong_password: false,
            prompt_cancelled: false,
            listed: false,
            accepted_id: None,
        }
    }

    /// The step that is due.
    pub open spec fn due(self) -> AccessStep {
        if !self.listed && self.tried < self.candidates@.len() {
            AccessStep::Try(self.tried)
        } else if self.listed || self.prompt_cancelled || !self.can_prompt {
            AccessStep::Conclude
        } else {
            AccessStep::Prompt
        }
    }

    /// Why the archive was not opened, if so.
    pub open spec fn obstacle(self) -> Option<ErrorKind> {
        if self.used_password is Some || (!self.prompt_cancelled && !self.saw_wrong_password) {
            None
        } else if self.prompt_cancelled {
            Some(ErrorKind::PasswordRequired)
        } else {
            Some(ErrorKind::WrongPassword)
        }
    }

    /// The stored passwords come first, one after the other; then the user is asked, as long as
    /// nothing fitted and the user has not given up.
    pub fn next(&self) -> (r: AccessStep)
        requires
            self.wf(),
        ensures
            r == (if self.listed {
                AccessStep::Conclude
            } else if self.tried < self.candidates@.len() {
                AccessStep::Try(self.tried)
            } else if self.can_prompt && !self.prompt_cancelled {
                AccessStep::Prompt
            } else {
                AccessStep::Conclude
            }),
            r == self.due(),
    {
        if self.listed {
            AccessStep::Conclude
        } else if self.tried < self.candidates.len() {
            AccessStep::Try(self.tried)
        } else if self.can_prompt && !self.prompt_cancelled {
            AccessStep::Prompt
        } else {
            AccessStep::Conclude
        }
    }

    /// The password at this place opened the archive. It is stored under the number.
    pub fn accepted(&mut self, id: Option<i64>)
        requires
            old(self).wf(),
            !old(self).listed,
            old(self).tried < old(self).candidates@.len(),
        ensures
            final(self).wf(),
            *final(self) == (PasswordAccess {
                tried: (old(self).tried + 1) as usize,
                used_password: Some(old(self).candidates@[old(self).tried as int].value),
                listed: true,
                accepted_id: id,
                ..*old(self)
            }),
    {
        let total: usize = self.candidates.len();
        assert(self.tried < total);
        self.used_password = Some(self.candidates[self.tried].value.clone());
        self.tried = self.tried + 1;
        self.listed = true;
        self.accepted_id = id;
    }

    /// The password at this place did not open the archive.
    pub fn refused(&mut self, error: ErrorKind) -> (r: Refusal)
        requires
            old(self).wf(),
            !old(self).listed,
            old(self).tried < old(self).candidates@.len(),
        ensures
            final(self).wf(),
            r == refusal(error, old(self).candidates@[old(self).tried as int].value@),
            *final(self) == (PasswordAccess {
                tried: (old(self).tried + 1) as usize,
                saw_wrong_password: old(self).saw_wrong_password || !(r is Fatal),
                ..*old(self)
            }),
    {
        let total: usize = self.candidates.len();
        assert(self.tried < total);
        let empty = self.candidates[self.tried].value.as_str().unicode_len() == 0;
        self.tried = self.tried + 1;
        match error {
            ErrorKind::WrongPassword => {
                self.saw_wrong_password = true;
                Refusal::Noted
            },
            ErrorKind::PasswordRequired => {
                if empty {
                    self.saw_wrong_password = true;
                    Refusal::Unnoted
                } else {
                    Refusal::Fatal(error)
                }
            },
            _ => Refusal::Fatal(error),
        }
    }

    /// The user has answered. No answer, or an empty one, gives up.
    pub fn answered(&mut self, answer: &Option<String>, cancelled: bool) -> (r: PromptStep)
        requires
            old(self).wf(),
            !old(self).listed,
        ensures
            final(self).wf(),
            r == (if cancelled {
                PromptStep::Cancelled
            } else if *answer is None || answer->0@.len() == 0 {
                PromptStep::GaveUp
            } else {
                PromptStep::Try
            }),
            *final(self) == (PasswordAccess {
                prompt_cancelled: old(self).prompt_cancelled || r == PromptStep::GaveUp,
                ..*old(self)
            }),
            r == PromptStep::Cancelled <==> cancelled,
            r == PromptStep::Try ==> *answer is Some && answer->0@.len() > 0,
            !cancelled && *answer is Some && answer->0@.len() > 0 ==> r == PromptStep::Try,
            final(self).prompt_cancelled && !old(self).prompt_cancelled ==> r == PromptStep::GaveUp,
            r == PromptStep::GaveUp ==> final(self).prompt_cancelled,
            final(self).tried == old(self).tried,
            !final(self).listed,
    {
        if cancelled {
            return PromptStep::Cancelled;
        }
        match answer {
            Some(text) => if text.as_str().unicode_len() == 0 {
                self.prompt_cancelled = true;
                PromptStep::GaveUp
            } else {
                PromptStep::Try
            },
            None => {
                self.prompt_cancelled = true;
                PromptStep::GaveUp
            },
        }
    }

    /// What the user said opened the archive.
    pub fn answer_accepted(&mut self, password: String)
        requires
            old(self).wf(),
            !old(self).listed,
        ensures
            final(self).wf(),
            *final(self) == (PasswordAccess {
                used_password: Some(password),
                listed: true,
                ..*old(self)
            }),
    {
        self.used_password = Some(password);
        self.listed = true;
    }

    /// What the user said did not open the archive. A wrong password may be said again.
    pub fn answer_refused(&mut self, error: ErrorKind) -> (r: Option<ErrorKind>)
        requires
            old(self).wf(),
            !old(self).listed,
        ensures
            final(self).wf(),
            r == (if error == ErrorKind::WrongPassword || error == ErrorKind::PasswordRequired {
                None
            } else {
                Some(error)
            }),
            *final(self) == (PasswordAccess {
                saw_wrong_password: old(self).saw_wrong_password || r is None,
                ..*old(self)
            }),
            r is None <==> error == ErrorKind::WrongPassword || error == ErrorKind::PasswordRequired,
            r is Some ==> r == Some(error),
            r is None ==> final(self).saw_wrong_password,
            final(self).prompt_cancelled == old(self).prompt_cancelled,
    {
        match error {
            ErrorKind::WrongPassword | ErrorKind::PasswordRequired => {
                self.saw_wrong_password = true;
                None
            },
            _ => Some(error),
        }
    }

    /// What the attempts have come to: a password is still required where the user gave up, and
    /// it was wrong where one was refused. Without any the archive may be open to all.
    pub fn conclude(&self) -> (r: Option<ErrorKind>)
        ensures
            r == (if self.used_password is Some {
                None
            } else if self.prompt_cancelled {
                Some(ErrorKind::PasswordRequired)
            } else if self.saw_wrong_password {
                Some(ErrorKind::WrongPassword)
            } else {
                None
            }),
            r == self.obstacle(),
    {
        if self.used_password.is_some() {
            None
        } else if self.prompt_cancelled {
            Some(ErrorKind::PasswordRequired)
        } else if self.saw_wrong_password {
            Some(ErrorKind::WrongPassword)
        } else {
            None
        }
    }

    /// What is known once the archive is listed in an encoding, or why it was not opened. A
    /// listing never proves that the content needs a password, whichever opened it.
    pub fn outcome(&self, encoding_mode: EncodingMode) -> (r: Result<
        ArchiveAccessOutcome,
        ErrorKind,
    >)
        ensures
            r == (if self.used_password is None && self.prompt_cancelled {
                Err::<ArchiveAccessOutcome, ErrorKind>(ErrorKind::PasswordRequired)
            } else if self.used_password is None && self.saw_wrong_password {
                Err(ErrorKind::WrongPassword)
            } else {
                Ok(
                    ArchiveAccessOutcome {
                        password_id: self.accepted_id,
                        has_password: false,
                        encoding_mode,
                    },
                )
            }),
            r is Err <==> self.obstacle() is Some,
            r is Err ==> Some(r->Err_0) == self.obstacle(),
            r is Ok ==> r->Ok_0.encoding_mode == encoding_mode && r->Ok_0.password_id
                == self.accepted_id && !r->Ok_0.has_password,
    {
        match self.conclude() {
            Some(error) => Err(error),
            None => Ok(
                ArchiveAccessOutcome {
                    password_id: self.accepted_id,
                    has_password: false,
                    encoding_mode,
                },
            ),
        }
    }
}

/// Whether the names are examined once more, after the archive was opened.
pub fn assesses_after_listing(
    detect_encoding: bool,
    assessed: bool,
    mode: &EncodingMode,
    format: &Option<ArchiveFormat>,
) -> (r: bool)
    ensures
        r == (detect_encoding && !assessed && mode is Auto && *format == Some(ArchiveFormat::Zip)),
{
    detect_encoding && !assessed && mode.is_auto() && is_zip(format)
}

/// Whether the archive is listed once more: nothing was listed yet, or in another encoding.
pub fn needs_relisting(listed: bool, chosen: &EncodingMode, used: &EncodingMode) -> (r: bool)
    ensures
        r == (!listed || chosen.name() != used.name()),
{
    !listed || !chosen.same(used)
}

/// What tells a file from others.
#[derive(Clone, Copy, Debug, PartialEq, Eq, Structural)]
pub enum SampleSource {
    /// It is not looked at, because nothing is kept.
    Nothing,
    /// The part of the file behind this place.
    Segment(u64),
    /// The whole file.
    Whole,
}

/// What is sampled.
pub open spec fn sample_for(keeps_history: bool, embedded_offset: Option<u64>) -> SampleSource {
    if !keeps_history {
        SampleSource::Nothing
    } else if embedded_offset is Some && embedded_offset->0 != 0 {
        SampleSource::Segment(embedded_offset->0)
    } else {
        SampleSource::Whole
    }
}

/// What is sampled of a candidate.
pub fn sample_source(keeps_history: bool, embedded_offset: Option<u64>) -> (r: SampleSource)
    ensures
        r == (if !keeps_history {
            SampleSource::Nothing
        } else {
            match embedded_offset {
                Some(offset) => if offset > 0 {
                    SampleSource::Segment(offset)
                } else {
                    SampleSource::Whole
                },
                None => SampleSource::Whole,
            }
        }),
        r == sample_for(keeps_history, embedded_offset),
{
    if !keeps_history {
        return SampleSource::Nothing;
    }
    match embedded_offset {
        Some(offset) => if offset > 0 {
            SampleSource::Segment(offset)
        } else {
            SampleSource::Whole
        },
        None => SampleSource::Whole,
    }
}

/// Whether a scan counts as cancelled.
pub fn scan_cancelled(cancelled: bool, interrupted: bool) -> (r: bool)
    ensures
        r == (cancelled || interrupted),
{
    cancelled || interrupted
}

/// What is told when a password is tried.
pub open spec fn trying(index: nat, total: nat, label: Seq<char>, path: Seq<char>) -> Seq<char> {
    "Trying password ["@ + crate::text::decimal(index + 1) + "/"@ + crate::text::decimal(total)
        + "] ("@ + label + ") for "@ + path
}

pub fn describe_attempt(index: usize, total: usize, label: &str, path: &str) -> (r: String)
    requires
        index < total,
    ensures
        r@ == trying(index as nat, total as nat, label@, path@),
{
    let mut text: String = "Trying password [".to_owned();
    push_decimal(&mut text, index as u64 + 1);
    text.append("/");
    push_decimal(&mut text, total as u64);
    text.append("] (");
    text.append(label);
    text.append(") for ");
    text.append(path);
    text
}

/// A refused password goes on to the next one and is counted against the password only where it
/// was wrong; that none was given is not held against the empty one. Every other error ends the
/// access, and a password that was given but not taken for one is such an error.
pub proof fn refusals_lead_on_or_end(error: ErrorKind, password: Seq<char>)
    ensures
        refusal(error, password) is Noted <==> error == ErrorKind::WrongPassword,
        refusal(error, password) is Unnoted <==> error == ErrorKind::PasswordRequired
            && password.len() == 0,
        refusal(error, password) matches Refusal::Fatal(told) ==> told == error,
        error == ErrorKind::PasswordRequired && password.len() > 0 ==> refusal(error, password)
            is Fatal,
{
}

/// Every stored password has its turn, in its order, before the user is asked, and nobody is asked
/// or tried once one fitted. The user is asked only where that is allowed, and no more after they
/// gave up.
pub proof fn stored_passwords_come_before_the_user(access: PasswordAccess)
    requires
        access.wf(),
    ensures
        access.listed ==> access.due() is Conclude,
        access.due() is Prompt ==> access.tried == access.candidates@.len() && !access.listed,
        access.due() is Prompt ==> access.can_prompt && !access.prompt_cancelled,
        access.due() matches AccessStep::Try(i) ==> i == access.tried && i
            < access.candidates@.len(),
        access.tried < access.candidates@.len() && !access.listed ==> access.due() is Try,
        access.tried == access.candidates@.len() && !access.listed && access.can_prompt
            && !access.prompt_cancelled ==> access.due() is Prompt,
        access.due() is Conclude && !access.listed ==> access.tried == access.candidates@.len(),
{
}

/// An archive that was opened has no obstacle. One that was not is said to need a password where
/// the user gave up, whatever was refused before; else a refused password was wrong. Where nothing
/// was refused and nobody gave up, it is open to all.
pub proof fn giving_up_outweighs_refusals(access: PasswordAccess)
    ensures
        access.used_password is Some ==> access.obstacle() is None,
        access.used_password is None && access.prompt_cancelled ==> access.obstacle() == Some(
            ErrorKind::PasswordRequired,
        ),
        access.obstacle() == Some(ErrorKind::WrongPassword) <==> access.used_password is None
            && access.saw_wrong_password && !access.prompt_cancelled,
        access.used_password is None && access.obstacle() is None ==> !access.saw_wrong_password
            && !access.prompt_cancelled,
        access.obstacle() matches Some(error) ==> error == ErrorKind::PasswordRequired || error
            == ErrorKind::WrongPassword,
{
}

/// Nothing is sampled where nothing is kept. An archive behind the start of its file is told by
/// what follows its place, every other by the whole file.
pub proof fn samples_begin_at_the_archive(keeps_history: bool, offset: Option<u64>)
    ensures
        sample_for(keeps_history, offset) is Nothing <==> !keeps_history,
        sample_for(keeps_history, offset) matches SampleSource::Segment(at) ==> offset == Some(at)
            && at > 0,
        offset is None ==> sample_for(keeps_history, offset) !is Segment,
        keeps_history && offset is Some && offset->0 > 0 ==> sample_for(keeps_history, offset)
            is Segment,
{
}

} // verus!
