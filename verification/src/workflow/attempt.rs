//! The attempts to extract one archive: which password comes next, when the
//! user is asked, and what the archive's node ends as.

use std::collections::VecDeque;

use vstd::prelude::*;
use crate::types::{Cancellation, ErrorKind, PasswordCandidate, PasswordSource};
use crate::workflow::reason::{classify_error, retryable_group_error, Reason};

verus! {

/// In which step an attempt failed.
#[derive(Clone, Copy, Debug, PartialEq, Eq, Structural)]
pub enum FailureStep {
    /// The target exists and is to be left alone.
    CollisionSkipped,
    /// The archive could not be read.
    ExtractFailed,
    /// The output could not be placed.
    Placement,
}

/// A failed attempt.
#[derive(Clone, Copy, Debug, PartialEq, Eq, Structural)]
pub struct AttemptFailure {
    pub step: FailureStep,
    pub error: ErrorKind,
    /// The output was kept for recovery.
    pub preserved: bool,
}

/// What to do for the next attempt.
pub enum NextAttempt {
    Try(PasswordCandidate),
    AskUser,
    Stop,
}

/// What the user's answer leads to.
pub enum PromptReply {
    Try(PasswordCandidate),
    Stop,
}

/// What follows a failed attempt.
#[derive(Clone, Copy, Debug, PartialEq, Eq, Structural)]
pub enum AfterFailure {
    /// Go on with the next password; count the failure against this one or not.
    Retry { blame_password: bool },
    Stop,
}

/// What the attempts on one grouping of one archive amount to.
#[derive(Clone, Copy, Debug, PartialEq, Eq, Structural)]
pub enum Verdict {
    /// Start over with the first grouping.
    RestartGroups,
    /// The task was interrupted before the archive was decided.
    Interrupted,
    /// Try the next grouping.
    NextGroup,
    /// The user cancelled the task during the attempts.
    Cancelled,
    /// The node is skipped and nothing has failed.
    Skipped(Reason),
    /// The node failed with this error.
    Failed(Reason, ErrorKind),
    Extracted,
}

/// The attempts on one grouping of one archive.
pub struct Attempts {
    pub pending: VecDeque<PasswordCandidate>,
    pub total: usize,
    pub index: usize,
    pub saw_wrong_password: bool,
    pub saw_password_required: bool,
    pub saw_password_indeterminate: bool,
    pub last_error: Option<ErrorKind>,
    /// Several groupings of the volumes are being tried.
    pub group_trials: bool,
    /// Groupings that are left to try after this one.
    pub groups_left: usize,
    /// All groupings there are.
    pub groups: usize,
    /// An earlier grouping asked for a password.
    pub group_password_needed: bool,
    pub has_prompter: bool,
    pub group_retry_allowed: bool,
    pub restart_groups: bool,
    pub prompt_cancelled: bool,
    pub terminal_skip: Option<Reason>,
    pub extracted: bool,
}

impl Attempts {
    /// A password was asked for or refused in one of the attempts.
    pub open spec fn password_trouble(self) -> bool {
        self.saw_wrong_password || self.saw_password_required || self.saw_password_indeterminate
    }

    /// With no password left, another one might still help.
    pub open spec fn wants_password(self) -> bool {
        self.password_trouble() || (self.group_trials && self.group_password_needed)
            || self.last_error is None
    }

    /// Nothing of the attempts so far ended the loop.
    pub open spec fn open(self) -> bool {
        &&& !self.restart_groups
        &&& !self.prompt_cancelled
        &&& self.terminal_skip is None
        &&& !self.extracted
    }

    /// The two states differ in no more than the passwords that are left.
    pub open spec fn same_but_pending(self, other: Attempts) -> bool {
        self == (Attempts { pending: self.pending, ..other })
    }

    /// Ready for the first attempt.
    pub fn new(
        passwords: VecDeque<PasswordCandidate>,
        group_trials: bool,
        groups_left: usize,
        groups: usize,
        group_password_needed: bool,
        has_prompter: bool,
        encoding_skipped: bool,
    ) -> (r: Attempts)
        ensures
            r.pending@ == passwords@,
            r.total == passwords@.len(),
            r.index == 0,
            !r.password_trouble(),
            r.last_error is None,
            r.group_trials == group_trials,
            r.groups_left == groups_left,
            r.groups == groups,
            r.group_password_needed == group_password_needed,
            r.has_prompter == has_prompter,
            !r.group_retry_allowed,
            !r.restart_groups,
            !r.prompt_cancelled,
            !r.extracted,
            r.terminal_skip == (if encoding_skipped {
                Some(Reason::EncodingSkipped)
            } else {
                None::<Reason>
            }),
    {
        let total: usize = passwords.len();
        Attempts {
            pending: passwords,
            total,
            index: 0,
            saw_wrong_password: false,
            saw_password_required: false,
            saw_password_indeterminate: false,
            last_error: None,
            group_trials,
            groups_left,
            groups,
            group_password_needed,
            has_prompter,
            group_retry_allowed: false,
            restart_groups: false,
            prompt_cancelled: false,
            terminal_skip: if encoding_skipped {
                Some(Reason::EncodingSkipped)
            } else {
                None
            },
            extracted: false,
        }
    }

    /// The known passwords come first, in order. Once they are used up the user is asked, but
    /// only where a password might still help and no other grouping is left to try.
    pub fn next_password(&mut self) -> (r: NextAttempt)
        requires
            old(self).open(),
        ensures
            final(self).pending@ == (if old(self).pending@.len() > 0 {
                old(self).pending@.drop_first()
            } else {
                old(self).pending@
            }),
            final(self).same_but_pending(Attempts {
                prompt_cancelled: final(self).prompt_cancelled,
                ..*old(self)
            }),
            match r {
                NextAttempt::Try(password) => {
                    &&& old(self).pending@.len() > 0
                    &&& password == old(self).pending@[0]
                    &&& !final(self).prompt_cancelled
                },
                NextAttempt::AskUser => {
                    &&& old(self).pending@.len() == 0
                    &&& old(self).wants_password()
                    &&& !(old(self).group_trials && old(self).groups_left > 0)
                    &&& old(self).has_prompter
                    &&& !final(self).prompt_cancelled
                },
                NextAttempt::Stop => {
                    &&& old(self).pending@.len() == 0
                    &&& final(self).prompt_cancelled == old(self).wants_password()
                    &&& old(self).wants_password() ==> !old(self).has_prompter || (
                    old(self).group_trials && old(self).groups_left > 0)
                },
            },
            r is Try <==> old(self).pending@.len() > 0,
            final(self).prompt_cancelled || r is AskUser <==> old(self).pending@.len() == 0 && (
            old(self).saw_wrong_password || old(self).saw_password_required || old(
                self,
            ).saw_password_indeterminate || old(self).last_error is None || (old(self).group_trials
                && old(self).group_password_needed)),
            r is AskUser ==> old(self).has_prompter && (!old(self).group_trials || old(
                self,
            ).groups_left == 0),
            final(self).prompt_cancelled ==> !old(self).has_prompter || (old(self).group_trials
                && old(self).groups_left > 0),
    {
        if let Some(password) = self.pending.pop_front() {
            return NextAttempt::Try(password);
        }
        let wanted: bool = self.saw_wrong_password || self.saw_password_required
            || self.saw_password_indeterminate || (self.group_trials && self.group_password_needed)
            || self.last_error.is_none();
        if !wanted {
            return NextAttempt::Stop;
        }
        if self.group_trials && self.groups_left > 0 {
            self.prompt_cancelled = true;
            return NextAttempt::Stop;
        }
        if self.has_prompter {
            NextAttempt::AskUser
        } else {
            self.prompt_cancelled = true;
            NextAttempt::Stop
        }
    }

    /// An empty answer ends the attempts. With several groupings a new password is kept for all
    /// of them and the groupings start over; with one it is tried at once.
    pub fn answer(
        &mut self,
        input: Option<String>,
        group_passwords: &mut Vec<PasswordCandidate>,
    ) -> (r: PromptReply)
        requires
            old(self).open(),
        ensures
            final(self).pending == old(self).pending,
            final(self).same_but_pending(Attempts {
                prompt_cancelled: final(self).prompt_cancelled,
                restart_groups: final(self).restart_groups,
                ..*old(self)
            }),
            match input {
                Some(value) if value@.len() > 0 => {
                    let password = PasswordCandidate {
                        id: None,
                        value,
                        source: PasswordSource::Manual,
                    };
                    &&& !final(self).prompt_cancelled
                    &&& final(self).restart_groups == (old(self).groups > 1)
                    &&& if old(self).groups > 1 {
                        &&& r is Stop
                        &&& final(group_passwords)@ == old(group_passwords)@.push(password)
                    } else {
                        &&& r == PromptReply::Try(password)
                        &&& final(group_passwords)@ == old(group_passwords)@
                    }
                },
                _ => {
                    &&& r is Stop
                    &&& final(self).prompt_cancelled
                    &&& !final(self).restart_groups
                    &&& final(group_passwords)@ == old(group_passwords)@
                },
            },
            r is Try ==> input is Some && input->0@.len() > 0 && old(self).groups <= 1,
            final(self).prompt_cancelled <==> input is None || input->0@.len() == 0,
            final(self).restart_groups ==> final(group_passwords)@.len() == old(group_passwords)@.len() + 1
                && final(group_passwords)@.last().value@ == input->0@,
            !final(self).restart_groups ==> final(group_passwords)@ == old(group_passwords)@,
    {
        match input {
            Some(value) => {
                if value.as_str().is_empty() {
                    self.prompt_cancelled = true;
                    return PromptReply::Stop;
                }
                let password = PasswordCandidate { id: None, value, source: PasswordSource::Manual };
                if self.groups > 1 {
                    group_passwords.push(password);
                    self.restart_groups = true;
                    return PromptReply::Stop;
                }
                PromptReply::Try(password)
            },
            None => {
                self.prompt_cancelled = true;
                PromptReply::Stop
            },
        }
    }

    /// Counts one attempt and says which of how many it is.
    pub fn count_attempt(&mut self) -> (r: (usize, usize))
        requires
            old(self).index < usize::MAX,
        ensures
            final(self).pending == old(self).pending,
            final(self).same_but_pending(Attempts {
                index: (old(self).index + 1) as usize,
                ..*old(self)
            }),
            r.0 == old(self).index + 1,
            r.1 == (if old(self).total > old(self).index {
                old(self).total as int
            } else {
                old(self).index + 1
            }),
            r.0 <= r.1,
            r.1 >= old(self).total,
            r.1 == old(self).total || r.1 == r.0,
    {
        self.index += 1;
        let shown: usize = if self.total > self.index {
            self.total
        } else {
            self.index
        };
        (self.index, shown)
    }

    /// What one failed attempt changes.
    pub open spec fn failed_with(self, failure: AttemptFailure, empty_password: bool) -> Attempts {
        let retry = failure.step == FailureStep::ExtractFailed && !failure.preserved
            && crate::workflow::reason::is_group_error(failure.error);
        if failure.step == FailureStep::CollisionSkipped {
            Attempts {
                group_retry_allowed: false,
                terminal_skip: Some(Reason::TargetExists),
                ..self
            }
        } else if failure.step == FailureStep::ExtractFailed && !failure.preserved && failure.error
            == ErrorKind::WrongPassword {
            Attempts { group_retry_allowed: retry, saw_wrong_password: true, ..self }
        } else if failure.step == FailureStep::ExtractFailed && !failure.preserved && failure.error
            == ErrorKind::PasswordRequired && empty_password {
            Attempts { group_retry_allowed: retry, saw_password_required: true, ..self }
        } else if failure.step == FailureStep::ExtractFailed && !failure.preserved && failure.error
            == ErrorKind::PasswordIndeterminate {
            Attempts {
                group_retry_allowed: retry,
                saw_password_indeterminate: true,
                last_error: Some(failure.error),
                ..self
            }
        } else {
            Attempts { group_retry_allowed: retry, last_error: Some(failure.error), ..self }
        }
    }

    /// The failure says that another password might open the archive.
    pub open spec fn asks_for_password(failure: AttemptFailure, empty_password: bool) -> bool {
        &&& failure.step == FailureStep::ExtractFailed
        &&& !failure.preserved
        &&& (failure.error == ErrorKind::WrongPassword || (failure.error
            == ErrorKind::PasswordRequired && empty_password) || failure.error
            == ErrorKind::PasswordIndeterminate)
    }

    /// On the last of several groupings the user is asked for a password at once.
    pub open spec fn jumps_to_prompt(self, failure: AttemptFailure) -> bool {
        &&& self.group_trials
        &&& failure.step == FailureStep::ExtractFailed
        &&& !failure.preserved
        &&& crate::workflow::reason::is_group_error(failure.error)
        &&& self.groups_left == 0
        &&& self.group_password_needed
        &&& self.has_prompter
    }

    /// Takes in a failed attempt. A refused password leads on to the next one, and is counted
    /// against that password unless several groupings are being tried; output that was kept, and
    /// every other error, ends the attempts.
    pub fn fail(&mut self, failure: AttemptFailure, empty_password: bool) -> (r: AfterFailure)
        requires
            old(self).open(),
        ensures
            final(self).same_but_pending(old(self).failed_with(failure, empty_password)),
            if Attempts::asks_for_password(failure, empty_password) {
                &&& r == (AfterFailure::Retry {
                    blame_password: failure.error == ErrorKind::WrongPassword && !old(self).group_trials,
                })
                &&& final(self).pending@ == old(self).pending@
            } else if old(self).jumps_to_prompt(failure) {
                &&& r == (AfterFailure::Retry { blame_password: false })
                &&& final(self).pending@.len() == 0
            } else {
                &&& r is Stop
                &&& final(self).pending@ == old(self).pending@
            },
            failure.step == FailureStep::CollisionSkipped ==> r is Stop,
            failure.preserved ==> r is Stop,
            r == (AfterFailure::Retry { blame_password: true }) ==> failure.error == ErrorKind::WrongPassword
                && failure.step == FailureStep::ExtractFailed && !old(self).group_trials,
    {
        self.group_retry_allowed = false;
        match failure.step {
            FailureStep::CollisionSkipped => {
                self.terminal_skip = Some(Reason::TargetExists);
                return AfterFailure::Stop;
            },
            _ => {},
        }
        if failure.preserved {
            self.last_error = Some(failure.error);
            return AfterFailure::Stop;
        }
        match failure.step {
            FailureStep::ExtractFailed => {
                self.group_retry_allowed = retryable_group_error(failure.error);
                match failure.error {
                    ErrorKind::WrongPassword => {
                        self.saw_wrong_password = true;
                        return AfterFailure::Retry { blame_password: !self.group_trials };
                    },
                    ErrorKind::PasswordRequired => {
                        if empty_password {
                            self.saw_password_required = true;
                            return AfterFailure::Retry { blame_password: false };
                        }
                    },
                    ErrorKind::PasswordIndeterminate => {
                        self.saw_password_indeterminate = true;
                        self.last_error = Some(failure.error);
                        return AfterFailure::Retry { blame_password: false };
                    },
                    _ => {},
                }
            },
            _ => {},
        }
        self.last_error = Some(failure.error);
        if self.group_trials && self.group_retry_allowed && self.groups_left == 0
            && self.group_password_needed && self.has_prompter {
            self.pending.clear();
            AfterFailure::Retry { blame_password: false }
        } else {
            AfterFailure::Stop
        }
    }

    /// Takes in a committed attempt.
    pub fn succeed(&mut self)
        requires
            old(self).open(),
        ensures
            final(self).pending == old(self).pending,
            final(self).same_but_pending(Attempts { extracted: true, ..*old(self) }),
    {
        self.extracted = true;
    }

    /// The password that opened the archive counts as its password: it is not empty, and the
    /// archive is known to need one.
    pub open spec fn confirms_password(
        self,
        password: Seq<char>,
        encrypted: Option<bool>,
        zip_has_encrypted_entries: bool,
    ) -> bool {
        password.len() > 0 && (encrypted == Some(true) || self.password_trouble()
            || zip_has_encrypted_entries)
    }

    /// Whether the password that opened the archive counts as its password.
    pub fn has_password(
        &self,
        password: &str,
        encrypted: Option<bool>,
        zip_has_encrypted_entries: bool,
    ) -> (r: bool)
        ensures
            r == self.confirms_password(password@, encrypted, zip_has_encrypted_entries),
    {
        let known_encrypted: bool = match encrypted {
            Some(true) => true,
            _ => false,
        };
        !password.is_empty() && (known_encrypted || self.saw_password_required
            || self.saw_wrong_password || self.saw_password_indeterminate
            || zip_has_encrypted_entries)
    }

    /// The reason for an archive that no password opened.
    pub open spec fn password_reason(self) -> Reason {
        if self.saw_password_indeterminate {
            Reason::PasswordIndeterminate
        } else if self.saw_wrong_password {
            Reason::WrongPassword
        } else {
            Reason::PasswordRequired
        }
    }

    /// The error for an archive that no password opened.
    pub open spec fn password_error(self) -> ErrorKind {
        if self.saw_password_indeterminate {
            ErrorKind::PasswordIndeterminate
        } else if self.saw_wrong_password {
            ErrorKind::WrongPassword
        } else {
            ErrorKind::PasswordRequired
        }
    }

    /// The cancellation reached the attempts themselves.
    pub open spec fn cancelled_by(self, c: Cancellation) -> bool {
        c.user || (self.last_error == Some(ErrorKind::Cancelled) && !c.stopped_on_error)
    }

    /// Whether the cancellation reached the attempts themselves.
    pub fn was_cancelled(&self, c: Cancellation) -> (r: bool)
        ensures
            r == self.cancelled_by(c),
    {
        let cancelled_error: bool = match self.last_error {
            Some(ErrorKind::Cancelled) => true,
            _ => false,
        };
        c.user || (cancelled_error && !c.stopped_on_error)
    }

    /// What the attempts amount to.
    pub open spec fn verdict(self, c: Cancellation) -> Verdict {
        if self.restart_groups && !c.cancelled {
            Verdict::RestartGroups
        } else if !self.extracted && c.cancelled && (self.last_error is None || self.last_error
            == Some(ErrorKind::Cancelled)) {
            Verdict::Interrupted
        } else if !self.extracted && self.terminal_skip is None && self.group_retry_allowed
            && !c.cancelled && self.groups_left > 0 {
            Verdict::NextGroup
        } else if !self.extracted && self.cancelled_by(c) {
            Verdict::Cancelled
        } else if self.terminal_skip is Some {
            Verdict::Skipped(self.terminal_skip->0)
        } else if self.extracted {
            Verdict::Extracted
        } else if self.prompt_cancelled {
            if self.has_prompter {
                Verdict::Skipped(self.password_reason())
            } else {
                Verdict::Failed(self.password_reason(), self.password_error())
            }
        } else if self.last_error is Some {
            Verdict::Failed(
                crate::workflow::reason::reason_of_error(self.last_error->0),
                self.last_error->0,
            )
        } else if self.saw_wrong_password {
            Verdict::Failed(Reason::WrongPassword, ErrorKind::WrongPassword)
        } else {
            Verdict::Skipped(Reason::PasswordRequired)
        }
    }

    /// Draws the conclusion from the attempts.
    pub fn conclude(&self, c: Cancellation) -> (r: Verdict)
        ensures
            r == self.verdict(c),
            r is Skipped && self.terminal_skip is None && self.prompt_cancelled ==> self.has_prompter,
            r is Failed && self.prompt_cancelled ==> !self.has_prompter,
            r == Verdict::Extracted ==> self.extracted,
            self.extracted && self.terminal_skip is None && !self.restart_groups ==> r
                == Verdict::Extracted,
    {
        if self.restart_groups && !c.cancelled {
            return Verdict::RestartGroups;
        }
        let cancelled_error: bool = match self.last_error {
            Some(ErrorKind::Cancelled) => true,
            _ => false,
        };
        if !self.extracted && c.cancelled && (self.last_error.is_none() || cancelled_error) {
            return Verdict::Interrupted;
        }
        if !self.extracted && self.terminal_skip.is_none() && self.group_retry_allowed
            && !c.cancelled && self.groups_left > 0 {
            return Verdict::NextGroup;
        }
        if !self.extracted && self.was_cancelled(c) {
            return Verdict::Cancelled;
        }
        if let Some(reason) = self.terminal_skip {
            return Verdict::Skipped(reason);
        }
        if self.extracted {
            return Verdict::Extracted;
        }
        if self.prompt_cancelled {
            let (reason, error): (Reason, ErrorKind) = if self.saw_password_indeterminate {
                (Reason::PasswordIndeterminate, ErrorKind::PasswordIndeterminate)
            } else if self.saw_wrong_password {
                (Reason::WrongPassword, ErrorKind::WrongPassword)
            } else {
                (Reason::PasswordRequired, ErrorKind::PasswordRequired)
            };
            return if self.has_prompter {
                Verdict::Skipped(reason)
            } else {
                Verdict::Failed(reason, error)
            };
        }
        if let Some(error) = self.last_error {
            return Verdict::Failed(classify_error(error), error);
        }
        if self.saw_wrong_password {
            return Verdict::Failed(Reason::WrongPassword, ErrorKind::WrongPassword);
        }
        Verdict::Skipped(Reason::PasswordRequired)
    }

    /// The next grouping is told whether this one asked for a password.
    pub fn carries_password_need(&self) -> (r: bool)
        ensures
            r == (self.group_password_needed || self.password_trouble()),
    {
        self.group_password_needed || self.saw_wrong_password || self.saw_password_required
            || self.saw_password_indeterminate
    }
}

/// A committed archive is recorded as extracted, whatever happens to the task afterwards.
pub proof fn extracted_stays_extracted(a: Attempts, c: Cancellation)
    requires
        a.extracted,
        a.terminal_skip is None,
        !a.restart_groups,
    ensures
        a.verdict(c) == Verdict::Extracted,
{
}

/// Where nobody can be asked and no password is left, an archive that wants one has failed,
/// whichever trouble there was with the passwords; where there was a user to ask, it is skipped.
pub proof fn unopened_archive_fails_without_a_user(a: Attempts, c: Cancellation)
    requires
        !a.extracted,
        !a.restart_groups || c.cancelled,
        a.terminal_skip is None,
        a.prompt_cancelled,
        !c.user,
        a.last_error != Some(ErrorKind::Cancelled) || (c.stopped_on_error && !c.cancelled),
        !c.cancelled || a.last_error is Some,
        !a.group_retry_allowed || a.groups_left == 0 || c.cancelled,
    ensures
        a.has_prompter <==> a.verdict(c) is Skipped,
        !a.has_prompter <==> a.verdict(c) is Failed,
        a.saw_password_indeterminate && !a.has_prompter ==> a.verdict(c) == Verdict::Failed(
            Reason::PasswordIndeterminate,
            ErrorKind::PasswordIndeterminate,
        ),
        !a.saw_password_indeterminate && a.saw_wrong_password && !a.has_prompter ==> a.verdict(c)
            == Verdict::Failed(Reason::WrongPassword, ErrorKind::WrongPassword),
        !a.saw_password_indeterminate && !a.saw_wrong_password && !a.has_prompter ==> a.verdict(c)
            == Verdict::Failed(Reason::PasswordRequired, ErrorKind::PasswordRequired),
        a.saw_password_indeterminate && a.has_prompter ==> a.verdict(c) == Verdict::Skipped(
            Reason::PasswordIndeterminate,
        ),
        !a.saw_password_indeterminate && a.saw_wrong_password && a.has_prompter ==> a.verdict(c)
            == Verdict::Skipped(Reason::WrongPassword),
        !a.saw_password_indeterminate && !a.saw_wrong_password && a.has_prompter ==> a.verdict(c)
            == Verdict::Skipped(Reason::PasswordRequired),
{
}

/// An archive that was not extracted is skipped only for a reason to leave it alone, because the
/// user gave no password, or because nothing at all went wrong with it.
pub proof fn only_harmless_ends_are_skips(a: Attempts, c: Cancellation, reason: Reason)
    requires
        a.verdict(c) == Verdict::Skipped(reason),
    ensures
        a.terminal_skip is Some ==> a.terminal_skip == Some(reason),
        a.terminal_skip is None ==> !a.extracted && (a.prompt_cancelled && a.has_prompter || (
        !a.prompt_cancelled && a.last_error is None && !a.saw_wrong_password && reason
            == Reason::PasswordRequired)),
        a.terminal_skip is None && a.prompt_cancelled ==> (reason == Reason::PasswordIndeterminate
            <==> a.saw_password_indeterminate),
        a.terminal_skip is None ==> (reason == Reason::WrongPassword <==> a.saw_wrong_password
            && !a.saw_password_indeterminate),
{
}

/// An archive has failed with the last error that the attempts came to, unless the passwords were
/// the trouble.
pub proof fn failure_tells_the_last_error(a: Attempts, c: Cancellation)
    requires
        !a.extracted,
        !a.restart_groups,
        a.terminal_skip is None,
        !a.prompt_cancelled,
        !c.cancelled,
        !c.user,
        !a.group_retry_allowed || a.groups_left == 0,
    ensures
        match a.last_error {
            Some(ErrorKind::Cancelled) if !c.stopped_on_error => a.verdict(c) == Verdict::Cancelled,
            Some(error) => a.verdict(c) matches Verdict::Failed(_, told) && told == error,
            None => if a.saw_wrong_password {
                a.verdict(c) == Verdict::Failed(Reason::WrongPassword, ErrorKind::WrongPassword)
            } else {
                a.verdict(c) == Verdict::Skipped(Reason::PasswordRequired)
            },
        },
{
}

/// What ends the attempts goes in this order: a new password starts the groupings over, a
/// cancelled task stops, another grouping is tried, and only then the archive itself is judged.
pub proof fn attempts_end_in_this_order(a: Attempts, c: Cancellation)
    ensures
        a.verdict(c) == Verdict::RestartGroups <==> a.restart_groups && !c.cancelled,
        a.verdict(c) == Verdict::Interrupted <==> !a.extracted && c.cancelled && (a.last_error
            is None || a.last_error == Some(ErrorKind::Cancelled)),
        a.verdict(c) == Verdict::NextGroup <==> !a.restart_groups && !a.extracted && a.terminal_skip
            is None && a.group_retry_allowed && a.groups_left > 0 && !c.cancelled,
        a.verdict(c) == Verdict::Extracted <==> a.extracted && a.terminal_skip is None && (
        !a.restart_groups || c.cancelled),
        a.verdict(c) == Verdict::Cancelled ==> !a.extracted && (c.user || a.last_error == Some(
            ErrorKind::Cancelled,
        )),
        c.user && !c.cancelled && !a.extracted && !a.restart_groups && (!a.group_retry_allowed
            || a.groups_left == 0) ==> a.verdict(c) == Verdict::Cancelled,
{
}

/// A password that is asked for or refused is remembered as just that, and nothing else of the
/// attempts changes with it but whether another grouping is worth a try.
pub proof fn password_trouble_is_remembered(a: Attempts, failure: AttemptFailure, empty: bool)
    requires
        failure.step == FailureStep::ExtractFailed,
        !failure.preserved,
    ensures
        ({
            let b = a.failed_with(failure, empty);
            &&& b.saw_wrong_password == (a.saw_wrong_password || failure.error
                == ErrorKind::WrongPassword)
            &&& b.saw_password_required == (a.saw_password_required || (failure.error
                == ErrorKind::PasswordRequired && empty))
            &&& b.saw_password_indeterminate == (a.saw_password_indeterminate || failure.error
                == ErrorKind::PasswordIndeterminate)
            &&& b.last_error == (if failure.error == ErrorKind::WrongPassword || (failure.error
                == ErrorKind::PasswordRequired && empty) {
                a.last_error
            } else {
                Some(failure.error)
            })
            &&& b.terminal_skip == a.terminal_skip
        }),
{
}

/// A failure behind the reading of the archive says nothing about its password, and another
/// grouping does not help. A target that is to be left alone ends the node as skipped for that;
/// any other failure is the error of the node.
pub proof fn failure_of_the_output_is_final(a: Attempts, failure: AttemptFailure, empty: bool)
    requires
        failure.step != FailureStep::ExtractFailed || failure.preserved,
    ensures
        ({
            let b = a.failed_with(failure, empty);
            &&& !b.group_retry_allowed
            &&& b.saw_wrong_password == a.saw_wrong_password
            &&& b.saw_password_required == a.saw_password_required
            &&& b.saw_password_indeterminate == a.saw_password_indeterminate
            &&& failure.step == FailureStep::CollisionSkipped ==> b.terminal_skip == Some(
                Reason::TargetExists,
            ) && b.last_error == a.last_error
            &&& failure.step != FailureStep::CollisionSkipped ==> b.terminal_skip == a.terminal_skip
                && b.last_error == Some(failure.error)
        }),
{
}

/// Only what the archive itself says about its password leads on to the next one: a refused
/// password, a missing one, or one that cannot be told from damage.
pub proof fn next_password_needs_a_refusal(failure: AttemptFailure, empty: bool)
    ensures
        ({
            let asks = Attempts::asks_for_password(failure, empty);
            let read = failure.step == FailureStep::ExtractFailed && !failure.preserved;
            &&& read && failure.error == ErrorKind::WrongPassword ==> asks
            &&& read && failure.error == ErrorKind::PasswordIndeterminate ==> asks
            &&& read && failure.error == ErrorKind::PasswordRequired ==> asks == empty
            &&& asks ==> read && (failure.error == ErrorKind::WrongPassword || failure.error
                == ErrorKind::PasswordRequired || failure.error == ErrorKind::PasswordIndeterminate)
        }),
{
}

/// Only on the last of several groupings, where an earlier one asked for a password and there is
/// a user to ask, is the user asked at once.
pub proof fn prompt_is_jumped_to_on_the_last_grouping(a: Attempts, failure: AttemptFailure)
    requires
        a.jumps_to_prompt(failure),
    ensures
        a.has_prompter,
        a.group_trials,
        a.groups_left == 0,
        a.group_password_needed,
        failure.step == FailureStep::ExtractFailed,
        !failure.preserved,
        failure.error != ErrorKind::Cancelled,
        failure.error != ErrorKind::Io,
        failure.error != ErrorKind::ResourceLimit,
{
}

/// No password is remembered for an archive that opened with an empty one, nor for one that
/// nothing says needs a password; an encrypted archive remembers what opened it.
pub proof fn password_is_remembered_for_encrypted_archives(
    a: Attempts,
    password: Seq<char>,
    encrypted: Option<bool>,
    entries: bool,
)
    ensures
        password.len() == 0 ==> !a.confirms_password(password, encrypted, entries),
        password.len() > 0 && encrypted == Some(true) ==> a.confirms_password(
            password,
            encrypted,
            entries,
        ),
        password.len() > 0 && entries ==> a.confirms_password(password, encrypted, entries),
        password.len() > 0 && (a.saw_wrong_password || a.saw_password_required
            || a.saw_password_indeterminate) ==> a.confirms_password(password, encrypted, entries),
        encrypted != Some(true) && !entries && !a.saw_wrong_password && !a.saw_password_required
            && !a.saw_password_indeterminate ==> !a.confirms_password(password, encrypted, entries),
{
}

/// The reason for an archive that no password opened is the one under which its error is filed,
/// but for a password that was never given, which is told as just that. What could not be told
/// apart outweighs a wrong password, and that outweighs none at all.
pub proof fn password_reason_fits_its_error(a: Attempts)
    ensures
        a.password_error() != ErrorKind::PasswordRequired ==> a.password_reason()
            == crate::workflow::reason::reason_of_error(a.password_error()),
        a.password_error() == ErrorKind::PasswordRequired <==> a.password_reason()
            == Reason::PasswordRequired,
        a.saw_password_indeterminate ==> a.password_error() == ErrorKind::PasswordIndeterminate,
        a.password_error() == ErrorKind::WrongPassword <==> a.saw_wrong_password
            && !a.saw_password_indeterminate,
        a.password_error() == ErrorKind::PasswordRequired <==> !a.saw_wrong_password
            && !a.saw_password_indeterminate,
{
}

/// Another password is of no use once something failed that no password mends, unless an earlier
/// grouping asked for one.
pub proof fn passwords_mend_password_trouble(a: Attempts)
    ensures
        a.last_error is None ==> a.wants_password(),
        a.saw_wrong_password || a.saw_password_required || a.saw_password_indeterminate
            ==> a.wants_password(),
        a.last_error is Some && !a.saw_wrong_password && !a.saw_password_required
            && !a.saw_password_indeterminate && !a.group_password_needed ==> !a.wants_password(),
        a.group_password_needed && a.group_trials ==> a.wants_password(),
        !a.group_trials && a.last_error is Some && a.wants_password() ==> a.password_trouble(),
        a.password_trouble() <==> a.saw_wrong_password || a.saw_password_required
            || a.saw_password_indeterminate,
{
}

/// The user's word always counts as a cancellation of the attempts. Without it they count as
/// cancelled only where they ended so, and not where the task stopped at a failure.
pub proof fn stopping_at_a_failure_cancels_nothing(a: Attempts, c: Cancellation)
    ensures
        c.user ==> a.cancelled_by(c),
        !c.user && c.stopped_on_error ==> !a.cancelled_by(c),
        !c.user && a.last_error != Some(ErrorKind::Cancelled) ==> !a.cancelled_by(c),
        a.last_error == Some(ErrorKind::Cancelled) && !c.stopped_on_error ==> a.cancelled_by(c),
{
}

} // verus!
