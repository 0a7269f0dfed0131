//! Errors of the stack engine.

use crate::patchname::InvalidName;
use crate::state::StateError;
use crate::hook::{hook_failure_text, hook_failure_view};
use vstd::prelude::*;
use vstd::string::*;

verus! {

/// What can go wrong when a stack is opened, checked or changed.
#[derive(Clone, Debug, PartialEq, Eq)]
pub enum Error {
    /// The branch has a stack although the caller asked to make one.
    AlreadyInitialized(String),
    /// The branch has no stack although the caller needs one.
    NotInitialized(String),
    /// The tip of the branch is not the top of the stack.
    HeadTopMismatch,
    /// An operation needs an applied patch and there is none.
    NoAppliedPatches,
    /// The first applied patch has a commit without a parent, so the stack
    /// has no base.
    PatchWithoutParent(String),
    /// A patch of this name is already in the stack.
    PatchExists(String),
    /// No patch of this name is in the list that the operation works on.
    NoSuchPatch(String),
    /// A position lies behind the end of a list.
    BadPosition,
    /// The transaction has halted and accepts no further operation.
    Halted,
    /// A patch did not apply cleanly; the text says which.
    CausedConflicts(String),
    /// The staged lists do not make a stack state.
    InconsistentState(StateError),
    /// A name is not a patch name.
    InvalidName(InvalidName),
    /// The state reference did not hold what the publication expected.
    ConcurrentModification,
    /// A hook ran and failed; `code` is its exit status, or `-1` without one.
    HookFailed { hook: String, code: i32 },
    /// A revision range is malformed; the texts give the range and the fault.
    InvalidRevision(String, String),
    /// Every name tried for a patch is in use.
    NoFreeName,
    /// The arguments of a command do not go together; the text says why.
    Usage(String),
    /// The name or the address of a signature is no valid UTF-8, so that no
    /// trailer can be made of it.
    NonUtf8Signature,
    /// A relative hooks path was configured and the repository has no
    /// working tree.
    NoWorkdir,
}

/// The text that says why a name is no patch name.
pub open spec fn invalid_name_text(defect: InvalidName) -> Seq<char> {
    match defect {
        InvalidName::Empty => "patch name may not be empty"@,
        InvalidName::TooLong => "patch name is too long"@,
        InvalidName::ForbiddenChar => "patch name may not contain control characters, spaces or any of `~^:?*[\\/`"@,
        InvalidName::ForbiddenSequence => "patch name may not contain `..` or `@{`"@,
        InvalidName::BadStart => "patch name may not start with `.` or `-`"@,
        InvalidName::BadEnd => "patch name may not end with `.` or `.lock`"@,
        InvalidName::Reserved => "patch name may not be `@`"@,
    }
}

/// The text that says why lists and a table make no stack state.
pub open spec fn state_error_text(defect: StateError) -> Seq<char> {
    match defect {
        StateError::DuplicateName => "a patch name is listed twice"@,
        StateError::DanglingName => "a listed patch has no entry"@,
        StateError::UnlistedPatch => "a patch entry is in no list"@,
    }
}

/// The text that reports an error to the user.
pub open spec fn message_view(error: Error) -> Seq<char> {
    match error {
        Error::AlreadyInitialized(branch) => "StGit stack already initialized for branch `"@
            + branch@ + "`"@,
        Error::NotInitialized(branch) => "StGit stack not initialized for branch `"@ + branch@
            + "`"@,
        Error::HeadTopMismatch => "HEAD and stack top are not the same. This can happen if you modify the branch with git. See `stg repair --help` for next steps to take."@,
        Error::NoAppliedPatches => "no patches applied"@,
        Error::PatchWithoutParent(name) => "patch `"@ + name@ + "` has a commit without parent"@,
        Error::PatchExists(name) => "patch `"@ + name@ + "` already exists"@,
        Error::NoSuchPatch(name) => "patch `"@ + name@ + "` does not exist"@,
        Error::BadPosition => "position lies behind the end of the list"@,
        Error::Halted => "transaction has halted"@,
        Error::CausedConflicts(text) => text@,
        Error::InconsistentState(defect) => state_error_text(defect),
        Error::InvalidName(defect) => invalid_name_text(defect),
        Error::ConcurrentModification => "stack was modified concurrently, retry"@,
        Error::HookFailed { hook, code } => hook_failure_view(hook@, code),
        Error::InvalidRevision(range, reason) => "invalid StGit revision `"@ + range@ + "`: "@
            + reason@,
        Error::NoFreeName => "no patch name is free"@,
        Error::Usage(text) => text@,
        Error::NonUtf8Signature => "trailer requires UTF-8 signature"@,
        Error::NoWorkdir => "No workdir found"@,
    }
}

fn invalid_name_message(defect: InvalidName) -> (text: &'static str)
    ensures
        text@ == invalid_name_text(defect),
{
    match defect {
        InvalidName::Empty => "patch name may not be empty",
        InvalidName::TooLong => "patch name is too long",
        InvalidName::ForbiddenChar => "patch name may not contain control characters, spaces or any of `~^:?*[\\/`",
        InvalidName::ForbiddenSequence => "patch name may not contain `..` or `@{`",
        InvalidName::BadStart => "patch name may not start with `.` or `-`",
        InvalidName::BadEnd => "patch name may not end with `.` or `.lock`",
        InvalidName::Reserved => "patch name may not be `@`",
    }
}

fn state_error_message(defect: StateError) -> (text: &'static str)
    ensures
        text@ == state_error_text(defect),
{
    match defect {
        StateError::DuplicateName => "a patch name is listed twice",
        StateError::DanglingName => "a listed patch has no entry",
        StateError::UnlistedPatch => "a patch entry is in no list",
    }
}

fn quoted(head: &str, name: &str, tail: &str) -> (text: String)
    ensures
        text@ == head@ + name@ + tail@,
{
    let mut text = String::from_str(head);
    text.append(name);
    text.append(tail);
    text
}

impl Error {
    /// Writes the text that reports the error to the user.
    pub fn message(&self) -> (text: String)
        ensures
            text@ == message_view(*self),
    {
        match self {
            Error::AlreadyInitialized(branch) => quoted(
                "StGit stack already initialized for branch `",
                branch.as_str(),
                "`",
            ),
            Error::NotInitialized(branch) => quoted(
                "StGit stack not initialized for branch `",
                branch.as_str(),
                "`",
            ),
            Error::HeadTopMismatch => String::from_str(
                "HEAD and stack top are not the same. This can happen if you modify the branch with git. See `stg repair --help` for next steps to take.",
            ),
            Error::NoAppliedPatches => String::from_str("no patches applied"),
            Error::PatchWithoutParent(name) => quoted(
                "patch `",
                name.as_str(),
                "` has a commit without parent",
            ),
            Error::PatchExists(name) => quoted("patch `", name.as_str(), "` already exists"),
            Error::NoSuchPatch(name) => quoted("patch `", name.as_str(), "` does not exist"),
            Error::BadPosition => String::from_str("position lies behind the end of the list"),
            Error::Halted => String::from_str("transaction has halted"),
            Error::CausedConflicts(text) => text.clone(),
            Error::InconsistentState(defect) => String::from_str(state_error_message(*defect)),
            Error::InvalidName(defect) => String::from_str(invalid_name_message(*defect)),
            Error::ConcurrentModification => String::from_str(
                "stack was modified concurrently, retry",
            ),
            Error::HookFailed { hook, code } => hook_failure_text(hook.as_str(), *code),
            Error::InvalidRevision(range, reason) => {
                let mut text = quoted("invalid StGit revision `", range.as_str(), "`: ");
                text.append(reason.as_str());
                text
            },
            Error::NoFreeName => String::from_str("no patch name is free"),
            Error::Usage(text) => text.clone(),
            Error::NonUtf8Signature => String::from_str("trailer requires UTF-8 signature"),
            Error::NoWorkdir => String::from_str("No workdir found"),
        }
    }
}

} // verus!
