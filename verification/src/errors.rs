//! The errors that the stack operations report.

use vstd::prelude::*;
use vstd::string::StringExecFns;

verus! {

/// What can go wrong while a stack is read or changed.
#[derive(Debug)]
pub enum StackError {
    /// The working directory is not inside a repository.
    NotARepository,
    /// A command on the repository ended with a failure.
    CommandFailed { command: String, stderr: String },
    /// The branch tracks no parent that the operation could work against.
    NoTrackedParent,
    /// Rebasing `branch` onto `parent` stopped on a conflict.
    RebaseConflict { branch: String, parent: String },
    /// The review service never said whether the review can be merged.
    MergeabilityUndetermined { review_id: String },
    /// The user left an interactive prompt without choosing.
    AmbiguousSelection,
    /// No review service could be reached for the repository.
    ReviewServiceUnavailable,
}

impl StackError {
    /// What the user is told: the sentence of the error's kind, followed by
    /// the names it carries.
    pub open spec fn message_spec(self) -> Seq<char> {
        match self {
            StackError::NotARepository => "Not in a git repository"@,
            StackError::CommandFailed { command, stderr } => "> "@ + command@ + "\n"@ + stderr@,
            StackError::NoTrackedParent => "No tracked parent"@,
            StackError::RebaseConflict { branch, parent } => "Could not rebase branch "@ + parent@
                + " <- "@ + branch@,
            StackError::MergeabilityUndetermined { review_id } =>
                "Could not determine mergeability for PR: "@ + review_id@,
            StackError::AmbiguousSelection => "Cancelled"@,
            StackError::ReviewServiceUnavailable => "No review service available"@,
        }
    }

    /// The text shown to the user for this error.
    pub fn message(&self) -> (r: String)
        ensures
            r@ == self.message_spec(),
    {
        match self {
            StackError::NotARepository => String::from_str("Not in a git repository"),
            StackError::CommandFailed { command, stderr } => String::from_str("> ").concat(
                command.as_str(),
            ).concat("\n").concat(stderr.as_str()),
            StackError::NoTrackedParent => String::from_str("No tracked parent"),
            StackError::RebaseConflict { branch, parent } => String::from_str(
                "Could not rebase branch ",
            ).concat(parent.as_str()).concat(" <- ").concat(branch.as_str()),
            StackError::MergeabilityUndetermined { review_id } => String::from_str(
                "Could not determine mergeability for PR: ",
            ).concat(review_id.as_str()),
            StackError::AmbiguousSelection => String::from_str("Cancelled"),
            StackError::ReviewServiceUnavailable => String::from_str(
                "No review service available",
            ),
        }
    }
}

} // verus!
