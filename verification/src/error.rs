//! Failures of the workspace and of a single operation, and their texts.

use vstd::prelude::*;
use vstd::string::*;

verus! {

/// A failure of the workspace as a whole.
#[derive(Debug, PartialEq, Eq)]
pub enum GitWsError {
    /// The version-control engine reported a failure; the text is its own.
    GitError(String),
    /// The scan root could not be read; the text is the system's.
    IoError(String),
    /// No repository of this name is in the index.
    RepositoryNotFound(String),
    /// Anything else, described in words.
    OperationFailed(String),
}

/// A failure of one operation on one repository.
#[derive(Debug, PartialEq, Eq)]
pub enum GitOperationError {
    /// The version-control engine reported a failure; the text is its own.
    Git(String),
    /// No repository of this name is in the index.
    RepositoryNotFound(String),
    /// Anything else, described in words.
    OperationFailed(String),
}

impl GitWsError {
    /// The failure that stands for one reported by the engine: it carries
    /// the text that the engine's error writes of itself.
    pub fn from_git(error: &git2::Error) -> (failure: Self)
        ensures
            failure matches GitWsError::GitError(text) && is_text_of(*error, text),
    {
        GitWsError::GitError(error.to_string())
    }

    /// What the failure carries: the engine's text, the system's text, a name or a reason.
    pub open spec fn detail(self) -> Seq<char> {
        match self {
            GitWsError::GitError(text) => text@,
            GitWsError::IoError(text) => text@,
            GitWsError::RepositoryNotFound(name) => name@,
            GitWsError::OperationFailed(reason) => reason@,
        }
    }

    /// The words that introduce each kind of failure.
    pub open spec fn heading(self) -> Seq<char> {
        match self {
            GitWsError::GitError(_) => "Git error: "@,
            GitWsError::IoError(_) => "IO error: "@,
            GitWsError::RepositoryNotFound(_) => "Repository not found: "@,
            GitWsError::OperationFailed(_) => "Operation failed: "@,
        }
    }

    /// The failure as one line of text: its heading, then its detail.
    pub fn message(&self) -> (text: String)
        ensures
            text@ == self.heading() + self.detail(),
    {
        match self {
            GitWsError::GitError(detail) => String::from_str("Git error: ").concat(detail.as_str()),
            GitWsError::IoError(detail) => String::from_str("IO error: ").concat(detail.as_str()),
            GitWsError::RepositoryNotFound(name) => String::from_str(
                "Repository not found: ",
            ).concat(name.as_str()),
            GitWsError::OperationFailed(reason) => String::from_str("Operation failed: ").concat(
                reason.as_str(),
            ),
        }
    }
}

impl GitOperationError {
    /// The failure that stands for one reported by the engine: it carries
    /// the text that the engine's error writes of itself.
    pub fn from_git(error: &git2::Error) -> (failure: Self)
        ensures
            failure matches GitOperationError::Git(text) && is_text_of(*error, text),
    {
        GitOperationError::Git(error.to_string())
    }

    /// What the failure carries: the engine's text, a name or a reason.
    pub open spec fn detail(self) -> Seq<char> {
        match self {
            GitOperationError::Git(text) => text@,
            GitOperationError::RepositoryNotFound(name) => name@,
            GitOperationError::OperationFailed(reason) => reason@,
        }
    }

    /// The words that introduce each kind of failure.
    pub open spec fn heading(self) -> Seq<char> {
        match self {
            GitOperationError::Git(_) => "Git error: "@,
            GitOperationError::RepositoryNotFound(_) => "Repository not found: "@,
            GitOperationError::OperationFailed(_) => "Operation failed: "@,
        }
    }

    /// The failure as one line of text: its heading, then its detail.
    pub fn message(&self) -> (text: String)
        ensures
            text@ == self.heading() + self.detail(),
    {
        match self {
            GitOperationError::Git(detail) => String::from_str("Git error: ").concat(
                detail.as_str(),
            ),
            GitOperationError::RepositoryNotFound(name) => String::from_str(
                "Repository not found: ",
            ).concat(name.as_str()),
            GitOperationError::OperationFailed(reason) => String::from_str(
                "Operation failed: ",
            ).concat(reason.as_str()),
        }
    }
}

/// Whether `text` is what the engine's error `error` writes of itself
/// through `Display`: the text that `to_string` gives for it.
pub open spec fn is_text_of(error: git2::Error, text: String) -> bool {
    to_string_from_display_ensures::<git2::Error>(&error, text)
}

} // verus!
