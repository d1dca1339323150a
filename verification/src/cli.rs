//! What the command line asks for, as plain values.

use vstd::prelude::*;

verus! {

/// How many repositories the program lets be worked on at once.
pub const CONCURRENCY_LIMIT: usize = 4;

/// What is to be done to the repositories of the workspace.
#[derive(Debug)]
pub enum Commands {
    /// Show the changed files of every repository.
    Status,
    /// Stage these paths in every repository.
    Add {
        /// The paths to stage.
        paths: Vec<String>,
    },
    /// Commit what is staged in every repository.
    Commit {
        /// The message of the commits.
        message: String,
    },
    /// List the repositories.
    List,
    /// Run a command of the user's own in every repository.
    Exec {
        /// The command and its arguments.
        command: Vec<String>,
    },
}

/// The command line as a whole.
#[derive(Debug)]
pub struct Cli {
    /// What is to be done.
    pub command: Commands,
    /// The root directory of the workspace, where one is given.
    pub workspace: Option<String>,
}

impl Cli {
    /// The root directory that the workspace has: the one given on the
    /// command line, or `current` where none is given.
    pub fn workspace_root(&self, current: String) -> (root: String)
        ensures
            match self.workspace {
                Some(given) => root@ == given@,
                None => root@ == current@,
            },
    {
        match &self.workspace {
            Some(given) => given.clone(),
            None => current,
        }
    }
}

} // verus!
