//! The operations that can be applied to a repository, and what a status
//! listing is made into: a list of changes, a tally, and the rows of a table.

use crate::error::GitOperationError;
use crate::git::{oid_text, stage_path, status_entries, StatusEntry};
use crate::text::{decimal, decimal_text, join, same_text};
use crate::workspace::GitRepository;
use vstd::prelude::*;
use vstd::string::*;

verus! {

/// How a file differs from what is committed.
#[derive(Debug, Clone, Copy, PartialEq, Eq)]
pub enum ChangeKind {
    /// New, in the working tree or in the staging area.
    Untracked,
    /// Changed in the working tree.
    Modified,
    /// Changed in the staging area.
    Staged,
}

/// One changed file of a repository.
#[derive(Debug, PartialEq, Eq)]
pub struct FileChange {
    /// The path of the file, relative to the repository root.
    pub path: String,
    /// How the file differs.
    pub kind: ChangeKind,
}

/// The kind of change that a line of a status listing stands for, if any. A
/// line without a path stands for none. A new file counts as untracked
/// whatever else holds of it, and a change in the working tree goes before
/// one in the staging area.
pub open spec fn change_kind(entry: StatusEntry) -> Option<ChangeKind> {
    if entry.path is None {
        None
    } else if entry.index_new || entry.worktree_new {
        Some(ChangeKind::Untracked)
    } else if entry.worktree_modified {
        Some(ChangeKind::Modified)
    } else if entry.index_modified {
        Some(ChangeKind::Staged)
    } else {
        None
    }
}

/// The changes that a status listing holds, in the order of the listing.
pub open spec fn changes_of(entries: Seq<StatusEntry>) -> Seq<FileChange>
    decreases entries.len(),
{
    if entries.len() == 0 {
        Seq::empty()
    } else {
        let before = changes_of(entries.drop_last());
        match change_kind(entries.last()) {
            Some(kind) => before.push(FileChange { path: entries.last().path->0, kind }),
            None => before,
        }
    }
}

/// Reads the changes off a status listing.
pub fn changes(entries: &Vec<StatusEntry>) -> (found: Vec<FileChange>)
    ensures
        found@ == changes_of(entries@),
{
    let mut found: Vec<FileChange> = Vec::new();
    let mut at: usize = 0;
    while at < entries.len()
        invariant
            at <= entries@.len(),
            found@ == changes_of(entries@.take(at as int)),
        decreases entries@.len() - at,
    {
        let entry = &entries[at];
        proof {
            assert(entries@.take(at + 1).drop_last() == entries@.take(at as int));
            assert(entries@.take(at + 1).last() == entries@[at as int]);
        }
        match &entry.path {
            Some(path) => {
                if entry.index_new || entry.worktree_new {
                    found.push(FileChange { path: path.clone(), kind: ChangeKind::Untracked });
                } else if entry.worktree_modified {
                    found.push(FileChange { path: path.clone(), kind: ChangeKind::Modified });
                } else if entry.index_modified {
                    found.push(FileChange { path: path.clone(), kind: ChangeKind::Staged });
                }
            },
            None => {},
        }
        at += 1;
    }
    proof {
        assert(entries@.take(at as int) == entries@);
    }
    found
}

/// The paths of the changes of one kind, in the order of the changes.
pub open spec fn paths_of_kind(changes: Seq<FileChange>, kind: ChangeKind) -> Seq<String>
    decreases changes.len(),
{
    if changes.len() == 0 {
        Seq::empty()
    } else {
        let before = paths_of_kind(changes.drop_last(), kind);
        if changes.last().kind == kind {
            before.push(changes.last().path)
        } else {
            before
        }
    }
}

/// The three counts of a tally as text, one on each line.
pub open spec fn summary_text(untracked: nat, modified: nat, staged: nat) -> Seq<char> {
    "Untracked: "@ + decimal_text(untracked) + "\nModified: "@ + decimal_text(modified)
        + "\nStaged: "@ + decimal_text(staged)
}

/// The summary of a list of changes: how many there are of each kind.
pub open spec fn summary_of(changes: Seq<FileChange>) -> Seq<char> {
    summary_text(
        paths_of_kind(changes, ChangeKind::Untracked).len(),
        paths_of_kind(changes, ChangeKind::Modified).len(),
        paths_of_kind(changes, ChangeKind::Staged).len(),
    )
}

/// The changed files of a repository, by the kind of change.
#[derive(Debug, Clone, PartialEq, Eq)]
pub struct GitStatus {
    /// The paths of the untracked files.
    pub untracked_files: Vec<String>,
    /// The paths of the files changed in the working tree.
    pub modified_files: Vec<String>,
    /// The paths of the files changed in the staging area.
    pub staged_files: Vec<String>,
}

impl GitStatus {
    /// The tally of a list of changes: each path under the kind of its change.
    pub fn of(changes: &Vec<FileChange>) -> (tally: GitStatus)
        ensures
            tally.untracked_files@ == paths_of_kind(changes@, ChangeKind::Untracked),
            tally.modified_files@ == paths_of_kind(changes@, ChangeKind::Modified),
            tally.staged_files@ == paths_of_kind(changes@, ChangeKind::Staged),
    {
        let mut untracked_files: Vec<String> = Vec::new();
        let mut modified_files: Vec<String> = Vec::new();
        let mut staged_files: Vec<String> = Vec::new();
        let mut at: usize = 0;
        while at < changes.len()
            invariant
                at <= changes@.len(),
                untracked_files@ == paths_of_kind(
                    changes@.take(at as int),
                    ChangeKind::Untracked,
                ),
                modified_files@ == paths_of_kind(changes@.take(at as int), ChangeKind::Modified),
                staged_files@ == paths_of_kind(changes@.take(at as int), ChangeKind::Staged),
            decreases changes@.len() - at,
        {
            let change = &changes[at];
            proof {
                assert(changes@.take(at + 1).drop_last() == changes@.take(at as int));
                assert(changes@.take(at + 1).last() == changes@[at as int]);
            }
            match change.kind {
                ChangeKind::Untracked => untracked_files.push(change.path.clone()),
                ChangeKind::Modified => modified_files.push(change.path.clone()),
                ChangeKind::Staged => staged_files.push(change.path.clone()),
            }
            at += 1;
        }
        proof {
            assert(changes@.take(at as int) == changes@);
        }
        GitStatus { untracked_files, modified_files, staged_files }
    }

    /// The three counts of the tally as text.
    pub open spec fn summary(self) -> Seq<char> {
        summary_text(
            self.untracked_files@.len(),
            self.modified_files@.len(),
            self.staged_files@.len(),
        )
    }

    /// Writes the three counts of the tally, one on each line.
    pub fn summary_line(&self) -> (text: String)
        ensures
            text@ == self.summary(),
    {
        let mut text = String::from_str("Untracked: ");
        text.append(decimal(self.untracked_files.len()).as_str());
        text.append("\nModified: ");
        text.append(decimal(self.modified_files.len()).as_str());
        text.append("\nStaged: ");
        text.append(decimal(self.staged_files.len()).as_str());
        text
    }
}

/// `text` between the marks that switch a terminal to red and back.
pub open spec fn red(text: Seq<char>) -> Seq<char> {
    "\x1b[31m"@ + text + "\x1b[0m"@
}

/// `text` between the marks that switch a terminal to green and back.
pub open spec fn green(text: Seq<char>) -> Seq<char> {
    "\x1b[32m"@ + text + "\x1b[0m"@
}

/// `text` between the marks that switch a terminal to yellow and back.
pub open spec fn yellow(text: Seq<char>) -> Seq<char> {
    "\x1b[33m"@ + text + "\x1b[0m"@
}

/// `colored::Colorize::yellow` on `text`, written out through `Display`.
///
/// Trusted. Whether the crate colours at all depends on the environment and
/// on the terminal, so two outcomes are allowed: the text as it is, or the
/// text between the yellow mark and the closing mark. The crate rewrites
/// closing marks that stand inside the text; the claim is made only of a text
/// without the escape character, which holds no such mark.
#[verifier::external_body]
fn paint_yellow(text: &str) -> (painted: String)
    ensures
        !text@.contains('\x1b') ==> painted@ == text@ || painted@ == yellow(text@),
{
    colored::Colorize::yellow(text).to_string()
}

/// The word that a table shows for a kind of change.
pub open spec fn kind_label(kind: ChangeKind) -> Seq<char> {
    match kind {
        ChangeKind::Untracked => "Untracked"@,
        ChangeKind::Modified => "Modified"@,
        ChangeKind::Staged => "Staged"@,
    }
}

/// Whether `painted` is `text` in the colour of `kind`: red for an untracked
/// file, green for a staged one. A modified file is yellow where colours are
/// in use and plain where they are not; of a text that holds the escape
/// character nothing is said in that case.
pub open spec fn is_painted(kind: ChangeKind, text: Seq<char>, painted: Seq<char>) -> bool {
    match kind {
        ChangeKind::Untracked => painted == red(text),
        ChangeKind::Staged => painted == green(text),
        ChangeKind::Modified => text.contains('\x1b') || painted == text || painted == yellow(
            text,
        ),
    }
}

/// Writes `text` in the colour of `kind`.
pub fn paint(kind: ChangeKind, text: &str) -> (painted: String)
    ensures
        is_painted(kind, text@, painted@),
{
    match kind {
        ChangeKind::Untracked => join("\x1b[31m", text, "\x1b[0m"),
        ChangeKind::Staged => join("\x1b[32m", text, "\x1b[0m"),
        ChangeKind::Modified => paint_yellow(text),
    }
}

/// One row of the status table.
#[derive(Debug, PartialEq, Eq)]
pub struct FileStatus {
    /// The name of the repository.
    pub repository: String,
    /// The counts of the repository's changes.
    pub summary: String,
    /// The kind of change, in words.
    pub status: String,
    /// The path of the changed file.
    pub file: String,
}

impl Clone for FileStatus {
    fn clone(&self) -> (copy: Self)
        ensures
            copy == *self,
    {
        FileStatus {
            repository: self.repository.clone(),
            summary: self.summary.clone(),
            status: self.status.clone(),
            file: self.file.clone(),
        }
    }
}

/// Whether `row` is the one row that stands for a repository without changes.
pub open spec fn is_clean_row(row: FileStatus, repository: Seq<char>) -> bool {
    &&& row.repository@ == repository
    &&& row.summary@ == "Clean"@
    &&& row.status@ == green("Clean"@)
    &&& row.file@ == Seq::<char>::empty()
}

/// Whether `row` is the row of `change` in the table of the repository
/// `repository`, whose summary is `summary`.
pub open spec fn is_row_of(
    row: FileStatus,
    repository: Seq<char>,
    summary: Seq<char>,
    change: FileChange,
) -> bool {
    &&& row.repository@ == repository
    &&& row.summary@ == summary
    &&& is_painted(change.kind, kind_label(change.kind), row.status@)
    &&& is_painted(change.kind, change.path@, row.file@)
}

/// The word for `kind`.
fn label(kind: ChangeKind) -> (word: &'static str)
    ensures
        word@ == kind_label(kind),
{
    match kind {
        ChangeKind::Untracked => "Untracked",
        ChangeKind::Modified => "Modified",
        ChangeKind::Staged => "Staged",
    }
}

/// The rows that the status table shows for one repository: one row for each
/// change, in their order, each with the name of the repository and the counts
/// of all its changes; and a single row that says so where there is no change.
pub fn status_rows(repository: &str, changes: &Vec<FileChange>) -> (rows: Vec<FileStatus>)
    ensures
        changes@.len() == 0 ==> rows@.len() == 1 && is_clean_row(rows@[0], repository@),
        changes@.len() > 0 ==> rows@.len() == changes@.len(),
        changes@.len() > 0 ==> forall|i: int|
            0 <= i < rows@.len() ==> is_row_of(
                #[trigger] rows@[i],
                repository@,
                summary_of(changes@),
                changes@[i],
            ),
{
    let mut rows: Vec<FileStatus> = Vec::new();
    if changes.len() == 0 {
        rows.push(
            FileStatus {
                repository: String::from_str(repository),
                summary: String::from_str("Clean"),
                status: join("\x1b[32m", "Clean", "\x1b[0m"),
                file: String::new(),
            },
        );
        return rows;
    }
    let summary = GitStatus::of(changes).summary_line();
    let mut at: usize = 0;
    while at < changes.len()
        invariant
            at <= changes@.len(),
            rows@.len() == at,
            summary@ == summary_of(changes@),
            forall|i: int|
                0 <= i < at ==> is_row_of(
                    #[trigger] rows@[i],
                    repository@,
                    summary_of(changes@),
                    changes@[i],
                ),
        decreases changes@.len() - at,
    {
        let change = &changes[at];
        rows.push(
            FileStatus {
                repository: String::from_str(repository),
                summary: summary.clone(),
                status: paint(change.kind, label(change.kind)),
                file: paint(change.kind, change.path.as_str()),
            },
        );
        at += 1;
    }
    rows
}

/// The status word of a row as a line of text shows it: the three words for
/// a kind of change each in their colour, any other text as it is.
pub open spec fn tinted(status: Seq<char>) -> Seq<char> {
    if status == "Untracked"@ {
        red(status)
    } else if status == "Modified"@ {
        yellow(status)
    } else if status == "Staged"@ {
        green(status)
    } else {
        status
    }
}

impl FileStatus {
    /// The row as one line of text: the repository, the status word in its
    /// colour, and the file, with a blank between them.
    pub open spec fn line(self) -> Seq<char> {
        self.repository@ + " "@ + tinted(self.status@) + " "@ + self.file@
    }

    /// Writes the row as one line of text.
    pub fn render(&self) -> (text: String)
        ensures
            text@ == self.line(),
    {
        let status = self.status.as_str();
        let shown = if same_text(status, "Untracked") {
            join("\x1b[31m", status, "\x1b[0m")
        } else if same_text(status, "Modified") {
            join("\x1b[33m", status, "\x1b[0m")
        } else if same_text(status, "Staged") {
            join("\x1b[32m", status, "\x1b[0m")
        } else {
            self.status.clone()
        };
        let mut text = self.repository.clone();
        text.append(" ");
        text.append(shown.as_str());
        text.append(" ");
        text.append(self.file.as_str());
        text
    }
}

/// The rows of several repositories, one repository after the other.
pub open spec fn rows_of(statuses: Seq<(String, Vec<FileStatus>)>) -> Seq<FileStatus>
    decreases statuses.len(),
{
    if statuses.len() == 0 {
        Seq::empty()
    } else {
        rows_of(statuses.drop_last()) + statuses.last().1@
    }
}

/// Lays the rows of several repositories out as the rows of one table.
pub fn table_rows(statuses: &Vec<(String, Vec<FileStatus>)>) -> (rows: Vec<FileStatus>)
    ensures
        rows@ == rows_of(statuses@),
{
    let mut rows: Vec<FileStatus> = Vec::new();
    let mut at: usize = 0;
    while at < statuses.len()
        invariant
            at <= statuses@.len(),
            rows@ == rows_of(statuses@.take(at as int)),
        decreases statuses@.len() - at,
    {
        let group = &statuses[at].1;
        let ghost before = rows@;
        let mut row: usize = 0;
        while row < group.len()
            invariant
                row <= group@.len(),
                rows@ == before + group@.take(row as int),
            decreases group@.len() - row,
        {
            rows.push(group[row].clone());
            proof {
                assert(group@.take(row + 1) == group@.take(row as int).push(group@[row as int]));
            }
            row += 1;
        }
        proof {
            assert(group@.take(row as int) == group@);
            assert(statuses@.take(at + 1).drop_last() == statuses@.take(at as int));
            assert(statuses@.take(at + 1).last() == statuses@[at as int]);
        }
        at += 1;
    }
    proof {
        assert(statuses@.take(at as int) == statuses@);
    }
    rows
}

/// What can be applied to one repository: it gives a result, or the failure
/// that stopped it. Applying it to one repository touches no other.
pub trait GitOperation {
    /// What the operation gives where it succeeds.
    type Output;

    /// Applies the operation to `repo`.
    fn execute(&self, repo: &GitRepository) -> (outcome: Result<Self::Output, GitOperationError>);
}

/// Lists the changed files of a repository, untracked ones included.
pub struct StatusOperation;

impl GitOperation for StatusOperation {
    type Output = Vec<FileChange>;

    /// Opens the repository, asks the engine for its status listing and
    /// reads the changes off it with `changes`. What the engine refuses comes
    /// back as its failure.
    fn execute(&self, repo: &GitRepository) -> (outcome: Result<Vec<FileChange>, GitOperationError>)
        ensures
            outcome matches Err(failure) ==> failure is Git,
    {
        let repository = match repo.open() {
            Ok(repository) => repository,
            Err(error) => {
                return Err(GitOperationError::from_git(&error));
            },
        };
        let mut options = git2::StatusOptions::new();
        options.include_untracked(true);
        let entries = match status_entries(&repository, &mut options) {
            Ok(entries) => entries,
            Err(error) => {
                return Err(GitOperationError::from_git(&error));
            },
        };
        Ok(changes(&entries))
    }
}

/// Stages the files at the given paths.
pub struct AddOperation {
    /// The paths to stage, relative to the repository root.
    pub patterns: Vec<String>,
}

/// What a successful staging reports for the repository called `name`.
pub open spec fn added_text(name: Seq<char>) -> Seq<char> {
    "Added files to "@ + name + " repository"@
}

/// Writes what a successful staging reports.
pub fn added_message(name: &str) -> (text: String)
    ensures
        text@ == added_text(name@),
{
    join("Added files to ", name, " repository")
}

impl GitOperation for AddOperation {
    type Output = String;

    /// Opens the repository, stages each path in turn and writes the staging
    /// area to disk. The first refusal of the engine ends the operation and
    /// comes back as its failure.
    fn execute(&self, repo: &GitRepository) -> (outcome: Result<String, GitOperationError>)
        ensures
            outcome matches Ok(text) ==> text@ == added_text(repo.name@),
            outcome matches Err(failure) ==> failure is Git,
    {
        let repository = match repo.open() {
            Ok(repository) => repository,
            Err(error) => {
                return Err(GitOperationError::from_git(&error));
            },
        };
        let mut index = match repository.index() {
            Ok(index) => index,
            Err(error) => {
                return Err(GitOperationError::from_git(&error));
            },
        };
        let mut at: usize = 0;
        while at < self.patterns.len()
            invariant
                at <= self.patterns@.len(),
            decreases self.patterns@.len() - at,
        {
            match stage_path(&mut index, self.patterns[at].as_str()) {
                Ok(()) => {},
                Err(error) => {
                    return Err(GitOperationError::from_git(&error));
                },
            }
            at += 1;
        }
        match index.write() {
            Ok(()) => {},
            Err(error) => {
                return Err(GitOperationError::from_git(&error));
            },
        }
        Ok(added_message(repo.name.as_str()))
    }
}

/// Commits what is staged, with the given message.
pub struct CommitOperation {
    /// The message of the commit.
    pub message: String,
}

/// What a successful commit reports for the repository called `name`, where
/// `id` is the identifier of the new commit as text.
pub open spec fn committed_text(name: Seq<char>, id: Seq<char>) -> Seq<char> {
    "Committed to "@ + name + " repository: "@ + id
}

/// Writes what a successful commit reports.
pub fn committed_message(name: &str, id: &str) -> (text: String)
    ensures
        text@ == committed_text(name@, id@),
{
    let mut text = join("Committed to ", name, " repository: ");
    text.append(id);
    text
}

/// The parent of a new commit, decided from what HEAD showed: `None` where
/// HEAD could not be resolved, else the target that its reference has.
/// A repository without a resolvable HEAD gets a first commit, without
/// parent. A HEAD with a target gets a commit on top of that target. A HEAD
/// that resolves to a reference without target is refused.
pub fn commit_parent(head: Option<Option<git2::Oid>>) -> (parent: Result<
    Option<git2::Oid>,
    GitOperationError,
>)
    ensures
        match head {
            None => parent matches Ok(None),
            Some(None) => parent matches Err(GitOperationError::OperationFailed(reason))
                && reason@ == "HEAD target not found"@,
            Some(Some(target)) => parent matches Ok(Some(chosen)) && chosen == target,
        },
{
    match head {
        None => Ok(None),
        Some(None) => Err(
            GitOperationError::OperationFailed(String::from_str("HEAD target not found")),
        ),
        Some(Some(target)) => Ok(Some(target)),
    }
}

impl GitOperation for CommitOperation {
    type Output = String;

    /// Opens the repository, writes the staging area as a tree and commits
    /// that tree to HEAD in the name of the configured user, on the parent
    /// that `commit_parent` decides on. What the engine refuses comes back as
    /// its failure.
    fn execute(&self, repo: &GitRepository) -> (outcome: Result<String, GitOperationError>)
        ensures
            outcome matches Ok(text) ==> exists|id: Seq<char>|
                text@ == #[trigger] committed_text(repo.name@, id),
            outcome matches Err(failure) ==> failure is Git || (failure
                matches GitOperationError::OperationFailed(reason) && reason@
                == "HEAD target not found"@),
    {
        let repository = match repo.open() {
            Ok(repository) => repository,
            Err(error) => {
                return Err(GitOperationError::from_git(&error));
            },
        };
        let signature = match repository.signature() {
            Ok(signature) => signature,
            Err(error) => {
                return Err(GitOperationError::from_git(&error));
            },
        };
        let mut index = match repository.index() {
            Ok(index) => index,
            Err(error) => {
                return Err(GitOperationError::from_git(&error));
            },
        };
        let tree_id = match index.write_tree() {
            Ok(tree_id) => tree_id,
            Err(error) => {
                return Err(GitOperationError::from_git(&error));
            },
        };
        let tree = match repository.find_tree(tree_id) {
            Ok(tree) => tree,
            Err(error) => {
                return Err(GitOperationError::from_git(&error));
            },
        };
        let head = match repository.head() {
            Ok(reference) => Some(reference.target()),
            Err(_) => None,
        };
        let parent = match commit_parent(head) {
            Ok(parent) => parent,
            Err(failure) => {
                return Err(failure);
            },
        };
        let written = match parent {
            Some(target) => {
                let parent_commit = match repository.find_commit(target) {
                    Ok(parent_commit) => parent_commit,
                    Err(error) => {
                        return Err(GitOperationError::from_git(&error));
                    },
                };
                repository.commit(
                    Some("HEAD"),
                    &signature,
                    &signature,
                    self.message.as_str(),
                    &tree,
                    &[&parent_commit],
                )
            },
            None => repository.commit(
                Some("HEAD"),
                &signature,
                &signature,
                self.message.as_str(),
                &tree,
                &[],
            ),
        };
        match written {
            Ok(commit_id) => {
                let id = oid_text(&commit_id);
                let text = committed_message(repo.name.as_str(), id.as_str());
                assert(text@ == committed_text(repo.name@, id@));
                Ok(text)
            },
            Err(error) => Err(GitOperationError::from_git(&error)),
        }
    }
}

} // verus!
