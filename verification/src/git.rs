//! The version-control engine, `git2`, as far as the operations use it: its
//! types, the few calls that are made, and the plain value that a status
//! listing is turned into. Nothing here is proved; each item says what is
//! taken on trust.

use vstd::prelude::*;

verus! {

/// `git2::Repository`: an open repository. Opaque here.
#[verifier::external_type_specification]
#[verifier::external_body]
pub struct ExRepository(git2::Repository);

/// `git2::Error`: a failure reported by the engine. Opaque here.
#[verifier::external_type_specification]
#[verifier::external_body]
pub struct ExGitError(git2::Error);

/// `git2::Index`: the staging area of a repository. Opaque here.
#[verifier::external_type_specification]
#[verifier::external_body]
pub struct ExIndex(git2::Index);

/// `git2::Oid`: the identifier of an object. Opaque here.
#[verifier::external_type_specification]
#[verifier::external_body]
pub struct ExOid(git2::Oid);

/// `git2::Signature`: who acts, and when. Opaque here.
#[verifier::external_type_specification]
#[verifier::external_body]
pub struct ExSignature<'a>(git2::Signature<'a>);

/// `git2::Tree`: a tree object of a repository. Opaque here.
#[verifier::external_type_specification]
#[verifier::external_body]
pub struct ExTree<'a>(git2::Tree<'a>);

/// `git2::Commit`: a commit object of a repository. Opaque here.
#[verifier::external_type_specification]
#[verifier::external_body]
pub struct ExCommit<'a>(git2::Commit<'a>);

/// `git2::Reference`: a reference of a repository. Opaque here.
#[verifier::external_type_specification]
#[verifier::external_body]
pub struct ExReference<'a>(git2::Reference<'a>);

/// `git2::Repository::index`: the staging area of the repository, or the
/// engine's failure. Nothing is claimed of the result.
pub assume_specification[ git2::Repository::index ](repository: &git2::Repository) -> (index:
    Result<git2::Index, git2::Error>)
;

/// `git2::Repository::signature`: the configured user at the present time, or
/// the engine's failure. Nothing is claimed of the result.
pub assume_specification[ git2::Repository::signature ](repository: &git2::Repository) -> (who:
    Result<git2::Signature<'static>, git2::Error>)
;

/// `git2::Repository::find_tree`: the tree with this identifier, or the
/// engine's failure. Nothing is claimed of the result.
pub assume_specification[ git2::Repository::find_tree ](
    repository: &git2::Repository,
    oid: git2::Oid,
) -> (tree: Result<git2::Tree<'_>, git2::Error>)
;

/// `git2::Repository::head`: the reference that HEAD resolves to, or the
/// engine's failure. Nothing is claimed of the result.
pub assume_specification[ git2::Repository::head ](repository: &git2::Repository) -> (head: Result<
    git2::Reference<'_>,
    git2::Error,
>)
;

/// `git2::Repository::find_commit`: the commit with this identifier, or the
/// engine's failure. Nothing is claimed of the result.
pub assume_specification[ git2::Repository::find_commit ](
    repository: &git2::Repository,
    oid: git2::Oid,
) -> (commit: Result<git2::Commit<'_>, git2::Error>)
;

/// `git2::Repository::commit`: writes a commit and gives its identifier, or
/// the engine's failure. Nothing is claimed of the result.
pub assume_specification[ git2::Repository::commit ](
    repository: &git2::Repository,
    update_ref: Option<&str>,
    author: &git2::Signature<'_>,
    committer: &git2::Signature<'_>,
    message: &str,
    tree: &git2::Tree<'_>,
    parents: &[&git2::Commit<'_>],
) -> (id: Result<git2::Oid, git2::Error>)
;

/// `git2::Index::write`: writes the staging area to disk, or gives the
/// engine's failure. Nothing is claimed of the result.
pub assume_specification[ git2::Index::write ](index: &mut git2::Index) -> (done: Result<
    (),
    git2::Error,
>)
;

/// `git2::Index::write_tree`: writes the staging area as a tree and gives the
/// tree's identifier, or the engine's failure. Nothing is claimed of the result.
pub assume_specification[ git2::Index::write_tree ](index: &mut git2::Index) -> (id: Result<
    git2::Oid,
    git2::Error,
>)
;

/// `git2::Reference::target`: the identifier that a direct reference points
/// to, and nothing for a symbolic one. Nothing is claimed of the result.
pub assume_specification<'repo>[ git2::Reference::<'repo>::target ](
    reference: &git2::Reference<'repo>,
) -> (target: Option<git2::Oid>)
;

/// One line of a status listing, as plain values: the path of the file where
/// it is valid text, and which of the four conditions that the operations
/// look at the engine reports for it.
#[derive(Debug, PartialEq, Eq)]
pub struct StatusEntry {
    /// The path of the file, relative to the repository root.
    pub path: Option<String>,
    /// The file is new in the staging area.
    pub index_new: bool,
    /// The file is changed in the staging area.
    pub index_modified: bool,
    /// The file is new in the working tree.
    pub worktree_new: bool,
    /// The file is changed in the working tree.
    pub worktree_modified: bool,
}

/// `git2::StatusOptions`: what a status listing is to cover. Opaque here.
#[verifier::external_type_specification]
#[verifier::external_body]
pub struct ExStatusOptions(git2::StatusOptions);

/// `git2::StatusOptions::new`: options that ask for nothing in particular.
/// Nothing is claimed of the result.
pub assume_specification[ git2::StatusOptions::new ]() -> (options: git2::StatusOptions)
;

/// `git2::StatusOptions::include_untracked`: sets whether untracked files
/// are listed, and hands the options back. Nothing is claimed of the result.
pub assume_specification[ git2::StatusOptions::include_untracked ](
    options: &mut git2::StatusOptions,
    listed: bool,
) -> (same: &mut git2::StatusOptions)
;

/// `git2::Repository::statuses` with the given options: the status listing
/// of the repository, or the engine's failure.
///
/// Trusted. Each line of the listing is handed out as a `StatusEntry`: the path
/// from `StatusEntry::path`, the four flags from `Status::is_index_new`,
/// `is_index_modified`, `is_wt_new` and `is_wt_modified`. The listing depends
/// on what is on disk, so nothing is claimed of it.
#[verifier::external_body]
pub(crate) fn status_entries(
    repository: &git2::Repository,
    options: &mut git2::StatusOptions,
) -> (listing: Result<Vec<StatusEntry>, git2::Error>) {
    let statuses = repository.statuses(Some(options))?;
    Ok(statuses.iter().map(|entry| StatusEntry {
        path: entry.path().map(String::from),
        index_new: entry.status().is_index_new(),
        index_modified: entry.status().is_index_modified(),
        worktree_new: entry.status().is_wt_new(),
        worktree_modified: entry.status().is_wt_modified(),
    }).collect())
}

/// `git2::Index::add_path`, on a path given as text: stages the file at that
/// path, or gives the engine's failure. Nothing is claimed of the result.
#[verifier::external_body]
pub(crate) fn stage_path(index: &mut git2::Index, path: &str) -> (done: Result<(), git2::Error>) {
    index.add_path(std::path::Path::new(path))
}

/// The text of a `git2::Oid`, as its `Display` writes it. Nothing is claimed
/// of the text.
#[verifier::external_body]
pub(crate) fn oid_text(id: &git2::Oid) -> (text: String) {
    id.to_string()
}

} // verus!
