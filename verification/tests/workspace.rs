use git_ws::error::{GitOperationError, GitWsError};
use git_ws::text::{decimal, join, same_text};
use git_ws::workspace::{GitRepository, Workspace};

fn repo(path: &str) -> GitRepository {
    GitRepository::new(path.to_string())
}

#[test]
fn repository_is_named_after_the_final_component() {
    let found = repo("/srv/projects/alpha");
    assert_eq!(found.path, "/srv/projects/alpha");
    assert_eq!(found.name, "alpha");
}

#[test]
fn repository_name_ignores_a_trailing_separator() {
    assert_eq!(repo("/srv/projects/alpha/").name, "alpha");
}

#[test]
fn repository_without_a_final_component_has_an_empty_name() {
    assert_eq!(repo("/").name, "");
    assert_eq!(repo("/srv/..").name, "");
    assert_eq!(repo("").name, "");
}

#[test]
fn repository_copy_is_equal_in_both_fields() {
    let first = repo("/srv/projects/alpha");
    let second = first.clone();
    assert_eq!(second.path, first.path);
    assert_eq!(second.name, first.name);
}

#[test]
fn opening_what_is_no_repository_fails() {
    let nowhere = repo("/this/path/does/not/exist/anywhere");
    assert!(nowhere.open().is_err());
}

#[test]
fn new_workspace_is_empty() {
    let workspace = Workspace::new("/srv/projects".to_string());
    assert_eq!(workspace.root_path(), "/srv/projects");
    assert_eq!(workspace.len(), 0);
    assert!(workspace.list_repositories().is_empty());
    assert!(workspace.get_repository("alpha").is_none());
}

#[test]
fn inserted_repositories_are_found_by_name() {
    let mut workspace = Workspace::new("/srv".to_string());
    workspace.insert(repo("/srv/alpha"));
    workspace.insert(repo("/srv/beta"));
    assert_eq!(workspace.len(), 2);
    assert_eq!(workspace.get_repository("alpha").unwrap().path, "/srv/alpha");
    assert_eq!(workspace.get_repository("beta").unwrap().path, "/srv/beta");
    assert!(workspace.get_repository("gamma").is_none());
    assert!(workspace.get_repository("").is_none());
}

#[test]
fn lookup_that_misses_says_which_name_is_missing() {
    let mut workspace = Workspace::new("/srv".to_string());
    workspace.insert(repo("/srv/alpha"));
    assert_eq!(workspace.find_repository("alpha").unwrap().path, "/srv/alpha");
    assert_eq!(
        workspace.find_repository("beta").err(),
        Some(GitWsError::RepositoryNotFound("beta".to_string()))
    );
}

#[test]
fn listing_follows_the_order_of_first_insertion() {
    let mut workspace = Workspace::new("/srv".to_string());
    workspace.insert(repo("/srv/beta"));
    workspace.insert(repo("/srv/alpha"));
    workspace.insert(repo("/srv/gamma"));
    let names: Vec<&str> = workspace.list_repositories().iter().map(|r| r.name.as_str()).collect();
    assert_eq!(names, vec!["beta", "alpha", "gamma"]);
}

#[test]
fn later_repository_of_the_same_name_replaces_the_earlier() {
    let mut workspace = Workspace::new("/srv".to_string());
    workspace.insert(repo("/srv/a/lib"));
    workspace.insert(repo("/srv/other"));
    workspace.insert(repo("/srv/b/lib"));
    assert_eq!(workspace.len(), 2);
    assert_eq!(workspace.get_repository("lib").unwrap().path, "/srv/b/lib");
    let paths: Vec<&str> = workspace.list_repositories().iter().map(|r| r.path.as_str()).collect();
    assert_eq!(paths, vec!["/srv/b/lib", "/srv/other"]);
}

#[test]
fn workspace_error_messages_carry_heading_and_detail() {
    assert_eq!(GitWsError::GitError("bad object".to_string()).message(), "Git error: bad object");
    assert_eq!(GitWsError::IoError("denied".to_string()).message(), "IO error: denied");
    assert_eq!(
        GitWsError::RepositoryNotFound("alpha".to_string()).message(),
        "Repository not found: alpha"
    );
    assert_eq!(
        GitWsError::OperationFailed("no luck".to_string()).message(),
        "Operation failed: no luck"
    );
}

#[test]
fn operation_error_messages_carry_heading_and_detail() {
    assert_eq!(GitOperationError::Git("bad object".to_string()).message(), "Git error: bad object");
    assert_eq!(
        GitOperationError::RepositoryNotFound("alpha".to_string()).message(),
        "Repository not found: alpha"
    );
    assert_eq!(
        GitOperationError::OperationFailed("".to_string()).message(),
        "Operation failed: "
    );
}

#[test]
fn engine_failure_becomes_a_git_error_with_the_engine_text() {
    let failure = git2::Error::from_str("index is locked");
    assert_eq!(
        GitOperationError::from_git(&failure),
        GitOperationError::Git("index is locked".to_string())
    );
    assert_eq!(GitWsError::from_git(&failure), GitWsError::GitError("index is locked".to_string()));
    let classified = git2::Error::new(git2::ErrorCode::NotFound, git2::ErrorClass::Os, "gone");
    match GitOperationError::from_git(&classified) {
        GitOperationError::Git(text) => {
            assert!(text.starts_with("gone"));
            assert_ne!(text, "gone");
        }
        other => panic!("unexpected failure {:?}", other),
    }
}

#[test]
fn numbers_are_written_in_decimal() {
    assert_eq!(decimal(0), "0");
    assert_eq!(decimal(7), "7");
    assert_eq!(decimal(10), "10");
    assert_eq!(decimal(120), "120");
    assert_eq!(decimal(9_876_543_210), "9876543210");
    assert_eq!(decimal(usize::MAX), format!("{}", usize::MAX));
}

#[test]
fn texts_are_compared_and_joined() {
    assert!(same_text("abc", "abc"));
    assert!(!same_text("abc", "abd"));
    assert!(!same_text("abc", "ab"));
    assert!(same_text("", ""));
    assert_eq!(join("a", "", "c"), "ac");
    assert_eq!(join("one ", "two", " three"), "one two three");
}
