use git_ws::error::GitOperationError;
use git_ws::git::StatusEntry;
use git_ws::operations::{
    added_message, changes, commit_parent, committed_message, paint, status_rows, table_rows,
    ChangeKind, FileChange, FileStatus, GitStatus,
};

fn entry(path: Option<&str>, index_new: bool, index_modified: bool, worktree_new: bool, worktree_modified: bool) -> StatusEntry {
    StatusEntry {
        path: path.map(|text| text.to_string()),
        index_new,
        index_modified,
        worktree_new,
        worktree_modified,
    }
}

fn change(path: &str, kind: ChangeKind) -> FileChange {
    FileChange { path: path.to_string(), kind }
}

fn row(repository: &str, summary: &str, status: &str, file: &str) -> FileStatus {
    FileStatus {
        repository: repository.to_string(),
        summary: summary.to_string(),
        status: status.to_string(),
        file: file.to_string(),
    }
}

#[test]
fn listing_without_lines_holds_no_changes() {
    assert!(changes(&Vec::new()).is_empty());
}

#[test]
fn each_line_is_read_by_its_flags() {
    let listing = vec![
        entry(Some("new.txt"), false, false, true, false),
        entry(Some("added.txt"), true, false, false, false),
        entry(Some("edited.txt"), false, false, false, true),
        entry(Some("staged.txt"), false, true, false, false),
    ];
    assert_eq!(
        changes(&listing),
        vec![
            change("new.txt", ChangeKind::Untracked),
            change("added.txt", ChangeKind::Untracked),
            change("edited.txt", ChangeKind::Modified),
            change("staged.txt", ChangeKind::Staged),
        ]
    );
}

#[test]
fn new_goes_before_modified_and_modified_before_staged() {
    let listing = vec![
        entry(Some("a"), true, true, false, true),
        entry(Some("b"), false, true, true, true),
        entry(Some("c"), false, true, false, true),
    ];
    assert_eq!(
        changes(&listing),
        vec![
            change("a", ChangeKind::Untracked),
            change("b", ChangeKind::Untracked),
            change("c", ChangeKind::Modified),
        ]
    );
}

#[test]
fn lines_without_path_or_without_flag_are_left_out() {
    let listing = vec![
        entry(None, true, true, true, true),
        entry(Some("deleted.txt"), false, false, false, false),
        entry(Some("kept.txt"), false, true, false, false),
        entry(None, false, false, false, false),
    ];
    assert_eq!(changes(&listing), vec![change("kept.txt", ChangeKind::Staged)]);
}

#[test]
fn tally_holds_each_path_under_its_kind() {
    let found = vec![
        change("s1", ChangeKind::Staged),
        change("u1", ChangeKind::Untracked),
        change("s2", ChangeKind::Staged),
        change("m1", ChangeKind::Modified),
        change("u2", ChangeKind::Untracked),
        change("s3", ChangeKind::Staged),
    ];
    let tally = GitStatus::of(&found);
    assert_eq!(tally.untracked_files, vec!["u1", "u2"]);
    assert_eq!(tally.modified_files, vec!["m1"]);
    assert_eq!(tally.staged_files, vec!["s1", "s2", "s3"]);
    assert_eq!(tally.summary_line(), "Untracked: 2\nModified: 1\nStaged: 3");
}

#[test]
fn tally_of_nothing_counts_zero() {
    let tally = GitStatus::of(&Vec::new());
    assert_eq!(
        tally,
        GitStatus { untracked_files: vec![], modified_files: vec![], staged_files: vec![] }
    );
    assert_eq!(tally.summary_line(), "Untracked: 0\nModified: 0\nStaged: 0");
}

#[test]
fn summary_counts_have_as_many_digits_as_needed() {
    let many: Vec<FileChange> =
        (0..123).map(|i| change(&format!("f{}", i), ChangeKind::Modified)).collect();
    assert_eq!(GitStatus::of(&many).summary_line(), "Untracked: 0\nModified: 123\nStaged: 0");
}

#[test]
fn untracked_is_red_and_staged_is_green() {
    assert_eq!(paint(ChangeKind::Untracked, "x.txt"), "\x1b[31mx.txt\x1b[0m");
    assert_eq!(paint(ChangeKind::Staged, "x.txt"), "\x1b[32mx.txt\x1b[0m");
    assert_eq!(paint(ChangeKind::Untracked, ""), "\x1b[31m\x1b[0m");
}

#[test]
fn modified_is_yellow_or_plain() {
    let painted = paint(ChangeKind::Modified, "x.txt");
    assert!(painted == "x.txt" || painted == "\x1b[33mx.txt\x1b[0m");
}

#[test]
fn modified_is_yellow_where_colours_are_on() {
    colored::control::set_override(true);
    assert_eq!(paint(ChangeKind::Modified, "x.txt"), "\x1b[33mx.txt\x1b[0m");
    assert_eq!(paint(ChangeKind::Modified, "Modified"), "\x1b[33mModified\x1b[0m");
    colored::control::unset_override();
}

#[test]
fn repository_without_changes_gets_one_clean_row() {
    assert_eq!(
        status_rows("alpha", &Vec::new()),
        vec![row("alpha", "Clean", "\x1b[32mClean\x1b[0m", "")]
    );
}

#[test]
fn each_change_gets_a_row_with_the_counts_of_all() {
    let found = vec![
        change("new.txt", ChangeKind::Untracked),
        change("src/lib.rs", ChangeKind::Staged),
        change("other.txt", ChangeKind::Untracked),
    ];
    let summary = "Untracked: 2\nModified: 0\nStaged: 1";
    assert_eq!(
        status_rows("alpha", &found),
        vec![
            row("alpha", summary, "\x1b[31mUntracked\x1b[0m", "\x1b[31mnew.txt\x1b[0m"),
            row("alpha", summary, "\x1b[32mStaged\x1b[0m", "\x1b[32msrc/lib.rs\x1b[0m"),
            row("alpha", summary, "\x1b[31mUntracked\x1b[0m", "\x1b[31mother.txt\x1b[0m"),
        ]
    );
}

#[test]
fn row_of_a_modified_file_is_yellow_or_plain() {
    let rows = status_rows("alpha", &vec![change("edited.txt", ChangeKind::Modified)]);
    assert_eq!(rows.len(), 1);
    assert_eq!(rows[0].repository, "alpha");
    assert_eq!(rows[0].summary, "Untracked: 0\nModified: 1\nStaged: 0");
    assert!(rows[0].status == "Modified" || rows[0].status == "\x1b[33mModified\x1b[0m");
    assert!(rows[0].file == "edited.txt" || rows[0].file == "\x1b[33medited.txt\x1b[0m");
}

#[test]
fn row_is_written_with_its_status_in_colour() {
    assert_eq!(row("alpha", "", "Untracked", "x.txt").render(), "alpha \x1b[31mUntracked\x1b[0m x.txt");
    assert_eq!(row("alpha", "", "Modified", "x.txt").render(), "alpha \x1b[33mModified\x1b[0m x.txt");
    assert_eq!(row("alpha", "", "Staged", "x.txt").render(), "alpha \x1b[32mStaged\x1b[0m x.txt");
    assert_eq!(row("alpha", "", "Clean", "").render(), "alpha Clean ");
    assert_eq!(row("", "ignored", "staged", "y").render(), " staged y");
}

#[test]
fn copy_of_a_row_is_the_same_row() {
    let first = row("alpha", "s", "Staged", "f");
    assert_eq!(first.clone(), first);
}

#[test]
fn table_holds_the_rows_of_all_repositories_in_order() {
    let a1 = row("a", "s", "Staged", "1");
    let a2 = row("a", "s", "Staged", "2");
    let c1 = row("c", "Clean", "Clean", "");
    let groups = vec![
        ("a".to_string(), vec![a1.clone(), a2.clone()]),
        ("b".to_string(), vec![]),
        ("c".to_string(), vec![c1.clone()]),
    ];
    assert_eq!(table_rows(&groups), vec![a1, a2, c1]);
    assert!(table_rows(&Vec::new()).is_empty());
}

#[test]
fn staging_and_commit_are_reported_in_words() {
    assert_eq!(added_message("alpha"), "Added files to alpha repository");
    assert_eq!(added_message(""), "Added files to  repository");
    assert_eq!(
        committed_message("alpha", "0123abcd"),
        "Committed to alpha repository: 0123abcd"
    );
}

#[test]
fn parent_of_a_commit_follows_head() {
    let id = git2::Oid::from_str("0123456789abcdef0123456789abcdef01234567").unwrap();
    assert_eq!(commit_parent(None), Ok(None));
    assert_eq!(commit_parent(Some(Some(id))), Ok(Some(id)));
    assert_eq!(
        commit_parent(Some(None)),
        Err(GitOperationError::OperationFailed("HEAD target not found".to_string()))
    );
}
