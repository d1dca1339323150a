use git_ws::discovery::{hidden, Walk, WalkAnswer, WalkRequest};
use git_ws::error::GitWsError;
use git_ws::workspace::Workspace;

struct Dir {
    path: String,
    marker: bool,
    children: Result<Vec<Dir>, String>,
}

fn dir(path: &str, children: Vec<Dir>) -> Dir {
    Dir { path: path.to_string(), marker: false, children: Ok(children) }
}

fn repository(path: &str, children: Vec<Dir>) -> Dir {
    Dir { path: path.to_string(), marker: true, children: Ok(children) }
}

fn locked(path: &str, reason: &str) -> Dir {
    Dir { path: path.to_string(), marker: false, children: Err(reason.to_string()) }
}

fn find<'a>(tree: &'a Dir, path: &str) -> Option<&'a Dir> {
    if tree.path == path {
        return Some(tree);
    }
    if let Ok(children) = &tree.children {
        for child in children {
            if let Some(found) = find(child, path) {
                return Some(found);
            }
        }
    }
    None
}

fn walk(tree: &Dir) -> (Result<Workspace, GitWsError>, Vec<String>) {
    let mut asked = Vec::new();
    let mut walk = Walk::new(tree.path.clone());
    let mut steps = 0;
    loop {
        steps += 1;
        assert!(steps < 10_000);
        match walk.request() {
            WalkRequest::Finished => break,
            WalkRequest::Marker(path) => {
                asked.push(format!("marker {}", path));
                let here = find(tree, &path).unwrap();
                walk.answer(WalkAnswer::Marker(here.marker));
            }
            WalkRequest::Listing(path) => {
                asked.push(format!("listing {}", path));
                let here = find(tree, &path).unwrap();
                match &here.children {
                    Ok(children) => walk.answer(WalkAnswer::Children(
                        children.iter().map(|child| child.path.clone()).collect(),
                    )),
                    Err(reason) => walk.answer(WalkAnswer::Unreadable(reason.clone())),
                }
            }
        }
    }
    assert!(walk.is_finished());
    (walk.finish(), asked)
}

fn paths(workspace: &Workspace) -> Vec<String> {
    let mut paths: Vec<String> =
        workspace.list_repositories().iter().map(|repo| repo.path.clone()).collect();
    paths.sort();
    paths
}

#[test]
fn hidden_names_start_with_a_dot_and_are_not_the_marker() {
    assert!(hidden(".cache"));
    assert!(hidden("."));
    assert!(hidden(".."));
    assert!(hidden(".gitignore"));
    assert!(hidden(".gi"));
    assert!(!hidden(".git"));
    assert!(!hidden(""));
    assert!(!hidden("src"));
    assert!(!hidden("a.b"));
    assert!(!hidden("git"));
}

#[test]
fn root_that_is_a_repository_gives_one_entry_and_is_not_listed() {
    let tree = repository("/ws", vec![repository("/ws/inner", vec![])]);
    let (found, asked) = walk(&tree);
    let workspace = found.unwrap();
    assert_eq!(workspace.root_path(), "/ws");
    assert_eq!(paths(&workspace), vec!["/ws"]);
    assert_eq!(workspace.get_repository("ws").unwrap().path, "/ws");
    assert_eq!(asked, vec!["marker /ws"]);
}

#[test]
fn root_without_repositories_gives_an_empty_index() {
    let tree = dir("/ws", vec![dir("/ws/docs", vec![dir("/ws/docs/img", vec![])]), dir("/ws/src", vec![])]);
    let (found, _) = walk(&tree);
    let workspace = found.unwrap();
    assert_eq!(workspace.len(), 0);
}

#[test]
fn repositories_are_found_at_any_depth() {
    let tree = dir(
        "/ws",
        vec![
            repository("/ws/a", vec![]),
            dir("/ws/group", vec![repository("/ws/group/b", vec![]), dir("/ws/group/notes", vec![])]),
            dir("/ws/deep", vec![dir("/ws/deep/er", vec![repository("/ws/deep/er/c", vec![])])]),
        ],
    );
    let (found, _) = walk(&tree);
    let workspace = found.unwrap();
    assert_eq!(paths(&workspace), vec!["/ws/a", "/ws/deep/er/c", "/ws/group/b"]);
    assert_eq!(workspace.get_repository("b").unwrap().path, "/ws/group/b");
}

#[test]
fn nothing_inside_a_repository_is_looked_at() {
    let tree = dir(
        "/parent",
        vec![repository(
            "/parent/r",
            vec![
                dir(
                    "/parent/r/.git",
                    vec![dir("/parent/r/.git/hooks", vec![]), dir("/parent/r/.git/objects", vec![])],
                ),
                repository("/parent/r/vendor", vec![]),
            ],
        )],
    );
    let (found, asked) = walk(&tree);
    assert_eq!(paths(&found.unwrap()), vec!["/parent/r"]);
    assert_eq!(asked, vec!["marker /parent", "listing /parent", "marker /parent/r"]);
}

#[test]
fn hidden_directory_hides_the_repositories_inside() {
    let tree = dir(
        "/ws",
        vec![
            dir("/ws/.cache", vec![repository("/ws/.cache/nested", vec![])]),
            repository("/ws/visible", vec![]),
        ],
    );
    let (found, asked) = walk(&tree);
    assert_eq!(paths(&found.unwrap()), vec!["/ws/visible"]);
    assert!(!asked.iter().any(|line| line.contains("nested")));
    assert!(!asked.contains(&"listing /ws/.cache".to_string()));
}

#[test]
fn hidden_directory_that_is_a_repository_itself_is_found() {
    let tree = dir("/home", vec![repository("/home/.dotfiles", vec![])]);
    let (found, _) = walk(&tree);
    assert_eq!(paths(&found.unwrap()), vec!["/home/.dotfiles"]);
}

#[test]
fn hidden_root_without_marker_gives_an_empty_index() {
    let tree = Dir {
        path: "/home/.config".to_string(),
        marker: false,
        children: Err("never asked".to_string()),
    };
    let (found, asked) = walk(&tree);
    assert_eq!(found.unwrap().len(), 0);
    assert_eq!(asked, vec!["marker /home/.config"]);
}

#[test]
fn directory_named_like_the_marker_is_not_hidden() {
    let tree = dir("/odd/.git", vec![repository("/odd/.git/inner", vec![])]);
    let (found, _) = walk(&tree);
    assert_eq!(paths(&found.unwrap()), vec!["/odd/.git/inner"]);
}

#[test]
fn unreadable_root_fails_the_walk() {
    let tree = locked("/ws", "permission denied");
    let (found, _) = walk(&tree);
    assert_eq!(found.err(), Some(GitWsError::IoError("permission denied".to_string())));
}

#[test]
fn unreadable_directory_below_the_root_counts_as_empty() {
    let tree = dir(
        "/ws",
        vec![locked("/ws/secret", "permission denied"), repository("/ws/a", vec![])],
    );
    let (found, _) = walk(&tree);
    assert_eq!(paths(&found.unwrap()), vec!["/ws/a"]);
}

#[test]
fn walking_twice_finds_the_same() {
    let tree = dir(
        "/ws",
        vec![repository("/ws/a", vec![]), dir("/ws/g", vec![repository("/ws/g/b", vec![])])],
    );
    let (first, first_asked) = walk(&tree);
    let (second, second_asked) = walk(&tree);
    assert_eq!(paths(&first.unwrap()), paths(&second.unwrap()));
    assert_eq!(first_asked, second_asked);
}

#[test]
fn listing_order_does_not_change_what_is_found() {
    let one = dir(
        "/ws",
        vec![
            repository("/ws/a", vec![]),
            dir("/ws/g", vec![repository("/ws/g/b", vec![]), repository("/ws/g/c", vec![])]),
            dir("/ws/empty", vec![]),
        ],
    );
    let other = dir(
        "/ws",
        vec![
            dir("/ws/empty", vec![]),
            dir("/ws/g", vec![repository("/ws/g/c", vec![]), repository("/ws/g/b", vec![])]),
            repository("/ws/a", vec![]),
        ],
    );
    let (first, _) = walk(&one);
    let (second, _) = walk(&other);
    let first = first.unwrap();
    assert_eq!(paths(&first), vec!["/ws/a", "/ws/g/b", "/ws/g/c"]);
    assert_eq!(paths(&first), paths(&second.unwrap()));
}

#[test]
fn directories_are_visited_in_listing_order_depth_first() {
    let tree = dir(
        "/ws",
        vec![dir("/ws/x", vec![dir("/ws/x/1", vec![]), dir("/ws/x/2", vec![])]), dir("/ws/y", vec![])],
    );
    let (_, asked) = walk(&tree);
    let markers: Vec<&str> = asked
        .iter()
        .filter(|line| line.starts_with("marker "))
        .map(|line| &line["marker ".len()..])
        .collect();
    assert_eq!(markers, vec!["/ws", "/ws/x", "/ws/x/1", "/ws/x/2", "/ws/y"]);
}

#[test]
fn of_two_repositories_with_one_name_the_later_stays() {
    let tree = dir(
        "/ws",
        vec![
            dir("/ws/a", vec![repository("/ws/a/lib", vec![])]),
            dir("/ws/b", vec![repository("/ws/b/lib", vec![])]),
        ],
    );
    let (found, _) = walk(&tree);
    let workspace = found.unwrap();
    assert_eq!(workspace.len(), 1);
    assert_eq!(workspace.get_repository("lib").unwrap().path, "/ws/b/lib");
}

#[test]
fn answers_out_of_turn_change_nothing() {
    let mut walk = Walk::new("/ws".to_string());
    walk.answer(WalkAnswer::Children(vec!["/ws/a".to_string()]));
    walk.answer(WalkAnswer::Unreadable("no".to_string()));
    assert!(matches!(walk.request(), WalkRequest::Marker(path) if path == "/ws"));
    walk.answer(WalkAnswer::Marker(false));
    assert!(matches!(walk.request(), WalkRequest::Listing(path) if path == "/ws"));
    walk.answer(WalkAnswer::Marker(true));
    assert!(matches!(walk.request(), WalkRequest::Listing(path) if path == "/ws"));
    walk.answer(WalkAnswer::Children(vec![]));
    assert!(matches!(walk.request(), WalkRequest::Finished));
    walk.answer(WalkAnswer::Marker(true));
    walk.answer(WalkAnswer::Children(vec!["/ws/late".to_string()]));
    assert!(walk.is_finished());
    assert_eq!(walk.finish().unwrap().len(), 0);
}

#[test]
fn new_walk_asks_for_the_marker_of_the_root() {
    let walk = Walk::new("/ws".to_string());
    assert!(!walk.is_finished());
    assert!(matches!(walk.request(), WalkRequest::Marker(path) if path == "/ws"));
}
