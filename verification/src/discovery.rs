//! Finding the repository roots below a directory.
//!
//! The walk itself touches no file system. It is a machine that asks one
//! question at a time (does this directory hold the marker of a repository?
//! which directories does it hold?) and takes the answer back. Whoever
//! drives it looks at the disk. The second half of this file says what the
//! machine arrives at when the answers are those of a given directory tree.

use crate::error::GitWsError;
use crate::text::{same_text, texts};
use crate::workspace::{display_name, GitRepository, Workspace};
use vstd::prelude::*;
use vstd::string::*;

verus! {

/// The name of the directory in which the engine keeps the state of a
/// repository. A directory that holds an entry of this name is a repository root.
pub open spec fn marker_name() -> Seq<char> {
    ".git"@
}

/// Whether a directory of this name is passed over: its name starts with a
/// dot and is not the marker's name.
pub open spec fn is_hidden(name: Seq<char>) -> bool {
    name.len() > 0 && name[0] == '.' && name != marker_name()
}

/// Tells whether a directory of this name is passed over.
pub fn hidden(name: &str) -> (passed_over: bool)
    ensures
        passed_over == is_hidden(name@),
{
    name.unicode_len() > 0 && name.get_char(0) == '.' && !same_text(name, ".git")
}

/// Where a walk stands.
pub struct WalkState {
    /// The directory that the walk started from.
    pub root: Seq<char>,
    /// The directories still to be looked at; the last one is looked at next.
    pub pending: Seq<Seq<char>>,
    /// The directory to be looked at next holds no marker and is not passed
    /// over: its listing is wanted.
    pub listing_due: bool,
    /// The directory to be looked at next is the one that the walk started from.
    pub at_root: bool,
    /// The repositories found so far: the name of each, and its path.
    pub index: Map<Seq<char>, Seq<char>>,
    /// Why the root could not be listed, where it could not.
    pub failure: Option<Seq<char>>,
}

/// The state in which a walk from `root` starts.
pub open spec fn start(root: Seq<char>) -> WalkState {
    WalkState {
        root,
        pending: seq![root],
        listing_due: false,
        at_root: true,
        index: Map::empty(),
        failure: None,
    }
}

/// The walk waits to be told whether the next directory holds the marker.
pub open spec fn expects_marker(s: WalkState) -> bool {
    s.pending.len() > 0 && !s.listing_due
}

/// The walk waits for the listing of the next directory.
pub open spec fn expects_listing(s: WalkState) -> bool {
    s.pending.len() > 0 && s.listing_due
}

/// The state after the walk is told whether the next directory holds the
/// marker. With the marker the directory is entered in the index as a
/// repository and left. Without it, a directory that is passed over is left,
/// and the listing of any other is wanted. An answer that the walk does not
/// wait for changes nothing.
pub open spec fn after_marker(s: WalkState, present: bool) -> WalkState {
    if !expects_marker(s) {
        s
    } else if present {
        WalkState {
            pending: s.pending.drop_last(),
            at_root: false,
            index: s.index.insert(display_name(s.pending.last()), s.pending.last()),
            ..s
        }
    } else if is_hidden(display_name(s.pending.last())) {
        WalkState { pending: s.pending.drop_last(), at_root: false, ..s }
    } else {
        WalkState { listing_due: true, ..s }
    }
}

/// The state after the walk is given the directories that the next directory
/// holds: they take its place, the first of them to be looked at first. An
/// answer that the walk does not wait for changes nothing.
pub open spec fn after_children(s: WalkState, children: Seq<Seq<char>>) -> WalkState {
    if !expects_listing(s) {
        s
    } else {
        WalkState {
            pending: s.pending.drop_last() + children.reverse(),
            listing_due: false,
            at_root: false,
            ..s
        }
    }
}

/// The state after the walk is told that the next directory cannot be
/// listed. For the root that ends the walk with a failure; any other
/// directory is left as if it were empty. An answer that the walk does not
/// wait for changes nothing.
pub open spec fn after_unreadable(s: WalkState, reason: Seq<char>) -> WalkState {
    if !expects_listing(s) {
        s
    } else if s.at_root {
        WalkState {
            pending: Seq::empty(),
            listing_due: false,
            at_root: false,
            failure: Some(reason),
            ..s
        }
    } else {
        WalkState { pending: s.pending.drop_last(), listing_due: false, ..s }
    }
}

/// What a walk asks of its driver.
#[derive(Debug)]
pub enum WalkRequest {
    /// Does this directory hold an entry with the marker's name?
    Marker(String),
    /// Which directories does this directory hold?
    Listing(String),
    /// Nothing more: the walk is over.
    Finished,
}

/// What the driver tells a walk.
#[derive(Debug)]
pub enum WalkAnswer {
    /// Whether the directory holds the marker.
    Marker(bool),
    /// The paths of the directories that the directory holds.
    Children(Vec<String>),
    /// The directory cannot be listed, and why.
    Unreadable(String),
}

/// The state after an answer.
pub open spec fn after_answer(s: WalkState, answer: WalkAnswer) -> WalkState {
    match answer {
        WalkAnswer::Marker(present) => after_marker(s, present),
        WalkAnswer::Children(children) => after_children(s, texts(children@)),
        WalkAnswer::Unreadable(reason) => after_unreadable(s, reason@),
    }
}

/// A walk in progress.
pub struct Walk {
    workspace: Workspace,
    pending: Vec<String>,
    listing_due: bool,
    at_root: bool,
    failure: Option<String>,
}

impl View for Walk {
    type V = WalkState;

    closed spec fn view(&self) -> WalkState {
        WalkState {
            root: self.workspace.root(),
            pending: texts(self.pending@),
            listing_due: self.listing_due,
            at_root: self.at_root,
            index: self.workspace.index(),
            failure: match self.failure {
                Some(reason) => Some(reason@),
                None => None,
            },
        }
    }
}

impl Walk {
    /// A walk that starts from the directory `root`.
    pub fn new(root: String) -> (walk: Self)
        ensures
            walk@ == start(root@),
    {
        let workspace = Workspace::new(root.clone());
        let mut pending: Vec<String> = Vec::new();
        pending.push(root);
        assert(texts(pending@) =~= seq![root@]);
        Walk { workspace, pending, listing_due: false, at_root: true, failure: None }
    }

    /// Whether the walk is over.
    pub fn is_finished(&self) -> (over: bool)
        ensures
            over == (self@.pending.len() == 0),
    {
        self.pending.len() == 0
    }

    /// What the walk wants to know next.
    pub fn request(&self) -> (request: WalkRequest)
        ensures
            match request {
                WalkRequest::Finished => self@.pending.len() == 0,
                WalkRequest::Marker(dir) => expects_marker(self@) && dir@ == self@.pending.last(),
                WalkRequest::Listing(dir) => expects_listing(self@) && dir@
                    == self@.pending.last(),
            },
    {
        let count = self.pending.len();
        if count == 0 {
            WalkRequest::Finished
        } else if self.listing_due {
            WalkRequest::Listing(self.pending[count - 1].clone())
        } else {
            WalkRequest::Marker(self.pending[count - 1].clone())
        }
    }

    /// Takes an answer and moves on.
    pub fn answer(&mut self, answer: WalkAnswer)
        ensures
            final(self)@ == after_answer(old(self)@, answer),
    {
        match answer {
            WalkAnswer::Marker(present) => {
                if self.listing_due {
                    return ;
                }
                let ghost before = self.pending@;
                match self.pending.pop() {
                    None => {},
                    Some(dir) => {
                        let repo = GitRepository::new(dir);
                        if present {
                            self.workspace.insert(repo);
                            self.at_root = false;
                            assert(texts(self.pending@) =~= texts(before).drop_last());
                        } else if hidden(repo.name.as_str()) {
                            self.at_root = false;
                            assert(texts(self.pending@) =~= texts(before).drop_last());
                        } else {
                            self.pending.push(repo.path);
                            self.listing_due = true;
                            assert(texts(self.pending@) =~= texts(before));
                        }
                    },
                }
            },
            WalkAnswer::Children(children) => {
                if !self.listing_due {
                    return ;
                }
                let ghost before = self.pending@;
                let ghost all = children@;
                match self.pending.pop() {
                    None => {},
                    Some(_) => {
                        let mut rest = children;
                        let mut left: usize = rest.len();
                        assert(all.skip(left as int) =~= Seq::<String>::empty());
                        assert(texts(self.pending@) =~= texts(before).drop_last() + texts(
                            all.skip(left as int),
                        ).reverse());
                        while left > 0
                            invariant
                                left == rest@.len(),
                                left <= all.len(),
                                rest@ == all.take(left as int),
                                texts(self.pending@) == texts(before).drop_last() + texts(
                                    all.skip(left as int),
                                ).reverse(),
                                self.workspace == old(self).workspace,
                                self.failure == old(self).failure,
                            decreases left,
                        {
                            let ghost stack = self.pending@;
                            match rest.pop() {
                                Some(child) => {
                                    self.pending.push(child);
                                    left -= 1;
                                    proof {
                                        assert(child == all[left as int]);
                                        assert(rest@ =~= all.take(left as int));
                                        assert(texts(all.skip(left as int)).reverse() =~= texts(
                                            all.skip(left + 1),
                                        ).reverse().push(child@));
                                        assert(texts(self.pending@) =~= texts(stack).push(child@));
                                        assert(texts(self.pending@) =~= texts(before).drop_last()
                                            + texts(all.skip(left as int)).reverse());
                                    }
                                },
                                None => {
                                    left = 0;
                                },
                            }
                        }
                        proof {
                            assert(all.skip(0) =~= all);
                        }
                        self.listing_due = false;
                        self.at_root = false;
                    },
                }
            },
            WalkAnswer::Unreadable(reason) => {
                if !self.listing_due || self.pending.len() == 0 {
                    return ;
                }
                let ghost before = self.pending@;
                if self.at_root {
                    self.pending = Vec::new();
                    self.failure = Some(reason);
                    self.at_root = false;
                    assert(texts(self.pending@) =~= Seq::<Seq<char>>::empty());
                } else {
                    self.pending.pop();
                    assert(texts(self.pending@) =~= texts(before).drop_last());
                }
                self.listing_due = false;
            },
        }
    }

    /// Ends the walk and hands over what it found: the workspace of the
    /// root, with the repositories found; or, where the root could not be
    /// listed, that failure.
    pub fn finish(self) -> (found: Result<Workspace, GitWsError>)
        ensures
            match self@.failure {
                Some(reason) => found matches Err(GitWsError::IoError(text)) && text@ == reason,
                None => found matches Ok(workspace) && workspace.index() == self@.index
                    && workspace.root() == self@.root,
            },
    {
        match self.failure {
            Some(reason) => Err(GitWsError::IoError(reason)),
            None => Ok(self.workspace),
        }
    }
}

/// A directory as a walk sees it: its path, whether it holds the marker, and
/// the directories that it holds, or why it cannot be listed.
pub struct DirTree {
    /// The path of the directory.
    pub path: Seq<char>,
    /// Whether the directory holds an entry with the marker's name.
    pub has_marker: bool,
    /// The directories that the directory holds, in the order in which a
    /// listing gives them; or the reason why it cannot be listed.
    pub listing: Result<Seq<DirTree>, Seq<char>>,
}

/// The paths of some directories, in their order.
pub open spec fn paths_of(trees: Seq<DirTree>) -> Seq<Seq<char>> {
    trees.map_values(|tree: DirTree| tree.path)
}

/// The repository roots at and below a directory, in the order in which a
/// walk comes upon them. A directory with the marker is a root, and nothing
/// below it is looked at. A directory without it that is passed over, or that
/// cannot be listed, gives none. Any other gives those of the directories it holds.
pub open spec fn roots_below(tree: DirTree) -> Seq<Seq<char>>
    decreases tree,
{
    if tree.has_marker {
        seq![tree.path]
    } else if is_hidden(display_name(tree.path)) {
        Seq::empty()
    } else {
        match tree.listing {
            Ok(children) => roots_among(children),
            Err(_) => Seq::empty(),
        }
    }
}

/// The repository roots at and below each of some directories, in their order.
pub open spec fn roots_among(trees: Seq<DirTree>) -> Seq<Seq<char>>
    decreases trees,
{
    if trees.len() == 0 {
        Seq::empty()
    } else {
        roots_below(trees.first()) + roots_among(trees.drop_first())
    }
}

/// The index after the repositories at `paths` are entered into `index` in
/// turn, each under the name that its path gives it.
pub open spec fn entered(index: Map<Seq<char>, Seq<char>>, paths: Seq<Seq<char>>) -> Map<
    Seq<char>,
    Seq<char>,
>
    decreases paths.len(),
{
    if paths.len() == 0 {
        index
    } else {
        entered(index, paths.drop_last()).insert(display_name(paths.last()), paths.last())
    }
}

/// The state after the walk has dealt with the next directory itself, when
/// that directory is `tree`: it is told of the marker, and then, if it asks
/// for the listing, of the listing.
pub open spec fn after_visit(s: WalkState, tree: DirTree) -> WalkState {
    let asked = after_marker(s, tree.has_marker);
    if asked.listing_due {
        match tree.listing {
            Ok(children) => after_children(asked, paths_of(children)),
            Err(reason) => after_unreadable(asked, reason),
        }
    } else {
        asked
    }
}

/// The state in which the walk leaves `tree` and all below it, when it comes
/// upon `tree` in the state `s`: it deals with the directory itself and then,
/// where it went into it, with the directories that it holds.
pub open spec fn walked(s: WalkState, tree: DirTree) -> WalkState
    decreases tree,
{
    let visited = after_visit(s, tree);
    if !tree.has_marker && !is_hidden(display_name(tree.path)) {
        match tree.listing {
            Ok(children) => walked_all(visited, children),
            Err(_) => visited,
        }
    } else {
        visited
    }
}

/// The state in which the walk leaves some directories that stand next to
/// each other, the first of them dealt with first.
pub open spec fn walked_all(s: WalkState, trees: Seq<DirTree>) -> WalkState
    decreases trees,
{
    if trees.len() == 0 {
        s
    } else {
        walked_all(walked(s, trees.first()), trees.drop_first())
    }
}

/// The state in which a walk ends that starts from the root of `tree` and is
/// answered as `tree` says.
pub open spec fn walk_of(tree: DirTree) -> WalkState {
    walked(start(tree.path), tree)
}

/// Why a walk of `tree` fails, if it does: the root holds no marker, is not
/// passed over, and cannot be listed.
pub open spec fn refusal_at_root(tree: DirTree) -> Option<Seq<char>> {
    if !tree.has_marker && !is_hidden(display_name(tree.path)) {
        match tree.listing {
            Ok(_) => None,
            Err(reason) => Some(reason),
        }
    } else {
        None
    }
}

/// Entering two runs of paths one after the other is entering them as one run.
pub proof fn lemma_entered_in_two_runs(
    index: Map<Seq<char>, Seq<char>>,
    first: Seq<Seq<char>>,
    second: Seq<Seq<char>>,
)
    ensures
        entered(entered(index, first), second) == entered(index, first + second),
    decreases second.len(),
{
    if second.len() == 0 {
        assert(first + second == first);
    } else {
        lemma_entered_in_two_runs(index, first, second.drop_last());
        assert((first + second).drop_last() == first + second.drop_last());
        assert((first + second).last() == second.last());
    }
}

/// Past the root, a walk that comes upon a directory leaves it with the
/// roots at and below it entered, and with nothing else changed.
pub proof fn lemma_walked(s: WalkState, tree: DirTree)
    requires
        expects_marker(s),
        !s.at_root,
        s.pending.last() == tree.path,
    ensures
        walked(s, tree) == (WalkState {
            pending: s.pending.drop_last(),
            index: entered(s.index, roots_below(tree)),
            ..s
        }),
    decreases tree,
{
    if tree.has_marker {
        assert(seq![tree.path].drop_last() == Seq::<Seq<char>>::empty());
        assert(entered(s.index, seq![tree.path]) == s.index.insert(
            display_name(tree.path),
            tree.path,
        )) by {
            reveal_with_fuel(entered, 2);
        }
    } else if is_hidden(display_name(tree.path)) {
    } else {
        match tree.listing {
            Ok(children) => {
                let visited = after_visit(s, tree);
                lemma_walked_all(visited, children, s.pending.drop_last());
            },
            Err(_) => {},
        }
    }
}

/// Past the root, a walk that has some directories next, the first of them
/// first, leaves them with the roots at and below them entered, and with
/// nothing else changed.
pub proof fn lemma_walked_all(s: WalkState, trees: Seq<DirTree>, rest: Seq<Seq<char>>)
    requires
        !s.listing_due,
        !s.at_root,
        s.pending == rest + paths_of(trees).reverse(),
    ensures
        walked_all(s, trees) == (WalkState {
            pending: rest,
            index: entered(s.index, roots_among(trees)),
            ..s
        }),
    decreases trees,
{
    if trees.len() == 0 {
        assert(s.pending =~= rest);
    } else {
        let first = trees.first();
        let others = trees.drop_first();
        assert(s.pending.last() == first.path);
        lemma_walked(s, first);
        let next = walked(s, first);
        assert(next.pending =~= rest + paths_of(others).reverse());
        lemma_walked_all(next, others, rest);
        lemma_entered_in_two_runs(s.index, roots_below(first), roots_among(others));
    }
}

/// What a walk of a directory tree arrives at. It always comes to an end. It
/// fails where the root holds no marker, is not passed over and cannot be
/// listed, and then with the reason given for the root. Otherwise it holds
/// the repository roots at and below the root, entered in the order in
/// which the walk comes upon them.
pub proof fn lemma_walk_of(tree: DirTree)
    ensures
        walk_of(tree).root == tree.path,
        walk_of(tree).pending.len() == 0,
        !walk_of(tree).listing_due,
        walk_of(tree).failure == refusal_at_root(tree),
        refusal_at_root(tree) is None ==> walk_of(tree).index == entered(
            Map::empty(),
            roots_below(tree),
        ),
        refusal_at_root(tree) is Some ==> walk_of(tree).index == Map::<
            Seq<char>,
            Seq<char>,
        >::empty(),
{
    let s = start(tree.path);
    assert(s.pending.drop_last() =~= Seq::<Seq<char>>::empty());
    if tree.has_marker {
        assert(seq![tree.path].drop_last() == Seq::<Seq<char>>::empty());
        assert(entered(Map::empty(), seq![tree.path]) == Map::<Seq<char>, Seq<char>>::empty().insert(
            display_name(tree.path),
            tree.path,
        )) by {
            reveal_with_fuel(entered, 2);
        }
    } else if is_hidden(display_name(tree.path)) {
    } else {
        match tree.listing {
            Ok(children) => {
                let visited = after_visit(s, tree);
                assert(visited.pending =~= Seq::<Seq<char>>::empty() + paths_of(
                    children,
                ).reverse());
                lemma_walked_all(visited, children, Seq::empty());
            },
            Err(_) => {},
        }
    }
}

/// Nothing inside a repository is found. A directory that holds the marker
/// counts as one root, its own, whatever stands below it; a walk that comes
/// upon it enters it and goes on to what stood next, without a look inside.
pub proof fn lemma_repository_is_not_walked_into(s: WalkState, tree: DirTree)
    requires
        tree.has_marker,
        expects_marker(s),
        s.pending.last() == tree.path,
    ensures
        roots_below(tree) == seq![tree.path],
        walked(s, tree) == after_marker(s, true),
        walked(s, tree).pending == s.pending.drop_last(),
        walked(s, tree).index == s.index.insert(display_name(tree.path), tree.path),
{
}

/// A directory that is passed over hides what it holds. If it holds no
/// marker itself, no root is found at or below it, whatever repositories
/// stand inside; a walk that comes upon it leaves the index as it was.
pub proof fn lemma_hidden_directory_is_skipped(s: WalkState, tree: DirTree)
    requires
        !tree.has_marker,
        is_hidden(display_name(tree.path)),
        expects_marker(s),
        s.pending.last() == tree.path,
    ensures
        roots_below(tree) == Seq::<Seq<char>>::empty(),
        walked(s, tree) == after_marker(s, false),
        walked(s, tree).pending == s.pending.drop_last(),
        walked(s, tree).index == s.index,
{
}

/// Whether two trees show the same directories: the same path and marker at
/// the top, and below it either the same refusal or listings that hold
/// directories alike, in whatever order and however often each is named.
pub open spec fn alike(a: DirTree, b: DirTree) -> bool
    decreases a, 0nat,
{
    &&& a.path == b.path
    &&& a.has_marker == b.has_marker
    &&& match a.listing {
        Ok(held) => match b.listing {
            Ok(other) => {
                &&& forall|i: int| 0 <= i < held.len() ==> has_like(#[trigger] held[i], other)
                &&& forall|j: int| 0 <= j < other.len() ==> is_like_one(held, #[trigger] other[j])
            },
            Err(_) => false,
        },
        Err(reason) => b.listing == Err::<Seq<DirTree>, Seq<char>>(reason),
    }
}

/// Whether one of `among` is like `tree`.
pub open spec fn has_like(tree: DirTree, among: Seq<DirTree>) -> bool
    decreases tree, 1nat,
{
    exists|j: int| 0 <= j < among.len() && alike(tree, #[trigger] among[j])
}

/// Whether `tree` is like one of `held`.
pub open spec fn is_like_one(held: Seq<DirTree>, tree: DirTree) -> bool
    decreases held, 0nat,
{
    exists|i: int| 0 <= i < held.len() && alike(#[trigger] held[i], tree)
}

/// Whether no two different paths of `paths` give the same name.
pub open spec fn names_tell_apart(paths: Seq<Seq<char>>) -> bool {
    forall|i: int, j: int|
        0 <= i < paths.len() && 0 <= j < paths.len() && display_name(#[trigger] paths[i])
            == display_name(#[trigger] paths[j]) ==> paths[i] == paths[j]
}

/// A root is among those of some directories exactly if it is at or below one of them.
pub proof fn lemma_roots_among(trees: Seq<DirTree>, path: Seq<char>)
    ensures
        roots_among(trees).contains(path) <==> exists|i: int|
            0 <= i < trees.len() && roots_below(#[trigger] trees[i]).contains(path),
    decreases trees.len(),
{
    if trees.len() > 0 {
        let first = trees.first();
        let others = trees.drop_first();
        lemma_roots_among(others, path);
        let joined = roots_below(first) + roots_among(others);
        if joined.contains(path) {
            let at = choose|at: int| 0 <= at < joined.len() && joined[at] == path;
            if at < roots_below(first).len() {
                assert(roots_below(first)[at] == path);
                assert(roots_below(trees[0]).contains(path));
            } else {
                assert(roots_among(others)[at - roots_below(first).len()] == path);
                let i = choose|i: int|
                    0 <= i < others.len() && roots_below(#[trigger] others[i]).contains(path);
                assert(others[i] == trees[i + 1]);
            }
        }
        if exists|i: int| 0 <= i < trees.len() && roots_below(#[trigger] trees[i]).contains(path) {
            let i = choose|i: int|
                0 <= i < trees.len() && roots_below(#[trigger] trees[i]).contains(path);
            if i == 0 {
                let at = choose|at: int|
                    0 <= at < roots_below(first).len() && roots_below(first)[at] == path;
                assert(joined[at] == path);
            } else {
                assert(others[i - 1] == trees[i]);
                assert(roots_among(others).contains(path));
                let at = choose|at: int|
                    0 <= at < roots_among(others).len() && roots_among(others)[at] == path;
                assert(joined[roots_below(first).len() + at] == path);
            }
        }
    }
}

/// Trees that are alike have the same roots, in whatever order.
pub proof fn lemma_alike_trees_have_the_same_roots(a: DirTree, b: DirTree, path: Seq<char>)
    requires
        alike(a, b),
    ensures
        roots_below(a).contains(path) <==> roots_below(b).contains(path),
    decreases a,
{
    if !a.has_marker && !is_hidden(display_name(a.path)) {
        match a.listing {
            Ok(held) => {
                let other = b.listing->Ok_0;
                assert(roots_below(a) == roots_among(held));
                assert(roots_below(b) == roots_among(other));
                lemma_roots_among(held, path);
                lemma_roots_among(other, path);
                if roots_among(held).contains(path) {
                    let i = choose|i: int|
                        0 <= i < held.len() && roots_below(#[trigger] held[i]).contains(path);
                    assert(has_like(held[i], other));
                    let j = choose|j: int| 0 <= j < other.len() && alike(held[i], #[trigger] other[j]);
                    lemma_alike_trees_have_the_same_roots(held[i], other[j], path);
                    assert(roots_below(other[j]).contains(path));
                }
                if roots_among(other).contains(path) {
                    let j = choose|j: int|
                        0 <= j < other.len() && roots_below(#[trigger] other[j]).contains(path);
                    assert(is_like_one(held, other[j]));
                    let i = choose|i: int| 0 <= i < held.len() && alike(#[trigger] held[i], other[j]);
                    lemma_alike_trees_have_the_same_roots(held[i], other[j], path);
                    assert(roots_below(held[i]).contains(path));
                }
            },
            Err(_) => {},
        }
    }
}

/// Where names tell the paths apart, the index that they are entered into
/// holds each path under its name, and no name besides.
pub proof fn lemma_entered_apart(paths: Seq<Seq<char>>)
    requires
        names_tell_apart(paths),
    ensures
        forall|i: int|
            0 <= i < paths.len() ==> entered(Map::empty(), paths).contains_key(
                display_name(#[trigger] paths[i]),
            ) && entered(Map::empty(), paths)[display_name(paths[i])] == paths[i],
        forall|name: Seq<char>| #[trigger]
            entered(Map::empty(), paths).contains_key(name) ==> exists|i: int|
                0 <= i < paths.len() && display_name(#[trigger] paths[i]) == name,
    decreases paths.len(),
{
    if paths.len() > 0 {
        let front = paths.drop_last();
        let last = paths.last();
        assert forall|i: int, j: int|
            0 <= i < front.len() && 0 <= j < front.len() && display_name(#[trigger] front[i])
                == display_name(#[trigger] front[j]) implies front[i] == front[j] by {
            assert(front[i] == paths[i] && front[j] == paths[j]);
        }
        lemma_entered_apart(front);
        let index = entered(Map::empty(), paths);
        assert forall|i: int| 0 <= i < paths.len() implies index.contains_key(
            display_name(#[trigger] paths[i]),
        ) && index[display_name(paths[i])] == paths[i] by {
            if i < paths.len() - 1 {
                assert(front[i] == paths[i]);
                assert(paths[paths.len() - 1] == last);
            }
        }
        assert forall|name: Seq<char>| #[trigger] index.contains_key(name) implies exists|i: int|
            0 <= i < paths.len() && display_name(#[trigger] paths[i]) == name by {
            if name == display_name(last) {
                assert(display_name(paths[paths.len() - 1]) == name);
            } else {
                assert(entered(Map::empty(), front).contains_key(name));
                let i = choose|i: int|
                    0 <= i < front.len() && display_name(#[trigger] front[i]) == name;
                assert(front[i] == paths[i]);
            }
        }
    }
}

/// Discovery does not depend on the order in which directories are listed.
/// Two walks of trees that show the same directories fail alike or find the
/// same index, and so the same set of repository paths; a walk of the same
/// tree twice is one case of that. This holds where no two repositories
/// found go by the same name: of two with one name the index keeps the one
/// that the walk came upon last.
pub proof fn lemma_discovery_ignores_listing_order(a: DirTree, b: DirTree)
    requires
        alike(a, b),
        names_tell_apart(roots_below(a)),
    ensures
        walk_of(a).failure == walk_of(b).failure,
        walk_of(a).index == walk_of(b).index,
        refusal_at_root(a) is None ==> walk_of(a).index.values() == roots_below(a).to_set(),
        roots_below(a).to_set() == roots_below(b).to_set(),
{
    lemma_walk_of(a);
    lemma_walk_of(b);
    let found_a = roots_below(a);
    let found_b = roots_below(b);
    assert forall|path: Seq<char>| found_a.contains(path) <==> found_b.contains(path) by {
        lemma_alike_trees_have_the_same_roots(a, b, path);
    }
    assert(found_a.to_set() =~= found_b.to_set());
    assert forall|i: int, j: int|
        0 <= i < found_b.len() && 0 <= j < found_b.len() && display_name(#[trigger] found_b[i])
            == display_name(#[trigger] found_b[j]) implies found_b[i] == found_b[j] by {
        assert(found_a.contains(found_b[i]));
        assert(found_a.contains(found_b[j]));
        let k = choose|k: int| 0 <= k < found_a.len() && found_a[k] == found_b[i];
        let l = choose|l: int| 0 <= l < found_a.len() && found_a[l] == found_b[j];
        assert(display_name(found_a[k]) == display_name(found_a[l]));
    }
    lemma_entered_apart(found_a);
    lemma_entered_apart(found_b);
    let index_a = entered(Map::empty(), found_a);
    let index_b = entered(Map::empty(), found_b);
    assert forall|name: Seq<char>| index_a.contains_key(name) implies index_b.contains_key(name)
        && index_b[name] == index_a[name] by {
        let i = choose|i: int| 0 <= i < found_a.len() && display_name(#[trigger] found_a[i]) == name;
        assert(found_b.contains(found_a[i]));
        let j = choose|j: int| 0 <= j < found_b.len() && found_b[j] == found_a[i];
        assert(index_b.contains_key(display_name(found_b[j])));
    }
    assert forall|name: Seq<char>| index_b.contains_key(name) implies index_a.contains_key(
        name,
    ) by {
        let j = choose|j: int| 0 <= j < found_b.len() && display_name(#[trigger] found_b[j]) == name;
        assert(found_a.contains(found_b[j]));
        let i = choose|i: int| 0 <= i < found_a.len() && found_a[i] == found_b[j];
        assert(index_a.contains_key(display_name(found_a[i])));
    }
    assert(index_a =~= index_b);
    assert forall|path: Seq<char>| index_a.values().contains(path) <==> found_a.to_set().contains(
        path,
    ) by {
        if index_a.values().contains(path) {
            let name = choose|name: Seq<char>| index_a.contains_key(name) && index_a[name] == path;
            let i = choose|i: int|
                0 <= i < found_a.len() && display_name(#[trigger] found_a[i]) == name;
            assert(found_a[i] == path);
        }
        if found_a.contains(path) {
            let i = choose|i: int| 0 <= i < found_a.len() && found_a[i] == path;
            assert(index_a.contains_key(display_name(found_a[i])));
            assert(index_a[display_name(found_a[i])] == path);
        }
    }
    assert(index_a.values() =~= found_a.to_set());
}

/// Whether every path in the tree starts with the path of the directory that
/// holds it, as the paths of a listing on disk do.
pub open spec fn is_nested(tree: DirTree) -> bool
    decreases tree,
{
    match tree.listing {
        Ok(children) => forall|i: int|
            0 <= i < children.len() ==> tree.path.is_prefix_of((#[trigger] children[i]).path)
                && is_nested(children[i]),
        Err(_) => true,
    }
}

/// What is found lies at or below the root. In a tree whose paths are
/// nested, the path of every repository root found starts with the path of
/// the directory that the walk started from.
pub proof fn lemma_roots_lie_below(tree: DirTree, path: Seq<char>)
    requires
        is_nested(tree),
        roots_below(tree).contains(path),
    ensures
        tree.path.is_prefix_of(path),
    decreases tree,
{
    if tree.has_marker {
        assert(roots_below(tree)[0] == tree.path);
        assert(path == tree.path);
    } else {
        match tree.listing {
            Ok(children) => {
                lemma_roots_among(children, path);
                let i = choose|i: int|
                    0 <= i < children.len() && roots_below(#[trigger] children[i]).contains(path);
                lemma_roots_lie_below(children[i], path);
                assert(tree.path.is_prefix_of(children[i].path));
                assert(tree.path =~= path.subrange(0, tree.path.len() as int)) by {
                    assert(children[i].path =~= path.subrange(0, children[i].path.len() as int));
                    assert(tree.path =~= children[i].path.subrange(0, tree.path.len() as int));
                }
            },
            Err(_) => {},
        }
    }
}

} // verus!
