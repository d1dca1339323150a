//! The repositories of one workspace: what identifies each of them, and the
//! index that holds them by name.

use crate::error::GitWsError;
use vstd::prelude::*;
use vstd::string::*;

verus! {

/// What `std::path::Path::file_name` gives for a path written as text: its
/// final component, or nothing where the path has none.
pub uninterp spec fn path_file_name(path: Seq<char>) -> Option<Seq<char>>;

/// The name under which a repository at `path` is shown and indexed: the
/// final component of the path, or the empty text where there is none.
pub open spec fn display_name(path: Seq<char>) -> Seq<char> {
    match path_file_name(path) {
        Some(name) => name,
        None => Seq::empty(),
    }
}

/// Calls `std::path::Path::file_name` on a path given as text.
///
/// Trusted: `file_name` takes the text apart and looks at no file system, so
/// its result is a function of the text alone, which the contract names
/// `path_file_name`. Nothing is claimed about what that function is.
#[verifier::external_body]
fn final_component(path: &str) -> (name: Option<String>)
    ensures
        name.deep_view() == path_file_name(path@),
{
    std::path::Path::new(path).file_name().map(|name| name.to_string_lossy().into_owned())
}

/// One repository of the workspace: where its root is, and its name.
#[derive(Debug, PartialEq, Eq)]
pub struct GitRepository {
    /// The root directory of the repository.
    pub path: String,
    /// The name it is shown and indexed under.
    pub name: String,
}

impl Clone for GitRepository {
    fn clone(&self) -> (copy: Self)
        ensures
            copy == *self,
    {
        GitRepository { path: self.path.clone(), name: self.name.clone() }
    }
}

impl GitRepository {
    /// The repository rooted at `path`, named after the final component of the path.
    pub fn new(path: String) -> (repo: Self)
        ensures
            repo.path@ == path@,
            repo.name@ == display_name(path@),
    {
        let name = match final_component(path.as_str()) {
            Some(name) => name,
            None => String::new(),
        };
        GitRepository { path, name }
    }

    /// `git2::Repository::open` on the path of this repository: the opened
    /// repository, or the engine's failure.
    ///
    /// Trusted, and nothing is claimed of the result: it depends on what is
    /// on disk.
    #[verifier::external_body]
    pub fn open(&self) -> (opened: Result<git2::Repository, git2::Error>) {
        git2::Repository::open(&self.path)
    }
}

/// The index that a sequence of repositories amounts to when each is entered
/// under its name in turn: a later entry replaces an earlier one of the same
/// name. It maps a name to the path of the repository.
pub open spec fn index_of(entries: Seq<GitRepository>) -> Map<Seq<char>, Seq<char>>
    decreases entries.len(),
{
    if entries.len() == 0 {
        Map::empty()
    } else {
        index_of(entries.drop_last()).insert(entries.last().name@, entries.last().path@)
    }
}

/// No two of the entries have the same name.
pub open spec fn distinct_names(entries: Seq<GitRepository>) -> bool {
    forall|i: int, j: int|
        0 <= i < j < entries.len() ==> entries[i].name@ != entries[j].name@
}

/// With distinct names, the index holds exactly the entries: each under its
/// own name, and no name besides.
pub proof fn lemma_index_of_distinct(entries: Seq<GitRepository>)
    requires
        distinct_names(entries),
    ensures
        index_of(entries).dom().finite(),
        index_of(entries).len() == entries.len(),
        forall|i: int|
            0 <= i < entries.len() ==> #[trigger] index_of(entries).contains_key(entries[i].name@)
                && index_of(entries)[entries[i].name@] == entries[i].path@,
        forall|name: Seq<char>| #[trigger]
            index_of(entries).contains_key(name) ==> exists|i: int|
                0 <= i < entries.len() && #[trigger] entries[i].name@ == name,
    decreases entries.len(),
{
    if entries.len() > 0 {
        let front = entries.drop_last();
        let last = entries.last();
        lemma_index_of_distinct(front);
        assert forall|i: int| 0 <= i < entries.len() implies #[trigger] index_of(
            entries,
        ).contains_key(entries[i].name@) && index_of(entries)[entries[i].name@]
            == entries[i].path@ by {
            if i < entries.len() - 1 {
                assert(front[i] == entries[i]);
                assert(index_of(front).contains_key(front[i].name@));
            }
        }
        assert forall|name: Seq<char>| #[trigger]
            index_of(entries).contains_key(name) implies exists|i: int|
            0 <= i < entries.len() && #[trigger] entries[i].name@ == name by {
            if name == last.name@ {
                assert(entries[entries.len() - 1].name@ == name);
            } else {
                assert(index_of(front).contains_key(name));
                let i = choose|i: int| 0 <= i < front.len() && #[trigger] front[i].name@ == name;
                assert(entries[i].name@ == name);
            }
        }
        if index_of(front).contains_key(last.name@) {
            let i = choose|i: int| 0 <= i < front.len() && #[trigger] front[i].name@ == last.name@;
            assert(entries[i].name@ == entries[entries.len() - 1].name@);
        }
    }
}

/// Replacing an entry by one of the same name has the effect on the index of
/// entering the new one.
pub proof fn lemma_index_of_update(entries: Seq<GitRepository>, at: int, repo: GitRepository)
    requires
        distinct_names(entries),
        0 <= at < entries.len(),
        entries[at].name@ == repo.name@,
    ensures
        distinct_names(entries.update(at, repo)),
        index_of(entries.update(at, repo)) == index_of(entries).insert(repo.name@, repo.path@),
    decreases entries.len(),
{
    let updated = entries.update(at, repo);
    let front = entries.drop_last();
    if at == entries.len() - 1 {
        assert(updated.drop_last() == front);
        assert(index_of(updated) == index_of(front).insert(repo.name@, repo.path@));
        assert(index_of(entries).insert(repo.name@, repo.path@) == index_of(front).insert(
            repo.name@,
            repo.path@,
        ));
    } else {
        lemma_index_of_update(front, at, repo);
        assert(updated.drop_last() == front.update(at, repo));
        assert(updated.last() == entries.last());
        assert(entries[at].name@ != entries[entries.len() - 1].name@);
        assert(index_of(updated) == index_of(front).insert(repo.name@, repo.path@).insert(
            entries.last().name@,
            entries.last().path@,
        ));
        assert(index_of(updated) == index_of(entries).insert(repo.name@, repo.path@));
    }
}

/// Where in `list` the repository called `name` stands, if there is one.
fn position(list: &Vec<GitRepository>, name: &String) -> (found: Option<usize>)
    ensures
        match found {
            Some(at) => at < list@.len() && list@[at as int].name@ == name@,
            None => forall|i: int| 0 <= i < list@.len() ==> list@[i].name@ != name@,
        },
{
    let mut at: usize = 0;
    while at < list.len()
        invariant
            at <= list@.len(),
            forall|i: int| 0 <= i < at ==> list@[i].name@ != name@,
        decreases list@.len() - at,
    {
        if list[at].name == *name {
            return Some(at);
        }
        at += 1;
    }
    None
}

/// The repositories found below one root directory, by name.
pub struct Workspace {
    root_path: String,
    repositories: Vec<GitRepository>,
}

impl Workspace {
    #[verifier::type_invariant]
    closed spec fn holds_each_name_once(self) -> bool {
        distinct_names(self.repositories@)
    }

    /// The directory that the workspace was made for.
    pub closed spec fn root(&self) -> Seq<char> {
        self.root_path@
    }

    /// The repositories held, in the order in which their names first came in.
    pub closed spec fn entries(&self) -> Seq<GitRepository> {
        self.repositories@
    }

    /// What the workspace maps: a name to the path of the repository of that name.
    pub open spec fn index(&self) -> Map<Seq<char>, Seq<char>> {
        index_of(self.entries())
    }

    /// An empty workspace for the directory `root_path`.
    pub fn new(root_path: String) -> (workspace: Self)
        ensures
            workspace.root() == root_path@,
            workspace.entries() == Seq::<GitRepository>::empty(),
            workspace.index() == Map::<Seq<char>, Seq<char>>::empty(),
    {
        Workspace { root_path, repositories: Vec::new() }
    }

    /// The directory that the workspace was made for.
    pub fn root_path(&self) -> (root: &String)
        ensures
            root@ == self.root(),
    {
        &self.root_path
    }

    /// How many repositories the workspace holds.
    pub fn len(&self) -> (count: usize)
        ensures
            count == self.entries().len(),
            count == self.index().len(),
            distinct_names(self.entries()),
    {
        proof {
            use_type_invariant(self);
            lemma_index_of_distinct(self.repositories@);
        }
        self.repositories.len()
    }

    /// Enters `repo` under its name. A repository already held under that
    /// name is replaced, in the place where it stood; a new name goes to the end.
    pub fn insert(&mut self, repo: GitRepository)
        ensures
            final(self).root() == old(self).root(),
            final(self).index() == old(self).index().insert(repo.name@, repo.path@),
            distinct_names(old(self).entries()),
            distinct_names(final(self).entries()),
            match first_with_name(old(self).entries(), repo.name@) {
                Some(at) => final(self).entries() == old(self).entries().update(at, repo),
                None => final(self).entries() == old(self).entries().push(repo),
            },
    {
        proof {
            use_type_invariant(&*self);
        }
        let ghost before = self.repositories@;
        let mut list: Vec<GitRepository> = Vec::new();
        std::mem::swap(&mut self.repositories, &mut list);
        match position(&list, &repo.name) {
            Some(at) => {
                proof {
                    lemma_index_of_update(before, at as int, repo);
                    lemma_first_with_name(before, repo.name@);
                }
                list.set(at, repo);
            },
            None => {
                proof {
                    lemma_first_with_name(before, repo.name@);
                    assert(before.push(repo).drop_last() == before);
                }
                list.push(repo);
            },
        }
        std::mem::swap(&mut self.repositories, &mut list);
    }

    /// The repository called `name`, if the workspace holds one.
    pub fn get_repository(&self, name: &str) -> (found: Option<&GitRepository>)
        ensures
            match found {
                Some(repo) => self.index().contains_key(name@) && repo.name@ == name@
                    && repo.path@ == self.index()[name@] && self.entries().contains(*repo),
                None => !self.index().contains_key(name@),
            },
    {
        proof {
            use_type_invariant(self);
            lemma_index_of_distinct(self.repositories@);
        }
        let wanted = String::from_str(name);
        match position(&self.repositories, &wanted) {
            Some(at) => {
                assert(self.index().contains_key(self.repositories@[at as int].name@));
                Some(&self.repositories[at])
            },
            None => None,
        }
    }

    /// The repository called `name`, or the failure that says that the
    /// workspace holds none of that name.
    pub fn find_repository(&self, name: &str) -> (found: Result<&GitRepository, GitWsError>)
        ensures
            match found {
                Ok(repo) => self.index().contains_key(name@) && repo.name@ == name@ && repo.path@
                    == self.index()[name@] && self.entries().contains(*repo),
                Err(failure) => failure matches GitWsError::RepositoryNotFound(missing)
                    && missing@ == name@ && !self.index().contains_key(name@),
            },
    {
        match self.get_repository(name) {
            Some(repo) => Ok(repo),
            None => Err(GitWsError::RepositoryNotFound(String::from_str(name))),
        }
    }

    /// All repositories of the workspace, in the order of `entries`.
    pub fn list_repositories(&self) -> (list: Vec<&GitRepository>)
        ensures
            list@.len() == self.entries().len(),
            forall|i: int| 0 <= i < list@.len() ==> *list@[i] == self.entries()[i],
            distinct_names(self.entries()),
            list@.len() == self.index().len(),
    {
        proof {
            use_type_invariant(self);
            lemma_index_of_distinct(self.repositories@);
        }
        let mut list: Vec<&GitRepository> = Vec::new();
        let mut at: usize = 0;
        while at < self.repositories.len()
            invariant
                at <= self.repositories.len(),
                list@.len() == at,
                forall|i: int| 0 <= i < at ==> *list@[i] == self.repositories@[i],
            decreases self.repositories.len() - at,
        {
            list.push(&self.repositories[at]);
            at += 1;
        }
        list
    }
}

/// The place of the first entry called `name`, if any entry is.
pub open spec fn first_with_name(entries: Seq<GitRepository>, name: Seq<char>) -> Option<int> {
    if exists|i: int| 0 <= i < entries.len() && #[trigger] entries[i].name@ == name {
        Some(choose|i: int| 0 <= i < entries.len() && #[trigger] entries[i].name@ == name)
    } else {
        None
    }
}

/// Among entries with distinct names, an entry called `name` is the one that `first_with_name` gives.
pub proof fn lemma_first_with_name(entries: Seq<GitRepository>, name: Seq<char>)
    requires
        distinct_names(entries),
    ensures
        forall|i: int|
            0 <= i < entries.len() && #[trigger] entries[i].name@ == name ==> first_with_name(
                entries,
                name,
            ) == Some(i),
        (forall|i: int| 0 <= i < entries.len() ==> #[trigger] entries[i].name@ != name)
            ==> first_with_name(entries, name) is None,
{
    assert forall|i: int|
        0 <= i < entries.len() && #[trigger] entries[i].name@ == name implies first_with_name(
        entries,
        name,
    ) == Some(i) by {
        let j = choose|j: int| 0 <= j < entries.len() && #[trigger] entries[j].name@ == name;
        if i < j {
            assert(entries[i].name@ != entries[j].name@);
        } else if j < i {
            assert(entries[j].name@ != entries[i].name@);
        }
    }
}

} // verus!
