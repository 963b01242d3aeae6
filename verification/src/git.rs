//! What is asked of a git repository, and what is made of the answers.

use crate::changes::{
    self, IndexItem, Listing, OutcomeView, StatusItem, WorkDir, WorkDirView,
};
use crate::file_diff;
use crate::path::{self, FilePath, PartView};
use crate::reports;
use crate::vcs::{ErrorView, NotFile, Report, StatusScope, VcsError};
use gix::bstr::ByteSlice;
use gix::refs::FullName;
use vstd::math;
use vstd::prelude::*;
use vstd::string::*;
use vstd::utf8;

verus! {

/// The name of an object: its hash.
#[derive(Debug)]
pub struct ObjectId {
    pub bytes: Vec<u8>,
}

impl View for ObjectId {
    type V = Seq<u8>;

    open spec fn view(&self) -> Seq<u8> {
        self.bytes@
    }
}

/// How far the configuration of a repository is trusted.
#[derive(Debug, Clone, Copy, PartialEq, Eq, Structural)]
pub enum Trust {
    Full,
    Reduced,
}

/// Which configuration is read.
#[derive(Debug, Clone, Copy, PartialEq, Eq, Structural)]
pub struct ConfigSources {
    pub system: bool,
    pub git: bool,
    pub user: bool,
    pub env: bool,
    pub includes: bool,
    /// The configuration that is bundled with a git installation.
    pub git_binary: bool,
}

/// How a repository is found and opened.
#[derive(Debug, Clone, Copy, PartialEq, Eq, Structural)]
pub struct OpenSettings {
    pub trust: Trust,
    pub config: ConfigSources,
    /// The path of the `.git` directory is opened as it is.
    pub open_path_as_is: bool,
}

/// The trust that the caller decided on is the trust that the repository is
/// opened with. The configuration bundled with git is looked up on Windows
/// only.
pub open spec fn settings(trust_full: bool, windows: bool) -> OpenSettings {
    OpenSettings {
        trust: if trust_full {
            Trust::Full
        } else {
            Trust::Reduced
        },
        config: ConfigSources {
            system: true,
            git: true,
            user: true,
            env: true,
            includes: true,
            git_binary: windows,
        },
        open_path_as_is: true,
    }
}

/// How a repository is opened.
pub fn open_settings(trust_full: bool, windows: bool) -> (r: OpenSettings)
    ensures
        r == settings(trust_full, windows),
{
    OpenSettings {
        trust: if trust_full {
            Trust::Full
        } else {
            Trust::Reduced
        },
        config: ConfigSources {
            system: true,
            git: true,
            user: true,
            env: true,
            includes: true,
            git_binary: windows,
        },
        open_path_as_is: true,
    }
}

/// What a tree entry is.
#[derive(Debug, Clone, Copy, PartialEq, Eq, Structural)]
pub enum EntryKind {
    Tree,
    Commit,
    Link,
    Blob,
    BlobExecutable,
}

/// An entry of a tree.
#[derive(Debug)]
pub struct TreeEntry {
    pub kind: EntryKind,
    pub id: ObjectId,
}

/// Which files that git does not know of are listed.
#[derive(Debug, Clone, Copy, PartialEq, Eq, Structural)]
pub enum UntrackedFiles {
    /// None of them.
    Omitted,
    /// Of a directory of such files only the directory.
    Collapsed,
    /// Each of them.
    Files,
}

/// How renamed files are recognised.
#[derive(Debug, Clone, Copy, PartialEq, Eq, Structural)]
pub struct RenameSettings {
    /// Copies are recognised too.
    pub copies: bool,
    /// How much of a file has to be the same, in percent.
    pub similarity: u8,
    /// The number of files from which on only identical ones are recognised.
    pub limit: usize,
    /// Empty files are recognised too.
    pub track_empty: bool,
}

/// How differences are listed.
#[derive(Debug, Clone, Copy, PartialEq, Eq, Structural)]
pub struct ListSettings {
    pub untracked_files: UntrackedFiles,
    /// Files renamed in the worktree.
    pub index_renames: RenameSettings,
    /// Files renamed in the index.
    pub tree_renames: RenameSettings,
}

/// A file is recognised as a renamed one when half of it is the same, and not
/// as a copy.
pub open spec fn renames() -> RenameSettings {
    RenameSettings { copies: false, similarity: 50, limit: 1000, track_empty: false }
}

/// Each untracked file is listed, whatever the configuration says: by default
/// it would leave most of them out. Renamed files are recognised, which they
/// are not by default.
pub open spec fn listing_settings() -> ListSettings {
    ListSettings {
        untracked_files: UntrackedFiles::Files,
        index_renames: renames(),
        tree_renames: renames(),
    }
}

/// How differences are listed.
pub fn list_settings() -> (r: ListSettings)
    ensures
        r == listing_settings(),
{
    let renames = RenameSettings { copies: false, similarity: 50, limit: 1000, track_empty: false };
    ListSettings {
        untracked_files: UntrackedFiles::Files,
        index_renames: renames,
        tree_renames: renames,
    }
}

/// The name of an object, if there is one.
pub open spec fn opt_id(id: Option<ObjectId>) -> Option<Seq<u8>> {
    match id {
        Some(id) => Some(id@),
        None => None,
    }
}

/// Access to files and repositories. Errors come as texts.
pub trait Git {
    type Repo: Repository;

    /// Resolves the symbolic links in a path.
    fn realpath(&self, file: &FilePath) -> Result<FilePath, String>;

    /// Finds the git directory at or above a directory; with `dot_git_only`
    /// one that is named `.git`.
    fn discover(&self, dir: &FilePath, dot_git_only: bool) -> Result<FilePath, String>;

    /// Opens the repository of a git directory.
    fn open(&self, git_dir: &FilePath, settings: OpenSettings) -> Result<Self::Repo, String>;

    /// Whether this is Windows.
    fn on_windows(&self) -> bool;
}

/// Access to an open repository. Errors come as texts.
pub trait Repository {
    /// The commit of `HEAD`.
    fn head_commit(&self) -> Result<ObjectId, String>;

    /// The full name of the reference that `HEAD` is on, if it is on one.
    fn head_ref(&self) -> Result<Option<Vec<u8>>, String>;

    /// The object that a revision names.
    fn rev_parse(&self, rev: &str) -> Result<ObjectId, String>;

    /// Checks that an object exists.
    fn find_object(&self, id: &ObjectId) -> Result<(), String>;

    /// Follows an object to the commit that it leads to.
    fn peel_to_commit(&self, id: &ObjectId) -> Result<ObjectId, String>;

    /// A merge base of two commits.
    fn merge_base(&self, one: &ObjectId, two: &ObjectId) -> Result<ObjectId, String>;

    /// Checks that an object is a commit.
    fn check_commit(&self, id: &ObjectId) -> Result<(), String>;

    /// The worktree, if there is one.
    fn work_dir(&self) -> Option<FilePath>;

    /// The tree of a commit.
    fn tree_of(&self, commit: &ObjectId) -> Result<ObjectId, String>;

    /// The entry at a path of a commit's tree, if there is one.
    fn entry_at(&self, commit: &ObjectId, path: &FilePath) -> Result<Option<TreeEntry>, String>;

    /// The data of an object.
    fn read_object(&self, id: &ObjectId) -> Result<Vec<u8>, String>;

    /// What the data of an object is in the worktree, after git's conversions.
    fn to_worktree(&self, data: &Vec<u8>, path: &FilePath) -> Result<Vec<u8>, String>;

    /// Prepares to list differences.
    fn start_status(&self) -> Result<(), String>;

    /// Lists the differences between the index and the worktree, with an error
    /// for each that could not be found out.
    fn index_items(&self, settings: ListSettings) -> Result<Vec<Result<IndexItem, String>>, String>;

    /// Lists the differences between a tree, which is that of `HEAD` unless
    /// another one is given, and the index, as well as those between the index
    /// and the worktree, with an error for each that could not be found out.
    fn items(&self, tree: &Option<ObjectId>, settings: ListSettings) -> Result<
        Vec<Result<StatusItem, String>>,
        String,
    >;
}

/// An answer with its content as a sequence.
pub open spec fn bytes_answer(r: Result<Vec<u8>, VcsError>) -> Result<Seq<u8>, ErrorView> {
    match r {
        Ok(bytes) => Ok(bytes@),
        Err(e) => Err(e@),
    }
}

/// An object name as an answer.
pub open spec fn id_answer(r: Result<ObjectId, VcsError>) -> Result<Seq<u8>, ErrorView> {
    match r {
        Ok(id) => Ok(id@),
        Err(e) => Err(e@),
    }
}

/// An error that is passed on as it is.
pub open spec fn other(text: Seq<char>) -> ErrorView {
    ErrorView::Other { text }
}

pub(crate) fn passed_on(text: String) -> (e: VcsError)
    ensures
        e@ == other(text@),
{
    VcsError::Other { text }
}

// What the calls into a repository may answer. ---------------------------------

pub open spec fn realpath_gives<G: Git>(
    git: &G,
    file: Seq<PartView>,
    r: Result<FilePath, String>,
) -> bool {
    exists|p: FilePath| p@ == file && #[trigger] call_ensures(G::realpath, (git, &p), r)
}

pub open spec fn discover_gives<G: Git>(
    git: &G,
    dir: Seq<PartView>,
    r: Result<FilePath, String>,
) -> bool {
    exists|p: FilePath| p@ == dir && #[trigger] call_ensures(G::discover, (git, &p, true), r)
}

pub open spec fn opening_gives<G: Git>(
    git: &G,
    git_dir: Seq<PartView>,
    trust_full: bool,
    r: Result<G::Repo, String>,
) -> bool {
    exists|p: FilePath, windows: bool|
        p@ == git_dir && #[trigger] call_ensures(G::on_windows, (git,), windows)
            && #[trigger] call_ensures(G::open, (git, &p, settings(trust_full, windows)), r)
}

pub open spec fn rev_parse_gives<R: Repository>(
    repo: &R,
    rev: Seq<char>,
    r: Result<ObjectId, String>,
) -> bool {
    exists|s: &str| s@ == rev && #[trigger] call_ensures(R::rev_parse, (repo, s), r)
}

pub open spec fn find_object_gives<R: Repository>(
    repo: &R,
    id: Seq<u8>,
    r: Result<(), String>,
) -> bool {
    exists|i: ObjectId| i@ == id && #[trigger] call_ensures(R::find_object, (repo, &i), r)
}

pub open spec fn peel_gives<R: Repository>(
    repo: &R,
    id: Seq<u8>,
    r: Result<ObjectId, String>,
) -> bool {
    exists|i: ObjectId| i@ == id && #[trigger] call_ensures(R::peel_to_commit, (repo, &i), r)
}

pub open spec fn merge_base_gives<R: Repository>(
    repo: &R,
    one: Seq<u8>,
    two: Seq<u8>,
    r: Result<ObjectId, String>,
) -> bool {
    exists|a: ObjectId, b: ObjectId|
        a@ == one && b@ == two && #[trigger] call_ensures(R::merge_base, (repo, &a, &b), r)
}

pub open spec fn check_commit_gives<R: Repository>(
    repo: &R,
    id: Seq<u8>,
    r: Result<(), String>,
) -> bool {
    exists|i: ObjectId| i@ == id && #[trigger] call_ensures(R::check_commit, (repo, &i), r)
}

pub open spec fn tree_of_gives<R: Repository>(
    repo: &R,
    id: Seq<u8>,
    r: Result<ObjectId, String>,
) -> bool {
    exists|i: ObjectId| i@ == id && #[trigger] call_ensures(R::tree_of, (repo, &i), r)
}

pub open spec fn entry_at_gives<R: Repository>(
    repo: &R,
    commit: Seq<u8>,
    path: Seq<PartView>,
    r: Result<Option<TreeEntry>, String>,
) -> bool {
    exists|i: ObjectId, p: FilePath|
        i@ == commit && p@ == path && #[trigger] call_ensures(R::entry_at, (repo, &i, &p), r)
}

pub open spec fn read_object_gives<R: Repository>(
    repo: &R,
    id: Seq<u8>,
    r: Result<Vec<u8>, String>,
) -> bool {
    exists|i: ObjectId| i@ == id && #[trigger] call_ensures(R::read_object, (repo, &i), r)
}

pub open spec fn to_worktree_gives<R: Repository>(
    repo: &R,
    data: Seq<u8>,
    path: Seq<PartView>,
    r: Result<Vec<u8>, String>,
) -> bool {
    exists|d: Vec<u8>, p: FilePath|
        d@ == data && p@ == path && #[trigger] call_ensures(R::to_worktree, (repo, &d, &p), r)
}

pub open spec fn items_give<R: Repository>(
    repo: &R,
    tree: Option<Seq<u8>>,
    r: Result<Vec<Result<StatusItem, String>>, String>,
) -> bool {
    exists|t: Option<ObjectId>|
        opt_id(t) == tree && #[trigger] call_ensures(R::items, (repo, &t, listing_settings()), r)
}

// What is made of the answers. --------------------------------------------------

/// Opening the repository that a directory is in: it is discovered first.
pub open spec fn repo_gives<G: Git>(
    git: &G,
    dir: Seq<PartView>,
    trust_full: bool,
    out: Result<G::Repo, ErrorView>,
) -> bool {
    exists|found: Result<FilePath, String>| #[trigger]
        discover_gives(git, dir, found) && match found {
            Err(_) => out == Err::<G::Repo, ErrorView>(ErrorView::NotDiscovered),
            Ok(git_dir) => found_repo_gives(git, git_dir@, trust_full, out),
        }
}

/// Opening the repository of a git directory.
pub open spec fn found_repo_gives<G: Git>(
    git: &G,
    git_dir: Seq<PartView>,
    trust_full: bool,
    out: Result<G::Repo, ErrorView>,
) -> bool {
    exists|opened: Result<G::Repo, String>| #[trigger]
        opening_gives(git, git_dir, trust_full, opened) && match opened {
            Ok(repo) => out == Ok::<G::Repo, ErrorView>(repo),
            Err(e) => out == Err::<G::Repo, ErrorView>(other(e@)),
        }
}

/// The commit that a diff is computed against: `HEAD`, or for a revision the
/// merge base of that revision and `HEAD`.
pub open spec fn base_commit_gives<R: Repository>(
    repo: &R,
    rev: Option<Seq<char>>,
    out: Result<Seq<u8>, ErrorView>,
) -> bool {
    exists|head: Result<ObjectId, String>| #[trigger]
        call_ensures(R::head_commit, (repo,), head) && match (head, rev) {
            (Err(e), _) => out == Err::<Seq<u8>, ErrorView>(other(e@)),
            (Ok(head), None) => out == Ok::<Seq<u8>, ErrorView>(head@),
            (Ok(head), Some(rev)) => rev_base_gives(repo, rev, head@, out),
        }
}

/// The merge base of a revision and `HEAD`: the revision is resolved first.
pub open spec fn rev_base_gives<R: Repository>(
    repo: &R,
    rev: Seq<char>,
    head: Seq<u8>,
    out: Result<Seq<u8>, ErrorView>,
) -> bool {
    exists|object: Result<ObjectId, String>| #[trigger]
        rev_parse_gives(repo, rev, object) && match object {
            Err(_) => out == Err::<Seq<u8>, ErrorView>(ErrorView::Unresolved { rev }),
            Ok(object) => named_base_gives(repo, rev, object@, head, out),
        }
}

/// The merge base of an object that a revision names and `HEAD`: the object
/// has to exist.
pub open spec fn named_base_gives<R: Repository>(
    repo: &R,
    rev: Seq<char>,
    object: Seq<u8>,
    head: Seq<u8>,
    out: Result<Seq<u8>, ErrorView>,
) -> bool {
    exists|found: Result<(), String>| #[trigger]
        find_object_gives(repo, object, found) && match found {
            Err(e) => out == Err::<Seq<u8>, ErrorView>(other(e@)),
            Ok(_) => object_base_gives(repo, rev, object, head, out),
        }
}

/// The merge base of an object and `HEAD`: the object has to lead to a commit.
pub open spec fn object_base_gives<R: Repository>(
    repo: &R,
    rev: Seq<char>,
    object: Seq<u8>,
    head: Seq<u8>,
    out: Result<Seq<u8>, ErrorView>,
) -> bool {
    exists|commit: Result<ObjectId, String>| #[trigger]
        peel_gives(repo, object, commit) && match commit {
            Err(_) => out == Err::<Seq<u8>, ErrorView>(ErrorView::NotACommit { rev }),
            Ok(commit) => commits_base_gives(repo, rev, commit@, head, out),
        }
}

/// The merge base of two commits, which has to be a commit.
pub open spec fn commits_base_gives<R: Repository>(
    repo: &R,
    rev: Seq<char>,
    commit: Seq<u8>,
    head: Seq<u8>,
    out: Result<Seq<u8>, ErrorView>,
) -> bool {
    exists|base: Result<ObjectId, String>| #[trigger]
        merge_base_gives(repo, commit, head, base) && match base {
            Err(_) => out == Err::<Seq<u8>, ErrorView>(ErrorView::NoMergeBase { rev }),
            Ok(base) => checked_base_gives(repo, base@, out),
        }
}

/// A merge base that has to be a commit.
pub open spec fn checked_base_gives<R: Repository>(
    repo: &R,
    base: Seq<u8>,
    out: Result<Seq<u8>, ErrorView>,
) -> bool {
    exists|checked: Result<(), String>| #[trigger]
        check_commit_gives(repo, base, checked) && match checked {
            Err(e) => out == Err::<Seq<u8>, ErrorView>(other(e@)),
            Ok(_) => out == Ok::<Seq<u8>, ErrorView>(base),
        }
}

/// The object that an entry of a tree is the file contents of.
pub open spec fn file_of_entry(
    entry: Option<TreeEntry>,
    file: Seq<PartView>,
) -> Result<Seq<u8>, ErrorView> {
    match entry {
        None => Err(ErrorView::Untracked),
        Some(entry) => match entry.kind {
            EntryKind::Tree => Err(ErrorView::NotAFile { path: file, kind: NotFile::Tree }),
            EntryKind::Commit => Err(ErrorView::NotAFile { path: file, kind: NotFile::Commit }),
            EntryKind::Link => Err(ErrorView::NotAFile { path: file, kind: NotFile::Link }),
            _ => Ok(entry.id@),
        },
    }
}

/// The object with the contents of a file at a commit. The file is looked up
/// by its path in the worktree.
pub open spec fn file_gives<R: Repository>(
    repo: &R,
    commit: Seq<u8>,
    file: Seq<PartView>,
    out: Result<Seq<u8>, ErrorView>,
) -> bool {
    exists|dir: Option<FilePath>| #[trigger]
        call_ensures(R::work_dir, (repo,), dir) && match dir {
            None => out == Err::<Seq<u8>, ErrorView>(ErrorView::NoWorktree),
            Some(dir) => match path::stripped(file, dir@) {
                None => out == Err::<Seq<u8>, ErrorView>(ErrorView::OutsideWorktree),
                Some(rel) => file_below_gives(repo, commit, file, rel, out),
            },
        }
}

/// The object with the contents of a file at a commit, given the path of the
/// file below the worktree.
pub open spec fn file_below_gives<R: Repository>(
    repo: &R,
    commit: Seq<u8>,
    file: Seq<PartView>,
    rel: Seq<PartView>,
    out: Result<Seq<u8>, ErrorView>,
) -> bool {
    exists|entry: Result<Option<TreeEntry>, String>| #[trigger]
        entry_at_gives(repo, commit, rel, entry) && out == match entry {
            Err(e) => Err(other(e@)),
            Ok(entry) => file_of_entry(entry, file),
        }
}

/// What git would make of an object's data in the worktree; the data itself
/// where there is none.
pub open spec fn converted_gives<R: Repository>(
    repo: &R,
    data: Seq<u8>,
    file: Seq<PartView>,
    out: Result<Seq<u8>, ErrorView>,
) -> bool {
    exists|dir: Option<FilePath>| #[trigger]
        call_ensures(R::work_dir, (repo,), dir) && match dir {
            None => out == Ok::<Seq<u8>, ErrorView>(data),
            Some(dir) => match path::stripped(file, dir@) {
                None => out == Err::<Seq<u8>, ErrorView>(ErrorView::OutsideWorktree),
                Some(rel) => converted_below_gives(repo, data, rel, out),
            },
        }
}

/// What git would make of an object's data at a path below the worktree.
pub open spec fn converted_below_gives<R: Repository>(
    repo: &R,
    data: Seq<u8>,
    rel: Seq<PartView>,
    out: Result<Seq<u8>, ErrorView>,
) -> bool {
    exists|converted: Result<Vec<u8>, String>| #[trigger]
        to_worktree_gives(repo, data, rel, converted) && match converted {
            Err(e) => out == Err::<Seq<u8>, ErrorView>(other(e@)),
            Ok(bytes) => out == Ok::<Seq<u8>, ErrorView>(bytes@),
        }
}

/// The contents of a file in a repository, as of the base commit.
pub open spec fn base_in_repo_gives<R: Repository>(
    repo: &R,
    file: Seq<PartView>,
    rev: Option<Seq<char>>,
    out: Result<Seq<u8>, ErrorView>,
) -> bool {
    exists|commit: Result<Seq<u8>, ErrorView>| #[trigger]
        base_commit_gives(repo, rev, commit) && match commit {
            Err(e) => out == Err::<Seq<u8>, ErrorView>(e),
            Ok(commit) => contents_at_gives(repo, commit, file, out),
        }
}

/// The contents of a file at a commit.
pub open spec fn contents_at_gives<R: Repository>(
    repo: &R,
    commit: Seq<u8>,
    file: Seq<PartView>,
    out: Result<Seq<u8>, ErrorView>,
) -> bool {
    exists|id: Result<Seq<u8>, ErrorView>| #[trigger]
        file_gives(repo, commit, file, id) && match id {
            Err(e) => out == Err::<Seq<u8>, ErrorView>(e),
            Ok(id) => contents_gives(repo, id, file, out),
        }
}

/// The contents of a file that are the data of an object.
pub open spec fn contents_gives<R: Repository>(
    repo: &R,
    id: Seq<u8>,
    file: Seq<PartView>,
    out: Result<Seq<u8>, ErrorView>,
) -> bool {
    exists|data: Result<Vec<u8>, String>| #[trigger]
        read_object_gives(repo, id, data) && match data {
            Err(e) => out == Err::<Seq<u8>, ErrorView>(other(e@)),
            Ok(data) => converted_gives(repo, data@, file, out),
        }
}

/// Finding the repository of a file: its symbolic links are resolved, and the
/// repository is the one that its directory is in.
pub open spec fn file_repo_gives<G: Git>(
    git: &G,
    file: Seq<PartView>,
    trust_full: bool,
    out: Result<(Seq<PartView>, G::Repo), ErrorView>,
) -> bool {
    exists|resolved: Result<FilePath, String>| #[trigger]
        realpath_gives(git, file, resolved) && match resolved {
            Err(_) => out == Err::<(Seq<PartView>, G::Repo), ErrorView>(
                ErrorView::SymlinksUnresolved,
            ),
            Ok(resolved) => match path::parent_of(resolved@) {
                None => out == Err::<(Seq<PartView>, G::Repo), ErrorView>(ErrorView::NoParent),
                Some(dir) => dir_repo_gives(git, resolved@, dir, trust_full, out),
            },
        }
}

/// Opening the repository of a file, given its directory.
pub open spec fn dir_repo_gives<G: Git>(
    git: &G,
    file: Seq<PartView>,
    dir: Seq<PartView>,
    trust_full: bool,
    out: Result<(Seq<PartView>, G::Repo), ErrorView>,
) -> bool {
    exists|repo: Result<G::Repo, ErrorView>| #[trigger]
        repo_gives(git, dir, trust_full, repo) && match repo {
            Err(_) => out == Err::<(Seq<PartView>, G::Repo), ErrorView>(ErrorView::NotOpened),
            Ok(repo) => out == Ok::<(Seq<PartView>, G::Repo), ErrorView>((file, repo)),
        }
}

/// The contents of a file as of the base commit of a diff.
pub open spec fn diff_base_gives<G: Git>(
    git: &G,
    file: Seq<PartView>,
    rev: Option<Seq<char>>,
    trust_full: bool,
    out: Result<Seq<u8>, ErrorView>,
) -> bool {
    exists|found: Result<(Seq<PartView>, G::Repo), ErrorView>| #[trigger]
        file_repo_gives(git, file, trust_full, found) && match found {
            Err(e) => out == Err::<Seq<u8>, ErrorView>(e),
            Ok((resolved, repo)) => base_in_repo_gives(&repo, resolved, rev, out),
        }
}

/// The directory whose repository a file belongs to.
fn get_repo_dir(file: &FilePath) -> (r: Result<FilePath, VcsError>)
    ensures
        match r {
            Ok(dir) => path::parent_of(file@) == Some(dir@),
            Err(e) => path::parent_of(file@) is None && e@ == ErrorView::NoParent,
        },
{
    match file.parent() {
        Some(dir) => Ok(dir),
        None => Err(VcsError::NoParent),
    }
}

/// A repository as an answer.
pub open spec fn repo_answer<R>(r: Result<R, VcsError>) -> Result<R, ErrorView> {
    match r {
        Ok(repo) => Ok(repo),
        Err(e) => Err(e@),
    }
}

/// Opens the repository that a directory is in, with the trust that the caller
/// decided on.
pub fn open_repo<G: Git>(git: &G, dir: &FilePath, trust_full: bool) -> (r: Result<
    G::Repo,
    VcsError,
>)
    ensures
        repo_gives(git, dir@, trust_full, repo_answer(r)),
{
    let found = git.discover(dir, true);
    assert(discover_gives(git, dir@, found));
    match found {
        Err(_) => Err(VcsError::NotDiscovered),
        Ok(git_dir) => {
            let windows = git.on_windows();
            let opened = git.open(&git_dir, open_settings(trust_full, windows));
            assert(opening_gives(git, git_dir@, trust_full, opened));
            match opened {
                Ok(repo) => Ok(repo),
                Err(e) => Err(passed_on(e)),
            }
        },
    }
}

/// The commit that a diff is computed against: `HEAD`, or for a given revision
/// the merge base of that revision and `HEAD`.
pub fn base_commit<R: Repository>(repo: &R, rev: &Option<String>) -> (r: Result<ObjectId, VcsError>)
    ensures
        base_commit_gives(repo, file_diff::opt_text(*rev), id_answer(r)),
{
    let head = repo.head_commit();
    let head = match head {
        Ok(head) => head,
        Err(e) => {
            return Err(passed_on(e));
        },
    };
    let rev = match rev {
        Some(rev) => rev,
        None => {
            return Ok(head);
        },
    };
    rev_base(repo, rev, &head)
}

/// The merge base of a revision and `HEAD`.
fn rev_base<R: Repository>(repo: &R, rev: &String, head: &ObjectId) -> (r: Result<
    ObjectId,
    VcsError,
>)
    ensures
        rev_base_gives(repo, rev@, head@, id_answer(r)),
{
    let object = repo.rev_parse(rev.as_str());
    assert(rev_parse_gives(repo, rev@, object));
    let object = match object {
        Ok(object) => object,
        Err(_) => {
            return Err(VcsError::Unresolved { rev: rev.clone() });
        },
    };
    let found = repo.find_object(&object);
    assert(find_object_gives(repo, object@, found));
    if let Err(e) = found {
        return Err(passed_on(e));
    }
    object_base(repo, rev, &object, head)
}

/// The merge base of an object that a revision names and `HEAD`.
fn object_base<R: Repository>(repo: &R, rev: &String, object: &ObjectId, head: &ObjectId) -> (r:
    Result<ObjectId, VcsError>)
    ensures
        object_base_gives(repo, rev@, object@, head@, id_answer(r)),
{
    let commit = repo.peel_to_commit(object);
    assert(peel_gives(repo, object@, commit));
    let commit = match commit {
        Ok(commit) => commit,
        Err(_) => {
            return Err(VcsError::NotACommit { rev: rev.clone() });
        },
    };
    let base = repo.merge_base(&commit, head);
    assert(merge_base_gives(repo, commit@, head@, base));
    let base = match base {
        Ok(base) => base,
        Err(_) => {
            return Err(VcsError::NoMergeBase { rev: rev.clone() });
        },
    };
    let checked = repo.check_commit(&base);
    assert(check_commit_gives(repo, base@, checked));
    match checked {
        Ok(_) => Ok(base),
        Err(e) => Err(passed_on(e)),
    }
}

/// Finds the object that contains the contents of a file at a specific commit.
pub fn find_file_in_commit<R: Repository>(repo: &R, commit: &ObjectId, file: &FilePath) -> (r:
    Result<ObjectId, VcsError>)
    ensures
        file_gives(repo, commit@, file@, id_answer(r)),
{
    let dir = repo.work_dir();
    let dir = match dir {
        Some(dir) => dir,
        None => {
            return Err(VcsError::NoWorktree);
        },
    };
    let rel = match file.strip_prefix(&dir) {
        Some(rel) => rel,
        None => {
            return Err(VcsError::OutsideWorktree);
        },
    };
    let entry = repo.entry_at(commit, &rel);
    assert(entry_at_gives(repo, commit@, rel@, entry));
    match entry {
        Err(e) => Err(passed_on(e)),
        Ok(None) => Err(VcsError::Untracked),
        Ok(Some(entry)) => match entry.kind {
            // Not a file: everything is new, no diff is shown.
            EntryKind::Tree => Err(VcsError::NotAFile { path: file.clone(), kind: NotFile::Tree }),
            EntryKind::Commit => Err(
                VcsError::NotAFile { path: file.clone(), kind: NotFile::Commit },
            ),
            EntryKind::Link => Err(VcsError::NotAFile { path: file.clone(), kind: NotFile::Link }),
            _ => Ok(entry.id),
        },
    }
}

/// What git would make of an object's data in the worktree.
fn converted<R: Repository>(repo: &R, data: Vec<u8>, file: &FilePath) -> (r: Result<
    Vec<u8>,
    VcsError,
>)
    ensures
        converted_gives(repo, data@, file@, bytes_answer(r)),
{
    let dir = repo.work_dir();
    match dir {
        None => Ok(data),
        Some(dir) => match file.strip_prefix(&dir) {
            None => Err(VcsError::OutsideWorktree),
            Some(rel) => {
                let bytes = repo.to_worktree(&data, &rel);
                assert(to_worktree_gives(repo, data@, rel@, bytes));
                match bytes {
                    Ok(bytes) => Ok(bytes),
                    Err(e) => Err(passed_on(e)),
                }
            },
        },
    }
}

/// The contents of a file in a repository, as of the base commit.
fn base_in_repo<R: Repository>(repo: &R, file: &FilePath, rev: &Option<String>) -> (r: Result<
    Vec<u8>,
    VcsError,
>)
    ensures
        base_in_repo_gives(repo, file@, file_diff::opt_text(*rev), bytes_answer(r)),
{
    let commit = base_commit(repo, rev);
    let ghost commit_out = id_answer(commit);
    assert(base_commit_gives(repo, file_diff::opt_text(*rev), commit_out));
    let commit = match commit {
        Ok(commit) => commit,
        Err(e) => {
            return Err(e);
        },
    };
    let id = find_file_in_commit(repo, &commit, file);
    let ghost id_out = id_answer(id);
    assert(file_gives(repo, commit@, file@, id_out));
    let id = match id {
        Ok(id) => id,
        Err(e) => {
            return Err(e);
        },
    };
    let data = repo.read_object(&id);
    assert(read_object_gives(repo, id@, data));
    match data {
        Ok(data) => converted(repo, data, file),
        Err(e) => Err(passed_on(e)),
    }
}

/// A file and its repository as an answer.
pub open spec fn file_repo_answer<R>(r: Result<(FilePath, R), VcsError>) -> Result<
    (Seq<PartView>, R),
    ErrorView,
> {
    match r {
        Ok((file, repo)) => Ok((file@, repo)),
        Err(e) => Err(e@),
    }
}

/// Finds the repository of a file, and the file without symbolic links.
fn file_repo<G: Git>(git: &G, file: &FilePath, trust_full: bool) -> (r: Result<
    (FilePath, G::Repo),
    VcsError,
>)
    ensures
        file_repo_gives(git, file@, trust_full, file_repo_answer(r)),
{
    let resolved = git.realpath(file);
    assert(realpath_gives(git, file@, resolved));
    let resolved = match resolved {
        Ok(resolved) => resolved,
        Err(_) => {
            return Err(VcsError::SymlinksUnresolved);
        },
    };
    let dir = match get_repo_dir(&resolved) {
        Ok(dir) => dir,
        Err(e) => {
            return Err(e);
        },
    };
    let repo = open_repo(git, &dir, trust_full);
    let ghost repo_out = repo_answer(repo);
    assert(repo_gives(git, dir@, trust_full, repo_out));
    match repo {
        Ok(repo) => Ok((resolved, repo)),
        Err(_) => Err(VcsError::NotOpened),
    }
}

/// The contents of a file as of the base commit of a diff.
fn get_diff_base_impl<G: Git>(git: &G, file: &FilePath, rev: &Option<String>, trust_full: bool) -> (
r: Result<Vec<u8>, VcsError>)
    ensures
        diff_base_gives(git, file@, file_diff::opt_text(*rev), trust_full, bytes_answer(r)),
{
    let found = file_repo(git, file, trust_full);
    let ghost found_out = file_repo_answer(found);
    assert(file_repo_gives(git, file@, trust_full, found_out));
    match found {
        Ok((resolved, repo)) => base_in_repo(&repo, &resolved, rev),
        Err(e) => Err(e),
    }
}

/// The contents of a file in `HEAD`.
pub fn get_diff_base<G: Git>(git: &G, file: &FilePath, trust_full: bool) -> (r: Result<
    Vec<u8>,
    VcsError,
>)
    ensures
        diff_base_gives(git, file@, None, trust_full, bytes_answer(r)),
{
    get_diff_base_impl(git, file, &None, trust_full)
}

/// Like [`get_diff_base`], but reads the file as of the merge base of `rev`
/// and `HEAD` instead of `HEAD` itself.
pub fn get_diff_base_at<G: Git>(git: &G, file: &FilePath, rev: &str, trust_full: bool) -> (r:
    Result<Vec<u8>, VcsError>)
    ensures
        diff_base_gives(git, file@, Some(rev@), trust_full, bytes_answer(r)),
{
    get_diff_base_impl(git, file, &Some(rev.to_owned()), trust_full)
}

// The name of `HEAD`. -------------------------------------------------------------

/// The short form of the full name of a reference; none if it is no valid full
/// name.
pub uninterp spec fn short_ref_name(full: Seq<u8>) -> Option<Seq<char>>;

/// `FullName::shorten`, after `FullName::try_from` has checked the name, strips
/// the well-known prefixes of a reference name. Of a branch the name of the
/// branch is left.
#[verifier::external_body]
fn shorten_ref(full: &[u8]) -> (r: Option<String>)
    ensures
        file_diff::opt_text(r) == short_ref_name(full@),
        forall|name: Seq<char>|
            r is Some && full@ == #[trigger] utf8::encode_utf8("refs/heads/"@ + name)
                ==> file_diff::opt_text(r) == Some(name),
{
    FullName::try_from(full.as_bstr()).ok().map(|name| name.shorten().to_string())
}

/// The hexadecimal digit `d` as a character.
pub open spec fn hex_digit(d: int) -> char {
    if d < 10 {
        ('0' as int + d) as char
    } else {
        ('a' as int + (d - 10)) as char
    }
}

/// Bytes in hexadecimal, two digits each.
pub open spec fn hex(bytes: Seq<u8>) -> Seq<char>
    decreases bytes.len(),
{
    if bytes.len() == 0 {
        Seq::empty()
    } else {
        hex(bytes.drop_last()).push(hex_digit(bytes.last() as int / 16)).push(
            hex_digit(bytes.last() as int % 16),
        )
    }
}

/// Bytes of an object name that its short form shows.
pub const SHORT_ID_BYTES: usize = 4;

/// The short form of an object name: its first eight digits.
pub open spec fn short_id(id: Seq<u8>) -> Seq<char> {
    hex(id.take(math::min(SHORT_ID_BYTES as int, id.len() as int)))
}

fn hex_char(d: u8) -> (c: char)
    requires
        d < 16,
    ensures
        c == hex_digit(d as int),
{
    if d < 10 {
        (48 + d) as char
    } else {
        (87 + d) as char
    }
}

/// The short form of an object name.
fn shorten_id(id: &ObjectId) -> (out: String)
    ensures
        out@ == short_id(id@),
{
    let n: usize = if id.bytes.len() < SHORT_ID_BYTES {
        id.bytes.len()
    } else {
        SHORT_ID_BYTES
    };
    let mut out = String::new();
    let mut i: usize = 0;
    assert(id@.take(0) =~= Seq::empty());
    while i < n
        invariant
            i <= n <= id@.len(),
            out@ == hex(id@.take(i as int)),
        decreases n - i,
    {
        let byte = id.bytes[i];
        assert(id@.take(i + 1).drop_last() =~= id@.take(i as int));
        out.push(hex_char(byte / 16));
        out.push(hex_char(byte % 16));
        i += 1;
    }
    out
}

/// The name of `HEAD`: the short name of the reference that it is on, or else
/// the short form of its commit.
pub open spec fn head_name(head_ref: Option<Seq<u8>>, head: Seq<u8>) -> Result<Seq<char>, ErrorView> {
    match head_ref {
        Some(full) => match short_ref_name(full) {
            Some(name) => Ok(name),
            None => Err(ErrorView::BadReferenceName),
        },
        None => Ok(short_id(head)),
    }
}

/// A text as an answer.
pub open spec fn text_answer(r: Result<String, VcsError>) -> Result<Seq<char>, ErrorView> {
    match r {
        Ok(text) => Ok(text@),
        Err(e) => Err(e@),
    }
}

/// The name of `HEAD`. On a branch it is the name of the branch.
pub fn name_head(head_ref: &Option<Vec<u8>>, head: &ObjectId) -> (r: Result<String, VcsError>)
    ensures
        text_answer(r) == head_name(
            match *head_ref {
                Some(full) => Some(full@),
                None => None,
            },
            head@,
        ),
        forall|name: Seq<char>|
            r is Ok && head_ref is Some && head_ref.unwrap()@ == #[trigger] utf8::encode_utf8(
                "refs/heads/"@ + name,
            ) ==> text_answer(r) == Ok::<Seq<char>, ErrorView>(name),
{
    match head_ref {
        Some(full) => match shorten_ref(full) {
            Some(name) => Ok(name),
            None => Err(VcsError::BadReferenceName),
        },
        None => Ok(shorten_id(head)),
    }
}

/// The name of `HEAD` in a repository.
pub open spec fn repo_head_gives<R: Repository>(
    repo: &R,
    out: Result<Seq<char>, ErrorView>,
) -> bool {
    exists|head_ref: Result<Option<Vec<u8>>, String>| #[trigger]
        call_ensures(R::head_ref, (repo,), head_ref) && match head_ref {
            Err(e) => out == Err::<Seq<char>, ErrorView>(other(e@)),
            Ok(head_ref) => ref_head_gives(repo, head_ref, out),
        }
}

/// The name of `HEAD` in a repository, given the reference that it is on.
pub open spec fn ref_head_gives<R: Repository>(
    repo: &R,
    head_ref: Option<Vec<u8>>,
    out: Result<Seq<char>, ErrorView>,
) -> bool {
    exists|head: Result<ObjectId, String>| #[trigger]
        call_ensures(R::head_commit, (repo,), head) && match head {
            Err(e) => out == Err::<Seq<char>, ErrorView>(other(e@)),
            Ok(head) => out == head_name(
                match head_ref {
                    Some(full) => Some(full@),
                    None => None,
                },
                head@,
            ),
        }
}

/// The name of `HEAD` in the repository of a file.
pub open spec fn head_name_gives<G: Git>(
    git: &G,
    file: Seq<PartView>,
    trust_full: bool,
    out: Result<Seq<char>, ErrorView>,
) -> bool {
    exists|found: Result<(Seq<PartView>, G::Repo), ErrorView>| #[trigger]
        file_repo_gives(git, file, trust_full, found) && match found {
            Err(e) => out == Err::<Seq<char>, ErrorView>(e),
            Ok((resolved, repo)) => repo_head_gives(&repo, out),
        }
}

/// The name of `HEAD` in the repository of a file.
pub fn get_current_head_name<G: Git>(git: &G, file: &FilePath, trust_full: bool) -> (r: Result<
    String,
    VcsError,
>)
    ensures
        head_name_gives(git, file@, trust_full, text_answer(r)),
{
    let found = file_repo(git, file, trust_full);
    let ghost found_out = file_repo_answer(found);
    assert(file_repo_gives(git, file@, trust_full, found_out));
    match found {
        Ok((_, repo)) => repo_head(&repo),
        Err(e) => Err(e),
    }
}

fn repo_head<R: Repository>(repo: &R) -> (r: Result<String, VcsError>)
    ensures
        repo_head_gives(repo, text_answer(r)),
{
    let head_ref = repo.head_ref();
    let head_ref = match head_ref {
        Ok(head_ref) => head_ref,
        Err(e) => {
            return Err(passed_on(e));
        },
    };
    let head = repo.head_commit();
    let r = match head {
        Ok(head) => name_head(&head_ref, &head),
        Err(e) => Err(passed_on(e)),
    };
    assert(ref_head_gives(repo, head_ref, text_answer(r)));
    r
}

// Changed files. ------------------------------------------------------------------

/// A listing as an answer.
pub open spec fn listing_answer(r: Result<Listing, VcsError>) -> Result<
    Seq<OutcomeView>,
    ErrorView,
> {
    match r {
        Ok(listing) => Ok(listing@),
        Err(e) => Err(e@),
    }
}

/// Listing the differences between the index and the worktree.
pub open spec fn index_listed<R: Repository>(
    repo: &R,
    work_dir: WorkDirView,
    out: Result<Seq<OutcomeView>, ErrorView>,
) -> bool {
    exists|items: Result<Vec<Result<IndexItem, String>>, String>| #[trigger]
        call_ensures(R::index_items, (repo, listing_settings()), items) && out == match items {
            Err(e) => Err(other(e@)),
            Ok(items) => Ok(changes::index_outcomes(work_dir, items@)),
        }
}

/// Listing also the differences between a tree and the index: that of `HEAD`,
/// or a given one.
pub open spec fn tree_listed<R: Repository>(
    repo: &R,
    work_dir: WorkDirView,
    tree: Option<Seq<u8>>,
    out: Result<Seq<OutcomeView>, ErrorView>,
) -> bool {
    exists|items: Result<Vec<Result<StatusItem, String>>, String>| #[trigger]
        items_give(repo, tree, items) && out == match items {
            Err(e) => Err(other(e@)),
            Ok(items) => Ok(changes::status_outcomes(work_dir, items@)),
        }
}

/// Listing the differences from the merge base with a revision. Of a revision
/// that has none, the reason is what is listed, and nothing else is.
pub open spec fn merge_base_listed<R: Repository>(
    repo: &R,
    work_dir: WorkDirView,
    rev: Seq<char>,
    out: Result<Seq<OutcomeView>, ErrorView>,
) -> bool {
    exists|base: Result<Seq<u8>, ErrorView>| #[trigger]
        base_commit_gives(repo, Some(rev), base) && match base {
            Err(e) => out == Ok::<Seq<OutcomeView>, ErrorView>(
                seq![OutcomeView::Report(Err(e))],
            ),
            Ok(base) => base_listed(repo, work_dir, base, out),
        }
}

/// Listing the differences from a commit.
pub open spec fn base_listed<R: Repository>(
    repo: &R,
    work_dir: WorkDirView,
    base: Seq<u8>,
    out: Result<Seq<OutcomeView>, ErrorView>,
) -> bool {
    exists|tree: Result<ObjectId, String>| #[trigger]
        tree_of_gives(repo, base, tree) && match tree {
            Err(e) => out == Err::<Seq<OutcomeView>, ErrorView>(other(e@)),
            Ok(tree) => tree_listed(repo, work_dir, Some(tree@), out),
        }
}

/// Listing the differences of a scope.
pub open spec fn scope_listed<R: Repository>(
    repo: &R,
    work_dir: WorkDirView,
    scope: StatusScope,
    out: Result<Seq<OutcomeView>, ErrorView>,
) -> bool {
    match scope {
        StatusScope::IndexToWorktree => index_listed(repo, work_dir, out),
        StatusScope::HeadToWorktree => tree_listed(repo, work_dir, None, out),
        StatusScope::MergeBaseToWorktree(rev) => merge_base_listed(repo, work_dir, rev@, out),
    }
}

/// Listing the differences of a worktree.
pub open spec fn worktree_listed<R: Repository>(
    repo: &R,
    work_dir: WorkDirView,
    scope: StatusScope,
    out: Result<Seq<OutcomeView>, ErrorView>,
) -> bool {
    exists|started: Result<(), String>| #[trigger]
        call_ensures(R::start_status, (repo,), started) && match started {
            Err(e) => out == Err::<Seq<OutcomeView>, ErrorView>(other(e@)),
            Ok(_) => scope_listed(repo, work_dir, scope, out),
        }
}

/// Listing the differences of a repository, which has to have a worktree.
pub open spec fn status_gives<R: Repository>(
    repo: &R,
    scope: StatusScope,
    windows: bool,
    out: Result<Seq<OutcomeView>, ErrorView>,
) -> bool {
    exists|dir: Option<FilePath>| #[trigger]
        call_ensures(R::work_dir, (repo,), dir) && match dir {
            None => out == Err::<Seq<OutcomeView>, ErrorView>(ErrorView::NoWorkingTree),
            Some(dir) => worktree_listed(
                repo,
                (WorkDirView { path: dir@, windows }),
                scope,
                out,
            ),
        }
}

/// Listing the differences of the repository that a directory is in.
pub open spec fn listing_gives<G: Git>(
    git: &G,
    cwd: Seq<PartView>,
    trust_full: bool,
    scope: StatusScope,
    out: Result<Seq<OutcomeView>, ErrorView>,
) -> bool {
    exists|repo: Result<G::Repo, ErrorView>| #[trigger]
        repo_gives(git, cwd, trust_full, repo) && match repo {
            Err(e) => out == Err::<Seq<OutcomeView>, ErrorView>(e),
            Ok(repo) => repo_listing_gives(git, &repo, scope, out),
        }
}

/// Listing the differences of an open repository.
pub open spec fn repo_listing_gives<G: Git>(
    git: &G,
    repo: &G::Repo,
    scope: StatusScope,
    out: Result<Seq<OutcomeView>, ErrorView>,
) -> bool {
    exists|windows: bool| #[trigger]
        call_ensures(G::on_windows, (git,), windows) && status_gives(repo, scope, windows, out)
}

/// Reporting the changes of the repository that a directory is in. Where they
/// cannot be listed, nothing is reported.
pub open spec fn changed_files_given<G: Git, S, F: Fn(S, Report) -> (S, bool)>(
    git: &G,
    cwd: Seq<PartView>,
    trust_full: bool,
    scope: StatusScope,
    f: F,
    s: S,
    end: S,
    out: Result<(), ErrorView>,
) -> bool {
    exists|listing: Result<Seq<OutcomeView>, ErrorView>| #[trigger]
        listing_gives(git, cwd, trust_full, scope, listing) && match listing {
            Err(e) => end == s && out == Err::<(), ErrorView>(e),
            Ok(listing) => reports::follows(f, listing, 0, true, s, end, out),
        }
}

/// Lists the differences between the index and the worktree.
fn list_index<R: Repository>(repo: &R, work_dir: WorkDir) -> (r: Result<Listing, VcsError>)
    ensures
        index_listed(repo, work_dir@, listing_answer(r)),
{
    let items = repo.index_items(list_settings());
    match items {
        Ok(items) => Ok(Listing::Index { work_dir, index_items: items }),
        Err(e) => Err(passed_on(e)),
    }
}

/// Lists also the differences between a tree and the index.
fn list_tree<R: Repository>(repo: &R, work_dir: WorkDir, tree: &Option<ObjectId>) -> (r: Result<
    Listing,
    VcsError,
>)
    ensures
        tree_listed(repo, work_dir@, opt_id(*tree), listing_answer(r)),
{
    let items = repo.items(tree, list_settings());
    assert(items_give(repo, opt_id(*tree), items));
    match items {
        Ok(items) => Ok(Listing::Tree { work_dir, items }),
        Err(e) => Err(passed_on(e)),
    }
}

/// Lists the differences from the merge base with a revision.
fn list_from_merge_base<R: Repository>(repo: &R, work_dir: WorkDir, rev: &String) -> (r: Result<
    Listing,
    VcsError,
>)
    ensures
        merge_base_listed(repo, work_dir@, rev@, listing_answer(r)),
{
    let base = base_commit(repo, &Some(rev.clone()));
    let ghost base_out = id_answer(base);
    assert(base_commit_gives(repo, Some(rev@), base_out));
    let base = match base {
        Ok(base) => base,
        Err(error) => {
            // Reported rather than returned, so that the message reaches the
            // user instead of a generic one.
            return Ok(Listing::Unresolved { error });
        },
    };
    let tree = repo.tree_of(&base);
    assert(tree_of_gives(repo, base@, tree));
    let r = match tree {
        Ok(tree) => list_tree(repo, work_dir, &Some(tree)),
        Err(e) => Err(passed_on(e)),
    };
    assert(base_listed(repo, work_dir@, base@, listing_answer(r)));
    r
}

/// Lists the differences of a repository.
pub fn status<R: Repository>(repo: &R, scope: &StatusScope, windows: bool) -> (r: Result<
    Listing,
    VcsError,
>)
    ensures
        status_gives(repo, *scope, windows, listing_answer(r)),
{
    let dir = repo.work_dir();
    let work_dir = match dir {
        Some(path) => WorkDir { path, windows },
        None => {
            return Err(VcsError::NoWorkingTree);
        },
    };
    let started = repo.start_status();
    let ghost dir = work_dir@;
    let r = match started {
        Err(e) => Err(passed_on(e)),
        Ok(_) => match scope {
            StatusScope::IndexToWorktree => list_index(repo, work_dir),
            StatusScope::HeadToWorktree => list_tree(repo, work_dir, &None),
            StatusScope::MergeBaseToWorktree(rev) => list_from_merge_base(repo, work_dir, rev),
        },
    };
    assert(worktree_listed(repo, dir, *scope, listing_answer(r)));
    r
}

/// Reports the changed files of the repository that a directory is in, until
/// `f` says to stop. The state is handed from one call of `f` to the next.
pub fn for_each_changed_file<G: Git, S, F: Fn(S, Report) -> (S, bool)>(
    git: &G,
    cwd: &FilePath,
    trust_full: bool,
    scope: &StatusScope,
    state: S,
    f: &F,
) -> (r: (S, Result<(), VcsError>))
    requires
        forall|s: S, report: Report| #[trigger] f.requires((s, report)),
    ensures
        changed_files_given(
            git,
            cwd@,
            trust_full,
            *scope,
            *f,
            state,
            r.0,
            reports::done_answer(r.1),
        ),
{
    let repo = open_repo(git, cwd, trust_full);
    let ghost repo_out = repo_answer(repo);
    assert(repo_gives(git, cwd@, trust_full, repo_out));
    let listing = match repo {
        Ok(repo) => {
            let windows = git.on_windows();
            let listing = status(&repo, scope, windows);
            assert(repo_listing_gives(git, &repo, *scope, listing_answer(listing)));
            listing
        },
        Err(e) => Err(e),
    };
    let ghost listing_out = listing_answer(listing);
    assert(listing_gives(git, cwd@, trust_full, *scope, listing_out));
    match listing {
        Ok(listing) => reports::follow(&listing, state, f),
        Err(e) => (state, Err(e)),
    }
}

} // verus!
