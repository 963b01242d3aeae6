//! Laws of how version control is asked.

use crate::changes::{OutcomeView, StatusItem, WorkDirView};
use crate::git::{
    self, EntryKind, Git, ObjectId, Repository, TreeEntry, Trust, UntrackedFiles,
};
use crate::path::{self, FilePath, PartView};
use crate::reports;
use crate::vcs::{self, DiffProvider, ErrorView, NotFile, Report, StatusScope};
use vstd::prelude::*;
use vstd::string::*;

verus! {

/// A repository is opened as it is found, with the trust that the caller has in
/// it. All configuration is read, that of the git program on Windows only.
pub proof fn law_open_settings(trust_full: bool, windows: bool)
    ensures
        ({
            let settings = git::settings(trust_full, windows);
            &&& settings.trust == Trust::Full <==> trust_full
            &&& settings.open_path_as_is
            &&& settings.config.system && settings.config.git && settings.config.user
            &&& settings.config.env && settings.config.includes
            &&& settings.config.git_binary == windows
        }),
{
}

/// Each untracked file is listed. A file counts as renamed if half of it is the
/// same, never as a copy, as long as there are at most a thousand candidates.
pub proof fn law_listing_settings()
    ensures
        ({
            let settings = git::listing_settings();
            &&& settings.untracked_files == UntrackedFiles::Files
            &&& settings.index_renames == settings.tree_renames
            &&& settings.index_renames.similarity == 50
            &&& settings.index_renames.limit == 1000
            &&& !settings.index_renames.copies && !settings.index_renames.track_empty
        }),
{
}

/// Only a file has contents: a missing entry is untracked, and a directory, a
/// submodule and a symbolic link are told by what they are.
pub proof fn law_entries(entry: TreeEntry, file: Seq<PartView>)
    ensures
        git::file_of_entry(None, file) == Err::<Seq<u8>, ErrorView>(ErrorView::Untracked),
        git::file_of_entry(Some(entry), file) == match entry.kind {
            EntryKind::Blob => Ok(entry.id@),
            EntryKind::BlobExecutable => Ok(entry.id@),
            EntryKind::Tree => Err(ErrorView::NotAFile { path: file, kind: NotFile::Tree }),
            EntryKind::Commit => Err(ErrorView::NotAFile { path: file, kind: NotFile::Commit }),
            EntryKind::Link => Err(ErrorView::NotAFile { path: file, kind: NotFile::Link }),
        },
{
}

/// The value of a hexadecimal digit.
pub open spec fn hex_value(c: char) -> int {
    if '0' <= c && c <= '9' {
        c as int - '0' as int
    } else {
        c as int - 'a' as int + 10
    }
}

/// A hexadecimal digit, in lower case.
pub open spec fn is_hex_digit(c: char) -> bool {
    '0' <= c && c <= '9' || 'a' <= c && c <= 'f'
}

/// The short form of an object name has two hexadecimal digits for each of its
/// first four bytes.
pub proof fn law_short_id(id: Seq<u8>, i: int)
    requires
        id.len() >= 4,
        0 <= i < 4,
    ensures
        ({
            let short = git::short_id(id);
            &&& short.len() == 8
            &&& is_hex_digit(short[2 * i])
            &&& is_hex_digit(short[2 * i + 1])
            &&& 16 * hex_value(short[2 * i]) + hex_value(short[2 * i + 1]) == id[i]
        }),
{
    let first = id.take(4);
    lemma_hex(first, i);
    assert(first[i] == id[i]);
}

proof fn lemma_hex(bytes: Seq<u8>, i: int)
    requires
        0 <= i < bytes.len(),
    ensures
        ({
            let digits = git::hex(bytes);
            &&& digits.len() == 2 * bytes.len()
            &&& is_hex_digit(digits[2 * i])
            &&& is_hex_digit(digits[2 * i + 1])
            &&& 16 * hex_value(digits[2 * i]) + hex_value(digits[2 * i + 1]) == bytes[i]
        }),
    decreases bytes.len(),
{
    let init = bytes.drop_last();
    lemma_hex_len(init);
    if i < init.len() {
        lemma_hex(init, i);
        assert(init[i] == bytes[i]);
        assert(git::hex(bytes)[2 * i] == git::hex(init)[2 * i]);
        assert(git::hex(bytes)[2 * i + 1] == git::hex(init)[2 * i + 1]);
    } else {
        let b = bytes.last() as int;
        assert(b == 16 * (b / 16) + b % 16);
    }
}

proof fn lemma_hex_len(bytes: Seq<u8>)
    ensures
        git::hex(bytes).len() == 2 * bytes.len(),
    decreases bytes.len(),
{
    if bytes.len() > 0 {
        lemma_hex_len(bytes.drop_last());
    }
}

/// The name of the head is the short name of the reference that it is on, or
/// else the short form of its commit.
pub proof fn law_head_name(full: Seq<u8>, head: Seq<u8>)
    ensures
        git::head_name(None, head) == Ok::<Seq<char>, ErrorView>(git::short_id(head)),
        match git::short_ref_name(full) {
            Some(name) => git::head_name(Some(full), head) == Ok::<Seq<char>, ErrorView>(name),
            None => git::head_name(Some(full), head) == Err::<Seq<char>, ErrorView>(
                ErrorView::BadReferenceName,
            ),
        },
{
}

/// The answers on the way to the commit that a diff is computed against.
pub struct BaseSteps {
    pub head: Result<ObjectId, String>,
    pub object: Result<ObjectId, String>,
    pub found: Result<(), String>,
    pub commit: Result<ObjectId, String>,
    pub base: Result<ObjectId, String>,
    pub checked: Result<(), String>,
}

/// The commit that a diff is computed against comes of these steps: `HEAD` is
/// asked for. A revision is resolved, has to exist and to lead to a commit, and
/// this commit and `HEAD` have to have a merge base that is a commit. The first
/// step that fails gives the error, and without a revision `HEAD` is the answer.
pub proof fn law_base_steps<R: Repository>(
    repo: &R,
    rev: Option<Seq<char>>,
    out: Result<Seq<u8>, ErrorView>,
) -> (r: BaseSteps)
    requires
        git::base_commit_gives(repo, rev, out),
    ensures
        call_ensures(R::head_commit, (repo,), r.head),
        r.head matches Err(e) ==> out == Err::<Seq<u8>, ErrorView>(ErrorView::Other { text: e@ }),
        r.head is Ok && rev is None ==> out == Ok::<Seq<u8>, ErrorView>(r.head->Ok_0@),
        r.head is Ok && rev is Some ==> rev_steps(
            repo,
            rev->Some_0,
            r.head->Ok_0@,
            r.object,
            r.found,
            r.commit,
            r.base,
            r.checked,
            out,
        ),
{
    let head = choose|head: Result<ObjectId, String>| #[trigger]
        call_ensures(R::head_commit, (repo,), head) && match (head, rev) {
            (Err(e), _) => out == Err::<Seq<u8>, ErrorView>(git::other(e@)),
            (Ok(head), None) => out == Ok::<Seq<u8>, ErrorView>(head@),
            (Ok(head), Some(rev)) => git::rev_base_gives(repo, rev, head@, out),
        };
    let mut r = BaseSteps {
        head,
        object: head,
        found: Ok(()),
        commit: head,
        base: head,
        checked: Ok(()),
    };
    if head is Ok && rev is Some {
        let h = head->Ok_0@;
        let rev = rev->Some_0;
        let object = choose|object: Result<ObjectId, String>| #[trigger]
            git::rev_parse_gives(repo, rev, object) && match object {
                Err(_) => out == Err::<Seq<u8>, ErrorView>(ErrorView::Unresolved { rev }),
                Ok(object) => git::named_base_gives(repo, rev, object@, h, out),
            };
        r.object = object;
        if object is Ok {
            let o = object->Ok_0@;
            let found = choose|found: Result<(), String>| #[trigger]
                git::find_object_gives(repo, o, found) && match found {
                    Err(e) => out == Err::<Seq<u8>, ErrorView>(git::other(e@)),
                    Ok(_) => git::object_base_gives(repo, rev, o, h, out),
                };
            r.found = found;
            if found is Ok {
                let commit = choose|commit: Result<ObjectId, String>| #[trigger]
                    git::peel_gives(repo, o, commit) && match commit {
                        Err(_) => out == Err::<Seq<u8>, ErrorView>(ErrorView::NotACommit { rev }),
                        Ok(commit) => git::commits_base_gives(repo, rev, commit@, h, out),
                    };
                r.commit = commit;
                if commit is Ok {
                    let c = commit->Ok_0@;
                    let base = choose|base: Result<ObjectId, String>| #[trigger]
                        git::merge_base_gives(repo, c, h, base) && match base {
                            Err(_) => out == Err::<Seq<u8>, ErrorView>(
                                ErrorView::NoMergeBase { rev },
                            ),
                            Ok(base) => git::checked_base_gives(repo, base@, out),
                        };
                    r.base = base;
                    if base is Ok {
                        let b = base->Ok_0@;
                        let checked = choose|checked: Result<(), String>| #[trigger]
                            git::check_commit_gives(repo, b, checked) && match checked {
                                Err(e) => out == Err::<Seq<u8>, ErrorView>(git::other(e@)),
                                Ok(_) => out == Ok::<Seq<u8>, ErrorView>(b),
                            };
                        r.checked = checked;
                    }
                }
            }
        }
    }
    r
}

/// The steps from a revision to the merge base with `HEAD`.
pub open spec fn rev_steps<R: Repository>(
    repo: &R,
    rev: Seq<char>,
    head: Seq<u8>,
    object: Result<ObjectId, String>,
    found: Result<(), String>,
    commit: Result<ObjectId, String>,
    base: Result<ObjectId, String>,
    checked: Result<(), String>,
    out: Result<Seq<u8>, ErrorView>,
) -> bool {
    &&& git::rev_parse_gives(repo, rev, object)
    &&& match object {
        Err(_) => out == Err::<Seq<u8>, ErrorView>(ErrorView::Unresolved { rev }),
        Ok(o) => {
            &&& git::find_object_gives(repo, o@, found)
            &&& match found {
                Err(e) => out == Err::<Seq<u8>, ErrorView>(ErrorView::Other { text: e@ }),
                Ok(_) => {
                    &&& git::peel_gives(repo, o@, commit)
                    &&& match commit {
                        Err(_) => out == Err::<Seq<u8>, ErrorView>(ErrorView::NotACommit { rev }),
                        Ok(c) => {
                            &&& git::merge_base_gives(repo, c@, head, base)
                            &&& match base {
                                Err(_) => out == Err::<Seq<u8>, ErrorView>(
                                    ErrorView::NoMergeBase { rev },
                                ),
                                Ok(b) => {
                                    &&& git::check_commit_gives(repo, b@, checked)
                                    &&& match checked {
                                        Err(e) => out == Err::<Seq<u8>, ErrorView>(
                                            ErrorView::Other { text: e@ },
                                        ),
                                        Ok(_) => out == Ok::<Seq<u8>, ErrorView>(b@),
                                    }
                                },
                            }
                        },
                    }
                },
            }
        },
    }
}

/// The contents of a file at a commit come of these steps: the entry of the
/// commit is looked up by the path of the file below the worktree, its object is
/// read, and the data is converted as git would for a checkout at that path.
pub proof fn law_contents_steps<R: Repository>(
    repo: &R,
    commit: Seq<u8>,
    file: Seq<PartView>,
    bytes: Seq<u8>,
) -> (r: (FilePath, TreeEntry, Vec<u8>))
    requires
        git::contents_at_gives(repo, commit, file, Ok(bytes)),
    ensures
        call_ensures(R::work_dir, (repo,), Some(r.0)),
        path::stripped(file, r.0@) matches Some(below) && git::entry_at_gives(
            repo,
            commit,
            below,
            Ok(Some(r.1)),
        ),
        r.1.kind is Blob || r.1.kind is BlobExecutable,
        git::read_object_gives(repo, r.1.id@, Ok(r.2)),
        git::converted_gives(repo, r.2@, file, Ok(bytes)),
{
    let id = choose|id: Result<Seq<u8>, ErrorView>| #[trigger]
        git::file_gives(repo, commit, file, id) && match id {
            Err(e) => false,
            Ok(id) => git::contents_gives(repo, id, file, Ok(bytes)),
        };
    let dir = choose|dir: Option<FilePath>| #[trigger]
        call_ensures(R::work_dir, (repo,), dir) && match dir {
            None => id == Err::<Seq<u8>, ErrorView>(ErrorView::NoWorktree),
            Some(dir) => match path::stripped(file, dir@) {
                None => id == Err::<Seq<u8>, ErrorView>(ErrorView::OutsideWorktree),
                Some(rel) => git::file_below_gives(repo, commit, file, rel, id),
            },
        };
    let dir = dir->Some_0;
    let rel = path::stripped(file, dir@)->Some_0;
    let entry = choose|entry: Result<Option<TreeEntry>, String>| #[trigger]
        git::entry_at_gives(repo, commit, rel, entry) && id == match entry {
            Err(e) => Err(git::other(e@)),
            Ok(entry) => git::file_of_entry(entry, file),
        };
    let entry = entry->Ok_0->Some_0;
    assert(git::entry_at_gives(repo, commit, rel, Ok(Some(entry))));
    let data = choose|data: Result<Vec<u8>, String>| #[trigger]
        git::read_object_gives(repo, id->Ok_0, data) && match data {
            Err(e) => false,
            Ok(data) => git::converted_gives(repo, data@, file, Ok(bytes)),
        };
    let data = data->Ok_0;
    assert(git::read_object_gives(repo, entry.id@, Ok(data)));
    (dir, entry, data)
}

/// Data is converted as for a checkout at the path of the file below the
/// worktree, and stays as it is where there is no worktree.
pub proof fn law_conversion<R: Repository>(
    repo: &R,
    data: Seq<u8>,
    file: Seq<PartView>,
    bytes: Seq<u8>,
) -> (dir: Option<FilePath>)
    requires
        git::converted_gives(repo, data, file, Ok(bytes)),
    ensures
        call_ensures(R::work_dir, (repo,), dir),
        match dir {
            None => bytes == data,
            Some(dir) => path::stripped(file, dir@) matches Some(below) && exists|r: Vec<u8>|
                r@ == bytes && #[trigger] git::to_worktree_gives(repo, data, below, Ok(r)),
        },
{
    let dir = choose|dir: Option<FilePath>| #[trigger]
        call_ensures(R::work_dir, (repo,), dir) && match dir {
            None => Ok::<Seq<u8>, ErrorView>(bytes) == Ok::<Seq<u8>, ErrorView>(data),
            Some(dir) => match path::stripped(file, dir@) {
                None => false,
                Some(rel) => git::converted_below_gives(repo, data, rel, Ok(bytes)),
            },
        };
    if let Some(d) = dir {
        let rel = path::stripped(file, d@)->Some_0;
        let converted = choose|converted: Result<Vec<u8>, String>| #[trigger]
            git::to_worktree_gives(repo, data, rel, converted) && match converted {
                Err(e) => false,
                Ok(r) => bytes == r@,
            };
        assert(git::to_worktree_gives(repo, data, rel, Ok(converted->Ok_0)));
    }
    dir
}

/// The repository of a file is the one that the directory of the file is in,
/// once its symbolic links are resolved.
pub proof fn law_repository_of_file<G: Git>(
    git: &G,
    file: Seq<PartView>,
    trust_full: bool,
    resolved: Seq<PartView>,
    repo: G::Repo,
)
    requires
        git::file_repo_gives(git, file, trust_full, Ok((resolved, repo))),
    ensures
        exists|p: FilePath| p@ == resolved && #[trigger] git::realpath_gives(git, file, Ok(p)),
        path::parent_of(resolved) matches Some(dir) && git::repo_gives(
            git,
            dir,
            trust_full,
            Ok(repo),
        ),
{
    let answer = choose|answer: Result<FilePath, String>| #[trigger]
        git::realpath_gives(git, file, answer) && match answer {
            Err(_) => false,
            Ok(p) => match path::parent_of(p@) {
                None => false,
                Some(dir) => git::dir_repo_gives(git, p@, dir, trust_full, Ok((resolved, repo))),
            },
        };
    let p = answer->Ok_0;
    let dir = path::parent_of(p@)->Some_0;
    let opened = choose|opened: Result<G::Repo, ErrorView>| #[trigger]
        git::repo_gives(git, dir, trust_full, opened) && match opened {
            Err(_) => false,
            Ok(r) => Ok::<(Seq<PartView>, G::Repo), ErrorView>((resolved, repo)) == Ok::<
                (Seq<PartView>, G::Repo),
                ErrorView,
            >((p@, r)),
        };
    assert(p@ == resolved);
    assert(git::realpath_gives(git, file, Ok(p)));
}

/// Opening a repository: its `.git` directory is found first, and opened with
/// the settings for the trust that the caller has in it.
pub proof fn law_opening<G: Git>(
    git: &G,
    dir: Seq<PartView>,
    trust_full: bool,
    out: Result<G::Repo, ErrorView>,
) -> (r: (Result<FilePath, String>, Result<G::Repo, String>))
    requires
        git::repo_gives(git, dir, trust_full, out),
    ensures
        exists|p: FilePath|
            p@ == dir && #[trigger] call_ensures(G::discover, (git, &p, true), r.0),
        r.0 is Err ==> out == Err::<G::Repo, ErrorView>(ErrorView::NotDiscovered),
        r.0 matches Ok(found) ==> {
            &&& exists|p: FilePath, windows: bool|
                p@ == found@ && #[trigger] call_ensures(G::on_windows, (git,), windows)
                    && #[trigger] call_ensures(
                    G::open,
                    (git, &p, git::settings(trust_full, windows)),
                    r.1,
                )
            &&& match r.1 {
                Ok(repo) => out == Ok::<G::Repo, ErrorView>(repo),
                Err(e) => out == Err::<G::Repo, ErrorView>(ErrorView::Other { text: e@ }),
            }
        },
{
    let found = choose|found: Result<FilePath, String>| #[trigger]
        git::discover_gives(git, dir, found) && match found {
            Err(_) => out == Err::<G::Repo, ErrorView>(ErrorView::NotDiscovered),
            Ok(git_dir) => git::found_repo_gives(git, git_dir@, trust_full, out),
        };
    let opened = if found is Ok {
        choose|opened: Result<G::Repo, String>| #[trigger]
            git::opening_gives(git, found->Ok_0@, trust_full, opened) && match opened {
                Ok(repo) => out == Ok::<G::Repo, ErrorView>(repo),
                Err(e) => out == Err::<G::Repo, ErrorView>(git::other(e@)),
            }
    } else {
        arbitrary()
    };
    (found, opened)
}

/// With the default providers, the name of the head is what git has, and there
/// is none where git has none.
pub proof fn law_default_head_name_is_that_of_git<G: Git>(
    git: &G,
    file: Seq<PartView>,
    trust_full: bool,
    out: Option<Seq<char>>,
)
    requires
        vcs::first_head_name_gives(
            seq![DiffProvider::Git, DiffProvider::Absent],
            git,
            file,
            trust_full,
            out,
        ),
    ensures
        exists|r: Result<Seq<char>, ErrorView>| #[trigger]
            git::head_name_gives(git, file, trust_full, r) && out == match r {
                Ok(name) => Some(name),
                Err(_) => None,
            },
{
    let both = seq![DiffProvider::Git, DiffProvider::Absent];
    let second = both.drop_first();
    assert(second =~= seq![DiffProvider::Absent]);
    assert(second.drop_first() =~= Seq::<DiffProvider>::empty());
    let r = choose|r: Result<Seq<char>, ErrorView>| #[trigger]
        both[0].head_name_gives(git, file, trust_full, r) && match r {
            Ok(name) => out == Some(name),
            Err(_) => vcs::first_head_name_gives(second, git, file, trust_full, out),
        };
    assert(git::head_name_gives(git, file, trust_full, r));
    if r is Err {
        let s = choose|s: Result<Seq<char>, ErrorView>| #[trigger]
            second[0].head_name_gives(git, file, trust_full, s) && match s {
                Ok(name) => out == Some(name),
                Err(_) => vcs::first_head_name_gives(
                    second.drop_first(),
                    git,
                    file,
                    trust_full,
                    out,
                ),
            };
        assert(s is Err);
    }
}

/// With the default providers, the changed files that are reported are those of
/// git. Where git cannot list them, this is reported once, as an error.
pub proof fn law_default_listing_is_that_of_git<G: Git, S, F: Fn(S, Report) -> (S, bool)>(
    git: &G,
    cwd: Seq<PartView>,
    trust_full: bool,
    scope: StatusScope,
    f: F,
    s: S,
    end: S,
) -> (r: (S, Result<(), ErrorView>))
    requires
        vcs::first_listing_given(
            seq![DiffProvider::Git, DiffProvider::Absent],
            git,
            cwd,
            trust_full,
            scope,
            f,
            s,
            end,
        ),
    ensures
        git::changed_files_given(git, cwd, trust_full, scope, f, s, r.0, r.1),
        r.1 is Ok ==> end == r.0,
        r.1 is Err ==> exists|more: bool| #[trigger]
            reports::answered(f, r.0, Err(ErrorView::NoProvider), end, more),
{
    let both = seq![DiffProvider::Git, DiffProvider::Absent];
    let second = both.drop_first();
    assert(second =~= seq![DiffProvider::Absent]);
    assert(second.drop_first() =~= Seq::<DiffProvider>::empty());
    let (mid, r) = choose|mid: S, r: Result<(), ErrorView>| #[trigger]
        both[0].changed_files_given(git, cwd, trust_full, scope, f, s, mid, r) && match r {
            Ok(_) => end == mid,
            Err(_) => vcs::first_listing_given(
                second,
                git,
                cwd,
                trust_full,
                scope,
                f,
                mid,
                end,
            ),
        };
    assert(git::changed_files_given(git, cwd, trust_full, scope, f, s, mid, r));
    if r is Err {
        let (last, t) = choose|last: S, t: Result<(), ErrorView>| #[trigger]
            second[0].changed_files_given(git, cwd, trust_full, scope, f, mid, last, t) && match t {
                Ok(_) => end == last,
                Err(_) => vcs::first_listing_given(
                    second.drop_first(),
                    git,
                    cwd,
                    trust_full,
                    scope,
                    f,
                    last,
                    end,
                ),
            };
        assert(t is Err && last == mid);
        assert(vcs::first_listing_given(
            second.drop_first(),
            git,
            cwd,
            trust_full,
            scope,
            f,
            mid,
            end,
        ));
    }
    (mid, r)
}

/// Of a revision with a merge base, the differences from the tree of that commit
/// are listed.
pub proof fn law_merge_base_listing<R: Repository>(
    repo: &R,
    work_dir: WorkDirView,
    rev: Seq<char>,
    listing: Seq<OutcomeView>,
) -> (base: Result<Seq<u8>, ErrorView>)
    requires
        git::merge_base_listed(repo, work_dir, rev, Ok(listing)),
    ensures
        git::base_commit_gives(repo, Some(rev), base),
        base matches Err(e) ==> listing == seq![OutcomeView::Report(Err(e))],
        base matches Ok(base) ==> exists|tree: ObjectId| #[trigger]
            git::tree_of_gives(repo, base, Ok(tree)) && git::tree_listed(
                repo,
                work_dir,
                Some(tree@),
                Ok(listing),
            ),
{
    let base = choose|base: Result<Seq<u8>, ErrorView>| #[trigger]
        git::base_commit_gives(repo, Some(rev), base) && match base {
            Err(e) => listing == seq![OutcomeView::Report(Err(e))],
            Ok(base) => git::base_listed(repo, work_dir, base, Ok(listing)),
        };
    if let Ok(b) = base {
        let tree = choose|tree: Result<ObjectId, String>| #[trigger]
            git::tree_of_gives(repo, b, tree) && match tree {
                Err(e) => false,
                Ok(tree) => git::tree_listed(repo, work_dir, Some(tree@), Ok(listing)),
            };
        assert(git::tree_of_gives(repo, b, Ok(tree->Ok_0)));
    }
    base
}

/// The texts of the errors.
pub proof fn law_messages(rev: Seq<char>, path: Seq<PartView>)
    ensures
        ErrorView::NoSupport.message() == "No diff support compiled in"@,
        ErrorView::NoProvider.message() == "no diff provider returns success"@,
        ErrorView::SymlinksUnresolved.message() == "resolve symlinks"@,
        ErrorView::NoParent.message() == "file has no parent directory"@,
        ErrorView::NotDiscovered.message() == "failed to discover git repo"@,
        ErrorView::NotOpened.message() == "failed to open git repo"@,
        (ErrorView::Unresolved { rev }).message() == "cannot resolve revision '"@ + rev + "'"@,
        (ErrorView::NotACommit { rev }).message() == "revision '"@ + rev
            + "' does not point to a commit"@,
        (ErrorView::NoMergeBase { rev }).message() == "no merge base between '"@ + rev
            + "' and HEAD"@,
        ErrorView::NoWorktree.message() == "repo has no worktree"@,
        ErrorView::NoWorkingTree.message() == "working tree not found"@,
        ErrorView::Untracked.message() == "file is untracked"@,
        (ErrorView::Other { text: rev }).message() == rev,
        (ErrorView::NotAFile { path, kind: NotFile::Tree }).message() == "entry at "@
            + path::path_text(path) + " is not a file but a "@ + "Tree"@,
        (ErrorView::NotAFile { path, kind: NotFile::Commit }).message() == "entry at "@
            + path::path_text(path) + " is not a file but a "@ + "Commit"@,
        (ErrorView::NotAFile { path, kind: NotFile::Link }).message() == "entry at "@
            + path::path_text(path) + " is not a file but a "@ + "Link"@,
{
}

/// What is handed to a repository where a diff is looked up: the revision, the
/// object that it names, the commit that this leads to and the head, in this
/// order, the commit that was found, and the path and the data of the file.
pub proof fn law_calls_for_a_base<R: Repository>(
    repo: &R,
    rev: Seq<char>,
    one: Seq<u8>,
    two: Seq<u8>,
    path: Seq<PartView>,
)
    ensures
        forall|r: Result<ObjectId, String>| #[trigger]
            git::rev_parse_gives(repo, rev, r) ==> exists|s: &str|
                s@ == rev && #[trigger] call_ensures(R::rev_parse, (repo, s), r),
        forall|r: Result<(), String>| #[trigger]
            git::find_object_gives(repo, one, r) ==> exists|a: ObjectId|
                a@ == one && #[trigger] call_ensures(R::find_object, (repo, &a), r),
        forall|r: Result<ObjectId, String>| #[trigger]
            git::peel_gives(repo, one, r) ==> exists|a: ObjectId|
                a@ == one && #[trigger] call_ensures(R::peel_to_commit, (repo, &a), r),
        forall|r: Result<ObjectId, String>| #[trigger]
            git::merge_base_gives(repo, one, two, r) ==> exists|a: ObjectId, b: ObjectId|
                a@ == one && b@ == two && #[trigger] call_ensures(R::merge_base, (repo, &a, &b), r),
        forall|r: Result<(), String>| #[trigger]
            git::check_commit_gives(repo, one, r) ==> exists|a: ObjectId|
                a@ == one && #[trigger] call_ensures(R::check_commit, (repo, &a), r),
        forall|r: Result<ObjectId, String>| #[trigger]
            git::tree_of_gives(repo, one, r) ==> exists|a: ObjectId|
                a@ == one && #[trigger] call_ensures(R::tree_of, (repo, &a), r),
        forall|r: Result<Option<TreeEntry>, String>| #[trigger]
            git::entry_at_gives(repo, one, path, r) ==> exists|a: ObjectId, p: FilePath|
                a@ == one && p@ == path && #[trigger] call_ensures(R::entry_at, (repo, &a, &p), r),
        forall|r: Result<Vec<u8>, String>| #[trigger]
            git::read_object_gives(repo, one, r) ==> exists|a: ObjectId|
                a@ == one && #[trigger] call_ensures(R::read_object, (repo, &a), r),
        forall|r: Result<Vec<u8>, String>| #[trigger]
            git::to_worktree_gives(repo, one, path, r) ==> exists|d: Vec<u8>, p: FilePath|
                d@ == one && p@ == path && #[trigger] call_ensures(
                    R::to_worktree,
                    (repo, &d, &p),
                    r,
                ),
{
}

/// What is handed to a repository where differences are listed: the tree, if one
/// is given, and the settings of every listing.
pub proof fn law_calls_for_a_listing<R: Repository>(repo: &R, tree: Seq<u8>)
    ensures
        forall|r: Result<Vec<Result<StatusItem, String>>, String>| #[trigger]
            git::items_give(repo, Some(tree), r) ==> exists|t: ObjectId|
                t@ == tree && #[trigger] call_ensures(
                    R::items,
                    (repo, &Some(t), git::listing_settings()),
                    r,
                ),
        forall|r: Result<Vec<Result<StatusItem, String>>, String>| #[trigger]
            git::items_give(repo, None, r) ==> call_ensures(
                R::items,
                (repo, &None, git::listing_settings()),
                r,
            ),
{
    assert forall|r: Result<Vec<Result<StatusItem, String>>, String>| #[trigger]
        git::items_give(repo, Some(tree), r) implies exists|t: ObjectId|
        t@ == tree && #[trigger] call_ensures(
            R::items,
            (repo, &Some(t), git::listing_settings()),
            r,
        ) by {
        let given = choose|t: Option<ObjectId>|
            git::opt_id(t) == Some(tree) && #[trigger] call_ensures(
                R::items,
                (repo, &t, git::listing_settings()),
                r,
            );
        let t = given->Some_0;
        assert(given == Some(t));
        assert(call_ensures(R::items, (repo, &Some(t), git::listing_settings()), r));
    }
}

} // verus!
