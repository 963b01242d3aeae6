use std::cell::RefCell;
use std::path::Path;

use diff_viewer::changes::{
    index_worktree_change, tree_index_change, EntryStatus, IndexItem, Listing, StatusItem, TreeItem,
    WorkDir,
};
use diff_viewer::gather::read_base;
use diff_viewer::git::{
    for_each_changed_file, get_current_head_name, get_diff_base, get_diff_base_at, list_settings,
    name_head, open_settings, status, EntryKind, Git, ListSettings, ObjectId, OpenSettings,
    RenameSettings, Repository, TreeEntry, Trust, UntrackedFiles,
};
use diff_viewer::path::{Component, FilePath, PathPart};
use diff_viewer::reports::{follow, next_step, Step};
use diff_viewer::status::FileChange;
use diff_viewer::vcs::{DiffProviderRegistry, NotFile, Report, StatusScope, VcsError};

/// The path that a text spells.
fn spelled(text: &str) -> FilePath {
    let bytes = text.as_bytes();
    let mut components = Path::new(text).components();
    let mut rest = components.as_path().as_os_str().len();
    let mut start = 0;
    let mut parts: Vec<PathPart> = Vec::new();
    while let Some(component) = components.next() {
        let left = components.as_path().as_os_str().len();
        let piece = &bytes[start..start + rest - left];
        let name = component.as_os_str().as_encoded_bytes().to_vec();
        let own = name.len().min(piece.len());
        parts.push(PathPart {
            component: match component {
                std::path::Component::Prefix(_) => Component::Prefix(name),
                std::path::Component::RootDir => Component::Root,
                std::path::Component::CurDir => Component::Current,
                std::path::Component::ParentDir => Component::Parent,
                std::path::Component::Normal(_) => Component::Name(name),
            },
            text: piece[..own].to_vec(),
            gap: piece[own..].to_vec(),
        });
        start += rest - left;
        rest = left;
    }
    if let Some(last) = parts.last_mut() {
        last.gap.extend_from_slice(&bytes[start..]);
    }
    FilePath { parts }
}

fn abs(names: &[&str]) -> FilePath {
    spelled(&format!("/{}", names.join("/")))
}

fn rel(names: &[&str]) -> FilePath {
    spelled(&names.join("/"))
}

fn id(byte: u8) -> ObjectId {
    ObjectId { bytes: vec![byte, 0xab, 0x0c, 0xd1, byte] }
}

const HEAD: u8 = 1;
const TAG: u8 = 2;
const BRANCH: u8 = 3;
const BASE: u8 = 4;
const TREE: u8 = 5;
const FILE: u8 = 6;
const ORPHAN: u8 = 7;

/// A repository at `/work`, with one thing broken on demand.
struct Fake {
    broken: &'static str,
    opened: RefCell<Vec<OpenSettings>>,
}

fn fake(broken: &'static str) -> Fake {
    Fake { broken, opened: RefCell::new(Vec::new()) }
}

struct FakeRepo {
    broken: &'static str,
    settings: OpenSettings,
}

impl Fake {
    fn check(&self, call: &'static str) -> Result<(), String> {
        check(self.broken, call)
    }
}

fn check(broken: &'static str, call: &'static str) -> Result<(), String> {
    if broken == call {
        Err(format!("{} broke", call))
    } else {
        Ok(())
    }
}

fn copy(path: &FilePath) -> FilePath {
    path.clone()
}

impl Git for Fake {
    type Repo = FakeRepo;

    fn realpath(&self, file: &FilePath) -> Result<FilePath, String> {
        self.check("realpath")?;
        if *file == abs(&["link"]) {
            return Ok(abs(&["work", "src", "a.rs"]));
        }
        Ok(copy(file))
    }

    fn discover(&self, dir: &FilePath, dot_git_only: bool) -> Result<FilePath, String> {
        assert!(dot_git_only);
        self.check("discover")?;
        Ok(dir.join(&rel(&[".git"]), false))
    }

    fn open(&self, _git_dir: &FilePath, settings: OpenSettings) -> Result<FakeRepo, String> {
        self.check("open")?;
        self.opened.borrow_mut().push(settings);
        Ok(FakeRepo { broken: self.broken, settings })
    }

    fn on_windows(&self) -> bool {
        false
    }
}

impl Repository for FakeRepo {
    fn head_commit(&self) -> Result<ObjectId, String> {
        check(self.broken, "head")?;
        Ok(id(HEAD))
    }

    fn head_ref(&self) -> Result<Option<Vec<u8>>, String> {
        check(self.broken, "ref")?;
        if self.broken == "detached" {
            return Ok(None);
        }
        Ok(Some(b"refs/heads/topic/one".to_vec()))
    }

    fn rev_parse(&self, rev: &str) -> Result<ObjectId, String> {
        match rev {
            "v1" => Ok(id(TAG)),
            "HEAD" => Ok(id(HEAD)),
            "orphan" => Ok(id(ORPHAN)),
            "tree" => Ok(id(TREE)),
            "lost" => Ok(id(99)),
            _ => Err("no such revision".to_string()),
        }
    }

    fn find_object(&self, object: &ObjectId) -> Result<(), String> {
        if object.bytes[0] == 99 {
            return Err("object is lost".to_string());
        }
        Ok(())
    }

    fn peel_to_commit(&self, object: &ObjectId) -> Result<ObjectId, String> {
        match object.bytes[0] {
            TAG => Ok(id(BRANCH)),
            HEAD => Ok(id(HEAD)),
            ORPHAN => Ok(id(ORPHAN)),
            _ => Err("not a commit".to_string()),
        }
    }

    fn merge_base(&self, one: &ObjectId, two: &ObjectId) -> Result<ObjectId, String> {
        assert_eq!(two.bytes[0], HEAD);
        match one.bytes[0] {
            BRANCH => Ok(id(BASE)),
            HEAD => Ok(id(HEAD)),
            _ => Err("nothing in common".to_string()),
        }
    }

    fn check_commit(&self, _id: &ObjectId) -> Result<(), String> {
        check(self.broken, "commit")
    }

    fn work_dir(&self) -> Option<FilePath> {
        if self.broken == "bare" {
            None
        } else {
            Some(abs(&["work"]))
        }
    }

    fn tree_of(&self, commit: &ObjectId) -> Result<ObjectId, String> {
        check(self.broken, "tree")?;
        assert_eq!(commit.bytes[0], BASE);
        Ok(id(TREE))
    }

    fn entry_at(&self, commit: &ObjectId, path: &FilePath) -> Result<Option<TreeEntry>, String> {
        check(self.broken, "entry")?;
        let kind = match self.broken {
            "a tree" => EntryKind::Tree,
            "a commit" => EntryKind::Commit,
            "a link" => EntryKind::Link,
            "a program" => EntryKind::BlobExecutable,
            _ => EntryKind::Blob,
        };
        if *path != rel(&["src", "a.rs"]) {
            return Ok(None);
        }
        Ok(Some(TreeEntry { kind, id: id(FILE + commit.bytes[0]) }))
    }

    fn read_object(&self, object: &ObjectId) -> Result<Vec<u8>, String> {
        check(self.broken, "read")?;
        Ok(vec![b'#', b'0' + object.bytes[0] - FILE])
    }

    fn to_worktree(&self, data: &Vec<u8>, path: &FilePath) -> Result<Vec<u8>, String> {
        check(self.broken, "filter")?;
        assert_eq!(*path, rel(&["src", "a.rs"]));
        let mut out = data.clone();
        out.extend_from_slice(b"\r\n");
        Ok(out)
    }

    fn start_status(&self) -> Result<(), String> {
        check(self.broken, "start")
    }

    fn index_items(
        &self,
        settings: ListSettings,
    ) -> Result<Vec<Result<IndexItem, String>>, String> {
        check(self.broken, "items")?;
        assert_eq!(self.settings.trust, Trust::Reduced);
        assert_eq!(settings, list_settings());
        let mut items = index_items();
        if self.broken == "path" {
            items.push(Ok(IndexItem::Rewrite {
                source: Err("bad path".to_string()),
                path: Ok(rel(&["p"])),
            }));
        }
        items.push(last());
        Ok(items)
    }

    fn items(
        &self,
        tree: &Option<ObjectId>,
        settings: ListSettings,
    ) -> Result<Vec<Result<StatusItem, String>>, String> {
        check(self.broken, "items")?;
        assert_eq!(settings, list_settings());
        let mut items: Vec<Result<StatusItem, String>> =
            index_items().into_iter().map(|item| item.map(StatusItem::IndexWorktree)).collect();
        let name = match tree {
            Some(tree) => format!("tree{}", tree.bytes[0]),
            None => "head".to_string(),
        };
        items.push(Ok(StatusItem::TreeIndex(TreeItem::Addition { path: Ok(rel(&[&name])) })));
        items.push(last().map(StatusItem::IndexWorktree));
        Ok(items)
    }
}

/// Differences between the index and the worktree of the repository.
fn index_items() -> Vec<Result<IndexItem, String>> {
    vec![
        Err("unreadable".to_string()),
        Ok(IndexItem::Modification { path: Ok(rel(&["m"])), status: EntryStatus::Modified }),
        Ok(IndexItem::DirectoryContents { path: Ok(rel(&["ignored"])), untracked: false }),
    ]
}

fn last() -> Result<IndexItem, String> {
    Ok(IndexItem::Modification { path: Ok(rel(&["last"])), status: EntryStatus::Removed })
}

fn message<T>(r: Result<T, VcsError>) -> String {
    match r {
        Ok(_) => "ok".to_string(),
        Err(e) => e.message(),
    }
}

fn base(broken: &'static str) -> Result<Vec<u8>, VcsError> {
    get_diff_base(&fake(broken), &abs(&["work", "src", "a.rs"]), true)
}

fn base_at(rev: &str) -> Result<Vec<u8>, VcsError> {
    get_diff_base_at(&fake(""), &abs(&["work", "src", "a.rs"]), rev, true)
}

#[test]
fn the_base_is_head_or_the_merge_base() {
    assert_eq!(base("").unwrap(), b"#1\r\n");
    assert_eq!(base("a program").unwrap(), b"#1\r\n");
    assert_eq!(base_at("v1").unwrap(), b"#4\r\n");
    // The merge base of `HEAD` and itself.
    assert_eq!(base_at("HEAD").unwrap(), base("").unwrap());
    // Symbolic links are resolved first.
    assert_eq!(get_diff_base(&fake(""), &abs(&["link"]), true).unwrap(), b"#1\r\n");
}

#[test]
fn each_step_to_the_base_can_fail() {
    assert_eq!(message(base("realpath")), "resolve symlinks");
    assert_eq!(message(base("discover")), "failed to open git repo");
    assert_eq!(message(base("open")), "failed to open git repo");
    assert_eq!(message(base("head")), "head broke");
    assert_eq!(message(base("bare")), "repo has no worktree");
    assert_eq!(message(base("entry")), "entry broke");
    assert_eq!(message(base("read")), "read broke");
    assert_eq!(message(base("filter")), "filter broke");
    assert_eq!(message(get_diff_base(&fake(""), &abs(&[]), true)), "file has no parent directory");
    assert_eq!(message(get_diff_base(&fake(""), &abs(&["work", "b"]), true)), "file is untracked");
    assert_eq!(message(get_diff_base(&fake(""), &abs(&["etc", "b"]), true)), "prefix not found");
    assert_eq!(
        message(base("a tree")),
        "entry at /work/src/a.rs is not a file but a Tree"
    );
    assert!(matches!(
        base("a commit"),
        Err(VcsError::NotAFile { path: _, kind: NotFile::Commit })
    ));
    assert_eq!(
        message(base("a link")),
        "entry at /work/src/a.rs is not a file but a Link"
    );
}

#[test]
fn each_step_to_the_merge_base_can_fail() {
    assert_eq!(message(base_at("v2")), "cannot resolve revision 'v2'");
    assert_eq!(message(base_at("lost")), "object is lost");
    assert_eq!(message(base_at("tree")), "revision 'tree' does not point to a commit");
    assert_eq!(message(base_at("orphan")), "no merge base between 'orphan' and HEAD");
    let broken = get_diff_base_at(&fake("commit"), &abs(&["work", "src", "a.rs"]), "v1", true);
    assert_eq!(message(broken), "commit broke");
}

#[test]
fn the_trust_is_that_of_the_caller() {
    let git = fake("");
    let file = abs(&["work", "src", "a.rs"]);
    get_diff_base(&git, &file, true).unwrap();
    get_diff_base(&git, &file, false).unwrap();
    let opened = git.opened.borrow();
    assert_eq!(opened[0].trust, Trust::Full);
    assert_eq!(opened[1].trust, Trust::Reduced);
    assert!(opened[0].open_path_as_is && opened[0].config.system && opened[0].config.includes);
    assert!(!opened[0].config.git_binary);
    assert!(open_settings(true, true).config.git_binary);
}

#[test]
fn the_name_of_the_head() {
    let file = abs(&["work", "f"]);
    assert_eq!(get_current_head_name(&fake(""), &file, true).unwrap(), "topic/one");
    assert_eq!(get_current_head_name(&fake("detached"), &file, true).unwrap(), "01ab0cd1");
    assert_eq!(message(get_current_head_name(&fake("ref"), &file, true)), "ref broke");
    assert_eq!(message(get_current_head_name(&fake("head"), &file, true)), "head broke");
    assert_eq!(message(get_current_head_name(&fake("open"), &file, true)), "failed to open git repo");
}

#[test]
fn reference_names_are_shortened() {
    let short = |full: &[u8]| name_head(&Some(full.to_vec()), &id(1));
    assert_eq!(short(b"refs/heads/main").unwrap(), "main");
    assert_eq!(short(b"refs/tags/v1").unwrap(), "v1");
    assert_eq!(short(b"refs/remotes/origin/main").unwrap(), "origin/main");
    assert_eq!(short(b"refs/notes/commits").unwrap(), "notes/commits");
    assert_eq!(short(b"refs/heads/h\xc3\xa9").unwrap(), "hé");
    assert_eq!(message(short(b"refs/heads/..")), "invalid reference name");
    let few = ObjectId { bytes: vec![0xf0] };
    assert_eq!(name_head(&None, &few).unwrap(), "f0");
}

/// Notes a report, and asks for more until so many were made.
fn note(stop_after: usize) -> impl Fn(Vec<String>, Report) -> (Vec<String>, bool) {
    move |mut seen, report| {
        seen.push(shown(report));
        let more = seen.len() < stop_after;
        (seen, more)
    }
}

fn changes(broken: &'static str, scope: StatusScope, stop_after: usize) -> (Vec<String>, String) {
    let f = note(stop_after);
    let (seen, r) =
        for_each_changed_file(&fake(broken), &abs(&["work"]), false, &scope, Vec::new(), &f);
    (seen, message(r))
}

fn shown(report: Report) -> String {
    match report {
        Ok(FileChange::Untracked { path }) => format!("? {}", path.display()),
        Ok(FileChange::Modified { path }) => format!("M {}", path.display()),
        Ok(FileChange::Conflict { path }) => format!("C {}", path.display()),
        Ok(FileChange::Deleted { path }) => format!("D {}", path.display()),
        Ok(FileChange::Renamed { from_path, to_path }) => {
            format!("R {} {}", from_path.display(), to_path.display())
        }
        Err(e) => format!("! {}", e.message()),
    }
}

#[test]
fn changed_files_are_reported() {
    let (seen, end) = changes("", StatusScope::IndexToWorktree, 99);
    assert_eq!(seen, vec!["! unreadable", "M /work/m", "D /work/last"]);
    assert_eq!(end, "ok");
    let (seen, _) = changes("", StatusScope::HeadToWorktree, 99);
    assert_eq!(seen, vec!["! unreadable", "M /work/m", "? /work/head", "D /work/last"]);
    let (seen, _) = changes("", StatusScope::MergeBaseToWorktree("v1".to_string()), 99);
    assert_eq!(seen, vec!["! unreadable", "M /work/m", "? /work/tree5", "D /work/last"]);
}

#[test]
fn reporting_stops_when_told_to() {
    let index = || StatusScope::IndexToWorktree;
    // An error counts like a change.
    let (seen, end) = changes("", index(), 1);
    assert_eq!(seen, vec!["! unreadable"]);
    assert_eq!(end, "ok");
    let (seen, end) = changes("", index(), 2);
    assert_eq!(seen, vec!["! unreadable", "M /work/m"]);
    assert_eq!(end, "ok");
    // What would make the listing fail is not reached.
    let (seen, end) = changes("path", index(), 2);
    assert_eq!(seen, vec!["! unreadable", "M /work/m"]);
    assert_eq!(end, "ok");
    let unresolved = StatusScope::MergeBaseToWorktree("v2".to_string());
    let (seen, end) = changes("", unresolved, 1);
    assert_eq!(seen, vec!["! cannot resolve revision 'v2'"]);
    assert_eq!(end, "ok");
}

#[test]
fn the_scopes_compared() {
    let (few, _) = changes("", StatusScope::IndexToWorktree, 99);
    let (many, _) = changes("", StatusScope::HeadToWorktree, 99);
    assert!(few.iter().all(|report| many.contains(report)));
    let more: Vec<&String> = many.iter().filter(|report| !few.contains(report)).collect();
    assert_eq!(more, vec!["? /work/head"]);
}

#[test]
fn the_steps_of_a_listing() {
    let listing = Listing::Index {
        work_dir: WorkDir { path: abs(&["w"]), windows: false },
        index_items: vec![
            Ok(IndexItem::DirectoryContents { path: Ok(rel(&["a"])), untracked: false }),
            Ok(IndexItem::DirectoryContents { path: Ok(rel(&["b"])), untracked: true }),
            Err("unreadable".to_string()),
            Ok(IndexItem::Rewrite { source: Err("bad".to_string()), path: Ok(rel(&["c"])) }),
        ],
    };
    let step = |at: usize, go_on: bool| match next_step(&listing, at, go_on) {
        (next, Step::Report(report)) => (next, shown(report)),
        (next, Step::Done(r)) => (next, message(r)),
    };
    assert_eq!(step(0, true), (2, "? /w/b".to_string()));
    assert_eq!(step(2, true), (3, "! unreadable".to_string()));
    assert_eq!(step(3, true), (4, "bad".to_string()));
    assert_eq!(step(4, true), (4, "ok".to_string()));
    assert_eq!(step(3, false), (4, "ok".to_string()));
    let (seen, r) = follow(&listing, Vec::new(), &note(99));
    assert_eq!(seen, vec!["? /w/b", "! unreadable"]);
    assert_eq!(message(r), "bad");
    let unresolved = Listing::Unresolved { error: VcsError::NoParent };
    match next_step(&unresolved, 0, true) {
        (next, Step::Report(Err(e))) => {
            assert_eq!((next, e.message()), (1, "file has no parent directory".to_string()))
        }
        _ => panic!("the error is reported"),
    }
    assert!(matches!(next_step(&unresolved, 1, true), (1, Step::Done(Ok(())))));
}

#[test]
fn a_revision_without_a_base_is_all_that_is_listed() {
    let repo = fake("").open(&abs(&["work", ".git"]), open_settings(false, false)).unwrap();
    let scope = StatusScope::MergeBaseToWorktree("orphan".to_string());
    let listing = status(&repo, &scope, false).unwrap();
    assert!(matches!(
        &listing,
        Listing::Unresolved { error: VcsError::NoMergeBase { rev } } if rev == "orphan"
    ));
    assert_eq!(listing.len(), 1);
    let (seen, r) = follow(&listing, Vec::new(), &note(99));
    assert_eq!(seen, vec!["! no merge base between 'orphan' and HEAD"]);
    assert!(r.is_ok());
}

#[test]
fn how_differences_are_listed() {
    let settings = list_settings();
    assert_eq!(settings.untracked_files, UntrackedFiles::Files);
    let renames =
        RenameSettings { copies: false, similarity: 50, limit: 1000, track_empty: false };
    assert_eq!(settings.index_renames, renames);
    assert_eq!(settings.tree_renames, renames);
}

#[test]
fn reporting_can_fail() {
    let index = || StatusScope::IndexToWorktree;
    assert_eq!(changes("bare", index(), 99), (vec![], "working tree not found".to_string()));
    assert_eq!(changes("start", index(), 99), (vec![], "start broke".to_string()));
    assert_eq!(changes("items", index(), 99), (vec![], "items broke".to_string()));
    assert_eq!(
        changes("discover", index(), 99),
        (vec![], "failed to discover git repo".to_string())
    );
    assert_eq!(changes("open", index(), 99), (vec![], "open broke".to_string()));
    let (seen, end) = changes("path", index(), 99);
    assert_eq!(seen, vec!["! unreadable", "M /work/m"]);
    assert_eq!(end, "bad path");
    let merge_base = |rev: &str| StatusScope::MergeBaseToWorktree(rev.to_string());
    assert_eq!(changes("tree", merge_base("v1"), 99), (vec![], "tree broke".to_string()));
    // A revision that has no base is reported, and that is all.
    assert_eq!(
        changes("", merge_base("v2"), 99),
        (vec!["! cannot resolve revision 'v2'".to_string()], "ok".to_string())
    );
}

#[test]
fn items_stand_for_changes() {
    let dir = WorkDir { path: abs(&["w"]), windows: false };
    let text = |change: Result<Option<FileChange>, VcsError>| match change {
        Ok(Some(change)) => shown(Ok(change)),
        Ok(None) => "-".to_string(),
        Err(e) => shown(Err(e)),
    };
    let index = |item: IndexItem| text(index_worktree_change(&dir, &item));
    let tree = |item: TreeItem| text(tree_index_change(&dir, &item));
    let p = || Ok(rel(&["p"]));
    let q = || Ok(rel(&["q"]));
    let bad = || Err("bad".to_string());
    let entry = |status: EntryStatus| IndexItem::Modification { path: p(), status };
    assert_eq!(index(entry(EntryStatus::Conflict)), "C /w/p");
    assert_eq!(index(entry(EntryStatus::Removed)), "D /w/p");
    assert_eq!(index(entry(EntryStatus::Modified)), "M /w/p");
    assert_eq!(index(entry(EntryStatus::IntentToAdd)), "? /w/p");
    assert_eq!(index(entry(EntryStatus::Other)), "-");
    assert_eq!(
        index(IndexItem::Modification { path: bad(), status: EntryStatus::Other }),
        "! bad"
    );
    assert_eq!(index(IndexItem::DirectoryContents { path: p(), untracked: true }), "? /w/p");
    assert_eq!(index(IndexItem::DirectoryContents { path: bad(), untracked: false }), "-");
    assert_eq!(index(IndexItem::DirectoryContents { path: bad(), untracked: true }), "! bad");
    assert_eq!(index(IndexItem::Rewrite { source: q(), path: p() }), "R /w/q /w/p");
    assert_eq!(index(IndexItem::Rewrite { source: bad(), path: p() }), "! bad");
    assert_eq!(tree(TreeItem::Addition { path: p() }), "? /w/p");
    assert_eq!(tree(TreeItem::Deletion { path: p() }), "D /w/p");
    assert_eq!(tree(TreeItem::Modification { path: p() }), "M /w/p");
    assert_eq!(tree(TreeItem::Rewrite { source: q(), path: p() }), "R /w/q /w/p");
    assert_eq!(tree(TreeItem::Rewrite { source: q(), path: bad() }), "! bad");
}

#[test]
fn the_registry_asks_its_providers() {
    let registry = DiffProviderRegistry::default().clone();
    let file = abs(&["work", "src", "a.rs"]);
    assert_eq!(registry.get_diff_base(&fake(""), &file, true), Some(b"#1\r\n".to_vec()));
    assert_eq!(registry.get_diff_base_at(&fake(""), &file, "v1", true), Some(b"#4\r\n".to_vec()));
    assert_eq!(registry.get_diff_base_at(&fake(""), &file, "v2", true), None);
    assert_eq!(registry.get_diff_base(&fake("read"), &file, true), None);
    assert_eq!(
        registry.get_current_head_name(&fake(""), &file, true),
        Some("topic/one".to_string())
    );
    assert_eq!(registry.get_current_head_name(&fake("head"), &file, true), None);
}

#[test]
fn the_base_of_a_change_is_read() {
    let registry = DiffProviderRegistry::default();
    let file = || abs(&["work", "src", "a.rs"]);
    let read = |change: FileChange, rev: Option<&str>| {
        read_base(&registry, &fake(""), &change, true, &rev.map(|r| r.to_string()))
    };
    let head = Some(b"#1\r\n".to_vec());
    assert_eq!(read(FileChange::Modified { path: file() }, None), head);
    assert_eq!(read(FileChange::Deleted { path: file() }, Some("v1")), Some(b"#4\r\n".to_vec()));
    assert_eq!(read(FileChange::Untracked { path: file() }, None), None);
    let renamed = FileChange::Renamed { from_path: file(), to_path: abs(&["work", "b.rs"]) };
    assert_eq!(read(renamed, None), head);
}

#[test]
fn the_registry_reports_that_no_provider_succeeds() {
    let registry = DiffProviderRegistry::default();
    let list = |broken: &'static str, stop_after: usize| {
        let scope = StatusScope::IndexToWorktree;
        let cwd = abs(&["work"]);
        let f = note(stop_after);
        registry.for_each_changed_file(&fake(broken), &cwd, false, &scope, Vec::new(), &f)
    };
    assert_eq!(list("", 99), vec!["! unreadable", "M /work/m", "D /work/last"]);
    assert_eq!(list("open", 99), vec!["! no diff provider returns success"]);
    assert_eq!(
        list("path", 99),
        vec!["! unreadable", "M /work/m", "! no diff provider returns success"]
    );
    // An answer that asks for no more is the last.
    assert_eq!(list("path", 1), vec!["! unreadable"]);
    assert_eq!(list("path", 2), vec!["! unreadable", "M /work/m"]);
}

#[test]
fn errors_have_texts() {
    assert_eq!(VcsError::NoSupport.message(), "No diff support compiled in");
    assert_eq!(VcsError::Other { text: "as it is".to_string() }.message(), "as it is");
}
