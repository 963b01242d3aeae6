//! Diff providers.

use crate::changes::OutcomeView;
use crate::file_diff;
use crate::git::{self, Git};
use crate::path::{self, FilePath, PartView};
use crate::reports::{self, ReportLog};
use crate::status::{ChangeView, FileChange};
use vstd::prelude::*;
use vstd::string::*;
use vstd::utf8;

verus! {

/// Which changes to report when iterating over changed files.
#[derive(Debug, Clone, PartialEq, Eq)]
pub enum StatusScope {
    /// Changes between the index and the worktree only.
    IndexToWorktree,
    /// All changes between `HEAD` and the worktree, including staged changes.
    /// A file changed both in the index and the worktree may be reported
    /// twice.
    HeadToWorktree,
    /// All changes between the merge base of the given revision and `HEAD`,
    /// and the worktree.
    MergeBaseToWorktree(String),
}

impl Default for StatusScope {
    fn default() -> (r: Self)
        ensures
            r is IndexToWorktree,
    {
        StatusScope::IndexToWorktree
    }
}

/// What a tree entry is that is not a file.
#[derive(Debug, Clone, Copy, PartialEq, Eq, Structural)]
pub enum NotFile {
    Tree,
    Commit,
    Link,
}

impl NotFile {
    pub open spec fn name(self) -> Seq<char> {
        match self {
            NotFile::Tree => "Tree"@,
            NotFile::Commit => "Commit"@,
            NotFile::Link => "Link"@,
        }
    }

    fn text(self) -> (r: &'static str)
        ensures
            r@ == self.name(),
    {
        match self {
            NotFile::Tree => "Tree",
            NotFile::Commit => "Commit",
            NotFile::Link => "Link",
        }
    }
}

/// Why version control has no answer.
#[derive(Debug)]
pub enum VcsError {
    /// There is no provider to ask.
    NoSupport,
    /// No provider has an answer.
    NoProvider,
    SymlinksUnresolved,
    NoParent,
    NotDiscovered,
    NotOpened,
    /// The revision names nothing.
    Unresolved { rev: String },
    /// The revision names something that is no commit.
    NotACommit { rev: String },
    /// The revision has no merge base with `HEAD`.
    NoMergeBase { rev: String },
    /// A file is to be found in a repository without a worktree.
    NoWorktree,
    /// The changes of a repository without a worktree are asked for.
    NoWorkingTree,
    OutsideWorktree,
    Untracked,
    NotAFile { path: FilePath, kind: NotFile },
    BadReferenceName,
    /// An error that is passed on as it is.
    Other { text: String },
}

/// Why version control has no answer.
pub enum ErrorView {
    NoSupport,
    NoProvider,
    SymlinksUnresolved,
    NoParent,
    NotDiscovered,
    NotOpened,
    Unresolved { rev: Seq<char> },
    NotACommit { rev: Seq<char> },
    NoMergeBase { rev: Seq<char> },
    NoWorktree,
    NoWorkingTree,
    OutsideWorktree,
    Untracked,
    NotAFile { path: Seq<PartView>, kind: NotFile },
    BadReferenceName,
    Other { text: Seq<char> },
}

impl View for VcsError {
    type V = ErrorView;

    open spec fn view(&self) -> ErrorView {
        match *self {
            VcsError::NoSupport => ErrorView::NoSupport,
            VcsError::NoProvider => ErrorView::NoProvider,
            VcsError::SymlinksUnresolved => ErrorView::SymlinksUnresolved,
            VcsError::NoParent => ErrorView::NoParent,
            VcsError::NotDiscovered => ErrorView::NotDiscovered,
            VcsError::NotOpened => ErrorView::NotOpened,
            VcsError::Unresolved { rev } => ErrorView::Unresolved { rev: rev@ },
            VcsError::NotACommit { rev } => ErrorView::NotACommit { rev: rev@ },
            VcsError::NoMergeBase { rev } => ErrorView::NoMergeBase { rev: rev@ },
            VcsError::NoWorktree => ErrorView::NoWorktree,
            VcsError::NoWorkingTree => ErrorView::NoWorkingTree,
            VcsError::OutsideWorktree => ErrorView::OutsideWorktree,
            VcsError::Untracked => ErrorView::Untracked,
            VcsError::NotAFile { path, kind } => ErrorView::NotAFile { path: path@, kind },
            VcsError::BadReferenceName => ErrorView::BadReferenceName,
            VcsError::Other { text } => ErrorView::Other { text: text@ },
        }
    }
}

impl Clone for VcsError {
    fn clone(&self) -> (r: Self)
        ensures
            r@ == self@,
    {
        match self {
            VcsError::NoSupport => VcsError::NoSupport,
            VcsError::NoProvider => VcsError::NoProvider,
            VcsError::SymlinksUnresolved => VcsError::SymlinksUnresolved,
            VcsError::NoParent => VcsError::NoParent,
            VcsError::NotDiscovered => VcsError::NotDiscovered,
            VcsError::NotOpened => VcsError::NotOpened,
            VcsError::Unresolved { rev } => VcsError::Unresolved { rev: rev.clone() },
            VcsError::NotACommit { rev } => VcsError::NotACommit { rev: rev.clone() },
            VcsError::NoMergeBase { rev } => VcsError::NoMergeBase { rev: rev.clone() },
            VcsError::NoWorktree => VcsError::NoWorktree,
            VcsError::NoWorkingTree => VcsError::NoWorkingTree,
            VcsError::OutsideWorktree => VcsError::OutsideWorktree,
            VcsError::Untracked => VcsError::Untracked,
            VcsError::NotAFile { path, kind } => VcsError::NotAFile {
                path: path.clone(),
                kind: *kind,
            },
            VcsError::BadReferenceName => VcsError::BadReferenceName,
            VcsError::Other { text } => VcsError::Other { text: text.clone() },
        }
    }
}

impl ErrorView {
    /// The text of the error.
    pub open spec fn message(self) -> Seq<char> {
        match self {
            ErrorView::NoSupport => "No diff support compiled in"@,
            ErrorView::NoProvider => "no diff provider returns success"@,
            ErrorView::SymlinksUnresolved => "resolve symlinks"@,
            ErrorView::NoParent => "file has no parent directory"@,
            ErrorView::NotDiscovered => "failed to discover git repo"@,
            ErrorView::NotOpened => "failed to open git repo"@,
            ErrorView::Unresolved { rev } => "cannot resolve revision '"@ + rev + "'"@,
            ErrorView::NotACommit { rev } => "revision '"@ + rev + "' does not point to a commit"@,
            ErrorView::NoMergeBase { rev } => "no merge base between '"@ + rev + "' and HEAD"@,
            ErrorView::NoWorktree => "repo has no worktree"@,
            ErrorView::NoWorkingTree => "working tree not found"@,
            ErrorView::OutsideWorktree => "prefix not found"@,
            ErrorView::Untracked => "file is untracked"@,
            ErrorView::NotAFile { path, kind } => "entry at "@ + path::path_text(path)
                + " is not a file but a "@ + kind.name(),
            ErrorView::BadReferenceName => "invalid reference name"@,
            ErrorView::Other { text } => text,
        }
    }
}

/// A text with another one in the middle.
fn around(before: &str, middle: &str, after: &str) -> (r: String)
    ensures
        r@ == before@ + middle@ + after@,
{
    let mut r = before.to_owned();
    r.append(middle);
    r.append(after);
    r
}

impl VcsError {
    /// The text of the error.
    pub fn message(&self) -> (r: String)
        ensures
            r@ == self@.message(),
            self@ matches ErrorView::NotAFile { path, kind } ==> (utf8::valid_utf8(
                path::spelling(path),
            ) ==> r@ == "entry at "@ + utf8::decode_utf8(path::spelling(path))
                + " is not a file but a "@ + kind.name()),
    {
        match self {
            VcsError::NoSupport => "No diff support compiled in".to_owned(),
            VcsError::NoProvider => "no diff provider returns success".to_owned(),
            VcsError::SymlinksUnresolved => "resolve symlinks".to_owned(),
            VcsError::NoParent => "file has no parent directory".to_owned(),
            VcsError::NotDiscovered => "failed to discover git repo".to_owned(),
            VcsError::NotOpened => "failed to open git repo".to_owned(),
            VcsError::Unresolved { rev } => around("cannot resolve revision '", rev.as_str(), "'"),
            VcsError::NotACommit { rev } => around(
                "revision '",
                rev.as_str(),
                "' does not point to a commit",
            ),
            VcsError::NoMergeBase { rev } => around(
                "no merge base between '",
                rev.as_str(),
                "' and HEAD",
            ),
            VcsError::NoWorktree => "repo has no worktree".to_owned(),
            VcsError::NoWorkingTree => "working tree not found".to_owned(),
            VcsError::OutsideWorktree => "prefix not found".to_owned(),
            VcsError::Untracked => "file is untracked".to_owned(),
            VcsError::NotAFile { path, kind } => {
                let shown = path.display();
                let mut r = around("entry at ", shown.as_str(), " is not a file but a ");
                r.append(kind.text());
                r
            },
            VcsError::BadReferenceName => "invalid reference name".to_owned(),
            VcsError::Other { text } => text.clone(),
        }
    }
}

/// A report: a change, or an error.
pub type Report = Result<FileChange, VcsError>;

/// A report: a change, or an error.
pub type ReportView = Result<ChangeView, ErrorView>;

pub open spec fn report_view(report: Report) -> ReportView {
    match report {
        Ok(change) => Ok(change@),
        Err(error) => Err(error@),
    }
}

/// A diff provider.
#[derive(Debug, Copy, Clone, PartialEq, Eq, Structural)]
pub enum DiffProvider {
    Git,
    /// A provider that has no answer.
    Absent,
}

impl DiffProvider {
    /// The contents of a file as of the base commit of a diff.
    pub open spec fn base_gives<G: Git>(
        self,
        git: &G,
        file: Seq<PartView>,
        rev: Option<Seq<char>>,
        trust_full: bool,
        out: Result<Seq<u8>, ErrorView>,
    ) -> bool {
        match self {
            DiffProvider::Git => git::diff_base_gives(git, file, rev, trust_full, out),
            DiffProvider::Absent => out == Err::<Seq<u8>, ErrorView>(ErrorView::NoSupport),
        }
    }

    /// The name of the current head.
    pub open spec fn head_name_gives<G: Git>(
        self,
        git: &G,
        file: Seq<PartView>,
        trust_full: bool,
        out: Result<Seq<char>, ErrorView>,
    ) -> bool {
        match self {
            DiffProvider::Git => git::head_name_gives(git, file, trust_full, out),
            DiffProvider::Absent => out == Err::<Seq<char>, ErrorView>(ErrorView::NoSupport),
        }
    }

    /// Reporting the changed files.
    pub open spec fn changed_files_given<G: Git, S, F: Fn(S, Report) -> (S, bool)>(
        self,
        git: &G,
        cwd: Seq<PartView>,
        trust_full: bool,
        scope: StatusScope,
        f: F,
        s: S,
        end: S,
        out: Result<(), ErrorView>,
    ) -> bool {
        match self {
            DiffProvider::Git => git::changed_files_given(
                git,
                cwd,
                trust_full,
                scope,
                f,
                s,
                end,
                out,
            ),
            DiffProvider::Absent => end == s && out == Err::<(), ErrorView>(ErrorView::NoSupport),
        }
    }

    fn get_diff_base<G: Git>(&self, git: &G, file: &FilePath, trust_full: bool) -> (r: Result<
        Vec<u8>,
        VcsError,
    >)
        ensures
            self.base_gives(git, file@, None, trust_full, git::bytes_answer(r)),
    {
        match self {
            DiffProvider::Git => git::get_diff_base(git, file, trust_full),
            DiffProvider::Absent => Err(VcsError::NoSupport),
        }
    }

    fn get_diff_base_at<G: Git>(&self, git: &G, file: &FilePath, rev: &str, trust_full: bool) -> (r:
        Result<Vec<u8>, VcsError>)
        ensures
            self.base_gives(git, file@, Some(rev@), trust_full, git::bytes_answer(r)),
    {
        match self {
            DiffProvider::Git => git::get_diff_base_at(git, file, rev, trust_full),
            DiffProvider::Absent => Err(VcsError::NoSupport),
        }
    }

    fn get_current_head_name<G: Git>(&self, git: &G, file: &FilePath, trust_full: bool) -> (r:
        Result<String, VcsError>)
        ensures
            self.head_name_gives(git, file@, trust_full, git::text_answer(r)),
    {
        match self {
            DiffProvider::Git => git::get_current_head_name(git, file, trust_full),
            DiffProvider::Absent => Err(VcsError::NoSupport),
        }
    }

    fn for_each_changed_file<G: Git, S, F: Fn(S, Report) -> (S, bool)>(
        &self,
        git: &G,
        cwd: &FilePath,
        trust_full: bool,
        scope: &StatusScope,
        state: S,
        f: &F,
    ) -> (r: (S, Result<(), VcsError>))
        requires
            forall|s: S, report: Report| #[trigger] f.requires((s, report)),
        ensures
            self.changed_files_given(
                git,
                cwd@,
                trust_full,
                *scope,
                *f,
                state,
                r.0,
                reports::done_answer(r.1),
            ),
    {
        match self {
            DiffProvider::Git => git::for_each_changed_file(
                git,
                cwd,
                trust_full,
                scope,
                state,
                f,
            ),
            DiffProvider::Absent => (state, Err(VcsError::NoSupport)),
        }
    }
}

/// The first answer of some providers, asked in order; none if none has one.
pub open spec fn first_base_gives<G: Git>(
    providers: Seq<DiffProvider>,
    git: &G,
    file: Seq<PartView>,
    rev: Option<Seq<char>>,
    trust_full: bool,
    out: Option<Seq<u8>>,
) -> bool
    decreases providers.len(),
{
    if providers.len() == 0 {
        out is None
    } else {
        exists|r: Result<Seq<u8>, ErrorView>| #[trigger]
            providers[0].base_gives(git, file, rev, trust_full, r) && match r {
                Ok(bytes) => out == Some(bytes),
                Err(_) => first_base_gives(
                    providers.drop_first(),
                    git,
                    file,
                    rev,
                    trust_full,
                    out,
                ),
            }
    }
}

/// The first name of the current head that some providers give, asked in
/// order; none if none has one.
pub open spec fn first_head_name_gives<G: Git>(
    providers: Seq<DiffProvider>,
    git: &G,
    file: Seq<PartView>,
    trust_full: bool,
    out: Option<Seq<char>>,
) -> bool
    decreases providers.len(),
{
    if providers.len() == 0 {
        out is None
    } else {
        exists|r: Result<Seq<char>, ErrorView>| #[trigger]
            providers[0].head_name_gives(git, file, trust_full, r) && match r {
                Ok(name) => out == Some(name),
                Err(_) => first_head_name_gives(
                    providers.drop_first(),
                    git,
                    file,
                    trust_full,
                    out,
                ),
            }
    }
}

/// Reporting the changed files of the first provider that can list them, asked
/// in order; if none can, that is reported as an error.
pub open spec fn first_listing_given<G: Git, S, F: Fn(S, Report) -> (S, bool)>(
    providers: Seq<DiffProvider>,
    git: &G,
    cwd: Seq<PartView>,
    trust_full: bool,
    scope: StatusScope,
    f: F,
    s: S,
    end: S,
) -> bool
    decreases providers.len(),
{
    if providers.len() == 0 {
        exists|more: bool| #[trigger]
            reports::answered(f, s, Err(ErrorView::NoProvider), end, more)
    } else {
        exists|mid: S, r: Result<(), ErrorView>| #[trigger]
            providers[0].changed_files_given(git, cwd, trust_full, scope, f, s, mid, r) && match r {
                Ok(_) => end == mid,
                Err(_) => first_listing_given(
                    providers.drop_first(),
                    git,
                    cwd,
                    trust_full,
                    scope,
                    f,
                    mid,
                    end,
                ),
            }
    }
}

/// All active diff providers, in the order in which they are asked.
pub struct DiffProviderRegistry {
    providers: Vec<DiffProvider>,
}

impl View for DiffProviderRegistry {
    type V = Seq<DiffProvider>;

    closed spec fn view(&self) -> Seq<DiffProvider> {
        self.providers@
    }
}

impl Clone for DiffProviderRegistry {
    fn clone(&self) -> (r: Self)
        ensures
            r@ == self@,
    {
        let mut providers: Vec<DiffProvider> = Vec::new();
        let mut i: usize = 0;
        while i < self.providers.len()
            invariant
                i <= self.providers@.len(),
                providers@ == self.providers@.take(i as int),
            decreases self.providers@.len() - i,
        {
            providers.push(self.providers[i]);
            i += 1;
            assert(providers@ =~= self.providers@.take(i as int));
        }
        assert(providers@ =~= self.providers@);
        DiffProviderRegistry { providers }
    }
}

impl Default for DiffProviderRegistry {
    fn default() -> (r: Self)
        ensures
            r@ == seq![DiffProvider::Git, DiffProvider::Absent],
    {
        let mut providers: Vec<DiffProvider> = Vec::new();
        providers.push(DiffProvider::Git);
        providers.push(DiffProvider::Absent);
        assert(providers@ =~= seq![DiffProvider::Git, DiffProvider::Absent]);
        DiffProviderRegistry { providers }
    }
}

/// Optional bytes.
pub open spec fn opt_bytes(bytes: Option<Vec<u8>>) -> Option<Seq<u8>> {
    match bytes {
        Some(bytes) => Some(bytes@),
        None => None,
    }
}

impl DiffProviderRegistry {
    /// The contents of a file as of the base commit of a diff, from the first
    /// provider that has them.
    fn first_base<G: Git>(&self, git: &G, file: &FilePath, rev: Option<&str>, trust_full: bool) -> (
    r: Option<Vec<u8>>)
        ensures
            first_base_gives(
                self@,
                git,
                file@,
                match rev {
                    Some(rev) => Some(rev@),
                    None => None,
                },
                trust_full,
                opt_bytes(r),
            ),
    {
        let ghost all = self@;
        let ghost at: Option<Seq<char>> = match rev {
            Some(rev) => Some(rev@),
            None => None,
        };
        let mut i: usize = 0;
        assert(all.skip(0) =~= all);
        while i < self.providers.len()
            invariant
                all == self.providers@,
                at == (match rev {
                    Some(rev) => Some(rev@),
                    None => None,
                }),
                i <= all.len(),
                forall|out: Option<Seq<u8>>| #[trigger]
                    first_base_gives(all.skip(i as int), git, file@, at, trust_full, out)
                        ==> first_base_gives(all, git, file@, at, trust_full, out),
            decreases all.len() - i,
        {
            let ghost here = all.skip(i as int);
            assert(here[0] == all[i as int]);
            assert(here.drop_first() =~= all.skip(i + 1));
            let provider = self.providers[i];
            let answer = match rev {
                Some(rev) => provider.get_diff_base_at(git, file, rev, trust_full),
                None => provider.get_diff_base(git, file, trust_full),
            };
            let ghost view = git::bytes_answer(answer);
            assert(here[0].base_gives(git, file@, at, trust_full, view));
            match answer {
                Ok(bytes) => {
                    let r = Some(bytes);
                    assert(first_base_gives(here, git, file@, at, trust_full, opt_bytes(r)));
                    return r;
                },
                Err(_) => {},
            }
            proof {
                assert forall|out: Option<Seq<u8>>| #[trigger]
                    first_base_gives(all.skip(i + 1), git, file@, at, trust_full, out) implies
                    first_base_gives(all, git, file@, at, trust_full, out) by {
                    assert(first_base_gives(here, git, file@, at, trust_full, out));
                }
            }
            i += 1;
        }
        assert(first_base_gives(all.skip(i as int), git, file@, at, trust_full, None));
        None
    }

    /// Gets the given file from the VCS. This provides the unedited document
    /// as a "base" for a diff to be created.
    pub fn get_diff_base<G: Git>(&self, git: &G, file: &FilePath, trust_full: bool) -> (r: Option<
        Vec<u8>,
    >)
        ensures
            first_base_gives(self@, git, file@, None, trust_full, opt_bytes(r)),
    {
        self.first_base(git, file, None, trust_full)
    }

    /// Like [`Self::get_diff_base`], but reads the file as of the merge base
    /// of `rev` and `HEAD` instead of `HEAD` itself.
    pub fn get_diff_base_at<G: Git>(
        &self,
        git: &G,
        file: &FilePath,
        rev: &str,
        trust_full: bool,
    ) -> (r: Option<Vec<u8>>)
        ensures
            first_base_gives(self@, git, file@, Some(rev@), trust_full, opt_bytes(r)),
    {
        self.first_base(git, file, Some(rev), trust_full)
    }

    /// Gets the current name of the current head.
    pub fn get_current_head_name<G: Git>(&self, git: &G, file: &FilePath, trust_full: bool) -> (r:
        Option<String>)
        ensures
            first_head_name_gives(self@, git, file@, trust_full, file_diff::opt_text(r)),
    {
        let ghost all = self@;
        let mut i: usize = 0;
        assert(all.skip(0) =~= all);
        while i < self.providers.len()
            invariant
                all == self.providers@,
                i <= all.len(),
                forall|out: Option<Seq<char>>| #[trigger]
                    first_head_name_gives(all.skip(i as int), git, file@, trust_full, out)
                        ==> first_head_name_gives(all, git, file@, trust_full, out),
            decreases all.len() - i,
        {
            let ghost here = all.skip(i as int);
            assert(here[0] == all[i as int]);
            assert(here.drop_first() =~= all.skip(i + 1));
            let answer = self.providers[i].get_current_head_name(git, file, trust_full);
            let ghost view = git::text_answer(answer);
            assert(here[0].head_name_gives(git, file@, trust_full, view));
            match answer {
                Ok(name) => {
                    let r = Some(name);
                    assert(first_head_name_gives(
                        here,
                        git,
                        file@,
                        trust_full,
                        file_diff::opt_text(r),
                    ));
                    return r;
                },
                Err(_) => {},
            }
            proof {
                assert forall|out: Option<Seq<char>>| #[trigger]
                    first_head_name_gives(all.skip(i + 1), git, file@, trust_full, out) implies
                    first_head_name_gives(all, git, file@, trust_full, out) by {
                    assert(first_head_name_gives(here, git, file@, trust_full, out));
                }
            }
            i += 1;
        }
        assert(first_head_name_gives(all.skip(i as int), git, file@, trust_full, None));
        None
    }

    /// Iterates over the changed files, until `f` answers `false`. The state is
    /// handed from one call of `f` to the next, and what the last one left is
    /// returned.
    pub fn for_each_changed_file<G: Git, S, F: Fn(S, Report) -> (S, bool)>(
        &self,
        git: &G,
        cwd: &FilePath,
        trust_full: bool,
        scope: &StatusScope,
        state: S,
        f: &F,
    ) -> (end: S)
        requires
            forall|s: S, report: Report| #[trigger] f.requires((s, report)),
        ensures
            first_listing_given(self@, git, cwd@, trust_full, *scope, *f, state, end),
    {
        let ghost all = self@;
        let mut current = state;
        let mut i: usize = 0;
        assert(all.skip(0) =~= all);
        while i < self.providers.len()
            invariant
                all == self.providers@,
                i <= all.len(),
                forall|s: S, report: Report| #[trigger] f.requires((s, report)),
                forall|end: S| #[trigger]
                    first_listing_given(
                        all.skip(i as int),
                        git,
                        cwd@,
                        trust_full,
                        *scope,
                        *f,
                        current,
                        end,
                    ) ==> first_listing_given(
                        all,
                        git,
                        cwd@,
                        trust_full,
                        *scope,
                        *f,
                        state,
                        end,
                    ),
            decreases all.len() - i,
        {
            let ghost here = all.skip(i as int);
            assert(here[0] == all[i as int]);
            assert(here.drop_first() =~= all.skip(i + 1));
            let ghost before = current;
            let (left, answer) = self.providers[i].for_each_changed_file(
                git,
                cwd,
                trust_full,
                scope,
                current,
                f,
            );
            let ghost view = reports::done_answer(answer);
            assert(here[0].changed_files_given(
                git,
                cwd@,
                trust_full,
                *scope,
                *f,
                before,
                left,
                view,
            ));
            match answer {
                Ok(_) => {
                    assert(first_listing_given(
                        here,
                        git,
                        cwd@,
                        trust_full,
                        *scope,
                        *f,
                        before,
                        left,
                    ));
                    return left;
                },
                Err(_) => {},
            }
            proof {
                assert forall|end: S| #[trigger]
                    first_listing_given(
                        all.skip(i + 1),
                        git,
                        cwd@,
                        trust_full,
                        *scope,
                        *f,
                        left,
                        end,
                    ) implies first_listing_given(
                    all,
                    git,
                    cwd@,
                    trust_full,
                    *scope,
                    *f,
                    state,
                    end,
                ) by {
                    assert(first_listing_given(
                        here,
                        git,
                        cwd@,
                        trust_full,
                        *scope,
                        *f,
                        before,
                        end,
                    ));
                }
            }
            current = left;
            i += 1;
        }
        let report: Report = Err(VcsError::NoProvider);
        let ghost view = report_view(report);
        let ghost before = current;
        let (end, more) = f(current, report);
        assert(reports::answered(*f, before, view, end, more));
        assert(first_listing_given(
            all.skip(i as int),
            git,
            cwd@,
            trust_full,
            *scope,
            *f,
            before,
            end,
        ));
        end
    }
}

/// With the default providers, the base of a diff is what git has, and there is
/// none where git has none.
pub proof fn law_default_base_is_that_of_git<G: Git>(
    git: &G,
    file: Seq<PartView>,
    rev: Option<Seq<char>>,
    trust_full: bool,
    out: Option<Seq<u8>>,
)
    requires
        first_base_gives(
            seq![DiffProvider::Git, DiffProvider::Absent],
            git,
            file,
            rev,
            trust_full,
            out,
        ),
    ensures
        exists|r: Result<Seq<u8>, ErrorView>| #[trigger]
            git::diff_base_gives(git, file, rev, trust_full, r) && out == match r {
                Ok(bytes) => Some(bytes),
                Err(_) => None,
            },
{
    let both = seq![DiffProvider::Git, DiffProvider::Absent];
    let second = both.drop_first();
    assert(second =~= seq![DiffProvider::Absent]);
    assert(second.drop_first() =~= Seq::<DiffProvider>::empty());
    let r = choose|r: Result<Seq<u8>, ErrorView>| #[trigger]
        both[0].base_gives(git, file, rev, trust_full, r) && match r {
            Ok(bytes) => out == Some(bytes),
            Err(_) => first_base_gives(second, git, file, rev, trust_full, out),
        };
    assert(git::diff_base_gives(git, file, rev, trust_full, r));
    if r is Err {
        assert(first_base_gives(second, git, file, rev, trust_full, out));
        let s = choose|s: Result<Seq<u8>, ErrorView>| #[trigger]
            second[0].base_gives(git, file, rev, trust_full, s) && match s {
                Ok(bytes) => out == Some(bytes),
                Err(_) => first_base_gives(
                    second.drop_first(),
                    git,
                    file,
                    rev,
                    trust_full,
                    out,
                ),
            };
        assert(s is Err);
        assert(out is None);
    }
}

/// Reporting the changed files is calling `f` a number of times, one after the
/// other, with the state handed from call to call. Once a call answers `false`,
/// it is the last one.
pub proof fn law_refusal_ends_the_iteration<G: Git, S, F: Fn(S, Report) -> (S, bool)>(
    providers: Seq<DiffProvider>,
    git: &G,
    cwd: Seq<PartView>,
    trust_full: bool,
    scope: StatusScope,
    f: F,
    s: S,
    end: S,
) -> (log: ReportLog)
    requires
        first_listing_given(providers, git, cwd, trust_full, scope, f, s, end),
    ensures
        reports::calls(f, log, s, end),
        reports::until_refused(log),
    decreases providers.len(),
{
    if providers.len() == 0 {
        let report: ReportView = Err(ErrorView::NoProvider);
        let more = choose|more: bool| #[trigger] reports::answered(f, s, report, end, more);
        let log: ReportLog = seq![(report, more)];
        assert(reports::answered(f, s, log[0].0, end, log[0].1));
        assert(reports::calls(f, log.drop_first(), end, end));
        log
    } else {
        let (mid, r) = choose|mid: S, r: Result<(), ErrorView>| #[trigger]
            providers[0].changed_files_given(git, cwd, trust_full, scope, f, s, mid, r) && match r {
                Ok(_) => end == mid,
                Err(_) => first_listing_given(
                    providers.drop_first(),
                    git,
                    cwd,
                    trust_full,
                    scope,
                    f,
                    mid,
                    end,
                ),
            };
        let first = lemma_provider_calls(
            providers[0],
            git,
            cwd,
            trust_full,
            scope,
            f,
            s,
            mid,
            r,
        );
        if r is Ok {
            first
        } else {
            let rest = law_refusal_ends_the_iteration(
                providers.drop_first(),
                git,
                cwd,
                trust_full,
                scope,
                f,
                mid,
                end,
            );
            reports::lemma_calls_append(f, first, rest, s, mid, end);
            let log = first + rest;
            assert forall|i: int| 0 <= i < log.len() - 1 implies (#[trigger] log[i]).1 by {
                if i < first.len() {
                    assert(log[i] == first[i]);
                } else {
                    assert(log[i] == rest[i - first.len()]);
                }
            }
            log
        }
    }
}

/// The calls that one provider makes. Where it fails, none was refused.
proof fn lemma_provider_calls<G: Git, S, F: Fn(S, Report) -> (S, bool)>(
    provider: DiffProvider,
    git: &G,
    cwd: Seq<PartView>,
    trust_full: bool,
    scope: StatusScope,
    f: F,
    s: S,
    end: S,
    out: Result<(), ErrorView>,
) -> (log: ReportLog)
    requires
        provider.changed_files_given(git, cwd, trust_full, scope, f, s, end, out),
    ensures
        reports::calls(f, log, s, end),
        reports::until_refused(log),
        out is Err ==> reports::never_refused(log),
{
    if provider is Absent {
        Seq::empty()
    } else {
        let listing = choose|listing: Result<Seq<OutcomeView>, ErrorView>| #[trigger]
            git::listing_gives(git, cwd, trust_full, scope, listing) && match listing {
                Err(e) => end == s && out == Err::<(), ErrorView>(e),
                Ok(listing) => reports::follows(f, listing, 0, true, s, end, out),
            };
        match listing {
            Err(_) => Seq::empty(),
            Ok(listing) => reports::law_refusal_is_final(f, listing, s, end, out),
        }
    }
}

} // verus!
