//! The changed files that the status of a repository lists.

use crate::git;
use crate::path::{self, FilePath, PartView};
use crate::status::{ChangeView, FileChange};
use crate::vcs::{self, ErrorView, Report, ReportView, VcsError};
use vstd::prelude::*;

verus! {

/// What the index says of a file in the worktree.
#[derive(Debug, Clone, Copy, PartialEq, Eq, Structural)]
pub enum EntryStatus {
    Conflict,
    Removed,
    Modified,
    /// The file is to be added later.
    IntentToAdd,
    /// Nothing that is a change.
    Other,
}

/// A path relative to the worktree, or why it is none on this system.
pub type RelativePath = Result<FilePath, String>;

/// A difference between the index and the worktree.
#[derive(Debug)]
pub enum IndexItem {
    /// A tracked file differs from the index.
    Modification { path: RelativePath, status: EntryStatus },
    /// An entry of a directory.
    DirectoryContents { path: RelativePath, untracked: bool },
    /// A file was renamed in the worktree.
    Rewrite { source: RelativePath, path: RelativePath },
}

/// A difference between a tree and the index.
#[derive(Debug)]
pub enum TreeItem {
    /// The index has a file that the tree has not.
    Addition { path: RelativePath },
    /// The tree has a file that the index has not.
    Deletion { path: RelativePath },
    /// A file differs.
    Modification { path: RelativePath },
    /// A file was renamed in the index.
    Rewrite { source: RelativePath, path: RelativePath },
}

/// One difference that a repository reports.
#[derive(Debug)]
pub enum StatusItem {
    IndexWorktree(IndexItem),
    TreeIndex(TreeItem),
}

/// A worktree.
#[derive(Debug)]
pub struct WorkDir {
    pub path: FilePath,
    /// Paths are those of Windows.
    pub windows: bool,
}

/// A worktree.
pub struct WorkDirView {
    pub path: Seq<PartView>,
    pub windows: bool,
}

impl View for WorkDir {
    type V = WorkDirView;

    open spec fn view(&self) -> WorkDirView {
        WorkDirView { path: self.path@, windows: self.windows }
    }
}

/// A path below the worktree as an absolute one.
pub open spec fn below(work_dir: WorkDirView, path: RelativePath) -> Result<
    Seq<PartView>,
    ErrorView,
> {
    match path {
        Ok(path) => Ok(path::joined(work_dir.path, path@, work_dir.windows)),
        Err(e) => Err(git::other(e@)),
    }
}

/// The change that a difference between the index and the worktree stands for,
/// if it is one. Its paths are needed even where it is none, except those of
/// other directory entries.
pub open spec fn index_change_of(work_dir: WorkDirView, item: IndexItem) -> Result<
    Option<ChangeView>,
    ErrorView,
> {
    match item {
        IndexItem::Modification { path, status } => match (below(work_dir, path), status) {
            (Err(e), _) => Err(e),
            (Ok(path), EntryStatus::Conflict) => Ok(Some(ChangeView::Conflict { path })),
            (Ok(path), EntryStatus::Removed) => Ok(Some(ChangeView::Deleted { path })),
            (Ok(path), EntryStatus::Modified) => Ok(Some(ChangeView::Modified { path })),
            (Ok(path), EntryStatus::IntentToAdd) => Ok(Some(ChangeView::Untracked { path })),
            (Ok(path), EntryStatus::Other) => Ok(None),
        },
        IndexItem::DirectoryContents { path, untracked } => if untracked {
            match below(work_dir, path) {
                Err(e) => Err(e),
                Ok(path) => Ok(Some(ChangeView::Untracked { path })),
            }
        } else {
            Ok(None)
        },
        IndexItem::Rewrite { source, path } => renamed(
            below(work_dir, source),
            below(work_dir, path),
        ),
    }
}

/// The change that a difference between a tree and the index stands for.
pub open spec fn tree_change_of(work_dir: WorkDirView, item: TreeItem) -> Result<
    Option<ChangeView>,
    ErrorView,
> {
    match item {
        TreeItem::Addition { path } => match below(work_dir, path) {
            Err(e) => Err(e),
            Ok(path) => Ok(Some(ChangeView::Untracked { path })),
        },
        TreeItem::Deletion { path } => match below(work_dir, path) {
            Err(e) => Err(e),
            Ok(path) => Ok(Some(ChangeView::Deleted { path })),
        },
        TreeItem::Modification { path } => match below(work_dir, path) {
            Err(e) => Err(e),
            Ok(path) => Ok(Some(ChangeView::Modified { path })),
        },
        TreeItem::Rewrite { source, path } => renamed(
            below(work_dir, source),
            below(work_dir, path),
        ),
    }
}

/// A file renamed from one path to another.
pub open spec fn renamed(
    from: Result<Seq<PartView>, ErrorView>,
    to: Result<Seq<PartView>, ErrorView>,
) -> Result<Option<ChangeView>, ErrorView> {
    match (from, to) {
        (Err(e), _) => Err(e),
        (_, Err(e)) => Err(e),
        (Ok(from_path), Ok(to_path)) => Ok(Some(ChangeView::Renamed { from_path, to_path })),
    }
}

/// A change as an answer.
pub open spec fn change_answer(r: Result<Option<FileChange>, VcsError>) -> Result<
    Option<ChangeView>,
    ErrorView,
> {
    match r {
        Ok(Some(change)) => Ok(Some(change@)),
        Ok(None) => Ok(None),
        Err(e) => Err(e@),
    }
}

/// A path below the worktree as an absolute one.
fn join_below(work_dir: &WorkDir, path: &RelativePath) -> (r: Result<FilePath, VcsError>)
    ensures
        match r {
            Ok(p) => below(work_dir@, *path) == Ok::<Seq<PartView>, ErrorView>(p@),
            Err(e) => below(work_dir@, *path) == Err::<Seq<PartView>, ErrorView>(e@),
        },
{
    match path {
        Ok(path) => Ok(work_dir.path.join(path, work_dir.windows)),
        Err(e) => Err(git::passed_on(e.clone())),
    }
}

/// A file renamed from one path below the worktree to another.
fn renamed_below(work_dir: &WorkDir, source: &RelativePath, path: &RelativePath) -> (r: Result<
    Option<FileChange>,
    VcsError,
>)
    ensures
        change_answer(r) == renamed(below(work_dir@, *source), below(work_dir@, *path)),
{
    let from_path = match join_below(work_dir, source) {
        Ok(path) => path,
        Err(e) => {
            return Err(e);
        },
    };
    let to_path = match join_below(work_dir, path) {
        Ok(path) => path,
        Err(e) => {
            return Err(e);
        },
    };
    Ok(Some(FileChange::Renamed { from_path, to_path }))
}

/// Maps a difference between the index and the worktree.
pub fn index_worktree_change(work_dir: &WorkDir, item: &IndexItem) -> (r: Result<
    Option<FileChange>,
    VcsError,
>)
    ensures
        change_answer(r) == index_change_of(work_dir@, *item),
{
    match item {
        IndexItem::Modification { path, status } => {
            let path = match join_below(work_dir, path) {
                Ok(path) => path,
                Err(e) => {
                    return Err(e);
                },
            };
            match status {
                EntryStatus::Conflict => Ok(Some(FileChange::Conflict { path })),
                EntryStatus::Removed => Ok(Some(FileChange::Deleted { path })),
                EntryStatus::Modified => Ok(Some(FileChange::Modified { path })),
                // Such files still show up as new in the status of a
                // repository, like untracked ones.
                EntryStatus::IntentToAdd => Ok(Some(FileChange::Untracked { path })),
                EntryStatus::Other => Ok(None),
            }
        },
        IndexItem::DirectoryContents { path, untracked } => {
            if !*untracked {
                return Ok(None);
            }
            match join_below(work_dir, path) {
                Ok(path) => Ok(Some(FileChange::Untracked { path })),
                Err(e) => Err(e),
            }
        },
        IndexItem::Rewrite { source, path } => renamed_below(work_dir, source, path),
    }
}

/// Maps a difference between a tree and the index.
pub fn tree_index_change(work_dir: &WorkDir, item: &TreeItem) -> (r: Result<
    Option<FileChange>,
    VcsError,
>)
    ensures
        change_answer(r) == tree_change_of(work_dir@, *item),
{
    match item {
        TreeItem::Addition { path } => match join_below(work_dir, path) {
            Ok(path) => Ok(Some(FileChange::Untracked { path })),
            Err(e) => Err(e),
        },
        TreeItem::Deletion { path } => match join_below(work_dir, path) {
            Ok(path) => Ok(Some(FileChange::Deleted { path })),
            Err(e) => Err(e),
        },
        TreeItem::Modification { path } => match join_below(work_dir, path) {
            Ok(path) => Ok(Some(FileChange::Modified { path })),
            Err(e) => Err(e),
        },
        TreeItem::Rewrite { source, path } => renamed_below(work_dir, source, path),
    }
}

/// What a place of a listing comes to.
#[derive(Debug)]
pub enum Outcome {
    /// Something to report.
    Report(Report),
    /// Nothing that is a change.
    Nothing,
    /// The listing fails here.
    Fails(VcsError),
}

/// What a place of a listing comes to.
pub enum OutcomeView {
    Report(ReportView),
    Nothing,
    Fails(ErrorView),
}

impl View for Outcome {
    type V = OutcomeView;

    open spec fn view(&self) -> OutcomeView {
        match *self {
            Outcome::Report(report) => OutcomeView::Report(vcs::report_view(report)),
            Outcome::Nothing => OutcomeView::Nothing,
            Outcome::Fails(e) => OutcomeView::Fails(e@),
        }
    }
}

/// A change is reported. A path that is none on this system makes the listing
/// fail.
pub open spec fn change_outcome(change: Result<Option<ChangeView>, ErrorView>) -> OutcomeView {
    match change {
        Ok(Some(change)) => OutcomeView::Report(Ok(change)),
        Ok(None) => OutcomeView::Nothing,
        Err(e) => OutcomeView::Fails(e),
    }
}

/// What a difference between the index and the worktree comes to. One that
/// could not be found out is reported as an error.
pub open spec fn index_outcome(
    work_dir: WorkDirView,
    item: Result<IndexItem, String>,
) -> OutcomeView {
    match item {
        Err(e) => OutcomeView::Report(Err(git::other(e@))),
        Ok(item) => change_outcome(index_change_of(work_dir, item)),
    }
}

/// What a difference of either sort comes to. One that could not be found out
/// is reported as an error.
pub open spec fn status_outcome(
    work_dir: WorkDirView,
    item: Result<StatusItem, String>,
) -> OutcomeView {
    match item {
        Err(e) => OutcomeView::Report(Err(git::other(e@))),
        Ok(StatusItem::IndexWorktree(item)) => change_outcome(index_change_of(work_dir, item)),
        Ok(StatusItem::TreeIndex(item)) => change_outcome(tree_change_of(work_dir, item)),
    }
}

/// What differences between the index and the worktree come to.
pub open spec fn index_outcomes(
    work_dir: WorkDirView,
    items: Seq<Result<IndexItem, String>>,
) -> Seq<OutcomeView> {
    items.map_values(|item: Result<IndexItem, String>| index_outcome(work_dir, item))
}

/// What differences of either sort come to.
pub open spec fn status_outcomes(
    work_dir: WorkDirView,
    items: Seq<Result<StatusItem, String>>,
) -> Seq<OutcomeView> {
    items.map_values(|item: Result<StatusItem, String>| status_outcome(work_dir, item))
}

fn outcome_of_change(change: Result<Option<FileChange>, VcsError>) -> (r: Outcome)
    ensures
        r@ == change_outcome(change_answer(change)),
{
    match change {
        Ok(Some(change)) => Outcome::Report(Ok(change)),
        Ok(None) => Outcome::Nothing,
        Err(e) => Outcome::Fails(e),
    }
}

/// What the status of a repository lists.
#[derive(Debug)]
pub enum Listing {
    /// Differences between the index and the worktree.
    Index { work_dir: WorkDir, index_items: Vec<Result<IndexItem, String>> },
    /// Also differences between a tree and the index.
    Tree { work_dir: WorkDir, items: Vec<Result<StatusItem, String>> },
    /// Nothing, for want of a commit to compare with.
    Unresolved { error: VcsError },
}

impl View for Listing {
    type V = Seq<OutcomeView>;

    /// What the places of the listing come to. Where there is no commit to
    /// compare with, the one thing to report is why.
    open spec fn view(&self) -> Seq<OutcomeView> {
        match *self {
            Listing::Index { work_dir, index_items } => index_outcomes(work_dir@, index_items@),
            Listing::Tree { work_dir, items } => status_outcomes(work_dir@, items@),
            Listing::Unresolved { error } => seq![OutcomeView::Report(Err(error@))],
        }
    }
}

impl Listing {
    /// The number of places.
    pub fn len(&self) -> (n: usize)
        ensures
            n == self@.len(),
    {
        match self {
            Listing::Index { work_dir: _, index_items } => index_items.len(),
            Listing::Tree { work_dir: _, items } => items.len(),
            Listing::Unresolved { error: _ } => 1,
        }
    }

    /// What a place comes to.
    pub fn outcome(&self, i: usize) -> (r: Outcome)
        requires
            i < self@.len(),
        ensures
            r@ == self@[i as int],
    {
        match self {
            Listing::Index { work_dir, index_items } => match &index_items[i] {
                Ok(item) => outcome_of_change(index_worktree_change(work_dir, item)),
                Err(e) => Outcome::Report(Err(git::passed_on(e.clone()))),
            },
            Listing::Tree { work_dir, items } => match &items[i] {
                Ok(StatusItem::IndexWorktree(item)) => outcome_of_change(
                    index_worktree_change(work_dir, item),
                ),
                Ok(StatusItem::TreeIndex(item)) => outcome_of_change(
                    tree_index_change(work_dir, item),
                ),
                Err(e) => Outcome::Report(Err(git::passed_on(e.clone()))),
            },
            Listing::Unresolved { error } => Outcome::Report(Err(error.clone())),
        }
    }
}

} // verus!
