//! Changed files, as a version-control provider reports them.

use crate::path::{FilePath, PartView};
use vstd::prelude::*;

verus! {

/// One changed file.
#[derive(Debug, PartialEq, Eq)]
pub enum FileChange {
    Untracked { path: FilePath },
    Modified { path: FilePath },
    Conflict { path: FilePath },
    Deleted { path: FilePath },
    Renamed { from_path: FilePath, to_path: FilePath },
}

/// One changed file, with its paths as sequences.
pub enum ChangeView {
    Untracked { path: Seq<PartView> },
    Modified { path: Seq<PartView> },
    Conflict { path: Seq<PartView> },
    Deleted { path: Seq<PartView> },
    Renamed { from_path: Seq<PartView>, to_path: Seq<PartView> },
}

impl View for FileChange {
    type V = ChangeView;

    open spec fn view(&self) -> ChangeView {
        match *self {
            FileChange::Untracked { path } => ChangeView::Untracked { path: path@ },
            FileChange::Modified { path } => ChangeView::Modified { path: path@ },
            FileChange::Conflict { path } => ChangeView::Conflict { path: path@ },
            FileChange::Deleted { path } => ChangeView::Deleted { path: path@ },
            FileChange::Renamed { from_path, to_path } => ChangeView::Renamed {
                from_path: from_path@,
                to_path: to_path@,
            },
        }
    }
}

impl ChangeView {
    /// The path that the file has now, or had last.
    pub open spec fn path(self) -> Seq<PartView> {
        match self {
            ChangeView::Untracked { path } => path,
            ChangeView::Modified { path } => path,
            ChangeView::Conflict { path } => path,
            ChangeView::Deleted { path } => path,
            ChangeView::Renamed { from_path, to_path } => to_path,
        }
    }

    /// The path that a renamed file had before.
    pub open spec fn old_path(self) -> Option<Seq<PartView>> {
        match self {
            ChangeView::Renamed { from_path, to_path } => Some(from_path),
            _ => None,
        }
    }

    /// The path under which the base of the diff is looked up.
    pub open spec fn base_path(self) -> Seq<PartView> {
        match self.old_path() {
            Some(path) => path,
            None => self.path(),
        }
    }
}

impl FileChange {
    /// The path that the file has now, or had last.
    pub fn path(&self) -> (r: &FilePath)
        ensures
            r@ == self@.path(),
    {
        match self {
            FileChange::Untracked { path } => path,
            FileChange::Modified { path } => path,
            FileChange::Conflict { path } => path,
            FileChange::Deleted { path } => path,
            FileChange::Renamed { from_path: _, to_path } => to_path,
        }
    }

    /// The path that a renamed file had before.
    pub fn old_path(&self) -> (r: Option<&FilePath>)
        ensures
            match r {
                Some(p) => self@.old_path() == Some(p@),
                None => self@.old_path() is None,
            },
    {
        match self {
            FileChange::Renamed { from_path, to_path: _ } => Some(from_path),
            _ => None,
        }
    }
}

} // verus!
