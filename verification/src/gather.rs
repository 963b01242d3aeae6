//! Gathering the diffs of a workspace: what to ask of version control, and
//! what to make of the answers.

use crate::file_diff::{self, FileDiff, FileView};
use crate::git::Git;
use crate::path::{FilePath, PartView};
use crate::state::ViewerState;
use crate::status::{ChangeView, FileChange};
use crate::vcs::{self, DiffProviderRegistry, Report, ReportView, StatusScope};
use crate::viewer::DiffViewer;
use vstd::prelude::*;
use vstd::string::*;

verus! {

/// How the diffs are gathered and shown.
pub struct Request {
    pub split: bool,
    pub ignore_whitespace: bool,
    /// Base revision, `HEAD` if none.
    pub rev: Option<String>,
}

/// The request that opens the viewer: unified, whitespace counts.
pub fn open(rev: Option<String>) -> (r: Request)
    ensures
        r == (Request { split: false, ignore_whitespace: false, rev }),
{
    Request { split: false, ignore_whitespace: false, rev }
}

/// Decides whether a request can be served: the working directory has to
/// exist.
pub fn open_with(cwd_exists: bool, request: Request) -> (r: Result<Request, &'static str>)
    ensures
        match r {
            Ok(served) => cwd_exists && served == request,
            Err(message) => !cwd_exists && message@ == "current working directory does not exist"@,
        },
{
    if cwd_exists {
        Ok(request)
    } else {
        Err("current working directory does not exist")
    }
}

/// The changes to ask for: against the merge base with a revision if one is
/// given, against `HEAD` otherwise.
pub fn scope_for(rev: &Option<String>) -> (scope: StatusScope)
    ensures
        match *rev {
            Some(rev) => scope matches StatusScope::MergeBaseToWorktree(r) && r@ == rev@,
            None => scope is HeadToWorktree,
        },
{
    match rev {
        Some(rev) => StatusScope::MergeBaseToWorktree(rev.clone()),
        None => StatusScope::HeadToWorktree,
    }
}

/// The changes reported so far, and the first error.
pub struct Gathered {
    pub changes: Vec<FileChange>,
    pub error: Option<String>,
}

/// The changes among some reports, in order.
pub open spec fn reported_changes(reports: Seq<ReportView>) -> Seq<ChangeView>
    decreases reports.len(),
{
    if reports.len() == 0 {
        Seq::empty()
    } else {
        match reports.last() {
            Ok(change) => reported_changes(reports.drop_last()).push(change),
            Err(_) => reported_changes(reports.drop_last()),
        }
    }
}

/// The text of the first error among some reports.
pub open spec fn first_error(reports: Seq<ReportView>) -> Option<Seq<char>>
    decreases reports.len(),
{
    if reports.len() == 0 {
        None
    } else {
        match (first_error(reports.drop_last()), reports.last()) {
            (Some(error), _) => Some(error),
            (None, Err(error)) => Some(error.message()),
            (None, Ok(_)) => None,
        }
    }
}

/// The changes of a list.
pub open spec fn change_views(changes: Seq<FileChange>) -> Seq<ChangeView> {
    changes.map_values(|c: FileChange| c@)
}

impl Gathered {
    /// This was gathered from some reports.
    pub open spec fn is_from(self, reports: Seq<ReportView>) -> bool {
        &&& change_views(self.changes@) == reported_changes(reports)
        &&& file_diff::opt_text(self.error) == first_error(reports)
    }

    pub fn new() -> (r: Self)
        ensures
            r.is_from(Seq::empty()),
    {
        let r = Gathered { changes: Vec::new(), error: None };
        assert(change_views(r.changes@) =~= Seq::empty());
        r
    }

    /// Takes one more report. Changes are collected; of the errors only the
    /// first is kept.
    pub fn receive(&mut self, report: Report)
        ensures
            match report {
                Ok(change) => {
                    &&& change_views(final(self).changes@) == change_views(
                        old(self).changes@,
                    ).push(change@)
                    &&& final(self).error == old(self).error
                },
                Err(error) => {
                    &&& final(self).changes@ == old(self).changes@
                    &&& file_diff::opt_text(final(self).error) == match old(self).error {
                        Some(first) => Some(first@),
                        None => Some(error@.message()),
                    }
                },
            },
            forall|reports: Seq<ReportView>|
                old(self).is_from(reports) ==> #[trigger] final(self).is_from(
                    reports.push(vcs::report_view(report)),
                ),
    {
        let ghost before = *self;
        let ghost view = vcs::report_view(report);
        match report {
            Ok(change) => {
                self.changes.push(change);
                assert(change_views(self.changes@) =~= change_views(before.changes@).push(
                    change@,
                ));
            },
            Err(error) => {
                if self.error.is_none() {
                    self.error = Some(error.message());
                }
            },
        }
        proof {
            assert forall|reports: Seq<ReportView>|
                before.is_from(reports) implies #[trigger] self.is_from(
                reports.push(view),
            ) by {
                assert(reports.push(view).drop_last() =~= reports);
                assert(change_views(self.changes@) =~= reported_changes(reports.push(view)));
            }
        }
    }
}

/// Reads the base version that the diff of a change needs: the version in
/// `HEAD`, or with a revision that at the merge base. An added file has none;
/// the base of a renamed file lies under its old path.
pub fn read_base<G: Git>(
    registry: &DiffProviderRegistry,
    git: &G,
    change: &FileChange,
    trust_full: bool,
    rev: &Option<String>,
) -> (r: Option<Vec<u8>>)
    ensures
        if file_diff::status_of(change@) is Added {
            r is None
        } else {
            vcs::first_base_gives(
                registry@,
                git,
                change@.base_path(),
                file_diff::opt_text(*rev),
                trust_full,
                vcs::opt_bytes(r),
            )
        },
{
    match (file_diff::base_path(change), rev) {
        (None, _) => None,
        (Some(path), Some(rev)) => registry.get_diff_base_at(git, path, rev.as_str(), trust_full),
        (Some(path), None) => registry.get_diff_base(git, path, trust_full),
    }
}

/// A changed file with the bytes of its versions, as far as they could be
/// read.
pub struct FileRead {
    pub change: FileChange,
    pub base: Option<Vec<u8>>,
    pub contents: Option<Vec<u8>>,
}

/// The diff of one file that was read.
pub open spec fn read_diff(
    read: FileRead,
    cwd: Seq<PartView>,
    ignore_whitespace: bool,
) -> Option<FileView> {
    file_diff::built(
        read.change@,
        cwd,
        read.base,
        read.contents,
        ignore_whitespace,
    )
}

/// The diffs of the files that were read, in the order of the reports.
pub open spec fn read_diffs(
    reads: Seq<FileRead>,
    cwd: Seq<PartView>,
    ignore_whitespace: bool,
) -> Seq<FileView> {
    reads.map_values(|r: FileRead| read_diff(r, cwd, ignore_whitespace).unwrap())
}

/// What is valid text is shown as it is in the diff of a file that was read.
pub open spec fn shows_read(
    read: FileRead,
    cwd: Seq<PartView>,
    ignore_whitespace: bool,
) -> bool {
    read_diff(read, cwd, ignore_whitespace) matches Some(file) ==> file_diff::shows_text(
        file,
        read.change@,
        cwd,
        read.base,
        read.contents,
    )
}

/// Builds the diffs of a workspace, ordered by path and with one entry per
/// path. `None` only if one of the files is too long to be diffed.
pub fn build_files(
    reads: Vec<FileRead>,
    cwd: &FilePath,
    ignore_whitespace: bool,
) -> (r: Option<Vec<FileDiff>>)
    ensures
        match r {
            Some(files) => {
                &&& forall|i: int|
                    0 <= i < reads@.len() ==> read_diff(
                        #[trigger] reads@[i],
                        cwd@,
                        ignore_whitespace,
                    ) is Some
                &&& file_diff::is_dedup(
                    file_diff::file_views(files@),
                    read_diffs(reads@, cwd@, ignore_whitespace),
                )
                &&& forall|k: int| 0 <= k < files@.len() ==> (#[trigger] files@[k])@.wf()
                &&& forall|i: int|
                    0 <= i < reads@.len() ==> shows_read(
                        #[trigger] reads@[i],
                        cwd@,
                        ignore_whitespace,
                    )
            },
            None => exists|i: int|
                0 <= i < reads@.len() && read_diff(
                    #[trigger] reads@[i],
                    cwd@,
                    ignore_whitespace,
                ) is None,
        },
{
    let ghost all = reads@;
    let ghost diffs = read_diffs(all, cwd@, ignore_whitespace);
    let mut files: Vec<FileDiff> = Vec::new();
    for read in it: reads
        invariant
            it.seq() == all,
            files@.len() == it.index(),
            forall|i: int|
                0 <= i < files@.len() ==> read_diff(
                    #[trigger] all[i],
                    cwd@,
                    ignore_whitespace,
                ) == Some(files@[i]@) && files@[i]@.wf() && shows_read(
                    all[i],
                    cwd@,
                    ignore_whitespace,
                ),
    {
        let ghost idx = it.index();
        assert(read == all[idx]);
        let FileRead { change, base, contents } = read;
        match file_diff::build_file_diff(&change, cwd, base, contents, ignore_whitespace)
        {
            Some(file) => files.push(file),
            None => {
                assert(read_diff(all[idx], cwd@, ignore_whitespace) is None);
                return None;
            },
        }
    }
    proof {
        assert forall|i: int| 0 <= i < files@.len() implies (#[trigger] files@[i])@.wf() by {
            assert(read_diff(all[i], cwd@, ignore_whitespace) == Some(files@[i]@));
        }
        assert(file_diff::file_views(files@) =~= diffs) by {
            assert forall|i: int| 0 <= i < files@.len() implies (#[trigger] files@[i])@
                == diffs[i] by {
                assert(read_diff(all[i], cwd@, ignore_whitespace) == Some(files@[i]@));
            }
        }
    }
    Some(file_diff::dedup_files(files))
}

/// What becomes of a request.
pub enum Conclusion {
    /// Show the viewer, in place of an open one.
    Show(DiffViewer),
    /// Show an error.
    Failed(String),
    /// Tell that there is nothing to show.
    NoChanges(&'static str),
}

/// Concludes a request: the viewer if there are files, else the first error,
/// else a message.
pub fn conclude(files: Vec<FileDiff>, error: Option<String>, request: Request) -> (r: Conclusion)
    requires
        forall|i: int| 0 <= i < files@.len() ==> (#[trigger] files@[i])@.wf(),
    ensures
        if files@.len() > 0 {
            r matches Conclusion::Show(viewer) && viewer@.wf() && viewer@ == ViewerState::opened(
                file_diff::file_views(files@),
                request.split,
                request.ignore_whitespace,
                file_diff::opt_text(request.rev),
            )
        } else {
            match error {
                Some(error) => r matches Conclusion::Failed(text) && text@ == "diff: "@ + error@,
                None => r matches Conclusion::NoChanges(text) && text@
                    == "diff: no changes in workspace"@,
            }
        },
{
    if files.len() == 0 {
        match error {
            Some(error) => {
                let mut text = "diff: ".to_owned();
                text.append(error.as_str());
                Conclusion::Failed(text)
            },
            None => Conclusion::NoChanges("diff: no changes in workspace"),
        }
    } else {
        Conclusion::Show(
            DiffViewer::new(files, request.split, request.ignore_whitespace, request.rev),
        )
    }
}

} // verus!
