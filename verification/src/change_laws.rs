//! Laws of changed files and of what is gathered of them.

use crate::changes::{self, EntryStatus, IndexItem, OutcomeView, StatusItem, TreeItem, WorkDirView};
use crate::file_diff::{self, FileStatus, FileView};
use crate::gather;
use crate::path::{self, FilePath, PartView};
use crate::status::ChangeView;
use crate::text;
use crate::text_laws;
use crate::vcs::{ErrorView, ReportView};
use vstd::prelude::*;

verus! {

/// A path below a worktree, in full.
pub open spec fn full_path(work_dir: WorkDirView, path: FilePath) -> Seq<PartView> {
    path::joined(work_dir.path, path@, work_dir.windows)
}

/// What is reported of a file that differs between the index and the worktree:
/// a conflict, a deletion or a modification as such, and a file that is to be
/// added later as an untracked one. An untracked file is reported as such, and a
/// renamed one with both paths. Nothing else is reported.
pub proof fn law_index_changes(work_dir: WorkDirView, from: FilePath, to: FilePath)
    ensures
        ({
            let path = full_path(work_dir, to);
            let entry = |status: EntryStatus|
                changes::index_outcome(
                    work_dir,
                    Ok(IndexItem::Modification { path: Ok(to), status }),
                );
            &&& entry(EntryStatus::Conflict) == OutcomeView::Report(
                Ok(ChangeView::Conflict { path }),
            )
            &&& entry(EntryStatus::Removed) == OutcomeView::Report(
                Ok(ChangeView::Deleted { path }),
            )
            &&& entry(EntryStatus::Modified) == OutcomeView::Report(
                Ok(ChangeView::Modified { path }),
            )
            &&& entry(EntryStatus::IntentToAdd) == OutcomeView::Report(
                Ok(ChangeView::Untracked { path }),
            )
            &&& entry(EntryStatus::Other) is Nothing
        }),
        ({
            let path = full_path(work_dir, to);
            let found = |untracked: bool|
                changes::index_outcome(
                    work_dir,
                    Ok(IndexItem::DirectoryContents { path: Ok(to), untracked }),
                );
            &&& found(true) == OutcomeView::Report(Ok(ChangeView::Untracked { path }))
            &&& found(false) is Nothing
        }),
        changes::index_outcome(
            work_dir,
            Ok(IndexItem::Rewrite { source: Ok(from), path: Ok(to) }),
        ) == OutcomeView::Report(
            Ok(
                ChangeView::Renamed {
                    from_path: full_path(work_dir, from),
                    to_path: full_path(work_dir, to),
                },
            ),
        ),
{
}

/// What is reported of a file that differs between a tree and the index: one
/// that only the index has as an untracked one, one that only the tree has as a
/// deletion, a modification as such, and a renamed one with both paths.
pub proof fn law_tree_changes(work_dir: WorkDirView, from: FilePath, to: FilePath)
    ensures
        ({
            let path = full_path(work_dir, to);
            let given = |item: TreeItem|
                changes::status_outcome(work_dir, Ok(StatusItem::TreeIndex(item)));
            &&& given(TreeItem::Addition { path: Ok(to) }) == OutcomeView::Report(
                Ok(ChangeView::Untracked { path }),
            )
            &&& given(TreeItem::Deletion { path: Ok(to) }) == OutcomeView::Report(
                Ok(ChangeView::Deleted { path }),
            )
            &&& given(TreeItem::Modification { path: Ok(to) }) == OutcomeView::Report(
                Ok(ChangeView::Modified { path }),
            )
            &&& given(TreeItem::Rewrite { source: Ok(from), path: Ok(to) }) == OutcomeView::Report(
                Ok(
                    ChangeView::Renamed {
                        from_path: full_path(work_dir, from),
                        to_path: full_path(work_dir, to),
                    },
                ),
            )
        }),
{
}

/// A difference that could not be found out is reported as an error and does not
/// end the listing. A path that is none on this system does, if it is needed.
/// What a difference between the index and the worktree comes to does not
/// depend on the scope.
pub proof fn law_failed_items(
    work_dir: WorkDirView,
    text: String,
    status: EntryStatus,
    item: IndexItem,
)
    ensures
        changes::index_outcome(work_dir, Err(text)) == OutcomeView::Report(
            Err(ErrorView::Other { text: text@ }),
        ),
        changes::status_outcome(work_dir, Err(text)) == OutcomeView::Report(
            Err(ErrorView::Other { text: text@ }),
        ),
        changes::index_outcome(
            work_dir,
            Ok(IndexItem::Modification { path: Err(text), status }),
        ) == OutcomeView::Fails(ErrorView::Other { text: text@ }),
        changes::index_outcome(
            work_dir,
            Ok(IndexItem::DirectoryContents { path: Err(text), untracked: true }),
        ) == OutcomeView::Fails(ErrorView::Other { text: text@ }),
        changes::index_outcome(
            work_dir,
            Ok(IndexItem::DirectoryContents { path: Err(text), untracked: false }),
        ) is Nothing,
        changes::status_outcome(
            work_dir,
            Ok(StatusItem::TreeIndex(TreeItem::Deletion { path: Err(text) })),
        ) == OutcomeView::Fails(ErrorView::Other { text: text@ }),
        changes::status_outcome(work_dir, Ok(StatusItem::IndexWorktree(item)))
            == changes::index_outcome(work_dir, Ok(item)),
{
}

/// The status of a change, its path, and the path of its base, which is the old
/// one of a renamed file.
pub proof fn law_changes(path: Seq<PartView>, from: Seq<PartView>)
    ensures
        file_diff::status_of(ChangeView::Untracked { path }) == FileStatus::Added,
        file_diff::status_of(ChangeView::Modified { path }) == FileStatus::Modified,
        file_diff::status_of(ChangeView::Conflict { path }) == FileStatus::Conflict,
        file_diff::status_of(ChangeView::Deleted { path }) == FileStatus::Deleted,
        file_diff::status_of(ChangeView::Renamed { from_path: from, to_path: path })
            == FileStatus::Renamed,
        (ChangeView::Untracked { path }).path() == path,
        (ChangeView::Modified { path }).path() == path,
        (ChangeView::Conflict { path }).path() == path,
        (ChangeView::Deleted { path }).path() == path,
        (ChangeView::Renamed { from_path: from, to_path: path }).path() == path,
        (ChangeView::Modified { path }).base_path() == path,
        (ChangeView::Conflict { path }).base_path() == path,
        (ChangeView::Deleted { path }).base_path() == path,
        (ChangeView::Renamed { from_path: from, to_path: path }).base_path() == from,
        (ChangeView::Modified { path }).old_path() is None,
        (ChangeView::Renamed { from_path: from, to_path: path }).old_path() == Some(from),
{
}

/// A version of a file: what was read of it, and nothing where there is none or
/// it could not be read.
pub open spec fn version(missing: bool, bytes: Option<Vec<u8>>) -> Seq<u8> {
    match bytes {
        Some(bytes) => if missing {
            Seq::empty()
        } else {
            bytes@
        },
        None => Seq::empty(),
    }
}

/// There is a zero among the first 8192 bytes.
pub open spec fn has_early_zero(bytes: Seq<u8>) -> bool {
    exists|i: int| 0 <= i < 8192 && i < bytes.len() && #[trigger] bytes[i] == 0
}

/// The diff of a file compares the base with the contents, except that an added
/// file has no base and a deleted one no contents. What could not be read counts
/// as empty. It is folded at first if more than two thousand lines changed. It
/// is shown under its path, and a renamed file also under its old one, both
/// below the working directory where they are.
pub proof fn law_what_is_diffed(
    change: ChangeView,
    cwd: Seq<PartView>,
    base: Option<Vec<u8>>,
    contents: Option<Vec<u8>>,
    ignore_whitespace: bool,
)
    ensures
        file_diff::built(change, cwd, base, contents, ignore_whitespace) matches Some(file) ==> {
            let old = version(change is Untracked, base);
            let new = version(change is Deleted, contents);
            &&& file.path == change.path()
            &&& file.status == file_diff::status_of(change)
            &&& file.display_path == path::path_text(
                match path::stripped(change.path(), cwd) {
                    Some(below) => below,
                    None => change.path(),
                },
            )
            &&& change matches ChangeView::Renamed { from_path, to_path } ==> file.old_display_path
                == Some(
                path::path_text(
                    match path::stripped(from_path, cwd) {
                        Some(below) => below,
                        None => from_path,
                    },
                ),
            )
            &&& !(change is Renamed) ==> file.old_display_path is None
            &&& file.binary <==> has_early_zero(old) || has_early_zero(new)
            &&& !file.binary ==> file.old_lines == text::lines_of(text::utf8_lossy(old))
            &&& !file.binary ==> file.new_lines == text::lines_of(text::utf8_lossy(new))
            &&& file.binary ==> file.old_lines.len() == 0 && file.new_lines.len() == 0
                && file.ops.len() == 0 && file.hunks.len() == 0
            &&& file.collapsed <==> file.additions + file.deletions > 2000
        },
{
    let old = file_diff::old_bytes(change, base);
    let new = file_diff::new_bytes(change, contents);
    assert(old =~= version(change is Untracked, base));
    assert(new =~= version(change is Deleted, contents));
    text_laws::law_binary(old);
    text_laws::law_binary(new);
    assert(has_early_zero(old) <==> text::is_binary(old));
    assert(has_early_zero(new) <==> text::is_binary(new));
}

/// Of all entries of one path, the one that is kept has rename information if
/// any has, and of those that are alike in this it came first. Every kept entry
/// is one of those that were given.
pub proof fn law_kept_entry(kept: Seq<FileView>, files: Seq<FileView>, k: int) -> (i: int)
    requires
        file_diff::is_dedup(kept, files),
        0 <= k < kept.len(),
    ensures
        0 <= i < files.len(),
        files[i] == kept[k],
        forall|j: int|
            0 <= j < files.len() && path::components((#[trigger] files[j]).path)
                == path::components(kept[k].path) ==> {
                &&& files[j].old_display_path is Some ==> kept[k].old_display_path is Some
                &&& (files[j].old_display_path is Some <==> kept[k].old_display_path is Some) ==> i
                    <= j
            },
{
    assert(file_diff::is_kept_entry(files, kept[k]));
    let i = choose|i: int| #[trigger] file_diff::is_kept(files, i) && files[i] == kept[k];
    assert forall|j: int|
        0 <= j < files.len() && path::components((#[trigger] files[j]).path) == path::components(
            kept[k].path,
        ) implies (files[j].old_display_path is Some ==> kept[k].old_display_path is Some) && ((
    files[j].old_display_path is Some <==> kept[k].old_display_path is Some) ==> i <= j) by {
        if j != i {
            assert(files[j].key() == files[i].key());
            assert(file_diff::preferred(files, i, j));
        }
    }
    i
}

/// The kept entries are in the order of their paths, and no path occurs twice.
pub proof fn law_kept_entries_are_ordered(kept: Seq<FileView>, files: Seq<FileView>, a: int, b: int)
    requires
        file_diff::is_dedup(kept, files),
        0 <= a < b < kept.len(),
    ensures
        path::path_before(path::components(kept[a].path), path::components(kept[b].path)),
{
    assert(path::path_before(kept[a].key(), kept[b].key()));
}

/// All changes among the reports are gathered, in order.
pub proof fn law_gathered_changes(a: Seq<ReportView>, b: Seq<ReportView>, change: ChangeView)
    ensures
        gather::reported_changes(Seq::empty()) == Seq::<ChangeView>::empty(),
        gather::reported_changes(seq![Ok(change)]) == seq![change],
        gather::reported_changes(a + b) == gather::reported_changes(a) + gather::reported_changes(
            b,
        ),
{
    assert(seq![Ok::<ChangeView, ErrorView>(change)].drop_last() =~= Seq::empty());
    reveal_with_fuel(gather::reported_changes, 2);
    assert(gather::reported_changes(seq![Ok(change)]) =~= seq![change]);
    lemma_gathered(a, b);
}

proof fn lemma_gathered(a: Seq<ReportView>, b: Seq<ReportView>)
    ensures
        gather::reported_changes(a + b) == gather::reported_changes(a) + gather::reported_changes(
            b,
        ),
    decreases b.len(),
{
    if b.len() == 0 {
        assert(a + b =~= a);
        assert(gather::reported_changes(a) + gather::reported_changes(b)
            =~= gather::reported_changes(a));
    } else {
        assert((a + b).drop_last() =~= a + b.drop_last());
        assert((a + b).last() == b.last());
        lemma_gathered(a, b.drop_last());
        assert(gather::reported_changes(a + b) =~= gather::reported_changes(a)
            + gather::reported_changes(b));
    }
}

/// The error that is kept is the first one, if there is any; no error counts as
/// a change.
pub proof fn law_first_error(a: Seq<ReportView>, error: ErrorView, b: Seq<ReportView>)
    requires
        forall|i: int| 0 <= i < a.len() ==> (#[trigger] a[i]) is Ok,
    ensures
        gather::first_error(a) is None,
        gather::first_error(a + seq![Err(error)] + b) == Some(error.message()),
        gather::reported_changes(seq![Err(error)]) == Seq::<ChangeView>::empty(),
    decreases a.len() + b.len(),
{
    assert(seq![Err::<ChangeView, ErrorView>(error)].drop_last() =~= Seq::empty());
    reveal_with_fuel(gather::reported_changes, 2);
    lemma_no_error(a);
    lemma_error_kept(a, error, b);
}

proof fn lemma_no_error(a: Seq<ReportView>)
    requires
        forall|i: int| 0 <= i < a.len() ==> (#[trigger] a[i]) is Ok,
    ensures
        gather::first_error(a) is None,
    decreases a.len(),
{
    if a.len() > 0 {
        let init = a.drop_last();
        assert forall|i: int| 0 <= i < init.len() implies (#[trigger] init[i]) is Ok by {
            assert(init[i] == a[i]);
        }
        lemma_no_error(init);
        assert(a[a.len() - 1] is Ok);
    }
}

proof fn lemma_error_kept(a: Seq<ReportView>, error: ErrorView, b: Seq<ReportView>)
    requires
        gather::first_error(a) is None,
    ensures
        gather::first_error(a + seq![Err(error)] + b) == Some(error.message()),
    decreases b.len(),
{
    let all = a + seq![Err::<ChangeView, ErrorView>(error)] + b;
    if b.len() == 0 {
        assert(all.drop_last() =~= a);
        assert(all.last() == Err::<ChangeView, ErrorView>(error));
    } else {
        assert(all.drop_last() =~= a + seq![Err::<ChangeView, ErrorView>(error)] + b.drop_last());
        lemma_error_kept(a, error, b.drop_last());
    }
}

} // verus!
