//! The rows that a list of file diffs is displayed as.

use crate::align::{Op, OpKind, MAX_OPS, NO_LINE};
use crate::file_diff::{self, FileDiff, FileStatus, FileView};
use std::ops::Range;
use vstd::prelude::*;

verus! {

/// Why a file is shown without hunks.
#[derive(Debug, Clone, Copy, PartialEq, Eq, Structural)]
pub enum Notice {
    Binary,
    OnlyRenamed,
    Unchanged,
}

impl Notice {
    pub open spec fn message(self) -> Seq<char> {
        match self {
            Notice::Binary => "binary file (contents not shown)"@,
            Notice::OnlyRenamed => "file renamed without content changes"@,
            Notice::Unchanged => "no content changes"@,
        }
    }

    pub fn text(self) -> (r: &'static str)
        ensures
            r@ == self.message(),
    {
        match self {
            Notice::Binary => "binary file (contents not shown)",
            Notice::OnlyRenamed => "file renamed without content changes",
            Notice::Unchanged => "no content changes",
        }
    }
}

#[derive(Debug, Clone, Copy, PartialEq, Eq, Structural)]
pub enum Row {
    FileHeader { file: usize },
    HunkHeader { file: usize, hunk: usize },
    /// Unified view line.
    Line { file: usize, op: usize },
    /// Side-by-side view line; `NO_LINE` marks an empty half.
    SplitLine { file: usize, left: usize, right: usize },
    /// Expander for hidden lines below the last hunk of a file.
    ExpandTail { file: usize },
    Note { file: usize, notice: Notice },
}

impl Row {
    /// The file that the row belongs to.
    pub open spec fn of_file(self) -> usize {
        match self {
            Row::FileHeader { file } => file,
            Row::HunkHeader { file, hunk } => file,
            Row::Line { file, op } => file,
            Row::SplitLine { file, left, right } => file,
            Row::ExpandTail { file } => file,
            Row::Note { file, notice } => file,
        }
    }

    pub fn file(self) -> (r: usize)
        ensures
            r == self.of_file(),
    {
        match self {
            Row::FileHeader { file } => file,
            Row::HunkHeader { file, hunk: _ } => file,
            Row::Line { file, op: _ } => file,
            Row::SplitLine { file, left: _, right: _ } => file,
            Row::ExpandTail { file } => file,
            Row::Note { file, notice: _ } => file,
        }
    }
}

/// Where the run of ops of one kind that starts at `i` ends.
pub open spec fn run_end(ops: Seq<Op>, i: int, end: int, kind: OpKind) -> int
    decreases end - i,
{
    if i < end && ops[i].kind == kind {
        run_end(ops, i + 1, end, kind)
    } else {
        i
    }
}

/// A run of removals next to a run of additions, line by line: the i-th
/// removal beside the i-th addition, and the rest of the longer run alone.
pub open spec fn paired_rows(file: usize, removed: int, added: int, end: int) -> Seq<Row> {
    let removals = added - removed;
    let additions = end - added;
    Seq::new(
        (if removals > additions {
            removals
        } else {
            additions
        }) as nat,
        |k: int|
            Row::SplitLine {
                file,
                left: if k < removals {
                    (removed + k) as usize
                } else {
                    NO_LINE
                },
                right: if k < additions {
                    (added + k) as usize
                } else {
                    NO_LINE
                },
            },
    )
}

/// The side-by-side rows for the ops from `i` to `end`: context lines occupy
/// both halves, runs of removals and additions are paired up.
pub open spec fn split_rows(ops: Seq<Op>, file: usize, i: int, end: int) -> Seq<Row>
    decreases end - i,
{
    if i >= end {
        Seq::empty()
    } else if ops[i].kind is Context {
        seq![Row::SplitLine { file, left: i as usize, right: i as usize }] + split_rows(
            ops,
            file,
            i + 1,
            end,
        )
    } else {
        proof {
            lemma_run_end(ops, i, end, OpKind::Removed);
            lemma_run_end(ops, run_end(ops, i, end, OpKind::Removed), end, OpKind::Added);
        }
        let added = run_end(ops, i, end, OpKind::Removed);
        let after = run_end(ops, added, end, OpKind::Added);
        paired_rows(file, i, added, after) + split_rows(ops, file, after, end)
    }
}

/// A run lies between its start and the end, holds one kind only and is as
/// long as possible.
pub proof fn lemma_run_end(ops: Seq<Op>, i: int, end: int, kind: OpKind)
    ensures
        i <= run_end(ops, i, end, kind),
        i <= end ==> run_end(ops, i, end, kind) <= end,
        forall|k: int| i <= k < run_end(ops, i, end, kind) ==> (#[trigger] ops[k]).kind == kind,
        run_end(ops, i, end, kind) < end ==> ops[run_end(ops, i, end, kind)].kind != kind,
        i < end && ops[i].kind == kind ==> i < run_end(ops, i, end, kind),
    decreases end - i,
{
    if i < end && ops[i].kind == kind {
        lemma_run_end(ops, i + 1, end, kind);
    }
}

/// The unified rows for a range of ops.
pub open spec fn line_rows(file: usize, start: int, end: int) -> Seq<Row> {
    Seq::new((end - start) as nat, |k: int| Row::Line { file, op: (start + k) as usize })
}

/// The rows of one hunk: its header and its lines.
pub open spec fn hunk_rows(file: FileView, idx: usize, hunk: int, split: bool) -> Seq<Row> {
    let start = file.hunks[hunk].start as int;
    let end = file.hunks[hunk].end as int;
    seq![Row::HunkHeader { file: idx, hunk: hunk as usize }] + if split {
        split_rows(file.ops, idx, start, end)
    } else {
        line_rows(idx, start, end)
    }
}

/// The rows of the first `n` hunks of a file.
pub open spec fn hunks_rows(file: FileView, idx: usize, split: bool, n: int) -> Seq<Row>
    decreases n,
{
    if n <= 0 {
        Seq::empty()
    } else {
        hunks_rows(file, idx, split, n - 1) + hunk_rows(file, idx, n - 1, split)
    }
}

/// What stands below the header of a file that is not collapsed.
pub open spec fn body_rows(file: FileView, idx: usize, split: bool) -> Seq<Row> {
    if file.binary {
        seq![Row::Note { file: idx, notice: Notice::Binary }]
    } else if file.hunks.len() == 0 {
        seq![
            Row::Note {
                file: idx,
                notice: if file.status is Renamed {
                    Notice::OnlyRenamed
                } else {
                    Notice::Unchanged
                },
            },
        ]
    } else {
        hunks_rows(file, idx, split, file.hunks.len() as int) + if file.gap_below() > 0 {
            seq![Row::ExpandTail { file: idx }]
        } else {
            Seq::empty()
        }
    }
}

/// The rows of one file: only the header when it is collapsed.
pub open spec fn file_rows(file: FileView, idx: usize, split: bool) -> Seq<Row> {
    seq![Row::FileHeader { file: idx }] + if file.collapsed {
        Seq::empty()
    } else {
        body_rows(file, idx, split)
    }
}

/// The rows of the first `n` files.
pub open spec fn rows_upto(files: Seq<FileView>, split: bool, n: int) -> Seq<Row>
    decreases n,
{
    if n <= 0 {
        Seq::empty()
    } else {
        rows_upto(files, split, n - 1) + file_rows(files[n - 1], (n - 1) as usize, split)
    }
}

/// The rows of all files.
pub open spec fn all_rows(files: Seq<FileView>, split: bool) -> Seq<Row> {
    rows_upto(files, split, files.len() as int)
}

/// Emits side-by-side rows for a hunk.
pub fn push_split_rows(rows: &mut Vec<Row>, file_idx: usize, file: &FileDiff, hunk: Range<usize>)
    requires
        hunk.end <= file@.ops.len(),
    ensures
        final(rows)@ == old(rows)@ + split_rows(
            file@.ops,
            file_idx,
            hunk.start as int,
            hunk.end as int,
        ),
{
    let ops = &file.ops;
    let ghost before = rows@;
    let ghost all = split_rows(ops@, file_idx, hunk.start as int, hunk.end as int);
    let mut i: usize = hunk.start;
    let end: usize = hunk.end;
    assert(before + all =~= rows@ + all);
    while i < end
        invariant
            end <= ops@.len(),
            before + all == rows@ + split_rows(ops@, file_idx, i as int, end as int),
        decreases end - i,
    {
        let ghost start = i as int;
        let ghost so_far = rows@;
        match ops[i].kind {
            OpKind::Context => {
                rows.push(Row::SplitLine { file: file_idx, left: i, right: i });
                i += 1;
                assert(so_far + split_rows(ops@, file_idx, start, end as int) =~= rows@
                    + split_rows(ops@, file_idx, i as int, end as int));
            },
            _ => {
                let removed_start = i;
                while i < end && ops[i].kind == OpKind::Removed
                    invariant
                        removed_start <= i,
                        removed_start < end <= ops@.len(),
                        i <= end,
                        run_end(ops@, removed_start as int, end as int, OpKind::Removed) == run_end(
                            ops@,
                            i as int,
                            end as int,
                            OpKind::Removed,
                        ),
                    decreases end - i,
                {
                    i += 1;
                }
                let added_start = i;
                while i < end && ops[i].kind == OpKind::Added
                    invariant
                        added_start <= i,
                        added_start <= end <= ops@.len(),
                        i <= end,
                        run_end(ops@, added_start as int, end as int, OpKind::Added) == run_end(
                            ops@,
                            i as int,
                            end as int,
                            OpKind::Added,
                        ),
                    decreases end - i,
                {
                    i += 1;
                }
                let removed: usize = added_start - removed_start;
                let added: usize = i - added_start;
                let longest: usize = if removed > added {
                    removed
                } else {
                    added
                };
                let ghost pairs = paired_rows(
                    file_idx,
                    removed_start as int,
                    added_start as int,
                    i as int,
                );
                let mut k: usize = 0;
                assert(so_far + pairs.take(0) =~= so_far);
                while k < longest
                    invariant
                        k <= longest,
                        longest == if removed > added {
                            removed
                        } else {
                            added
                        },
                        removed_start + removed == added_start,
                        added_start + added == i,
                        pairs == paired_rows(
                            file_idx,
                            removed_start as int,
                            added_start as int,
                            i as int,
                        ),
                        rows@ == so_far + pairs.take(k as int),
                    decreases longest - k,
                {
                    let left: usize = if k < removed {
                        removed_start + k
                    } else {
                        NO_LINE
                    };
                    let right: usize = if k < added {
                        added_start + k
                    } else {
                        NO_LINE
                    };
                    rows.push(Row::SplitLine { file: file_idx, left, right });
                    assert(rows@ =~= so_far + pairs.take(k + 1));
                    k += 1;
                }
                proof {
                    lemma_run_end(ops@, start, end as int, OpKind::Removed);
                    lemma_run_end(ops@, added_start as int, end as int, OpKind::Added);
                    assert(pairs.take(k as int) =~= pairs);
                    assert(so_far + split_rows(ops@, file_idx, start, end as int) =~= rows@
                        + split_rows(ops@, file_idx, i as int, end as int));
                }
            },
        }
    }
    assert(rows@ =~= before + all);
}

/// Emits the header and the lines of a hunk.
fn push_hunk_rows(rows: &mut Vec<Row>, file_idx: usize, file: &FileDiff, hunk_idx: usize, split: bool)
    requires
        file@.wf(),
        hunk_idx < file@.hunks.len(),
    ensures
        final(rows)@ == old(rows)@ + hunk_rows(file@, file_idx, hunk_idx as int, split),
{
    let ghost before = rows@;
    let start: usize = file.hunks[hunk_idx].start;
    let end: usize = file.hunks[hunk_idx].end;
    assert(file@.hunks[hunk_idx as int].end <= file@.ops.len());
    rows.push(Row::HunkHeader { file: file_idx, hunk: hunk_idx });
    let ghost headed = rows@;
    if split {
        push_split_rows(rows, file_idx, file, start..end);
    } else {
        let ghost lines = line_rows(file_idx, start as int, end as int);
        let mut op: usize = start;
        assert(rows@ =~= headed + lines.take(0));
        while op < end
            invariant
                start <= op <= end,
                lines == line_rows(file_idx, start as int, end as int),
                rows@ == headed + lines.take(op - start),
            decreases end - op,
        {
            rows.push(Row::Line { file: file_idx, op });
            assert(rows@ =~= headed + lines.take(op + 1 - start));
            op += 1;
        }
        assert(lines.take(op - start) =~= lines);
    }
    assert(rows@ =~= before + hunk_rows(file@, file_idx, hunk_idx as int, split));
}

/// Emits the rows of a file.
fn push_file_rows(rows: &mut Vec<Row>, file_idx: usize, file: &FileDiff, split: bool)
    requires
        file@.wf(),
    ensures
        final(rows)@ == old(rows)@ + file_rows(file@, file_idx, split),
{
    let ghost before = rows@;
    rows.push(Row::FileHeader { file: file_idx });
    if file.collapsed {
    } else if file.binary {
        rows.push(Row::Note { file: file_idx, notice: Notice::Binary });
    } else if file.hunks.len() == 0 {
        let notice = match file.status {
            FileStatus::Renamed => Notice::OnlyRenamed,
            _ => Notice::Unchanged,
        };
        rows.push(Row::Note { file: file_idx, notice });
    } else {
        let ghost headed = rows@;
        let mut hunk: usize = 0;
        assert(rows@ =~= headed + hunks_rows(file@, file_idx, split, 0));
        while hunk < file.hunks.len()
            invariant
                file@.wf(),
                hunk <= file@.hunks.len(),
                rows@ == headed + hunks_rows(file@, file_idx, split, hunk as int),
            decreases file@.hunks.len() - hunk,
        {
            push_hunk_rows(rows, file_idx, file, hunk, split);
            hunk += 1;
            assert(rows@ =~= headed + hunks_rows(file@, file_idx, split, hunk as int));
        }
        if file.gap_below() > 0 {
            rows.push(Row::ExpandTail { file: file_idx });
        }
    }
    assert(rows@ =~= before + file_rows(file@, file_idx, split));
}

/// The rows of all files.
pub fn build_rows(files: &Vec<FileDiff>, split: bool) -> (rows: Vec<Row>)
    requires
        forall|i: int| 0 <= i < files@.len() ==> (#[trigger] files@[i])@.wf(),
    ensures
        rows@ == all_rows(file_diff::file_views(files@), split),
{
    let ghost views = file_diff::file_views(files@);
    let mut rows: Vec<Row> = Vec::new();
    let mut idx: usize = 0;
    while idx < files.len()
        invariant
            idx <= files@.len(),
            forall|i: int| 0 <= i < files@.len() ==> (#[trigger] files@[i])@.wf(),
            views == file_diff::file_views(files@),
            rows@ == rows_upto(views, split, idx as int),
        decreases files@.len() - idx,
    {
        assert(views[idx as int] == files@[idx as int]@);
        push_file_rows(&mut rows, idx, &files[idx], split);
        idx += 1;
    }
    rows
}

/// What the row refers to exists in its file, and the file shows it.
pub open spec fn row_in_file(row: Row, file: FileView) -> bool {
    match row {
        Row::FileHeader { file: _ } => true,
        Row::HunkHeader { file: _, hunk } => {
            hunk < file.hunks.len() && !file.collapsed && !file.binary
        },
        Row::Line { file: _, op } => op < file.ops.len(),
        Row::SplitLine { file: _, left, right } => {
            &&& left != NO_LINE || right != NO_LINE
            &&& left != NO_LINE ==> left < file.ops.len() && !(file.ops[left as int].kind is Added)
            &&& right != NO_LINE ==> right < file.ops.len() && !(file.ops[right as int].kind is Removed)
            &&& right == NO_LINE ==> file.ops[left as int].kind is Removed
            &&& left == NO_LINE ==> file.ops[right as int].kind is Added
        },
        Row::ExpandTail { file: _ } => file.hunks.len() > 0 && file.gap_below() > 0,
        Row::Note { file: _, notice: _ } => !file.collapsed,
    }
}

/// What the row refers to exists: the file, and in it the hunk or the ops.
pub open spec fn row_fits(row: Row, files: Seq<FileView>) -> bool {
    row.of_file() < files.len() && row_in_file(row, files[row.of_file() as int])
}

/// The rows of a file refer to that file, and fit.
pub open spec fn rows_fit(rows: Seq<Row>, file: FileView, idx: usize) -> bool {
    forall|k: int|
        0 <= k < rows.len() ==> (#[trigger] rows[k]).of_file() == idx && row_in_file(rows[k], file)
}

proof fn lemma_split_rows_fit(file: FileView, idx: usize, i: int, end: int)
    requires
        0 <= i,
        end <= file.ops.len() <= MAX_OPS,
    ensures
        rows_fit(split_rows(file.ops, idx, i, end), file, idx),
    decreases end - i,
{
    if i < end {
        if file.ops[i].kind is Context {
            lemma_split_rows_fit(file, idx, i + 1, end);
        } else {
            lemma_run_end(file.ops, i, end, OpKind::Removed);
            let added = run_end(file.ops, i, end, OpKind::Removed);
            lemma_run_end(file.ops, added, end, OpKind::Added);
            lemma_split_rows_fit(file, idx, run_end(file.ops, added, end, OpKind::Added), end);
        }
    }
}

proof fn lemma_hunks_rows_fit(file: FileView, idx: usize, split: bool, n: int)
    requires
        file.wf(),
        !file.collapsed,
        !file.binary,
        n <= file.hunks.len(),
    ensures
        rows_fit(hunks_rows(file, idx, split, n), file, idx),
    decreases n,
{
    if n > 0 {
        lemma_hunks_rows_fit(file, idx, split, n - 1);
        assert(file.hunks[n - 1].end <= file.ops.len());
        if n - 1 < file.hunks.len() {
            lemma_hunk_count(file);
        }
        lemma_split_rows_fit(file, idx, file.hunks[n - 1].start as int, file.hunks[n - 1].end as int);
        assert(rows_fit(hunk_rows(file, idx, n - 1, split), file, idx));
    }
}

/// A file has no more hunks than ops.
proof fn lemma_hunk_count(file: FileView)
    requires
        file.wf(),
    ensures
        file.hunks.len() <= file.ops.len(),
{
    lemma_hunk_ends(file, file.hunks.len() as int);
}

proof fn lemma_hunk_ends(file: FileView, n: int)
    requires
        file.wf(),
        0 <= n <= file.hunks.len(),
    ensures
        n > 0 ==> n <= file.hunks[n - 1].end,
        n <= file.ops.len(),
    decreases n,
{
    if n > 0 {
        lemma_hunk_ends(file, n - 1);
        assert(file.hunks[n - 1].start < file.hunks[n - 1].end <= file.ops.len());
        if n > 1 {
            assert(file.hunks[n - 2].end < file.hunks[n - 1].start);
        }
    }
}

proof fn lemma_file_rows_fit(file: FileView, idx: usize, split: bool)
    requires
        file.wf(),
    ensures
        rows_fit(file_rows(file, idx, split), file, idx),
{
    if !file.collapsed && !file.binary {
        lemma_hunks_rows_fit(file, idx, split, file.hunks.len() as int);
    }
}

/// Every displayed row refers to a file, a hunk and ops that exist; a
/// side-by-side row has its removal on the left and its addition on the right.
pub proof fn law_rows_fit(files: Seq<FileView>, split: bool)
    requires
        files.len() <= usize::MAX,
        forall|i: int| 0 <= i < files.len() ==> (#[trigger] files[i]).wf(),
    ensures
        forall|k: int|
            0 <= k < all_rows(files, split).len() ==> row_fits(
                #[trigger] all_rows(files, split)[k],
                files,
            ),
{
    lemma_rows_fit_upto(files, split, files.len() as int);
}

proof fn lemma_rows_fit_upto(files: Seq<FileView>, split: bool, n: int)
    requires
        files.len() <= usize::MAX,
        0 <= n <= files.len(),
        forall|i: int| 0 <= i < files.len() ==> (#[trigger] files[i]).wf(),
    ensures
        forall|k: int|
            0 <= k < rows_upto(files, split, n).len() ==> row_fits(
                #[trigger] rows_upto(files, split, n)[k],
                files,
            ),
    decreases n,
{
    if n > 0 {
        lemma_rows_fit_upto(files, split, n - 1);
        lemma_file_rows_fit(files[n - 1], (n - 1) as usize, split);
        let own = file_rows(files[n - 1], (n - 1) as usize, split);
        assert forall|k: int| 0 <= k < rows_upto(files, split, n).len() implies row_fits(
            #[trigger] rows_upto(files, split, n)[k],
            files,
        ) by {
            let before = rows_upto(files, split, n - 1).len();
            if k >= before {
                assert(rows_upto(files, split, n)[k] == own[k - before]);
            }
        }
    }
}

/// The row is one of the unified view or of the side-by-side view, unless both
/// views have it.
pub open spec fn row_of_view(row: Row, split: bool) -> bool {
    &&& row is Line ==> !split
    &&& row is SplitLine ==> split
}

/// Every displayed row is one of the view that is shown.
pub proof fn law_rows_are_of_the_view(files: Seq<FileView>, split: bool)
    ensures
        forall|k: int|
            0 <= k < all_rows(files, split).len() ==> row_of_view(
                #[trigger] all_rows(files, split)[k],
                split,
            ),
{
    lemma_rows_of_view_upto(files, split, files.len() as int);
}

proof fn lemma_split_rows_of_view(ops: Seq<Op>, idx: usize, i: int, end: int)
    ensures
        forall|k: int|
            0 <= k < split_rows(ops, idx, i, end).len() ==> (#[trigger] split_rows(
                ops,
                idx,
                i,
                end,
            )[k]) is SplitLine,
    decreases end - i,
{
    if i < end {
        if ops[i].kind is Context {
            lemma_split_rows_of_view(ops, idx, i + 1, end);
        } else {
            lemma_run_end(ops, i, end, OpKind::Removed);
            let added = run_end(ops, i, end, OpKind::Removed);
            lemma_run_end(ops, added, end, OpKind::Added);
            lemma_split_rows_of_view(ops, idx, run_end(ops, added, end, OpKind::Added), end);
        }
    }
}

proof fn lemma_hunks_rows_of_view(file: FileView, idx: usize, split: bool, n: int)
    requires
        n <= file.hunks.len(),
    ensures
        forall|k: int|
            0 <= k < hunks_rows(file, idx, split, n).len() ==> row_of_view(
                #[trigger] hunks_rows(file, idx, split, n)[k],
                split,
            ),
    decreases n,
{
    if n > 0 {
        lemma_hunks_rows_of_view(file, idx, split, n - 1);
        lemma_split_rows_of_view(
            file.ops,
            idx,
            file.hunks[n - 1].start as int,
            file.hunks[n - 1].end as int,
        );
        let own = hunk_rows(file, idx, n - 1, split);
        assert forall|k: int| 0 <= k < own.len() implies row_of_view(#[trigger] own[k], split) by {}
        let before = hunks_rows(file, idx, split, n - 1).len();
        let all = hunks_rows(file, idx, split, n);
        assert forall|k: int| 0 <= k < all.len() implies row_of_view(#[trigger] all[k], split) by {
            if k >= before {
                assert(all[k] == own[k - before]);
            }
        }
    }
}

proof fn lemma_rows_of_view_upto(files: Seq<FileView>, split: bool, n: int)
    requires
        n <= files.len(),
    ensures
        forall|k: int|
            0 <= k < rows_upto(files, split, n).len() ==> row_of_view(
                #[trigger] rows_upto(files, split, n)[k],
                split,
            ),
    decreases n,
{
    if n > 0 {
        lemma_rows_of_view_upto(files, split, n - 1);
        let file = files[n - 1];
        lemma_hunks_rows_of_view(file, (n - 1) as usize, split, file.hunks.len() as int);
        let own = file_rows(file, (n - 1) as usize, split);
        assert forall|k: int| 0 <= k < own.len() implies row_of_view(#[trigger] own[k], split) by {}
        let before = rows_upto(files, split, n - 1).len();
        let all = rows_upto(files, split, n);
        assert forall|k: int| 0 <= k < all.len() implies row_of_view(#[trigger] all[k], split) by {
            if k >= before {
                assert(all[k] == own[k - before]);
            }
        }
    }
}

/// One half of a side-by-side row: the old side or the new side.
pub open spec fn half(row: Row, old_side: bool) -> usize {
    match row {
        Row::SplitLine { file, left, right } => if old_side {
            left
        } else {
            right
        },
        _ => NO_LINE,
    }
}

/// The ops shown in one half of side-by-side rows, from top to bottom.
pub open spec fn shown_ops(rows: Seq<Row>, old_side: bool) -> Seq<int>
    decreases rows.len(),
{
    if rows.len() == 0 {
        Seq::empty()
    } else {
        let op = half(rows.last(), old_side);
        shown_ops(rows.drop_last(), old_side) + if op == NO_LINE {
            Seq::empty()
        } else {
            seq![op as int]
        }
    }
}

/// The ops from `i` to `end` that have a line on one side, in order.
pub open spec fn side_ops(ops: Seq<Op>, i: int, end: int, old_side: bool) -> Seq<int>
    decreases end - i,
{
    if i >= end {
        Seq::empty()
    } else {
        side_ops(ops, i, end - 1, old_side) + if ops[end - 1].kind == (if old_side {
            OpKind::Added
        } else {
            OpKind::Removed
        }) {
            Seq::empty()
        } else {
            seq![end - 1]
        }
    }
}

/// The side-by-side view shows, on the left, every old line of the hunk in
/// order and nothing else, and likewise every new line on the right.
pub proof fn law_split_rows_show_each_side(
    ops: Seq<Op>,
    file: usize,
    i: int,
    end: int,
    old_side: bool,
)
    requires
        0 <= i <= end <= ops.len() <= MAX_OPS,
    ensures
        shown_ops(split_rows(ops, file, i, end), old_side) == side_ops(ops, i, end, old_side),
    decreases end - i,
{
    if i < end {
        if ops[i].kind is Context {
            law_split_rows_show_each_side(ops, file, i + 1, end, old_side);
            let row = Row::SplitLine { file, left: i as usize, right: i as usize };
            lemma_shown_concat(seq![row], split_rows(ops, file, i + 1, end), old_side);
            assert(seq![row].drop_last() =~= Seq::<Row>::empty());
            assert(shown_ops(seq![row], old_side) =~= seq![i]) by {
                reveal_with_fuel(shown_ops, 2);
            }
            assert(side_ops(ops, i, i + 1, old_side) =~= seq![i]) by {
                reveal_with_fuel(side_ops, 2);
            }
            lemma_side_concat(ops, i, i + 1, end, old_side);
        } else {
            lemma_run_end(ops, i, end, OpKind::Removed);
            let added = run_end(ops, i, end, OpKind::Removed);
            lemma_run_end(ops, added, end, OpKind::Added);
            let after = run_end(ops, added, end, OpKind::Added);
            law_split_rows_show_each_side(ops, file, after, end, old_side);
            let pairs = paired_rows(file, i, added, after);
            lemma_shown_concat(pairs, split_rows(ops, file, after, end), old_side);
            lemma_shown_pairs(file, i, added, after, pairs.len() as int, old_side);
            assert(pairs.take(pairs.len() as int) =~= pairs);
            lemma_side_run(ops, i, added, old_side, OpKind::Removed);
            lemma_side_run(ops, added, after, old_side, OpKind::Added);
            lemma_side_concat(ops, i, added, after, old_side);
            lemma_side_concat(ops, i, after, end, old_side);
            assert(shown_ops(pairs, old_side) =~= side_ops(ops, i, after, old_side));
        }
    }
}

proof fn lemma_shown_concat(a: Seq<Row>, b: Seq<Row>, old_side: bool)
    ensures
        shown_ops(a + b, old_side) == shown_ops(a, old_side) + shown_ops(b, old_side),
    decreases b.len(),
{
    if b.len() == 0 {
        assert(a + b =~= a);
    } else {
        lemma_shown_concat(a, b.drop_last(), old_side);
        assert((a + b).drop_last() =~= a + b.drop_last());
    }
}

proof fn lemma_side_concat(ops: Seq<Op>, i: int, mid: int, end: int, old_side: bool)
    requires
        i <= mid <= end,
    ensures
        side_ops(ops, i, end, old_side) == side_ops(ops, i, mid, old_side) + side_ops(
            ops,
            mid,
            end,
            old_side,
        ),
    decreases end - mid,
{
    if mid < end {
        lemma_side_concat(ops, i, mid, end - 1, old_side);
    }
}

/// The numbers from `i` to `end`.
spec fn numbers(i: int, end: int) -> Seq<int> {
    Seq::new((end - i) as nat, |k: int| i + k)
}

proof fn lemma_side_run(ops: Seq<Op>, i: int, end: int, old_side: bool, kind: OpKind)
    requires
        i <= end,
        !(kind is Context),
        forall|k: int| i <= k < end ==> (#[trigger] ops[k]).kind == kind,
    ensures
        side_ops(ops, i, end, old_side) == if old_side == (kind is Removed) {
            numbers(i, end)
        } else {
            Seq::empty()
        },
    decreases end - i,
{
    if i < end {
        lemma_side_run(ops, i, end - 1, old_side, kind);
        assert(numbers(i, end) =~= numbers(i, end - 1).push(end - 1));
    }
}

proof fn lemma_shown_pairs(
    file: usize,
    removed: int,
    added: int,
    end: int,
    n: int,
    old_side: bool,
)
    requires
        0 <= removed <= added <= end <= MAX_OPS,
        0 <= n <= paired_rows(file, removed, added, end).len(),
    ensures
        shown_ops(paired_rows(file, removed, added, end).take(n), old_side) == ({
            let first = if old_side {
                removed
            } else {
                added
            };
            let last = if old_side {
                added
            } else {
                end
            };
            numbers(
                first,
                if first + n < last {
                    first + n
                } else {
                    last
                },
            )
        }),
    decreases n,
{
    let pairs = paired_rows(file, removed, added, end);
    if n > 0 {
        lemma_shown_pairs(file, removed, added, end, n - 1, old_side);
        assert(pairs.take(n).drop_last() =~= pairs.take(n - 1));
        let first = if old_side {
            removed
        } else {
            added
        };
        let last = if old_side {
            added
        } else {
            end
        };
        if first + n <= last {
            assert(numbers(first, first + n) =~= numbers(first, first + n - 1).push(first + n - 1));
        }
    }
}

/// The rows of fewer files are the first of the rows of more files.
proof fn lemma_rows_prefix(files: Seq<FileView>, split: bool, n: int, m: int)
    requires
        0 <= n <= m <= files.len(),
    ensures
        rows_upto(files, split, n).len() <= rows_upto(files, split, m).len(),
        forall|k: int|
            0 <= k < rows_upto(files, split, n).len() ==> #[trigger] rows_upto(files, split, m)[k]
                == rows_upto(files, split, n)[k],
    decreases m,
{
    if n < m {
        lemma_rows_prefix(files, split, n, m - 1);
    }
}

/// Every file has its header among the rows, collapsed or not.
pub proof fn law_file_header_is_shown(files: Seq<FileView>, split: bool, idx: usize)
    requires
        idx < files.len(),
    ensures
        all_rows(files, split).contains(Row::FileHeader { file: idx }),
{
    let n = rows_upto(files, split, idx as int).len() as int;
    lemma_rows_prefix(files, split, idx + 1, files.len() as int);
    assert(rows_upto(files, split, idx + 1)[n] == file_rows(files[idx as int], idx, split)[0]);
    assert(all_rows(files, split)[n] == Row::FileHeader { file: idx });
}

proof fn lemma_hunks_prefix(file: FileView, idx: usize, split: bool, n: int, m: int)
    requires
        0 <= n <= m,
    ensures
        hunks_rows(file, idx, split, n).len() <= hunks_rows(file, idx, split, m).len(),
        forall|k: int|
            0 <= k < hunks_rows(file, idx, split, n).len() ==> #[trigger] hunks_rows(
                file,
                idx,
                split,
                m,
            )[k] == hunks_rows(file, idx, split, n)[k],
    decreases m,
{
    if n < m {
        lemma_hunks_prefix(file, idx, split, n, m - 1);
    }
}

/// A file that is neither collapsed nor binary shows the header of each hunk.
pub proof fn law_hunk_header_is_shown(
    files: Seq<FileView>,
    split: bool,
    idx: usize,
    hunk: usize,
)
    requires
        idx < files.len(),
        !files[idx as int].collapsed,
        !files[idx as int].binary,
        hunk < files[idx as int].hunks.len(),
    ensures
        all_rows(files, split).contains(Row::HunkHeader { file: idx, hunk }),
{
    let file = files[idx as int];
    let h = hunks_rows(file, idx, split, hunk as int).len() as int;
    lemma_hunks_prefix(file, idx, split, hunk + 1, file.hunks.len() as int);
    assert(hunks_rows(file, idx, split, hunk + 1)[h] == hunk_rows(file, idx, hunk as int, split)[0]);
    assert(body_rows(file, idx, split)[h] == Row::HunkHeader { file: idx, hunk });
    assert(file_rows(file, idx, split)[h + 1] == Row::HunkHeader { file: idx, hunk });
    let n = rows_upto(files, split, idx as int).len() as int;
    lemma_rows_prefix(files, split, idx + 1, files.len() as int);
    assert(rows_upto(files, split, idx + 1)[n + h + 1] == file_rows(file, idx, split)[h + 1]);
    assert(all_rows(files, split)[n + h + 1] == Row::HunkHeader { file: idx, hunk });
}

} // verus!
