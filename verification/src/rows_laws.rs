//! Laws of the rows that files are displayed as.

use crate::align::{Op, OpKind, MAX_OPS, NO_LINE};
use crate::file_diff::{FileStatus, FileView};
use crate::rows::{self, Notice, Row};
use vstd::prelude::*;

verus! {

/// The rows are those of the files, one file below the other.
pub proof fn law_files_follow_each_other(files: Seq<FileView>, file: FileView, split: bool)
    ensures
        rows::all_rows(Seq::empty(), split) == Seq::<Row>::empty(),
        rows::all_rows(files.push(file), split) == rows::all_rows(files, split) + rows::file_rows(
            file,
            files.len() as usize,
            split,
        ),
{
    lemma_upto(files, files.push(file), split, files.len() as int);
    assert(files.push(file).len() == files.len() + 1);
}

proof fn lemma_upto(a: Seq<FileView>, b: Seq<FileView>, split: bool, n: int)
    requires
        0 <= n <= a.len(),
        n <= b.len(),
        forall|i: int| 0 <= i < n ==> a[i] == b[i],
    ensures
        rows::rows_upto(a, split, n) == rows::rows_upto(b, split, n),
    decreases n,
{
    if n > 0 {
        lemma_upto(a, b, split, n - 1);
        assert(a[n - 1] == b[n - 1]);
    }
}

/// A file has its header first. A folded file has nothing else. A binary file,
/// and one without changes, has a note that says so.
pub proof fn law_rows_without_hunks(file: FileView, idx: usize, split: bool)
    ensures
        ({
            let own = rows::file_rows(file, idx, split);
            &&& own.len() > 0
            &&& own[0] == (Row::FileHeader { file: idx })
            &&& file.collapsed ==> own.len() == 1
            &&& !file.collapsed && file.binary ==> own.len() == 2 && own[1] == (Row::Note {
                file: idx,
                notice: Notice::Binary,
            })
            &&& !file.collapsed && !file.binary && file.hunks.len() == 0 ==> own.len() == 2
                && own[1] == (Row::Note {
                file: idx,
                notice: if file.status == FileStatus::Renamed {
                    Notice::OnlyRenamed
                } else {
                    Notice::Unchanged
                },
            })
        }),
{
}

/// Where the header of a hunk stands among the rows of a file in the unified
/// view: behind the header of the file and the hunks before it.
pub open spec fn hunk_place(file: FileView, hunk: int) -> int
    decreases hunk,
{
    if hunk <= 0 {
        1
    } else {
        hunk_place(file, hunk - 1) + 1 + (file.hunks[hunk - 1].end - file.hunks[hunk - 1].start)
    }
}

/// In the unified view a file shows its hunks one below the other: each with its
/// header and then its ops, in order. Below the last one there is a row to show
/// more exactly if there is more.
pub proof fn law_unified_rows(file: FileView, idx: usize, hunk: int, k: int)
    requires
        file.wf(),
        !file.collapsed,
        !file.binary,
        0 <= hunk < file.hunks.len(),
        0 <= k < file.hunks[hunk].end - file.hunks[hunk].start,
    ensures
        ({
            let own = rows::file_rows(file, idx, false);
            let at = hunk_place(file, hunk);
            let end = hunk_place(file, file.hunks.len() as int);
            let more = file.hunks[file.hunks.len() - 1].end < file.ops.len();
            &&& 0 < at && at + 1 + k < end
            &&& own[at] == (Row::HunkHeader { file: idx, hunk: hunk as usize })
            &&& own[at + 1 + k] == (Row::Line {
                file: idx,
                op: (file.hunks[hunk].start + k) as usize,
            })
            &&& own.len() == end + if more {
                1int
            } else {
                0
            }
            &&& more ==> own[end] == (Row::ExpandTail { file: idx })
        }),
{
    let n = file.hunks.len() as int;
    lemma_hunks_len(file, idx, n);
    lemma_hunks_at(file, idx, n, hunk, k);
    let body = rows::hunks_rows(file, idx, false, n);
    let own = rows::file_rows(file, idx, false);
    assert(file.hunks[n - 1].end <= file.ops.len());
    assert(own.subrange(1, body.len() as int + 1) =~= body);
    let at = hunk_place(file, hunk) - 1;
    assert(own[1 + at] == body[at]);
    assert(own[1 + at + 1 + k] == body[at + 1 + k]);
}

proof fn lemma_hunks_len(file: FileView, idx: usize, n: int)
    requires
        file.wf(),
        0 <= n <= file.hunks.len(),
    ensures
        rows::hunks_rows(file, idx, false, n).len() == hunk_place(file, n) - 1,
        hunk_place(file, n) >= 1,
    decreases n,
{
    if n > 0 {
        lemma_hunks_len(file, idx, n - 1);
        assert(file.hunks[n - 1].start < file.hunks[n - 1].end);
    }
}

proof fn lemma_hunks_at(file: FileView, idx: usize, n: int, hunk: int, k: int)
    requires
        file.wf(),
        0 <= hunk < n <= file.hunks.len(),
        0 <= k < file.hunks[hunk].end - file.hunks[hunk].start,
    ensures
        ({
            let body = rows::hunks_rows(file, idx, false, n);
            let at = hunk_place(file, hunk) - 1;
            &&& 0 <= at && at + 1 + k < body.len()
            &&& body[at] == (Row::HunkHeader { file: idx, hunk: hunk as usize })
            &&& body[at + 1 + k] == (Row::Line {
                file: idx,
                op: (file.hunks[hunk].start + k) as usize,
            })
        }),
    decreases n,
{
    lemma_hunks_len(file, idx, n - 1);
    lemma_hunks_len(file, idx, hunk);
    if hunk < n - 1 {
        lemma_hunks_at(file, idx, n - 1, hunk, k);
    } else {
        let before = rows::hunks_rows(file, idx, false, n - 1);
        let own = rows::hunk_rows(file, idx, n - 1, false);
        let body = rows::hunks_rows(file, idx, false, n);
        assert(body == before + own);
        assert(body[before.len() as int] == own[0]);
        assert(body[before.len() + 1 + k] == own[1 + k]);
    }
}

/// In the side-by-side view a file shows its hunks one below the other, each
/// with its header and then its ops, and below the last one a row to show more
/// exactly if there is more.
pub proof fn law_split_hunks(file: FileView, idx: usize, n: int)
    requires
        !file.collapsed,
        !file.binary,
        0 <= n < file.hunks.len(),
    ensures
        rows::hunks_rows(file, idx, true, n + 1) == rows::hunks_rows(file, idx, true, n) + seq![
            Row::HunkHeader { file: idx, hunk: n as usize },
        ] + rows::split_rows(
            file.ops,
            idx,
            file.hunks[n].start as int,
            file.hunks[n].end as int,
        ),
        rows::file_rows(file, idx, true) == seq![Row::FileHeader { file: idx }] + rows::hunks_rows(
            file,
            idx,
            true,
            file.hunks.len() as int,
        ) + (if file.hunks[file.hunks.len() - 1].end < file.ops.len() {
            seq![Row::ExpandTail { file: idx }]
        } else {
            Seq::empty()
        }),
{
    assert(rows::hunks_rows(file, idx, true, n + 1) =~= rows::hunks_rows(file, idx, true, n) + seq![
        Row::HunkHeader { file: idx, hunk: n as usize },
    ] + rows::split_rows(
        file.ops,
        idx,
        file.hunks[n].start as int,
        file.hunks[n].end as int,
    ));
    let tail: Seq<Row> = if file.hunks[file.hunks.len() - 1].end < file.ops.len() {
        seq![Row::ExpandTail { file: idx }]
    } else {
        Seq::empty()
    };
    assert(rows::file_rows(file, idx, true) =~= seq![Row::FileHeader { file: idx }]
        + rows::hunks_rows(file, idx, true, file.hunks.len() as int) + tail);
}

/// Side by side, a line of both versions is shown on both sides of one row. A
/// run of removed lines followed by added ones is shown as so many rows as the
/// longer of the two: the `k`-th removed line on the left of the `k`-th row, the
/// `k`-th added one on its right.
pub proof fn law_side_by_side(ops: Seq<Op>, file: usize, i: int, mid: int, end: int, stop: int)
    requires
        0 <= i <= mid <= end <= stop <= ops.len() <= MAX_OPS,
        i < end,
        forall|k: int| i <= k < mid ==> (#[trigger] ops[k]).kind == OpKind::Removed,
        forall|k: int| mid <= k < end ==> (#[trigger] ops[k]).kind == OpKind::Added,
        end < stop ==> ops[end].kind == OpKind::Context,
    ensures
        ({
            let shown = rows::split_rows(ops, file, i, stop);
            let n = if mid - i < end - mid {
                end - mid
            } else {
                mid - i
            };
            &&& shown.len() >= n
            &&& shown.skip(n) == rows::split_rows(ops, file, end, stop)
            &&& forall|k: int|
                0 <= k < n ==> #[trigger] shown[k] == (Row::SplitLine {
                    file,
                    left: if k < mid - i {
                        (i + k) as usize
                    } else {
                        NO_LINE
                    },
                    right: if k < end - mid {
                        (mid + k) as usize
                    } else {
                        NO_LINE
                    },
                })
        }),
        end < stop ==> rows::split_rows(ops, file, end, stop) == seq![
            Row::SplitLine { file, left: end as usize, right: end as usize },
        ] + rows::split_rows(ops, file, end + 1, stop),
{
    lemma_run(ops, i, mid, stop, OpKind::Removed);
    lemma_run(ops, mid, end, stop, OpKind::Added);
    let shown = rows::split_rows(ops, file, i, stop);
    let first = ops[i];
    assert(!(first.kind is Context));
    let pairs = rows::paired_rows(file, i, mid, end);
    assert(shown == pairs + rows::split_rows(ops, file, end, stop));
    assert(shown.skip(pairs.len() as int) =~= rows::split_rows(ops, file, end, stop));
}

proof fn lemma_run(ops: Seq<Op>, i: int, end: int, stop: int, kind: OpKind)
    requires
        0 <= i <= end <= stop <= ops.len(),
        forall|k: int| i <= k < end ==> (#[trigger] ops[k]).kind == kind,
        end < stop ==> ops[end].kind != kind,
    ensures
        rows::run_end(ops, i, stop, kind) == end,
    decreases end - i,
{
    if i < end {
        assert(ops[i].kind == kind);
        lemma_run(ops, i + 1, end, stop, kind);
    }
}

} // verus!
