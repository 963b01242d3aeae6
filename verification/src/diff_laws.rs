//! What makes a diff a right one.

use crate::align::{self, Change, Op, OpKind, CONTEXT_LINES, MAX_LINES, NO_LINE};
use crate::align_laws;
use crate::file_diff::FileView;
use crate::text;
use std::ops::Range;
use vstd::prelude::*;

verus! {

/// Two lines count as the same: they have the same words where white space is
/// ignored, and are equal where it is not.
pub open spec fn lines_agree(a: Seq<char>, b: Seq<char>, ignore_whitespace: bool) -> bool {
    if ignore_whitespace {
        text::words(a) == text::words(b)
    } else {
        a == b
    }
}

/// Two versions of a file count as the same, line by line.
pub open spec fn versions_agree(
    old: Seq<Seq<char>>,
    new: Seq<Seq<char>>,
    ignore_whitespace: bool,
) -> bool {
    &&& old.len() == new.len()
    &&& forall|i: int| 0 <= i < old.len() ==> lines_agree(
        #[trigger] old[i],
        new[i],
        ignore_whitespace,
    )
}

/// How many of the first `n` ops have an old line.
pub open spec fn old_lines_before(ops: Seq<Op>, n: int) -> int
    decreases n,
{
    if n <= 0 {
        0
    } else {
        old_lines_before(ops, n - 1) + if ops[n - 1].old != NO_LINE {
            1int
        } else {
            0
        }
    }
}

/// How many of the first `n` ops have a new line.
pub open spec fn new_lines_before(ops: Seq<Op>, n: int) -> int
    decreases n,
{
    if n <= 0 {
        0
    } else {
        new_lines_before(ops, n - 1) + if ops[n - 1].new != NO_LINE {
            1int
        } else {
            0
        }
    }
}

/// How many of the first `n` ops are of a kind.
pub open spec fn ops_of_kind(ops: Seq<Op>, n: int, kind: OpKind) -> int
    decreases n,
{
    if n <= 0 {
        0
    } else {
        ops_of_kind(ops, n - 1, kind) + if ops[n - 1].kind == kind {
            1int
        } else {
            0
        }
    }
}

/// An op stands for a line of both versions, which counts as the same in both,
/// for a line of the old version only, or for one of the new version only.
pub open spec fn op_stands_for_line(
    old: Seq<Seq<char>>,
    new: Seq<Seq<char>>,
    ignore_whitespace: bool,
    op: Op,
) -> bool {
    match op.kind {
        OpKind::Context => {
            &&& op.old < old.len()
            &&& op.new < new.len()
            &&& lines_agree(old[op.old as int], new[op.new as int], ignore_whitespace)
        },
        OpKind::Removed => op.old < old.len() && op.new == NO_LINE,
        OpKind::Added => op.old == NO_LINE && op.new < new.len(),
    }
}

/// A list of ops is a diff of two versions: each line of either version has one
/// op, in order.
pub open spec fn aligns(
    old: Seq<Seq<char>>,
    new: Seq<Seq<char>>,
    ignore_whitespace: bool,
    ops: Seq<Op>,
) -> bool {
    &&& forall|k: int|
        0 <= k < ops.len() ==> op_stands_for_line(
            old,
            new,
            ignore_whitespace,
            #[trigger] ops[k],
        )
    &&& forall|k: int|
        0 <= k < ops.len() && (#[trigger] ops[k]).old != NO_LINE ==> ops[k].old == old_lines_before(
            ops,
            k,
        )
    &&& forall|k: int|
        0 <= k < ops.len() && (#[trigger] ops[k]).new != NO_LINE ==> ops[k].new == new_lines_before(
            ops,
            k,
        )
    &&& old_lines_before(ops, ops.len() as int) == old.len()
    &&& new_lines_before(ops, ops.len() as int) == new.len()
}

/// An op is a changed line, or stands at most three ops away from one.
pub open spec fn is_near_change(ops: Seq<Op>, k: int) -> bool {
    exists|j: int|
        0 <= j < ops.len() && k - 3 <= j <= k + 3 && (#[trigger] ops[j]).kind != OpKind::Context
}

/// The hunks of a diff: ranges of ops, in order, with hidden ops between any
/// two, that show the changed lines and three lines around each.
pub open spec fn are_hunks(ops: Seq<Op>, hunks: Seq<Range<usize>>) -> bool {
    &&& forall|i: int|
        0 <= i < hunks.len() ==> (#[trigger] hunks[i]).start < hunks[i].end && hunks[i].end
            <= ops.len()
    &&& forall|i: int, j: int|
        0 <= i < j < hunks.len() ==> (#[trigger] hunks[i]).end < (#[trigger] hunks[j]).start
    &&& forall|k: int|
        0 <= k < ops.len() ==> (#[trigger] align_laws::displayed(hunks, k) <==> is_near_change(
            ops,
            k,
        ))
}

/// Ops, hunks and counts are those of a diff of two versions. There are hunks
/// exactly where the versions do not count as the same.
pub open spec fn is_diff(
    old: Seq<Seq<char>>,
    new: Seq<Seq<char>>,
    ignore_whitespace: bool,
    ops: Seq<Op>,
    hunks: Seq<Range<usize>>,
    additions: int,
    deletions: int,
) -> bool {
    &&& aligns(old, new, ignore_whitespace, ops)
    &&& are_hunks(ops, hunks)
    &&& additions == ops_of_kind(ops, ops.len() as int, OpKind::Added)
    &&& deletions == ops_of_kind(ops, ops.len() as int, OpKind::Removed)
    &&& hunks.len() == 0 ==> additions == 0 && deletions == 0 && versions_agree(
        old,
        new,
        ignore_whitespace,
    )
}

/// A file shows the diff of its two versions, unless it is binary or has too many
/// lines for one.
#[verifier::opaque]
pub open spec fn shows_diff(file: FileView, ignore_whitespace: bool) -> bool {
    !file.binary && align::comparable(file.old_lines, file.new_lines, ignore_whitespace) ==> {
        &&& is_diff(
            file.old_lines,
            file.new_lines,
            ignore_whitespace,
            file.ops,
            file.hunks,
            file.additions,
            file.deletions,
        )
        &&& file.hunks.len() == 0 <==> versions_agree(
            file.old_lines,
            file.new_lines,
            ignore_whitespace,
        )
    }
}

/// All files show the diffs of their two versions.
pub open spec fn all_show_diffs(files: Seq<FileView>, ignore_whitespace: bool) -> bool {
    forall|i: int| 0 <= i < files.len() ==> shows_diff(#[trigger] files[i], ignore_whitespace)
}

/// Every edit script between the lines that are compared gives a right diff.
pub proof fn law_alignment_is_a_diff(
    old: Seq<Seq<char>>,
    new: Seq<Seq<char>>,
    ignore_whitespace: bool,
    changes: Seq<Change>,
)
    requires
        align::is_script(changes, old.len(), new.len()),
        align::rest_agrees(
            align::compared(old, ignore_whitespace),
            align::compared(new, ignore_whitespace),
            changes,
        ),
        old.len() <= MAX_LINES,
        new.len() <= MAX_LINES,
    ensures
        ({
            let a = align::alignment(old, new, changes);
            is_diff(old, new, ignore_whitespace, a.ops, a.hunks, a.additions, a.deletions)
        }),
{
    let a = align::alignment(old, new, changes);
    lemma_aligns(old, new, ignore_whitespace, changes);
    lemma_hunks(old, new, ignore_whitespace, changes);
    if a.hunks.len() == 0 {
        align_laws::law_hunks_show_changes_with_context(old, new, changes);
        align_laws::law_no_changes_means_equal(old, new, ignore_whitespace, changes);
        lemma_versions_agree(old, new, ignore_whitespace);
    }
}

proof fn lemma_aligns(
    old: Seq<Seq<char>>,
    new: Seq<Seq<char>>,
    ignore_whitespace: bool,
    changes: Seq<Change>,
)
    requires
        align::is_script(changes, old.len(), new.len()),
        align::rest_agrees(
            align::compared(old, ignore_whitespace),
            align::compared(new, ignore_whitespace),
            changes,
        ),
        old.len() <= MAX_LINES,
        new.len() <= MAX_LINES,
    ensures
        ({
            let a = align::alignment(old, new, changes);
            &&& aligns(old, new, ignore_whitespace, a.ops)
            &&& a.additions == ops_of_kind(a.ops, a.ops.len() as int, OpKind::Added)
            &&& a.deletions == ops_of_kind(a.ops, a.ops.len() as int, OpKind::Removed)
        }),
{
    let a = align::alignment(old, new, changes);
    let ops = a.ops;
    align_laws::law_alignment_is_complete(old, new, changes);
    lemma_ops(old, new, ignore_whitespace, changes);
    lemma_in_order(ops, old.len() as int, new.len() as int);
    lemma_kinds(ops, ops.len() as int);
    assert(ops.take(ops.len() as int) =~= ops);
}

proof fn lemma_ops(
    old: Seq<Seq<char>>,
    new: Seq<Seq<char>>,
    ignore_whitespace: bool,
    changes: Seq<Change>,
)
    requires
        align::is_script(changes, old.len(), new.len()),
        align::rest_agrees(
            align::compared(old, ignore_whitespace),
            align::compared(new, ignore_whitespace),
            changes,
        ),
        old.len() <= MAX_LINES,
        new.len() <= MAX_LINES,
    ensures
        forall|k: int|
            0 <= k < align::alignment(old, new, changes).ops.len() ==> op_stands_for_line(
                old,
                new,
                ignore_whitespace,
                #[trigger] align::alignment(old, new, changes).ops[k],
            ),
{
    let ops = align::alignment(old, new, changes).ops;
    align_laws::law_hunks_show_changes_with_context(old, new, changes);
    align_laws::law_context_lines_agree(old, new, ignore_whitespace, changes);
    assert forall|k: int| 0 <= k < ops.len() implies op_stands_for_line(
        old,
        new,
        ignore_whitespace,
        #[trigger] ops[k],
    ) by {
        assert(align_laws::op_fits(ops[k], old.len(), new.len()));
        if ops[k].kind == OpKind::Context {
            lemma_compared(old, new, ops[k].old as int, ops[k].new as int, ignore_whitespace);
        }
    }
}

proof fn lemma_hunks(
    old: Seq<Seq<char>>,
    new: Seq<Seq<char>>,
    ignore_whitespace: bool,
    changes: Seq<Change>,
)
    requires
        align::is_script(changes, old.len(), new.len()),
        align::rest_agrees(
            align::compared(old, ignore_whitespace),
            align::compared(new, ignore_whitespace),
            changes,
        ),
        old.len() <= MAX_LINES,
        new.len() <= MAX_LINES,
    ensures
        are_hunks(
            align::alignment(old, new, changes).ops,
            align::alignment(old, new, changes).hunks,
        ),
{
    let a = align::alignment(old, new, changes);
    let ops = a.ops;
    align_laws::law_hunks_show_changes_with_context(old, new, changes);
    assert forall|k: int| 0 <= k < ops.len() implies (#[trigger] align_laws::displayed(a.hunks, k)
        <==> is_near_change(ops, k)) by {
        if is_near_change(ops, k) {
            let j = choose|j: int|
                0 <= j < ops.len() && k - 3 <= j <= k + 3 && (#[trigger] ops[j]).kind
                    != OpKind::Context;
            assert(k - CONTEXT_LINES <= j <= k + CONTEXT_LINES);
        }
    }
}

/// Versions whose compared lines are equal count as the same.
pub proof fn lemma_versions_agree(
    old: Seq<Seq<char>>,
    new: Seq<Seq<char>>,
    ignore_whitespace: bool,
)
    ensures
        align::compared(old, ignore_whitespace) == align::compared(new, ignore_whitespace)
            <==> versions_agree(old, new, ignore_whitespace),
{
    let left = align::compared(old, ignore_whitespace);
    let right = align::compared(new, ignore_whitespace);
    assert(left.len() == old.len());
    assert(right.len() == new.len());
    if left == right {
        assert forall|i: int| 0 <= i < old.len() implies lines_agree(
            #[trigger] old[i],
            new[i],
            ignore_whitespace,
        ) by {
            lemma_compared(old, new, i, i, ignore_whitespace);
        }
    }
    if versions_agree(old, new, ignore_whitespace) {
        assert forall|i: int| 0 <= i < left.len() implies left[i] == right[i] by {
            lemma_compared(old, new, i, i, ignore_whitespace);
            assert(lines_agree(old[i], new[i], ignore_whitespace));
        }
        assert(left =~= right);
    }
}

/// Comparing lines is asking whether they count as the same.
proof fn lemma_compared(
    old: Seq<Seq<char>>,
    new: Seq<Seq<char>>,
    i: int,
    j: int,
    ignore_whitespace: bool,
)
    requires
        0 <= i < old.len(),
        0 <= j < new.len(),
    ensures
        align::compared(old, ignore_whitespace)[i] == align::compared(new, ignore_whitespace)[j]
            <==> lines_agree(old[i], new[j], ignore_whitespace),
{
    text::law_normalize_keeps_words(old[i], new[j]);
}

proof fn lemma_in_order(ops: Seq<Op>, old_len: int, new_len: int)
    requires
        align_laws::old_side(ops) == align_laws::upto(0, old_len),
        align_laws::new_side(ops) == align_laws::upto(0, new_len),
        0 <= old_len,
        0 <= new_len,
    ensures
        forall|k: int|
            0 <= k < ops.len() && (#[trigger] ops[k]).old != NO_LINE ==> ops[k].old
                == old_lines_before(ops, k),
        forall|k: int|
            0 <= k < ops.len() && (#[trigger] ops[k]).new != NO_LINE ==> ops[k].new
                == new_lines_before(ops, k),
        old_lines_before(ops, ops.len() as int) == old_len,
        new_lines_before(ops, ops.len() as int) == new_len,
{
    assert(ops.take(ops.len() as int) =~= ops);
    lemma_sides_before(ops, ops.len() as int);
    assert forall|k: int| 0 <= k < ops.len() implies ((#[trigger] ops[k]).old != NO_LINE
        ==> ops[k].old == old_lines_before(ops, k)) && (ops[k].new != NO_LINE ==> ops[k].new
        == new_lines_before(ops, k)) by {
        lemma_sides_before(ops, k);
        lemma_sides_prefix(ops, k + 1);
        let here = ops.take(k + 1);
        assert(here.drop_last() =~= ops.take(k));
        assert(here.last() == ops[k]);
        if ops[k].old != NO_LINE {
            let at = old_lines_before(ops, k);
            assert(align_laws::old_side(here)[at] == ops[k].old as int);
            assert(align_laws::old_side(ops)[at] == at);
        }
        if ops[k].new != NO_LINE {
            let at = new_lines_before(ops, k);
            assert(align_laws::new_side(here)[at] == ops[k].new as int);
            assert(align_laws::new_side(ops)[at] == at);
        }
    }
}

proof fn lemma_sides_before(ops: Seq<Op>, k: int)
    requires
        0 <= k <= ops.len(),
    ensures
        align_laws::old_side(ops.take(k)).len() == old_lines_before(ops, k),
        align_laws::new_side(ops.take(k)).len() == new_lines_before(ops, k),
    decreases k,
{
    if k > 0 {
        lemma_sides_before(ops, k - 1);
        assert(ops.take(k).drop_last() =~= ops.take(k - 1));
        assert(ops.take(k).last() == ops[k - 1]);
    }
}

proof fn lemma_sides_prefix(ops: Seq<Op>, k: int)
    requires
        0 <= k <= ops.len(),
    ensures
        align_laws::old_side(ops.take(k)).is_prefix_of(align_laws::old_side(ops)),
        align_laws::new_side(ops.take(k)).is_prefix_of(align_laws::new_side(ops)),
    decreases ops.len() - k,
{
    assert(ops.take(ops.len() as int) =~= ops);
    if k < ops.len() {
        lemma_sides_prefix(ops, k + 1);
        assert(ops.take(k + 1).drop_last() =~= ops.take(k));
        lemma_prefix_of_prefix(
            align_laws::old_side(ops.take(k)),
            align_laws::old_side(ops.take(k + 1)),
            align_laws::old_side(ops),
        );
        lemma_prefix_of_prefix(
            align_laws::new_side(ops.take(k)),
            align_laws::new_side(ops.take(k + 1)),
            align_laws::new_side(ops),
        );
    }
}

proof fn lemma_prefix_of_prefix(a: Seq<int>, b: Seq<int>, c: Seq<int>)
    requires
        a == b || b.len() == a.len() + 1 && b.drop_last() =~= a,
        b.is_prefix_of(c),
    ensures
        a.is_prefix_of(c),
{
    assert forall|i: int| 0 <= i < a.len() implies a[i] == c[i] by {
        assert(b[i] == a[i]);
        assert(b[i] == c.subrange(0, b.len() as int)[i]);
    }
    assert(a =~= c.subrange(0, a.len() as int));
}

proof fn lemma_kinds(ops: Seq<Op>, k: int)
    requires
        0 <= k <= ops.len(),
    ensures
        align_laws::count_kind(ops.take(k), OpKind::Added) == ops_of_kind(ops, k, OpKind::Added),
        align_laws::count_kind(ops.take(k), OpKind::Removed) == ops_of_kind(
            ops,
            k,
            OpKind::Removed,
        ),
    decreases k,
{
    if k > 0 {
        lemma_kinds(ops, k - 1);
        assert(ops.take(k).drop_last() =~= ops.take(k - 1));
        assert(ops.take(k).last() == ops[k - 1]);
    }
}

/// What is compared: the lines themselves or, where white space is ignored,
/// their words with one space between any two. A tab counts for four columns
/// where indentation decides.
pub proof fn law_what_is_compared(old: Seq<Seq<char>>, new: Seq<Seq<char>>)
    ensures
        align::changes_between(old, new, false) == align::line_changes(old, new, 4),
        align::changes_between(old, new, true) == align::line_changes(
            old.map_values(|line: Seq<char>| text::join_words(text::words(line))),
            new.map_values(|line: Seq<char>| text::join_words(text::words(line))),
            4,
        ),
{
}

} // verus!
