//! What holds of every alignment and of its displayed hunks.

use crate::align::{self, Change, Op, OpKind, CONTEXT_LINES, MAX_LINES, MAX_OPS, NO_LINE};
use crate::intraline;
use std::ops::Range;
use vstd::prelude::*;

verus! {

/// The op is a context line of both files, a removed line of the old file or
/// an added line of the new file, and names lines that exist.
pub open spec fn op_fits(op: Op, old_len: nat, new_len: nat) -> bool {
    match op.kind {
        OpKind::Context => op.old < old_len && op.new < new_len && op.hl is None,
        OpKind::Removed => op.old < old_len && op.new == NO_LINE,
        OpKind::Added => op.old == NO_LINE && op.new < new_len,
    }
}

/// The hunks are non-empty ranges within `len` ops, in order, with hidden ops
/// between any two.
pub open spec fn hunks_ordered(hunks: Seq<Range<usize>>, len: nat) -> bool {
    &&& forall|i: int|
        0 <= i < hunks.len() ==> (#[trigger] hunks[i]).start < hunks[i].end && hunks[i].end <= len
    &&& forall|i: int, j: int|
        0 <= i < j < hunks.len() ==> (#[trigger] hunks[i]).end < (#[trigger] hunks[j]).start
}

/// Op `k` is shown in one of the hunks.
pub open spec fn displayed(hunks: Seq<Range<usize>>, k: int) -> bool {
    exists|i: int| 0 <= i < hunks.len() && (#[trigger] hunks[i]).start <= k < hunks[i].end
}

/// The old lines that a list of ops names, in order.
pub open spec fn old_side(ops: Seq<Op>) -> Seq<int>
    decreases ops.len(),
{
    if ops.len() == 0 {
        Seq::empty()
    } else if ops.last().old != NO_LINE {
        old_side(ops.drop_last()).push(ops.last().old as int)
    } else {
        old_side(ops.drop_last())
    }
}

/// The new lines that a list of ops names, in order.
pub open spec fn new_side(ops: Seq<Op>) -> Seq<int>
    decreases ops.len(),
{
    if ops.len() == 0 {
        Seq::empty()
    } else if ops.last().new != NO_LINE {
        new_side(ops.drop_last()).push(ops.last().new as int)
    } else {
        new_side(ops.drop_last())
    }
}

/// How many ops are of a kind.
pub open spec fn count_kind(ops: Seq<Op>, kind: OpKind) -> int
    decreases ops.len(),
{
    if ops.len() == 0 {
        0
    } else {
        count_kind(ops.drop_last(), kind) + if ops.last().kind == kind {
            1int
        } else {
            0
        }
    }
}

/// The numbers from `from` up to `to`.
pub open spec fn upto(from: int, to: int) -> Seq<int> {
    Seq::new((to - from) as nat, |k: int| from + k)
}

proof fn lemma_sides_concat(a: Seq<Op>, b: Seq<Op>)
    ensures
        old_side(a + b) == old_side(a) + old_side(b),
        new_side(a + b) == new_side(a) + new_side(b),
        count_kind(a + b, OpKind::Added) == count_kind(a, OpKind::Added) + count_kind(
            b,
            OpKind::Added,
        ),
        count_kind(a + b, OpKind::Removed) == count_kind(a, OpKind::Removed) + count_kind(
            b,
            OpKind::Removed,
        ),
    decreases b.len(),
{
    if b.len() == 0 {
        assert(a + b =~= a);
        assert(old_side(a) + old_side(b) =~= old_side(a));
        assert(new_side(a) + new_side(b) =~= new_side(a));
    } else {
        assert((a + b).drop_last() =~= a + b.drop_last());
        lemma_sides_concat(a, b.drop_last());
        assert(old_side(a + b) =~= old_side(a) + old_side(b));
        assert(new_side(a + b) =~= new_side(a) + new_side(b));
    }
}

proof fn lemma_context_sides(old_from: int, new_from: int, n: int)
    requires
        0 <= old_from,
        0 <= new_from,
        0 <= n,
        old_from + n <= MAX_LINES,
        new_from + n <= MAX_LINES,
    ensures
        ({
            let ops = align::context_ops(old_from, new_from, n);
            &&& old_side(ops) == upto(old_from, old_from + n)
            &&& new_side(ops) == upto(new_from, new_from + n)
            &&& count_kind(ops, OpKind::Added) == 0
            &&& count_kind(ops, OpKind::Removed) == 0
        }),
    decreases n,
{
    let ops = align::context_ops(old_from, new_from, n);
    if n > 0 {
        lemma_context_sides(old_from, new_from, n - 1);
        assert(ops.drop_last() =~= align::context_ops(old_from, new_from, n - 1));
    }
    assert(old_side(ops) =~= upto(old_from, old_from + n));
    assert(new_side(ops) =~= upto(new_from, new_from + n));
}

proof fn lemma_removed_sides(old: Seq<Seq<char>>, new: Seq<Seq<char>>, c: Change, n: int)
    requires
        0 <= n,
        c.old_start + n <= MAX_LINES,
    ensures
        ({
            let ops = Seq::new(n as nat, |k: int| align::removed_op(old, new, c, k));
            &&& old_side(ops) == upto(c.old_start as int, c.old_start + n)
            &&& new_side(ops) == Seq::<int>::empty()
            &&& count_kind(ops, OpKind::Added) == 0
            &&& count_kind(ops, OpKind::Removed) == n
        }),
    decreases n,
{
    let ops = Seq::new(n as nat, |k: int| align::removed_op(old, new, c, k));
    if n > 0 {
        lemma_removed_sides(old, new, c, n - 1);
        assert(ops.drop_last() =~= Seq::new(
            (n - 1) as nat,
            |k: int| align::removed_op(old, new, c, k),
        ));
    }
    assert(old_side(ops) =~= upto(c.old_start as int, c.old_start + n));
}

proof fn lemma_added_sides(old: Seq<Seq<char>>, new: Seq<Seq<char>>, c: Change, n: int)
    requires
        0 <= n,
        c.new_start + n <= MAX_LINES,
    ensures
        ({
            let ops = Seq::new(n as nat, |k: int| align::added_op(old, new, c, k));
            &&& old_side(ops) == Seq::<int>::empty()
            &&& new_side(ops) == upto(c.new_start as int, c.new_start + n)
            &&& count_kind(ops, OpKind::Added) == n
            &&& count_kind(ops, OpKind::Removed) == 0
        }),
    decreases n,
{
    let ops = Seq::new(n as nat, |k: int| align::added_op(old, new, c, k));
    if n > 0 {
        lemma_added_sides(old, new, c, n - 1);
        assert(ops.drop_last() =~= Seq::new(
            (n - 1) as nat,
            |k: int| align::added_op(old, new, c, k),
        ));
    }
    assert(new_side(ops) =~= upto(c.new_start as int, c.new_start + n));
}

/// The sides and counts of the ops of one change.
proof fn lemma_change_sides(old: Seq<Seq<char>>, new: Seq<Seq<char>>, c: Change)
    requires
        c.old_start <= c.old_end <= MAX_LINES,
        c.new_start <= c.new_end <= MAX_LINES,
    ensures
        ({
            let ops = align::change_ops(old, new, c);
            &&& old_side(ops) == upto(c.old_start as int, c.old_end as int)
            &&& new_side(ops) == upto(c.new_start as int, c.new_end as int)
            &&& count_kind(ops, OpKind::Added) == c.new_end - c.new_start
            &&& count_kind(ops, OpKind::Removed) == c.old_end - c.old_start
        }),
{
    let removed = Seq::new(
        (c.old_end - c.old_start) as nat,
        |k: int| align::removed_op(old, new, c, k),
    );
    let added = Seq::new(
        (c.new_end - c.new_start) as nat,
        |k: int| align::added_op(old, new, c, k),
    );
    lemma_removed_sides(old, new, c, c.old_end - c.old_start);
    lemma_added_sides(old, new, c, c.new_end - c.new_start);
    lemma_sides_concat(removed, added);
    assert(align::change_ops(old, new, c) == removed + added);
    assert(old_side(removed + added) =~= upto(c.old_start as int, c.old_end as int));
    assert(new_side(removed + added) =~= upto(c.new_start as int, c.new_end as int));
}

/// The sides and counts of the ops up to change `i`.
proof fn lemma_until_sides(
    old: Seq<Seq<char>>,
    new: Seq<Seq<char>>,
    changes: Seq<Change>,
    i: int,
)
    requires
        align::is_script(changes, old.len(), new.len()),
        old.len() <= MAX_LINES,
        new.len() <= MAX_LINES,
        0 <= i <= changes.len(),
    ensures
        ({
            let ops = align::ops_until(old, new, changes, i);
            let stop = align::old_stop(changes, i, old.len());
            &&& old_side(ops) == upto(0, stop)
            &&& new_side(ops) == upto(
                0,
                stop - align::old_end(changes, i) + align::new_end(changes, i),
            )
            &&& count_kind(ops, OpKind::Added) == align::added_count(changes, i)
            &&& count_kind(ops, OpKind::Removed) == align::removed_count(changes, i)
        }),
    decreases i,
{
    let oe = align::old_end(changes, i);
    let ne = align::new_end(changes, i);
    let stop = align::old_stop(changes, i, old.len());
    if i < changes.len() {
        assert(align::change_fits(changes, i, old.len(), new.len()));
    }
    let after = align::ops_after(old, new, changes, i);
    if i > 0 {
        assert(align::change_fits(changes, i - 1, old.len(), new.len()));
        lemma_until_sides(old, new, changes, i - 1);
        let until = align::ops_until(old, new, changes, i - 1);
        lemma_append_change(old, new, until, changes[i - 1]);
        assert(after == until + align::change_ops(old, new, changes[i - 1]));
    } else {
        assert(old_side(after) =~= upto(0, oe));
        assert(new_side(after) =~= upto(0, ne));
    }
    lemma_append_context(after, oe, ne, stop - oe);
}

/// The sides and counts after a change.
proof fn lemma_append_change(
    old: Seq<Seq<char>>,
    new: Seq<Seq<char>>,
    until: Seq<Op>,
    c: Change,
)
    requires
        c.old_start <= c.old_end <= MAX_LINES,
        c.new_start <= c.new_end <= MAX_LINES,
        old_side(until) == upto(0, c.old_start as int),
        new_side(until) == upto(0, c.new_start as int),
    ensures
        ({
            let ops = until + align::change_ops(old, new, c);
            &&& old_side(ops) == upto(0, c.old_end as int)
            &&& new_side(ops) == upto(0, c.new_end as int)
            &&& count_kind(ops, OpKind::Added) == count_kind(until, OpKind::Added) + (c.new_end
                - c.new_start)
            &&& count_kind(ops, OpKind::Removed) == count_kind(until, OpKind::Removed) + (c.old_end
                - c.old_start)
        }),
{
    let change = align::change_ops(old, new, c);
    lemma_change_sides(old, new, c);
    lemma_sides_concat(until, change);
    assert(old_side(until + change) =~= upto(0, c.old_end as int));
    assert(new_side(until + change) =~= upto(0, c.new_end as int));
}

/// The sides and counts after some context lines.
proof fn lemma_append_context(after: Seq<Op>, old_from: int, new_from: int, n: int)
    requires
        0 <= old_from,
        0 <= new_from,
        0 <= n,
        old_from + n <= MAX_LINES,
        new_from + n <= MAX_LINES,
        old_side(after) == upto(0, old_from),
        new_side(after) == upto(0, new_from),
    ensures
        ({
            let ops = after + align::context_ops(old_from, new_from, n);
            &&& old_side(ops) == upto(0, old_from + n)
            &&& new_side(ops) == upto(0, new_from + n)
            &&& count_kind(ops, OpKind::Added) == count_kind(after, OpKind::Added)
            &&& count_kind(ops, OpKind::Removed) == count_kind(after, OpKind::Removed)
        }),
{
    let context = align::context_ops(old_from, new_from, n);
    lemma_context_sides(old_from, new_from, n);
    lemma_sides_concat(after, context);
    assert(old_side(after + context) =~= upto(0, old_from + n));
    assert(new_side(after + context) =~= upto(0, new_from + n));
}

/// An alignment names every line of the old file once and in order, and every
/// line of the new file once and in order. Its addition and deletion counts
/// are the numbers of added and removed lines in it.
pub proof fn law_alignment_is_complete(
    old: Seq<Seq<char>>,
    new: Seq<Seq<char>>,
    changes: Seq<Change>,
)
    requires
        align::is_script(changes, old.len(), new.len()),
        old.len() <= MAX_LINES,
        new.len() <= MAX_LINES,
    ensures
        ({
            let a = align::alignment(old, new, changes);
            &&& old_side(a.ops) == upto(0, old.len() as int)
            &&& new_side(a.ops) == upto(0, new.len() as int)
            &&& count_kind(a.ops, OpKind::Added) == a.additions
            &&& count_kind(a.ops, OpKind::Removed) == a.deletions
        }),
{
    lemma_until_sides(old, new, changes, changes.len() as int);
}

/// The change that op `k` belongs to lies in its span; between the spans
/// stand context lines of equal content.
proof fn lemma_ops_shape(
    old: Seq<Seq<char>>,
    new: Seq<Seq<char>>,
    changes: Seq<Change>,
    i: int,
)
    requires
        align::is_script(changes, old.len(), new.len()),
        old.len() <= MAX_LINES,
        new.len() <= MAX_LINES,
        0 <= i <= changes.len(),
    ensures
        ({
            let ops = align::ops_until(old, new, changes, i);
            let spans = align::spans(old, new, changes, i);
            &&& spans.len() == i
            &&& spans_ordered(spans, ops.len())
            &&& ops.len() <= old.len() + new.len()
            &&& i > 0 ==> spans.last().end + (align::old_stop(changes, i, old.len())
                - align::old_end(changes, i)) == ops.len()
            &&& forall|k: int|
                0 <= k < ops.len() ==> op_fits(#[trigger] ops[k], old.len(), new.len())
            &&& forall|k: int|
                0 <= k < ops.len() ==> ((#[trigger] ops[k]).kind != OpKind::Context <==> displayed(
                    spans,
                    k,
                ))
        }),
    decreases i,
{
    align::lemma_ops_len(old, new, changes, new.len(), i);
    let oe = align::old_end(changes, i);
    let ne = align::new_end(changes, i);
    let n = align::old_stop(changes, i, old.len()) - oe;
    let after = align::ops_after(old, new, changes, i);
    let ops = align::ops_until(old, new, changes, i);
    let spans = align::spans(old, new, changes, i);
    if i < changes.len() {
        assert(align::change_fits(changes, i, old.len(), new.len()));
    }
    if i > 0 {
        let c = changes[i - 1];
        assert(align::change_fits(changes, i - 1, old.len(), new.len()));
        align::lemma_ops_len(old, new, changes, new.len(), i - 1);
        lemma_ops_shape(old, new, changes, i - 1);
        let prev = align::ops_until(old, new, changes, i - 1);
        let before = align::spans(old, new, changes, i - 1);
        let span = spans.last();
        assert(spans == before.push(span));
        assert(span.start == prev.len() && span.end == after.len());
        assert forall|k: int| 0 <= k < ops.len() implies ((#[trigger] ops[k]).kind
            != OpKind::Context <==> displayed(spans, k)) && op_fits(
            ops[k],
            old.len(),
            new.len(),
        ) by {
            if k < prev.len() {
                assert(ops[k] == prev[k]);
                if displayed(before, k) {
                    let j = choose|j: int|
                        0 <= j < before.len() && (#[trigger] before[j]).start <= k < before[j].end;
                    assert(spans[j] == before[j]);
                }
                if displayed(spans, k) {
                    let j = choose|j: int|
                        0 <= j < spans.len() && (#[trigger] spans[j]).start <= k < spans[j].end;
                    assert(before[j] == spans[j]);
                }
            } else if k < after.len() {
                assert(ops[k] == align::change_ops(old, new, c)[k - prev.len()]);
                assert(spans[i - 1].start <= k < spans[i - 1].end);
            } else {
                assert(ops[k] == align::context_ops(oe, ne, n)[k - after.len()]);
                if displayed(spans, k) {
                    let j = choose|j: int|
                        0 <= j < spans.len() && (#[trigger] spans[j]).start <= k < spans[j].end;
                    if j < i - 1 {
                        assert(spans[j].end < spans[i - 1].start) by {
                            assert(before[j] == spans[j]);
                        }
                    }
                }
            }
        }
        assert forall|a: int, b: int| 0 <= a < b < spans.len() implies (#[trigger] spans[a]).end
            < (#[trigger] spans[b]).start by {
            assert(before[a] == spans[a]);
            if b < i - 1 {
                assert(before[b] == spans[b]);
            } else if a < i - 2 {
                assert(before[a].end < before[i - 2].start);
            }
        }
        assert forall|a: int| 0 <= a < spans.len() implies (#[trigger] spans[a]).start
            < spans[a].end && spans[a].end <= ops.len() by {
            if a < i - 1 {
                assert(before[a] == spans[a]);
            }
        }
    } else {
        assert forall|k: int| 0 <= k < ops.len() implies ((#[trigger] ops[k]).kind
            != OpKind::Context <==> displayed(spans, k)) && op_fits(
            ops[k],
            old.len(),
            new.len(),
        ) by {
            assert(ops[k] == align::context_ops(oe, ne, n)[k]);
        }
    }
}

/// Changed ranges in order, none empty, with unchanged ops between them.
pub open spec fn spans_ordered(spans: Seq<Range<usize>>, len: nat) -> bool {
    hunks_ordered(spans, len)
}

/// Displayed hunks are in order, and show exactly what lies in a changed
/// range or its context.
proof fn lemma_display(spans: Seq<Range<usize>>, len: nat)
    requires
        spans_ordered(spans, len),
        len <= MAX_OPS,
    ensures
        ({
            let hunks = align::display_hunks(spans, len);
            &&& hunks_ordered(hunks, len)
            &&& hunks.len() == 0 <==> spans.len() == 0
            &&& spans.len() > 0 ==> hunks.last().end >= align::with_context(spans.last(), len).end
                && hunks.last().start <= align::with_context(spans.last(), len).start
            &&& forall|k: int| #[trigger]
                displayed(hunks, k) <==> exists|i: int|
                    0 <= i < spans.len() && align::with_context(
                        #[trigger] spans[i],
                        len,
                    ).start <= k < align::with_context(spans[i], len).end
        }),
    decreases spans.len(),
{
    let hunks = align::display_hunks(spans, len);
    if spans.len() > 0 {
        let init = spans.drop_last();
        let next = align::with_context(spans.last(), len);
        assert forall|a: int| 0 <= a < init.len() implies (#[trigger] init[a]).start < init[a].end
            && init[a].end <= len by {
            assert(init[a] == spans[a]);
        }
        assert forall|a: int, b: int| 0 <= a < b < init.len() implies (#[trigger] init[a]).end
            < (#[trigger] init[b]).start by {
            assert(init[a] == spans[a] && init[b] == spans[b]);
        }
        lemma_display(init, len);
        let done = align::display_hunks(init, len);
        assert(next.start < next.end && next.end <= len) by {
            assert(spans[spans.len() - 1].start < spans[spans.len() - 1].end);
        }
        if init.len() > 0 {
            assert(init.last() == spans[spans.len() - 2]);
            assert(init.last().end < spans.last().start);
        }
        let merged = done.len() > 0 && next.start <= done.last().end;
        assert(hunks == align::merge_hunk(done, next));
        assert forall|a: int| 0 <= a < hunks.len() implies (#[trigger] hunks[a]).start
            < hunks[a].end && hunks[a].end <= len by {
            if a < done.len() {
                assert(done[a].start < done[a].end);
            }
        }
        assert forall|a: int, b: int| 0 <= a < b < hunks.len() implies (#[trigger] hunks[a]).end
            < (#[trigger] hunks[b]).start by {
            assert(hunks[a] == done[a]);
            if b < done.len() {
                assert(hunks[b].start == done[b].start);
                assert(done[a].end < done[b].start);
            } else if a < done.len() - 1 {
                assert(done[a].end < done[done.len() - 1].start);
                assert(done[done.len() - 1].start < done[done.len() - 1].end);
            }
        }
        assert forall|k: int| #[trigger] displayed(hunks, k) <==> exists|i: int|
            0 <= i < spans.len() && align::with_context(#[trigger] spans[i], len).start <= k
                < align::with_context(spans[i], len).end by {
            if displayed(hunks, k) {
                let a = choose|a: int|
                    0 <= a < hunks.len() && (#[trigger] hunks[a]).start <= k < hunks[a].end;
                if a < done.len() && done[a].start <= k < done[a].end {
                    assert(displayed(done, k));
                    let i = choose|i: int|
                        0 <= i < init.len() && align::with_context(#[trigger] init[i], len).start
                            <= k < align::with_context(init[i], len).end;
                    assert(spans[i] == init[i]);
                } else {
                    assert(next.start <= k < next.end);
                    assert(spans[spans.len() - 1] == spans.last());
                }
            }
            if exists|i: int|
                0 <= i < spans.len() && align::with_context(#[trigger] spans[i], len).start <= k
                    < align::with_context(spans[i], len).end {
                let i = choose|i: int|
                    0 <= i < spans.len() && align::with_context(#[trigger] spans[i], len).start
                        <= k < align::with_context(spans[i], len).end;
                if i < init.len() {
                    assert(init[i] == spans[i]);
                    assert(displayed(done, k));
                    let a = choose|a: int|
                        0 <= a < done.len() && (#[trigger] done[a]).start <= k < done[a].end;
                    assert(hunks[a].start <= k < hunks[a].end);
                } else {
                    let a = hunks.len() - 1;
                    assert(hunks[a].start <= k < hunks[a].end);
                }
            }
        }
    }
}

/// Every op of an alignment is well formed, and the displayed hunks are
/// disjoint, sorted ranges of ops with hidden lines between them. An op is
/// displayed exactly when a changed line stands at most `CONTEXT_LINES` away.
pub proof fn law_hunks_show_changes_with_context(
    old: Seq<Seq<char>>,
    new: Seq<Seq<char>>,
    changes: Seq<Change>,
)
    requires
        align::is_script(changes, old.len(), new.len()),
        old.len() <= MAX_LINES,
        new.len() <= MAX_LINES,
    ensures
        ({
            let a = align::alignment(old, new, changes);
            &&& a.ops.len() <= old.len() + new.len()
            &&& 0 <= a.additions <= new.len()
            &&& 0 <= a.deletions <= old.len()
            &&& forall|k: int|
                0 <= k < a.ops.len() ==> op_fits(#[trigger] a.ops[k], old.len(), new.len())
            &&& hunks_ordered(a.hunks, a.ops.len())
            &&& a.hunks.len() == 0 <==> changes.len() == 0
            &&& forall|k: int|
                0 <= k < a.ops.len() ==> (#[trigger] displayed(a.hunks, k) <==> exists|j: int|
                    0 <= j < a.ops.len() && k - CONTEXT_LINES <= j <= k + CONTEXT_LINES && (
                    #[trigger] a.ops[j]).kind != OpKind::Context)
        }),
{
    let n = changes.len() as int;
    let a = align::alignment(old, new, changes);
    let spans = align::spans(old, new, changes, n);
    let len = a.ops.len();
    align::lemma_ops_len(old, new, changes, new.len(), n);
    lemma_ops_shape(old, new, changes, n);
    lemma_display(spans, len);
    assert forall|k: int| 0 <= k < len implies (#[trigger] displayed(a.hunks, k) <==> exists|j: int|
        0 <= j < len && k - CONTEXT_LINES <= j <= k + CONTEXT_LINES && (#[trigger] a.ops[j]).kind
            != OpKind::Context) by {
        if displayed(a.hunks, k) {
            let i = choose|i: int|
                0 <= i < spans.len() && align::with_context(#[trigger] spans[i], len).start <= k
                    < align::with_context(spans[i], len).end;
            let j = if k < spans[i].start {
                spans[i].start as int
            } else if k < spans[i].end {
                k
            } else {
                spans[i].end - 1
            };
            assert(displayed(spans, j));
            assert(a.ops[j].kind != OpKind::Context);
        }
        if exists|j: int|
            0 <= j < len && k - CONTEXT_LINES <= j <= k + CONTEXT_LINES && (
            #[trigger] a.ops[j]).kind != OpKind::Context {
            let j = choose|j: int|
                0 <= j < len && k - CONTEXT_LINES <= j <= k + CONTEXT_LINES && (
                #[trigger] a.ops[j]).kind != OpKind::Context;
            assert(displayed(spans, j));
            let i = choose|i: int|
                0 <= i < spans.len() && (#[trigger] spans[i]).start <= j < spans[i].end;
            assert(align::with_context(spans[i], len).start <= k < align::with_context(
                spans[i],
                len,
            ).end);
        }
    }
}

/// Two context lines shown as one are the same line, as far as the comparison
/// can tell.
proof fn lemma_context_agrees(
    old: Seq<Seq<char>>,
    new: Seq<Seq<char>>,
    changes: Seq<Change>,
    left: Seq<Seq<char>>,
    right: Seq<Seq<char>>,
    i: int,
)
    requires
        align::is_script(changes, old.len(), new.len()),
        left.len() == old.len(),
        right.len() == new.len(),
        align::rest_agrees(left, right, changes),
        old.len() <= MAX_LINES,
        new.len() <= MAX_LINES,
        0 <= i <= changes.len(),
    ensures
        ({
            let ops = align::ops_until(old, new, changes, i);
            forall|k: int|
                0 <= k < ops.len() && (#[trigger] ops[k]).kind == OpKind::Context
                    ==> left[ops[k].old as int] == right[ops[k].new as int]
        }),
    decreases i,
{
    align::lemma_ops_len(old, new, changes, new.len(), i);
    let oe = align::old_end(changes, i);
    let ne = align::new_end(changes, i);
    let n = align::old_stop(changes, i, old.len()) - oe;
    let after = align::ops_after(old, new, changes, i);
    let ops = align::ops_until(old, new, changes, i);
    if i < changes.len() {
        assert(align::change_fits(changes, i, old.len(), new.len()));
    }
    if i > 0 {
        assert(align::change_fits(changes, i - 1, old.len(), new.len()));
        align::lemma_ops_len(old, new, changes, new.len(), i - 1);
        lemma_context_agrees(old, new, changes, left, right, i - 1);
    }
    assert forall|k: int| 0 <= k < ops.len() && (#[trigger] ops[k]).kind == OpKind::Context implies
        left[ops[k].old as int] == right[ops[k].new as int] by {
        if k >= after.len() {
            assert(ops[k] == align::context_ops(oe, ne, n)[k - after.len()]);
            let o = oe + (k - after.len());
            assert(ops[k].old == o);
            assert(left[o] == right[o - oe + ne]);
        } else {
            let prev = align::ops_until(old, new, changes, i - 1);
            if k < prev.len() {
                assert(ops[k] == prev[k]);
            } else {
                assert(ops[k] == align::change_ops(old, new, changes[i - 1])[k - prev.len()]);
            }
        }
    }
}

/// A context line reads the same on both sides or, when white space is
/// ignored, has the same words on both sides.
pub proof fn law_context_lines_agree(
    old: Seq<Seq<char>>,
    new: Seq<Seq<char>>,
    ignore_whitespace: bool,
    changes: Seq<Change>,
)
    requires
        align::is_script(changes, old.len(), new.len()),
        align::rest_agrees(
            align::compared(old, ignore_whitespace),
            align::compared(new, ignore_whitespace),
            changes,
        ),
        old.len() <= MAX_LINES,
        new.len() <= MAX_LINES,
    ensures
        ({
            let ops = align::alignment(old, new, changes).ops;
            forall|k: int|
                0 <= k < ops.len() && (#[trigger] ops[k]).kind == OpKind::Context
                    ==> align::compared(old, ignore_whitespace)[ops[k].old as int]
                    == align::compared(new, ignore_whitespace)[ops[k].new as int]
        }),
{
    lemma_context_agrees(
        old,
        new,
        changes,
        align::compared(old, ignore_whitespace),
        align::compared(new, ignore_whitespace),
        changes.len() as int,
    );
}

/// Where there are no changes there are no hunks and nothing is counted, and
/// the compared lines agree throughout.
pub proof fn law_no_changes_means_equal(
    old: Seq<Seq<char>>,
    new: Seq<Seq<char>>,
    ignore_whitespace: bool,
    changes: Seq<Change>,
)
    requires
        align::is_script(changes, old.len(), new.len()),
        align::rest_agrees(
            align::compared(old, ignore_whitespace),
            align::compared(new, ignore_whitespace),
            changes,
        ),
        changes.len() == 0,
    ensures
        align::alignment(old, new, changes).hunks.len() == 0,
        align::alignment(old, new, changes).additions == 0,
        align::alignment(old, new, changes).deletions == 0,
        align::compared(old, ignore_whitespace) == align::compared(new, ignore_whitespace),
{
    let left = align::compared(old, ignore_whitespace);
    let right = align::compared(new, ignore_whitespace);
    assert(left.len() == right.len());
    assert forall|o: int| 0 <= o < left.len() implies left[o] == right[o] by {
        assert(align::old_end(changes, 0) <= o);
        assert(left[o] == right[o - align::old_end(changes, 0) + align::new_end(changes, 0)]);
    }
    assert(left =~= right);
}

/// The ops from `start` to `end` are a run of changed lines: as long as
/// possible, and not empty.
pub open spec fn is_run(ops: Seq<Op>, start: int, end: int) -> bool {
    &&& 0 <= start < end <= ops.len()
    &&& forall|k: int| start <= k < end ==> (#[trigger] ops[k]).kind != OpKind::Context
    &&& start > 0 ==> ops[start - 1].kind == OpKind::Context
    &&& end < ops.len() ==> ops[end].kind == OpKind::Context
}

/// The lines of a run: those removed come before `mid`, those added after it.
/// The `i`-th removed line is compared with the `i`-th added one, and where the
/// comparison finds a part of each that changed, that part is highlighted.
/// Nothing else is.
pub open spec fn is_paired_run(
    old: Seq<Seq<char>>,
    new: Seq<Seq<char>>,
    ops: Seq<Op>,
    start: int,
    mid: int,
    end: int,
) -> bool {
    &&& start <= mid <= end
    &&& forall|k: int| start <= k < mid ==> (#[trigger] ops[k]).kind == OpKind::Removed
    &&& forall|k: int| mid <= k < end ==> (#[trigger] ops[k]).kind == OpKind::Added
    &&& forall|i: int|
        0 <= i < mid - start && i < end - mid ==> #[trigger] is_highlighted_pair(
            old,
            new,
            ops[start + i],
            ops[mid + i],
        )
    &&& forall|i: int|
        end - mid <= i < mid - start ==> (#[trigger] ops[start + i]).hl is None
    &&& forall|i: int| mid - start <= i < end - mid ==> (#[trigger] ops[mid + i]).hl is None
}

/// The parts of a removed line and an added one that differ are highlighted.
pub open spec fn is_highlighted_pair(
    old: Seq<Seq<char>>,
    new: Seq<Seq<char>>,
    removed: Op,
    added: Op,
) -> bool {
    let parts = intraline::intraline(old[removed.old as int], new[added.new as int]);
    &&& removed.hl == first_part(parts)
    &&& added.hl == second_part(parts)
}

/// The part of the old line that changed.
pub open spec fn first_part(parts: Option<(Range<usize>, Range<usize>)>) -> Option<Range<usize>> {
    match parts {
        Some((part, _)) => Some(part),
        None => None,
    }
}

/// The part of the new line that changed.
pub open spec fn second_part(parts: Option<(Range<usize>, Range<usize>)>) -> Option<Range<usize>> {
    match parts {
        Some((_, part)) => Some(part),
        None => None,
    }
}

/// The ops in the span of a change are those of the change.
proof fn lemma_span_ops(
    old: Seq<Seq<char>>,
    new: Seq<Seq<char>>,
    changes: Seq<Change>,
    i: int,
    j: int,
)
    requires
        align::is_script(changes, old.len(), new.len()),
        old.len() <= MAX_LINES,
        new.len() <= MAX_LINES,
        0 <= j < i <= changes.len(),
    ensures
        ({
            let ops = align::ops_until(old, new, changes, i);
            let span = align::spans(old, new, changes, i)[j];
            &&& span.start <= span.end <= ops.len()
            &&& ops.subrange(span.start as int, span.end as int) == align::change_ops(
                old,
                new,
                changes[j],
            )
        }),
    decreases i,
{
    lemma_span_at(old, new, changes, i, j);
    lemma_ops_prefix(old, new, changes, i, j);
    let ops = align::ops_until(old, new, changes, i);
    let after = align::ops_after(old, new, changes, j + 1);
    let until = align::ops_until(old, new, changes, j);
    let own = align::change_ops(old, new, changes[j]);
    assert(after == until + own);
    assert forall|k: int| until.len() <= k < after.len() implies ops[k] == own[k - until.len()] by {
        assert(ops.take(after.len() as int)[k] == after[k]);
    }
    assert(ops.subrange(until.len() as int, after.len() as int) =~= own);
}

/// Where the span of a change begins and ends.
proof fn lemma_span_at(
    old: Seq<Seq<char>>,
    new: Seq<Seq<char>>,
    changes: Seq<Change>,
    i: int,
    j: int,
)
    requires
        align::is_script(changes, old.len(), new.len()),
        old.len() <= MAX_LINES,
        new.len() <= MAX_LINES,
        0 <= j < i <= changes.len(),
    ensures
        align::spans(old, new, changes, i).len() == i,
        align::spans(old, new, changes, i)[j].start == align::ops_until(old, new, changes, j).len(),
        align::spans(old, new, changes, i)[j].end == align::ops_after(
            old,
            new,
            changes,
            j + 1,
        ).len(),
    decreases i,
{
    let before = align::spans(old, new, changes, i - 1);
    if i > 1 {
        lemma_span_at(
            old,
            new,
            changes,
            i - 1,
            if j < i - 1 {
                j
            } else {
                0
            },
        );
    } else {
        assert(before =~= Seq::empty());
    }
    let last = Range {
        start: align::ops_until(old, new, changes, i - 1).len() as usize,
        end: align::ops_after(old, new, changes, i).len() as usize,
    };
    assert(align::spans(old, new, changes, i) == before.push(last));
    if j == i - 1 {
        align::lemma_ops_len(old, new, changes, new.len(), i - 1);
        align::lemma_ops_len(old, new, changes, new.len(), i);
        assert(align::ops_until(old, new, changes, i - 1).len() <= MAX_OPS);
        assert(align::ops_after(old, new, changes, i).len() <= MAX_OPS);
    }
}

/// The ops up to a later change begin with those of the earlier ones.
proof fn lemma_ops_prefix(
    old: Seq<Seq<char>>,
    new: Seq<Seq<char>>,
    changes: Seq<Change>,
    i: int,
    j: int,
)
    requires
        0 <= j < i <= changes.len(),
    ensures
        ({
            let ops = align::ops_until(old, new, changes, i);
            let after = align::ops_after(old, new, changes, j + 1);
            &&& after.len() <= ops.len()
            &&& ops.take(after.len() as int) == after
        }),
    decreases i,
{
    let ops = align::ops_until(old, new, changes, i);
    let last = align::ops_after(old, new, changes, i);
    let after = align::ops_after(old, new, changes, j + 1);
    assert(ops.take(last.len() as int) =~= last);
    if j < i - 1 {
        lemma_ops_prefix(old, new, changes, i - 1, j);
        let prev = align::ops_until(old, new, changes, i - 1);
        assert(last.take(prev.len() as int) =~= prev);
        assert(ops.take(after.len() as int) =~= prev.take(after.len() as int));
    }
}

/// A run of changed lines is the span of a change.
proof fn lemma_run_is_span(ops: Seq<Op>, spans: Seq<Range<usize>>, start: int, end: int) -> (j: int)
    requires
        spans_ordered(spans, ops.len()),
        forall|k: int|
            0 <= k < ops.len() ==> ((#[trigger] ops[k]).kind != OpKind::Context <==> displayed(
                spans,
                k,
            )),
        is_run(ops, start, end),
    ensures
        0 <= j < spans.len(),
        spans[j].start == start,
        spans[j].end == end,
{
    assert(ops[start].kind != OpKind::Context);
    let j = choose|j: int|
        0 <= j < spans.len() && (#[trigger] spans[j]).start <= start < spans[j].end;
    let span = spans[j];
    if span.start < start {
        assert(spans[j].start <= start - 1 < spans[j].end);
        assert(displayed(spans, start - 1));
        assert(ops[start - 1].kind == OpKind::Context);
    }
    if span.end > end {
        assert(spans[j].start <= end < spans[j].end);
        assert(displayed(spans, end));
        assert(ops[end].kind == OpKind::Context);
    }
    if span.end < end {
        let next = span.end as int;
        assert(ops[next].kind != OpKind::Context);
        let other = choose|other: int|
            0 <= other < spans.len() && (#[trigger] spans[other]).start <= next < spans[other].end;
        if other < j {
            assert(spans[other].end < spans[j].start);
        } else if j < other {
            assert(spans[j].end < spans[other].start);
        }
    }
    j
}

/// The ops of a change are paired.
proof fn lemma_change_is_paired(
    old: Seq<Seq<char>>,
    new: Seq<Seq<char>>,
    c: Change,
    ops: Seq<Op>,
    start: int,
    end: int,
)
    requires
        0 <= start <= end <= ops.len(),
        c.old_start <= c.old_end <= MAX_LINES,
        c.new_start <= c.new_end <= MAX_LINES,
        ops.subrange(start, end) == align::change_ops(old, new, c),
    ensures
        is_paired_run(old, new, ops, start, start + (c.old_end - c.old_start), end),
{
    let own = align::change_ops(old, new, c);
    let mid = start + (c.old_end - c.old_start);
    assert(own.len() == end - start);
    assert forall|k: int| start <= k < mid implies #[trigger] ops[k] == align::removed_op(
        old,
        new,
        c,
        k - start,
    ) by {
        assert(ops.subrange(start, end)[k - start] == ops[k]);
    }
    assert forall|k: int| mid <= k < end implies #[trigger] ops[k] == align::added_op(
        old,
        new,
        c,
        k - mid,
    ) by {
        assert(ops.subrange(start, end)[k - start] == ops[k]);
    }
    assert forall|i: int| 0 <= i < mid - start && i < end - mid implies #[trigger]
        is_highlighted_pair(old, new, ops[start + i], ops[mid + i]) by {
        assert(ops[start + i] == align::removed_op(old, new, c, i));
        assert(ops[mid + i] == align::added_op(old, new, c, i));
    }
}

/// Each run of changed lines consists of removed lines followed by added ones.
/// They are paired in order, and the parts of the two lines of a pair that
/// differ are highlighted; the rest of the run has no highlight.
pub proof fn law_runs_are_paired(
    old: Seq<Seq<char>>,
    new: Seq<Seq<char>>,
    changes: Seq<Change>,
    start: int,
    end: int,
)
    requires
        align::is_script(changes, old.len(), new.len()),
        old.len() <= MAX_LINES,
        new.len() <= MAX_LINES,
        is_run(align::alignment(old, new, changes).ops, start, end),
    ensures
        exists|mid: int| #[trigger]
            is_paired_run(old, new, align::alignment(old, new, changes).ops, start, mid, end),
{
    let n = changes.len() as int;
    let ops = align::alignment(old, new, changes).ops;
    lemma_ops_shape(old, new, changes, n);
    let j = lemma_run_is_span(ops, align::spans(old, new, changes, n), start, end);
    lemma_span_ops(old, new, changes, n, j);
    assert(align::change_fits(changes, j, old.len(), new.len()));
    lemma_change_is_paired(old, new, changes[j], ops, start, end);
}

/// Context lines have no highlight.
pub proof fn law_context_has_no_highlight(
    old: Seq<Seq<char>>,
    new: Seq<Seq<char>>,
    changes: Seq<Change>,
    k: int,
)
    requires
        align::is_script(changes, old.len(), new.len()),
        old.len() <= MAX_LINES,
        new.len() <= MAX_LINES,
        0 <= k < align::alignment(old, new, changes).ops.len(),
        align::alignment(old, new, changes).ops[k].kind == OpKind::Context,
    ensures
        align::alignment(old, new, changes).ops[k].hl is None,
{
    lemma_ops_shape(old, new, changes, changes.len() as int);
    assert(op_fits(align::alignment(old, new, changes).ops[k], old.len(), new.len()));
}

} // verus!
