//! Line alignment of two versions of a file, and the hunks that are displayed.

use crate::align_laws;
use crate::diff_laws;
use crate::intraline;
use crate::limits::{self, FEW_LINES};
use crate::text;
use imara_diff::{Algorithm, Diff, IndentHeuristic, IndentLevel, InternedInput, Interner};
use std::ops::Range;
use vstd::prelude::*;

verus! {

/// Context lines shown around every change.
pub const CONTEXT_LINES: usize = 3;

/// Columns that a tab counts for when indentation decides between equivalent
/// placements of a change.
pub const TAB_WIDTH: u8 = 4;

/// Marks the side of an [`Op`] that has no line.
pub const NO_LINE: usize = usize::MAX;

/// Most lines that one side of a diff may have.
pub const MAX_LINES: usize = 0x7fff_fffe;

/// Most ops that an alignment can have.
pub const MAX_OPS: usize = 0xffff_fffc;

#[derive(Debug, Clone, Copy, PartialEq, Eq, Structural)]
pub enum OpKind {
    Context,
    Removed,
    Added,
}

/// One aligned line of the diff: a context line (present on both sides), a
/// removed line (old side only) or an added line (new side only).
#[derive(Debug, Clone, PartialEq, Eq)]
pub struct Op {
    pub kind: OpKind,
    /// Line index into the old file, `NO_LINE` for added lines.
    pub old: usize,
    /// Line index into the new file, `NO_LINE` for removed lines.
    pub new: usize,
    /// Byte range within the line that actually changed.
    pub hl: Option<Range<usize>>,
}

impl Op {
    pub fn context(old: usize, new: usize) -> (op: Self)
        ensures
            op == (Op { kind: OpKind::Context, old, new, hl: None }),
    {
        Op { kind: OpKind::Context, old, new, hl: None }
    }

    pub fn removed(old: usize) -> (op: Self)
        ensures
            op == (Op { kind: OpKind::Removed, old, new: NO_LINE, hl: None }),
    {
        Op { kind: OpKind::Removed, old, new: NO_LINE, hl: None }
    }

    pub fn added(new: usize) -> (op: Self)
        ensures
            op == (Op { kind: OpKind::Added, old: NO_LINE, new, hl: None }),
    {
        Op { kind: OpKind::Added, old: NO_LINE, new, hl: None }
    }
}

/// Old lines `old_start..old_end` were replaced by new lines
/// `new_start..new_end`.
#[derive(Debug, Clone, Copy, PartialEq, Eq, Structural)]
pub struct Change {
    pub old_start: usize,
    pub old_end: usize,
    pub new_start: usize,
    pub new_end: usize,
}

/// Where the old side stands after the first `i` changes.
pub open spec fn old_end(changes: Seq<Change>, i: int) -> int {
    if i <= 0 {
        0
    } else {
        changes[i - 1].old_end as int
    }
}

/// Where the new side stands after the first `i` changes.
pub open spec fn new_end(changes: Seq<Change>, i: int) -> int {
    if i <= 0 {
        0
    } else {
        changes[i - 1].new_end as int
    }
}

/// Where the unchanged lines after the first `i` changes end on the old side.
pub open spec fn old_stop(changes: Seq<Change>, i: int, old_len: nat) -> int {
    if i < changes.len() {
        changes[i].old_start as int
    } else {
        old_len as int
    }
}

/// The change `i` is not empty, lies within both files after the changes
/// before it, and equally many unchanged lines lead up to it on both sides.
pub open spec fn change_fits(changes: Seq<Change>, i: int, old_len: nat, new_len: nat) -> bool {
    let c = changes[i];
    &&& old_end(changes, i) <= c.old_start <= c.old_end <= old_len
    &&& new_end(changes, i) <= c.new_start <= c.new_end <= new_len
    &&& c.old_start - old_end(changes, i) == c.new_start - new_end(changes, i)
    &&& c.old_start < c.old_end || c.new_start < c.new_end
    &&& i > 0 ==> old_end(changes, i) < c.old_start
}

/// The changes turn a file of `old_len` lines into one of `new_len` lines:
/// they are in order, apart from each other, and leave equally many lines
/// unchanged on both sides.
pub open spec fn is_script(changes: Seq<Change>, old_len: nat, new_len: nat) -> bool {
    &&& forall|i: int|
        0 <= i < changes.len() ==> #[trigger] change_fits(changes, i, old_len, new_len)
    &&& old_len - old_end(changes, changes.len() as int) == new_len - new_end(
        changes,
        changes.len() as int,
    )
}

/// The lines between the changes are the same on both sides.
pub open spec fn rest_agrees<T>(old: Seq<T>, new: Seq<T>, changes: Seq<Change>) -> bool {
    forall|i: int, o: int|
        0 <= i <= changes.len() && #[trigger] old_end(changes, i) <= o < old_stop(
            changes,
            i,
            old.len(),
        ) ==> #[trigger] old[o] == new[o - old_end(changes, i) + new_end(changes, i)]
}

/// The changes that the histogram line diff finds between two texts, with
/// ambiguous ones placed by an indentation heuristic that counts a tab as up
/// to `tab_width` columns.
pub uninterp spec fn line_changes(
    old: Seq<Seq<char>>,
    new: Seq<Seq<char>>,
    tab_width: u8,
) -> Seq<Change>;

/// Diffs two lists of lines with the `imara_diff` crate: `Diff::compute` with
/// the histogram algorithm, `Diff::postprocess_with` with an indentation
/// heuristic, and `Diff::hunks`. The hunks depend on the lines and the tab
/// width alone. They form an edit script that transforms the old lines into
/// the new ones: in order and apart from each other, with equally many and
/// equal lines between them on both sides. Equal lists have no hunks.
///
/// `imara_diff` panics on 2^31 - 1 lines of a side or more and on a tab width of
/// zero, and counts columns below 200 plus a tab width in a `u8`. It doubles
/// the number of distinct lines in a `u32`. Between the lines that the sides
/// share at their ends, it finds repeated old lines by `u32` places in a pool,
/// which grows by a block at the second occurrence of a line and whenever its
/// block is full. Where all lines that the sides have in common occur more than
/// 63 times, it triples the number of such lines in an `i32`. How it chooses
/// among edit scripts is not stated.
#[verifier::external_body]
fn diff_lines(old: &[String], new: &[String], tab_width: u8) -> (changes: Vec<Change>)
    requires
        limits::diffable(text::texts(old@), text::texts(new@)),
        0 < tab_width <= 50,
    ensures
        changes@ == line_changes(text::texts(old@), text::texts(new@), tab_width),
        is_script(changes@, old@.len(), new@.len()),
        rest_agrees(text::texts(old@), text::texts(new@), changes@),
        text::texts(old@) == text::texts(new@) ==> changes@.len() == 0,
{
    let interner = Interner::new(old.len());
    let mut input = InternedInput { before: Vec::new(), after: Vec::new(), interner };
    input.update_before(old.iter().map(String::as_str));
    input.update_after(new.iter().map(String::as_str));
    let mut diff = Diff::compute(Algorithm::Histogram, &input);
    let indent = |token| IndentLevel::for_ascii_line(input.interner[token].bytes(), tab_width);
    diff.postprocess_with(&input.before, &input.after, IndentHeuristic::new(indent));
    diff.hunks().map(|hunk| Change {
        old_start: hunk.before.start as usize,
        old_end: hunk.before.end as usize,
        new_start: hunk.after.start as usize,
        new_end: hunk.after.end as usize,
    }).collect()
}

/// The changed parts of the `k`-th removed and the `k`-th added line of a
/// change, which are shown as versions of one another.
pub open spec fn paired(
    old: Seq<Seq<char>>,
    new: Seq<Seq<char>>,
    c: Change,
    k: int,
) -> Option<(Range<usize>, Range<usize>)> {
    if k < c.old_end - c.old_start && k < c.new_end - c.new_start {
        intraline::intraline(old[c.old_start + k], new[c.new_start + k])
    } else {
        None
    }
}

/// The op for the `k`-th line that a change removes.
pub open spec fn removed_op(old: Seq<Seq<char>>, new: Seq<Seq<char>>, c: Change, k: int) -> Op {
    Op {
        kind: OpKind::Removed,
        old: (c.old_start + k) as usize,
        new: NO_LINE,
        hl: match paired(old, new, c, k) {
            Some((hl, _)) => Some(hl),
            None => None,
        },
    }
}

/// The op for the `k`-th line that a change adds.
pub open spec fn added_op(old: Seq<Seq<char>>, new: Seq<Seq<char>>, c: Change, k: int) -> Op {
    Op {
        kind: OpKind::Added,
        old: NO_LINE,
        new: (c.new_start + k) as usize,
        hl: match paired(old, new, c, k) {
            Some((_, hl)) => Some(hl),
            None => None,
        },
    }
}

/// The ops of one change: the removed lines, then the added ones.
pub open spec fn change_ops(old: Seq<Seq<char>>, new: Seq<Seq<char>>, c: Change) -> Seq<Op> {
    Seq::new((c.old_end - c.old_start) as nat, |k: int| removed_op(old, new, c, k)) + Seq::new(
        (c.new_end - c.new_start) as nat,
        |k: int| added_op(old, new, c, k),
    )
}

/// `n` context ops from the given lines on.
pub open spec fn context_ops(old_from: int, new_from: int, n: int) -> Seq<Op> {
    Seq::new(
        n as nat,
        |k: int|
            Op {
                kind: OpKind::Context,
                old: (old_from + k) as usize,
                new: (new_from + k) as usize,
                hl: None,
            },
    )
}

/// The ops up to change `i`: everything before it is aligned.
pub open spec fn ops_until(
    old: Seq<Seq<char>>,
    new: Seq<Seq<char>>,
    changes: Seq<Change>,
    i: int,
) -> Seq<Op>
    decreases i, 1int,
{
    ops_after(old, new, changes, i) + context_ops(
        old_end(changes, i),
        new_end(changes, i),
        old_stop(changes, i, old.len()) - old_end(changes, i),
    )
}

/// The ops of the first `i` changes and of the unchanged lines between them.
pub open spec fn ops_after(
    old: Seq<Seq<char>>,
    new: Seq<Seq<char>>,
    changes: Seq<Change>,
    i: int,
) -> Seq<Op>
    decreases i, 0int,
{
    if i <= 0 {
        Seq::empty()
    } else {
        ops_until(old, new, changes, i - 1) + change_ops(old, new, changes[i - 1])
    }
}

/// The full alignment of two files.
pub open spec fn aligned(
    old: Seq<Seq<char>>,
    new: Seq<Seq<char>>,
    changes: Seq<Change>,
) -> Seq<Op> {
    ops_until(old, new, changes, changes.len() as int)
}

/// The ranges of ops that the first `i` changes occupy.
pub open spec fn spans(
    old: Seq<Seq<char>>,
    new: Seq<Seq<char>>,
    changes: Seq<Change>,
    i: int,
) -> Seq<Range<usize>>
    decreases i,
{
    if i <= 0 {
        Seq::empty()
    } else {
        spans(old, new, changes, i - 1).push(
            Range {
                start: ops_until(old, new, changes, i - 1).len() as usize,
                end: ops_after(old, new, changes, i).len() as usize,
            },
        )
    }
}

/// How many lines the first `i` changes add.
pub open spec fn added_count(changes: Seq<Change>, i: int) -> int
    decreases i,
{
    if i <= 0 {
        0
    } else {
        added_count(changes, i - 1) + (changes[i - 1].new_end - changes[i - 1].new_start)
    }
}

/// How many lines the first `i` changes remove.
pub open spec fn removed_count(changes: Seq<Change>, i: int) -> int
    decreases i,
{
    if i <= 0 {
        0
    } else {
        removed_count(changes, i - 1) + (changes[i - 1].old_end - changes[i - 1].old_start)
    }
}

/// A range of ops with the context lines around it, within `len` ops.
pub open spec fn with_context(span: Range<usize>, len: nat) -> Range<usize> {
    Range {
        start: if span.start < CONTEXT_LINES {
            0
        } else {
            (span.start - CONTEXT_LINES) as usize
        },
        end: if span.end + CONTEXT_LINES < len {
            (span.end + CONTEXT_LINES) as usize
        } else {
            len as usize
        },
    }
}

/// Adds a range to a list of hunks; one that reaches the last hunk extends it.
pub open spec fn merge_hunk(hunks: Seq<Range<usize>>, next: Range<usize>) -> Seq<Range<usize>> {
    if hunks.len() > 0 && next.start <= hunks.last().end {
        let last = hunks.last();
        hunks.drop_last().push(
            Range {
                start: last.start,
                end: if last.end < next.end {
                    next.end
                } else {
                    last.end
                },
            },
        )
    } else {
        hunks.push(next)
    }
}

/// The displayed hunks: the changes with their context, merged where they meet.
pub open spec fn display_hunks(spans: Seq<Range<usize>>, len: nat) -> Seq<Range<usize>>
    decreases spans.len(),
{
    if spans.len() == 0 {
        Seq::empty()
    } else {
        merge_hunk(display_hunks(spans.drop_last(), len), with_context(spans.last(), len))
    }
}

/// What a diff of two files consists of.
#[verifier::ext_equal]
pub struct Alignment {
    /// Full alignment of the two files, in order.
    pub ops: Seq<Op>,
    /// Displayed ranges of `ops`.
    pub hunks: Seq<Range<usize>>,
    pub additions: int,
    pub deletions: int,
}

/// The diff that a list of changes describes.
pub open spec fn alignment(
    old: Seq<Seq<char>>,
    new: Seq<Seq<char>>,
    changes: Seq<Change>,
) -> Alignment {
    let n = changes.len() as int;
    let ops = aligned(old, new, changes);
    Alignment {
        ops,
        hunks: display_hunks(spans(old, new, changes, n), ops.len()),
        additions: added_count(changes, n),
        deletions: removed_count(changes, n),
    }
}

/// The lines that a diff compares: the lines themselves or, when white space
/// is ignored, their normalized forms.
pub open spec fn compared(lines: Seq<Seq<char>>, ignore_whitespace: bool) -> Seq<Seq<char>> {
    if ignore_whitespace {
        lines.map_values(|line: Seq<char>| text::join_words(text::words(line)))
    } else {
        lines
    }
}

/// There are not too many lines for a diff.
pub open spec fn comparable(
    old: Seq<Seq<char>>,
    new: Seq<Seq<char>>,
    ignore_whitespace: bool,
) -> bool {
    limits::diffable(compared(old, ignore_whitespace), compared(new, ignore_whitespace))
}

/// The changes between two lists of lines.
pub open spec fn changes_between(
    old: Seq<Seq<char>>,
    new: Seq<Seq<char>>,
    ignore_whitespace: bool,
) -> Seq<Change> {
    line_changes(compared(old, ignore_whitespace), compared(new, ignore_whitespace), TAB_WIDTH)
}

/// The number of ops up to a point: one per line of either side, context lines
/// counted once.
pub proof fn lemma_ops_len(
    old: Seq<Seq<char>>,
    new: Seq<Seq<char>>,
    changes: Seq<Change>,
    new_len: nat,
    i: int,
)
    requires
        is_script(changes, old.len(), new_len),
        0 <= i <= changes.len(),
    ensures
        ops_after(old, new, changes, i).len() == old_end(changes, i) + added_count(changes, i),
        ops_until(old, new, changes, i).len() == old_stop(changes, i, old.len()) + added_count(
            changes,
            i,
        ),
        0 <= old_end(changes, i) <= old_stop(changes, i, old.len()) <= old.len(),
        0 <= added_count(changes, i) <= new_end(changes, i) <= new_len,
        0 <= removed_count(changes, i) <= old_end(changes, i),
        i < changes.len() ==> added_count(changes, i) <= changes[i].new_start,
    decreases i,
{
    if i < changes.len() {
        assert(change_fits(changes, i, old.len(), new_len));
    }
    if i > 0 {
        assert(change_fits(changes, i - 1, old.len(), new_len));
        lemma_ops_len(old, new, changes, new_len, i - 1);
        assert(ops_after(old, new, changes, i).len() == ops_until(old, new, changes, i - 1).len()
            + change_ops(old, new, changes[i - 1]).len());
    }
}

/// Appends the ops of one change, pairing the i-th removed line with the i-th
/// added line for highlights within the line.
fn push_change(ops: &mut Vec<Op>, old_lines: &[String], new_lines: &[String], c: Change)
    requires
        c.old_start <= c.old_end <= old_lines@.len(),
        c.new_start <= c.new_end <= new_lines@.len(),
    ensures
        final(ops)@ == old(ops)@ + change_ops(
            text::texts(old_lines@),
            text::texts(new_lines@),
            c,
        ),
{
    let ghost old_texts = text::texts(old_lines@);
    let ghost new_texts = text::texts(new_lines@);
    let ghost start = ops@;
    let removed: usize = c.old_end - c.old_start;
    let added: usize = c.new_end - c.new_start;
    let mut pairs: Vec<Option<(Range<usize>, Range<usize>)>> = Vec::new();
    let mut k: usize = 0;
    while k < removed && k < added
        invariant
            k <= removed,
            k <= added,
            removed == c.old_end - c.old_start,
            added == c.new_end - c.new_start,
            c.old_end <= old_lines@.len(),
            c.new_end <= new_lines@.len(),
            old_texts == text::texts(old_lines@),
            new_texts == text::texts(new_lines@),
            pairs@.len() == k,
            forall|j: int| 0 <= j < k ==> #[trigger] pairs@[j] == paired(old_texts, new_texts, c, j),
        decreases removed - k,
    {
        pairs.push(
            intraline::intraline_ranges(
                old_lines[c.old_start + k].as_str(),
                new_lines[c.new_start + k].as_str(),
            ),
        );
        k += 1;
    }
    let ghost removed_ops = Seq::new(
        removed as nat,
        |k: int| removed_op(old_texts, new_texts, c, k),
    );
    let ghost added_ops = Seq::new(added as nat, |k: int| added_op(old_texts, new_texts, c, k));
    k = 0;
    assert(removed_ops.take(0) =~= Seq::empty());
    while k < removed
        invariant
            k <= removed,
            removed == c.old_end - c.old_start,
            added == c.new_end - c.new_start,
            pairs@.len() == if removed < added {
                removed
            } else {
                added
            },
            forall|j: int|
                0 <= j < pairs@.len() ==> #[trigger] pairs@[j] == paired(
                    old_texts,
                    new_texts,
                    c,
                    j,
                ),
            removed_ops == Seq::new(
                removed as nat,
                |k: int| removed_op(old_texts, new_texts, c, k),
            ),
            ops@ == start + removed_ops.take(k as int),
        decreases removed - k,
    {
        let mut op = Op::removed(c.old_start + k);
        if k < pairs.len() {
            if let Some((hl, _)) = &pairs[k] {
                op.hl = Some(Range { start: hl.start, end: hl.end });
            }
        }
        assert(op == removed_ops[k as int]);
        ops.push(op);
        assert(removed_ops.take(k + 1) =~= removed_ops.take(k as int).push(removed_ops[k as int]));
        k += 1;
        assert(ops@ =~= start + removed_ops.take(k as int));
    }
    assert(removed_ops.take(removed as int) =~= removed_ops);
    assert(start + removed_ops =~= start + removed_ops + added_ops.take(0));
    k = 0;
    while k < added
        invariant
            k <= added,
            removed == c.old_end - c.old_start,
            added == c.new_end - c.new_start,
            pairs@.len() == if removed < added {
                removed
            } else {
                added
            },
            forall|j: int|
                0 <= j < pairs@.len() ==> #[trigger] pairs@[j] == paired(
                    old_texts,
                    new_texts,
                    c,
                    j,
                ),
            added_ops == Seq::new(added as nat, |k: int| added_op(old_texts, new_texts, c, k)),
            ops@ == start + removed_ops + added_ops.take(k as int),
        decreases added - k,
    {
        let mut op = Op::added(c.new_start + k);
        if k < pairs.len() {
            if let Some((_, hl)) = &pairs[k] {
                op.hl = Some(Range { start: hl.start, end: hl.end });
            }
        }
        assert(op == added_ops[k as int]);
        ops.push(op);
        assert(added_ops.take(k + 1) =~= added_ops.take(k as int).push(added_ops[k as int]));
        k += 1;
        assert(ops@ =~= start + removed_ops + added_ops.take(k as int));
    }
    assert(added_ops.take(added as int) =~= added_ops);
    assert(ops@ =~= start + change_ops(old_texts, new_texts, c));
}

/// Appends `n` context ops from the given lines on.
fn push_context(ops: &mut Vec<Op>, old_from: usize, new_from: usize, n: usize)
    requires
        old_from + n <= usize::MAX,
        new_from + n <= usize::MAX,
    ensures
        final(ops)@ == old(ops)@ + context_ops(old_from as int, new_from as int, n as int),
{
    let ghost start = ops@;
    let mut k: usize = 0;
    assert(ops@ =~= start + context_ops(old_from as int, new_from as int, 0));
    while k < n
        invariant
            k <= n,
            old_from + n <= usize::MAX,
            new_from + n <= usize::MAX,
            ops@ == start + context_ops(old_from as int, new_from as int, k as int),
        decreases n - k,
    {
        ops.push(Op::context(old_from + k, new_from + k));
        k += 1;
        assert(ops@ =~= start + context_ops(old_from as int, new_from as int, k as int));
    }
}

/// Adds a range to a list of hunks; one that reaches the last hunk extends it.
fn push_hunk(hunks: &mut Vec<Range<usize>>, next: Range<usize>)
    ensures
        final(hunks)@ == merge_hunk(old(hunks)@, next),
{
    let n = hunks.len();
    if n > 0 && next.start <= hunks[n - 1].end {
        let last = Range { start: hunks[n - 1].start, end: hunks[n - 1].end };
        let end = if last.end < next.end {
            next.end
        } else {
            last.end
        };
        hunks.pop();
        hunks.push(Range { start: last.start, end });
        assert(hunks@ =~= merge_hunk(old(hunks)@, next));
    } else {
        hunks.push(next);
    }
}

/// The displayed hunks of a list of changed ranges of ops.
pub fn hunks_around(spans: &[Range<usize>], len: usize) -> (hunks: Vec<Range<usize>>)
    requires
        forall|i: int|
            0 <= i < spans@.len() ==> (#[trigger] spans@[i]).end <= usize::MAX - CONTEXT_LINES,
    ensures
        hunks@ == display_hunks(spans@, len as nat),
{
    let mut hunks: Vec<Range<usize>> = Vec::new();
    let mut i: usize = 0;
    assert(spans@.take(0) =~= Seq::empty());
    while i < spans.len()
        invariant
            i <= spans@.len(),
            forall|i: int|
                0 <= i < spans@.len() ==> (#[trigger] spans@[i]).end <= usize::MAX - CONTEXT_LINES,
            hunks@ == display_hunks(spans@.take(i as int), len as nat),
        decreases spans@.len() - i,
    {
        let span = &spans[i];
        let start = span.start.saturating_sub(CONTEXT_LINES);
        let reach: usize = span.end + CONTEXT_LINES;
        let end = if reach < len {
            reach
        } else {
            len
        };
        push_hunk(&mut hunks, Range { start, end });
        assert(spans@.take(i + 1).drop_last() =~= spans@.take(i as int));
        i += 1;
    }
    assert(spans@.take(spans@.len() as int) =~= spans@);
    hunks
}

/// Builds the aligned op list, the displayed hunks and the addition and
/// deletion counts of a list of changes.
pub fn align(old_lines: &[String], new_lines: &[String], changes: &[Change]) -> (r: (
    Vec<Op>,
    Vec<Range<usize>>,
    usize,
    usize,
))
    requires
        old_lines@.len() <= MAX_LINES,
        new_lines@.len() <= MAX_LINES,
        is_script(changes@, old_lines@.len(), new_lines@.len()),
    ensures
        (Alignment {
            ops: r.0@,
            hunks: r.1@,
            additions: r.2 as int,
            deletions: r.3 as int,
        }) == alignment(text::texts(old_lines@), text::texts(new_lines@), changes@),
{
    let ghost old_texts = text::texts(old_lines@);
    let ghost new_texts = text::texts(new_lines@);
    let mut ops: Vec<Op> = Vec::new();
    let mut changed: Vec<Range<usize>> = Vec::new();
    let mut additions: usize = 0;
    let mut deletions: usize = 0;
    let mut old_pos: usize = 0;
    let mut new_pos: usize = 0;
    let mut i: usize = 0;
    while i < changes.len()
        invariant
            i <= changes@.len(),
            old_lines@.len() <= MAX_LINES,
            new_lines@.len() <= MAX_LINES,
            is_script(changes@, old_lines@.len(), new_lines@.len()),
            old_texts == text::texts(old_lines@),
            new_texts == text::texts(new_lines@),
            old_pos == old_end(changes@, i as int),
            new_pos == new_end(changes@, i as int),
            additions == added_count(changes@, i as int),
            deletions == removed_count(changes@, i as int),
            ops@ == ops_after(old_texts, new_texts, changes@, i as int),
            changed@ == spans(old_texts, new_texts, changes@, i as int),
            forall|j: int| 0 <= j < i ==> (#[trigger] changed@[j]).end <= MAX_OPS,
            changed@.len() == i,
        decreases changes@.len() - i,
    {
        let c = changes[i];
        proof {
            assert(change_fits(changes@, i as int, old_lines@.len(), new_lines@.len()));
            lemma_ops_len(old_texts, new_texts, changes@, new_lines@.len(), i as int);
            lemma_ops_len(old_texts, new_texts, changes@, new_lines@.len(), i + 1);
        }
        push_context(&mut ops, old_pos, new_pos, c.old_start - old_pos);
        let start = ops.len();
        push_change(&mut ops, old_lines, new_lines, c);
        changed.push(Range { start, end: ops.len() });
        deletions += c.old_end - c.old_start;
        additions += c.new_end - c.new_start;
        old_pos = c.old_end;
        new_pos = c.new_end;
        i += 1;
    }
    proof {
        lemma_ops_len(old_texts, new_texts, changes@, new_lines@.len(), changes@.len() as int);
    }
    push_context(&mut ops, old_pos, new_pos, old_lines.len() - old_pos);
    let hunks = hunks_around(&changed, ops.len());
    (ops, hunks, additions, deletions)
}

/// Normalized copies of lines.
fn normalized(lines: &[String]) -> (out: Vec<String>)
    ensures
        text::texts(out@) == compared(text::texts(lines@), true),
{
    let mut out: Vec<String> = Vec::new();
    let mut i: usize = 0;
    while i < lines.len()
        invariant
            i <= lines@.len(),
            out@.len() == i,
            forall|j: int|
                0 <= j < i ==> (#[trigger] out@[j])@ == text::join_words(text::words(lines@[j]@)),
        decreases lines@.len() - i,
    {
        out.push(text::normalize_whitespace(lines[i].as_str()));
        i += 1;
    }
    assert(text::texts(out@) =~= compared(text::texts(lines@), true));
    out
}

/// Whether there are not too many lines for a diff.
pub fn can_compute_ops(old_lines: &[String], new_lines: &[String], ignore_whitespace: bool) -> (r:
    bool)
    ensures
        r == comparable(
            text::texts(old_lines@),
            text::texts(new_lines@),
            ignore_whitespace,
        ),
{
    if old_lines.len() <= FEW_LINES && new_lines.len() <= FEW_LINES {
        proof {
            limits::law_few_lines_are_diffable(
                compared(text::texts(old_lines@), ignore_whitespace),
                compared(text::texts(new_lines@), ignore_whitespace),
            );
        }
        return true;
    }
    if ignore_whitespace {
        let old = normalized(old_lines);
        let new = normalized(new_lines);
        limits::can_diff(&old, &new)
    } else {
        limits::can_diff(old_lines, new_lines)
    }
}

/// The changes between two lists of lines.
fn find_changes(old_lines: &[String], new_lines: &[String], ignore_whitespace: bool) -> (changes:
    Vec<Change>)
    requires
        comparable(text::texts(old_lines@), text::texts(new_lines@), ignore_whitespace),
    ensures
        changes@ == changes_between(
            text::texts(old_lines@),
            text::texts(new_lines@),
            ignore_whitespace,
        ),
        is_script(changes@, old_lines@.len(), new_lines@.len()),
        rest_agrees(
            compared(text::texts(old_lines@), ignore_whitespace),
            compared(text::texts(new_lines@), ignore_whitespace),
            changes@,
        ),
        compared(text::texts(old_lines@), ignore_whitespace) == compared(
            text::texts(new_lines@),
            ignore_whitespace,
        ) ==> changes@.len() == 0,
{
    if ignore_whitespace {
        let old = normalized(old_lines);
        let new = normalized(new_lines);
        assert(text::texts(old@).len() == old_lines@.len());
        assert(text::texts(new@).len() == new_lines@.len());
        diff_lines(&old, &new, TAB_WIDTH)
    } else {
        diff_lines(old_lines, new_lines, TAB_WIDTH)
    }
}

/// Diffs two files line by line: the aligned op list, the displayed hunk
/// ranges (changes with their context, merged where they overlap) and the
/// addition and deletion counts.
pub fn compute_ops(old_lines: &[String], new_lines: &[String], ignore_whitespace: bool) -> (r: (
    Vec<Op>,
    Vec<Range<usize>>,
    usize,
    usize,
))
    requires
        comparable(text::texts(old_lines@), text::texts(new_lines@), ignore_whitespace),
    ensures
        ({
            let old = text::texts(old_lines@);
            let new = text::texts(new_lines@);
            let changes = changes_between(old, new, ignore_whitespace);
            &&& is_script(changes, old.len(), new.len())
            &&& rest_agrees(
                compared(old, ignore_whitespace),
                compared(new, ignore_whitespace),
                changes,
            )
            &&& (Alignment {
                ops: r.0@,
                hunks: r.1@,
                additions: r.2 as int,
                deletions: r.3 as int,
            }) == alignment(old, new, changes)
            &&& r.1@.len() == 0 <==> compared(old, ignore_whitespace) == compared(
                new,
                ignore_whitespace,
            )
            &&& r.1@.len() == 0 <==> diff_laws::versions_agree(old, new, ignore_whitespace)
            &&& diff_laws::is_diff(
                old,
                new,
                ignore_whitespace,
                r.0@,
                r.1@,
                r.2 as int,
                r.3 as int,
            )
        }),
{
    let changes = find_changes(old_lines, new_lines, ignore_whitespace);
    proof {
        let old = text::texts(old_lines@);
        let new = text::texts(new_lines@);
        align_laws::law_hunks_show_changes_with_context(old, new, changes@);
        if changes@.len() == 0 {
            align_laws::law_no_changes_means_equal(old, new, ignore_whitespace, changes@);
        }
        diff_laws::law_alignment_is_a_diff(old, new, ignore_whitespace, changes@);
        diff_laws::lemma_versions_agree(old, new, ignore_whitespace);
    }
    align(old_lines, new_lines, &changes)
}

} // verus!
