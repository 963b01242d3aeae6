//! Laws of what is drawn for a row and around the rows.

use crate::align::{Op, OpKind, NO_LINE};
use crate::align_laws;
use crate::file_diff::{self, FileStatus, FileView};
use crate::frame;
use crate::frame_laws;
use crate::geometry::Rect;
use crate::render::{self, CodeView, Paint, PlanView, SpanView};
use crate::rows::{self, Notice, Row};
use crate::state::{self, ViewerState};
use crate::state_laws;
use crate::text;
use crate::theme::Role;
use vstd::prelude::*;
use vstd::string::*;

verus! {

/// The line of an op on one side.
pub open spec fn line_of(op: Op, old_side: bool) -> usize {
    if old_side {
        op.old
    } else {
        op.new
    }
}

/// How many of the ops from `from` up to `to` have a line on one side.
pub open spec fn count_lines(ops: Seq<Op>, from: int, to: int, old_side: bool) -> int
    decreases to - from,
{
    if from >= to {
        0
    } else {
        count_lines(ops, from, to - 1, old_side) + if line_of(ops[to - 1], old_side) != NO_LINE {
            1int
        } else {
            0
        }
    }
}

/// The number, counted from 1, of the first line on one side that the ops from
/// `from` up to `to` have; 0 if they have none.
pub open spec fn first_number(ops: Seq<Op>, from: int, to: int, old_side: bool) -> int
    decreases to - from,
{
    if from >= to {
        0
    } else if line_of(ops[from], old_side) != NO_LINE {
        line_of(ops[from], old_side) + 1
    } else {
        first_number(ops, from + 1, to, old_side)
    }
}

/// The header of a hunk reads `@@ -a,b +c,d @@`: `a` is the number of the first
/// old line in the hunk and `b` the number of old lines there, and `c` and `d`
/// the same of the new lines. Then it tells how many lines are hidden between
/// the hunk and the one above it, if any are.
pub proof fn law_hunk_header_text(s: ViewerState, file: usize, hunk: usize)
    requires
        s.wf(),
        file < s.files.len(),
        hunk < s.files[file as int].hunks.len(),
    ensures
        ({
            let f = s.files[file as int];
            let from = f.hunks[hunk as int].start as int;
            let to = f.hunks[hunk as int].end as int;
            let hidden = from - if hunk == 0 {
                0
            } else {
                f.hunks[hunk - 1].end as int
            };
            let numbers = "  @@ -"@ + text::decimal(first_number(f.ops, from, to, true) as nat)
                + ","@ + text::decimal(count_lines(f.ops, from, to, true) as nat) + " +"@
                + text::decimal(first_number(f.ops, from, to, false) as nat) + ","@ + text::decimal(
                count_lines(f.ops, from, to, false) as nat,
            ) + " @@"@;
            render::row_plan(s.files, s.num_width, Row::HunkHeader { file, hunk }) == (
            PlanView::Text {
                indent: 0,
                text: if hidden > 0 {
                    numbers + "  ⋯ "@ + text::decimal(hidden as nat)
                        + " hidden lines (+ expand, = all)"@
                } else {
                    numbers
                },
                role: Role::HunkHeader,
            })
        }),
{
    let f = s.files[file as int];
    assert(f.wf());
    let from = f.hunks[hunk as int].start as int;
    let to = f.hunks[hunk as int].end as int;
    assert(from < to <= f.ops.len());
    lemma_side(f.ops, from, to);
}

proof fn lemma_side(ops: Seq<Op>, from: int, to: int)
    requires
        0 <= from <= to <= ops.len(),
    ensures
        ({
            let old = file_diff::line_info(align_laws::old_side(ops.subrange(from, to)));
            let new = file_diff::line_info(align_laws::new_side(ops.subrange(from, to)));
            &&& old == (first_number(ops, from, to, true), count_lines(ops, from, to, true))
            &&& new == (first_number(ops, from, to, false), count_lines(ops, from, to, false))
            &&& align_laws::old_side(ops.subrange(from, to)).len() == count_lines(
                ops,
                from,
                to,
                true,
            )
            &&& align_laws::new_side(ops.subrange(from, to)).len() == count_lines(
                ops,
                from,
                to,
                false,
            )
        }),
    decreases to - from,
{
    if from < to {
        lemma_side(ops, from, to - 1);
        lemma_first_number(ops, from, to, true);
        lemma_first_number(ops, from, to, false);
        let all = ops.subrange(from, to);
        assert(all.drop_last() =~= ops.subrange(from, to - 1));
        assert(all.last() == ops[to - 1]);
    }
}

/// The first line is that of the last op where no op before it has one.
proof fn lemma_first_number(ops: Seq<Op>, from: int, to: int, old_side: bool)
    requires
        0 <= from < to <= ops.len(),
    ensures
        first_number(ops, from, to, old_side) == if count_lines(ops, from, to - 1, old_side) > 0 {
            first_number(ops, from, to - 1, old_side)
        } else if line_of(ops[to - 1], old_side) != NO_LINE {
            line_of(ops[to - 1], old_side) + 1
        } else {
            0
        },
        0 <= count_lines(ops, from, to - 1, old_side),
        count_lines(ops, from, to - 1, old_side) > 0 ==> first_number(ops, from, to - 1, old_side)
            > 0,
    decreases to - from,
{
    reveal_with_fuel(count_lines, 2);
    reveal_with_fuel(first_number, 2);
    if from + 1 < to {
        lemma_first_number(ops, from + 1, to, old_side);
        lemma_count_first(ops, from, to - 1, old_side);
    }
}

proof fn lemma_count_first(ops: Seq<Op>, from: int, to: int, old_side: bool)
    requires
        0 <= from < to <= ops.len(),
    ensures
        count_lines(ops, from, to, old_side) == count_lines(ops, from + 1, to, old_side) + if line_of(
            ops[from],
            old_side,
        ) != NO_LINE {
            1int
        } else {
            0
        },
        0 <= count_lines(ops, from + 1, to, old_side),
    decreases to - from,
{
    reveal_with_fuel(count_lines, 2);
    if from + 1 < to {
        lemma_count_first(ops, from, to - 1, old_side);
    }
}

/// A hunk of added lines only reads `@@ -0,0 +c,d @@`, with as many new lines as
/// it has ops, and one of removed lines only reads `@@ -a,b +0,0 @@`.
pub proof fn law_one_sided_hunk_numbers(ops: Seq<Op>, from: int, to: int, old_side: bool)
    requires
        0 <= from < to <= ops.len(),
        forall|k: int|
            from <= k < to ==> line_of(#[trigger] ops[k], old_side) != NO_LINE && line_of(
                ops[k],
                !old_side,
            ) == NO_LINE,
    ensures
        count_lines(ops, from, to, old_side) == to - from,
        first_number(ops, from, to, old_side) == line_of(ops[from], old_side) + 1,
        count_lines(ops, from, to, !old_side) == 0,
        first_number(ops, from, to, !old_side) == 0,
    decreases to - from,
{
    reveal_with_fuel(count_lines, 2);
    if from + 1 < to {
        law_one_sided_hunk_numbers(ops, from, to - 1, old_side);
    }
    lemma_first_number(ops, from, to, !old_side);
    assert(line_of(ops[to - 1], old_side) != NO_LINE);
    assert(line_of(ops[from], old_side) != NO_LINE);
}

/// The row below the last hunk tells how many lines are hidden there.
pub proof fn law_tail_text(s: ViewerState, file: usize)
    requires
        s.wf(),
        file < s.files.len(),
        s.files[file as int].hunks.len() > 0,
    ensures
        ({
            let f = s.files[file as int];
            let hidden = f.ops.len() - f.hunks[f.hunks.len() - 1].end;
            render::row_plan(s.files, s.num_width, Row::ExpandTail { file }) == (PlanView::Text {
                indent: 0,
                text: "  ⋯ "@ + text::decimal(hidden as nat)
                    + " hidden lines below (+ expand, = all)"@,
                role: Role::HunkHeader,
            })
        }),
{
}

/// The notes of files without hunks.
pub proof fn law_note_text(s: ViewerState, file: usize, notice: Notice)
    ensures
        render::row_plan(s.files, s.num_width, Row::Note { file, notice }) == (PlanView::Text {
            indent: 2,
            text: match notice {
                Notice::Binary => "binary file (contents not shown)"@,
                Notice::OnlyRenamed => "file renamed without content changes"@,
                Notice::Unchanged => "no content changes"@,
            },
            role: Role::Dim,
        }),
{
}

/// A text ends with another, and consists of blanks before it.
pub open spec fn is_right_aligned(whole: Seq<char>, part: Seq<char>) -> bool {
    &&& whole.len() >= part.len()
    &&& whole.skip(whole.len() - part.len()) == part
    &&& forall|i: int| 0 <= i < whole.len() - part.len() ==> #[trigger] whole[i] == ' '
}

/// What stands in the gutter for a line: its number, counted from 1 and
/// right-aligned, or blanks where there is no line.
pub open spec fn numbers_line(part: Seq<char>, line: usize) -> bool {
    if line == NO_LINE {
        forall|i: int| 0 <= i < part.len() ==> #[trigger] part[i] == ' '
    } else {
        is_right_aligned(part, text::decimal((line + 1) as nat))
    }
}

/// The marker of a line.
pub open spec fn marker_of(kind: OpKind) -> char {
    if kind == OpKind::Added {
        '+'
    } else if kind == OpKind::Removed {
        '-'
    } else {
        ' '
    }
}

/// How a line is styled, and how its gutter is.
pub open spec fn is_styled(code: CodeView, kind: OpKind) -> bool {
    match kind {
        OpKind::Added => code.role == Role::Plus && code.gutter_role == Role::Plus,
        OpKind::Removed => code.role == Role::Minus && code.gutter_role == Role::Minus,
        OpKind::Context => code.role == Role::Text && code.gutter_role == Role::LineNumber,
    }
}

/// A row of the unified view shows the number of its line in the old version,
/// that in the new version, `+`, `-` or a blank, and the text of the line, with
/// its changed part highlighted.
pub proof fn law_unified_line(s: ViewerState, k: int, file: usize, op: usize)
    requires
        s.wf(),
        0 <= k < s.rows.len(),
        s.rows[k] == (Row::Line { file, op }),
    ensures
        ({
            let f = s.files[file as int];
            let o = f.ops[op as int];
            let w = s.num_width;
            &&& render::row_plan(s.files, w, s.rows[k]) matches PlanView::Unified(code) && {
                &&& code.gutter.len() == 2 * w + 4
                &&& numbers_line(code.gutter.subrange(0, w), o.old)
                &&& code.gutter[w] == ' '
                &&& numbers_line(code.gutter.subrange(w + 1, 2 * w + 1), o.new)
                &&& code.gutter[2 * w + 1] == ' '
                &&& code.gutter[2 * w + 2] == marker_of(o.kind)
                &&& code.gutter[2 * w + 3] == ' '
                &&& code.line == if o.kind == OpKind::Removed {
                    f.old_lines[o.old as int]
                } else {
                    f.new_lines[o.new as int]
                }
                &&& code.hl == o.hl
                &&& is_styled(code, o.kind)
            }
        }),
{
    rows::law_rows_fit(s.files, s.split);
    assert(rows::row_fits(s.rows[k], s.files));
    let f = s.files[file as int];
    assert(f.wf());
    let o = f.ops[op as int];
    assert(align_laws::op_fits(o, f.old_lines.len(), f.new_lines.len()));
    let w = s.num_width;
    frame_laws::law_gutter_widths(s, k);
    frame_laws::lemma_gutter_number(s.files, file as int, o.old);
    frame_laws::lemma_gutter_number(s.files, file as int, o.new);
    lemma_number(o.old, w);
    lemma_number(o.new, w);
    reveal_strlit(" ");
    let code = render::unified_code(f, op as int, w);
    assert(code.gutter.subrange(0, w) =~= render::gutter_number(o.old, w));
    assert(code.gutter.subrange(w + 1, 2 * w + 1) =~= render::gutter_number(o.new, w));
}

proof fn lemma_number(line: usize, w: int)
    requires
        render::gutter_number(line, w).len() == w,
        0 <= w,
    ensures
        numbers_line(render::gutter_number(line, w), line),
{
    let number = render::gutter_number(line, w);
    if line != NO_LINE {
        let digits = text::decimal((line + 1) as nat);
        assert(number.skip(number.len() - digits.len()) =~= digits);
    }
}

/// A half of a row of the side-by-side view shows the number of its line in its
/// version, `+`, `-` or a blank, and the text of the line there, with its
/// changed part highlighted; nothing where there is no line.
pub open spec fn is_half(
    half: Option<CodeView>,
    f: FileView,
    op: usize,
    old_side: bool,
    w: int,
) -> bool {
    if op == NO_LINE {
        half is None
    } else {
        let o = f.ops[op as int];
        half matches Some(code) && {
            &&& code.gutter.len() == w + 3
            &&& numbers_line(code.gutter.subrange(0, w), line_of(o, old_side))
            &&& code.gutter[w] == ' '
            &&& code.gutter[w + 1] == marker_of(o.kind)
            &&& code.gutter[w + 2] == ' '
            &&& code.line == if old_side {
                f.old_lines[o.old as int]
            } else {
                f.new_lines[o.new as int]
            }
            &&& code.hl == o.hl
            &&& is_styled(code, o.kind)
        }
    }
}

/// A row of the side-by-side view shows the old version on the left and the new
/// one on the right.
pub proof fn law_split_line(s: ViewerState, k: int, file: usize, left: usize, right: usize)
    requires
        s.wf(),
        0 <= k < s.rows.len(),
        s.rows[k] == (Row::SplitLine { file, left, right }),
    ensures
        render::row_plan(s.files, s.num_width, s.rows[k]) matches PlanView::Split {
            left: l,
            right: r,
        } && is_half(l, s.files[file as int], left, true, s.num_width) && is_half(
            r,
            s.files[file as int],
            right,
            false,
            s.num_width,
        ),
{
    rows::law_rows_fit(s.files, s.split);
    assert(rows::row_fits(s.rows[k], s.files));
    let f = s.files[file as int];
    assert(f.wf());
    frame_laws::law_gutter_widths(s, k);
    lemma_half(s, file as int, left, true);
    lemma_half(s, file as int, right, false);
}

proof fn lemma_half(s: ViewerState, i: int, op: usize, old_side: bool)
    requires
        s.wf(),
        0 <= i < s.files.len(),
        op != NO_LINE ==> op < s.files[i].ops.len() && line_of(
            s.files[i].ops[op as int],
            old_side,
        ) != NO_LINE,
    ensures
        is_half(
            render::half_code(s.files[i], op, old_side, s.num_width),
            s.files[i],
            op,
            old_side,
            s.num_width,
        ),
{
    let f = s.files[i];
    let w = s.num_width;
    if op != NO_LINE {
        let o = f.ops[op as int];
        assert(f.wf());
        assert(align_laws::op_fits(o, f.old_lines.len(), f.new_lines.len()));
        let line = line_of(o, old_side);
        frame_laws::lemma_gutter_number(s.files, i, line);
        lemma_number(line, w);
        reveal_strlit(" ");
        let code = render::half_code(f, op, old_side, w).unwrap();
        assert(code.gutter.subrange(0, w) =~= render::gutter_number(line, w));
    }
}

/// The header of a file shows whether it is folded, the letter of its status,
/// its path, with the old one of a renamed file before it, and how many lines
/// were added and removed, or that it is binary.
pub proof fn law_file_header(s: ViewerState, file: usize)
    requires
        file < s.files.len(),
    ensures
        ({
            let f = s.files[file as int];
            &&& render::row_plan(s.files, s.num_width, Row::FileHeader { file })
                matches PlanView::Header(spans) && {
                &&& spans.len() == if f.binary {
                    4int
                } else {
                    5
                }
                &&& spans[0] == (SpanView {
                    text: if f.collapsed {
                        " ▸ "@
                    } else {
                        " ▾ "@
                    },
                    paint: Paint::Header,
                })
                &&& spans[1] == (SpanView {
                    text: match f.status {
                        FileStatus::Added => "A"@,
                        FileStatus::Modified => "M"@,
                        FileStatus::Deleted => "D"@,
                        FileStatus::Renamed => "R"@,
                        FileStatus::Conflict => "C"@,
                    },
                    paint: Paint::Status(f.status),
                })
                &&& spans[2] == (SpanView {
                    text: match f.old_display_path {
                        Some(from) => " "@ + from + " → "@ + f.display_path,
                        None => " "@ + f.display_path,
                    },
                    paint: Paint::Header,
                })
                &&& f.binary ==> spans[3] == (SpanView { text: "  BIN"@, paint: Paint::Header })
                &&& !f.binary ==> spans[3] == (SpanView {
                    text: "  +"@ + text::decimal(f.additions as nat),
                    paint: Paint::Patched(Role::Plus),
                })
                &&& !f.binary ==> spans[4] == (SpanView {
                    text: " -"@ + text::decimal(f.deletions as nat),
                    paint: Paint::Patched(Role::Minus),
                })
            }
        }),
{
}

/// The additions of all files.
pub open spec fn all_additions(files: Seq<FileView>) -> int {
    files.fold_left(0int, |sum: int, f: FileView| sum + f.additions)
}

/// The deletions of all files.
pub open spec fn all_deletions(files: Seq<FileView>) -> int {
    files.fold_left(0int, |sum: int, f: FileView| sum + f.deletions)
}

/// The header of the view tells how many files changed, how many lines were
/// added and removed in all of them, what is compared with what, which view it
/// is, and that white space is ignored if it is.
pub proof fn law_view_header(s: ViewerState)
    ensures
        frame::frame_of(s).header == " "@ + text::decimal(s.files.len()) + " changed file"@ + (
        if s.files.len() == 1 {
            ""@
        } else {
            "s"@
        }) + " with "@ + text::decimal(all_additions(s.files) as nat) + " additions and "@
            + text::decimal(all_deletions(s.files) as nat) + " deletions • "@ + (match s.rev {
            Some(rev) => rev + "...working tree"@,
            None => "HEAD → working tree"@,
        }) + " • "@ + (if s.split {
            "split"@
        } else {
            "unified"@
        }) + " view"@ + (if s.ignore_whitespace {
            " • ignoring whitespace"@
        } else {
            ""@
        }),
{
    lemma_totals(s.files, s.files.len() as int);
    assert(s.files.take(s.files.len() as int) =~= s.files);
}

proof fn lemma_totals(files: Seq<FileView>, n: int)
    requires
        0 <= n <= files.len(),
    ensures
        frame::total_additions(files, n) == all_additions(files.take(n)),
        frame::total_deletions(files, n) == all_deletions(files.take(n)),
    decreases n,
{
    if n > 0 {
        lemma_totals(files, n - 1);
        assert(files.take(n).drop_last() =~= files.take(n - 1));
        reveal_with_fuel(Seq::fold_left, 2);
    } else {
        assert(files.take(0) =~= Seq::empty());
    }
}

/// The frame shows the rows from the first one in view on, as many as fit, one
/// below the other. The row under the cursor is the one that is marked.
pub proof fn law_frame_rows(s: ViewerState, area: Rect, k: int)
    requires
        s.wf(),
        !state::too_small(area),
        0 <= k,
    ensures
        ({
            let after = s.prepared(area);
            let frame = frame::frame_of(after);
            &&& frame.inner == after.viewport
            &&& frame.rows.len() == if after.rows.len() - after.scroll < after.viewport.height {
                after.rows.len() - after.scroll
            } else {
                after.viewport.height as int
            }
            &&& k < frame.rows.len() ==> frame.rows[k] == render::row_plan(
                s.files,
                s.num_width,
                s.rows[after.scroll + k],
            )
            &&& s.rows.len() > 0 ==> {
                &&& frame.cursor_row matches Some(c) && 0 <= c < frame.rows.len() && after.scroll
                    + c == s.cursor
            }
            &&& s.rows.len() == 0 ==> frame.cursor_row is None
            &&& frame.show_help == s.show_help
        }),
{
    state_laws::law_cursor_is_in_view(s, area);
}

/// The viewport is the area without its first and its last row, which hold the
/// header and the footer.
pub proof fn law_viewport(s: ViewerState, area: Rect)
    requires
        area.height >= 2,
        area.y < u16::MAX,
    ensures
        s.prepared(area).viewport == (Rect {
            x: area.x,
            y: (area.y + 1) as u16,
            width: area.width,
            height: (area.height - 2) as u16,
        }),
{
}

/// The view scrolls no further than it has to for the cursor to be in view, and
/// not at all if it is.
pub proof fn law_scrolls_no_further(s: ViewerState, area: Rect)
    requires
        s.wf(),
        !state::too_small(area),
    ensures
        ({
            let after = s.prepared(area);
            let height = after.viewport.height as int;
            &&& s.scroll <= s.cursor < s.scroll + height ==> after.scroll == s.scroll
            &&& s.cursor < s.scroll ==> after.scroll == s.cursor
            &&& s.cursor >= s.scroll + height ==> after.scroll + height == s.cursor + 1
            &&& after == (ViewerState {
                scroll: after.scroll,
                h_scroll: after.h_scroll,
                viewport: after.viewport,
                ..s
            })
        }),
{
}

/// The scrollbar has a thumb exactly when not all rows are in view. The thumb is
/// in proportion to the part that is in view and lies within the view. It is at
/// the top when the first row is in view, and at the bottom when the last is.
pub proof fn law_thumb(rows: int, height: int, scroll: int)
    requires
        0 < height,
        0 <= scroll,
        rows > height ==> scroll <= rows - height,
    ensures
        rows <= height <==> frame::thumb(rows, height, scroll) is None,
        frame::thumb(rows, height, scroll) matches Some((top, len)) ==> {
            &&& 1 <= len <= height
            &&& len * rows <= height * height || len == 1
            &&& height * height < (len + 1) * rows
            &&& 0 <= top <= height - len
            &&& scroll == 0 ==> top == 0
            &&& scroll == rows - height ==> top == height - len
            &&& top * (rows - height) <= scroll * (height - len) < (top + 1) * (rows - height)
        },
{
    if rows > height {
        let q = (height * height) / rows;
        assert(q * rows <= height * height < (q + 1) * rows && 0 <= q <= height) by (nonlinear_arith)
            requires
                0 < height < rows,
                q == (height * height) / rows,
        ;
        let len = if q < 1 {
            1
        } else {
            q
        };
        let rest = height - len;
        let m = rows - height;
        let top = (scroll * rest) / m;
        assert(0 <= scroll * rest <= m * rest) by (nonlinear_arith)
            requires
                0 <= scroll <= m,
                0 <= rest,
        ;
        let a = scroll * rest;
        assert(top * m <= a < (top + 1) * m && 0 <= top <= rest) by (nonlinear_arith)
            requires
                0 < m,
                0 <= a <= m * rest,
                top == a / m,
        ;
        if scroll == m {
            assert(top == rest) by (nonlinear_arith)
                requires
                    0 < m,
                    top == (m * rest) / m,
            ;
        }
        assert(height * height < (len + 1) * rows) by (nonlinear_arith)
            requires
                height * height < (q + 1) * rows,
                q <= len,
                0 < rows,
        ;
        if scroll == 0 {
            assert(a == 0) by (nonlinear_arith)
                requires
                    scroll == 0,
                    a == scroll * rest,
            ;
            assert(top == 0) by (nonlinear_arith)
                requires
                    a == 0,
                    0 < m,
                    top == a / m,
            ;
        }
        assert(frame::thumb(rows, height, scroll) == Some((top, len)));
    }
}

/// The theme scopes that the styles come from.
pub proof fn law_theme_scopes()
    ensures
        Role::Text.scope_text() == "ui.text"@,
        Role::Dim.scope_text() == "ui.text.inactive"@,
        Role::LineNumber.scope_text() == "ui.linenr"@,
        Role::Plus.scope_text() == "diff.plus"@,
        Role::Minus.scope_text() == "diff.minus"@,
        Role::FileHeader.scope_text() == "ui.statusline"@,
        Role::HunkHeader.scope_text() == "diff.delta"@,
        Role::Statusline.scope_text() == "ui.statusline"@,
        Role::Cursorline.scope_text() == "ui.cursorline.primary"@,
        Role::Cursor.scope_text() == "ui.cursor"@,
        Role::Separator.scope_text() == "ui.window"@,
        Role::Popup.scope_text() == "ui.popup"@,
        FileStatus::Added.scope_text() == "diff.plus"@,
        FileStatus::Modified.scope_text() == "diff.delta"@,
        FileStatus::Deleted.scope_text() == "diff.minus"@,
        FileStatus::Renamed.scope_text() == "diff.delta.moved"@,
        FileStatus::Conflict.scope_text() == "diff.delta.conflict"@,
{
}

} // verus!
