//! Laws of the frame.

use crate::align::NO_LINE;
use crate::align_laws;
use crate::columns;
use crate::file_diff::FileView;
use crate::frame;
use crate::geometry::Rect;
use crate::render::{self, CodeView, PlanView};
use crate::rows::{self, Row};
use crate::state::{self, ViewerState};
use crate::state_laws;
use crate::text;
use vstd::math;
use vstd::prelude::*;
use vstd::string::*;

verus! {

/// A line of code that is drawn in part of a row.
pub struct Placed {
    pub code: CodeView,
    /// The column where its gutter begins.
    pub x: int,
    /// The columns that the gutter and the code may take.
    pub width: int,
}

/// The line of code under the cursor as it is drawn: in the side-by-side view
/// that of the new side where there is one.
pub open spec fn code_under_cursor(s: ViewerState, inner: Rect) -> Option<Placed> {
    let pane = frame::pane(inner.width as int);
    match s.current_row() {
        Some(row) => match render::row_plan(s.files, s.num_width, row) {
            PlanView::Unified(code) => Some(
                Placed { code, x: inner.x as int, width: inner.width as int },
            ),
            PlanView::Split { left: _, right: Some(code) } => Some(
                Placed { code, x: inner.x + pane + 1, width: pane },
            ),
            PlanView::Split { left: Some(code), right: None } => Some(
                Placed { code, x: inner.x as int, width: pane },
            ),
            _ => None,
        },
        None => None,
    }
}

pub proof fn lemma_decimal_grows(a: nat, b: nat)
    requires
        a <= b,
    ensures
        1 <= text::decimal(a).len() <= text::decimal(b).len(),
    decreases b,
{
    if a >= 10 {
        lemma_decimal_grows(a / 10, b / 10);
    } else if b >= 10 {
        lemma_decimal_grows(0, b / 10);
    }
}

pub proof fn lemma_most_lines(files: Seq<FileView>, n: int, i: int)
    requires
        0 <= i < n <= files.len(),
    ensures
        files[i].old_lines.len() <= state::most_lines(files, n),
        files[i].new_lines.len() <= state::most_lines(files, n),
    decreases n,
{
    if i < n - 1 {
        lemma_most_lines(files, n - 1, i);
    }
}

/// Every line number takes the width of the gutter.
pub proof fn lemma_gutter_number(files: Seq<FileView>, i: int, line: usize)
    requires
        0 <= i < files.len(),
        line == NO_LINE || line < files[i].old_lines.len() || line
            < files[i].new_lines.len(),
    ensures
        render::gutter_number(line, state::gutter_width(files)).len() == state::gutter_width(files),
{
    if line != NO_LINE {
        lemma_most_lines(files, files.len() as int, i);
        lemma_decimal_grows(
            (line + 1) as nat,
            math::max(1, state::most_lines(files, files.len() as int)) as nat,
        );
    }
}

/// The gutter of a line of the unified view holds two line numbers and a
/// marker, with a blank behind each; that of a half only one line number.
pub proof fn law_gutter_widths(s: ViewerState, k: int)
    requires
        s.wf(),
        0 <= k < s.rows.len(),
    ensures
        match render::row_plan(s.files, s.num_width, s.rows[k]) {
            PlanView::Unified(code) => code.gutter.len() == 2 * s.num_width + 4,
            PlanView::Split { left, right } => {
                &&& left matches Some(code) ==> code.gutter.len() == s.num_width + 3
                &&& right matches Some(code) ==> code.gutter.len() == s.num_width + 3
            },
            _ => true,
        },
{
    rows::law_rows_fit(s.files, s.split);
    reveal_strlit(" ");
    let row = s.rows[k];
    assert(rows::row_fits(row, s.files));
    let i = row.of_file() as int;
    let f = s.files[i];
    assert(f.wf());
    match row {
        Row::Line { file, op } => {
            let o = f.ops[op as int];
            assert(align_laws::op_fits(o, f.old_lines.len(), f.new_lines.len()));
            lemma_gutter_number(s.files, i, o.old);
            lemma_gutter_number(s.files, i, o.new);
        },
        Row::SplitLine { file, left, right } => {
            if left != NO_LINE {
                let o = f.ops[left as int];
                assert(align_laws::op_fits(o, f.old_lines.len(), f.new_lines.len()));
                lemma_gutter_number(s.files, i, o.old);
            }
            if right != NO_LINE {
                let o = f.ops[right as int];
                assert(align_laws::op_fits(o, f.old_lines.len(), f.new_lines.len()));
                lemma_gutter_number(s.files, i, o.new);
            }
        },
        _ => {},
    }
}

/// The cell cursor is on the cell where the character that the cursor is on is
/// drawn, as long as that is within the part of the row that shows its side.
pub proof fn law_cell_cursor_is_on_its_character(s: ViewerState, inner: Rect) -> (k: int)
    requires
        s.wf(),
        inner.x + inner.width <= u16::MAX,
        s.cursor_line() matches Some(line) && s.cursor_col < line.len(),
        frame::cursor_cell(s, inner) matches Some(x) && (code_under_cursor(s, inner) matches Some(
            placed,
        ) ==> x < placed.x + placed.width),
    ensures
        code_under_cursor(s, inner) matches Some(placed) && {
            let line = placed.code.line;
            let start = placed.x + placed.code.gutter.len();
            let room = frame::room(placed.x as u16, placed.width as u16, start as int);
            let cells = columns::line_cells(
                line,
                line.len() as int,
                placed.code.hl,
                room,
                s.h_scroll,
            );
            &&& s.cursor_line() == Some(line)
            &&& 0 <= k < cells.len()
            &&& frame::cursor_cell(s, inner) == Some(start + cells[k].offset)
            &&& cells[k].glyph == if line[s.cursor_col] == '\t' {
                None
            } else {
                Some(line[s.cursor_col])
            }
        },
{
    rows::law_rows_fit(s.files, s.split);
    rows::law_rows_are_of_the_view(s.files, s.split);
    state_laws::lemma_target(s);
    let row = s.rows[s.cursor];
    assert(s.current_row() == Some(row));
    assert(rows::row_fits(row, s.files));
    assert(rows::row_of_view(row, s.split));
    law_gutter_widths(s, s.cursor);
    let f = s.files[row.of_file() as int];
    assert(f.wf());
    match row {
        Row::Line { file, op } => {
            assert(align_laws::op_fits(f.ops[op as int], f.old_lines.len(), f.new_lines.len()));
        },
        Row::SplitLine { file, left, right } => {
            let op = if right != NO_LINE {
                right
            } else {
                left
            };
            assert(align_laws::op_fits(f.ops[op as int], f.old_lines.len(), f.new_lines.len()));
        },
        _ => {},
    }
    let placed = code_under_cursor(s, inner)->Some_0;
    let start = placed.x + placed.code.gutter.len();
    let room = frame::room(placed.x as u16, placed.width as u16, start as int);
    columns::law_character_is_drawn_at_its_column(
        placed.code.line,
        placed.code.hl,
        room,
        s.h_scroll,
        s.cursor_col,
    )
}

/// The view has at least ten columns for code.
pub open spec fn is_wide(s: ViewerState, inner: Rect) -> bool {
    if s.split {
        frame::pane(inner.width as int) >= s.num_width + 3 + 10
    } else {
        inner.width >= 2 * s.num_width + 4 + 10
    }
}

/// When the viewer is drawn in a view that is wide enough, and the cursor is on
/// a line of code, there is a cell cursor, in the part of the row that shows
/// its side.
pub proof fn law_cell_cursor_is_shown(s: ViewerState, area: Rect)
    requires
        s.wf(),
        !state::too_small(area),
        area.x + area.width <= u16::MAX,
        s.cursor_line() is Some,
        is_wide(s, s.prepared(area).viewport),
    ensures
        ({
            let after = s.prepared(area);
            let inner = after.viewport;
            &&& frame::cursor_cell(after, inner) matches Some(x) && (code_under_cursor(
                after,
                inner,
            ) matches Some(placed) ==> placed.x <= x < placed.x + placed.width)
        }),
{
    state_laws::law_cursor_is_in_view(s, area);
    state_laws::lemma_gutter_bound(s.files);
    rows::law_rows_fit(s.files, s.split);
    rows::law_rows_are_of_the_view(s.files, s.split);
    state_laws::lemma_target(s);
    let row = s.rows[s.cursor];
    assert(s.current_row() == Some(row));
    assert(rows::row_fits(row, s.files));
    assert(rows::row_of_view(row, s.split));
    let after = s.prepared(area);
    assert(after.cursor_line() == s.cursor_line());
    assert(after.current_row() == s.current_row());
    let f = s.files[row.of_file() as int];
    assert(f.wf());
    if let Row::SplitLine { file, left, right } = row {
        if right != NO_LINE {
            assert(align_laws::op_fits(f.ops[right as int], f.old_lines.len(), f.new_lines.len()));
        }
    }
}

} // verus!
