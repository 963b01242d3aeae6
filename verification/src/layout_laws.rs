//! Laws of columns, widths and sideways scrolling.

use crate::columns;
use crate::file_diff::FileView;
use crate::frame;
use crate::frame_laws;
use crate::geometry::Rect;
use crate::key_laws;
use crate::rows;
use crate::state::{self, ViewerState};
use crate::text;
use std::ops::Range;
use vstd::prelude::*;
use vstd::string::*;
use vstd::utf8;

verus! {

/// The column behind a character: behind a tab the next multiple of four,
/// behind any other character as many columns further as it is wide, at least
/// one.
pub proof fn law_column_behind_character(line: Seq<char>, k: int)
    requires
        0 <= k < line.len(),
    ensures
        columns::columns(line, 0) == 0,
        ({
            let before = columns::columns(line, k);
            let after = columns::columns(line, k + 1);
            if line[k] == '\t' {
                before < after <= before + 4 && after % 4 == 0
            } else {
                match columns::unicode_width(line[k]) {
                    Some(w) => after == before + if w == 0 {
                        1
                    } else {
                        w as int
                    },
                    None => after == before + 1,
                }
            }
        }),
{
    columns::law_columns_step(line, k);
    if k > 0 {
        columns::law_columns_grow(line, 0, k);
    }
    let col = columns::columns(line, k);
    assert(0 <= col);
    assert(0 <= col % 4 < 4);
}

/// A character that starts within the window is highlighted exactly if its
/// first byte lies in the highlighted range, and has the room up to the right
/// edge.
pub proof fn law_highlighted_cell(
    line: Seq<char>,
    hl: Option<Range<usize>>,
    width: int,
    skip: int,
    j: int,
) -> (k: int)
    requires
        0 <= j < line.len(),
        line[j] != '\t',
        0 <= skip <= columns::columns(line, j) < skip + width,
        width <= usize::MAX,
    ensures
        ({
            let cells = columns::line_cells(line, line.len() as int, hl, width, skip);
            let byte = utf8::encode_utf8(line.take(j)).len();
            &&& 0 <= k < cells.len()
            &&& cells[k].offset == columns::columns(line, j) - skip
            &&& cells[k].glyph == Some(line[j])
            &&& cells[k].room == skip + width - columns::columns(line, j)
            &&& cells[k].highlighted <==> (hl matches Some(r) && r.start <= byte < r.end)
        }),
{
    lemma_cell(line, line.len() as int, hl, width, skip, j)
}

proof fn lemma_cell(
    line: Seq<char>,
    n: int,
    hl: Option<Range<usize>>,
    width: int,
    skip: int,
    j: int,
) -> (k: int)
    requires
        0 <= j < n <= line.len(),
        line[j] != '\t',
        0 <= skip <= columns::columns(line, j) < skip + width,
        width <= usize::MAX,
    ensures
        ({
            let cells = columns::line_cells(line, n, hl, width, skip);
            let byte = utf8::encode_utf8(line.take(j)).len();
            &&& 0 <= k < cells.len()
            &&& cells[k].offset == columns::columns(line, j) - skip
            &&& cells[k].glyph == Some(line[j])
            &&& cells[k].room == skip + width - columns::columns(line, j)
            &&& cells[k].highlighted <==> (hl matches Some(r) && r.start <= byte < r.end)
        }),
    decreases n,
{
    let before = columns::line_cells(line, n - 1, hl, width, skip);
    if j < n - 1 {
        lemma_cell(line, n - 1, hl, width, skip, j)
    } else {
        columns::law_columns_step(line, j);
        before.len() as int
    }
}

/// A column of the window that belongs to a tab, or to a character that is cut
/// off at the left edge, is blank.
pub proof fn law_blank_cell(
    line: Seq<char>,
    hl: Option<Range<usize>>,
    width: int,
    skip: int,
    j: int,
    col: int,
) -> (k: int)
    requires
        0 <= j < line.len(),
        columns::columns(line, j) <= col < columns::columns(line, j + 1),
        0 <= skip <= col < skip + width,
        width <= usize::MAX,
        line[j] == '\t' || columns::columns(line, j) < skip,
    ensures
        ({
            let cells = columns::line_cells(line, line.len() as int, hl, width, skip);
            let byte = utf8::encode_utf8(line.take(j)).len();
            &&& 0 <= k < cells.len()
            &&& cells[k].offset == col - skip
            &&& cells[k].glyph is None
            &&& cells[k].highlighted <==> (hl matches Some(r) && r.start <= byte < r.end)
        }),
{
    lemma_blank(line, line.len() as int, hl, width, skip, j, col)
}

proof fn lemma_blank(
    line: Seq<char>,
    n: int,
    hl: Option<Range<usize>>,
    width: int,
    skip: int,
    j: int,
    col: int,
) -> (k: int)
    requires
        0 <= j < n <= line.len(),
        columns::columns(line, j) <= col < columns::columns(line, j + 1),
        0 <= skip <= col < skip + width,
        width <= usize::MAX,
        line[j] == '\t' || columns::columns(line, j) < skip,
    ensures
        ({
            let cells = columns::line_cells(line, n, hl, width, skip);
            let byte = utf8::encode_utf8(line.take(j)).len();
            &&& 0 <= k < cells.len()
            &&& cells[k].offset == col - skip
            &&& cells[k].glyph is None
            &&& cells[k].highlighted <==> (hl matches Some(r) && r.start <= byte < r.end)
        }),
    decreases n,
{
    let before = columns::line_cells(line, n - 1, hl, width, skip);
    if j < n - 1 {
        lemma_blank(line, n - 1, hl, width, skip, j, col)
    } else {
        let start = columns::columns(line, j);
        let from = if start < skip {
            skip
        } else {
            start
        };
        before.len() + (col - from)
    }
}

/// Nothing else is drawn: every cell stands for a character of the line that is
/// at least partly in the window.
pub proof fn law_cells_come_from_characters(
    line: Seq<char>,
    n: int,
    hl: Option<Range<usize>>,
    width: int,
    skip: int,
    k: int,
) -> (j: int)
    requires
        0 <= n <= line.len(),
        0 <= width <= usize::MAX,
        0 <= skip,
        0 <= k < columns::line_cells(line, n, hl, width, skip).len(),
    ensures
        0 <= j < n,
        ({
            let cell = columns::line_cells(line, n, hl, width, skip)[k];
            &&& columns::columns(line, j) <= cell.offset + skip < columns::columns(line, j + 1)
            &&& cell.offset < width
            &&& cell.glyph matches Some(c) ==> c == line[j]
        }),
    decreases n,
{
    let before = columns::line_cells(line, n - 1, hl, width, skip);
    if k < before.len() {
        law_cells_come_from_characters(line, n - 1, hl, width, skip, k)
    } else {
        columns::law_columns_step(line, n - 1);
        n - 1
    }
}

/// The gutter has at least three columns for a line number, and no more than the
/// greatest number of lines of a version takes.
pub proof fn law_gutter_is_no_wider(s: ViewerState)
    requires
        s.wf(),
    ensures
        s.num_width >= 3,
        s.num_width == 3 || exists|i: int|
            0 <= i < s.files.len() && (text::decimal((#[trigger] s.files[i]).old_lines.len()).len()
                == s.num_width || text::decimal(s.files[i].new_lines.len()).len() == s.num_width),
        forall|i: int, line: int|
            0 <= i < s.files.len() && 0 <= line < (#[trigger] s.files[i]).old_lines.len()
                ==> (#[trigger] text::decimal((line + 1) as nat)).len() <= s.num_width,
        forall|i: int, line: int|
            0 <= i < s.files.len() && 0 <= line < (#[trigger] s.files[i]).new_lines.len()
                ==> (#[trigger] text::decimal((line + 1) as nat)).len() <= s.num_width,
{
    let n = s.files.len() as int;
    let most = state::most_lines(s.files, n);
    lemma_most_is_some(s.files, n);
    assert forall|i: int, line: int|
        0 <= i < s.files.len() && (0 <= line < (#[trigger] s.files[i]).old_lines.len() || 0 <= line
            < s.files[i].new_lines.len()) implies (#[trigger] text::decimal(
        (line + 1) as nat,
    )).len() <= s.num_width by {
        frame_laws::lemma_most_lines(s.files, n, i);
        frame_laws::lemma_decimal_grows((line + 1) as nat, most as nat);
    }
    if s.num_width != 3 {
        if most < 1 {
            assert(text::decimal(1).len() == 1);
        }
    }
}

proof fn lemma_most_is_some(files: Seq<FileView>, n: int)
    requires
        0 <= n <= files.len(),
    ensures
        ({
            let most = state::most_lines(files, n);
            most == 0 || exists|i: int|
                0 <= i < n && ((#[trigger] files[i]).old_lines.len() == most
                    || files[i].new_lines.len() == most)
        }),
        state::most_lines(files, n) >= 0,
    decreases n,
{
    if n > 0 {
        lemma_most_is_some(files, n - 1);
        let most = state::most_lines(files, n);
        if most == state::most_lines(files, n - 1) {
            if most != 0 {
                let i = choose|i: int|
                    0 <= i < n - 1 && ((#[trigger] files[i]).old_lines.len() == most
                        || files[i].new_lines.len() == most);
                assert(0 <= i < n);
            }
        } else {
            assert(files[n - 1].old_lines.len() == most || files[n - 1].new_lines.len() == most);
        }
    }
}

/// The columns for code: what the gutter leaves of the view, or of one of two
/// equal halves beside a separator, and never less than ten.
pub proof fn law_columns_for_code(s: ViewerState, total: int)
    requires
        0 <= total,
        0 <= s.num_width,
    ensures
        ({
            let gutter = if s.split {
                s.num_width + 3
            } else {
                2 * s.num_width + 4
            };
            let room = s.text_width(total);
            let whole = gutter + room;
            &&& room >= 10
            &&& !s.split && total >= gutter + 10 ==> whole == total
            &&& !s.split && total < gutter + 10 ==> room == 10
            &&& s.split && total >= 2 * (gutter + 10) + 1 ==> 2 * whole + 1 <= total <= 2 * whole
                + 2
            &&& s.split && total < 2 * (gutter + 10) + 1 ==> room == 10
        }),
        2 * frame::pane(total) + 1 <= total || total == 0,
        total <= 2 * frame::pane(total) + 2,
{
}

/// The view scrolls sideways no further than it has to for the cursor to be in
/// view, and not at all if it is or is on no line.
pub proof fn law_scrolls_sideways_no_further(s: ViewerState, area: Rect, line: Seq<char>)
    requires
        s.wf(),
        !state::too_small(area),
        s.rows.len() > 0,
        key_laws::line_on(s, s.cursor) == Some(line),
        s.cursor_col <= line.len(),
    ensures
        ({
            let after = s.prepared(area);
            let width = s.text_width(area.width as int);
            let col = columns::columns(line, s.cursor_col);
            &&& s.h_scroll <= col < s.h_scroll + width ==> after.h_scroll == s.h_scroll
            &&& col < s.h_scroll ==> after.h_scroll == col
            &&& col >= s.h_scroll + width ==> after.h_scroll + width == col + 1
        }),
{
    key_laws::lemma_end_of_row(s);
}

/// On a row without code nothing scrolls sideways.
pub proof fn law_headers_do_not_scroll(s: ViewerState, area: Rect)
    requires
        s.wf(),
        s.rows.len() > 0,
        key_laws::line_on(s, s.cursor) is None,
    ensures
        s.prepared(area).h_scroll == s.h_scroll,
{
    key_laws::lemma_end_of_row(s);
}

/// The view is drawn where it has at least twenty columns and four rows.
pub proof fn law_smallest_view(area: Rect)
    ensures
        state::too_small(area) <==> area.width < 20 || area.height < 4,
{
}

/// A viewer that was just opened is at the top left of its rows, waits for
/// nothing and shows no help.
pub proof fn law_opened_viewer(
    files: Seq<FileView>,
    split: bool,
    ignore_whitespace: bool,
    rev: Option<Seq<char>>,
)
    ensures
        ({
            let s = ViewerState::opened(files, split, ignore_whitespace, rev);
            &&& s.files == files
            &&& s.rows == rows::all_rows(files, split)
            &&& s.cursor == 0 && s.cursor_col == 0 && s.scroll == 0 && s.h_scroll == 0
            &&& s.split == split
            &&& s.ignore_whitespace == ignore_whitespace
            &&& s.rev == rev
            &&& !s.show_help && s.pending is None
        }),
{
}

/// The help is as wide as 58 columns and as high as its eighteen entries with a
/// border, or as the view leaves it with a margin.
pub proof fn law_help_size(area: Rect)
    requires
        area.x + area.width <= u16::MAX,
        area.y + area.height <= u16::MAX,
    ensures
        ({
            let popup = frame::popup_area(area);
            &&& area.width >= 60 ==> popup.width == 58
            &&& 2 <= area.width < 60 ==> popup.width == area.width - 2
            &&& area.height >= 22 ==> popup.height == 20
            &&& 2 <= area.height < 22 ==> popup.height == area.height - 2
        }),
{
}

/// The entries of the help stand one below the other inside its border, the keys
/// one column from the left and what they do nineteen, as many as there is room
/// for.
pub proof fn law_help_lines(inner: Rect, i: int)
    requires
        inner.x + 19 <= u16::MAX,
        inner.y + inner.height <= u16::MAX,
        inner.width >= 20,
        0 <= i < inner.height,
        i < 18,
    ensures
        ({
            let lines = frame::help_layout(inner);
            &&& lines.len() == if inner.height < 18 {
                inner.height as int
            } else {
                18
            }
            &&& lines[i].y == inner.y + i
            &&& lines[i].keys_x == inner.x + 1
            &&& lines[i].keys_x + lines[i].keys_room == inner.x + inner.width
            &&& lines[i].desc_x == inner.x + 19
            &&& lines[i].desc_x + lines[i].desc_room + 1 == inner.x + inner.width
        }),
{
}

/// The help names the keys of every command.
pub proof fn law_help_entries(i: int)
    requires
        0 <= i < 18,
    ensures
        frame::help_table().len() == 18,
        frame::help_table()[i] == if i == 0 {
            ("j/k, ↑/↓"@, "move up/down"@)
        } else if i == 1 {
            ("h/l, w/b"@, "move within line (word-wise: w/b)"@)
        } else if i == 2 {
            ("gh/gl/gs"@, "line start / line end / first non-blank"@)
        } else if i == 3 {
            ("gg/ge, G"@, "first / last row"@)
        } else if i == 4 {
            ("C-d/C-u"@, "half page down/up"@)
        } else if i == 5 {
            ("n/p, ]c/[c"@, "next/previous hunk"@)
        } else if i == 6 {
            ("Tab/S-Tab, ]f/[f"@, "next/previous file"@)
        } else if i == 7 {
            ("Enter"@, "open file at line (headers: fold/expand)"@)
        } else if i == 8 {
            ("C-s/C-v"@, "open in horizontal/vertical split"@)
        } else if i == 9 {
            ("gd/gr/gy"@, "goto definition/references/type-def"@)
        } else if i == 10 {
            ("za"@, "fold/unfold current file"@)
        } else if i == 11 {
            ("zM/zR"@, "fold/unfold all files"@)
        } else if i == 12 {
            ("zz"@, "center cursor row"@)
        } else if i == 13 {
            ("+/="@, "expand hidden context (step / all)"@)
        } else if i == 14 {
            ("s"@, "toggle side-by-side view"@)
        } else if i == 15 {
            ("W"@, "toggle ignore whitespace"@)
        } else if i == 16 {
            ("r"@, "reload from disk"@)
        } else {
            ("q/Esc"@, "close"@)
        },
{
}

/// The thumb of the scrollbar moves in proportion to the first row in view.
pub proof fn law_thumb_moves(rows: int, height: int, scroll: int)
    requires
        0 < height < rows,
        0 <= scroll,
    ensures
        frame::thumb(rows, height, scroll) matches Some((top, len)) && top * (rows - height)
            <= scroll * (height - len) < (top + 1) * (rows - height),
{
    let q = (height * height) / rows;
    assert(0 <= q <= height) by (nonlinear_arith)
        requires
            0 < height < rows,
            q == (height * height) / rows,
    ;
    let len = if q < 1 {
        1
    } else {
        q
    };
    let rest = height - len;
    let m = rows - height;
    let a = scroll * rest;
    assert(0 <= a) by (nonlinear_arith)
        requires
            0 <= scroll,
            0 <= rest,
            a == scroll * rest,
    ;
    let top = a / m;
    assert(top * m <= a < (top + 1) * m) by (nonlinear_arith)
        requires
            0 < m,
            0 <= a,
            top == a / m,
    ;
    assert(frame::thumb(rows, height, scroll) == Some((top, len)));
}

/// There is no cell cursor on a row without code, nor where the column of the
/// cursor is left of the view.
pub proof fn law_no_cell_cursor(s: ViewerState, inner: Rect)
    requires
        s.wf(),
        s.rows.len() > 0,
        match key_laws::line_on(s, s.cursor) {
            None => true,
            Some(line) => s.cursor_col <= line.len() && columns::columns(line, s.cursor_col)
                < s.h_scroll,
        },
    ensures
        frame::cursor_cell(s, inner) is None,
{
    key_laws::lemma_end_of_row(s);
}

/// Where an area fits on the screen, its edges are as far as it is wide and high,
/// and the room from a column on is what is left up to the right edge.
pub proof fn law_edges(area: Rect, col: int)
    requires
        area.x + area.width <= u16::MAX,
        area.y + area.height <= u16::MAX,
    ensures
        area.right_edge() == area.x + area.width,
        area.bottom_edge() == area.y + area.height,
        area.x <= col <= area.x + area.width ==> col + frame::room(area.x, area.width, col) == area.x
            + area.width,
        col > area.x + area.width ==> frame::room(area.x, area.width, col) == 0,
{
}

} // verus!
