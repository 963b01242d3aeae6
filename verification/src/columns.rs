//! Screen columns of text, and the cells that a line of code is drawn in.

use crate::file_diff::MAX_LINE_LEN;
use crate::intraline;
use std::ops::Range;
use unicode_width::UnicodeWidthChar;
use vstd::math;
use vstd::prelude::*;
use vstd::utf8;

verus! {

/// Columns from one tab stop to the next.
pub const TAB_STOP: usize = 4;

pub open spec fn is_printable_ascii(c: char) -> bool {
    ' ' <= c && c <= '~'
}

/// A control character other than NUL.
pub open spec fn has_no_width(c: char) -> bool {
    '\u{1}' <= c && c <= '\u{1f}' || '\u{7f}' <= c && c <= '\u{9f}'
}

/// The number of columns that Unicode gives to a character outside an East
/// Asian context; none to most control characters.
pub uninterp spec fn unicode_width(c: char) -> Option<usize>;

/// `UnicodeWidthChar::width` gives the columns of a character: never more than
/// two, one for printable ASCII, no number for the control characters other
/// than NUL.
#[verifier::external_body]
fn display_width(c: char) -> (r: Option<usize>)
    ensures
        r == unicode_width(c),
        r matches Some(w) ==> w <= 2,
        is_printable_ascii(c) ==> r == Some(1usize),
        r is None <==> has_no_width(c),
{
    UnicodeWidthChar::width(c)
}

/// The columns that a character takes at column `col`: a tab goes to the next
/// tab stop, everything else takes at least one column.
pub open spec fn char_columns(c: char, col: int) -> int {
    if c == '\t' {
        TAB_STOP - col % (TAB_STOP as int)
    } else {
        match unicode_width(c) {
            Some(w) => math::max(w as int, 1),
            None => 1,
        }
    }
}

/// The columns that the first `n` characters of a line take.
pub open spec fn columns(line: Seq<char>, n: int) -> int
    decreases n,
{
    if n <= 0 {
        0
    } else {
        columns(line, n - 1) + char_columns(line[n - 1], columns(line, n - 1))
    }
}

/// The columns that a character takes at column `col`.
pub fn char_width(ch: char, col: usize) -> (w: usize)
    ensures
        w == char_columns(ch, col as int),
        1 <= w <= TAB_STOP,
        is_printable_ascii(ch) ==> w == 1,
{
    if ch == '\t' {
        TAB_STOP - col % TAB_STOP
    } else {
        match display_width(ch) {
            Some(w) => if w < 1 {
                1
            } else {
                w
            },
            None => 1,
        }
    }
}

/// The screen column at which a character of a line starts, or the column
/// after the line. In a line of printable ASCII it is the character's index.
pub fn visual_col(line: &str, char_idx: usize) -> (col: usize)
    requires
        line@.len() <= MAX_LINE_LEN,
    ensures
        col == columns(line@, math::min(char_idx as int, line@.len() as int)),
        col <= TAB_STOP * line@.len(),
        (forall|i: int| 0 <= i < line@.len() ==> is_printable_ascii(#[trigger] line@[i])) ==> col
            == math::min(char_idx as int, line@.len() as int),
{
    let mut col: usize = 0;
    let mut idx: usize = 0;
    for ch in it: line.chars()
        invariant
            it.seq() == line@,
            line@.len() <= MAX_LINE_LEN,
            idx == math::min(it.index(), char_idx as int),
            col == columns(line@, idx as int),
            col <= TAB_STOP * idx,
            (forall|i: int| 0 <= i < line@.len() ==> is_printable_ascii(#[trigger] line@[i])) ==> col
                == idx,
    {
        if idx < char_idx {
            assert(ch == line@[idx as int]);
            col += char_width(ch, col);
            idx += 1;
        }
    }
    col
}

/// Every character takes columns: the columns grow along the line.
pub proof fn law_columns_grow(line: Seq<char>, a: int, b: int)
    requires
        0 <= a < b <= line.len(),
    ensures
        0 <= columns(line, a) < columns(line, b),
    decreases b,
{
    lemma_columns_grow(line, a, b);
    lemma_columns_grow(line, 0, a);
}

proof fn lemma_columns_grow(line: Seq<char>, a: int, b: int)
    requires
        0 <= a <= b,
    ensures
        columns(line, a) + (b - a) <= columns(line, b),
        0 <= columns(line, b),
    decreases b,
{
    if a < b {
        lemma_columns_grow(line, a, b - 1);
        lemma_char_columns(line[b - 1], columns(line, b - 1));
    } else if b > 0 {
        lemma_columns_grow(line, 0, b - 1);
        lemma_char_columns(line[b - 1], columns(line, b - 1));
    }
}

proof fn lemma_char_columns(c: char, col: int)
    ensures
        1 <= char_columns(c, col),
{
    assert(0 <= col % (TAB_STOP as int) < TAB_STOP);
}

/// What is drawn at a place in a line: a character, or a blank for (part of) a
/// tab or of a character that is cut off at the left edge.
#[derive(Debug, Clone, Copy, PartialEq, Eq, Structural)]
pub struct Cell {
    /// Column, counted from the left edge.
    pub offset: usize,
    pub glyph: Option<char>,
    /// Columns left for it up to the right edge.
    pub room: usize,
    /// It belongs to the part of the line that changed.
    pub highlighted: bool,
}

/// The byte lies in the highlighted range.
pub open spec fn is_highlighted(hl: Option<Range<usize>>, byte: int) -> bool {
    match hl {
        Some(r) => r.start <= byte < r.end,
        None => false,
    }
}

/// The cells of a character that takes the columns from `start` to `end`, in a
/// window of `width` columns from column `skip` on.
pub open spec fn char_cells(
    c: char,
    start: int,
    end: int,
    highlighted: bool,
    width: int,
    skip: int,
) -> Seq<Cell> {
    if end <= skip || start >= skip + width {
        Seq::empty()
    } else if c == '\t' || start < skip {
        let from = math::max(start, skip);
        let to = math::min(end, skip + width);
        Seq::new(
            (to - from) as nat,
            |k: int|
                Cell { offset: (from + k - skip) as usize, glyph: None, room: 1, highlighted },
        )
    } else {
        seq![
            Cell {
                offset: (start - skip) as usize,
                glyph: Some(c),
                room: (skip + width - start) as usize,
                highlighted,
            },
        ]
    }
}

/// The cells of the first `n` characters of a line.
pub open spec fn line_cells(
    line: Seq<char>,
    n: int,
    hl: Option<Range<usize>>,
    width: int,
    skip: int,
) -> Seq<Cell>
    decreases n,
{
    if n <= 0 {
        Seq::empty()
    } else {
        line_cells(line, n - 1, hl, width, skip) + char_cells(
            line[n - 1],
            columns(line, n - 1),
            columns(line, n),
            is_highlighted(hl, intraline::byte_len(line.take(n - 1)) as int),
            width,
            skip,
        )
    }
}

/// The length of a character in UTF-8.
fn utf8_len(c: char) -> (n: usize)
    ensures
        n == utf8::encode_scalar(c as u32).len(),
        1 <= n <= 4,
{
    let scalar: u32 = c as u32;
    if scalar < 0x80 {
        1
    } else if scalar < 0x800 {
        2
    } else if scalar < 0x10000 {
        3
    } else {
        4
    }
}

/// Emits the cells of one character.
fn push_char_cells(
    cells: &mut Vec<Cell>,
    ch: char,
    start: usize,
    end: usize,
    highlighted: bool,
    width: usize,
    skip: usize,
)
    requires
        skip + width <= usize::MAX,
        start <= end,
    ensures
        final(cells)@ == old(cells)@ + char_cells(
            ch,
            start as int,
            end as int,
            highlighted,
            width as int,
            skip as int,
        ),
{
    let ghost before = cells@;
    let ghost own = char_cells(
        ch,
        start as int,
        end as int,
        highlighted,
        width as int,
        skip as int,
    );
    if end <= skip || start >= skip + width {
        assert(cells@ =~= before + own);
        return;
    }
    if ch == '\t' || start < skip {
        // Tabs are expanded; a wide character cut off at the left edge is
        // padded.
        let from: usize = if start < skip {
            skip
        } else {
            start
        };
        let to: usize = if end < skip + width {
            end
        } else {
            skip + width
        };
        let mut v: usize = from;
        assert(before + own.take(0) =~= before);
        while v < to
            invariant
                skip <= from <= v,
                own.len() == if from < to {
                    to - from
                } else {
                    0
                },
                v <= to || v == from,
                forall|k: int|
                    0 <= k < own.len() ==> #[trigger] own[k] == (Cell {
                        offset: (from + k - skip) as usize,
                        glyph: None,
                        room: 1,
                        highlighted,
                    }),
                cells@ == before + own.take(v - from),
            decreases to - v,
        {
            cells.push(Cell { offset: v - skip, glyph: None, room: 1, highlighted });
            assert(cells@ =~= before + own.take(v + 1 - from));
            v += 1;
        }
        assert(own.take(v - from) =~= own);
    } else {
        cells.push(
            Cell {
                offset: start - skip,
                glyph: Some(ch),
                room: skip + width - start,
                highlighted,
            },
        );
        assert(cells@ =~= before + own);
    }
}

/// Lays out one line of code in a window of `width` columns, horizontally
/// scrolled by `skip` columns, marking the `hl` byte range.
pub fn code_cells(line: &str, width: usize, hl: &Option<Range<usize>>, skip: usize) -> (cells: Vec<
    Cell,
>)
    requires
        line@.len() <= MAX_LINE_LEN,
        skip + width <= usize::MAX,
    ensures
        cells@ == line_cells(line@, line@.len() as int, *hl, width as int, skip as int),
{
    let mut cells: Vec<Cell> = Vec::new();
    let mut vcol: usize = 0;
    let mut byte: usize = 0;
    assert(line@.take(0) =~= Seq::empty());
    for ch in it: line.chars()
        invariant
            it.seq() == line@,
            line@.len() <= MAX_LINE_LEN,
            skip + width <= usize::MAX,
            vcol == columns(line@, it.index()),
            vcol <= TAB_STOP * it.index(),
            byte == intraline::byte_len(line@.take(it.index())),
            byte <= 4 * it.index(),
            cells@ == line_cells(line@, it.index(), *hl, width as int, skip as int),
    {
        let ghost i = it.index();
        proof {
            assert(ch == line@[i]);
            assert(line@.take(i + 1) =~= line@.take(i) + seq![ch]);
            intraline::lemma_encode_concat(line@.take(i), seq![ch]);
            intraline::lemma_char_bytes(ch);
        }
        let start = vcol;
        let end: usize = vcol + char_width(ch, vcol);
        vcol = end;
        let highlighted = match hl {
            Some(r) => r.start <= byte && byte < r.end,
            None => false,
        };
        byte += utf8_len(ch);
        push_char_cells(&mut cells, ch, start, end, highlighted, width, skip);
    }
    cells
}

/// The cells of a line lie within the window, from left to right, no two in
/// the same place.
pub proof fn law_cells_fit_the_window(
    line: Seq<char>,
    hl: Option<Range<usize>>,
    width: int,
    skip: int,
)
    requires
        0 <= width,
        0 <= skip,
        skip + width <= usize::MAX,
    ensures
        ({
            let cells = line_cells(line, line.len() as int, hl, width, skip);
            &&& forall|k: int|
                0 <= k < cells.len() ==> (#[trigger] cells[k]).offset + cells[k].room <= width
                    && cells[k].room >= 1
            &&& forall|j: int, k: int|
                0 <= j < k < cells.len() ==> (#[trigger] cells[j]).offset < (
                #[trigger] cells[k]).offset
        }),
{
    lemma_cells_fit(line, line.len() as int, hl, width, skip);
}

proof fn lemma_cells_fit(
    line: Seq<char>,
    n: int,
    hl: Option<Range<usize>>,
    width: int,
    skip: int,
)
    requires
        0 <= width,
        0 <= skip,
        skip + width <= usize::MAX,
        0 <= n <= line.len(),
    ensures
        ({
            let cells = line_cells(line, n, hl, width, skip);
            &&& forall|k: int|
                0 <= k < cells.len() ==> (#[trigger] cells[k]).offset + cells[k].room <= width
                    && cells[k].room >= 1 && cells[k].offset + skip < columns(line, n)
            &&& forall|j: int, k: int|
                0 <= j < k < cells.len() ==> (#[trigger] cells[j]).offset < (
                #[trigger] cells[k]).offset
        }),
    decreases n,
{
    if n > 0 {
        lemma_cells_fit(line, n - 1, hl, width, skip);
        lemma_columns_grow(line, n - 1, n);
        lemma_columns_grow(line, 0, n - 1);
        let start = columns(line, n - 1);
        let end = columns(line, n);
        let own = char_cells(
            line[n - 1],
            start,
            end,
            is_highlighted(hl, intraline::byte_len(line.take(n - 1)) as int),
            width,
            skip,
        );
        assert forall|k: int| 0 <= k < own.len() implies (#[trigger] own[k]).offset + own[k].room
            <= width && own[k].room >= 1 && start <= own[k].offset + skip < end by {}
        assert forall|j: int, k: int| 0 <= j < k < own.len() implies (#[trigger] own[j]).offset < (
        #[trigger] own[k]).offset by {}
    }
}

/// A character that starts within the window is drawn in the cell of its
/// column: as itself, or as a blank where it is a tab.
pub proof fn law_character_is_drawn_at_its_column(
    line: Seq<char>,
    hl: Option<Range<usize>>,
    width: int,
    skip: int,
    j: int,
) -> (k: int)
    requires
        0 <= j < line.len(),
        0 <= skip <= columns(line, j) < skip + width,
        width <= usize::MAX,
    ensures
        0 <= k < line_cells(line, line.len() as int, hl, width, skip).len(),
        ({
            let cell = line_cells(line, line.len() as int, hl, width, skip)[k];
            &&& cell.offset == columns(line, j) - skip
            &&& cell.glyph == if line[j] == '\t' {
                None
            } else {
                Some(line[j])
            }
        }),
{
    lemma_character_cell(line, line.len() as int, hl, width, skip, j)
}

proof fn lemma_character_cell(
    line: Seq<char>,
    n: int,
    hl: Option<Range<usize>>,
    width: int,
    skip: int,
    j: int,
) -> (k: int)
    requires
        0 <= j < n <= line.len(),
        0 <= skip <= columns(line, j) < skip + width,
        width <= usize::MAX,
    ensures
        0 <= k < line_cells(line, n, hl, width, skip).len(),
        ({
            let cell = line_cells(line, n, hl, width, skip)[k];
            &&& cell.offset == columns(line, j) - skip
            &&& cell.glyph == if line[j] == '\t' {
                None
            } else {
                Some(line[j])
            }
        }),
    decreases n,
{
    let before = line_cells(line, n - 1, hl, width, skip);
    if j < n - 1 {
        lemma_character_cell(line, n - 1, hl, width, skip, j)
    } else {
        lemma_char_columns(line[j], columns(line, j));
        before.len() as int
    }
}

/// How the columns go on along a line: they start at 0, each character adds
/// those that it takes where it stands, and after a tab they are at a tab stop.
pub proof fn law_columns_step(line: Seq<char>, k: int)
    requires
        0 <= k < line.len(),
    ensures
        columns(line, 0) == 0,
        columns(line, k + 1) == columns(line, k) + char_columns(line[k], columns(line, k)),
        columns(line, k) < columns(line, k + 1),
        line[k] == '\t' ==> columns(line, k + 1) % (TAB_STOP as int) == 0,
{
    lemma_columns_grow(line, 0, k);
    lemma_char_columns(line[k], columns(line, k));
    let col = columns(line, k);
    if line[k] == '\t' {
        assert(columns(line, k + 1) == TAB_STOP * (col / (TAB_STOP as int) + 1));
    }
}

} // verus!
