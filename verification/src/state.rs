//! The state of the diff viewer, and what each command makes of it.

use crate::align::NO_LINE;
use crate::columns;
use crate::file_diff::{FileView, MAX_LINE_LEN};
use crate::geometry::Rect;
use crate::input::{self, Command, Event, GotoKind, KeyEvent, MouseEvent, MouseKind, OpenAction};
use crate::path::PartView;
use crate::rows::{self, Row};
use crate::text;
use std::ops::Range;
use vstd::math;
use vstd::prelude::*;

verus! {

/// Lines revealed by a single "expand context" step.
pub const EXPAND_LINES: usize = 20;

/// Least width of the line-number gutter.
pub const MIN_GUTTER: usize = 3;

/// The state of the viewer.
#[verifier::ext_equal]
pub struct ViewerState {
    pub files: Seq<FileView>,
    pub rows: Seq<Row>,
    /// The row that the cursor is on.
    pub cursor: int,
    /// Char offset of the cursor within the current diff line.
    pub cursor_col: int,
    pub scroll: int,
    pub h_scroll: int,
    pub split: bool,
    pub ignore_whitespace: bool,
    /// Base revision that the diff is computed against, `HEAD` if none.
    pub rev: Option<Seq<char>>,
    pub show_help: bool,
    pub pending: Option<char>,
    pub num_width: int,
    /// The rows viewport of the last render.
    pub viewport: Rect,
}

/// What the viewer's surroundings are asked to do after an event.
pub enum Reaction {
    /// The event is not for the viewer.
    Ignored,
    Consumed,
    Close,
    /// Gather the diffs again, with these settings.
    Reload { split: bool, ignore_whitespace: bool, rev: Option<Seq<char>> },
    /// Close the viewer and open a file at a position.
    Open {
        path: Seq<PartView>,
        line: int,
        col: int,
        action: OpenAction,
        goto: Option<GotoKind>,
    },
    /// Tell that a deleted file cannot be opened.
    CannotOpenDeleted,
}

/// The area is too small to draw anything in it.
pub open spec fn too_small(area: Rect) -> bool {
    area.height < 4 || area.width < 20
}

/// The number nearest to `v` between `low` and `high`.
pub open spec fn clamp(v: int, low: int, high: int) -> int {
    math::max(low, math::min(v, high))
}

/// The most lines that a version of one of the first `n` files has.
pub open spec fn most_lines(files: Seq<FileView>, n: int) -> int
    decreases n,
{
    if n <= 0 {
        0
    } else {
        math::max(
            most_lines(files, n - 1),
            math::max(files[n - 1].old_lines.len() as int, files[n - 1].new_lines.len() as int),
        )
    }
}

/// The line-number gutter is as wide as the largest line number, and no
/// narrower than `MIN_GUTTER`.
pub open spec fn gutter_width(files: Seq<FileView>) -> int {
    math::max(
        MIN_GUTTER as int,
        text::decimal(math::max(1, most_lines(files, files.len() as int)) as nat).len() as int,
    )
}

/// A hunk that begins further up: by `EXPAND_LINES` or, with `all`, by the
/// entire gap above it.
pub open spec fn expanded_start(file: FileView, hunk: int, all: bool) -> int {
    if all {
        file.end_above(hunk)
    } else {
        math::max(file.hunks[hunk].start - EXPAND_LINES, file.end_above(hunk))
    }
}

/// Expanding the hunk upwards makes it meet the one above.
pub open spec fn meets_above(file: FileView, hunk: int, all: bool) -> bool {
    hunk > 0 && expanded_start(file, hunk, all) == file.end_above(hunk)
}

/// The file with hidden context above a hunk revealed; the hunk is merged with
/// the one above when they meet.
pub open spec fn expand_above(file: FileView, hunk: int, all: bool) -> FileView {
    let start = expanded_start(file, hunk, all) as usize;
    let end = file.hunks[hunk].end;
    FileView {
        hunks: if meets_above(file, hunk, all) {
            file.hunks.update(
                hunk - 1,
                (Range { start: file.hunks[hunk - 1].start, end }),
            ).remove(hunk)
        } else {
            file.hunks.update(hunk, (Range { start, end }))
        },
        ..file
    }
}

/// The file with hidden lines below its last hunk revealed.
pub open spec fn expand_tail(file: FileView, all: bool) -> FileView {
    if file.hunks.len() == 0 {
        file
    } else {
        let last = file.hunks.last();
        let end = if all {
            file.ops.len() as int
        } else {
            math::min(last.end + EXPAND_LINES, file.ops.len() as int)
        };
        FileView {
            hunks: file.hunks.update(
                file.hunks.len() - 1,
                (Range { start: last.start, end: end as usize }),
            ),
            ..file
        }
    }
}

/// The new line that the ops from `k` on come to first; the end of the file if
/// none of them is left in it.
pub open spec fn surviving_line(file: FileView, k: int) -> int
    decreases file.ops.len() - k,
{
    if k >= file.ops.len() {
        file.new_lines.len() as int
    } else if file.ops[k].new != NO_LINE {
        file.ops[k].new as int
    } else {
        surviving_line(file, k + 1)
    }
}

/// The text of an op's line: on the new side if it is there.
pub open spec fn op_text(file: FileView, op: int) -> Seq<char> {
    if file.ops[op].new != NO_LINE {
        file.new_lines[file.ops[op].new as int]
    } else {
        file.old_lines[file.ops[op].old as int]
    }
}

/// A letter, a digit or an underscore.
pub open spec fn is_word(c: char) -> bool {
    text::unicode_alphanumeric(c) || c == '_'
}

/// The first index from `k` on whose character is in a word, or is not; the
/// length if there is none.
pub open spec fn next_char(line: Seq<char>, k: int, in_word: bool) -> int
    decreases line.len() - k,
{
    if k >= line.len() {
        line.len() as int
    } else if is_word(line[k]) == in_word {
        k
    } else {
        next_char(line, k + 1, in_word)
    }
}

/// The last index up to `k` whose character is in a word; 0 if there is none.
pub open spec fn previous_word_char(line: Seq<char>, k: int) -> int
    decreases k,
{
    if k <= 0 {
        0
    } else if is_word(line[k]) {
        k
    } else {
        previous_word_char(line, k - 1)
    }
}

/// Where the run of word characters before `k` starts.
pub open spec fn word_start(line: Seq<char>, k: int) -> int
    decreases k,
{
    if k <= 0 {
        0
    } else if is_word(line[k - 1]) {
        word_start(line, k - 1)
    } else {
        k
    }
}

/// The start of the next word after `col`, or the last column.
pub open spec fn word_forward(line: Seq<char>, col: int) -> int {
    let from = if is_word(line[col]) {
        next_char(line, col, false)
    } else {
        col + 1
    };
    math::min(next_char(line, from, true), line.len() - 1)
}

/// The start of the word before `col`, or the first column.
pub open spec fn word_back(line: Seq<char>, col: int) -> int {
    word_start(line, previous_word_char(line, math::max(col - 1, 0)))
}

/// The first character that is no whitespace; 0 if there is none.
pub open spec fn first_non_blank(line: Seq<char>, k: int) -> int
    decreases line.len() - k,
{
    if k >= line.len() {
        0
    } else if !text::unicode_whitespace(line[k]) {
        k
    } else {
        first_non_blank(line, k + 1)
    }
}

/// The rows that the cursor jumps between.
#[derive(Debug, Clone, Copy, PartialEq, Eq, Structural)]
pub enum Stop {
    File,
    Hunk,
}

/// The row is a header of the given sort.
pub open spec fn is_stop(row: Row, stop: Stop) -> bool {
    match stop {
        Stop::File => row is FileHeader,
        Stop::Hunk => row is HunkHeader,
    }
}

/// The first header from row `k` on.
pub open spec fn stop_after(rows: Seq<Row>, k: int, stop: Stop) -> Option<int>
    decreases rows.len() - k,
{
    if k >= rows.len() {
        None
    } else if is_stop(rows[k], stop) {
        Some(k)
    } else {
        stop_after(rows, k + 1, stop)
    }
}

/// The last header up to row `k`.
pub open spec fn stop_before(rows: Seq<Row>, k: int, stop: Stop) -> Option<int>
    decreases k + 1,
{
    if k < 0 {
        None
    } else if is_stop(rows[k], stop) {
        Some(k)
    } else {
        stop_before(rows, k - 1, stop)
    }
}

impl ViewerState {
    /// The rows are those of the files, the cursor is on one of them if there
    /// is any, and the gutter fits the files.
    pub open spec fn wf(self) -> bool {
        &&& self.files.len() <= usize::MAX
        &&& forall|i: int| 0 <= i < self.files.len() ==> (#[trigger] self.files[i]).wf()
        &&& self.rows == rows::all_rows(self.files, self.split)
        &&& 0 <= self.cursor <= self.last_row()
        &&& 0 <= self.cursor_col <= MAX_LINE_LEN
        &&& 0 <= self.scroll
        &&& 0 <= self.h_scroll <= usize::MAX
        &&& self.num_width == gutter_width(self.files)
    }

    /// The last row; 0 if there is none.
    pub open spec fn last_row(self) -> int {
        math::max(self.rows.len() - 1, 0)
    }

    /// The state of a viewer that was just opened.
    pub open spec fn opened(
        files: Seq<FileView>,
        split: bool,
        ignore_whitespace: bool,
        rev: Option<Seq<char>>,
    ) -> ViewerState {
        ViewerState {
            files,
            rows: rows::all_rows(files, split),
            cursor: 0,
            cursor_col: 0,
            scroll: 0,
            h_scroll: 0,
            split,
            ignore_whitespace,
            rev,
            show_help: false,
            pending: None,
            num_width: gutter_width(files),
            viewport: (Rect { x: 0, y: 0, width: 0, height: 0 }),
        }
    }

    /// The rows made anew from the files, the cursor kept within them.
    pub open spec fn rebuilt(self) -> ViewerState {
        let new_rows = rows::all_rows(self.files, self.split);
        ViewerState {
            rows: new_rows,
            cursor: math::min(self.cursor, math::max(new_rows.len() - 1, 0)),
            ..self
        }
    }

    /// The cursor on the first row that equals `row`, if there is one.
    pub open spec fn on_row(self, row: Row) -> ViewerState {
        match self.rows.index_of_first(row) {
            Some(i) => ViewerState { cursor: i, ..self },
            None => self,
        }
    }

    /// All text files diffed anew.
    pub open spec fn recomputed(self) -> ViewerState {
        ViewerState {
            files: self.files.map_values(|f: FileView| f.recomputed(self.ignore_whitespace)),
            ..self
        }.rebuilt()
    }

    /// The row that the cursor is on.
    pub open spec fn current_row(self) -> Option<Row> {
        if 0 <= self.cursor < self.rows.len() {
            Some(self.rows[self.cursor])
        } else {
            None
        }
    }

    /// The cursor moved by so many rows, as far as there are rows.
    pub open spec fn moved(self, delta: int) -> ViewerState {
        if self.rows.len() == 0 {
            self
        } else {
            ViewerState { cursor: clamp(self.cursor + delta, 0, self.last_row()), ..self }
        }
    }

    /// The cursor on the next or previous header, if there is one.
    pub open spec fn jumped(self, forward: bool, stop: Stop) -> ViewerState {
        let found = if forward {
            stop_after(self.rows, self.cursor + 1, stop)
        } else {
            stop_before(self.rows, self.cursor - 1, stop)
        };
        match found {
            Some(k) => ViewerState { cursor: k, ..self },
            None => self,
        }
    }

    /// One file folded or unfolded, the cursor on its header.
    pub open spec fn toggled(self, file: int) -> ViewerState {
        ViewerState {
            files: self.files.update(
                file,
                FileView { collapsed: !self.files[file].collapsed, ..self.files[file] },
            ),
            ..self
        }.rebuilt().on_row(Row::FileHeader { file: file as usize })
    }

    /// All files folded or unfolded, the cursor on the header of its file.
    pub open spec fn folded(self, collapsed: bool) -> ViewerState {
        let state = ViewerState {
            files: self.files.map_values(|f: FileView| FileView { collapsed, ..f }),
            ..self
        }.rebuilt();
        match self.current_row() {
            Some(row) => state.on_row(Row::FileHeader { file: row.of_file() }),
            None => state,
        }
    }

    /// Hidden context above a hunk revealed, the cursor on the header of the
    /// hunk that shows it.
    pub open spec fn expanded_above(self, file: int, hunk: int, all: bool) -> ViewerState {
        let target = if meets_above(self.files[file], hunk, all) {
            hunk - 1
        } else {
            hunk
        };
        ViewerState {
            files: self.files.update(file, expand_above(self.files[file], hunk, all)),
            ..self
        }.rebuilt().on_row(Row::HunkHeader { file: file as usize, hunk: target as usize })
    }

    /// Hidden lines below the last hunk of a file revealed.
    pub open spec fn expanded_tail(self, file: int, all: bool) -> ViewerState {
        ViewerState {
            files: self.files.update(file, expand_tail(self.files[file], all)),
            ..self
        }.rebuilt()
    }

    /// What the row under the cursor hides revealed.
    pub open spec fn expanded(self, all: bool) -> ViewerState {
        match self.current_row() {
            Some(Row::HunkHeader { file, hunk }) => self.expanded_above(
                file as int,
                hunk as int,
                all,
            ),
            Some(Row::ExpandTail { file }) => self.expanded_tail(file as int, all),
            _ => self,
        }
    }

    /// The file and (optionally) the op that the cursor is on: the new side of
    /// a side-by-side row if it is there.
    pub open spec fn target(self) -> Option<(int, Option<int>)> {
        match self.current_row() {
            Some(Row::Line { file, op }) => Some((file as int, Some(op as int))),
            Some(Row::SplitLine { file, left, right }) => Some(
                (
                    file as int,
                    if right != NO_LINE {
                        Some(right as int)
                    } else if left != NO_LINE {
                        Some(left as int)
                    } else {
                        None
                    },
                ),
            ),
            Some(row) => Some((row.of_file() as int, None)),
            None => None,
        }
    }

    /// The line in the current file for a jump from an op: removed lines map
    /// to the next surviving line, those at the end to the end of the file.
    pub open spec fn jump_line(self, file: int, op: Option<int>) -> int {
        match op {
            Some(k) => surviving_line(self.files[file], k),
            None => 0,
        }
    }

    /// The text of the line under the cursor, if the cursor is on one.
    pub open spec fn cursor_line(self) -> Option<Seq<char>> {
        match self.target() {
            Some((file, Some(op))) => Some(op_text(self.files[file], op)),
            _ => None,
        }
    }

    /// The last column of the line under the cursor; 0 without one.
    pub open spec fn last_col(self) -> int {
        match self.cursor_line() {
            Some(line) => math::max(line.len() - 1, 0),
            None => 0,
        }
    }

    /// The cursor column kept within the line under the cursor.
    pub open spec fn clamped(self) -> ViewerState {
        ViewerState { cursor_col: math::min(self.cursor_col, self.last_col()), ..self }
    }

    /// The cursor moved by so many columns, as far as the line goes.
    pub open spec fn moved_col(self, delta: int) -> ViewerState {
        ViewerState { cursor_col: clamp(self.cursor_col + delta, 0, self.last_col()), ..self }
    }

    /// The cursor on the start of the next or previous word of its line.
    pub open spec fn moved_word(self, forward: bool) -> ViewerState {
        match self.cursor_line() {
            Some(line) => if line.len() == 0 {
                self
            } else {
                let col = math::min(self.cursor_col, line.len() - 1);
                ViewerState {
                    cursor_col: if forward {
                        word_forward(line, col)
                    } else {
                        word_back(line, col)
                    },
                    ..self
                }
            },
            None => self,
        }
    }

    /// The first column of the cursor's line that is not blank.
    pub open spec fn non_blank_col(self) -> int {
        match self.cursor_line() {
            Some(line) => first_non_blank(line, 0),
            None => 0,
        }
    }

    /// Half the height of the viewport, at least one row.
    pub open spec fn half_page(self) -> int {
        math::max(self.viewport.height as int / 2, 1)
    }

    /// Width available for code text, per pane in the side-by-side view.
    pub open spec fn text_width(self, total: int) -> int {
        if self.split {
            math::max(math::max(total - 1, 0) / 2 - (self.num_width + 3), 10)
        } else {
            math::max(total - (2 * self.num_width + 4), 10)
        }
    }

    /// The screen column of the cursor within its line.
    pub open spec fn cursor_vcol(self) -> Option<int> {
        match self.cursor_line() {
            Some(line) => Some(
                columns::columns(line, math::min(self.cursor_col, line.len() as int)),
            ),
            None => None,
        }
    }

    /// The first row shown in a viewport of some height: the cursor row is
    /// kept in view.
    pub open spec fn scroll_in_view(self, height: int) -> int {
        let scroll = if self.cursor < self.scroll {
            self.cursor
        } else if self.cursor >= self.scroll + height {
            self.cursor + 1 - height
        } else {
            self.scroll
        };
        math::min(scroll, self.last_row())
    }

    /// The first column shown in a text of some width: the cursor column is
    /// kept in view.
    pub open spec fn h_scroll_in_view(self, width: int) -> int {
        match self.cursor_vcol() {
            Some(vcol) => if vcol < self.h_scroll {
                vcol
            } else if vcol >= self.h_scroll + width {
                vcol + 1 - width
            } else {
                self.h_scroll
            },
            None => self.h_scroll,
        }
    }

    /// The state in which the viewer is drawn in an area of the screen: the
    /// first and the last row of the area are not for diff rows, and the
    /// cursor is kept in view.
    pub open spec fn prepared(self, area: Rect) -> ViewerState {
        let inner = area.without_first_row().without_last_row();
        ViewerState {
            viewport: inner,
            scroll: self.scroll_in_view(inner.height as int),
            h_scroll: self.h_scroll_in_view(self.text_width(inner.width as int)),
            ..self
        }
    }

    /// The state after a click on a screen row of the viewport.
    pub open spec fn clicked(self, row: u16) -> ViewerState {
        let idx = self.scroll + (row - self.viewport.y);
        if row < self.viewport.y || row >= self.viewport.y + self.viewport.height || idx
            >= self.rows.len() {
            self
        } else {
            let state = (ViewerState { cursor: idx, ..self }).clamped();
            match self.rows[idx] {
                Row::FileHeader { file } => state.toggled(file as int),
                Row::HunkHeader { file, hunk } => state.expanded(false),
                Row::ExpandTail { file } => state.expanded(false),
                _ => state,
            }
        }
    }

    /// The state after a mouse event. Scrolling drags the cursor along.
    pub open spec fn after_mouse(self, event: MouseEvent) -> ViewerState {
        match event.kind {
            MouseKind::ScrollUp => {
                let scroll = math::max(self.scroll - 3, 0);
                let bottom = scroll + math::max(self.viewport.height - 1, 0);
                ViewerState { scroll, cursor: math::min(self.cursor, bottom), ..self }.clamped()
            },
            MouseKind::ScrollDown => {
                let scroll = math::min(self.scroll + 3, self.last_row());
                ViewerState { scroll, cursor: math::max(self.cursor, scroll), ..self }.clamped()
            },
            MouseKind::LeftDown => self.clicked(event.row),
            MouseKind::Other => self,
        }
    }

    /// The state after a command.
    pub open spec fn after(self, command: Command) -> ViewerState {
        match command {
            Command::Help => ViewerState { show_help: true, ..self },
            Command::Down => self.moved(1).clamped(),
            Command::Up => self.moved(-1).clamped(),
            Command::Left => self.moved_col(-1),
            Command::Right => self.moved_col(1),
            Command::WordForward => self.moved_word(true),
            Command::WordBack => self.moved_word(false),
            Command::PageDown => self.moved(self.half_page()).clamped(),
            Command::PageUp => self.moved(-self.half_page()).clamped(),
            Command::FirstRow => (ViewerState { cursor: 0, ..self }).clamped(),
            Command::LastRow => (ViewerState { cursor: self.last_row(), ..self }).clamped(),
            Command::LineStart => ViewerState { cursor_col: 0, ..self },
            Command::LineEnd => ViewerState { cursor_col: self.last_col(), ..self },
            Command::FirstNonBlank => ViewerState { cursor_col: self.non_blank_col(), ..self },
            Command::Prefix(c) => ViewerState { pending: Some(c), ..self },
            Command::NextFile => self.jumped(true, Stop::File),
            Command::PreviousFile => self.jumped(false, Stop::File),
            Command::NextHunk => self.jumped(true, Stop::Hunk),
            Command::PreviousHunk => self.jumped(false, Stop::Hunk),
            Command::Expand => self.expanded(false),
            Command::ExpandAll => self.expanded(true),
            Command::ToggleSplit => (ViewerState { split: !self.split, ..self }).rebuilt(),
            Command::ToggleWhitespace => (ViewerState {
                ignore_whitespace: !self.ignore_whitespace,
                ..self
            }).recomputed(),
            Command::Activate => match self.current_row() {
                Some(Row::FileHeader { file }) => self.toggled(file as int),
                _ => self.expanded(false),
            },
            Command::ToggleFold => match self.current_row() {
                Some(row) => self.toggled(row.of_file() as int),
                None => self,
            },
            Command::FoldAll => self.folded(true),
            Command::UnfoldAll => self.folded(false),
            Command::Center => ViewerState {
                scroll: math::max(self.cursor - self.viewport.height as int / 2, 0),
                ..self
            },
            _ => self,
        }
    }

    /// The reaction to opening the file at the cursor.
    pub open spec fn opening(self, action: OpenAction, goto: Option<GotoKind>) -> Reaction {
        match self.target() {
            None => Reaction::Consumed,
            Some((file, op)) => if self.files[file].status is Deleted {
                Reaction::CannotOpenDeleted
            } else {
                Reaction::Open {
                    path: self.files[file].path,
                    line: self.jump_line(file, op),
                    col: self.cursor_col,
                    action,
                    goto,
                }
            },
        }
    }

    /// The reaction to a command.
    pub open spec fn reaction(self, command: Command) -> Reaction {
        match command {
            Command::Close => Reaction::Close,
            Command::Reload => Reaction::Reload {
                split: self.split,
                ignore_whitespace: self.ignore_whitespace,
                rev: self.rev,
            },
            Command::Open(action) => self.opening(action, None),
            Command::Goto(goto) => self.opening(OpenAction::Replace, Some(goto)),
            Command::Activate => match self.current_row() {
                Some(Row::FileHeader { file }) => Reaction::Consumed,
                Some(Row::HunkHeader { file, hunk }) => Reaction::Consumed,
                Some(Row::ExpandTail { file }) => Reaction::Consumed,
                Some(_) => self.opening(OpenAction::Replace, None),
                None => Reaction::Consumed,
            },
            _ => Reaction::Consumed,
        }
    }

    /// The command of a key in this state: while help is shown any key closes
    /// it, and a prefix key decides how the next key is read.
    pub open spec fn command(self, key: KeyEvent) -> Command {
        if self.show_help {
            Command::Nothing
        } else {
            match self.pending {
                Some(prefix) => input::prefixed_command(prefix, input::normalized(key)),
                None => input::key_command(input::normalized(key)),
            }
        }
    }

    /// The state in which the command of a key is carried out: help is closed,
    /// or the prefix key is used up.
    pub open spec fn key_taken(self) -> ViewerState {
        if self.show_help {
            ViewerState { show_help: false, ..self }
        } else {
            ViewerState { pending: None, ..self }
        }
    }

    /// The state after an event.
    pub open spec fn after_event(self, event: Event) -> ViewerState {
        match event {
            Event::Key(key) => self.key_taken().after(self.command(key)),
            Event::Mouse(mouse) => self.after_mouse(mouse),
            _ => self,
        }
    }

    /// The reaction to an event.
    pub open spec fn event_reaction(self, event: Event) -> Reaction {
        match event {
            Event::Key(key) => self.key_taken().reaction(self.command(key)),
            Event::Other => Reaction::Ignored,
            _ => Reaction::Consumed,
        }
    }
}

} // verus!
