//! The diff viewer: a list of file diffs with a cursor.

use crate::align::{self, NO_LINE};
use crate::align_laws;
use crate::columns;
use crate::diff_laws;
use crate::file_diff::{self, FileDiff, FileStatus, FileView, MAX_LINE_LEN};
use crate::geometry::Rect;
use crate::input::{self, Command, Event, GotoKind, MouseEvent, MouseKind, OpenAction};
use crate::path::FilePath;
use crate::rows::{self, Row};
use crate::state::{self, Reaction, Stop, ViewerState, EXPAND_LINES, MIN_GUTTER};
use crate::state_laws;
use crate::text;
use vstd::math;
use vstd::prelude::*;
use vstd::string::*;

verus! {

/// A full-screen view of every change in a workspace.
pub struct DiffViewer {
    files: Vec<FileDiff>,
    rows: Vec<Row>,
    cursor: usize,
    cursor_col: usize,
    scroll: usize,
    h_scroll: usize,
    split: bool,
    ignore_whitespace: bool,
    rev: Option<String>,
    show_help: bool,
    pending: Option<char>,
    num_width: usize,
    viewport: Rect,
}

impl View for DiffViewer {
    type V = ViewerState;

    closed spec fn view(&self) -> ViewerState {
        ViewerState {
            files: file_diff::file_views(self.files@),
            rows: self.rows@,
            cursor: self.cursor as int,
            cursor_col: self.cursor_col as int,
            scroll: self.scroll as int,
            h_scroll: self.h_scroll as int,
            split: self.split,
            ignore_whitespace: self.ignore_whitespace,
            rev: file_diff::opt_text(self.rev),
            show_help: self.show_help,
            pending: self.pending,
            num_width: self.num_width as int,
            viewport: self.viewport,
        }
    }
}

/// What the viewer's surroundings have to do after an event.
pub enum Outcome {
    /// The event is not for the viewer.
    Ignored,
    Consumed,
    Close,
    /// Gather the diffs again, with these settings.
    Reload { split: bool, ignore_whitespace: bool, rev: Option<String> },
    /// Close the viewer and open a file at a position.
    Open {
        path: FilePath,
        line: usize,
        col: usize,
        action: OpenAction,
        goto: Option<GotoKind>,
    },
    /// Tell that a deleted file cannot be opened.
    CannotOpenDeleted,
}

impl View for Outcome {
    type V = Reaction;

    open spec fn view(&self) -> Reaction {
        match *self {
            Outcome::Ignored => Reaction::Ignored,
            Outcome::Consumed => Reaction::Consumed,
            Outcome::Close => Reaction::Close,
            Outcome::Reload { split, ignore_whitespace, rev } => Reaction::Reload {
                split,
                ignore_whitespace,
                rev: file_diff::opt_text(rev),
            },
            Outcome::Open { path, line, col, action, goto } => Reaction::Open {
                path: path@,
                line: line as int,
                col: col as int,
                action,
                goto,
            },
            Outcome::CannotOpenDeleted => Reaction::CannotOpenDeleted,
        }
    }
}

/// The message for an attempt to open a deleted file.
pub fn deleted_file_message() -> (r: &'static str)
    ensures
        r@ == "cannot open a deleted file; expand the diff to view it"@,
{
    "cannot open a deleted file; expand the diff to view it"
}

/// The line-number gutter that the files need.
fn gutter_for(files: &Vec<FileDiff>) -> (width: usize)
    requires
        forall|i: int| 0 <= i < files@.len() ==> (#[trigger] files@[i])@.wf(),
    ensures
        width == state::gutter_width(file_diff::file_views(files@)),
{
    let ghost views = file_diff::file_views(files@);
    let mut max_line: usize = 0;
    let mut i: usize = 0;
    while i < files.len()
        invariant
            i <= files@.len(),
            views == file_diff::file_views(files@),
            max_line == state::most_lines(views, i as int),
        decreases files@.len() - i,
    {
        assert(views[i as int] == files@[i as int]@);
        let old: usize = files[i].old_lines.len();
        let new: usize = files[i].new_lines.len();
        if old > max_line {
            max_line = old;
        }
        if new > max_line {
            max_line = new;
        }
        i += 1;
    }
    if max_line < 1 {
        max_line = 1;
    }
    let digits = text::to_decimal(max_line as u128);
    let width: usize = digits.as_str().unicode_len();
    if width < MIN_GUTTER {
        MIN_GUTTER
    } else {
        width
    }
}

/// The first of the rows that equals `row`.
fn find_row(rows: &Vec<Row>, row: Row) -> (found: Option<usize>)
    ensures
        match found {
            Some(i) => rows@.index_of_first(row) == Some(i as int),
            None => rows@.index_of_first(row) is None,
        },
{
    let mut i: usize = 0;
    while i < rows.len()
        invariant
            i <= rows@.len(),
            forall|k: int| 0 <= k < i ==> rows@[k] != row,
        decreases rows@.len() - i,
    {
        if rows[i] == row {
            proof {
                rows@.index_of_first_ensures(row);
                assert(rows@.contains(row));
            }
            return Some(i);
        }
        i += 1;
    }
    proof {
        rows@.index_of_first_ensures(row);
    }
    None
}

/// Diffs the two versions of a text file anew.
fn rediff(file: &mut FileDiff, ignore_whitespace: bool)
    requires
        old(file)@.wf(),
    ensures
        final(file)@ == old(file)@.recomputed(ignore_whitespace),
        final(file)@.wf(),
        diff_laws::shows_diff(final(file)@, ignore_whitespace),
{
    proof {
        reveal(diff_laws::shows_diff);
    }
    if file.binary || !align::can_compute_ops(
        &file.old_lines,
        &file.new_lines,
        ignore_whitespace,
    ) {
        return;
    }
    let ghost before = file@;
    let (ops, hunks, additions, deletions) = align::compute_ops(
        &file.old_lines,
        &file.new_lines,
        ignore_whitespace,
    );
    proof {
        align_laws::law_hunks_show_changes_with_context(
            before.old_lines,
            before.new_lines,
            align::changes_between(before.old_lines, before.new_lines, ignore_whitespace),
        );
    }
    file.ops = ops;
    file.hunks = hunks;
    file.additions = additions;
    file.deletions = deletions;
    assert(file@ =~= before.rediffed(ignore_whitespace));
}

/// A copy of an optional string.
fn copy_rev(rev: &Option<String>) -> (r: Option<String>)
    ensures
        file_diff::opt_text(r) == file_diff::opt_text(*rev),
{
    match rev {
        Some(rev) => Some(rev.clone()),
        None => None,
    }
}

impl DiffViewer {
    /// The name under which the viewer is known.
    pub const ID: &'static str = "diff-viewer";

    pub fn id(&self) -> (r: Option<&'static str>)
        ensures
            r == Some(Self::ID),
    {
        Some(Self::ID)
    }

    pub fn new(
        files: Vec<FileDiff>,
        split: bool,
        ignore_whitespace: bool,
        rev: Option<String>,
    ) -> (viewer: Self)
        requires
            forall|i: int| 0 <= i < files@.len() ==> (#[trigger] files@[i])@.wf(),
        ensures
            viewer@ == ViewerState::opened(
                file_diff::file_views(files@),
                split,
                ignore_whitespace,
                file_diff::opt_text(rev),
            ),
            viewer@.wf(),
    {
        let num_width = gutter_for(&files);
        let rows = rows::build_rows(&files, split);
        let ghost views = file_diff::file_views(files@);
        proof {
            assert(files.len() == files@.len());
            assert forall|i: int| 0 <= i < views.len() implies (#[trigger] views[i]).wf() by {
                assert(views[i] == files@[i]@);
            }
        }
        DiffViewer {
            files,
            rows,
            cursor: 0,
            cursor_col: 0,
            scroll: 0,
            h_scroll: 0,
            split,
            ignore_whitespace,
            rev,
            show_help: false,
            pending: None,
            num_width,
            viewport: Rect::new(0, 0, 0, 0),
        }
    }

    pub fn files(&self) -> (r: &Vec<FileDiff>)
        ensures
            file_diff::file_views(r@) == self@.files,
    {
        &self.files
    }

    pub fn rows(&self) -> (r: &Vec<Row>)
        ensures
            r@ == self@.rows,
    {
        &self.rows
    }

    pub fn cursor(&self) -> (r: usize)
        ensures
            r == self@.cursor,
    {
        self.cursor
    }

    pub fn cursor_col(&self) -> (r: usize)
        ensures
            r == self@.cursor_col,
    {
        self.cursor_col
    }

    pub fn scroll(&self) -> (r: usize)
        ensures
            r == self@.scroll,
    {
        self.scroll
    }

    pub fn h_scroll(&self) -> (r: usize)
        ensures
            r == self@.h_scroll,
    {
        self.h_scroll
    }

    pub fn is_split(&self) -> (r: bool)
        ensures
            r == self@.split,
    {
        self.split
    }

    pub fn ignores_whitespace(&self) -> (r: bool)
        ensures
            r == self@.ignore_whitespace,
    {
        self.ignore_whitespace
    }

    pub fn rev(&self) -> (r: &Option<String>)
        ensures
            file_diff::opt_text(*r) == self@.rev,
    {
        &self.rev
    }

    pub fn shows_help(&self) -> (r: bool)
        ensures
            r == self@.show_help,
    {
        self.show_help
    }

    pub fn num_width(&self) -> (r: usize)
        ensures
            r == self@.num_width,
    {
        self.num_width
    }

    pub fn viewport(&self) -> (r: Rect)
        ensures
            r == self@.viewport,
    {
        self.viewport
    }

    /// Makes the rows anew from the files.
    fn rebuild_rows(&mut self)
        requires
            state_laws::wf_but_rows(old(self)@),
        ensures
            final(self)@ == old(self)@.rebuilt(),
            final(self)@.wf(),
    {
        proof {
            assert forall|i: int| 0 <= i < self.files@.len() implies (
            #[trigger] self.files@[i])@.wf() by {
                assert(self@.files[i].wf());
            }
            state_laws::lemma_rebuilt(self@);
        }
        self.rows = rows::build_rows(&self.files, self.split);
        let n = self.rows.len();
        let last: usize = if n == 0 {
            0
        } else {
            n - 1
        };
        if self.cursor > last {
            self.cursor = last;
        }
    }

    /// Puts the cursor on the first row that equals `row`, if there is one.
    fn go_to_row(&mut self, row: Row)
        requires
            old(self)@.wf(),
        ensures
            final(self)@ == old(self)@.on_row(row),
            final(self)@.wf(),
    {
        proof {
            state_laws::lemma_on_row(self@, row);
        }
        if let Some(i) = find_row(&self.rows, row) {
            self.cursor = i;
        }
    }

    /// Diffs all text files anew.
    pub fn recompute_diffs(&mut self)
        requires
            old(self)@.wf(),
        ensures
            final(self)@ == old(self)@.recomputed(),
            final(self)@.wf(),
            diff_laws::all_show_diffs(final(self)@.files, final(self)@.ignore_whitespace),
    {
        let ghost before = self@;
        let ignore = self.ignore_whitespace;
        let mut i: usize = 0;
        while i < self.files.len()
            invariant
                before.wf(),
                i <= self.files@.len(),
                self@ == (ViewerState { files: self@.files, ..before }),
                self.files@.len() == before.files.len(),
                ignore == before.ignore_whitespace,
                forall|k: int|
                    0 <= k < i ==> (#[trigger] self.files@[k])@ == before.files[k].recomputed(
                        ignore,
                    ) && self.files@[k]@.wf() && diff_laws::shows_diff(self.files@[k]@, ignore),
                forall|k: int|
                    i <= k < self.files@.len() ==> (#[trigger] self.files@[k])@ == before.files[k],
            decreases self.files@.len() - i,
        {
            assert(before.files[i as int].wf());
            rediff(&mut self.files[i], ignore);
            i += 1;
        }
        proof {
            let files = before.files.map_values(
                |f: FileView| f.recomputed(before.ignore_whitespace),
            );
            assert(self@.files =~= files);
            state_laws::lemma_same_gutter(before.files, files);
            assert forall|k: int| 0 <= k < files.len() implies (#[trigger] files[k]).wf() by {
                assert(self.files@[k]@.wf());
            }
        }
        self.rebuild_rows();
    }

    /// Starts or stops ignoring whitespace.
    fn toggle_whitespace(&mut self)
        requires
            old(self)@.wf(),
        ensures
            final(self)@ == old(self)@.after(Command::ToggleWhitespace),
            final(self)@.wf(),
            diff_laws::all_show_diffs(final(self)@.files, final(self)@.ignore_whitespace),
    {
        self.ignore_whitespace = !self.ignore_whitespace;
        self.recompute_diffs();
    }

    /// The row that the cursor is on.
    pub fn current_row(&self) -> (r: Option<Row>)
        ensures
            r == self@.current_row(),
    {
        if self.cursor < self.rows.len() {
            Some(self.rows[self.cursor])
        } else {
            None
        }
    }

    /// Moves the cursor by so many rows, as far as there are rows.
    pub fn move_cursor(&mut self, delta: isize)
        requires
            old(self)@.wf(),
        ensures
            final(self)@ == old(self)@.moved(delta as int),
            final(self)@.wf(),
    {
        let n = self.rows.len();
        if n == 0 {
            return;
        }
        let target: i128 = self.cursor as i128 + delta as i128;
        self.cursor = if target < 0 {
            0
        } else if target > (n - 1) as i128 {
            n - 1
        } else {
            target as usize
        };
    }

    /// Moves the cursor to the next or previous header of a sort.
    pub fn goto_row_matching(&mut self, forward: bool, stop: Stop)
        requires
            old(self)@.wf(),
        ensures
            final(self)@ == old(self)@.jumped(forward, stop),
            final(self)@.wf(),
    {
        if self.rows.len() == 0 {
            return;
        }
        let found = if forward {
            find_stop_after(&self.rows, self.cursor, stop)
        } else {
            find_stop_before(&self.rows, self.cursor, stop)
        };
        if let Some(k) = found {
            self.cursor = k;
        }
    }

    pub fn next_file(&mut self, forward: bool)
        requires
            old(self)@.wf(),
        ensures
            final(self)@ == old(self)@.jumped(forward, Stop::File),
            final(self)@.wf(),
    {
        self.goto_row_matching(forward, Stop::File);
    }

    pub fn next_hunk(&mut self, forward: bool)
        requires
            old(self)@.wf(),
        ensures
            final(self)@ == old(self)@.jumped(forward, Stop::Hunk),
            final(self)@.wf(),
    {
        self.goto_row_matching(forward, Stop::Hunk);
    }

    /// Folds or unfolds a file, and puts the cursor on its header.
    pub fn toggle_collapse(&mut self, file_idx: usize)
        requires
            old(self)@.wf(),
            file_idx < old(self)@.files.len(),
        ensures
            final(self)@ == old(self)@.toggled(file_idx as int),
            final(self)@.wf(),
    {
        let ghost before = self@;
        let collapsed = self.files[file_idx].collapsed;
        self.files[file_idx].collapsed = !collapsed;
        proof {
            let files = before.files.update(
                file_idx as int,
                FileView { collapsed: !collapsed, ..before.files[file_idx as int] },
            );
            assert(self@.files =~= files);
            state_laws::lemma_same_gutter(before.files, files);
        }
        self.rebuild_rows();
        self.go_to_row(Row::FileHeader { file: file_idx });
    }

    /// Folds or unfolds all files, and keeps the cursor on its file.
    pub fn set_all_collapsed(&mut self, collapsed: bool)
        requires
            old(self)@.wf(),
        ensures
            final(self)@ == old(self)@.folded(collapsed),
            final(self)@.wf(),
    {
        let ghost before = self@;
        let current = self.current_row();
        let mut i: usize = 0;
        while i < self.files.len()
            invariant
                i <= self.files@.len(),
                self@ == (ViewerState { files: self@.files, ..before }),
                self.files@.len() == before.files.len(),
                forall|k: int|
                    0 <= k < i ==> (#[trigger] self.files@[k])@ == (FileView {
                        collapsed,
                        ..before.files[k]
                    }),
                forall|k: int|
                    i <= k < self.files@.len() ==> (#[trigger] self.files@[k])@ == before.files[k],
            decreases self.files@.len() - i,
        {
            self.files[i].collapsed = collapsed;
            i += 1;
        }
        proof {
            let files = before.files.map_values(|f: FileView| FileView { collapsed, ..f });
            assert(self@.files =~= files);
            state_laws::lemma_same_gutter(before.files, files);
            assert forall|k: int| 0 <= k < files.len() implies (#[trigger] files[k]).wf() by {
                assert(before.files[k].wf());
            }
        }
        self.rebuild_rows();
        if let Some(row) = current {
            self.go_to_row(Row::FileHeader { file: row.file() });
        }
    }
}

/// A file and (optionally) one of its ops, as numbers.
pub open spec fn target_view(target: Option<(usize, Option<usize>)>) -> Option<(int, Option<int>)> {
    match target {
        Some((file, Some(op))) => Some((file as int, Some(op as int))),
        Some((file, None)) => Some((file as int, None)),
        None => None,
    }
}

/// Reveals hidden context above a hunk of a file. Tells which hunk shows it.
fn reveal_above(file: &mut FileDiff, hunk_idx: usize, all: bool) -> (target: usize)
    requires
        old(file)@.wf(),
        hunk_idx < old(file)@.hunks.len(),
    ensures
        final(file)@ == state::expand_above(old(file)@, hunk_idx as int, all),
        target == if state::meets_above(old(file)@, hunk_idx as int, all) {
            hunk_idx - 1
        } else {
            hunk_idx as int
        },
{
    let ghost before = file@;
    let prev_end: usize = if hunk_idx == 0 {
        0
    } else {
        assert(before.hunks[hunk_idx - 1].end < before.hunks[hunk_idx as int].start);
        file.hunks[hunk_idx - 1].end
    };
    let start: usize = file.hunks[hunk_idx].start;
    let end: usize = file.hunks[hunk_idx].end;
    assert(before.hunks[hunk_idx as int].start < before.hunks[hunk_idx as int].end);
    let stepped: usize = start.saturating_sub(EXPAND_LINES);
    let new_start: usize = if all || stepped < prev_end {
        prev_end
    } else {
        stepped
    };
    if hunk_idx > 0 && new_start <= prev_end {
        let above: usize = file.hunks[hunk_idx - 1].start;
        file.hunks.set(hunk_idx - 1, above..end);
        file.hunks.remove(hunk_idx);
        assert(file@ =~= state::expand_above(before, hunk_idx as int, all));
        hunk_idx - 1
    } else {
        file.hunks.set(hunk_idx, new_start..end);
        assert(file@ =~= state::expand_above(before, hunk_idx as int, all));
        hunk_idx
    }
}

/// Reveals hidden lines below the last hunk of a file.
fn reveal_tail(file: &mut FileDiff, all: bool)
    requires
        old(file)@.wf(),
    ensures
        final(file)@ == state::expand_tail(old(file)@, all),
{
    let ghost before = file@;
    let n = file.hunks.len();
    if n == 0 {
        return;
    }
    let len: usize = file.ops.len();
    let start: usize = file.hunks[n - 1].start;
    let end: usize = file.hunks[n - 1].end;
    assert(before.hunks[n - 1].end <= before.ops.len());
    let new_end: usize = if all || len - end < EXPAND_LINES {
        len
    } else {
        end + EXPAND_LINES
    };
    file.hunks.set(n - 1, start..new_end);
    assert(file@ =~= state::expand_tail(before, all));
}

impl DiffViewer {
    /// Reveals hidden context above the given hunk: `EXPAND_LINES` of it or,
    /// with `all`, the entire gap. The hunk is merged with the previous one
    /// when they meet.
    pub fn expand_above(&mut self, file_idx: usize, hunk_idx: usize, all: bool)
        requires
            old(self)@.wf(),
            file_idx < old(self)@.files.len(),
            hunk_idx < old(self)@.files[file_idx as int].hunks.len(),
        ensures
            final(self)@ == old(self)@.expanded_above(file_idx as int, hunk_idx as int, all),
            final(self)@.wf(),
    {
        let ghost before = self@;
        let target = reveal_above(&mut self.files[file_idx], hunk_idx, all);
        proof {
            let file = before.files[file_idx as int];
            let files = before.files.update(
                file_idx as int,
                state::expand_above(file, hunk_idx as int, all),
            );
            assert(self@.files =~= files);
            state_laws::law_expand_above_reveals(file, hunk_idx as int, all);
            state_laws::lemma_same_gutter(before.files, files);
        }
        self.rebuild_rows();
        self.go_to_row(Row::HunkHeader { file: file_idx, hunk: target });
    }

    /// Reveals hidden lines below the last hunk of a file.
    pub fn expand_tail(&mut self, file_idx: usize, all: bool)
        requires
            old(self)@.wf(),
            file_idx < old(self)@.files.len(),
        ensures
            final(self)@ == old(self)@.expanded_tail(file_idx as int, all),
            final(self)@.wf(),
    {
        let ghost before = self@;
        reveal_tail(&mut self.files[file_idx], all);
        proof {
            let file = before.files[file_idx as int];
            let files = before.files.update(file_idx as int, state::expand_tail(file, all));
            assert(self@.files =~= files);
            if file.hunks.len() > 0 {
                state_laws::law_expand_tail_reveals(file, all);
            }
            state_laws::lemma_same_gutter(before.files, files);
        }
        self.rebuild_rows();
    }

    /// Reveals what the row under the cursor hides.
    pub fn expand_at_cursor(&mut self, all: bool)
        requires
            old(self)@.wf(),
        ensures
            final(self)@ == old(self)@.expanded(all),
            final(self)@.wf(),
    {
        proof {
            state_laws::lemma_current_row(self@);
        }
        match self.current_row() {
            Some(Row::HunkHeader { file, hunk }) => self.expand_above(file, hunk, all),
            Some(Row::ExpandTail { file }) => self.expand_tail(file, all),
            _ => {},
        }
    }

    /// The file and (optionally) the op that the cursor is on.
    pub fn target_at_cursor(&self) -> (r: Option<(usize, Option<usize>)>)
        ensures
            target_view(r) == self@.target(),
    {
        match self.current_row() {
            Some(Row::Line { file, op }) => Some((file, Some(op))),
            Some(Row::SplitLine { file, left, right }) => {
                let op = if right != NO_LINE {
                    right
                } else {
                    left
                };
                if op != NO_LINE {
                    Some((file, Some(op)))
                } else {
                    Some((file, None))
                }
            },
            Some(row) => Some((row.file(), None)),
            None => None,
        }
    }

    /// The line and column in the current file for a jump from the cursor.
    /// Removed lines map to the position where the removal happened (the next
    /// surviving line).
    pub fn jump_position(&self, file_idx: usize, op_idx: Option<usize>) -> (r: (usize, usize))
        requires
            self@.wf(),
            file_idx < self@.files.len(),
            op_idx matches Some(k) ==> k <= self@.files[file_idx as int].ops.len(),
        ensures
            r.0 == self@.jump_line(
                file_idx as int,
                match op_idx {
                    Some(k) => Some(k as int),
                    None => None,
                },
            ),
            r.1 == self@.cursor_col,
    {
        let line: usize = match op_idx {
            Some(start) => find_surviving_line(&self.files[file_idx], start),
            None => 0,
        };
        (line, self.cursor_col)
    }

    /// The text of the line under the cursor, if the cursor is on one.
    pub fn line_under_cursor(&self) -> (r: Option<&str>)
        requires
            self@.wf(),
        ensures
            match r {
                Some(line) => self@.cursor_line() == Some(line@),
                None => self@.cursor_line() is None,
            },
    {
        proof {
            state_laws::lemma_target(self@);
        }
        match self.target_at_cursor() {
            Some((file_idx, Some(op_idx))) => {
                let file = &self.files[file_idx];
                proof {
                    let f = self@.files[file_idx as int];
                    assert(f == file@ && f.wf());
                    assert(align_laws::op_fits(
                        f.ops[op_idx as int],
                        f.old_lines.len(),
                        f.new_lines.len(),
                    ));
                }
                let op = &file.ops[op_idx];
                if op.new != NO_LINE {
                    Some(file.new_lines[op.new].as_str())
                } else {
                    Some(file.old_lines[op.old].as_str())
                }
            },
            _ => None,
        }
    }

    /// The last column of the line under the cursor.
    fn last_col(&self) -> (r: usize)
        requires
            self@.wf(),
        ensures
            r == self@.last_col(),
    {
        match self.line_under_cursor() {
            Some(line) => {
                let n: usize = line.unicode_len();
                if n == 0 {
                    0
                } else {
                    n - 1
                }
            },
            None => 0,
        }
    }

    /// Keeps the cursor column within the line under the cursor.
    pub fn clamp_cursor_col(&mut self)
        requires
            old(self)@.wf(),
        ensures
            final(self)@ == old(self)@.clamped(),
            final(self)@.wf(),
    {
        let max = self.last_col();
        if self.cursor_col > max {
            self.cursor_col = max;
        }
    }

    /// Moves the cursor by so many columns, as far as the line goes.
    pub fn move_col(&mut self, delta: isize)
        requires
            old(self)@.wf(),
        ensures
            final(self)@ == old(self)@.moved_col(delta as int),
            final(self)@.wf(),
    {
        let max = self.last_col();
        proof {
            state_laws::lemma_target(self@);
        }
        let target: i128 = self.cursor_col as i128 + delta as i128;
        self.cursor_col = if target < 0 {
            0
        } else if target > max as i128 {
            max
        } else {
            target as usize
        };
    }

    /// Moves the cursor to the start of the next or previous word of its line.
    pub fn move_word(&mut self, forward: bool)
        requires
            old(self)@.wf(),
        ensures
            final(self)@ == old(self)@.moved_word(forward),
            final(self)@.wf(),
    {
        proof {
            state_laws::lemma_target(self@);
        }
        let col = match self.line_under_cursor() {
            Some(line) => {
                let chars = chars_of(line);
                if chars.len() == 0 {
                    return;
                }
                let idx: usize = if self.cursor_col < chars.len() {
                    self.cursor_col
                } else {
                    chars.len() - 1
                };
                if forward {
                    find_word_forward(&chars, idx)
                } else {
                    find_word_back(&chars, idx)
                }
            },
            None => {
                return;
            },
        };
        self.cursor_col = col;
    }

    /// The first column of the cursor's line that is not blank.
    pub fn first_non_whitespace_col(&self) -> (r: usize)
        requires
            self@.wf(),
        ensures
            r == self@.non_blank_col(),
            r <= MAX_LINE_LEN,
    {
        proof {
            state_laws::lemma_target(self@);
        }
        match self.line_under_cursor() {
            Some(line) => {
                let chars = chars_of(line);
                find_non_blank(&chars)
            },
            None => 0,
        }
    }
}

/// The new line that the ops from `start` on come to first.
fn find_surviving_line(file: &FileDiff, start: usize) -> (line: usize)
    requires
        start <= file@.ops.len(),
    ensures
        line == state::surviving_line(file@, start as int),
{
    let mut k: usize = start;
    while k < file.ops.len()
        invariant
            k <= file@.ops.len(),
            state::surviving_line(file@, start as int) == state::surviving_line(file@, k as int),
        decreases file@.ops.len() - k,
    {
        if file.ops[k].new != NO_LINE {
            return file.ops[k].new;
        }
        k += 1;
    }
    file.new_lines.len()
}

/// The first character that is no whitespace.
fn find_non_blank(chars: &Vec<char>) -> (col: usize)
    ensures
        col == state::first_non_blank(chars@, 0),
        col <= chars@.len(),
{
    let mut k: usize = 0;
    while k < chars.len()
        invariant
            k <= chars@.len(),
            state::first_non_blank(chars@, 0) == state::first_non_blank(chars@, k as int),
        decreases chars@.len() - k,
    {
        if !chars[k].is_whitespace() {
            return k;
        }
        k += 1;
    }
    0
}

/// The characters of a text.
pub(crate) fn chars_of(line: &str) -> (chars: Vec<char>)
    ensures
        chars@ == line@,
{
    let mut chars: Vec<char> = Vec::new();
    for c in it: line.chars()
        invariant
            it.seq() == line@,
            chars@ == line@.take(it.index()),
    {
        chars.push(c);
        assert(chars@ =~= line@.take(it.index() + 1));
    }
    assert(line@.take(line@.len() as int) =~= line@);
    chars
}

/// A letter, a digit or an underscore.
fn in_word(c: char) -> (r: bool)
    ensures
        r == state::is_word(c),
{
    c.is_alphanumeric() || c == '_'
}

/// The start of the next word after `col`, or the last column.
fn find_word_forward(chars: &Vec<char>, col: usize) -> (r: usize)
    requires
        col < chars@.len(),
    ensures
        r == state::word_forward(chars@, col as int),
        r < chars@.len(),
{
    let n: usize = chars.len();
    let mut idx: usize = col;
    // The rest of the current word, then whitespace and punctuation.
    if in_word(chars[col]) {
        while idx < n && in_word(chars[idx])
            invariant
                n == chars@.len(),
                idx <= n,
                state::next_char(chars@, col as int, false) == state::next_char(
                    chars@,
                    idx as int,
                    false,
                ),
            decreases n - idx,
        {
            idx += 1;
        }
    } else {
        idx += 1;
    }
    let ghost from = idx as int;
    while idx < n && !in_word(chars[idx])
        invariant
            n == chars@.len(),
            idx <= n,
            state::next_char(chars@, from, true) == state::next_char(chars@, idx as int, true),
        decreases n - idx,
    {
        idx += 1;
    }
    if idx < n {
        idx
    } else {
        n - 1
    }
}

/// The start of the word before `col`, or the first column.
fn find_word_back(chars: &Vec<char>, col: usize) -> (r: usize)
    requires
        col < chars@.len(),
    ensures
        r == state::word_back(chars@, col as int),
        r < chars@.len(),
{
    let mut idx: usize = if col > 0 {
        col - 1
    } else {
        0
    };
    let ghost from = idx as int;
    while idx > 0 && !in_word(chars[idx])
        invariant
            idx < chars@.len(),
            state::previous_word_char(chars@, from) == state::previous_word_char(
                chars@,
                idx as int,
            ),
        decreases idx,
    {
        idx -= 1;
    }
    let ghost end = idx as int;
    while idx > 0 && in_word(chars[idx - 1])
        invariant
            idx < chars@.len(),
            state::word_start(chars@, end) == state::word_start(chars@, idx as int),
        decreases idx,
    {
        idx -= 1;
    }
    idx
}

/// Finds the first header after row `k`.
fn find_stop_after(rows: &Vec<Row>, k: usize, stop: Stop) -> (found: Option<usize>)
    requires
        k < rows@.len(),
    ensures
        match found {
            Some(i) => i < rows@.len() && state::stop_after(rows@, k + 1, stop) == Some(i as int),
            None => state::stop_after(rows@, k + 1, stop) is None,
        },
{
    let n = rows.len();
    let mut i: usize = k + 1;
    while i < n
        invariant
            n == rows@.len(),
            i <= rows@.len(),
            state::stop_after(rows@, k + 1, stop) == state::stop_after(rows@, i as int, stop),
        decreases rows@.len() - i,
    {
        if stops_at(rows[i], stop) {
            return Some(i);
        }
        i += 1;
    }
    None
}

/// Finds the last header before row `k`.
fn find_stop_before(rows: &Vec<Row>, k: usize, stop: Stop) -> (found: Option<usize>)
    requires
        k < rows@.len(),
    ensures
        match found {
            Some(i) => i < rows@.len() && state::stop_before(rows@, k - 1, stop) == Some(i as int),
            None => state::stop_before(rows@, k - 1, stop) is None,
        },
{
    let mut i: usize = k;
    while i > 0
        invariant
            i <= k < rows@.len(),
            state::stop_before(rows@, k - 1, stop) == state::stop_before(rows@, i - 1, stop),
        decreases i,
    {
        if stops_at(rows[i - 1], stop) {
            return Some(i - 1);
        }
        i -= 1;
    }
    None
}

/// The row is a header of the given sort.
fn stops_at(row: Row, stop: Stop) -> (r: bool)
    ensures
        r == state::is_stop(row, stop),
{
    match (row, stop) {
        (Row::FileHeader { file: _ }, Stop::File) => true,
        (Row::HunkHeader { file: _, hunk: _ }, Stop::Hunk) => true,
        _ => false,
    }
}

impl DiffViewer {
    /// Closes the viewer.
    pub fn close() -> (r: Outcome)
        ensures
            r@ == Reaction::Close,
    {
        Outcome::Close
    }

    /// Asks for the diffs to be gathered again, with the same settings.
    pub fn reload(&self) -> (r: Outcome)
        ensures
            r@ == self@.reaction(Command::Reload),
    {
        Outcome::Reload {
            split: self.split,
            ignore_whitespace: self.ignore_whitespace,
            rev: copy_rev(&self.rev),
        }
    }

    /// Opens the file under the cursor at the corresponding position, closing
    /// the viewer. With `goto`, goes on from the symbol at that position.
    pub fn open_at_cursor(&self, action: OpenAction, goto: Option<GotoKind>) -> (r: Outcome)
        requires
            self@.wf(),
        ensures
            r@ == self@.opening(action, goto),
    {
        proof {
            state_laws::lemma_target(self@);
        }
        match self.target_at_cursor() {
            Some((file_idx, op_idx)) => {
                let file = &self.files[file_idx];
                assert(file@ == self@.files[file_idx as int]);
                if file.status == FileStatus::Deleted {
                    return Outcome::CannotOpenDeleted;
                }
                let (line, col) = self.jump_position(file_idx, op_idx);
                Outcome::Open { path: file.abs_path.clone(), line, col, action, goto }
            },
            None => Outcome::Consumed,
        }
    }

    /// Reacts to a click on a screen row.
    fn click(&mut self, row: u16)
        requires
            old(self)@.wf(),
        ensures
            final(self)@ == old(self)@.clicked(row),
            final(self)@.wf(),
    {
        let viewport = self.viewport;
        if row < viewport.y || row as u32 >= viewport.y as u32 + viewport.height as u32 {
            return;
        }
        let offset: usize = (row - viewport.y) as usize;
        let n = self.rows.len();
        if self.scroll >= n || offset >= n - self.scroll {
            return;
        }
        let idx: usize = self.scroll + offset;
        self.cursor = idx;
        self.clamp_cursor_col();
        proof {
            state_laws::lemma_current_row(self@);
        }
        match self.rows[idx] {
            Row::FileHeader { file } => self.toggle_collapse(file),
            Row::HunkHeader { file: _, hunk: _ } => self.expand_at_cursor(false),
            Row::ExpandTail { file: _ } => self.expand_at_cursor(false),
            _ => {},
        }
    }

    /// Reacts to a mouse event.
    pub fn handle_mouse(&mut self, event: &MouseEvent) -> (r: Outcome)
        requires
            old(self)@.wf(),
        ensures
            final(self)@ == old(self)@.after_mouse(*event),
            final(self)@.wf(),
            r@ == Reaction::Consumed,
    {
        match event.kind {
            MouseKind::ScrollUp => {
                self.scroll = self.scroll.saturating_sub(3);
                let below: usize = self.viewport.height.saturating_sub(1) as usize;
                let bottom: usize = self.scroll.saturating_add(below);
                if self.cursor > bottom {
                    self.cursor = bottom;
                }
                self.clamp_cursor_col();
            },
            MouseKind::ScrollDown => {
                let max: usize = self.rows.len().saturating_sub(1);
                let further: usize = self.scroll.saturating_add(3);
                self.scroll = if further < max {
                    further
                } else {
                    max
                };
                if self.cursor < self.scroll {
                    self.cursor = self.scroll;
                }
                self.clamp_cursor_col();
            },
            MouseKind::LeftDown => self.click(event.row),
            MouseKind::Other => {},
        }
        Outcome::Consumed
    }

    /// Half the height of the viewport, at least one row.
    fn half_page(&self) -> (r: isize)
        ensures
            r == self@.half_page(),
            1 <= r <= u16::MAX,
    {
        let half: u16 = self.viewport.height / 2;
        if half < 1 {
            1
        } else {
            half as isize
        }
    }

    /// Carries out a command that moves the cursor.
    fn run_motion(&mut self, command: Command) -> (done: bool)
        requires
            old(self)@.wf(),
        ensures
            final(self)@.wf(),
            done == input::is_motion(command),
            done ==> final(self)@ == old(self)@.after(command) && old(self)@.reaction(
                command,
            ) is Consumed,
            !done ==> *final(self) == *old(self),
    {
        match command {
            Command::Down => {
                self.move_cursor(1);
                self.clamp_cursor_col();
            },
            Command::Up => {
                self.move_cursor(-1);
                self.clamp_cursor_col();
            },
            Command::Left => self.move_col(-1),
            Command::Right => self.move_col(1),
            Command::WordForward => self.move_word(true),
            Command::WordBack => self.move_word(false),
            Command::PageDown => {
                let page = self.half_page();
                self.move_cursor(page);
                self.clamp_cursor_col();
            },
            Command::PageUp => {
                let page = self.half_page();
                self.move_cursor(-page);
                self.clamp_cursor_col();
            },
            Command::FirstRow => {
                self.cursor = 0;
                self.clamp_cursor_col();
            },
            Command::LastRow => {
                self.cursor = self.rows.len().saturating_sub(1);
                self.clamp_cursor_col();
            },
            Command::LineStart => {
                self.cursor_col = 0;
            },
            Command::LineEnd => {
                self.cursor_col = self.last_col();
                proof {
                    state_laws::lemma_target(old(self)@);
                }
            },
            Command::FirstNonBlank => {
                self.cursor_col = self.first_non_whitespace_col();
            },
            Command::NextFile => self.next_file(true),
            Command::PreviousFile => self.next_file(false),
            Command::NextHunk => self.next_hunk(true),
            Command::PreviousHunk => self.next_hunk(false),
            Command::Center => {
                let half: usize = (self.viewport.height / 2) as usize;
                self.scroll = self.cursor.saturating_sub(half);
            },
            _ => {
                return false;
            },
        }
        true
    }

    /// Carries out a command.
    pub fn run(&mut self, command: Command) -> (r: Outcome)
        requires
            old(self)@.wf(),
        ensures
            final(self)@ == old(self)@.after(command),
            final(self)@.wf(),
            command is ToggleWhitespace ==> diff_laws::all_show_diffs(
                final(self)@.files,
                final(self)@.ignore_whitespace,
            ),
            r@ == old(self)@.reaction(command),
    {
        if self.run_motion(command) {
            return Outcome::Consumed;
        }
        proof {
            state_laws::lemma_current_row(self@);
        }
        match command {
            Command::Close => {
                return Self::close();
            },
            Command::Help => {
                self.show_help = true;
            },
            Command::Prefix(c) => {
                self.pending = Some(c);
            },
            Command::Expand => self.expand_at_cursor(false),
            Command::ExpandAll => self.expand_at_cursor(true),
            Command::ToggleSplit => {
                self.split = !self.split;
                self.rebuild_rows();
            },
            Command::ToggleWhitespace => {
                self.toggle_whitespace();
            },
            Command::Reload => {
                return self.reload();
            },
            Command::Activate => match self.current_row() {
                Some(Row::FileHeader { file }) => self.toggle_collapse(file),
                Some(Row::HunkHeader { file: _, hunk: _ }) => self.expand_at_cursor(false),
                Some(Row::ExpandTail { file: _ }) => self.expand_at_cursor(false),
                Some(_) => {
                    return self.open_at_cursor(OpenAction::Replace, None);
                },
                None => {},
            },
            Command::Open(action) => {
                return self.open_at_cursor(action, None);
            },
            Command::Goto(goto) => {
                return self.open_at_cursor(OpenAction::Replace, Some(goto));
            },
            Command::ToggleFold => {
                if let Some(row) = self.current_row() {
                    self.toggle_collapse(row.file());
                }
            },
            Command::FoldAll => self.set_all_collapsed(true),
            Command::UnfoldAll => self.set_all_collapsed(false),
            _ => {},
        }
        Outcome::Consumed
    }

    /// Reacts to an event.
    pub fn handle_event(&mut self, event: &Event) -> (r: Outcome)
        requires
            old(self)@.wf(),
        ensures
            final(self)@ == old(self)@.after_event(*event),
            final(self)@.wf(),
            final(self)@.ignore_whitespace != old(self)@.ignore_whitespace
                ==> diff_laws::all_show_diffs(
                final(self)@.files,
                final(self)@.ignore_whitespace,
            ),
            r@ == old(self)@.event_reaction(*event),
    {
        let key = match event {
            Event::Key(key) => input::normalize(*key),
            Event::Mouse(mouse) => {
                proof {
                    state_laws::lemma_mouse_keeps_whitespace(self@, *mouse);
                }
                return self.handle_mouse(mouse);
            },
            Event::Resize => {
                return Outcome::Consumed;
            },
            Event::Other => {
                return Outcome::Ignored;
            },
        };
        if self.show_help {
            self.show_help = false;
            return Outcome::Consumed;
        }
        let command = match self.pending {
            Some(prefix) => input::command_after_prefix(prefix, key),
            None => input::command_for_key(key),
        };
        self.pending = None;
        proof {
            if !(command is ToggleWhitespace) {
                state_laws::lemma_whitespace_kept(self@, command);
            }
        }
        self.run(command)
    }
}

impl DiffViewer {
    /// Width available for code text, per pane in the side-by-side view.
    pub fn text_width(&self, total: u16) -> (r: usize)
        requires
            self@.wf(),
        ensures
            r == self@.text_width(total as int),
            10 <= r,
    {
        proof {
            state_laws::lemma_gutter_bound(self@.files);
        }
        let total: usize = total as usize;
        let room: usize = if self.split {
            (total.saturating_sub(1) / 2).saturating_sub(self.num_width + 3)
        } else {
            total.saturating_sub(2 * self.num_width + 4)
        };
        if room < 10 {
            10
        } else {
            room
        }
    }

    /// Prepares to draw in an area of the screen, and keeps the cursor in
    /// view. Does nothing if the area is too small.
    pub fn prepare(&mut self, area: Rect) -> (drawn: bool)
        requires
            old(self)@.wf(),
        ensures
            drawn == !state::too_small(area),
            final(self)@ == if drawn {
                old(self)@.prepared(area)
            } else {
                old(self)@
            },
            final(self)@.wf(),
    {
        if area.height < 4 || area.width < 20 {
            return false;
        }
        let ghost before = self@;
        let inner = area.clip_first_row().clip_last_row();
        let height: usize = inner.height as usize;
        let text_width = self.text_width(inner.width);
        proof {
            state_laws::lemma_target(self@);
        }
        let vcol: Option<usize> = match self.line_under_cursor() {
            Some(line) => Some(columns::visual_col(line, self.cursor_col)),
            None => None,
        };
        self.viewport = inner;
        if self.cursor < self.scroll {
            self.scroll = self.cursor;
        } else if self.cursor - self.scroll >= height {
            self.scroll = self.cursor - (height - 1);
        }
        let last: usize = self.rows.len().saturating_sub(1);
        if self.scroll > last {
            self.scroll = last;
        }
        if let Some(vcol) = vcol {
            if vcol < self.h_scroll {
                self.h_scroll = vcol;
            } else if vcol - self.h_scroll >= text_width {
                self.h_scroll = vcol - (text_width - 1);
            }
        }
        assert(self@ =~= before.prepared(area));
        true
    }
}

/// The line of an opened file that a jump ends on: it may have fewer lines
/// than the diff knew.
pub fn landing_line(line: usize, line_count: usize) -> (r: usize)
    ensures
        r == math::min(line as int, math::max(line_count - 1, 0)),
{
    let last: usize = line_count.saturating_sub(1);
    if line < last {
        line
    } else {
        last
    }
}

/// The character of an opened file that a jump ends on, for a line that starts
/// at `line_start` and has `line_len` characters.
pub fn landing_char(line_start: usize, line_len: usize, col: usize) -> (r: usize)
    requires
        line_start + line_len <= usize::MAX,
    ensures
        r == line_start + math::min(col as int, math::max(line_len - 1, 0)),
{
    let last: usize = line_len.saturating_sub(1);
    if col < last {
        line_start + col
    } else {
        line_start + last
    }
}

} // verus!
