//! What holds of the diff viewer in every state.

use crate::align::{self, Op, MAX_LINES, NO_LINE};
use crate::align_laws;
use crate::file_diff::{FileView, MAX_LINE_LEN};
use crate::input::{self, Command, Event, KeyEvent, MouseEvent};
use crate::rows::{self, Row};
use crate::geometry::Rect;
use crate::state::{self, Reaction, Stop, ViewerState, EXPAND_LINES, MIN_GUTTER};
use crate::text;
use std::ops::Range;
use vstd::math;
use vstd::prelude::*;

verus! {

/// Expanding a hunk upwards keeps the hunks ordered and within the ops, hides
/// nothing that was shown, and shows no op outside the gap above the hunk.
pub proof fn law_expand_above_reveals(file: FileView, hunk: int, all: bool)
    requires
        file.wf(),
        0 <= hunk < file.hunks.len(),
    ensures
        ({
            let after = state::expand_above(file, hunk, all);
            &&& after.wf()
            &&& forall|k: int| #[trigger]
                align_laws::displayed(after.hunks, k) <==> align_laws::displayed(file.hunks, k)
                    || state::expanded_start(file, hunk, all) <= k < file.hunks[hunk].start
        }),
{
    let after = state::expand_above(file, hunk, all);
    let prev = file.end_above(hunk);
    let start = state::expanded_start(file, hunk, all);
    assert(file.hunks[hunk].start < file.hunks[hunk].end <= file.ops.len());
    if hunk > 0 {
        assert(file.hunks[hunk - 1].end < file.hunks[hunk].start);
        assert(file.hunks[hunk - 1].start < file.hunks[hunk - 1].end);
    }
    assert(prev <= start <= file.hunks[hunk].start);
    if state::meets_above(file, hunk, all) {
        // The hunks before the merged one, the merged one, and those after it.
        assert forall|i: int| 0 <= i < after.hunks.len() implies #[trigger] after.hunks[i] == (if i
            < hunk - 1 {
            file.hunks[i]
        } else if i == hunk - 1 {
            (Range { start: file.hunks[hunk - 1].start, end: file.hunks[hunk].end })
        } else {
            file.hunks[i + 1]
        }) by {}
        assert forall|k: int| #[trigger]
            align_laws::displayed(after.hunks, k) <==> align_laws::displayed(file.hunks, k)
                || start <= k < file.hunks[hunk].start by {
            if align_laws::displayed(after.hunks, k) {
                let i = choose|i: int|
                    0 <= i < after.hunks.len() && (#[trigger] after.hunks[i]).start <= k
                        < after.hunks[i].end;
                let j = if i < hunk - 1 {
                    i
                } else if i == hunk - 1 {
                    if k < file.hunks[hunk - 1].end {
                        i
                    } else {
                        hunk
                    }
                } else {
                    i + 1
                };
                assert(file.hunks[j].start <= k < file.hunks[j].end || start <= k
                    < file.hunks[hunk].start);
            }
            if align_laws::displayed(file.hunks, k) || start <= k < file.hunks[hunk].start {
                let i = if align_laws::displayed(file.hunks, k) {
                    choose|i: int|
                        0 <= i < file.hunks.len() && (#[trigger] file.hunks[i]).start <= k
                            < file.hunks[i].end
                } else {
                    hunk
                };
                let j = if i < hunk {
                    i
                } else {
                    i - 1
                };
                assert(after.hunks[j].start <= k < after.hunks[j].end);
            }
        }
    } else {
        assert forall|k: int| #[trigger]
            align_laws::displayed(after.hunks, k) <==> align_laws::displayed(file.hunks, k)
                || start <= k < file.hunks[hunk].start by {
            if align_laws::displayed(after.hunks, k) {
                let i = choose|i: int|
                    0 <= i < after.hunks.len() && (#[trigger] after.hunks[i]).start <= k
                        < after.hunks[i].end;
                assert(file.hunks[i].start <= k < file.hunks[i].end || start <= k
                    < file.hunks[hunk].start);
            }
            if align_laws::displayed(file.hunks, k) || start <= k < file.hunks[hunk].start {
                let i = if align_laws::displayed(file.hunks, k) {
                    choose|i: int|
                        0 <= i < file.hunks.len() && (#[trigger] file.hunks[i]).start <= k
                            < file.hunks[i].end
                } else {
                    hunk
                };
                assert(after.hunks[i].start <= k < after.hunks[i].end);
            }
        }
    }
}

/// One step up reveals `EXPAND_LINES` of the hidden lines above a hunk or all
/// that are left; asking for all leaves none hidden.
pub proof fn law_expand_above_shrinks_gap(file: FileView, hunk: int, all: bool)
    requires
        file.wf(),
        0 <= hunk < file.hunks.len(),
    ensures
        ({
            let left = if all {
                0
            } else {
                math::max(file.gap_above(hunk) - EXPAND_LINES, 0)
            };
            let after = state::expand_above(file, hunk, all);
            if left == 0 && hunk > 0 {
                &&& after.hunks.len() == file.hunks.len() - 1
                &&& after.hunks[hunk - 1] == (Range {
                    start: file.hunks[hunk - 1].start,
                    end: file.hunks[hunk].end,
                })
            } else {
                &&& after.hunks.len() == file.hunks.len()
                &&& after.gap_above(hunk) == left
            }
        }),
{
    assert(file.hunks[hunk].start < file.hunks[hunk].end);
    if hunk > 0 {
        assert(file.hunks[hunk - 1].end < file.hunks[hunk].start);
    }
}

/// Expanding the tail keeps the hunks ordered, hides nothing that was shown,
/// and leaves `EXPAND_LINES` fewer lines hidden below the last hunk, or none.
pub proof fn law_expand_tail_reveals(file: FileView, all: bool)
    requires
        file.wf(),
        file.hunks.len() > 0,
    ensures
        ({
            let after = state::expand_tail(file, all);
            &&& after.wf()
            &&& after.gap_below() == if all {
                0
            } else {
                math::max(file.gap_below() - EXPAND_LINES, 0)
            }
            &&& forall|k: int| #[trigger]
                align_laws::displayed(after.hunks, k) <==> align_laws::displayed(file.hunks, k)
                    || file.hunks.last().end <= k < after.hunks.last().end
        }),
{
    let after = state::expand_tail(file, all);
    let last = file.hunks.len() - 1;
    assert(file.hunks[last].start < file.hunks[last].end <= file.ops.len());
    assert forall|k: int| #[trigger] align_laws::displayed(after.hunks, k) implies
        align_laws::displayed(file.hunks, k) || file.hunks.last().end <= k
        < after.hunks.last().end by {
        let i = choose|i: int|
            0 <= i < after.hunks.len() && (#[trigger] after.hunks[i]).start <= k
                < after.hunks[i].end;
        assert(file.hunks[i].start <= k < file.hunks[i].end || file.hunks.last().end <= k);
    }
    assert forall|k: int| #[trigger] align_laws::displayed(file.hunks, k) || file.hunks.last().end
        <= k < after.hunks.last().end implies align_laws::displayed(after.hunks, k) by {
        let i = if align_laws::displayed(file.hunks, k) {
            choose|i: int|
                0 <= i < file.hunks.len() && (#[trigger] file.hunks[i]).start <= k
                    < file.hunks[i].end
        } else {
            last
        };
        assert(after.hunks[i].start <= k < after.hunks[i].end);
    }
}

/// The gutter depends on the line counts alone.
pub proof fn lemma_same_gutter(a: Seq<FileView>, b: Seq<FileView>)
    requires
        a.len() == b.len(),
        forall|i: int|
            0 <= i < a.len() ==> (#[trigger] a[i]).old_lines.len() == b[i].old_lines.len()
                && a[i].new_lines.len() == b[i].new_lines.len(),
    ensures
        state::gutter_width(a) == state::gutter_width(b),
{
    lemma_same_most_lines(a, b, a.len() as int);
}

proof fn lemma_same_most_lines(a: Seq<FileView>, b: Seq<FileView>, n: int)
    requires
        a.len() == b.len(),
        n <= a.len(),
        forall|i: int|
            0 <= i < a.len() ==> (#[trigger] a[i]).old_lines.len() == b[i].old_lines.len()
                && a[i].new_lines.len() == b[i].new_lines.len(),
    ensures
        state::most_lines(a, n) == state::most_lines(b, n),
    decreases n,
{
    if n > 0 {
        lemma_same_most_lines(a, b, n - 1);
        assert(a[n - 1].old_lines.len() == b[n - 1].old_lines.len());
    }
}

/// Everything but the rows and the upper bound of the cursor is in order.
pub open spec fn wf_but_rows(s: ViewerState) -> bool {
    &&& s.files.len() <= usize::MAX
    &&& forall|i: int| 0 <= i < s.files.len() ==> (#[trigger] s.files[i]).wf()
    &&& 0 <= s.cursor
    &&& 0 <= s.cursor_col <= MAX_LINE_LEN
    &&& 0 <= s.scroll
    &&& 0 <= s.h_scroll <= usize::MAX
    &&& s.num_width == state::gutter_width(s.files)
}

pub proof fn lemma_rebuilt(s: ViewerState)
    requires
        wf_but_rows(s),
    ensures
        s.rebuilt().wf(),
{
}

/// The cursor is put on an existing row, the first one that is wanted.
pub proof fn lemma_on_row(s: ViewerState, row: Row)
    requires
        s.wf(),
    ensures
        s.on_row(row).wf(),
        s.rows.contains(row) ==> s.on_row(row).current_row() == Some(row),
        s.on_row(row).files == s.files,
        s.on_row(row).rows == s.rows,
{
    s.rows.index_of_first_ensures(row);
}

/// The row under the cursor refers to what exists.
pub proof fn lemma_current_row(s: ViewerState)
    requires
        s.wf(),
    ensures
        s.current_row() matches Some(row) ==> rows::row_fits(row, s.files),
        s.current_row() is None <==> s.rows.len() == 0,
{
    rows::law_rows_fit(s.files, s.split);
}

/// The target of the cursor exists, and its line is not too long.
pub proof fn lemma_target(s: ViewerState)
    requires
        s.wf(),
    ensures
        s.target() is None <==> s.rows.len() == 0,
        s.target() matches Some((file, op)) ==> {
            &&& 0 <= file < s.files.len()
            &&& op matches Some(k) ==> 0 <= k < s.files[file].ops.len()
        },
        s.cursor_line() matches Some(line) ==> line.len() <= MAX_LINE_LEN,
        0 <= s.last_col() <= MAX_LINE_LEN,
{
    lemma_current_row(s);
    if let Some((file, Some(k))) = s.target() {
        let f = s.files[file];
        assert(f.wf());
        assert(align_laws::op_fits(f.ops[k], f.old_lines.len(), f.new_lines.len()));
    }
}

/// Folding or unfolding a file leaves the cursor on its header, and doing it
/// twice restores the files and the rows.
pub proof fn law_toggle_twice_restores(s: ViewerState, file: int)
    requires
        s.wf(),
        0 <= file < s.files.len(),
    ensures
        ({
            let once = s.toggled(file);
            let twice = once.toggled(file);
            &&& once.files[file].collapsed == !s.files[file].collapsed
            &&& once.current_row() == Some(Row::FileHeader { file: file as usize })
            &&& twice.files == s.files
            &&& twice.rows == s.rows
            &&& twice.current_row() == Some(Row::FileHeader { file: file as usize })
        }),
{
    let header = Row::FileHeader { file: file as usize };
    let once = s.toggled(file);
    let flipped = ViewerState {
        files: s.files.update(
            file,
            FileView { collapsed: !s.files[file].collapsed, ..s.files[file] },
        ),
        ..s
    };
    lemma_same_gutter(s.files, flipped.files);
    lemma_rebuilt(flipped);
    lemma_on_row(flipped.rebuilt(), header);
    rows::law_file_header_is_shown(flipped.files, s.split, file as usize);
    let back = ViewerState {
        files: once.files.update(
            file,
            FileView { collapsed: !once.files[file].collapsed, ..once.files[file] },
        ),
        ..once
    };
    assert(back.files =~= s.files);
    lemma_rebuilt(back);
    lemma_on_row(back.rebuilt(), header);
    rows::law_file_header_is_shown(back.files, s.split, file as usize);
}

/// With all files folded, the rows are the file headers, and the cursor is on
/// the header of the file it was in; unfolding leaves it there too.
pub proof fn law_fold_all_shows_headers(s: ViewerState, collapsed: bool)
    requires
        s.wf(),
    ensures
        ({
            let after = s.folded(collapsed);
            &&& collapsed ==> after.rows == Seq::new(
                s.files.len(),
                |i: int| Row::FileHeader { file: i as usize },
            )
            &&& s.current_row() matches Some(row) ==> after.current_row() == Some(
                Row::FileHeader { file: row.of_file() },
            )
        }),
{
    let files = s.files.map_values(|f: FileView| FileView { collapsed, ..f });
    let changed = ViewerState { files, ..s };
    lemma_same_gutter(s.files, files);
    assert forall|i: int| 0 <= i < files.len() implies (#[trigger] files[i]).wf() by {
        assert(s.files[i].wf());
    }
    lemma_rebuilt(changed);
    if collapsed {
        lemma_folded_rows(files, s.split, files.len() as int);
    }
    if let Some(row) = s.current_row() {
        lemma_current_row(s);
        rows::law_file_header_is_shown(files, s.split, row.of_file());
        lemma_on_row(changed.rebuilt(), Row::FileHeader { file: row.of_file() });
    }
}

proof fn lemma_folded_rows(files: Seq<FileView>, split: bool, n: int)
    requires
        0 <= n <= files.len(),
        forall|i: int| 0 <= i < files.len() ==> (#[trigger] files[i]).collapsed,
    ensures
        rows::rows_upto(files, split, n) == Seq::new(
            n as nat,
            |i: int| Row::FileHeader { file: i as usize },
        ),
    decreases n,
{
    if n > 0 {
        lemma_folded_rows(files, split, n - 1);
        assert(files[n - 1].collapsed);
    }
    assert(rows::rows_upto(files, split, n) =~= Seq::new(
        n as nat,
        |i: int| Row::FileHeader { file: i as usize },
    ));
}

/// Switching between the unified and the side-by-side view changes no file,
/// and switching back restores the rows.
pub proof fn law_split_twice_restores(s: ViewerState)
    requires
        s.wf(),
    ensures
        ({
            let once = s.after(Command::ToggleSplit);
            let twice = once.after(Command::ToggleSplit);
            &&& once.files == s.files
            &&& twice.files == s.files
            &&& twice.split == s.split
            &&& twice.rows == s.rows
        }),
{
}

/// The files as they are after diffing them anew.
pub open spec fn rediffed_files(files: Seq<FileView>, ignore_whitespace: bool) -> Seq<FileView> {
    Seq::new(
        files.len(),
        |i: int| files[i].recomputed(ignore_whitespace),
    )
}

/// Switching whitespace off and on again gives the diffs that the versions of
/// the files have: where nothing was expanded, all files are as they were. (The
/// files have not too many lines for a diff.)
pub proof fn law_whitespace_twice_restores(s: ViewerState)
    requires
        s.wf(),
        forall|i: int|
            0 <= i < s.files.len() ==> align::comparable(
                (#[trigger] s.files[i]).old_lines,
                s.files[i].new_lines,
                s.ignore_whitespace,
            ),
    ensures
        ({
            let twice = s.after(Command::ToggleWhitespace).after(Command::ToggleWhitespace);
            &&& twice.ignore_whitespace == s.ignore_whitespace
            &&& twice.files == rediffed_files(s.files, s.ignore_whitespace)
            &&& s.files == rediffed_files(s.files, s.ignore_whitespace) ==> twice.rows == s.rows
        }),
{
    let twice = s.after(Command::ToggleWhitespace).after(Command::ToggleWhitespace);
    assert(twice.files =~= rediffed_files(s.files, s.ignore_whitespace));
}

/// Expanding from a hunk header leaves the cursor on the header of the hunk
/// that shows the revealed lines.
pub proof fn law_expand_keeps_cursor_on_hunk(s: ViewerState, all: bool)
    requires
        s.wf(),
        s.current_row() matches Some(row) && row is HunkHeader,
    ensures
        ({
            let row = s.current_row().unwrap();
            let file = s.files[row.of_file() as int];
            let hunk = row->hunk;
            let shown = if state::meets_above(file, hunk as int, all) {
                hunk - 1
            } else {
                hunk as int
            };
            s.expanded(all).current_row() == Some(
                Row::HunkHeader { file: row.of_file(), hunk: shown as usize },
            )
        }),
{
    lemma_current_row(s);
    if let Some(Row::HunkHeader { file, hunk }) = s.current_row() {
        let f = s.files[file as int];
        let shown = if state::meets_above(f, hunk as int, all) {
            hunk - 1
        } else {
            hunk as int
        };
        let files = s.files.update(file as int, state::expand_above(f, hunk as int, all));
        let changed = ViewerState { files, ..s };
        law_expand_above_reveals(f, hunk as int, all);
        lemma_same_gutter(s.files, files);
        lemma_rebuilt(changed);
        rows::law_hunk_header_is_shown(files, s.split, file, shown as usize);
        lemma_on_row(changed.rebuilt(), Row::HunkHeader { file, hunk: shown as usize });
    }
}

/// A jump goes to the line of the next op that is left in the file, or to the
/// end of the file if none is.
pub proof fn law_jump_finds_next_surviving_line(file: FileView, op: int)
    requires
        file.wf(),
        0 <= op < file.ops.len(),
    ensures
        file.ops[op].new != NO_LINE ==> state::surviving_line(file, op) == file.ops[op].new,
        ({
            ||| exists|k: int|
                op <= k < file.ops.len() && (#[trigger] file.ops[k]).new != NO_LINE
                    && state::surviving_line(file, op) == file.ops[k].new && (forall|j: int|
                    op <= j < k ==> (#[trigger] file.ops[j]).new == NO_LINE)
            ||| state::surviving_line(file, op) == file.new_lines.len() && (forall|j: int|
                op <= j < file.ops.len() ==> (#[trigger] file.ops[j]).new == NO_LINE)
        }),
    decreases file.ops.len() - op,
{
    reveal_with_fuel(state::surviving_line, 2);
    if file.ops[op].new == NO_LINE && op + 1 < file.ops.len() {
        law_jump_finds_next_surviving_line(file, op + 1);
    }
}

/// A jump goes to the position of its op in the new version: so many lines of
/// that come before it. For a removed line, this is where the removal happened.
/// (The ops of every diff name the new lines in order.)
pub proof fn law_jump_keeps_the_position(file: FileView, op: int)
    requires
        align_laws::new_side(file.ops) == align_laws::upto(0, file.new_lines.len() as int),
        0 <= op <= file.ops.len(),
    ensures
        state::surviving_line(file, op) == align_laws::new_side(file.ops.take(op)).len(),
    decreases file.ops.len() - op,
{
    assert(file.ops.take(file.ops.len() as int) =~= file.ops);
    if op < file.ops.len() {
        law_jump_keeps_the_position(file, op + 1);
        let before = file.ops.take(op);
        let here = file.ops.take(op + 1);
        assert(here.drop_last() =~= before);
        assert(here.last() == file.ops[op]);
        if file.ops[op].new != NO_LINE {
            lemma_new_side_prefix(file.ops, op + 1);
            let at = align_laws::new_side(before).len() as int;
            assert(align_laws::new_side(here)[at] == file.ops[op].new as int);
        }
    }
}

proof fn lemma_new_side_prefix(ops: Seq<Op>, k: int)
    requires
        0 <= k <= ops.len(),
    ensures
        align_laws::new_side(ops.take(k)).is_prefix_of(align_laws::new_side(ops)),
    decreases ops.len() - k,
{
    assert(ops.take(ops.len() as int) =~= ops);
    if k < ops.len() {
        lemma_new_side_prefix(ops, k + 1);
        assert(ops.take(k + 1).drop_last() =~= ops.take(k));
        let shorter = align_laws::new_side(ops.take(k));
        let longer = align_laws::new_side(ops.take(k + 1));
        let all = align_laws::new_side(ops);
        assert(shorter.is_prefix_of(longer));
        assert forall|i: int| 0 <= i < shorter.len() implies shorter[i] == all[i] by {
            assert(longer[i] == all[i]);
        }
        assert(shorter =~= all.subrange(0, shorter.len() as int));
    }
}

/// Any key closes the help and does nothing else.
pub proof fn law_any_key_closes_help(s: ViewerState, key: KeyEvent)
    requires
        s.show_help,
    ensures
        s.after_event(Event::Key(key)) == (ViewerState { show_help: false, ..s }),
        s.event_reaction(Event::Key(key)) is Consumed,
{
}

/// A prefix key holds for one key only: after the next key none is pending.
pub proof fn law_prefix_holds_for_one_key(s: ViewerState, key: KeyEvent)
    requires
        s.wf(),
        !s.show_help,
        s.pending is Some,
    ensures
        s.after_event(Event::Key(key)).pending is None,
{
    let command = s.command(key);
    lemma_pending_kept(s.key_taken(), command);
}

proof fn lemma_pending_kept(s: ViewerState, command: Command)
    requires
        !(command is Prefix),
    ensures
        s.after(command).pending == s.pending,
{
}

/// Only one command changes whether white space counts.
pub proof fn lemma_whitespace_kept(s: ViewerState, command: Command)
    requires
        !(command is ToggleWhitespace),
    ensures
        s.after(command).ignore_whitespace == s.ignore_whitespace,
{
}

/// No mouse event changes whether white space counts.
pub proof fn lemma_mouse_keeps_whitespace(s: ViewerState, event: MouseEvent)
    ensures
        s.after_mouse(event).ignore_whitespace == s.ignore_whitespace,
{
}

/// A deleted file is never opened: the attempt is answered with a message and
/// the viewer stays open. Any other file is opened.
pub proof fn law_deleted_file_is_not_opened(s: ViewerState, command: Command)
    requires
        s.wf(),
        s.rows.len() > 0,
        command is Open || command is Goto,
    ensures
        s.after(command) == s,
        ({
            let file = s.files[s.current_row().unwrap().of_file() as int];
            if file.status is Deleted {
                s.reaction(command) is CannotOpenDeleted
            } else {
                s.reaction(command) matches Reaction::Open { path, line, col, action, goto }
                    && path == file.path && col == s.cursor_col
            }
        }),
{
    lemma_current_row(s);
}

/// The next header is the first one after the cursor, the previous one the
/// last before it; without one the cursor stays.
pub proof fn law_jump_to_nearest_header(s: ViewerState, forward: bool, stop: Stop)
    requires
        s.wf(),
    ensures
        ({
            let after = s.jumped(forward, stop);
            let k = after.cursor;
            &&& after == (ViewerState { cursor: k, ..s })
            &&& if forward {
                &&& k == s.cursor || s.cursor < k < s.rows.len() && state::is_stop(s.rows[k], stop)
                &&& forall|j: int|
                    s.cursor < j < (if k == s.cursor {
                        s.rows.len() as int
                    } else {
                        k
                    }) ==> !state::is_stop(#[trigger] s.rows[j], stop)
            } else {
                &&& k == s.cursor || 0 <= k < s.cursor && state::is_stop(s.rows[k], stop)
                &&& forall|j: int|
                    (if k == s.cursor {
                        0
                    } else {
                        k + 1
                    }) <= j < s.cursor ==> !state::is_stop(#[trigger] s.rows[j], stop)
            }
        }),
{
    if forward {
        lemma_stop_after(s.rows, s.cursor + 1, stop);
    } else {
        lemma_stop_before(s.rows, s.cursor - 1, stop);
    }
}

proof fn lemma_stop_after(rows: Seq<Row>, k: int, stop: Stop)
    requires
        0 <= k,
    ensures
        match state::stop_after(rows, k, stop) {
            Some(i) => k <= i < rows.len() && state::is_stop(rows[i], stop) && (forall|j: int|
                k <= j < i ==> !state::is_stop(#[trigger] rows[j], stop)),
            None => forall|j: int|
                k <= j < rows.len() ==> !state::is_stop(#[trigger] rows[j], stop),
        },
    decreases rows.len() - k,
{
    if k < rows.len() && !state::is_stop(rows[k], stop) {
        lemma_stop_after(rows, k + 1, stop);
    }
}

proof fn lemma_stop_before(rows: Seq<Row>, k: int, stop: Stop)
    ensures
        match state::stop_before(rows, k, stop) {
            Some(i) => 0 <= i <= k && state::is_stop(rows[i], stop) && (forall|j: int|
                i < j <= k ==> !state::is_stop(#[trigger] rows[j], stop)),
            None => forall|j: int| 0 <= j <= k ==> !state::is_stop(#[trigger] rows[j], stop),
        },
    decreases k + 1,
{
    if k >= 0 && !state::is_stop(rows[k], stop) {
        lemma_stop_before(rows, k - 1, stop);
    }
}

/// From a header to the next one and back leads to the same row.
pub proof fn law_next_then_previous_returns(s: ViewerState, stop: Stop)
    requires
        s.wf(),
        s.rows.len() > 0,
        state::is_stop(s.rows[s.cursor], stop),
        s.jumped(true, stop).cursor != s.cursor,
    ensures
        s.jumped(true, stop).jumped(false, stop) == s,
{
    law_jump_to_nearest_header(s, true, stop);
    let next = s.jumped(true, stop);
    lemma_stop_before(s.rows, next.cursor - 1, stop);
    let k = state::stop_before(s.rows, next.cursor - 1, stop);
    if let Some(i) = k {
        assert(i >= s.cursor) by {
            if i < s.cursor {
                assert(!state::is_stop(s.rows[s.cursor], stop));
            }
        }
        if i > s.cursor {
            assert(!state::is_stop(s.rows[i], stop));
        }
    } else {
        assert(!state::is_stop(s.rows[s.cursor], stop));
    }
}

/// Moving within a line keeps the column within it, whatever the distance.
pub proof fn law_column_stays_in_line(s: ViewerState, delta: int, forward: bool)
    requires
        s.wf(),
    ensures
        0 <= s.clamped().cursor_col <= s.last_col(),
        0 <= s.moved_col(delta).cursor_col <= s.last_col(),
        s.cursor_line() matches Some(line) ==> line.len() > 0 ==> 0 <= s.moved_word(
            forward,
        ).cursor_col <= s.last_col(),
{
    lemma_target(s);
    if let Some(line) = s.cursor_line() {
        if line.len() > 0 {
            let col = math::min(s.cursor_col, line.len() - 1);
            lemma_next_char(line, col, false);
            let from = if state::is_word(line[col]) {
                state::next_char(line, col, false)
            } else {
                col + 1
            };
            lemma_next_char(line, from, true);
            let start = math::max(col - 1, 0);
            lemma_previous_word_char(line, start);
            lemma_word_start(line, state::previous_word_char(line, start));
        }
    }
}

proof fn lemma_next_char(line: Seq<char>, k: int, in_word: bool)
    requires
        0 <= k <= line.len(),
    ensures
        k <= state::next_char(line, k, in_word) <= line.len(),
    decreases line.len() - k,
{
    if k < line.len() {
        lemma_next_char(line, k + 1, in_word);
    }
}

proof fn lemma_previous_word_char(line: Seq<char>, k: int)
    requires
        0 <= k,
    ensures
        0 <= state::previous_word_char(line, k) <= k,
    decreases k,
{
    if k > 0 {
        lemma_previous_word_char(line, k - 1);
    }
}

proof fn lemma_word_start(line: Seq<char>, k: int)
    requires
        0 <= k,
    ensures
        0 <= state::word_start(line, k) <= k,
    decreases k,
{
    if k > 0 {
        lemma_word_start(line, k - 1);
    }
}

/// Powers of ten.
pub open spec fn tens(k: nat) -> nat
    decreases k,
{
    if k == 0 {
        1
    } else {
        10 * tens((k - 1) as nat)
    }
}

proof fn lemma_decimal_len(n: nat, k: nat)
    requires
        n < tens(k),
        k >= 1,
    ensures
        1 <= text::decimal(n).len() <= k,
    decreases k,
{
    if n >= 10 {
        if k == 1 {
            assert(tens(1) == 10) by {
                reveal_with_fuel(tens, 2);
            }
        }
        lemma_decimal_len(n / 10, (k - 1) as nat);
    }
}

/// The gutter is narrow.
pub proof fn lemma_gutter_bound(files: Seq<FileView>)
    requires
        forall|i: int| 0 <= i < files.len() ==> (#[trigger] files[i]).wf(),
    ensures
        MIN_GUTTER <= state::gutter_width(files) <= 10,
{
    lemma_most_lines_bound(files, files.len() as int);
    assert(tens(10) == 10_000_000_000) by {
        reveal_with_fuel(tens, 11);
    }
    lemma_decimal_len(
        math::max(1, state::most_lines(files, files.len() as int)) as nat,
        10,
    );
}

proof fn lemma_most_lines_bound(files: Seq<FileView>, n: int)
    requires
        n <= files.len(),
        forall|i: int| 0 <= i < files.len() ==> (#[trigger] files[i]).wf(),
    ensures
        0 <= state::most_lines(files, n) <= MAX_LINES,
    decreases n,
{
    if n > 0 {
        lemma_most_lines_bound(files, n - 1);
        assert(files[n - 1].wf());
    }
}

/// After preparing to draw, the cursor row and the cursor column are in view.
pub proof fn law_cursor_is_in_view(s: ViewerState, area: Rect)
    requires
        s.wf(),
        !state::too_small(area),
    ensures
        ({
            let after = s.prepared(area);
            let width = after.text_width(after.viewport.width as int);
            &&& after.cursor == s.cursor
            &&& after.scroll <= after.cursor < after.scroll + after.viewport.height
            &&& after.cursor_vcol() matches Some(vcol) ==> after.h_scroll <= vcol < after.h_scroll
                + width
        }),
{
    let after = s.prepared(area);
    assert(after.cursor_line() == s.cursor_line());
}

/// Two lists hold the same files with the same versions, whatever is folded or
/// hidden.
pub open spec fn same_contents(a: Seq<FileView>, b: Seq<FileView>) -> bool {
    &&& a.len() == b.len()
    &&& forall|i: int|
        0 <= i < a.len() ==> {
            &&& (#[trigger] a[i]).path == b[i].path
            &&& a[i].display_path == b[i].display_path
            &&& a[i].old_display_path == b[i].old_display_path
            &&& a[i].status == b[i].status
            &&& a[i].binary == b[i].binary
            &&& a[i].old_lines == b[i].old_lines
            &&& a[i].new_lines == b[i].new_lines
        }
}

/// Two lists align the same lines.
pub open spec fn same_alignment(a: Seq<FileView>, b: Seq<FileView>) -> bool {
    &&& a.len() == b.len()
    &&& forall|i: int|
        0 <= i < a.len() ==> (#[trigger] a[i]).ops == b[i].ops && a[i].additions == b[i].additions
            && a[i].deletions == b[i].deletions
}

/// No event changes which files are shown, or what they contain; how their
/// lines are aligned changes only where whitespace begins or ceases to count.
pub proof fn law_events_keep_contents(s: ViewerState, event: Event)
    requires
        s.wf(),
    ensures
        same_contents(s.after_event(event).files, s.files),
        s.after_event(event).ignore_whitespace == s.ignore_whitespace ==> same_alignment(
            s.after_event(event).files,
            s.files,
        ),
{
    match event {
        Event::Key(key) => {
            lemma_current_row(s.key_taken());
            lemma_command_keeps_contents(s.key_taken(), s.command(key));
        },
        Event::Mouse(mouse) => {
            lemma_mouse_keeps_contents(s, mouse);
        },
        _ => {},
    }
}

proof fn lemma_expand_keeps_contents(s: ViewerState, all: bool)
    requires
        s.wf(),
    ensures
        same_contents(s.expanded(all).files, s.files),
        same_alignment(s.expanded(all).files, s.files),
        s.expanded(all).ignore_whitespace == s.ignore_whitespace,
{
    lemma_current_row(s);
}

proof fn lemma_toggle_keeps_contents(s: ViewerState, file: int)
    requires
        0 <= file < s.files.len(),
    ensures
        same_contents(s.toggled(file).files, s.files),
        same_alignment(s.toggled(file).files, s.files),
        s.toggled(file).ignore_whitespace == s.ignore_whitespace,
{
}

proof fn lemma_motion_keeps_files(s: ViewerState, command: Command)
    requires
        input::is_motion(command),
    ensures
        s.after(command).files == s.files,
        s.after(command).ignore_whitespace == s.ignore_whitespace,
{
}

proof fn lemma_fold_keeps_contents(s: ViewerState, collapsed: bool)
    ensures
        same_contents(s.folded(collapsed).files, s.files),
        same_alignment(s.folded(collapsed).files, s.files),
{
    assert(s.folded(collapsed).files == s.files.map_values(
        |f: FileView| FileView { collapsed, ..f },
    ));
}

proof fn lemma_whitespace_keeps_contents(s: ViewerState)
    ensures
        same_contents(s.after(Command::ToggleWhitespace).files, s.files),
        s.after(Command::ToggleWhitespace).ignore_whitespace != s.ignore_whitespace,
{
    let after = s.after(Command::ToggleWhitespace);
    assert(after.files =~= rediffed_files(s.files, !s.ignore_whitespace));
}

proof fn lemma_command_keeps_contents(s: ViewerState, command: Command)
    requires
        s.wf(),
    ensures
        same_contents(s.after(command).files, s.files),
        s.after(command).ignore_whitespace == s.ignore_whitespace ==> same_alignment(
            s.after(command).files,
            s.files,
        ),
{
    lemma_current_row(s);
    if input::is_motion(command) {
        lemma_motion_keeps_files(s, command);
    }
    match command {
        Command::FoldAll => lemma_fold_keeps_contents(s, true),
        Command::UnfoldAll => lemma_fold_keeps_contents(s, false),
        Command::ToggleWhitespace => lemma_whitespace_keeps_contents(s),
        Command::Expand => lemma_expand_keeps_contents(s, false),
        Command::ExpandAll => lemma_expand_keeps_contents(s, true),
        Command::Activate => match s.current_row() {
            Some(Row::FileHeader { file }) => lemma_toggle_keeps_contents(s, file as int),
            _ => lemma_expand_keeps_contents(s, false),
        },
        Command::ToggleFold => {
            if let Some(row) = s.current_row() {
                lemma_toggle_keeps_contents(s, row.of_file() as int);
            }
        },
        _ => {},
    }
}

proof fn lemma_mouse_keeps_contents(s: ViewerState, event: MouseEvent)
    requires
        s.wf(),
    ensures
        same_contents(s.after_mouse(event).files, s.files),
        same_alignment(s.after_mouse(event).files, s.files),
{
    let idx = s.scroll + (event.row - s.viewport.y);
    if event.kind is LeftDown && event.row >= s.viewport.y && event.row < s.viewport.y
        + s.viewport.height && idx < s.rows.len() {
        let moved = ViewerState { cursor: idx, ..s };
        lemma_target(moved);
        lemma_current_row(moved.clamped());
        match s.rows[idx] {
            Row::FileHeader { file } => lemma_toggle_keeps_contents(moved.clamped(), file as int),
            _ => lemma_expand_keeps_contents(moved.clamped(), false),
        }
    }
}

/// A jump leads to a line that the file has, to its start, or to its end.
pub proof fn law_jump_stays_in_file(s: ViewerState)
    requires
        s.wf(),
    ensures
        s.target() matches Some((file, op)) ==> 0 <= s.jump_line(file, op)
            <= s.files[file].new_lines.len(),
{
    lemma_target(s);
    if let Some((file, Some(k))) = s.target() {
        lemma_surviving_line(s.files[file], k);
    }
}

proof fn lemma_surviving_line(file: FileView, k: int)
    requires
        file.wf(),
        0 <= k,
    ensures
        0 <= state::surviving_line(file, k) <= file.new_lines.len(),
    decreases file.ops.len() - k,
{
    if k < file.ops.len() {
        assert(align_laws::op_fits(file.ops[k], file.old_lines.len(), file.new_lines.len()));
        lemma_surviving_line(file, k + 1);
    }
}

/// Making the rows anew changes nothing but the rows and the cursor, and doing
/// it again changes nothing. There are rows unless there are no files, and the
/// cursor is then on one of them.
pub proof fn law_rebuilding_twice_changes_nothing(s: ViewerState)
    requires
        0 <= s.cursor,
    ensures
        s.rebuilt().rebuilt() == s.rebuilt(),
        s.rebuilt() == (ViewerState { rows: s.rebuilt().rows, cursor: s.rebuilt().cursor, ..s }),
        s.rebuilt().cursor == math::min(s.cursor, math::max(s.rebuilt().rows.len() - 1, 0)),
        s.rebuilt().rows.len() == 0 <==> s.files.len() == 0,
        s.files.len() > 0 ==> s.rebuilt().cursor < s.rebuilt().rows.len(),
{
    if s.files.len() > 0 {
        rows::law_file_header_is_shown(s.files, s.split, 0);
    }
}

} // verus!
