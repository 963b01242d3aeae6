//! Laws of the keys and clicks that fold, expand, switch and open.

use crate::align::{self, NO_LINE};
use crate::align_laws;
use crate::file_diff::FileView;
use crate::frame;
use crate::input::{Event, GotoKind, KeyCode, MouseEvent, MouseKind, OpenAction};
use crate::key_laws;
use crate::rows::{self, Row};
use crate::state::{self, Reaction, ViewerState};
use crate::state_laws;
use vstd::prelude::*;

verus! {

/// The file that a row belongs to.
pub open spec fn file_of(row: Row) -> int {
    match row {
        Row::FileHeader { file } => file as int,
        Row::HunkHeader { file, hunk: _ } => file as int,
        Row::Line { file, op: _ } => file as int,
        Row::SplitLine { file, left: _, right: _ } => file as int,
        Row::ExpandTail { file } => file as int,
        Row::Note { file, notice: _ } => file as int,
    }
}

/// Only the files, the rows and the cursor changed: one file is another, and the
/// rows are those of the files.
pub open spec fn replaces_file(
    s: ViewerState,
    after: ViewerState,
    i: int,
    file: FileView,
) -> bool {
    &&& after.wf()
    &&& after == (ViewerState {
        files: s.files.update(i, file),
        rows: after.rows,
        cursor: after.cursor,
        ..s
    })
}

/// A file is folded if it was not, and unfolded if it was. The cursor is on its
/// header, and no other file changes.
pub open spec fn flips_file(s: ViewerState, after: ViewerState, i: int) -> bool {
    &&& replaces_file(
        s,
        after,
        i,
        (FileView { collapsed: !s.files[i].collapsed, ..s.files[i] }),
    )
    &&& after.rows[after.cursor] == (Row::FileHeader { file: i as usize })
}

/// `za` folds or unfolds the file of the row under the cursor, and Enter does so
/// on the header of a file.
pub proof fn law_fold_key(s: ViewerState)
    requires
        key_laws::is_idle(s),
        s.rows.len() > 0,
    ensures
        flips_file(s, key_laws::then_hit(s, 'z', 'a'), file_of(s.rows[s.cursor])),
        s.rows[s.cursor] is FileHeader ==> flips_file(
            s,
            s.after_event(key_laws::press(KeyCode::Enter)),
            file_of(s.rows[s.cursor]),
        ) && s.event_reaction(key_laws::press(KeyCode::Enter)) is Consumed,
{
    state_laws::lemma_current_row(s);
    let i = file_of(s.rows[s.cursor]);
    lemma_toggled(s, i);
    assert(s.key_taken() == s);
    let between = s.after_event(key_laws::hit('z'));
    assert(between == (ViewerState { pending: Some('z'), ..s }));
    assert(between.key_taken() == s);
    assert(key_laws::then_hit(s, 'z', 'a') == s.toggled(i));
}

proof fn lemma_toggled(s: ViewerState, i: int)
    requires
        s.wf(),
        0 <= i < s.files.len(),
    ensures
        flips_file(s, s.toggled(i), i),
{
    let file = FileView { collapsed: !s.files[i].collapsed, ..s.files[i] };
    let changed = ViewerState { files: s.files.update(i, file), ..s };
    state_laws::lemma_same_gutter(s.files, changed.files);
    state_laws::lemma_rebuilt(changed);
    let header = Row::FileHeader { file: i as usize };
    rows::law_file_header_is_shown(changed.files, s.split, i as usize);
    state_laws::lemma_on_row(changed.rebuilt(), header);
}

/// All files are folded, or unfolded, and nothing else of them changes. The
/// cursor is on the header of the file that it was in.
pub open spec fn folds_all(s: ViewerState, after: ViewerState, collapsed: bool) -> bool {
    &&& after.wf()
    &&& after == (ViewerState {
        files: after.files,
        rows: after.rows,
        cursor: after.cursor,
        ..s
    })
    &&& after.files.len() == s.files.len()
    &&& forall|i: int|
        0 <= i < s.files.len() ==> #[trigger] after.files[i] == (FileView {
            collapsed,
            ..s.files[i]
        })
    &&& s.rows.len() > 0 ==> after.rows[after.cursor] == (Row::FileHeader {
        file: file_of(s.rows[s.cursor]) as usize,
    })
}

/// `zM` folds all files, `zR` unfolds them.
pub proof fn law_fold_all_keys(s: ViewerState)
    requires
        key_laws::is_idle(s),
    ensures
        folds_all(s, key_laws::then_hit(s, 'z', 'M'), true),
        folds_all(s, key_laws::then_hit(s, 'z', 'R'), false),
{
    lemma_folded(s, true);
    lemma_folded(s, false);
    let between = s.after_event(key_laws::hit('z'));
    assert(between == (ViewerState { pending: Some('z'), ..s }));
    assert(between.key_taken() == s);
    assert(key_laws::then_hit(s, 'z', 'M') == s.folded(true));
    assert(key_laws::then_hit(s, 'z', 'R') == s.folded(false));
}

proof fn lemma_folded(s: ViewerState, collapsed: bool)
    requires
        s.wf(),
    ensures
        folds_all(s, s.folded(collapsed), collapsed),
{
    let files = s.files.map_values(|f: FileView| FileView { collapsed, ..f });
    let changed = ViewerState { files, ..s };
    state_laws::lemma_same_gutter(s.files, files);
    assert forall|i: int| 0 <= i < files.len() implies (#[trigger] files[i]).wf() by {
        assert(s.files[i].wf());
    }
    state_laws::lemma_rebuilt(changed);
    state_laws::lemma_current_row(s);
    if s.rows.len() > 0 {
        let i = file_of(s.rows[s.cursor]);
        rows::law_file_header_is_shown(files, s.split, i as usize);
        state_laws::lemma_on_row(changed.rebuilt(), Row::FileHeader { file: i as usize });
    }
}

/// A file shows an op: it is in one of its hunks.
pub open spec fn shows(file: FileView, k: int) -> bool {
    exists|i: int|
        0 <= i < file.hunks.len() && (#[trigger] file.hunks[i]).start <= k < file.hunks[i].end
}

/// One file shows more: what it showed, and the ops from `from` up to `to`.
/// Nothing else of it changes.
pub open spec fn reveals(before: FileView, after: FileView, from: int, to: int) -> bool {
    &&& after == (FileView { hunks: after.hunks, ..before })
    &&& forall|k: int| #[trigger] shows(after, k) <==> shows(before, k) || from <= k < to
}

/// Where the hidden ops above a hunk begin.
pub open spec fn gap_start(file: FileView, hunk: int) -> int {
    if hunk == 0 {
        0
    } else {
        file.hunks[hunk - 1].end as int
    }
}

/// The ops hidden above a hunk are revealed: the nearest twenty, or as many as
/// there are, or all of them. The cursor is on the header of the hunk that now
/// begins with them, or of the one above that it met. Nothing else changes.
pub open spec fn expands_above(
    s: ViewerState,
    after: ViewerState,
    file: usize,
    hunk: usize,
    all: bool,
) -> bool {
    let f = s.files[file as int];
    let g = after.files[file as int];
    let to = f.hunks[hunk as int].start as int;
    let top = gap_start(f, hunk as int);
    let from = if all || to - top < 20 {
        top
    } else {
        to - 20
    };
    &&& replaces_file(s, after, file as int, g)
    &&& reveals(f, g, from, to)
    &&& after.rows[after.cursor] matches Row::HunkHeader { file: i, hunk: h } && i == file && h
        < g.hunks.len() && g.hunks[h as int].start <= from && g.hunks[h as int].end
        == f.hunks[hunk as int].end
}

/// The ops hidden below the last hunk are revealed: the nearest twenty, or as
/// many as there are, or all of them. Nothing else changes.
pub open spec fn expands_tail(s: ViewerState, after: ViewerState, file: usize, all: bool) -> bool {
    let f = s.files[file as int];
    let g = after.files[file as int];
    let from = f.hunks[f.hunks.len() - 1].end as int;
    let to = if all || f.ops.len() - from < 20 {
        f.ops.len() as int
    } else {
        from + 20
    };
    &&& replaces_file(s, after, file as int, g)
    &&& reveals(f, g, from, to)
    &&& g.hunks.len() == f.hunks.len()
}

/// On the header of a hunk, `+` and Enter reveal the twenty ops above it, or as
/// many as are hidden there, and `=` all of them. The cursor is on the header
/// of the hunk that now begins with what was revealed, or of the one above that
/// it met.
pub proof fn law_expand_above_keys(s: ViewerState, file: usize, hunk: usize, all: bool)
    requires
        key_laws::is_idle(s),
        s.rows.len() > 0,
        s.rows[s.cursor] == (Row::HunkHeader { file, hunk }),
    ensures
        expands_above(
            s,
            s.after_event(key_laws::hit(if all { '=' } else { '+' })),
            file,
            hunk,
            all,
        ),
        !all ==> expands_above(
            s,
            s.after_event(key_laws::press(KeyCode::Enter)),
            file,
            hunk,
            false,
        ) && s.event_reaction(key_laws::press(KeyCode::Enter)) is Consumed,
{
    state_laws::lemma_current_row(s);
    let f = s.files[file as int];
    assert(f.wf());
    lemma_expands_above(s, file, hunk, all);
    lemma_expand_keys(s);
}

proof fn lemma_expands_above(s: ViewerState, file: usize, hunk: usize, all: bool)
    requires
        s.wf(),
        0 <= s.cursor < s.rows.len(),
        s.rows[s.cursor] == (Row::HunkHeader { file, hunk }),
    ensures
        expands_above(s, s.expanded(all), file, hunk, all),
{
    state_laws::lemma_current_row(s);
    let f = s.files[file as int];
    assert(f.wf());
    lemma_reveals_above(f, hunk as int, all);
    lemma_expanded_above(s, file, hunk, all);
}

/// Where a hunk begins once the ops above it are revealed.
pub open spec fn revealed_from(file: FileView, hunk: int, all: bool) -> int {
    let to = file.hunks[hunk].start as int;
    let top = gap_start(file, hunk);
    if all || to - top < 20 {
        top
    } else {
        to - 20
    }
}

proof fn lemma_reveals_above(f: FileView, h: int, all: bool)
    requires
        f.wf(),
        0 <= h < f.hunks.len(),
    ensures
        ({
            let g = state::expand_above(f, h, all);
            let from = revealed_from(f, h, all);
            let shown = if state::meets_above(f, h, all) {
                h - 1
            } else {
                h
            };
            &&& g.wf()
            &&& reveals(f, g, from, f.hunks[h].start as int)
            &&& 0 <= shown < g.hunks.len()
            &&& g.hunks[shown].start <= from
            &&& g.hunks[shown].end == f.hunks[h].end
        }),
{
    state_laws::law_expand_above_reveals(f, h, all);
    let g = state::expand_above(f, h, all);
    assert(f.hunks[h].start < f.hunks[h].end);
    if h > 0 {
        assert(f.hunks[h - 1].end < f.hunks[h].start);
        assert(f.hunks[h - 1].start < f.hunks[h - 1].end);
    }
    let to = f.hunks[h].start as int;
    let from = revealed_from(f, h, all);
    assert(state::expanded_start(f, h, all) == from);
    assert forall|k: int| #[trigger] shows(g, k) <==> shows(f, k) || from <= k < to by {
        assert(shows(g, k) <==> align_laws::displayed(g.hunks, k));
        assert(shows(f, k) <==> align_laws::displayed(f.hunks, k));
    }
}

proof fn lemma_expanded_above(s: ViewerState, file: usize, hunk: usize, all: bool)
    requires
        s.wf(),
        0 <= s.cursor < s.rows.len(),
        s.rows[s.cursor] == (Row::HunkHeader { file, hunk }),
    ensures
        ({
            let f = s.files[file as int];
            let after = s.expanded(all);
            let shown = if state::meets_above(f, hunk as int, all) {
                hunk - 1
            } else {
                hunk as int
            };
            &&& replaces_file(
                s,
                after,
                file as int,
                state::expand_above(f, hunk as int, all),
            )
            &&& after.rows[after.cursor] == (Row::HunkHeader { file, hunk: shown as usize })
        }),
{
    state_laws::lemma_current_row(s);
    let f = s.files[file as int];
    assert(f.wf());
    let h = hunk as int;
    state_laws::law_expand_above_reveals(f, h, all);
    state_laws::law_expand_keeps_cursor_on_hunk(s, all);
    let files = s.files.update(file as int, state::expand_above(f, h, all));
    let changed = ViewerState { files, ..s };
    state_laws::lemma_same_gutter(s.files, files);
    state_laws::lemma_rebuilt(changed);
    let shown = if state::meets_above(f, h, all) {
        h - 1
    } else {
        h
    };
    state_laws::lemma_on_row(changed.rebuilt(), Row::HunkHeader { file, hunk: shown as usize });
}

/// The keys that expand.
proof fn lemma_expand_keys(s: ViewerState)
    requires
        key_laws::is_idle(s),
        s.rows.len() > 0,
        s.rows[s.cursor] is HunkHeader || s.rows[s.cursor] is ExpandTail,
    ensures
        s.after_event(key_laws::hit('+')) == s.expanded(false),
        s.after_event(key_laws::hit('=')) == s.expanded(true),
        s.after_event(key_laws::press(KeyCode::Enter)) == s.expanded(false),
        s.event_reaction(key_laws::press(KeyCode::Enter)) is Consumed,
{
    assert(s.key_taken() == s);
}

/// On the row below the last hunk, `+` and Enter reveal the next twenty ops, or
/// as many as are hidden there, and `=` all of them.
pub proof fn law_expand_tail_keys(s: ViewerState, file: usize, all: bool)
    requires
        key_laws::is_idle(s),
        s.rows.len() > 0,
        s.rows[s.cursor] == (Row::ExpandTail { file }),
    ensures
        expands_tail(s, s.after_event(key_laws::hit(if all { '=' } else { '+' })), file, all),
        !all ==> expands_tail(s, s.after_event(key_laws::press(KeyCode::Enter)), file, false)
            && s.event_reaction(key_laws::press(KeyCode::Enter)) is Consumed,
{
    lemma_expands_tail(s, file, all);
    lemma_expand_keys(s);
}

proof fn lemma_expands_tail(s: ViewerState, file: usize, all: bool)
    requires
        s.wf(),
        0 <= s.cursor < s.rows.len(),
        s.rows[s.cursor] == (Row::ExpandTail { file }),
    ensures
        expands_tail(s, s.expanded(all), file, all),
{
    state_laws::lemma_current_row(s);
    let f = s.files[file as int];
    assert(f.wf());
    lemma_reveals_tail(f, all);
    let files = s.files.update(file as int, state::expand_tail(f, all));
    let changed = ViewerState { files, ..s };
    state_laws::lemma_same_gutter(s.files, files);
    state_laws::lemma_rebuilt(changed);
}

proof fn lemma_reveals_tail(f: FileView, all: bool)
    requires
        f.wf(),
        f.hunks.len() > 0,
    ensures
        ({
            let g = state::expand_tail(f, all);
            let from = f.hunks[f.hunks.len() - 1].end as int;
            let to = if all || f.ops.len() - from < 20 {
                f.ops.len() as int
            } else {
                from + 20
            };
            &&& g.wf()
            &&& reveals(f, g, from, to)
            &&& g.hunks.len() == f.hunks.len()
        }),
{
    state_laws::law_expand_tail_reveals(f, all);
    let g = state::expand_tail(f, all);
    let n = f.hunks.len() - 1;
    assert(f.hunks[n].start < f.hunks[n].end <= f.ops.len());
    let from = f.hunks[n].end as int;
    let to = if all || f.ops.len() - from < 20 {
        f.ops.len() as int
    } else {
        from + 20
    };
    assert(g.hunks.last().end == to);
    assert forall|k: int| #[trigger] shows(g, k) <==> shows(f, k) || from <= k < to by {
        assert(shows(g, k) <==> align_laws::displayed(g.hunks, k));
        assert(shows(f, k) <==> align_laws::displayed(f.hunks, k));
    }
}

/// On other rows `+` and `=` do nothing.
pub proof fn law_nothing_else_expands(s: ViewerState)
    requires
        key_laws::is_idle(s),
        s.rows.len() > 0 ==> !(s.rows[s.cursor] is HunkHeader) && !(
        s.rows[s.cursor] is ExpandTail),
    ensures
        s.after_event(key_laws::hit('+')) == s,
        s.after_event(key_laws::hit('=')) == s,
{
}

/// `s` switches between the unified and the side-by-side view. The files stay as
/// they are, and the cursor stays on its row as far as there is one.
pub proof fn law_split_key(s: ViewerState)
    requires
        key_laws::is_idle(s),
    ensures
        ({
            let after = s.after_event(key_laws::hit('s'));
            &&& after.wf()
            &&& after == (ViewerState {
                split: !s.split,
                rows: after.rows,
                cursor: after.cursor,
                ..s
            })
            &&& after.cursor == if s.cursor < after.rows.len() {
                s.cursor
            } else if after.rows.len() == 0 {
                0
            } else {
                after.rows.len() - 1
            }
        }),
{
    let changed = ViewerState { split: !s.split, ..s };
    state_laws::lemma_rebuilt(changed);
    assert(s.key_taken() == s);
    assert(s.after_event(key_laws::hit('s')) == changed.rebuilt());
}

/// After `W`, white space counts if it did not and does not if it did, and every
/// file that is not binary, folded or not, shows the diff of its two versions
/// in which that holds, unless it has too many lines for one. Binary files stay
/// as they are.
pub proof fn law_whitespace_key(s: ViewerState, i: int)
    requires
        key_laws::is_idle(s),
        0 <= i < s.files.len(),
    ensures
        ({
            let after = s.after_event(key_laws::hit('W'));
            let f = s.files[i];
            let g = after.files[i];
            let ignore = !s.ignore_whitespace;
            let diff = align::alignment(
                f.old_lines,
                f.new_lines,
                align::changes_between(f.old_lines, f.new_lines, ignore),
            );
            &&& after == (ViewerState {
                ignore_whitespace: ignore,
                files: after.files,
                rows: rows::all_rows(after.files, s.split),
                cursor: after.cursor,
                ..s
            })
            &&& after.files.len() == s.files.len()
            &&& f.binary ==> g == f
            &&& !f.binary && align::comparable(f.old_lines, f.new_lines, ignore) ==> g == (FileView {
                ops: diff.ops,
                hunks: diff.hunks,
                additions: diff.additions,
                deletions: diff.deletions,
                ..f
            })
        }),
{
    assert(s.key_taken() == s);
    let changed = ViewerState { ignore_whitespace: !s.ignore_whitespace, ..s };
    assert(s.after_event(key_laws::hit('W')) == changed.recomputed());
    assert(changed.recomputed().files[i] == s.files[i].recomputed(!s.ignore_whitespace));
}

/// The new lines among the ops before one.
pub open spec fn new_lines_before(file: FileView, op: int) -> int
    decreases op,
{
    if op <= 0 {
        0
    } else {
        new_lines_before(file, op - 1) + if file.ops[op - 1].new != NO_LINE {
            1int
        } else {
            0
        }
    }
}

/// The op of a row: that of the new version where there is one.
pub open spec fn op_of(row: Row) -> Option<int> {
    match row {
        Row::Line { file: _, op } => Some(op as int),
        Row::SplitLine { file: _, left, right } => if right != NO_LINE {
            Some(right as int)
        } else if left != NO_LINE {
            Some(left as int)
        } else {
            None
        },
        _ => None,
    }
}

/// The file is opened at a line and at the column of the cursor.
pub open spec fn opens(
    s: ViewerState,
    reaction: Reaction,
    wanted: OpenAction,
    on: Option<GotoKind>,
) -> bool {
    let row = s.rows[s.cursor];
    let f = s.files[file_of(row)];
    if f.status is Deleted {
        reaction is CannotOpenDeleted
    } else {
        reaction matches Reaction::Open { path, line, col, action, goto } && {
            &&& path == f.path
            &&& col == s.cursor_col
            &&& action == wanted
            &&& goto == on
            &&& match op_of(row) {
                Some(op) => if f.ops[op].new != NO_LINE {
                    line == f.ops[op].new
                } else {
                    f.ops_name_new_lines() ==> line == new_lines_before(f, op)
                },
                None => line == 0,
            }
        }
    }
}

/// Enter on a line of code, Control-S, Control-V, `gd`, `gr` and `gy` open the
/// file of the row under the cursor, unless it is deleted. On a row whose line
/// is in the new version, that line is opened; on a removed one, the line that
/// has as many new lines before it; on a header, the first line. Nothing in the
/// viewer changes.
pub proof fn law_open_keys(s: ViewerState)
    requires
        key_laws::is_idle(s),
        s.rows.len() > 0,
    ensures
        s.rows[s.cursor] is Line || s.rows[s.cursor] is SplitLine || s.rows[s.cursor] is Note
            ==> opens(s, s.event_reaction(key_laws::press(KeyCode::Enter)), OpenAction::Replace, None)
            && s.after_event(key_laws::press(KeyCode::Enter)) == s,
        opens(s, s.event_reaction(key_laws::control('s')), OpenAction::HorizontalSplit, None),
        opens(s, s.event_reaction(key_laws::control('v')), OpenAction::VerticalSplit, None),
        s.after_event(key_laws::control('s')) == s,
        s.after_event(key_laws::control('v')) == s,
        ({
            let g = s.after_event(key_laws::hit('g'));
            &&& opens(
                s,
                g.event_reaction(key_laws::hit('d')),
                OpenAction::Replace,
                Some(GotoKind::Definition),
            )
            &&& opens(
                s,
                g.event_reaction(key_laws::hit('r')),
                OpenAction::Replace,
                Some(GotoKind::References),
            )
            &&& opens(
                s,
                g.event_reaction(key_laws::hit('y')),
                OpenAction::Replace,
                Some(GotoKind::TypeDefinition),
            )
            &&& g.after_event(key_laws::hit('d')) == s
            &&& g.after_event(key_laws::hit('r')) == s
            &&& g.after_event(key_laws::hit('y')) == s
        }),
{
    lemma_opening(s, OpenAction::Replace, None);
    lemma_opening(s, OpenAction::HorizontalSplit, None);
    lemma_opening(s, OpenAction::VerticalSplit, None);
    lemma_opening(s, OpenAction::Replace, Some(GotoKind::Definition));
    lemma_opening(s, OpenAction::Replace, Some(GotoKind::References));
    lemma_opening(s, OpenAction::Replace, Some(GotoKind::TypeDefinition));
    assert(s.key_taken() == s);
    let g = s.after_event(key_laws::hit('g'));
    assert(g == (ViewerState { pending: Some('g'), ..s }));
    assert(g.key_taken() == s);
}

proof fn lemma_opening(s: ViewerState, wanted: OpenAction, on: Option<GotoKind>)
    requires
        s.wf(),
        s.rows.len() > 0,
    ensures
        opens(s, s.opening(wanted, on), wanted, on),
{
    state_laws::lemma_current_row(s);
    let row = s.rows[s.cursor];
    let f = s.files[file_of(row)];
    if let Some(op) = op_of(row) {
        if f.ops[op].new == NO_LINE && f.ops_name_new_lines() {
            state_laws::law_jump_keeps_the_position(f, op);
            lemma_new_lines_before(f, op);
        }
    }
}

proof fn lemma_new_lines_before(file: FileView, op: int)
    requires
        0 <= op <= file.ops.len(),
    ensures
        new_lines_before(file, op) == align_laws::new_side(file.ops.take(op)).len(),
    decreases op,
{
    if op > 0 {
        lemma_new_lines_before(file, op - 1);
        assert(file.ops.take(op).drop_last() =~= file.ops.take(op - 1));
        assert(file.ops.take(op).last() == file.ops[op - 1]);
    }
}

/// `q`, Escape and Control-C close the viewer. `r` asks for the diffs to be
/// gathered again as they are shown. Neither changes anything.
pub proof fn law_close_and_reload_keys(s: ViewerState)
    requires
        key_laws::is_idle(s),
    ensures
        s.event_reaction(key_laws::hit('q')) is Close,
        s.event_reaction(key_laws::press(KeyCode::Esc)) is Close,
        s.event_reaction(key_laws::control('c')) is Close,
        s.event_reaction(key_laws::hit('r')) == (Reaction::Reload {
            split: s.split,
            ignore_whitespace: s.ignore_whitespace,
            rev: s.rev,
        }),
        s.after_event(key_laws::hit('q')) == s,
        s.after_event(key_laws::press(KeyCode::Esc)) == s,
        s.after_event(key_laws::control('c')) == s,
        s.after_event(key_laws::hit('r')) == s,
{
}

/// The mouse wheel scrolls by three rows, as far as there are rows. It takes
/// the cursor along only as far as it would leave the view.
pub proof fn law_mouse_wheel(s: ViewerState, row: u16)
    requires
        s.wf(),
        s.rows.len() > 0,
    ensures
        ({
            let up = s.after_event(
                Event::Mouse(MouseEvent { kind: MouseKind::ScrollUp, row }),
            );
            let top = if s.scroll < 3 {
                0
            } else {
                s.scroll - 3
            };
            let last = if s.viewport.height == 0 {
                top
            } else {
                top + s.viewport.height - 1
            };
            key_laws::put_on(
                (ViewerState { scroll: top, ..s }),
                up,
                if s.cursor < last {
                    s.cursor
                } else {
                    last
                },
            )
        }),
        ({
            let down = s.after_event(
                Event::Mouse(MouseEvent { kind: MouseKind::ScrollDown, row }),
            );
            let top = if s.scroll + 3 < s.rows.len() {
                s.scroll + 3
            } else {
                s.rows.len() - 1
            };
            key_laws::put_on(
                (ViewerState { scroll: top, ..s }),
                down,
                if s.cursor > top {
                    s.cursor
                } else {
                    top
                },
            )
        }),
        s.event_reaction(Event::Mouse(MouseEvent { kind: MouseKind::ScrollUp, row })) is Consumed,
        s.event_reaction(Event::Mouse(MouseEvent { kind: MouseKind::ScrollDown, row })) is Consumed,
{
    let top = if s.scroll < 3 {
        0
    } else {
        s.scroll - 3
    };
    let last = if s.viewport.height == 0 {
        top
    } else {
        top + s.viewport.height - 1
    };
    let up = ViewerState { scroll: top, ..s };
    let to = if s.cursor < last {
        s.cursor
    } else {
        last
    };
    key_laws::lemma_clamped(up, to);
    assert(s.after_mouse(MouseEvent { kind: MouseKind::ScrollUp, row }) == (ViewerState {
        cursor: to,
        ..up
    }).clamped());
    let top = if s.scroll + 3 < s.rows.len() {
        s.scroll + 3
    } else {
        s.rows.len() - 1
    };
    let down = ViewerState { scroll: top, ..s };
    let to = if s.cursor > top {
        s.cursor
    } else {
        top
    };
    key_laws::lemma_clamped(down, to);
    assert(s.after_mouse(MouseEvent { kind: MouseKind::ScrollDown, row }) == (ViewerState {
        cursor: to,
        ..down
    }).clamped());
}

/// A click on the `k`-th row of the view acts on the row that is drawn there: on
/// the `k`-th of the rows in view. The cursor goes to it. A file is folded or
/// unfolded by its header, and what a hunk header or the row below the last hunk
/// stands for is revealed.
pub proof fn law_click(s: ViewerState, k: int)
    requires
        s.wf(),
        0 <= k < s.viewport.height,
        s.viewport.y + k <= u16::MAX,
        s.scroll + k < s.rows.len(),
    ensures
        ({
            let click = Event::Mouse(
                MouseEvent { kind: MouseKind::LeftDown, row: (s.viewport.y + k) as u16 },
            );
            let after = s.after_event(click);
            let drawn = frame::rows_in_view(s, s.viewport.height as int)[k];
            let end = key_laws::end_of_row(s, s.scroll + k);
            let on = ViewerState {
                cursor: s.scroll + k,
                cursor_col: if s.cursor_col < end {
                    s.cursor_col
                } else {
                    end
                },
                ..s
            };
            &&& s.event_reaction(click) is Consumed
            &&& s.rows[s.scroll + k] == drawn
            &&& match drawn {
                Row::FileHeader { file } => flips_file(on, after, file as int),
                Row::HunkHeader { file, hunk } => expands_above(on, after, file, hunk, false),
                Row::ExpandTail { file } => expands_tail(on, after, file, false),
                _ => after == on,
            }
        }),
{
    let idx = s.scroll + k;
    let there = ViewerState { cursor: idx, ..s };
    let on = there.clamped();
    key_laws::lemma_clamped(s, idx);
    state_laws::lemma_current_row(there);
    state_laws::lemma_target(there);
    let shown = frame::rows_in_view(s, s.viewport.height as int);
    assert(shown[k] == s.rows[idx]);
    lemma_clicked(s, k);
    match s.rows[idx] {
        Row::FileHeader { file } => lemma_toggled(on, file as int),
        Row::HunkHeader { file, hunk } => lemma_expands_above(on, file, hunk, false),
        Row::ExpandTail { file } => lemma_expands_tail(on, file, false),
        _ => {},
    }
}

/// What a click on a row of the view does.
proof fn lemma_clicked(s: ViewerState, k: int)
    requires
        0 <= k < s.viewport.height,
        s.viewport.y + k <= u16::MAX,
        0 <= s.scroll,
        s.scroll + k < s.rows.len(),
    ensures
        ({
            let idx = s.scroll + k;
            let on = (ViewerState { cursor: idx, ..s }).clamped();
            s.clicked((s.viewport.y + k) as u16) == match s.rows[idx] {
                Row::FileHeader { file } => on.toggled(file as int),
                Row::HunkHeader { file: _, hunk: _ } => on.expanded(false),
                Row::ExpandTail { file: _ } => on.expanded(false),
                _ => on,
            }
        }),
{
}

/// A click outside the rows of the view does nothing.
pub proof fn law_click_elsewhere(s: ViewerState, row: u16)
    requires
        s.wf(),
        row < s.viewport.y || row >= s.viewport.y + s.viewport.height || s.scroll + (row
            - s.viewport.y) >= s.rows.len(),
    ensures
        s.after_event(Event::Mouse(MouseEvent { kind: MouseKind::LeftDown, row })) == s,
{
}

/// Other mouse events, a new size of the terminal and events of other sorts
/// change nothing; those of other sorts are not for the viewer.
pub proof fn law_other_events(s: ViewerState, row: u16)
    ensures
        s.after_event(Event::Mouse(MouseEvent { kind: MouseKind::Other, row })) == s,
        s.event_reaction(Event::Mouse(MouseEvent { kind: MouseKind::Other, row })) is Consumed,
        s.after_event(Event::Resize) == s,
        s.event_reaction(Event::Resize) is Consumed,
        s.after_event(Event::Other) == s,
        s.event_reaction(Event::Other) is Ignored,
{
}

} // verus!
