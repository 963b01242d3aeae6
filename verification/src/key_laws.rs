//! Laws of the keys that move the cursor.

use crate::align::NO_LINE;
use crate::input::{self, Event, KeyCode, KeyEvent, KeyModifiers};
use crate::rows::Row;
use crate::state::{self, Stop, ViewerState};
use crate::text;
use vstd::prelude::*;

verus! {

/// A key pressed alone.
pub open spec fn press(code: KeyCode) -> Event {
    Event::Key(
        KeyEvent {
            code,
            modifiers: KeyModifiers { shift: false, control: false, alt: false, meta: false },
        },
    )
}

/// A character key pressed alone.
pub open spec fn hit(c: char) -> Event {
    press(KeyCode::Char(c))
}

/// A character key pressed with Control.
pub open spec fn control(c: char) -> Event {
    Event::Key(
        KeyEvent {
            code: KeyCode::Char(c),
            modifiers: KeyModifiers { shift: false, control: true, alt: false, meta: false },
        },
    )
}

/// Tab pressed with Shift.
pub open spec fn shift_tab() -> Event {
    Event::Key(
        KeyEvent {
            code: KeyCode::Tab,
            modifiers: KeyModifiers { shift: true, control: false, alt: false, meta: false },
        },
    )
}

/// The viewer waits for nothing in particular: no help is shown, and no prefix
/// key was pressed.
pub open spec fn is_idle(s: ViewerState) -> bool {
    s.wf() && !s.show_help && s.pending is None
}

/// The state after a key, and that after a prefix key and another.
pub open spec fn then_hit(s: ViewerState, prefix: char, c: char) -> ViewerState {
    s.after_event(hit(prefix)).after_event(hit(c))
}

/// The line of code on a row: in the new version where it is there.
pub open spec fn line_on(s: ViewerState, row: int) -> Option<Seq<char>> {
    match s.rows[row] {
        Row::Line { file, op } => Some(line_of_op(s, file as int, op as int)),
        Row::SplitLine { file, left, right } => if right != NO_LINE {
            Some(line_of_op(s, file as int, right as int))
        } else if left != NO_LINE {
            Some(line_of_op(s, file as int, left as int))
        } else {
            None
        },
        _ => None,
    }
}

pub open spec fn line_of_op(s: ViewerState, file: int, op: int) -> Seq<char> {
    let f = s.files[file];
    if f.ops[op].new != NO_LINE {
        f.new_lines[f.ops[op].new as int]
    } else {
        f.old_lines[f.ops[op].old as int]
    }
}

/// The last column on a row; 0 where there is no line.
pub open spec fn end_of_row(s: ViewerState, row: int) -> int {
    match line_on(s, row) {
        Some(line) => if line.len() == 0 {
            0
        } else {
            line.len() - 1
        },
        None => 0,
    }
}

/// The cursor is put on a row, and its column kept within the line there.
/// Nothing else changes.
pub open spec fn put_on(s: ViewerState, after: ViewerState, row: int) -> bool {
    let end = end_of_row(s, row);
    after == (ViewerState {
        cursor: row,
        cursor_col: if s.cursor_col < end {
            s.cursor_col
        } else {
            end
        },
        ..s
    })
}

/// The cursor is put on a column, and nothing else changes.
pub open spec fn put_at(s: ViewerState, after: ViewerState, col: int) -> bool {
    after == (ViewerState { cursor_col: col, ..s })
}

/// `j` and the Down key go one row down, `k` and the Up key one row up, as far
/// as there are rows.
pub proof fn law_down_and_up(s: ViewerState)
    requires
        is_idle(s),
        s.rows.len() > 0,
    ensures
        ({
            let down = if s.cursor + 1 < s.rows.len() {
                s.cursor + 1
            } else {
                s.cursor
            };
            let up = if s.cursor > 0 {
                s.cursor - 1
            } else {
                0
            };
            &&& put_on(s, s.after_event(hit('j')), down)
            &&& put_on(s, s.after_event(press(KeyCode::Down)), down)
            &&& put_on(s, s.after_event(hit('k')), up)
            &&& put_on(s, s.after_event(press(KeyCode::Up)), up)
        }),
{
    lemma_moved(s, 1);
    lemma_moved(s, -1);
    assert(s.key_taken() == s);
    assert(s.after_event(hit('j')) == s.moved(1).clamped());
    assert(s.after_event(press(KeyCode::Down)) == s.moved(1).clamped());
    assert(s.after_event(hit('k')) == s.moved(-1).clamped());
    assert(s.after_event(press(KeyCode::Up)) == s.moved(-1).clamped());
}

/// Control-D and Page Down go down by half the height of the view, at least one
/// row, and Control-U and Page Up go up by as much, as far as there are rows.
pub proof fn law_half_pages(s: ViewerState)
    requires
        is_idle(s),
        s.rows.len() > 0,
    ensures
        ({
            let half = if s.viewport.height < 2 {
                1
            } else {
                s.viewport.height as int / 2
            };
            let down = if s.cursor + half < s.rows.len() {
                s.cursor + half
            } else {
                s.rows.len() - 1
            };
            let up = if s.cursor > half {
                s.cursor - half
            } else {
                0
            };
            &&& put_on(s, s.after_event(control('d')), down)
            &&& put_on(s, s.after_event(press(KeyCode::PageDown)), down)
            &&& put_on(s, s.after_event(control('u')), up)
            &&& put_on(s, s.after_event(press(KeyCode::PageUp)), up)
        }),
{
    let half = s.half_page();
    lemma_moved(s, half);
    lemma_moved(s, -half);
    assert(s.key_taken() == s);
    assert(s.after_event(control('d')) == s.moved(half).clamped());
    assert(s.after_event(press(KeyCode::PageDown)) == s.moved(half).clamped());
    assert(s.after_event(control('u')) == s.moved(-half).clamped());
    assert(s.after_event(press(KeyCode::PageUp)) == s.moved(-half).clamped());
}

/// Moving by some rows.
proof fn lemma_moved(s: ViewerState, delta: int)
    requires
        is_idle(s),
        s.rows.len() > 0,
    ensures
        put_on(
            s,
            s.moved(delta).clamped(),
            if s.cursor + delta < 0 {
                0
            } else if s.cursor + delta < s.rows.len() {
                s.cursor + delta
            } else {
                s.rows.len() - 1
            },
        ),
{
    let moved = s.moved(delta);
    lemma_end_of_row(moved);
}

/// Keeping the column within the line puts the cursor on its row.
pub proof fn lemma_clamped(s: ViewerState, row: int)
    requires
        0 <= row < s.rows.len(),
    ensures
        put_on(s, (ViewerState { cursor: row, ..s }).clamped(), row),
{
    lemma_end_of_row(ViewerState { cursor: row, ..s });
}

/// The last column on the row of the cursor.
pub proof fn lemma_end_of_row(s: ViewerState)
    requires
        0 <= s.cursor < s.rows.len(),
    ensures
        s.last_col() == end_of_row(s, s.cursor),
        s.cursor_line() == line_on(s, s.cursor),
{
}

/// `gg` and Home go to the first row, `ge`, `G` and End to the last.
pub proof fn law_first_and_last_row(s: ViewerState)
    requires
        is_idle(s),
        s.rows.len() > 0,
    ensures
        put_on(s, then_hit(s, 'g', 'g'), 0),
        put_on(s, s.after_event(press(KeyCode::Home)), 0),
        put_on(s, then_hit(s, 'g', 'e'), s.rows.len() - 1),
        put_on(s, s.after_event(hit('G')), s.rows.len() - 1),
        put_on(s, s.after_event(press(KeyCode::End)), s.rows.len() - 1),
{
    lemma_end_of_row(ViewerState { cursor: 0, ..s });
    lemma_end_of_row(ViewerState { cursor: s.rows.len() - 1, ..s });
    lemma_after_prefix(s, 'g', 'g');
    lemma_after_prefix(s, 'g', 'e');
    assert(s.key_taken() == s);
    let first = (ViewerState { cursor: 0, ..s }).clamped();
    let last = (ViewerState { cursor: s.rows.len() - 1, ..s }).clamped();
    assert(then_hit(s, 'g', 'g') == first);
    assert(s.after_event(press(KeyCode::Home)) == first);
    assert(then_hit(s, 'g', 'e') == last);
    assert(s.after_event(hit('G')) == last);
    assert(s.after_event(press(KeyCode::End)) == last);
}

/// `h` and the Left key go one character to the left, `l` and the Right key one
/// to the right, as far as the line goes. `gh` goes to the start of the line,
/// `gl` to its end.
pub proof fn law_left_and_right(s: ViewerState)
    requires
        is_idle(s),
        s.rows.len() > 0,
        s.cursor_col <= end_of_row(s, s.cursor),
    ensures
        ({
            let end = end_of_row(s, s.cursor);
            let left = if s.cursor_col > 0 {
                s.cursor_col - 1
            } else {
                0
            };
            let right = if s.cursor_col < end {
                s.cursor_col + 1
            } else {
                end
            };
            &&& put_at(s, s.after_event(hit('h')), left)
            &&& put_at(s, s.after_event(press(KeyCode::Left)), left)
            &&& put_at(s, s.after_event(hit('l')), right)
            &&& put_at(s, s.after_event(press(KeyCode::Right)), right)
            &&& put_at(s, then_hit(s, 'g', 'h'), 0)
            &&& put_at(s, then_hit(s, 'g', 'l'), end)
        }),
{
    lemma_end_of_row(s);
    assert(s.key_taken() == s);
    assert(s.after_event(hit('h')) == s.moved_col(-1));
    assert(s.after_event(press(KeyCode::Left)) == s.moved_col(-1));
    assert(s.after_event(hit('l')) == s.moved_col(1));
    assert(s.after_event(press(KeyCode::Right)) == s.moved_col(1));
    lemma_after_prefix(s, 'g', 'h');
    lemma_after_prefix(s, 'g', 'l');
}

/// The key after a prefix key is carried out in the state before both.
proof fn lemma_after_prefix(s: ViewerState, prefix: char, c: char)
    requires
        is_idle(s),
        prefix == 'g' || prefix == 'z' || prefix == ']' || prefix == '[',
    ensures
        then_hit(s, prefix, c) == s.after(input::prefixed_char_command(prefix, c)),
{
    let between = s.after_event(hit(prefix));
    assert(between == (ViewerState { pending: Some(prefix), ..s }));
    assert(between.key_taken() == s);
}

/// A column behind the end of the line counts as one behind its last character
/// when moving to the left or to the right.
pub proof fn law_moving_from_behind_the_line(s: ViewerState)
    requires
        is_idle(s),
        s.rows.len() > 0,
        s.cursor_col > end_of_row(s, s.cursor),
    ensures
        put_at(s, s.after_event(hit('h')), end_of_row(s, s.cursor)),
        put_at(s, s.after_event(hit('l')), end_of_row(s, s.cursor)),
        put_at(s, then_hit(s, 'g', 'h'), 0),
        put_at(s, then_hit(s, 'g', 'l'), end_of_row(s, s.cursor)),
{
    lemma_end_of_row(s);
    assert(s.key_taken() == s);
    assert(s.after_event(hit('h')) == s.moved_col(-1));
    assert(s.after_event(hit('l')) == s.moved_col(1));
    lemma_after_prefix(s, 'g', 'h');
    lemma_after_prefix(s, 'g', 'l');
}

/// `gs` goes to the first character of the line that is not white space; to the
/// start if there is none.
pub proof fn law_first_non_blank(s: ViewerState, line: Seq<char>)
    requires
        is_idle(s),
        s.rows.len() > 0,
        line_on(s, s.cursor) == Some(line),
    ensures
        ({
            let after = then_hit(s, 'g', 's');
            let col = after.cursor_col;
            &&& put_at(s, after, col)
            &&& 0 <= col
            &&& col < line.len() || col == 0
            &&& forall|j: int| 0 <= j < col ==> text::unicode_whitespace(#[trigger] line[j])
            &&& (exists|j: int| 0 <= j < line.len() && !text::unicode_whitespace(#[trigger] line[j]))
                ==> !text::unicode_whitespace(line[col])
        }),
{
    lemma_end_of_row(s);
    lemma_after_prefix(s, 'g', 's');
    lemma_first_non_blank(line, 0);
}

proof fn lemma_first_non_blank(line: Seq<char>, k: int)
    requires
        0 <= k <= line.len(),
        forall|j: int| 0 <= j < k ==> text::unicode_whitespace(#[trigger] line[j]),
    ensures
        ({
            let col = state::first_non_blank(line, k);
            &&& 0 <= col
            &&& col < line.len() || col == 0
            &&& forall|j: int| 0 <= j < col ==> text::unicode_whitespace(#[trigger] line[j])
            &&& (exists|j: int| 0 <= j < line.len() && !text::unicode_whitespace(#[trigger] line[j]))
                ==> !text::unicode_whitespace(line[col])
        }),
    decreases line.len() - k,
{
    if k < line.len() && text::unicode_whitespace(line[k]) {
        lemma_first_non_blank(line, k + 1);
    }
}

/// A word starts at a character: it is a letter, a digit or an underscore, and
/// the one before it is not.
pub open spec fn word_begins(line: Seq<char>, j: int) -> bool {
    &&& 0 <= j < line.len()
    &&& text::unicode_alphanumeric(line[j]) || line[j] == '_'
    &&& j > 0 ==> !(text::unicode_alphanumeric(line[j - 1]) || line[j - 1] == '_')
}

/// `w` goes to the next start of a word, or to the end of the line if there is
/// none. `b` goes to the start of a word before the cursor, the nearest one, or
/// to the start of the line if there is none.
pub proof fn law_words(s: ViewerState, line: Seq<char>)
    requires
        is_idle(s),
        s.rows.len() > 0,
        line_on(s, s.cursor) == Some(line),
        s.cursor_col < line.len(),
    ensures
        ({
            let col = s.cursor_col;
            let next = s.after_event(hit('w'));
            let back = s.after_event(hit('b'));
            let r = next.cursor_col;
            let l = back.cursor_col;
            &&& put_at(s, next, r)
            &&& forall|j: int| col < j < r ==> !#[trigger] word_begins(line, j)
            &&& col < r && word_begins(line, r) || r == line.len() - 1
            &&& put_at(s, back, l)
            &&& forall|j: int| l < j < col ==> !#[trigger] word_begins(line, j)
            &&& l < col && word_begins(line, l) || l == 0
        }),
{
    lemma_end_of_row(s);
    assert(s.key_taken() == s);
    assert(s.after_event(hit('w')) == s.moved_word(true));
    assert(s.after_event(hit('b')) == s.moved_word(false));
    let col = s.cursor_col;
    let from = if state::is_word(line[col]) {
        state::next_char(line, col, false)
    } else {
        col + 1
    };
    lemma_next_char(line, col, false);
    lemma_next_char(line, from, true);
    let k = if col - 1 > 0 {
        col - 1
    } else {
        0
    };
    lemma_previous_word_char(line, k);
    let at = state::previous_word_char(line, k);
    lemma_word_start(line, at);
}

proof fn lemma_next_char(line: Seq<char>, k: int, in_word: bool)
    requires
        0 <= k <= line.len(),
    ensures
        ({
            let r = state::next_char(line, k, in_word);
            &&& k <= r <= line.len()
            &&& forall|j: int| k <= j < r ==> state::is_word(#[trigger] line[j]) != in_word
            &&& r < line.len() ==> state::is_word(line[r]) == in_word
        }),
    decreases line.len() - k,
{
    if k < line.len() && state::is_word(line[k]) != in_word {
        lemma_next_char(line, k + 1, in_word);
    }
}

proof fn lemma_previous_word_char(line: Seq<char>, k: int)
    requires
        0 <= k < line.len(),
    ensures
        ({
            let r = state::previous_word_char(line, k);
            &&& 0 <= r <= k
            &&& forall|j: int| r < j <= k ==> !state::is_word(#[trigger] line[j])
            &&& r > 0 ==> state::is_word(line[r])
        }),
    decreases k,
{
    if k > 0 && !state::is_word(line[k]) {
        lemma_previous_word_char(line, k - 1);
    }
}

proof fn lemma_word_start(line: Seq<char>, k: int)
    requires
        0 <= k < line.len(),
    ensures
        ({
            let r = state::word_start(line, k);
            &&& 0 <= r <= k
            &&& forall|j: int| r <= j < k ==> state::is_word(#[trigger] line[j])
            &&& r > 0 ==> !state::is_word(line[r - 1])
        }),
    decreases k,
{
    if k > 0 && state::is_word(line[k - 1]) {
        lemma_word_start(line, k - 1);
    }
}

/// The cursor is put on the nearest header of a sort behind it, if there is
/// one; else nothing changes.
pub open spec fn goes_forward(
    s: ViewerState,
    after: ViewerState,
    is_header: spec_fn(Row) -> bool,
) -> bool {
    let k = after.cursor;
    &&& after == (ViewerState { cursor: k, ..s })
    &&& s.cursor <= k
    &&& forall|j: int| s.cursor < j < s.rows.len() && (k == s.cursor || j < k) ==> !is_header(
        #[trigger] s.rows[j],
    )
    &&& k != s.cursor ==> k < s.rows.len() && is_header(s.rows[k])
}

/// The cursor is put on the nearest header of a sort before it, if there is
/// one; else nothing changes.
pub open spec fn goes_back(
    s: ViewerState,
    after: ViewerState,
    is_header: spec_fn(Row) -> bool,
) -> bool {
    let k = after.cursor;
    &&& after == (ViewerState { cursor: k, ..s })
    &&& 0 <= k <= s.cursor
    &&& forall|j: int| 0 <= j < s.cursor && (k == s.cursor || k < j) ==> !is_header(
        #[trigger] s.rows[j],
    )
    &&& k != s.cursor ==> is_header(s.rows[k])
}

/// `n` and `]c` go to the next hunk, `p` and `[c` to the previous one. Tab and
/// `]f` go to the next file, Shift-Tab and `[f` to the previous one.
pub proof fn law_next_and_previous(s: ViewerState)
    requires
        is_idle(s),
    ensures
        ({
            let hunk = |row: Row| row is HunkHeader;
            let file = |row: Row| row is FileHeader;
            &&& goes_forward(s, s.after_event(hit('n')), hunk)
            &&& goes_forward(s, then_hit(s, ']', 'c'), hunk)
            &&& goes_back(s, s.after_event(hit('p')), hunk)
            &&& goes_back(s, then_hit(s, '[', 'c'), hunk)
            &&& goes_forward(s, s.after_event(press(KeyCode::Tab)), file)
            &&& goes_forward(s, then_hit(s, ']', 'f'), file)
            &&& goes_back(s, s.after_event(shift_tab()), file)
            &&& goes_back(s, then_hit(s, '[', 'f'), file)
        }),
{
    lemma_stops(s, Stop::Hunk);
    lemma_stops(s, Stop::File);
    lemma_after_prefix(s, ']', 'c');
    lemma_after_prefix(s, '[', 'c');
    lemma_after_prefix(s, ']', 'f');
    lemma_after_prefix(s, '[', 'f');
    assert(s.key_taken() == s);
    assert(s.after_event(hit('n')) == s.jumped(true, Stop::Hunk));
    assert(s.after_event(hit('p')) == s.jumped(false, Stop::Hunk));
    assert(s.after_event(press(KeyCode::Tab)) == s.jumped(true, Stop::File));
    assert(s.after_event(shift_tab()) == s.jumped(false, Stop::File));
}

proof fn lemma_stops(s: ViewerState, stop: Stop)
    requires
        s.wf(),
    ensures
        ({
            let is_header = |row: Row| state::is_stop(row, stop);
            &&& goes_forward(s, s.jumped(true, stop), is_header)
            &&& goes_back(s, s.jumped(false, stop), is_header)
        }),
{
    lemma_stop_after(s.rows, s.cursor + 1, stop);
    if s.rows.len() > 0 {
        lemma_stop_before(s.rows, s.cursor - 1, stop);
    }
}

proof fn lemma_stop_after(rows: Seq<Row>, k: int, stop: Stop)
    requires
        0 <= k,
    ensures
        match state::stop_after(rows, k, stop) {
            Some(r) => {
                &&& k <= r < rows.len()
                &&& state::is_stop(rows[r], stop)
                &&& forall|j: int| k <= j < r ==> !state::is_stop(#[trigger] rows[j], stop)
            },
            None => forall|j: int|
                k <= j < rows.len() ==> !state::is_stop(#[trigger] rows[j], stop),
        },
    decreases rows.len() - k,
{
    if k < rows.len() && !state::is_stop(rows[k], stop) {
        lemma_stop_after(rows, k + 1, stop);
    }
}

proof fn lemma_stop_before(rows: Seq<Row>, k: int, stop: Stop)
    requires
        k < rows.len(),
    ensures
        match state::stop_before(rows, k, stop) {
            Some(r) => {
                &&& 0 <= r <= k
                &&& state::is_stop(rows[r], stop)
                &&& forall|j: int| r < j <= k ==> !state::is_stop(#[trigger] rows[j], stop)
            },
            None => forall|j: int|
                0 <= j <= k ==> !state::is_stop(#[trigger] rows[j], stop),
        },
    decreases k + 1,
{
    if k >= 0 && !state::is_stop(rows[k], stop) {
        lemma_stop_before(rows, k - 1, stop);
    }
}

/// `zz` scrolls so that half the height of the view is above the cursor, as far
/// as there are rows above it.
pub proof fn law_center(s: ViewerState)
    requires
        is_idle(s),
    ensures
        then_hit(s, 'z', 'z') == (ViewerState {
            scroll: if s.cursor < s.viewport.height as int / 2 {
                0
            } else {
                s.cursor - s.viewport.height as int / 2
            },
            ..s
        }),
{
}

/// `?` shows the help, and any key closes it without doing anything else.
pub proof fn law_help_key(s: ViewerState, key: KeyEvent)
    requires
        is_idle(s),
    ensures
        s.after_event(hit('?')) == (ViewerState { show_help: true, ..s }),
        s.after_event(hit('?')).after_event(Event::Key(key)) == s,
        s.after_event(hit('?')).event_reaction(Event::Key(key)) is Consumed,
{
}

/// In an empty viewer there is nothing to move between.
pub proof fn law_nothing_moves_without_rows(s: ViewerState)
    requires
        is_idle(s),
        s.rows.len() == 0,
        s.cursor_col == 0,
    ensures
        s.after_event(hit('j')) == s,
        s.after_event(hit('k')) == s,
        s.after_event(hit('n')) == s,
        s.after_event(hit('p')) == s,
        s.after_event(control('d')) == s,
        s.after_event(control('u')) == s,
        s.after_event(hit('G')) == s,
        then_hit(s, 'g', 'g') == s,
        s.after_event(hit('h')) == s,
        s.after_event(hit('l')) == s,
        s.after_event(hit('w')) == s,
        s.after_event(hit('b')) == s,
{
}

/// A prefix key is remembered for the next key, and nothing else happens.
pub proof fn law_prefix_keys(s: ViewerState, c: char)
    requires
        is_idle(s),
        c == 'g' || c == 'z' || c == ']' || c == '[',
    ensures
        s.after_event(hit(c)) == (ViewerState { pending: Some(c), ..s }),
        s.event_reaction(hit(c)) is Consumed,
{
}

/// A key that means nothing after a prefix key only ends the wait for it.
pub proof fn law_other_keys_after_prefix(s: ViewerState, prefix: char, c: char)
    requires
        is_idle(s),
        match prefix {
            'g' => c != 'g' && c != 'e' && c != 'h' && c != 'l' && c != 's' && c != 'd' && c != 'r'
                && c != 'y',
            'z' => c != 'a' && c != 'M' && c != 'R' && c != 'z',
            ']' => c != 'c' && c != 'f',
            '[' => c != 'c' && c != 'f',
            _ => false,
        },
    ensures
        then_hit(s, prefix, c) == s,
        s.after_event(hit(prefix)).event_reaction(hit(c)) is Consumed,
{
    lemma_after_prefix(s, prefix, c);
}

/// Shift makes no difference on character keys.
pub proof fn law_shift_on_characters(s: ViewerState, c: char, control: bool, alt: bool, meta: bool)
    ensures
        ({
            let key = |shift: bool|
                Event::Key(
                    KeyEvent {
                        code: KeyCode::Char(c),
                        modifiers: KeyModifiers { shift, control, alt, meta },
                    },
                );
            &&& s.after_event(key(true)) == s.after_event(key(false))
            &&& s.event_reaction(key(true)) == s.event_reaction(key(false))
        }),
{
}

/// Keys that mean nothing do nothing: those with Alt or Meta, those with Control
/// except Control-C, -D, -U, -S and -V, Shift with other named keys than Tab, and
/// characters that are not mentioned in the help.
pub proof fn law_other_keys(s: ViewerState, key: KeyEvent)
    requires
        is_idle(s),
        ({
            ||| key.modifiers.alt
            ||| key.modifiers.meta
            ||| key.modifiers.control && (key.code matches KeyCode::Char(c) ==> c != 'c' && c != 'd'
                && c != 'u' && c != 's' && c != 'v')
            ||| key.modifiers.shift && !(key.code is Char) && !(key.code is Tab)
            ||| key.code is Other
            ||| !key.modifiers.control && (key.code matches KeyCode::Char(c) && c != 'q' && c != '?'
                && c != 'j' && c != 'k' && c != 'h' && c != 'l' && c != 'w' && c != 'b' && c != 'G'
                && c != 'g' && c != 'z' && c != ']' && c != '[' && c != 'n' && c != 'p' && c != '+'
                && c != '=' && c != 's' && c != 'W' && c != 'r')
        }),
    ensures
        s.after_event(Event::Key(key)) == s,
        s.event_reaction(Event::Key(key)) is Consumed,
{
    assert(s.key_taken() == s);
    assert(s.command(key) is Nothing);
}

} // verus!
