//! The frame around the diff rows: header, footer, cursor, scrollbar and help.

use crate::align::NO_LINE;
use crate::columns;
use crate::file_diff::{self, FileView};
use crate::geometry::{capped, Rect};
use crate::render::{self, PlanView, RowPlan};
use crate::rows::{self, Row};
use crate::state::{self, ViewerState};
use crate::state_laws;
use crate::text;
use crate::viewer::DiffViewer;
use vstd::math;
use vstd::prelude::*;
use vstd::string::*;

verus! {

/// Columns of the header that are kept free for the help hint.
pub const HINT_ROOM: u16 = 8;

/// Columns of the help hint.
pub const HINT_WIDTH: u16 = 7;

/// Most columns of the help popup.
pub const HELP_WIDTH: u16 = 58;

/// The additions of the first `n` files.
pub open spec fn total_additions(files: Seq<FileView>, n: int) -> int
    decreases n,
{
    if n <= 0 {
        0
    } else {
        total_additions(files, n - 1) + files[n - 1].additions
    }
}

/// The deletions of the first `n` files.
pub open spec fn total_deletions(files: Seq<FileView>, n: int) -> int
    decreases n,
{
    if n <= 0 {
        0
    } else {
        total_deletions(files, n - 1) + files[n - 1].deletions
    }
}

/// What is compared with what.
pub open spec fn base_label(rev: Option<Seq<char>>) -> Seq<char> {
    match rev {
        Some(rev) => rev + "...working tree"@,
        None => "HEAD → working tree"@,
    }
}

/// The header: how much changed, against what, and how it is shown.
pub open spec fn header_label(s: ViewerState) -> Seq<char> {
    let n = s.files.len();
    " "@ + text::decimal(n) + " changed file"@ + (if n == 1 {
        ""@
    } else {
        "s"@
    }) + " with "@ + text::decimal(total_additions(s.files, n as int) as nat) + " additions and "@
        + text::decimal(total_deletions(s.files, n as int) as nat) + " deletions • "@ + base_label(
        s.rev,
    ) + " • "@ + (if s.split {
        "split"@
    } else {
        "unified"@
    }) + " view"@ + (if s.ignore_whitespace {
        " • ignoring whitespace"@
    } else {
        ""@
    })
}

/// The footer: the most important keys.
pub fn footer() -> (r: &'static str)
    ensures
        r@
            == " enter open  gd/gr/gy goto  n/p hunk  tab/S-tab file  za fold  +/= expand  s split  W whitespace  r reload  q quit"@,
{
    " enter open  gd/gr/gy goto  n/p hunk  tab/S-tab file  za fold  +/= expand  s split  W whitespace  r reload  q quit"
}

/// The hint at the right end of the header.
pub fn help_hint() -> (r: &'static str)
    ensures
        r@ == "? help "@,
        r@.len() == HINT_WIDTH,
{
    proof {
        reveal_strlit("? help ");
    }
    "? help "
}

/// The columns that the header text may take.
pub fn header_room(area: Rect) -> (r: u16)
    ensures
        r == math::max(area.width - HINT_ROOM, 0),
{
    area.width.saturating_sub(HINT_ROOM)
}

/// The column of the help hint: at the right end of the header, if there is
/// room for it.
pub fn hint_column(area: Rect) -> (r: Option<u16>)
    ensures
        match r {
            Some(x) => area.width > HINT_WIDTH && x == area.right_edge() - HINT_WIDTH,
            None => area.width <= HINT_WIDTH,
        },
{
    if area.width > HINT_WIDTH {
        Some(area.right() - HINT_WIDTH)
    } else {
        None
    }
}

/// The row of the footer: the last one of the area.
pub fn footer_row(area: Rect) -> (y: u16)
    requires
        area.height > 0,
    ensures
        y == area.bottom_edge() - 1,
{
    area.bottom() - 1
}

/// The width of one pane of the side-by-side view.
pub open spec fn pane(total: int) -> int {
    math::max(total - 1, 0) / 2
}

/// The width of one pane of the side-by-side view.
pub fn pane_width(total: u16) -> (r: u16)
    ensures
        r == pane(total as int),
{
    total.saturating_sub(1) / 2
}

/// The columns of the side-by-side view.
#[derive(Debug, Clone, Copy, PartialEq, Eq, Structural)]
pub struct PaneColumns {
    /// Where the old side begins.
    pub left: u16,
    pub separator: u16,
    /// Where the new side begins.
    pub right: u16,
    /// The width of each side.
    pub width: u16,
}

/// The columns of the side-by-side view in an area.
pub fn pane_columns(inner: Rect) -> (r: PaneColumns)
    requires
        inner.x + pane(inner.width as int) + 1 <= u16::MAX,
    ensures
        r.left == inner.x,
        r.separator == inner.x + pane(inner.width as int),
        r.right == r.separator + 1,
        r.width == pane(inner.width as int),
{
    let width = pane_width(inner.width);
    PaneColumns { left: inner.x, separator: inner.x + width, right: inner.x + width + 1, width }
}

/// The columns that are left from a column on, in a part of a row that begins
/// at `x`.
pub open spec fn room(x: u16, width: u16, from: int) -> int {
    math::max(capped(x, width) - from, 0)
}

/// The columns that are left for code that starts at `text_x`, behind the
/// gutter, in a part of a row that begins at `x`.
pub fn code_room(x: u16, width: u16, text_x: u16) -> (r: u16)
    ensures
        r == room(x, width, text_x as int),
{
    x.saturating_add(width).saturating_sub(text_x)
}

/// The column of the cell cursor on the row under the cursor, if it is in view:
/// that of the character that the cursor is on, behind the gutter. In the
/// side-by-side view it is in the new side where that has a line.
pub open spec fn cursor_cell(s: ViewerState, inner: Rect) -> Option<int> {
    match (s.current_row(), s.cursor_vcol()) {
        (Some(row), Some(vcol)) => {
            let on_right = match row {
                Row::SplitLine { file, left, right } => right != NO_LINE,
                _ => true,
            };
            let text_x = if !s.split {
                inner.x + 2 * s.num_width + 4
            } else if on_right {
                inner.x + pane(inner.width as int) + 1 + s.num_width + 3
            } else {
                inner.x + s.num_width + 3
            };
            let x = text_x + vcol - s.h_scroll;
            if vcol >= s.h_scroll && x < inner.right_edge() {
                Some(x)
            } else {
                None
            }
        },
        _ => None,
    }
}

/// The scrollbar of a viewport of some height: where its thumb begins, counted
/// from the top of the viewport, and how long the thumb is. None if all rows
/// are in view.
pub open spec fn thumb(rows: int, height: int, scroll: int) -> Option<(int, int)> {
    if rows <= height {
        None
    } else {
        let len = math::max((height * height) / rows, 1);
        Some(((scroll * math::max(height - len, 0)) / (rows - height), math::min(len, height)))
    }
}

/// The rows in view, from the first.
pub open spec fn rows_in_view(s: ViewerState, height: int) -> Seq<Row> {
    s.rows.subrange(
        math::min(s.scroll, s.rows.len() as int),
        math::min(s.scroll + height, s.rows.len() as int),
    )
}

/// One frame, ready to be drawn.
pub struct Frame {
    pub header: String,
    /// The viewport: everything but the header and the footer.
    pub inner: Rect,
    /// What is drawn for the rows in view, from the top.
    pub rows: Vec<RowPlan>,
    /// The row under the cursor, counted from the top.
    pub cursor_row: Option<usize>,
    /// The column of the cell cursor.
    pub cursor_cell: Option<u16>,
    /// The start of the scrollbar's thumb, counted from the top, and its
    /// length.
    pub thumb: Option<(usize, usize)>,
    pub show_help: bool,
}

/// One frame.
#[verifier::ext_equal]
pub struct FrameView {
    pub header: Seq<char>,
    pub inner: Rect,
    pub rows: Seq<PlanView>,
    pub cursor_row: Option<int>,
    pub cursor_cell: Option<int>,
    pub thumb: Option<(int, int)>,
    pub show_help: bool,
}

impl View for Frame {
    type V = FrameView;

    open spec fn view(&self) -> FrameView {
        FrameView {
            header: self.header@,
            inner: self.inner,
            rows: self.rows@.map_values(|r: RowPlan| r@),
            cursor_row: match self.cursor_row {
                Some(k) => Some(k as int),
                None => None,
            },
            cursor_cell: match self.cursor_cell {
                Some(x) => Some(x as int),
                None => None,
            },
            thumb: match self.thumb {
                Some((top, len)) => Some((top as int, len as int)),
                None => None,
            },
            show_help: self.show_help,
        }
    }
}

/// The frame of a viewer that is prepared to be drawn.
pub open spec fn frame_of(s: ViewerState) -> FrameView {
    let inner = s.viewport;
    let shown = rows_in_view(s, inner.height as int);
    FrameView {
        header: header_label(s),
        inner,
        rows: shown.map_values(|row: Row| render::row_plan(s.files, s.num_width, row)),
        cursor_row: if s.rows.len() == 0 {
            None
        } else {
            Some(s.cursor - s.scroll)
        },
        cursor_cell: cursor_cell(s, inner),
        thumb: thumb(s.rows.len() as int, inner.height as int, s.scroll),
        show_help: s.show_help,
    }
}

/// The header.
fn draw_header(viewer: &DiffViewer) -> (out: String)
    requires
        viewer@.wf(),
    ensures
        out@ == header_label(viewer@),
{
    let files = viewer.files();
    let ghost views = viewer@.files;
    let mut added: u128 = 0;
    let mut deleted: u128 = 0;
    let mut i: usize = 0;
    while i < files.len()
        invariant
            views == file_diff::file_views(files@),
            i <= files@.len(),
            added == total_additions(views, i as int),
            deleted == total_deletions(views, i as int),
            added <= i * 0x1_0000_0000_0000_0000,
            deleted <= i * 0x1_0000_0000_0000_0000,
        decreases files@.len() - i,
    {
        assert(views[i as int] == files@[i as int]@);
        added += files[i].additions as u128;
        deleted += files[i].deletions as u128;
        i += 1;
    }
    let mut out = " ".to_owned();
    render::append_number(&mut out, files.len() as u128);
    out.append(" changed file");
    out.append(if files.len() == 1 { "" } else { "s" });
    out.append(" with ");
    render::append_number(&mut out, added);
    out.append(" additions and ");
    render::append_number(&mut out, deleted);
    out.append(" deletions • ");
    let ghost before_base = out@;
    match viewer.rev() {
        Some(rev) => {
            out.append(rev.as_str());
            out.append("...working tree");
        },
        None => out.append("HEAD → working tree"),
    }
    assert(out@ =~= before_base + base_label(viewer@.rev));
    out.append(" • ");
    out.append(if viewer.is_split() { "split" } else { "unified" });
    out.append(" view");
    out.append(if viewer.ignores_whitespace() { " • ignoring whitespace" } else { "" });
    out
}

/// The column of the cell cursor.
fn draw_cell_cursor(viewer: &DiffViewer, inner: Rect) -> (r: Option<u16>)
    requires
        viewer@.wf(),
    ensures
        match r {
            Some(x) => cursor_cell(viewer@, inner) == Some(x as int),
            None => cursor_cell(viewer@, inner) is None,
        },
{
    proof {
        state_laws::lemma_gutter_bound(viewer@.files);
        state_laws::lemma_target(viewer@);
    }
    let vcol = match viewer.line_under_cursor() {
        Some(line) => columns::visual_col(line, viewer.cursor_col()),
        None => {
            return None;
        },
    };
    let row = match viewer.current_row() {
        Some(row) => row,
        None => {
            return None;
        },
    };
    if vcol < viewer.h_scroll() {
        return None;
    }
    let on_right = match row {
        Row::SplitLine { file: _, left: _, right } => right != NO_LINE,
        _ => true,
    };
    let w: u128 = viewer.num_width() as u128;
    let text_x: u128 = if !viewer.is_split() {
        inner.x as u128 + 2 * w + 4
    } else if on_right {
        inner.x as u128 + pane_width(inner.width) as u128 + 1 + w + 3
    } else {
        inner.x as u128 + w + 3
    };
    let x: u128 = text_x + (vcol - viewer.h_scroll()) as u128;
    if x < inner.right() as u128 {
        Some(x as u16)
    } else {
        None
    }
}

/// The thumb of the scrollbar.
pub fn draw_scrollbar(rows: usize, height: u16, scroll: usize) -> (r: Option<(usize, usize)>)
    requires
        rows <= 0 || scroll < rows,
    ensures
        match r {
            Some((top, len)) => thumb(rows as int, height as int, scroll as int) == Some(
                (top as int, len as int),
            ),
            None => thumb(rows as int, height as int, scroll as int) is None,
        },
{
    if rows <= height as usize {
        return None;
    }
    let h: u128 = height as u128;
    let n: u128 = rows as u128;
    proof {
        assert(h * h <= 0xffff * 0xffff) by (nonlinear_arith)
            requires
                0 <= h <= 0xffff,
        ;
    }
    let share: u128 = (h * h) / n;
    let len: u128 = if share < 1 {
        1
    } else {
        share
    };
    let rest: u128 = if h < len {
        0
    } else {
        h - len
    };
    proof {
        assert(scroll * rest <= scroll * 0xffff) by (nonlinear_arith)
            requires
                0 <= rest <= 0xffff,
                0 <= scroll,
        ;
    }
    let top: u128 = (scroll as u128 * rest) / (n - h);
    proof {
        lemma_thumb_fits(n as int, h as int, scroll as int, len as int, rest as int);
    }
    let shown: u128 = if len < h {
        len
    } else {
        h
    };
    Some((top as usize, shown as usize))
}

/// The thumb begins at most one row further down than twice the height.
proof fn lemma_thumb_fits(n: int, h: int, scroll: int, len: int, rest: int)
    requires
        0 <= h < n,
        0 <= scroll < n,
        len == math::max((h * h) / n, 1),
        rest == math::max(h - len, 0),
    ensures
        0 <= (scroll * rest) / (n - h) <= 2 * h + 1,
{
    let q = (h * h) / n;
    assert(h * h < n * (q + 1) && 0 <= q <= h) by (nonlinear_arith)
        requires
            0 <= h < n,
            q == (h * h) / n,
    ;
    assert(rest <= h - q);
    assert(scroll * rest <= (2 * h + 1) * (n - h)) by (nonlinear_arith)
        requires
            0 <= h < n,
            0 <= scroll < n,
            0 <= rest <= h - q,
            h * h < n * (q + 1),
    {
        assert(scroll * rest <= n * rest);
        assert(n * rest <= n * (h - q));
        assert(n * (h - q) <= n * h - h * h + n);
        assert(n * h - h * h == h * (n - h));
        assert(h <= h * (n - h));
    }
    assert(0 <= scroll * rest) by (nonlinear_arith)
        requires
            0 <= scroll,
            0 <= rest,
    ;
    let a = scroll * rest;
    let m = n - h;
    let k = 2 * h + 1;
    assert(0 <= a / m <= k) by (nonlinear_arith)
        requires
            0 <= a <= k * m,
            0 < m,
    ;
}

/// What is drawn for the rows in view.
fn draw_rows(viewer: &DiffViewer, height: u16) -> (plans: Vec<RowPlan>)
    requires
        viewer@.wf(),
    ensures
        plans@.map_values(|r: RowPlan| r@) == rows_in_view(viewer@, height as int).map_values(
            |row: Row| render::row_plan(viewer@.files, viewer@.num_width, row),
        ),
{
    let files = viewer.files();
    let all = viewer.rows();
    let num_width = viewer.num_width();
    let ghost shown = rows_in_view(viewer@, height as int);
    proof {
        rows::law_rows_fit(viewer@.files, viewer@.split);
        assert forall|i: int| 0 <= i < files@.len() implies (#[trigger] files@[i])@.wf() by {
            assert(viewer@.files[i].wf());
        }
    }
    let n: usize = all.len();
    let first: usize = if viewer.scroll() < n {
        viewer.scroll()
    } else {
        n
    };
    let last: usize = if n - first < height as usize {
        n
    } else {
        first + height as usize
    };
    let mut plans: Vec<RowPlan> = Vec::new();
    let mut k: usize = first;
    while k < last
        invariant
            first <= k <= last <= n,
            n == all@.len(),
            all@ == viewer@.rows,
            shown == viewer@.rows.subrange(first as int, last as int),
            file_diff::file_views(files@) == viewer@.files,
            num_width == viewer@.num_width,
            forall|i: int| 0 <= i < files@.len() ==> (#[trigger] files@[i])@.wf(),
            forall|i: int| 0 <= i < all@.len() ==> rows::row_fits(#[trigger] all@[i], viewer@.files),
            plans@.len() == k - first,
            forall|i: int|
                0 <= i < plans@.len() ==> (#[trigger] plans@[i])@ == render::row_plan(
                    viewer@.files,
                    viewer@.num_width,
                    shown[i],
                ),
        decreases last - k,
    {
        assert(shown[k - first] == all@[k as int]);
        plans.push(render::draw_row(files, num_width, all[k]));
        k += 1;
    }
    assert(plans@.map_values(|r: RowPlan| r@) =~= shown.map_values(
        |row: Row| render::row_plan(viewer@.files, viewer@.num_width, row),
    ));
    plans
}

/// Prepares the viewer for an area of the screen and lays out the frame. None
/// if the area is too small.
pub fn render(viewer: &mut DiffViewer, area: Rect) -> (frame: Option<Frame>)
    requires
        old(viewer)@.wf(),
    ensures
        final(viewer)@.wf(),
        match frame {
            Some(frame) => {
                &&& !state::too_small(area)
                &&& final(viewer)@ == old(viewer)@.prepared(area)
                &&& frame@ == frame_of(final(viewer)@)
            },
            None => state::too_small(area) && final(viewer)@ == old(viewer)@,
        },
{
    let ghost before = viewer@;
    if !viewer.prepare(area) {
        return None;
    }
    proof {
        state_laws::law_cursor_is_in_view(before, area);
    }
    let inner = viewer.viewport();
    let n: usize = viewer.rows().len();
    let cursor_row: Option<usize> = if n == 0 {
        None
    } else {
        Some(viewer.cursor() - viewer.scroll())
    };
    let frame = Frame {
        header: draw_header(viewer),
        inner,
        rows: draw_rows(viewer, inner.height),
        cursor_row,
        cursor_cell: draw_cell_cursor(viewer, inner),
        thumb: draw_scrollbar(n, inner.height, viewer.scroll()),
        show_help: viewer.shows_help(),
    };
    assert(frame@ =~= frame_of(viewer@));
    Some(frame)
}

/// The keys and what they do, as the help shows them.
pub open spec fn help_table() -> Seq<(Seq<char>, Seq<char>)> {
    seq![
        ("j/k, ↑/↓"@, "move up/down"@),
        ("h/l, w/b"@, "move within line (word-wise: w/b)"@),
        ("gh/gl/gs"@, "line start / line end / first non-blank"@),
        ("gg/ge, G"@, "first / last row"@),
        ("C-d/C-u"@, "half page down/up"@),
        ("n/p, ]c/[c"@, "next/previous hunk"@),
        ("Tab/S-Tab, ]f/[f"@, "next/previous file"@),
        ("Enter"@, "open file at line (headers: fold/expand)"@),
        ("C-s/C-v"@, "open in horizontal/vertical split"@),
        ("gd/gr/gy"@, "goto definition/references/type-def"@),
        ("za"@, "fold/unfold current file"@),
        ("zM/zR"@, "fold/unfold all files"@),
        ("zz"@, "center cursor row"@),
        ("+/="@, "expand hidden context (step / all)"@),
        ("s"@, "toggle side-by-side view"@),
        ("W"@, "toggle ignore whitespace"@),
        ("r"@, "reload from disk"@),
        ("q/Esc"@, "close"@),
    ]
}

/// Entries of the help.
pub const HELP_LEN: u16 = 18;

/// One entry of the help.
pub struct HelpEntry {
    pub keys: &'static str,
    pub desc: &'static str,
}

/// The entries of the help.
pub open spec fn entry_texts(entries: Seq<HelpEntry>) -> Seq<(Seq<char>, Seq<char>)> {
    entries.map_values(|e: HelpEntry| (e.keys@, e.desc@))
}

fn entry(keys: &'static str, desc: &'static str) -> (e: HelpEntry)
    ensures
        e == (HelpEntry { keys, desc }),
{
    HelpEntry { keys, desc }
}

/// The keys and what they do, as the help shows them.
pub fn help_entries() -> (entries: Vec<HelpEntry>)
    ensures
        entry_texts(entries@) == help_table(),
        entries@.len() == HELP_LEN,
{
    let mut entries: Vec<HelpEntry> = Vec::new();
    entries.push(entry("j/k, ↑/↓", "move up/down"));
    entries.push(entry("h/l, w/b", "move within line (word-wise: w/b)"));
    entries.push(entry("gh/gl/gs", "line start / line end / first non-blank"));
    entries.push(entry("gg/ge, G", "first / last row"));
    entries.push(entry("C-d/C-u", "half page down/up"));
    entries.push(entry("n/p, ]c/[c", "next/previous hunk"));
    entries.push(entry("Tab/S-Tab, ]f/[f", "next/previous file"));
    entries.push(entry("Enter", "open file at line (headers: fold/expand)"));
    entries.push(entry("C-s/C-v", "open in horizontal/vertical split"));
    entries.push(entry("gd/gr/gy", "goto definition/references/type-def"));
    entries.push(entry("za", "fold/unfold current file"));
    entries.push(entry("zM/zR", "fold/unfold all files"));
    entries.push(entry("zz", "center cursor row"));
    entries.push(entry("+/=", "expand hidden context (step / all)"));
    entries.push(entry("s", "toggle side-by-side view"));
    entries.push(entry("W", "toggle ignore whitespace"));
    entries.push(entry("r", "reload from disk"));
    entries.push(entry("q/Esc", "close"));
    assert(entry_texts(entries@) =~= help_table());
    entries
}

/// The width of the help popup.
pub open spec fn popup_width(area: Rect) -> int {
    math::min(HELP_WIDTH as int, math::max(area.width - 2, 0))
}

/// The height of the help popup: there is room for all entries and a border if
/// there is that much in the area.
pub open spec fn popup_height(area: Rect) -> int {
    math::min(HELP_LEN + 2, math::max(area.height - 2, 0))
}

/// The area of the help popup: in the middle of the area.
pub open spec fn popup_area(area: Rect) -> Rect {
    let width = popup_width(area);
    let height = popup_height(area);
    Rect {
        x: (area.x + (area.width - width) / 2) as u16,
        y: (area.y + (area.height - height) / 2) as u16,
        width: width as u16,
        height: height as u16,
    }
}

/// The popup begins at a column and a row that there are.
pub open spec fn popup_fits(area: Rect) -> bool {
    &&& area.x + (area.width - popup_width(area)) / 2 <= u16::MAX
    &&& area.y + (area.height - popup_height(area)) / 2 <= u16::MAX
}

/// The size of the help popup.
fn help_size(area: Rect) -> (r: (u16, u16))
    ensures
        r.0 == popup_width(area),
        r.1 == popup_height(area),
{
    let room: u16 = area.width.saturating_sub(2);
    let width: u16 = if room < HELP_WIDTH {
        room
    } else {
        HELP_WIDTH
    };
    let rows: u16 = area.height.saturating_sub(2);
    let height: u16 = if rows < HELP_LEN + 2 {
        rows
    } else {
        HELP_LEN + 2
    };
    (width, height)
}

/// Whether the help popup begins at a column and a row that there are.
pub fn help_fits(area: Rect) -> (r: bool)
    ensures
        r == popup_fits(area),
{
    let (width, height) = help_size(area);
    (area.width - width) / 2 <= u16::MAX - area.x && (area.height - height) / 2 <= u16::MAX - area.y
}

/// The area of the help popup.
pub fn help_area(area: Rect) -> (popup: Rect)
    requires
        popup_fits(area),
    ensures
        popup == popup_area(area),
{
    let (width, height) = help_size(area);
    Rect::new(area.x + (area.width - width) / 2, area.y + (area.height - height) / 2, width, height)
}

/// Where one entry of the help is drawn.
#[derive(Debug, Clone, Copy, PartialEq, Eq, Structural)]
pub struct HelpLine {
    pub y: u16,
    pub keys_x: u16,
    pub keys_room: u16,
    pub desc_x: u16,
    pub desc_room: u16,
}

/// Where the entries of the help are drawn inside the border of the popup: one
/// below the other, as many as there is room for, the keys in a column of
/// their own.
pub open spec fn help_layout(inner: Rect) -> Seq<HelpLine> {
    Seq::new(
        math::min(HELP_LEN as int, inner.height as int) as nat,
        |i: int|
            HelpLine {
                y: (inner.y + i) as u16,
                keys_x: (inner.x + 1) as u16,
                keys_room: math::max(inner.width - 1, 0) as u16,
                desc_x: (inner.x + 19) as u16,
                desc_room: math::max(inner.width - 20, 0) as u16,
            },
    )
}

/// Where the entries of the help are drawn inside the border of the popup.
pub fn draw_help(inner: Rect) -> (lines: Vec<HelpLine>)
    requires
        inner.x + 19 <= u16::MAX,
        inner.y + inner.height <= u16::MAX,
    ensures
        lines@ == help_layout(inner),
{
    let n: u16 = if inner.height < HELP_LEN {
        inner.height
    } else {
        HELP_LEN
    };
    let mut lines: Vec<HelpLine> = Vec::new();
    let mut i: u16 = 0;
    while i < n
        invariant
            i <= n <= inner.height,
            n == math::min(HELP_LEN as int, inner.height as int),
            inner.x + 19 <= u16::MAX,
            inner.y + inner.height <= u16::MAX,
            lines@ == help_layout(inner).take(i as int),
        decreases n - i,
    {
        lines.push(
            HelpLine {
                y: inner.y + i,
                keys_x: inner.x + 1,
                keys_room: inner.width.saturating_sub(1),
                desc_x: inner.x + 19,
                desc_room: inner.width.saturating_sub(20),
            },
        );
        i += 1;
        assert(lines@ =~= help_layout(inner).take(i as int));
    }
    assert(lines@ =~= help_layout(inner));
    lines
}

/// The popup lies within the area, and is in its middle: the margins on
/// opposite sides differ by at most one cell.
pub proof fn law_help_is_centered(area: Rect)
    requires
        area.x + area.width <= u16::MAX,
        area.y + area.height <= u16::MAX,
    ensures
        ({
            let popup = popup_area(area);
            let left = popup.x - area.x;
            let right = (area.x + area.width) - (popup.x + popup.width);
            let top = popup.y - area.y;
            let bottom = (area.y + area.height) - (popup.y + popup.height);
            &&& 0 <= left <= right <= left + 1
            &&& 0 <= top <= bottom <= top + 1
        }),
{
}

} // verus!
