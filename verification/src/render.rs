//! What the diff viewer draws.

use crate::align::{OpKind, NO_LINE};
use crate::align_laws;
use crate::file_diff::{self, FileDiff, FileStatus, FileView};
use crate::rows::{self, Row};
use crate::state;
use crate::text;
use crate::theme::{self, Role};
use std::ops::Range;
use vstd::prelude::*;
use vstd::string::*;

verus! {

/// How a piece of a file header is painted.
#[derive(Debug, Clone, Copy, PartialEq, Eq, Structural)]
pub enum Paint {
    /// In the style of the header.
    Header,
    /// In the style of a status, in bold, patched with that of the header.
    Status(FileStatus),
    /// In another style, patched with that of the header.
    Patched(Role),
}

/// A piece of a file header. The pieces follow each other from left to right.
pub struct Span {
    pub text: String,
    pub paint: Paint,
}

/// A piece of a file header.
pub struct SpanView {
    pub text: Seq<char>,
    pub paint: Paint,
}

impl View for Span {
    type V = SpanView;

    open spec fn view(&self) -> SpanView {
        SpanView { text: self.text@, paint: self.paint }
    }
}

/// A line of code with its gutter. The code starts right of the gutter; its
/// changed part is drawn reversed.
pub struct CodeLine {
    pub gutter: String,
    pub gutter_role: Role,
    pub role: Role,
    pub line: String,
    pub hl: Option<Range<usize>>,
}

/// A line of code with its gutter.
pub struct CodeView {
    pub gutter: Seq<char>,
    pub gutter_role: Role,
    pub role: Role,
    pub line: Seq<char>,
    pub hl: Option<Range<usize>>,
}

impl View for CodeLine {
    type V = CodeView;

    open spec fn view(&self) -> CodeView {
        CodeView {
            gutter: self.gutter@,
            gutter_role: self.gutter_role,
            role: self.role,
            line: self.line@,
            hl: self.hl,
        }
    }
}

/// What is drawn for one row.
pub enum RowPlan {
    /// A header bar with these pieces.
    Header(Vec<Span>),
    /// A text, so many columns from the left.
    Text { indent: u16, text: String, role: Role },
    /// A line of code across the whole width.
    Unified(CodeLine),
    /// The old side and the new side, with a separator between them.
    Split { left: Option<CodeLine>, right: Option<CodeLine> },
}

/// What is drawn for one row.
#[verifier::ext_equal]
pub enum PlanView {
    Header(Seq<SpanView>),
    Text { indent: u16, text: Seq<char>, role: Role },
    Unified(CodeView),
    Split { left: Option<CodeView>, right: Option<CodeView> },
}

/// An optional line of code.
pub open spec fn opt_code(code: Option<CodeLine>) -> Option<CodeView> {
    match code {
        Some(code) => Some(code@),
        None => None,
    }
}

impl View for RowPlan {
    type V = PlanView;

    open spec fn view(&self) -> PlanView {
        match *self {
            RowPlan::Header(spans) => PlanView::Header(spans@.map_values(|s: Span| s@)),
            RowPlan::Text { indent, text, role } => PlanView::Text { indent, text: text@, role },
            RowPlan::Unified(code) => PlanView::Unified(code@),
            RowPlan::Split { left, right } => PlanView::Split {
                left: opt_code(left),
                right: opt_code(right),
            },
        }
    }
}

/// The paths of a file header: a renamed file shows both.
pub open spec fn path_label(file: FileView) -> Seq<char> {
    match file.old_display_path {
        Some(old) => " "@ + old + " → "@ + file.display_path,
        None => " "@ + file.display_path,
    }
}

/// The pieces of a file header: fold arrow, status letter, paths and change
/// counts.
pub open spec fn header_spans(file: FileView) -> Seq<SpanView> {
    let start = seq![
        SpanView {
            text: if file.collapsed {
                " ▸ "@
            } else {
                " ▾ "@
            },
            paint: Paint::Header,
        },
        SpanView { text: file.status.letter_text(), paint: Paint::Status(file.status) },
        SpanView { text: path_label(file), paint: Paint::Header },
    ];
    start + if file.binary {
        seq![SpanView { text: "  BIN"@, paint: Paint::Header }]
    } else {
        seq![
            SpanView {
                text: "  +"@ + text::decimal(file.additions as nat),
                paint: Paint::Patched(Role::Plus),
            },
            SpanView {
                text: " -"@ + text::decimal(file.deletions as nat),
                paint: Paint::Patched(Role::Minus),
            },
        ]
    }
}

/// The text of a hunk header: `@@ -a,b +c,d @@` and how many lines are hidden
/// above it.
pub open spec fn hunk_label(file: FileView, hunk: int) -> Seq<char> {
    let range = file.hunks[hunk];
    let ops = file.ops.subrange(range.start as int, range.end as int);
    let old = file_diff::line_info(align_laws::old_side(ops));
    let new = file_diff::line_info(align_laws::new_side(ops));
    let label = "  @@ -"@ + text::decimal(old.0 as nat) + ","@ + text::decimal(old.1 as nat)
        + " +"@ + text::decimal(new.0 as nat) + ","@ + text::decimal(new.1 as nat) + " @@"@;
    if file.gap_above(hunk) > 0 {
        label + "  ⋯ "@ + text::decimal(file.gap_above(hunk) as nat)
            + " hidden lines (+ expand, = all)"@
    } else {
        label
    }
}

/// The text of the expander below the last hunk.
pub open spec fn tail_label(file: FileView) -> Seq<char> {
    "  ⋯ "@ + text::decimal(file.gap_below() as nat) + " hidden lines below (+ expand, = all)"@
}

/// A line number in the gutter, or blanks where there is no line.
pub open spec fn gutter_number(line: usize, width: int) -> Seq<char> {
    if line == NO_LINE {
        text::spaces(width as nat)
    } else {
        text::pad_left(text::decimal((line + 1) as nat), width as nat)
    }
}

/// A line of the unified view: both line numbers, the marker and the text.
pub open spec fn unified_code(file: FileView, op: int, width: int) -> CodeView {
    let o = file.ops[op];
    CodeView {
        gutter: gutter_number(o.old, width) + " "@ + gutter_number(o.new, width) + " "@ + seq![
            theme::marker(o.kind),
        ] + " "@,
        gutter_role: theme::gutter_role(o.kind),
        role: theme::line_role(o.kind),
        line: state::op_text(file, op),
        hl: o.hl,
    }
}

/// One half of a line of the side-by-side view: the line number of its side,
/// the marker and the text. Nothing where there is no line.
pub open spec fn half_code(file: FileView, op: usize, old_side: bool, width: int) -> Option<
    CodeView,
> {
    let o = file.ops[op as int];
    let line = if old_side {
        o.old
    } else {
        o.new
    };
    if op == NO_LINE || line == NO_LINE {
        None
    } else {
        Some(
            CodeView {
                gutter: gutter_number(line, width) + " "@ + seq![theme::marker(o.kind)] + " "@,
                gutter_role: theme::gutter_role(o.kind),
                role: theme::line_role(o.kind),
                line: if old_side {
                    file.old_lines[line as int]
                } else {
                    file.new_lines[line as int]
                },
                hl: o.hl,
            },
        )
    }
}

/// What is drawn for a row.
pub open spec fn row_plan(files: Seq<FileView>, width: int, row: Row) -> PlanView {
    let f = files[row.of_file() as int];
    match row {
        Row::FileHeader { file } => PlanView::Header(header_spans(f)),
        Row::HunkHeader { file, hunk } => PlanView::Text {
            indent: 0,
            text: hunk_label(f, hunk as int),
            role: Role::HunkHeader,
        },
        Row::Line { file, op } => PlanView::Unified(unified_code(f, op as int, width)),
        Row::SplitLine { file, left, right } => PlanView::Split {
            left: half_code(f, left, true, width),
            right: half_code(f, right, false, width),
        },
        Row::ExpandTail { file } => PlanView::Text {
            indent: 0,
            text: tail_label(f),
            role: Role::HunkHeader,
        },
        Row::Note { file, notice } => PlanView::Text {
            indent: 2,
            text: notice.message(),
            role: Role::Dim,
        },
    }
}

/// Appends a number.
pub(crate) fn append_number(out: &mut String, n: u128)
    ensures
        final(out)@ == old(out)@ + text::decimal(n as nat),
{
    let digits = text::to_decimal(n);
    out.append(digits.as_str());
}

/// The pieces of a file header.
pub fn draw_file_header(file: &FileDiff) -> (spans: Vec<Span>)
    ensures
        spans@.map_values(|s: Span| s@) == header_spans(file@),
{
    let mut spans: Vec<Span> = Vec::new();
    let arrow = if file.collapsed {
        " ▸ "
    } else {
        " ▾ "
    };
    spans.push(Span { text: arrow.to_owned(), paint: Paint::Header });
    spans.push(
        Span { text: file.status.letter().to_owned(), paint: Paint::Status(file.status) },
    );
    let mut path_text = " ".to_owned();
    if let Some(old) = &file.old_display_path {
        path_text.append(old.as_str());
        path_text.append(" → ");
    }
    path_text.append(file.display_path.as_str());
    assert(path_text@ =~= path_label(file@));
    spans.push(Span { text: path_text, paint: Paint::Header });
    if file.binary {
        spans.push(Span { text: "  BIN".to_owned(), paint: Paint::Header });
    } else {
        let mut added = "  +".to_owned();
        append_number(&mut added, file.additions as u128);
        spans.push(Span { text: added, paint: Paint::Patched(Role::Plus) });
        let mut deleted = " -".to_owned();
        append_number(&mut deleted, file.deletions as u128);
        spans.push(Span { text: deleted, paint: Paint::Patched(Role::Minus) });
    }
    assert(spans@.map_values(|s: Span| s@) =~= header_spans(file@));
    spans
}

/// The text of a hunk header.
fn draw_hunk_header(file: &FileDiff, hunk: usize) -> (out: String)
    requires
        file@.wf(),
        hunk < file@.hunks.len(),
    ensures
        out@ == hunk_label(file@, hunk as int),
{
    assert(file@.hunks[hunk as int].start < file@.hunks[hunk as int].end);
    let (old_start, old_count, new_start, new_count) = file.hunk_line_info(&file.hunks[hunk]);
    let gap = file.gap_above(hunk);
    let mut out = "  @@ -".to_owned();
    append_number(&mut out, old_start as u128);
    out.append(",");
    append_number(&mut out, old_count as u128);
    out.append(" +");
    append_number(&mut out, new_start as u128);
    out.append(",");
    append_number(&mut out, new_count as u128);
    out.append(" @@");
    if gap > 0 {
        out.append("  ⋯ ");
        append_number(&mut out, gap as u128);
        out.append(" hidden lines (+ expand, = all)");
    }
    out
}

/// The text of the expander below the last hunk.
fn draw_tail(file: &FileDiff) -> (out: String)
    requires
        file@.wf(),
    ensures
        out@ == tail_label(file@),
{
    let mut out = "  ⋯ ".to_owned();
    append_number(&mut out, file.gap_below() as u128);
    out.append(" hidden lines below (+ expand, = all)");
    out
}

/// A line number in the gutter, or blanks where there is no line.
fn draw_number(line: usize, width: usize) -> (out: String)
    ensures
        out@ == gutter_number(line, width as int),
{
    if line == NO_LINE {
        text::blank(width)
    } else {
        text::right_aligned(line + 1, width)
    }
}

/// A copy of a highlighted range.
fn copy_hl(hl: &Option<Range<usize>>) -> (r: Option<Range<usize>>)
    ensures
        r == *hl,
{
    match hl {
        Some(range) => Some(range.start..range.end),
        None => None,
    }
}

/// The style of the gutter of a diff line.
fn gutter_style(kind: OpKind) -> (r: Role)
    ensures
        r == theme::gutter_role(kind),
{
    if kind == OpKind::Context {
        Role::LineNumber
    } else {
        theme::line_style(kind).1
    }
}

/// A line of the unified view.
pub fn draw_unified_line(file: &FileDiff, op_idx: usize, num_width: usize) -> (code: CodeLine)
    requires
        file@.wf(),
        op_idx < file@.ops.len(),
    ensures
        code@ == unified_code(file@, op_idx as int, num_width as int),
{
    proof {
        assert(align_laws::op_fits(
            file@.ops[op_idx as int],
            file@.old_lines.len(),
            file@.new_lines.len(),
        ));
    }
    let op = &file.ops[op_idx];
    let (marker, role) = theme::line_style(op.kind);
    let mut gutter = draw_number(op.old, num_width);
    gutter.append(" ");
    let new_num = draw_number(op.new, num_width);
    gutter.append(new_num.as_str());
    gutter.append(" ");
    gutter.push(marker);
    gutter.append(" ");
    let line = if op.new != NO_LINE {
        file.new_lines[op.new].clone()
    } else {
        file.old_lines[op.old].clone()
    };
    let code = CodeLine {
        gutter,
        gutter_role: gutter_style(op.kind),
        role,
        line,
        hl: copy_hl(&op.hl),
    };
    assert(code@.gutter =~= unified_code(file@, op_idx as int, num_width as int).gutter);
    code
}

/// One half of a line of the side-by-side view.
pub fn draw_half(file: &FileDiff, op_idx: usize, old_side: bool, num_width: usize) -> (code: Option<
    CodeLine,
>)
    requires
        file@.wf(),
        op_idx == NO_LINE || op_idx < file@.ops.len(),
    ensures
        opt_code(code) == half_code(file@, op_idx, old_side, num_width as int),
{
    if op_idx == NO_LINE {
        return None;
    }
    proof {
        assert(align_laws::op_fits(
            file@.ops[op_idx as int],
            file@.old_lines.len(),
            file@.new_lines.len(),
        ));
    }
    let op = &file.ops[op_idx];
    let line_idx = if old_side {
        op.old
    } else {
        op.new
    };
    if line_idx == NO_LINE {
        return None;
    }
    let (marker, role) = theme::line_style(op.kind);
    let mut gutter = draw_number(line_idx, num_width);
    gutter.append(" ");
    gutter.push(marker);
    gutter.append(" ");
    let line = if old_side {
        file.old_lines[line_idx].clone()
    } else {
        file.new_lines[line_idx].clone()
    };
    let code = CodeLine {
        gutter,
        gutter_role: gutter_style(op.kind),
        role,
        line,
        hl: copy_hl(&op.hl),
    };
    assert(code@.gutter =~= half_code(
        file@,
        op_idx,
        old_side,
        num_width as int,
    ).unwrap().gutter);
    Some(code)
}

/// What is drawn for a row.
pub fn draw_row(files: &Vec<FileDiff>, num_width: usize, row: Row) -> (plan: RowPlan)
    requires
        forall|i: int| 0 <= i < files@.len() ==> (#[trigger] files@[i])@.wf(),
        rows::row_fits(row, file_diff::file_views(files@)),
    ensures
        plan@ == row_plan(file_diff::file_views(files@), num_width as int, row),
{
    let file = &files[row.file()];
    assert(file@ == file_diff::file_views(files@)[row.of_file() as int]);
    match row {
        Row::FileHeader { file: _ } => RowPlan::Header(draw_file_header(file)),
        Row::HunkHeader { file: _, hunk } => RowPlan::Text {
            indent: 0,
            text: draw_hunk_header(file, hunk),
            role: Role::HunkHeader,
        },
        Row::Line { file: _, op } => RowPlan::Unified(draw_unified_line(file, op, num_width)),
        Row::SplitLine { file: _, left, right } => RowPlan::Split {
            left: draw_half(file, left, true, num_width),
            right: draw_half(file, right, false, num_width),
        },
        Row::ExpandTail { file: _ } => RowPlan::Text {
            indent: 0,
            text: draw_tail(file),
            role: Role::HunkHeader,
        },
        Row::Note { file: _, notice } => RowPlan::Text {
            indent: 2,
            text: notice.text().to_owned(),
            role: Role::Dim,
        },
    }
}

} // verus!
