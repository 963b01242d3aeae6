use diff_viewer::align::{Op, OpKind};
use diff_viewer::columns::{char_width, code_cells, visual_col, Cell};
use diff_viewer::file_diff::{build_file_diff, FileDiff, FileStatus};
use diff_viewer::frame::{
    code_room, draw_help, draw_scrollbar, footer, footer_row, header_room, help_area, help_entries,
    help_fits, help_hint, hint_column, pane_columns, pane_width, render, HelpLine, PaneColumns,
};
use diff_viewer::geometry::Rect;
use diff_viewer::input::{Event, KeyCode, KeyEvent, KeyModifiers};
use diff_viewer::path::{Component, FilePath, PathPart};
use diff_viewer::render::{draw_half, draw_row, CodeLine, Paint, RowPlan};
use diff_viewer::rows::Row;
use diff_viewer::status::FileChange;
use diff_viewer::theme::{line_style, Emphasis, Otherwise, Role};
use diff_viewer::viewer::DiffViewer;

fn path(name: &str) -> FilePath {
    let root = PathPart { component: Component::Root, text: b"/".to_vec(), gap: Vec::new() };
    if name.is_empty() {
        return FilePath { parts: vec![root] };
    }
    let text = name.as_bytes().to_vec();
    let component = Component::Name(text.clone());
    FilePath { parts: vec![root, PathPart { component, text, gap: Vec::new() }] }
}

fn file(change: FileChange, old: &str, new: &str) -> FileDiff {
    let root = path("");
    build_file_diff(
        &change,
        &root,
        Some(old.as_bytes().to_vec()),
        Some(new.as_bytes().to_vec()),
        false,
    )
    .unwrap()
}

fn modified(old: &str, new: &str) -> FileDiff {
    file(FileChange::Modified { path: path("a.rs") }, old, new)
}

fn keys(viewer: &mut DiffViewer, text: &str) {
    let modifiers = KeyModifiers { shift: false, control: false, alt: false, meta: false };
    for c in text.chars() {
        viewer.handle_event(&Event::Key(KeyEvent { code: KeyCode::Char(c), modifiers }));
    }
}

fn header_texts(plan: &RowPlan) -> Vec<(String, Paint)> {
    match plan {
        RowPlan::Header(spans) => spans.iter().map(|s| (s.text.clone(), s.paint)).collect(),
        _ => panic!("a header"),
    }
}

fn text_of(plan: &RowPlan) -> (u16, String, Role) {
    match plan {
        RowPlan::Text { indent, text, role } => (*indent, text.clone(), *role),
        _ => panic!("a text"),
    }
}

fn unified(plan: &RowPlan) -> &CodeLine {
    match plan {
        RowPlan::Unified(code) => code,
        _ => panic!("a line of code"),
    }
}

#[test]
fn widths_of_characters() {
    assert_eq!(char_width('a', 3), 1);
    assert_eq!(char_width('\t', 0), 4);
    assert_eq!(char_width('\t', 3), 1);
    assert_eq!(char_width('\t', 5), 3);
    assert_eq!(char_width('漢', 0), 2);
    // Combining and control characters take a cell of their own.
    assert_eq!(char_width('\u{301}', 0), 1);
    assert_eq!(char_width('\u{1}', 0), 1);
    assert_eq!(char_width('\0', 0), 1);
}

#[test]
fn columns_of_a_line() {
    assert_eq!(visual_col("abc", 2), 2);
    assert_eq!(visual_col("abc", 9), 3);
    assert_eq!(visual_col("a\tb", 2), 4);
    assert_eq!(visual_col("漢字x", 2), 4);
    assert_eq!(visual_col("", 0), 0);
}

fn glyph(offset: usize, c: char, room: usize) -> Cell {
    Cell { offset, glyph: Some(c), room, highlighted: false }
}

fn gap(offset: usize) -> Cell {
    Cell { offset, glyph: None, room: 1, highlighted: false }
}

#[test]
fn cells_of_a_line() {
    assert_eq!(code_cells("ab", 5, &None, 0), vec![glyph(0, 'a', 5), glyph(1, 'b', 4)]);
    // Cut off on the right.
    assert_eq!(code_cells("abc", 2, &None, 0), vec![glyph(0, 'a', 2), glyph(1, 'b', 1)]);
    // Scrolled: one column of the tab is left of the window.
    assert_eq!(
        code_cells("\tx", 5, &None, 1),
        vec![gap(0), gap(1), gap(2), glyph(3, 'x', 2)]
    );
    // Half of a wide character is padded.
    assert_eq!(code_cells("漢x", 5, &None, 1), vec![gap(0), glyph(1, 'x', 4)]);
    assert_eq!(code_cells("abc", 0, &None, 1), vec![]);
}

#[test]
fn changed_bytes_are_highlighted() {
    let cells = code_cells("xéy", 9, &Some(1..3), 0);
    let marks: Vec<bool> = cells.iter().map(|c| c.highlighted).collect();
    assert_eq!(marks, vec![false, true, false]);
}

#[test]
fn file_headers() {
    let renamed = FileChange::Renamed { from_path: path("old"), to_path: path("new") };
    let files = vec![modified("1\n", "2\n3\n"), file(renamed, "x\n", "x\n"), modified("\0", "")];
    assert_eq!(
        header_texts(&draw_row(&files, 3, Row::FileHeader { file: 0 })),
        vec![
            (" ▾ ".to_string(), Paint::Header),
            ("M".to_string(), Paint::Status(FileStatus::Modified)),
            (" a.rs".to_string(), Paint::Header),
            ("  +2".to_string(), Paint::Patched(Role::Plus)),
            (" -1".to_string(), Paint::Patched(Role::Minus)),
        ]
    );
    assert_eq!(
        header_texts(&draw_row(&files, 3, Row::FileHeader { file: 1 }))[2].0,
        " old → new"
    );
    let mut binary = files;
    binary[2].collapsed = true;
    assert_eq!(
        header_texts(&draw_row(&binary, 3, Row::FileHeader { file: 2 })),
        vec![
            (" ▸ ".to_string(), Paint::Header),
            ("M".to_string(), Paint::Status(FileStatus::Modified)),
            (" a.rs".to_string(), Paint::Header),
            ("  BIN".to_string(), Paint::Header),
        ]
    );
}

#[test]
fn hunk_headers_and_expanders() {
    let old: String = (0..30).map(|i| format!("l{}\n", i)).collect();
    let files = vec![modified(&old, &old.replace("l10\n", "x\n")), modified("1\n", "2\n")];
    assert_eq!(
        text_of(&draw_row(&files, 3, Row::HunkHeader { file: 0, hunk: 0 })),
        (
            0,
            "  @@ -8,7 +8,7 @@  ⋯ 7 hidden lines (+ expand, = all)".to_string(),
            Role::HunkHeader
        )
    );
    assert_eq!(
        text_of(&draw_row(&files, 3, Row::ExpandTail { file: 0 })).1,
        "  ⋯ 16 hidden lines below (+ expand, = all)"
    );
    assert_eq!(
        text_of(&draw_row(&files, 3, Row::HunkHeader { file: 1, hunk: 0 })).1,
        "  @@ -1,1 +1,1 @@"
    );
}

#[test]
fn unified_lines() {
    let files = vec![modified("a\nfoo(1)\n", "a\nfoo(2)\n")];
    let context = draw_row(&files, 3, Row::Line { file: 0, op: 0 });
    let context = unified(&context);
    assert_eq!(context.gutter, "  1   1   ");
    assert_eq!((context.gutter_role, context.role), (Role::LineNumber, Role::Text));
    let removed = draw_row(&files, 3, Row::Line { file: 0, op: 1 });
    let removed = unified(&removed);
    assert_eq!(removed.gutter, "  2     - ");
    assert_eq!((removed.gutter_role, removed.role), (Role::Minus, Role::Minus));
    assert_eq!(removed.line, "foo(1)");
    assert_eq!(removed.hl, Some(4..5));
    let added = draw_row(&files, 3, Row::Line { file: 0, op: 2 });
    assert_eq!(unified(&added).gutter, "      2 + ");
    assert_eq!(unified(&added).line, "foo(2)");
}

#[test]
fn split_lines_have_two_halves() {
    let files = vec![modified("a\nb\n", "a\n")];
    match draw_row(&files, 3, Row::SplitLine { file: 0, left: 0, right: 0 }) {
        RowPlan::Split { left: Some(left), right: Some(right) } => {
            assert_eq!(left.gutter, "  1   ");
            assert_eq!(right.line, "a");
        }
        _ => panic!("two halves"),
    }
    let old = draw_half(&files[0], 1, true, 3).unwrap();
    assert_eq!(old.gutter, "  2 - ");
    assert_eq!(old.line, "b");
    assert!(draw_half(&files[0], 1, false, 3).is_none());
    assert!(draw_half(&files[0], usize::MAX, true, 3).is_none());
}

#[test]
fn the_frame_of_a_viewer() {
    let mut viewer = DiffViewer::new(vec![modified("a\nb\n", "a\nc\n")], false, false, None);
    assert!(render(&mut viewer, Rect::new(0, 0, 19, 40)).is_none());
    assert!(render(&mut viewer, Rect::new(0, 0, 80, 3)).is_none());
    assert_eq!(viewer.viewport(), Rect::default());
    keys(&mut viewer, "jjj");
    let frame = render(&mut viewer, Rect::new(2, 1, 80, 10)).unwrap();
    assert_eq!(
        frame.header,
        " 1 changed file with 1 additions and 1 deletions • HEAD → working tree • unified view"
    );
    assert_eq!(frame.inner, Rect::new(2, 2, 80, 8));
    assert_eq!(frame.rows.len(), 5);
    assert_eq!(frame.cursor_row, Some(3));
    assert_eq!(frame.cursor_cell, Some(2 + 2 * 3 + 4));
    assert_eq!(frame.thumb, None);
    assert!(!frame.show_help);
    keys(&mut viewer, "sW?");
    let frame = render(&mut viewer, Rect::new(2, 1, 80, 10)).unwrap();
    assert!(frame.header.ends_with("• split view • ignoring whitespace"));
    assert!(frame.show_help);
}

#[test]
fn the_header_counts_files_and_names_the_base() {
    let files = vec![modified("1\n", "2\n"), modified("1\n", "2\n3\n")];
    let mut viewer = DiffViewer::new(files, false, false, Some("main".to_string()));
    let frame = render(&mut viewer, Rect::new(0, 0, 80, 10)).unwrap();
    assert_eq!(
        frame.header,
        " 2 changed files with 3 additions and 2 deletions • main...working tree • unified view"
    );
}

#[test]
fn the_cell_cursor_is_on_the_side_of_the_line() {
    let mut viewer = DiffViewer::new(vec![modified("ab\ncd\n", "ab\n")], true, false, None);
    keys(&mut viewer, "jjl");
    let area = Rect::new(0, 0, 81, 10);
    // Both sides have the line: the new one is meant.
    assert_eq!(render(&mut viewer, area).unwrap().cursor_cell, Some(40 + 1 + 3 + 3 + 1));
    keys(&mut viewer, "j");
    assert_eq!(render(&mut viewer, area).unwrap().cursor_cell, Some(3 + 3 + 1));
    keys(&mut viewer, "gg");
    assert_eq!(render(&mut viewer, area).unwrap().cursor_cell, None);
}

/// The character in the cell of the cell cursor.
fn char_at_cursor(viewer: &mut DiffViewer, area: Rect) -> Option<char> {
    let frame = render(viewer, area).unwrap();
    let panes = pane_columns(frame.inner);
    let (code, x, width) = match &frame.rows[frame.cursor_row.unwrap()] {
        RowPlan::Unified(code) => (code, frame.inner.x, frame.inner.width),
        RowPlan::Split { left: _, right: Some(code) } => (code, panes.right, panes.width),
        RowPlan::Split { left: Some(code), right: None } => (code, panes.left, panes.width),
        _ => panic!("a line"),
    };
    let text_x = x + code.gutter.chars().count() as u16;
    let room = code_room(x, width, text_x) as usize;
    let offset = (frame.cursor_cell.unwrap() - text_x) as usize;
    let cells = code_cells(&code.line, room, &code.hl, viewer.h_scroll());
    cells.iter().find(|cell| cell.offset == offset).unwrap().glyph
}

#[test]
fn the_cell_cursor_is_on_its_character() {
    let old = "a\tb宽c\n".to_string() + &"x".repeat(90) + "y\n";
    for split in [false, true] {
        // The lines are on the old side only, or on both.
        for new in [String::new(), format!("{}new\n", old)] {
            let mut viewer = DiffViewer::new(vec![modified(&old, &new)], split, false, None);
            keys(&mut viewer, "jj");
            let area = Rect::new(3, 1, 80, 12);
            for c in [Some('a'), None, Some('b'), Some('宽'), Some('c')] {
                assert_eq!(char_at_cursor(&mut viewer, area), c);
                keys(&mut viewer, "l");
            }
            keys(&mut viewer, "jgl");
            assert_eq!(char_at_cursor(&mut viewer, area), Some('y'));
            assert!(viewer.h_scroll() > 0);
        }
    }
}

#[test]
fn columns_go_from_character_to_character() {
    let line = "a\t宽\t\tb";
    let starts: Vec<usize> = (0..8).map(|k| visual_col(line, k)).collect();
    assert_eq!(starts, vec![0, 1, 4, 6, 8, 12, 13, 13]);
}

#[test]
fn the_cursor_is_kept_in_view() {
    let new: String = (0..50).map(|i| format!("{}\n", i)).collect();
    let mut viewer = DiffViewer::new(vec![modified("", &new)], false, false, None);
    keys(&mut viewer, "G");
    let frame = render(&mut viewer, Rect::new(0, 0, 80, 12)).unwrap();
    assert_eq!(viewer.scroll(), 42);
    assert_eq!(frame.cursor_row, Some(9));
    assert_eq!(frame.rows.len(), 10);
    // 52 rows, 10 in view: a thumb of one row at the bottom.
    assert_eq!(frame.thumb, Some((9, 1)));
    keys(&mut viewer, "gg");
    render(&mut viewer, Rect::new(0, 0, 80, 12));
    assert_eq!(viewer.scroll(), 0);
}

#[test]
fn long_lines_scroll_sideways() {
    let line = "x".repeat(200);
    let mut viewer = DiffViewer::new(vec![modified("", &line)], false, false, None);
    keys(&mut viewer, "Ggl");
    assert_eq!(viewer.cursor_col(), 199);
    let frame = render(&mut viewer, Rect::new(0, 0, 80, 12)).unwrap();
    assert_eq!(viewer.text_width(80), 70);
    assert_eq!(viewer.h_scroll(), 130);
    assert_eq!(frame.cursor_cell, Some(10 + 69));
    keys(&mut viewer, "gh");
    render(&mut viewer, Rect::new(0, 0, 80, 12));
    assert_eq!(viewer.h_scroll(), 0);
    keys(&mut viewer, "s");
    assert_eq!(viewer.text_width(81), 34);
    assert_eq!(viewer.text_width(20), 10);
}

#[test]
fn the_scrollbar() {
    assert_eq!(draw_scrollbar(10, 10, 0), None);
    assert_eq!(draw_scrollbar(100, 10, 0), Some((0, 1)));
    assert_eq!(draw_scrollbar(100, 10, 90), Some((9, 1)));
    assert_eq!(draw_scrollbar(20, 10, 5), Some((2, 5)));
}

#[test]
fn the_edges_of_the_frame() {
    let area = Rect::new(3, 2, 40, 10);
    assert_eq!(header_room(area), 32);
    assert_eq!(hint_column(area), Some(36));
    assert_eq!(hint_column(Rect::new(0, 0, 7, 1)), None);
    assert_eq!(help_hint(), "? help ");
    assert_eq!(footer_row(area), 11);
    assert!(footer().starts_with(" enter open  gd/gr/gy goto"));
    assert!(footer().ends_with("r reload  q quit"));
    assert_eq!(pane_width(81), 40);
    assert_eq!(pane_width(0), 0);
    assert_eq!(
        pane_columns(area),
        PaneColumns { left: 3, separator: 22, right: 23, width: 19 }
    );
    assert_eq!(code_room(3, 40, 13), 30);
    assert_eq!(code_room(3, 4, 13), 0);
    assert_eq!(area.right(), 43);
    assert_eq!(area.bottom(), 12);
    assert_eq!(Rect::new(65530, 0, 10, 1).right(), 65535);
}

#[test]
fn the_help() {
    let entries = help_entries();
    assert_eq!(entries.len(), 18);
    assert_eq!((entries[0].keys, entries[0].desc), ("j/k, ↑/↓", "move up/down"));
    assert_eq!((entries[17].keys, entries[17].desc), ("q/Esc", "close"));
    assert_eq!(help_area(Rect::new(0, 0, 100, 40)), Rect::new(21, 10, 58, 20));
    assert_eq!(help_area(Rect::new(0, 0, 30, 10)), Rect::new(1, 1, 28, 8));
    assert_eq!(help_area(Rect::new(65530, 0, 10, 10)), Rect::new(65531, 1, 8, 8));
    assert!(help_fits(Rect::new(65530, 0, 10, 10)));
    assert!(!help_fits(Rect::new(65530, 0, 100, 10)));
    assert!(!help_fits(Rect::new(0, 65530, 10, 100)));
    let lines = draw_help(Rect::new(22, 11, 56, 3));
    assert_eq!(lines.len(), 3);
    assert_eq!(
        lines[2],
        HelpLine { y: 13, keys_x: 23, keys_room: 55, desc_x: 41, desc_room: 36 }
    );
    assert_eq!(draw_help(Rect::new(0, 0, 56, 40)).len(), 18);
}

#[test]
fn styles_come_from_the_theme() {
    assert_eq!(Role::FileHeader.scope(), "ui.statusline");
    assert_eq!(Role::FileHeader.emphasis(), Some(Emphasis::Bold));
    assert_eq!(Role::HunkHeader.emphasis(), Some(Emphasis::Dim));
    assert_eq!(Role::Dim.scope(), "ui.text.inactive");
    assert_eq!(Role::Dim.otherwise(), Otherwise::Comment);
    assert_eq!(Role::Cursor.otherwise(), Otherwise::Reversed);
    assert_eq!(Role::Text.otherwise(), Otherwise::AsTheThemeSays);
    assert_eq!(line_style(OpKind::Context), (' ', Role::Text));
    assert_eq!(line_style(Op::removed(0).kind), ('-', Role::Minus));
    assert_eq!(line_style(Op::added(0).kind), ('+', Role::Plus));
}
