use diff_viewer::file_diff::{build_file_diff, FileDiff};
use diff_viewer::frame;
use diff_viewer::geometry::Rect;
use diff_viewer::input::{
    Event, GotoKind, KeyCode, KeyEvent, KeyModifiers, MouseEvent, MouseKind, OpenAction,
};
use diff_viewer::path::{Component, FilePath, PathPart};
use diff_viewer::rows::{build_rows, Notice, Row};
use diff_viewer::status::FileChange;
use diff_viewer::viewer::{deleted_file_message, landing_char, landing_line, DiffViewer, Outcome};
use diff_viewer::align::NO_LINE;

fn path(name: &str) -> FilePath {
    let root = PathPart { component: Component::Root, text: b"/".to_vec(), gap: Vec::new() };
    if name.is_empty() {
        return FilePath { parts: vec![root] };
    }
    let text = name.as_bytes().to_vec();
    let component = Component::Name(text.clone());
    FilePath { parts: vec![root, PathPart { component, text, gap: Vec::new() }] }
}

fn file(change: FileChange, old: &str, new: &str) -> FileDiff {
    let root = path("");
    build_file_diff(
        &change,
        &root,
        Some(old.as_bytes().to_vec()),
        Some(new.as_bytes().to_vec()),
        false,
    )
    .unwrap()
}

fn modified(name: &str, old: &str, new: &str) -> FileDiff {
    file(FileChange::Modified { path: path(name) }, old, new)
}

/// A hundred lines, of which the 30th and the 60th changed.
fn long_file(name: &str) -> FileDiff {
    let old: String = (0..100).map(|i| format!("line {}\n", i)).collect();
    let new = old.replace("line 30\n", "thirty\n").replace("line 60\n", "sixty\n");
    modified(name, &old, &new)
}

fn viewer(files: Vec<FileDiff>) -> DiffViewer {
    DiffViewer::new(files, false, false, None)
}

fn no_modifiers() -> KeyModifiers {
    KeyModifiers { shift: false, control: false, alt: false, meta: false }
}

fn press(viewer: &mut DiffViewer, code: KeyCode) -> Outcome {
    viewer.handle_event(&Event::Key(KeyEvent { code, modifiers: no_modifiers() }))
}

fn keys(viewer: &mut DiffViewer, text: &str) {
    for c in text.chars() {
        press(viewer, KeyCode::Char(c));
    }
}

fn ctrl(viewer: &mut DiffViewer, c: char) -> Outcome {
    let modifiers = KeyModifiers { control: true, ..no_modifiers() };
    viewer.handle_event(&Event::Key(KeyEvent { code: KeyCode::Char(c), modifiers }))
}

fn mouse(viewer: &mut DiffViewer, kind: MouseKind, row: u16) -> Outcome {
    viewer.handle_event(&Event::Mouse(MouseEvent { kind, row }))
}

fn area() -> Rect {
    Rect::new(0, 0, 80, 22)
}

#[test]
fn rows_of_a_file() {
    let v = viewer(vec![modified("a", "x\ny\n", "x\nz\n")]);
    assert_eq!(
        v.rows(),
        &vec![
            Row::FileHeader { file: 0 },
            Row::HunkHeader { file: 0, hunk: 0 },
            Row::Line { file: 0, op: 0 },
            Row::Line { file: 0, op: 1 },
            Row::Line { file: 0, op: 2 },
        ]
    );
    assert_eq!(v.id(), Some("diff-viewer"));
    assert_eq!(DiffViewer::ID, "diff-viewer");
    assert_eq!(v.num_width(), 3);
}

#[test]
fn split_rows_pair_removals_with_additions() {
    let files = vec![modified("a", "x\n1\n2\n3\n", "x\none\n")];
    let split = |left: usize, right: usize| Row::SplitLine { file: 0, left, right };
    assert_eq!(
        build_rows(&files, true),
        vec![
            Row::FileHeader { file: 0 },
            Row::HunkHeader { file: 0, hunk: 0 },
            split(0, 0),
            split(1, 4),
            split(2, NO_LINE),
            split(3, NO_LINE),
        ]
    );
}

#[test]
fn files_without_hunks_have_a_note() {
    let binary = modified("a", "\0", "x");
    let same = modified("b", "x\n", "x\n");
    let renamed = FileChange::Renamed { from_path: path("c"), to_path: path("d") };
    let renamed = file(renamed, "x\n", "x\n");
    let rows = build_rows(&vec![binary, same, renamed], false);
    assert_eq!(rows[1], Row::Note { file: 0, notice: Notice::Binary });
    assert_eq!(rows[3], Row::Note { file: 1, notice: Notice::Unchanged });
    assert_eq!(rows[5], Row::Note { file: 2, notice: Notice::OnlyRenamed });
    assert_eq!(Notice::Binary.text(), "binary file (contents not shown)");
    assert_eq!(Notice::Unchanged.text(), "no content changes");
    assert_eq!(Notice::OnlyRenamed.text(), "file renamed without content changes");
}

#[test]
fn the_cursor_stays_on_the_rows() {
    let mut v = viewer(vec![modified("a", "x\ny\n", "x\nz\n")]);
    v.move_cursor(-7);
    assert_eq!(v.cursor(), 0);
    v.move_cursor(isize::MAX);
    assert_eq!(v.cursor(), 4);
    v.move_cursor(isize::MIN);
    assert_eq!(v.cursor(), 0);
    keys(&mut v, "jjk");
    assert_eq!(v.cursor(), 1);
    keys(&mut v, "G");
    assert_eq!(v.cursor(), 4);
    keys(&mut v, "gg");
    assert_eq!(v.cursor(), 0);
    keys(&mut v, "ge");
    assert_eq!(v.cursor(), 4);
    let mut empty = viewer(vec![]);
    empty.move_cursor(3);
    assert_eq!(empty.cursor(), 0);
    assert_eq!(empty.current_row(), None);
}

#[test]
fn headers_are_visited_in_order() {
    let mut v = viewer(vec![long_file("a"), long_file("b")]);
    let rows = v.rows().clone();
    let at = |row: Row| rows.iter().position(|r| *r == row).unwrap();
    keys(&mut v, "n");
    assert_eq!(v.cursor(), 1);
    keys(&mut v, "n");
    assert_eq!(v.cursor(), at(Row::HunkHeader { file: 0, hunk: 1 }));
    keys(&mut v, "]f");
    assert_eq!(v.cursor(), at(Row::FileHeader { file: 1 }));
    press(&mut v, KeyCode::Tab);
    assert_eq!(v.cursor(), at(Row::FileHeader { file: 1 }));
    keys(&mut v, "p");
    assert_eq!(v.cursor(), at(Row::HunkHeader { file: 0, hunk: 1 }));
    // To the next hunk and back.
    keys(&mut v, "]c[c");
    assert_eq!(v.cursor(), at(Row::HunkHeader { file: 0, hunk: 1 }));
    let modifiers = KeyModifiers { shift: true, ..no_modifiers() };
    v.handle_event(&Event::Key(KeyEvent { code: KeyCode::Tab, modifiers }));
    assert_eq!(v.cursor(), 0);
}

#[test]
fn folding_twice_restores_the_rows() {
    let mut v = viewer(vec![modified("a", "1\n", "2\n"), modified("b", "1\n", "2\n")]);
    let rows = v.rows().clone();
    keys(&mut v, "jj");
    keys(&mut v, "za");
    assert!(v.files()[0].collapsed);
    assert_eq!(v.current_row(), Some(Row::FileHeader { file: 0 }));
    assert_eq!(v.rows().len(), rows.len() - 3);
    press(&mut v, KeyCode::Enter);
    assert_eq!(v.rows(), &rows);
    assert_eq!(v.current_row(), Some(Row::FileHeader { file: 0 }));
}

#[test]
fn folding_all_files_leaves_the_headers() {
    let mut v = viewer(vec![modified("a", "1\n", "2\n"), modified("b", "1\n", "2\n")]);
    keys(&mut v, "G");
    keys(&mut v, "zM");
    assert_eq!(v.rows(), &vec![Row::FileHeader { file: 0 }, Row::FileHeader { file: 1 }]);
    assert_eq!(v.cursor(), 1);
    keys(&mut v, "zR");
    assert_eq!(v.current_row(), Some(Row::FileHeader { file: 1 }));
    assert_eq!(v.rows().len(), 8);
}

#[test]
fn context_is_expanded_upwards() {
    let mut v = viewer(vec![long_file("a")]);
    assert_eq!(v.files()[0].hunks, vec![27..35, 58..66]);
    keys(&mut v, "n+");
    assert_eq!(v.files()[0].hunks, vec![7..35, 58..66]);
    assert_eq!(v.current_row(), Some(Row::HunkHeader { file: 0, hunk: 0 }));
    keys(&mut v, "+");
    assert_eq!(v.files()[0].hunks, vec![0..35, 58..66]);
    keys(&mut v, "n+");
    assert_eq!(v.files()[0].hunks, vec![0..35, 38..66]);
    // The last step merges the two hunks.
    keys(&mut v, "+");
    assert_eq!(v.files()[0].hunks, vec![0..66]);
    assert_eq!(v.current_row(), Some(Row::HunkHeader { file: 0, hunk: 0 }));
}

#[test]
fn all_context_is_expanded_at_once() {
    let mut v = viewer(vec![long_file("a")]);
    keys(&mut v, "nn=");
    assert_eq!(v.files()[0].hunks, vec![27..66]);
    assert_eq!(v.current_row(), Some(Row::HunkHeader { file: 0, hunk: 0 }));
    keys(&mut v, "=");
    assert_eq!(v.files()[0].hunks, vec![0..66]);
    keys(&mut v, "G");
    assert_eq!(v.current_row(), Some(Row::ExpandTail { file: 0 }));
    keys(&mut v, "+");
    assert_eq!(v.files()[0].hunks, vec![0..86]);
    keys(&mut v, "G=");
    assert_eq!(v.files()[0].hunks, vec![0..102]);
    assert_eq!(v.files()[0].gap_below(), 0);
}

#[test]
fn views_are_switched_back_and_forth() {
    let mut v = viewer(vec![modified("a", "a b\nc\n", "a  b\nd\n")]);
    let rows = v.rows().clone();
    keys(&mut v, "s");
    assert!(v.is_split());
    assert_eq!(v.rows()[2], Row::SplitLine { file: 0, left: 0, right: 2 });
    keys(&mut v, "s");
    assert_eq!(v.rows(), &rows);
    keys(&mut v, "W");
    assert!(v.ignores_whitespace());
    assert_eq!((v.files()[0].additions, v.files()[0].deletions), (1, 1));
    keys(&mut v, "W");
    assert_eq!((v.files()[0].additions, v.files()[0].deletions), (2, 2));
    assert_eq!(v.rows(), &rows);
}

#[test]
fn words_and_columns() {
    let mut v = viewer(vec![modified("a", "", "  let x_1 = héllo(a);\n")]);
    keys(&mut v, "G");
    assert_eq!(v.line_under_cursor(), Some("  let x_1 = héllo(a);"));
    keys(&mut v, "w");
    assert_eq!(v.cursor_col(), 2);
    keys(&mut v, "w");
    assert_eq!(v.cursor_col(), 6);
    keys(&mut v, "w");
    assert_eq!(v.cursor_col(), 12);
    keys(&mut v, "w");
    assert_eq!(v.cursor_col(), 18);
    keys(&mut v, "w");
    assert_eq!(v.cursor_col(), 20);
    keys(&mut v, "b");
    assert_eq!(v.cursor_col(), 18);
    keys(&mut v, "bb");
    assert_eq!(v.cursor_col(), 6);
    keys(&mut v, "gl");
    assert_eq!(v.cursor_col(), 20);
    keys(&mut v, "l");
    assert_eq!(v.cursor_col(), 20);
    keys(&mut v, "gs");
    assert_eq!(v.cursor_col(), 2);
    keys(&mut v, "gh");
    assert_eq!(v.cursor_col(), 0);
    keys(&mut v, "h");
    assert_eq!(v.cursor_col(), 0);
    // On a header there is no line.
    keys(&mut v, "gl");
    keys(&mut v, "gg");
    assert_eq!(v.cursor_col(), 0);
    assert_eq!(v.line_under_cursor(), None);
}

#[test]
fn files_are_opened_at_the_line() {
    let mut v = viewer(vec![modified("a", "1\n2\n3\n4\n", "1\n4\n")]);
    // Header, hunk, 1, -2, -3, 4.
    keys(&mut v, "jjj");
    match press(&mut v, KeyCode::Enter) {
        Outcome::Open { path: p, line, col, action, goto } => {
            assert_eq!(p, path("a"));
            // The removed line is gone: the next surviving one is meant.
            assert_eq!((line, col), (1, 0));
            assert_eq!(action, OpenAction::Replace);
            assert_eq!(goto, None);
        }
        _ => panic!("the file is opened"),
    }
    match ctrl(&mut v, 's') {
        Outcome::Open { action, .. } => assert_eq!(action, OpenAction::HorizontalSplit),
        _ => panic!("the file is opened"),
    }
    match ctrl(&mut v, 'v') {
        Outcome::Open { action, .. } => assert_eq!(action, OpenAction::VerticalSplit),
        _ => panic!("the file is opened"),
    }
    let gotos = [
        ('d', GotoKind::Definition),
        ('r', GotoKind::References),
        ('y', GotoKind::TypeDefinition),
    ];
    for (key, kind) in gotos {
        press(&mut v, KeyCode::Char('g'));
        match press(&mut v, KeyCode::Char(key)) {
            Outcome::Open { goto, .. } => assert_eq!(goto, Some(kind)),
            _ => panic!("the file is opened"),
        }
    }
    assert!(matches!(viewer(vec![]).open_at_cursor(OpenAction::Replace, None), Outcome::Consumed));
}

#[test]
fn removals_lead_to_where_they_happened() {
    let line_of = |old: &str, new: &str, row: usize| {
        let mut v = viewer(vec![modified("a", old, new)]);
        keys(&mut v, &"j".repeat(row));
        match press(&mut v, KeyCode::Enter) {
            Outcome::Open { line, .. } => line,
            _ => panic!("the file is opened"),
        }
    };
    // Two headers come before the lines.
    assert_eq!(line_of("1\n2\n3\n", "2\n3\n", 2), 0);
    assert_eq!(line_of("1\n2\n3\n", "1\n3\n", 3), 1);
    // At the end, the opened file has no such line, and its last one is it.
    assert_eq!(line_of("1\n2\n3\n", "1\n2\n", 4), 2);
    assert_eq!(landing_line(2, 2), 1);
}

#[test]
fn deleted_files_cannot_be_opened() {
    let gone = file(FileChange::Deleted { path: path("a") }, "1\n", "");
    let mut v = viewer(vec![gone]);
    keys(&mut v, "G");
    assert!(matches!(press(&mut v, KeyCode::Enter), Outcome::CannotOpenDeleted));
    assert!(matches!(ctrl(&mut v, 's'), Outcome::CannotOpenDeleted));
    assert_eq!(
        deleted_file_message(),
        "cannot open a deleted file; expand the diff to view it"
    );
}

#[test]
fn closing_reloading_and_ignoring() {
    let mut v = DiffViewer::new(vec![], true, true, Some("main".to_string()));
    assert!(matches!(press(&mut v, KeyCode::Char('q')), Outcome::Close));
    assert!(matches!(press(&mut v, KeyCode::Esc), Outcome::Close));
    assert!(matches!(ctrl(&mut v, 'c'), Outcome::Close));
    match press(&mut v, KeyCode::Char('r')) {
        Outcome::Reload { split, ignore_whitespace, rev } => {
            assert!(split && ignore_whitespace);
            assert_eq!(rev, Some("main".to_string()));
        }
        _ => panic!("the diffs are gathered again"),
    }
    assert!(matches!(v.handle_event(&Event::Resize), Outcome::Consumed));
    assert!(matches!(v.handle_event(&Event::Other), Outcome::Ignored));
    assert!(matches!(press(&mut v, KeyCode::Other), Outcome::Consumed));
}

#[test]
fn any_key_closes_the_help() {
    let mut v = viewer(vec![modified("a", "1\n", "2\n")]);
    keys(&mut v, "?");
    assert!(v.shows_help());
    assert!(matches!(press(&mut v, KeyCode::Char('q')), Outcome::Consumed));
    assert!(!v.shows_help());
    assert_eq!(v.cursor(), 0);
}

#[test]
fn a_prefix_holds_for_one_key() {
    let mut v = viewer(vec![modified("a", "1\n", "2\n")]);
    keys(&mut v, "gx");
    keys(&mut v, "j");
    assert_eq!(v.cursor(), 1);
    // A shifted character is the character.
    let modifiers = KeyModifiers { shift: true, ..no_modifiers() };
    v.handle_event(&Event::Key(KeyEvent { code: KeyCode::Char('G'), modifiers }));
    assert_eq!(v.cursor(), 3);
    // Another modifier makes another key.
    let modifiers = KeyModifiers { alt: true, ..no_modifiers() };
    v.handle_event(&Event::Key(KeyEvent { code: KeyCode::Char('k'), modifiers }));
    assert_eq!(v.cursor(), 3);
}

#[test]
fn pages_and_centering_follow_the_viewport() {
    let mut v = viewer(vec![long_file("a")]);
    ctrl(&mut v, 'd');
    assert_eq!(v.cursor(), 1);
    frame::render(&mut v, area());
    assert_eq!(v.viewport(), Rect::new(0, 1, 80, 20));
    ctrl(&mut v, 'd');
    assert_eq!(v.cursor(), 11);
    keys(&mut v, "zz");
    assert_eq!(v.scroll(), 1);
    ctrl(&mut v, 'u');
    assert_eq!(v.cursor(), 1);
    press(&mut v, KeyCode::PageDown);
    press(&mut v, KeyCode::PageUp);
    assert_eq!(v.cursor(), 1);
    press(&mut v, KeyCode::End);
    assert_eq!(v.cursor(), v.rows().len() - 1);
    press(&mut v, KeyCode::Home);
    assert_eq!(v.cursor(), 0);
}

#[test]
fn the_mouse_scrolls_and_clicks() {
    let mut v = viewer(vec![long_file("a")]);
    frame::render(&mut v, Rect::new(0, 0, 80, 8));
    // Rows: header, hunk, eight lines, hunk, eight lines, tail.
    mouse(&mut v, MouseKind::ScrollDown, 0);
    assert_eq!((v.scroll(), v.cursor()), (3, 3));
    mouse(&mut v, MouseKind::ScrollDown, 0);
    keys(&mut v, "G");
    mouse(&mut v, MouseKind::ScrollUp, 0);
    assert_eq!((v.scroll(), v.cursor()), (3, 8));
    mouse(&mut v, MouseKind::ScrollUp, 0);
    mouse(&mut v, MouseKind::ScrollUp, 0);
    assert_eq!(v.scroll(), 0);
    // The first viewport row is below the header.
    mouse(&mut v, MouseKind::LeftDown, 2);
    assert_eq!(v.files()[0].hunks, vec![7..35, 58..66]);
    mouse(&mut v, MouseKind::LeftDown, 0);
    assert_eq!(v.cursor(), 1);
    mouse(&mut v, MouseKind::LeftDown, 1);
    assert!(v.files()[0].collapsed);
    mouse(&mut v, MouseKind::LeftDown, 4);
    assert_eq!(v.cursor(), 0);
    mouse(&mut v, MouseKind::Other, 4);
    assert_eq!(v.cursor(), 0);
}

#[test]
fn jumps_land_within_the_file() {
    assert_eq!(landing_line(5, 10), 5);
    assert_eq!(landing_line(12, 10), 9);
    assert_eq!(landing_line(3, 0), 0);
    assert_eq!(landing_char(100, 8, 3), 103);
    assert_eq!(landing_char(100, 8, 30), 107);
    assert_eq!(landing_char(100, 0, 30), 100);
}

#[test]
fn events_leave_the_contents_alone() {
    let mut v = viewer(vec![long_file("a"), modified("b", "x y\n", "x  y\n")]);
    frame::render(&mut v, area());
    let contents = |v: &DiffViewer| -> Vec<(String, Vec<String>, Vec<String>)> {
        v.files()
            .iter()
            .map(|f| (f.display_path.clone(), f.old_lines.clone(), f.new_lines.clone()))
            .collect()
    };
    let before = contents(&v);
    let ops = v.files()[0].ops.clone();
    keys(&mut v, "n+n=Gszazazmj?xgezMzR[f]cwbggglgsgh");
    mouse(&mut v, MouseKind::LeftDown, 2);
    mouse(&mut v, MouseKind::ScrollDown, 2);
    assert_eq!(contents(&v), before);
    assert_eq!(v.files()[0].ops, ops);
    keys(&mut v, "W");
    assert_eq!(contents(&v), before);
    assert!(v.files()[1].hunks.is_empty());
}

#[test]
fn jumps_from_every_row_stay_in_the_file() {
    let mut v = viewer(vec![modified("a", "1\n2\n3\n4\n", "1\n5\n")]);
    for row in 0..v.rows().len() {
        keys(&mut v, "gg");
        v.move_cursor(row as isize);
        match v.open_at_cursor(OpenAction::Replace, None) {
            Outcome::Open { line, .. } => assert!(line <= 2),
            _ => panic!("the file is opened"),
        }
    }
}

#[test]
fn making_the_rows_anew_changes_nothing() {
    let files = || vec![long_file("a"), modified("b", "1\n", "2\n")];
    for split in [false, true] {
        let v = DiffViewer::new(files(), split, false, None);
        assert_eq!(v.rows(), &build_rows(v.files(), split));
        assert!(!v.rows().is_empty());
    }
    assert!(viewer(vec![]).rows().is_empty());
    // Folding twice makes the rows anew twice.
    let mut v = viewer(files());
    let before = v.rows().clone();
    keys(&mut v, "zaza");
    assert_eq!(v.rows(), &before);
}
