use std::path::Path;

use diff_viewer::file_diff::{
    base_path, build_file_diff, change_status, contents_path, dedup_files, FileDiff, FileStatus,
};
use diff_viewer::gather::{
    build_files, conclude, open, open_with, scope_for, Conclusion, FileRead, Gathered, Request,
};
use diff_viewer::path::{display_path, Component, FilePath, PathPart, Rel};
use diff_viewer::status::FileChange;
use diff_viewer::vcs::{StatusScope, VcsError};

/// The path that a text spells.
fn spelled(text: &str) -> FilePath {
    let bytes = text.as_bytes();
    let mut components = Path::new(text).components();
    let mut rest = components.as_path().as_os_str().len();
    let mut start = 0;
    let mut parts: Vec<PathPart> = Vec::new();
    while let Some(component) = components.next() {
        let left = components.as_path().as_os_str().len();
        let piece = &bytes[start..start + rest - left];
        let name = component.as_os_str().as_encoded_bytes().to_vec();
        let own = name.len().min(piece.len());
        parts.push(PathPart {
            component: match component {
                std::path::Component::Prefix(_) => Component::Prefix(name),
                std::path::Component::RootDir => Component::Root,
                std::path::Component::CurDir => Component::Current,
                std::path::Component::ParentDir => Component::Parent,
                std::path::Component::Normal(_) => Component::Name(name),
            },
            text: piece[..own].to_vec(),
            gap: piece[own..].to_vec(),
        });
        start += rest - left;
        rest = left;
    }
    if let Some(last) = parts.last_mut() {
        last.gap.extend_from_slice(&bytes[start..]);
    }
    FilePath { parts }
}

fn abs(names: &[&str]) -> FilePath {
    spelled(&format!("/{}", names.join("/")))
}

fn rel(names: &[&str]) -> FilePath {
    spelled(&names.join("/"))
}

fn modified(names: &[&str]) -> FileChange {
    FileChange::Modified { path: abs(names) }
}

fn build(change: &FileChange, old: &str, new: &str) -> FileDiff {
    build_file_diff(
        change,
        &abs(&["work"]),
        Some(old.as_bytes().to_vec()),
        Some(new.as_bytes().to_vec()),
        false,
    )
    .unwrap()
}

#[test]
fn statuses_have_letters_and_scopes() {
    let all = [
        (FileStatus::Added, "A", "diff.plus"),
        (FileStatus::Modified, "M", "diff.delta"),
        (FileStatus::Deleted, "D", "diff.minus"),
        (FileStatus::Renamed, "R", "diff.delta.moved"),
        (FileStatus::Conflict, "C", "diff.delta.conflict"),
    ];
    for (status, letter, scope) in all {
        assert_eq!(status.letter(), letter);
        assert_eq!(status.theme_scope(), scope);
    }
}

#[test]
fn changes_have_a_status() {
    let path = || abs(&["f"]);
    assert_eq!(change_status(&FileChange::Untracked { path: path() }), FileStatus::Added);
    assert_eq!(change_status(&FileChange::Modified { path: path() }), FileStatus::Modified);
    assert_eq!(change_status(&FileChange::Conflict { path: path() }), FileStatus::Conflict);
    assert_eq!(change_status(&FileChange::Deleted { path: path() }), FileStatus::Deleted);
    let renamed = FileChange::Renamed { from_path: abs(&["e"]), to_path: path() };
    assert_eq!(change_status(&renamed), FileStatus::Renamed);
    assert_eq!(renamed.path(), &path());
    assert_eq!(renamed.old_path(), Some(&abs(&["e"])));
}

#[test]
fn a_deleted_file_has_no_contents_to_read() {
    assert_eq!(contents_path(&FileChange::Deleted { path: abs(&["f"]) }), None);
    assert_eq!(contents_path(&modified(&["f"])), Some(&abs(&["f"])));
    let renamed = FileChange::Renamed { from_path: abs(&["e"]), to_path: abs(&["f"]) };
    assert_eq!(contents_path(&renamed), Some(&abs(&["f"])));
}

#[test]
fn an_added_file_has_no_base_to_read() {
    assert_eq!(base_path(&FileChange::Untracked { path: abs(&["f"]) }), None);
    assert_eq!(base_path(&FileChange::Deleted { path: abs(&["f"]) }), Some(&abs(&["f"])));
    let renamed = FileChange::Renamed { from_path: abs(&["e"]), to_path: abs(&["f"]) };
    assert_eq!(base_path(&renamed), Some(&abs(&["e"])));
}

#[test]
fn paths_are_shown_below_the_working_directory() {
    let cwd = abs(&["work", "repo"]);
    assert_eq!(display_path(&abs(&["work", "repo", "src", "a.rs"]), &cwd), "src/a.rs");
    assert_eq!(display_path(&abs(&["other", "a.rs"]), &cwd), "/other/a.rs");
    assert_eq!(display_path(&abs(&["work", "repository"]), &cwd), "/work/repository");
    // As they are spelled.
    let shown = |text: &str| display_path(&spelled(text), &cwd);
    assert_eq!(shown("/work//./repo/src//x/./a.rs/"), "src//x/./a.rs");
    assert_eq!(shown("/other//./a.rs/"), "/other//./a.rs/");
    assert_eq!(shown("/work/repo/"), "");
}

#[test]
fn undecodable_names_are_shown_with_replacements() {
    let mut file = abs(&["work", "x"]);
    file.parts[2].text = b"a\xffb".to_vec();
    assert_eq!(display_path(&file, &abs(&["work"])), "a\u{fffd}b");
}

/// Spellings of paths.
const SPELLINGS: [&str; 20] = [
    "", ".", "..", "/", "//", "./", "./.", "/.", "a", "a/", "a//", "a/.", "./a", "/a", "//a/b",
    "a/b", "a//b/", "a/./b/.", "../a", "/a/../b//",
];

#[test]
fn paths_are_what_the_system_makes_of_them() {
    for one in SPELLINGS {
        let path = spelled(one);
        assert_eq!(path.display(), one);
        let parent = Path::new(one).parent().map(|p| p.display().to_string());
        assert_eq!(path.parent().map(|p| p.display()), parent);
        for two in SPELLINGS {
            let other = spelled(two);
            let joined = Path::new(one).join(two);
            let expected = joined.display().to_string();
            assert_eq!(path.join(&other, false).display(), expected, "{:?} {:?}", one, two);
            let same = path.join(&other, false).relate(&spelled(&expected));
            assert_eq!(same, Rel::Same, "{:?} {:?}", one, two);
            let stripped = Path::new(one).strip_prefix(two).ok().map(|p| p.display().to_string());
            let found = path.strip_prefix(&other).map(|p| p.display());
            assert_eq!(found, stripped, "{:?} {:?}", one, two);
            let order = match Path::new(one).cmp(Path::new(two)) {
                std::cmp::Ordering::Less => Rel::Before,
                std::cmp::Ordering::Equal => Rel::Same,
                std::cmp::Ordering::Greater => Rel::After,
            };
            assert_eq!(path.relate(&other), order, "{:?} {:?}", one, two);
        }
    }
}

#[test]
fn paths_join_and_strip() {
    let base = abs(&["a"]);
    let joined = base.join(&rel(&["b", "c"]), false);
    assert_eq!(joined, abs(&["a", "b", "c"]));
    assert_eq!(joined.strip_prefix(&base), Some(rel(&["b", "c"])));
    assert_eq!(base.strip_prefix(&joined), None);
    assert_eq!(base.join(&abs(&["x"]), false), abs(&["x"]));
    assert_eq!(joined.parent(), Some(abs(&["a", "b"])));
    assert_eq!(abs(&[]).parent(), None);
}

/// A path on a drive.
fn on(drive: &str, path: &str) -> FilePath {
    let prefix = PathPart {
        component: Component::Prefix(drive.as_bytes().to_vec()),
        text: drive.as_bytes().to_vec(),
        gap: Vec::new(),
    };
    let mut parts = vec![prefix];
    parts.extend(spelled(path).parts);
    FilePath { parts }
}

#[test]
fn a_rooted_path_keeps_the_prefix_of_the_base() {
    let base = on("C:", "/a");
    assert_eq!(base.join(&abs(&["x"]), true), on("C:", "/x"));
    assert_eq!(base.join(&on("D:", "x"), true), on("D:", "x"));
    // A backslash is put between the two; what they are made of is kept.
    assert_eq!(base.join(&spelled("x/y"), true).display(), "C:/a\\x/y");
    assert_eq!(on("C:", "").join(&rel(&["x"]), true).display(), "C:x");
    assert_eq!(on("\\\\s\\t", "").join(&rel(&["x"]), true).display(), "\\\\s\\t\\x");
    // What follows a verbatim prefix is spelled anew.
    let verbatim = on("\\\\?\\C:", "/a");
    assert_eq!(verbatim.join(&spelled("x//./y"), true).display(), "\\\\?\\C:\\a\\x\\y");
    assert_eq!(verbatim.join(&spelled("../y"), true).display(), "\\\\?\\C:\\y");
    assert_eq!(verbatim.join(&spelled("/y"), true).display(), "\\\\?\\C:\\y");
    assert_eq!(verbatim.join(&spelled(""), true).display(), "\\\\?\\C:/a\\");
    let rest = base.join(&spelled("x/y"), true).strip_prefix(&base).unwrap();
    assert_eq!(rest.display(), "x/y");
}

#[test]
fn paths_are_ordered_by_component() {
    // Component by component, `a/b` comes before `a.b`.
    assert_eq!(abs(&["a", "b"]).relate(&abs(&["a.b"])), Rel::Before);
    assert_eq!(abs(&["a"]).relate(&abs(&["a"])), Rel::Same);
    assert_eq!(spelled("/a//b/.").relate(&abs(&["a", "b"])), Rel::Same);
    assert_eq!(abs(&["b"]).relate(&abs(&["a", "z"])), Rel::After);
    assert_eq!(abs(&["a"]).relate(&abs(&["a", "z"])), Rel::Before);
}

#[test]
fn a_text_file_is_diffed() {
    let file = build(&modified(&["work", "a.rs"]), "x\ny\n", "x\nz\n");
    assert_eq!(file.display_path, "a.rs");
    assert_eq!(file.old_display_path, None);
    assert_eq!(file.status, FileStatus::Modified);
    assert_eq!((file.additions, file.deletions), (1, 1));
    assert_eq!(file.hunks, vec![0..3]);
    assert!(!file.binary && !file.collapsed);
    assert_eq!(file.old_lines, vec!["x", "y"]);
}

#[test]
fn undecodable_bytes_are_replaced() {
    let file = build_file_diff(
        &FileChange::Untracked { path: abs(&["f"]) },
        &abs(&[]),
        None,
        Some(vec![b'a', 0xff, b'b', b'\n']),
        false,
    )
    .unwrap();
    assert_eq!(file.new_lines, vec!["a\u{fffd}b"]);
}

#[test]
fn a_binary_file_is_not_diffed() {
    let file = build(&modified(&["work", "a.bin"]), "a\0b", "text\n");
    assert!(file.binary);
    assert!(file.old_lines.is_empty() && file.new_lines.is_empty());
    assert!(file.ops.is_empty() && file.hunks.is_empty());
    assert_eq!((file.additions, file.deletions), (0, 0));
}

#[test]
fn an_added_file_has_no_base_and_a_deleted_one_no_contents() {
    let file = build(&FileChange::Untracked { path: abs(&["f"]) }, "ignored\n", "new\n");
    assert!(file.old_lines.is_empty());
    assert_eq!((file.additions, file.deletions), (1, 0));
    let file = build(&FileChange::Deleted { path: abs(&["f"]) }, "gone\n", "ignored\n");
    assert!(file.new_lines.is_empty());
    assert_eq!((file.additions, file.deletions), (0, 1));
}

#[test]
fn large_diffs_start_collapsed() {
    let text = |n: usize| (0..n).map(|i| format!("{}\n", i)).collect::<String>();
    let change = FileChange::Untracked { path: abs(&["f"]) };
    assert!(!build(&change, "", &text(2000)).collapsed);
    assert!(build(&change, "", &text(2001)).collapsed);
}

#[test]
fn hunks_know_their_lines_and_gaps() {
    let old: String = (0..40).map(|i| format!("l{}\n", i)).collect();
    let new = old.replace("l10\n", "x\n").replace("l30\n", "");
    let file = build(&modified(&["f"]), &old, &new);
    assert_eq!(file.hunks.len(), 2);
    assert_eq!(file.hunk_line_info(&file.hunks[0]), (8, 7, 8, 7));
    assert_eq!(file.hunk_line_info(&file.hunks[1]), (28, 7, 28, 6));
    assert_eq!(file.hunk_line_info(&(0..0)), (0, 0, 0, 0));
    assert_eq!(file.gap_above(0), 7);
    assert_eq!(file.gap_above(1), 13);
    assert_eq!(file.gap_below(), 6);
    // Shown and hidden lines make up the whole alignment.
    let shown: usize = file.hunks.iter().map(|h| h.end - h.start).sum();
    assert_eq!(shown + 7 + 13 + 6, file.ops.len());
}

#[test]
fn one_entry_per_path_with_rename_information() {
    let renamed = FileChange::Renamed { from_path: abs(&["old"]), to_path: abs(&["b"]) };
    let files = vec![
        build(&modified(&["c"]), "1\n", "2\n"),
        build(&modified(&["b"]), "1\n", "2\n"),
        build(&modified(&["a"]), "first\n", "2\n"),
        build(&renamed, "1\n", "3\n"),
        build(&modified(&["a"]), "second\n", "2\n"),
    ];
    let kept = dedup_files(files);
    let paths: Vec<&str> = kept.iter().map(|f| f.display_path.as_str()).collect();
    assert_eq!(paths, vec!["/a", "/b", "/c"]);
    assert_eq!(kept[0].old_lines, vec!["first"]);
    assert_eq!(kept[1].old_display_path, Some("/old".to_string()));
    assert_eq!(kept[1].status, FileStatus::Renamed);
}

#[test]
fn the_first_error_is_kept() {
    let mut gathered = Gathered::new();
    gathered.receive(Ok(modified(&["a"])));
    gathered.receive(Err(VcsError::NoProvider));
    gathered.receive(Err(VcsError::Untracked));
    gathered.receive(Ok(modified(&["b"])));
    assert_eq!(gathered.changes, vec![modified(&["a"]), modified(&["b"])]);
    assert_eq!(gathered.error, Some("no diff provider returns success".to_string()));
}

#[test]
fn the_scope_follows_the_revision() {
    assert_eq!(scope_for(&None), StatusScope::HeadToWorktree);
    assert_eq!(
        scope_for(&Some("main".to_string())),
        StatusScope::MergeBaseToWorktree("main".to_string())
    );
    assert_eq!(StatusScope::default(), StatusScope::IndexToWorktree);
}

#[test]
fn a_request_needs_a_working_directory() {
    let request = open(Some("v1".to_string()));
    assert!(!request.split && !request.ignore_whitespace);
    let served = open_with(true, request).ok().unwrap();
    assert_eq!(served.rev, Some("v1".to_string()));
    assert_eq!(
        open_with(false, served).err(),
        Some("current working directory does not exist")
    );
}

#[test]
fn gathered_files_are_shown_in_order() {
    let read = |names: &[&str]| FileRead {
        change: modified(names),
        base: Some(b"1\n".to_vec()),
        contents: Some(b"2\n".to_vec()),
    };
    let files =
        build_files(vec![read(&["b"]), read(&["a"]), read(&["b"])], &abs(&[]), false).unwrap();
    assert_eq!(files.len(), 2);
    let request = Request { split: true, ignore_whitespace: false, rev: None };
    match conclude(files, None, request) {
        Conclusion::Show(viewer) => {
            assert_eq!(viewer.files()[0].display_path, "a");
            assert!(viewer.is_split());
        }
        _ => panic!("the viewer is shown"),
    }
}

#[test]
fn without_files_there_is_a_message() {
    let request = || Request { split: false, ignore_whitespace: false, rev: None };
    match conclude(Vec::new(), Some("broken".to_string()), request()) {
        Conclusion::Failed(text) => assert_eq!(text, "diff: broken"),
        _ => panic!("the error is shown"),
    }
    match conclude(Vec::new(), None, request()) {
        Conclusion::NoChanges(text) => assert_eq!(text, "diff: no changes in workspace"),
        _ => panic!("nothing is to be shown"),
    }
}
