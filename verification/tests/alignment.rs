use diff_viewer::align::{can_compute_ops, compute_ops, hunks_around, Op, OpKind, NO_LINE};
use diff_viewer::intraline::intraline_ranges;
use diff_viewer::limits::{
    can_diff, can_take, count_distinct, count_places, count_shared_end, count_shared_start,
};
use diff_viewer::text::{
    blank, looks_binary, normalize_whitespace, right_aligned, split_lines, to_decimal,
};

fn lines(text: &str) -> Vec<String> {
    split_lines(text)
}

#[test]
fn split_lines_handles_terminators() {
    assert_eq!(lines(""), Vec::<String>::new());
    assert_eq!(lines("a\nb\n"), vec!["a", "b"]);
    assert_eq!(lines("a\nb"), vec!["a", "b"]);
    assert_eq!(lines("a\r\nb\r\n"), vec!["a", "b"]);
    assert_eq!(lines("a\n\nb\n"), vec!["a", "", "b"]);
}

#[test]
fn split_lines_keeps_lone_carriage_returns() {
    assert_eq!(lines("a\rb\n"), vec!["a\rb"]);
    assert_eq!(lines("a\r\r\nb\r"), vec!["a\r", "b\r"]);
    assert_eq!(lines("\r\n"), vec![""]);
}

#[test]
fn compute_ops_modification() {
    let old = lines("a\nb\nc\n");
    let new = lines("a\nB\nc\n");
    let (ops, hunks, additions, deletions) = compute_ops(&old, &new, false);
    assert_eq!(additions, 1);
    assert_eq!(deletions, 1);
    assert_eq!(ops.len(), 4); // a, -b, +B, c
    assert_eq!(ops[1].kind, OpKind::Removed);
    assert_eq!(ops[2].kind, OpKind::Added);
    // Context is limited to the file bounds.
    assert_eq!(hunks, vec![0..4]);
}

#[test]
fn compute_ops_context_and_merging() {
    // Two changes 3 lines apart: their 3-line contexts overlap, so they
    // must merge into a single display hunk.
    let old = lines("1\n2\nX\n4\n5\n6\nY\n8\n9\n");
    let new = lines("1\n2\nx\n4\n5\n6\ny\n8\n9\n");
    let (ops, hunks, ..) = compute_ops(&old, &new, false);
    assert_eq!(hunks.len(), 1);
    assert_eq!(ops.len(), 11); // 9 lines + 2 extra for the two changes
}

#[test]
fn compute_ops_separate_hunks() {
    let mut old_text = String::new();
    let mut new_text = String::new();
    for i in 0..30 {
        old_text.push_str(&format!("line{}\n", i));
        new_text.push_str(&format!(
            "{}\n",
            if i == 2 || i == 25 {
                format!("changed{}", i)
            } else {
                format!("line{}", i)
            }
        ));
    }
    let (_, hunks, additions, deletions) = compute_ops(&lines(&old_text), &lines(&new_text), false);
    assert_eq!(hunks.len(), 2);
    assert_eq!(additions, 2);
    assert_eq!(deletions, 2);
    // The change of line 2 with its context, and that of line 25.
    assert_eq!(hunks, vec![0..7, 23..31]);
}

#[test]
fn intraline_prefix_suffix() {
    let (old_hl, new_hl) = intraline_ranges("let foo = 1;", "let bar = 1;").unwrap();
    assert_eq!(&"let foo = 1;"[old_hl], "foo");
    assert_eq!(&"let bar = 1;"[new_hl], "bar");
    // Nothing in common: no highlight.
    assert!(intraline_ranges("abc", "xyz").is_none());
    // Identical: no highlight.
    assert!(intraline_ranges("same", "same").is_none());
}

#[test]
fn intraline_multibyte_boundaries() {
    // Shared multi-byte prefix/suffix must not split char boundaries.
    let (old_hl, new_hl) = intraline_ranges("héllo wörld", "héllo Wörld").unwrap();
    assert!("héllo wörld".get(old_hl.clone()).is_some());
    assert!("héllo Wörld".get(new_hl.clone()).is_some());
    assert_eq!(old_hl, 7..8);
    assert_eq!(new_hl, 7..8);
}

#[test]
fn intraline_characters_that_share_bytes() {
    // `é` and `è` share their first byte.
    assert_eq!(intraline_ranges("xé", "xè"), Some((1..3, 1..3)));
    assert_eq!(intraline_ranges("é", "è"), None);
    // An insertion in a repetition is found once.
    assert_eq!(intraline_ranges("aa", "aaa"), Some((2..2, 2..3)));
    assert_eq!(intraline_ranges("", "a"), None);
}

#[test]
fn ignore_whitespace_diff() {
    let old = lines("fn main() {\n    foo();\n}\n");
    let new = lines("fn main() {\n\tfoo();\n}\n");
    let (_, hunks, ..) = compute_ops(&old, &new, false);
    assert_eq!(hunks.len(), 1);
    let (_, hunks, additions, deletions) = compute_ops(&old, &new, true);
    assert!(hunks.is_empty());
    assert_eq!(additions, 0);
    assert_eq!(deletions, 0);
}

#[test]
fn pure_addition_and_deletion() {
    let (ops, hunks, additions, deletions) = compute_ops(&[], &lines("a\nb\n"), false);
    assert_eq!((additions, deletions), (2, 0));
    assert_eq!(ops.len(), 2);
    assert_eq!(hunks, vec![0..2]);

    let (ops, hunks, additions, deletions) = compute_ops(&lines("a\nb\n"), &[], false);
    assert_eq!((additions, deletions), (0, 2));
    assert_eq!(ops.len(), 2);
    assert_eq!(hunks, vec![0..2]);
}

#[test]
fn changed_lines_are_paired_for_highlights() {
    let old = lines("let a = 1;\nlet b = 2;\n");
    let new = lines("let a = 9;\nlet b = 8;\n// new\n");
    let (ops, ..) = compute_ops(&old, &new, false);
    let with_hl = |mut op: Op| {
        op.hl = Some(8..9);
        op
    };
    assert_eq!(
        ops,
        vec![
            with_hl(Op::removed(0)),
            with_hl(Op::removed(1)),
            with_hl(Op::added(0)),
            with_hl(Op::added(1)),
            Op::added(2),
        ]
    );
}

#[test]
fn every_line_is_aligned_once() {
    let old = lines("a\nb\nc\nd\n");
    let new = lines("a\nc\nx\nd\ne\n");
    let (ops, _, additions, deletions) = compute_ops(&old, &new, false);
    let old_side: Vec<usize> = ops.iter().map(|op| op.old).filter(|l| *l != NO_LINE).collect();
    let new_side: Vec<usize> = ops.iter().map(|op| op.new).filter(|l| *l != NO_LINE).collect();
    assert_eq!(old_side, vec![0, 1, 2, 3]);
    assert_eq!(new_side, vec![0, 1, 2, 3, 4]);
    assert_eq!((additions, deletions), (2, 1));
    for op in &ops {
        if op.kind == OpKind::Context {
            assert_eq!(old[op.old], new[op.new]);
        }
    }
}

#[test]
fn equal_texts_have_no_hunks() {
    let text = lines("a\nb\n");
    let (ops, hunks, additions, deletions) = compute_ops(&text, &text, false);
    assert_eq!(ops, vec![Op::context(0, 0), Op::context(1, 1)]);
    assert!(hunks.is_empty());
    assert_eq!((additions, deletions), (0, 0));
}

#[test]
fn indentation_decides_where_a_block_was_added() {
    // The added block could begin with either of the two opening lines.
    let old = lines("fn a() {\n}\n");
    let new = lines("fn a() {\n}\nfn a() {\n}\n");
    let (_, hunks, additions, deletions) = compute_ops(&old, &new, false);
    assert_eq!((additions, deletions), (2, 0));
    assert_eq!(hunks, vec![0..4]);
}

#[test]
fn contexts_that_touch_are_merged() {
    assert_eq!(hunks_around(&vec![4..5, 11..12], 20), vec![1..15]);
    assert_eq!(hunks_around(&vec![4..5, 12..13], 20), vec![1..8, 9..16]);
    assert!(hunks_around(&[], 20).is_empty());
}

#[test]
fn normalizing_joins_words_with_one_space() {
    assert_eq!(normalize_whitespace("  a \t b\u{a0}c  "), "a b c");
    assert_eq!(normalize_whitespace(" \t "), "");
    let once = normalize_whitespace("x   y");
    assert_eq!(normalize_whitespace(&once), once);
}

#[test]
fn white_space_separates_words() {
    let spaces = [
        '\t', '\n', '\u{b}', '\u{c}', '\r', ' ', '\u{85}', '\u{a0}', '\u{1680}', '\u{2000}',
        '\u{200a}', '\u{2028}', '\u{2029}', '\u{202f}', '\u{205f}', '\u{3000}',
    ];
    for c in spaces {
        assert_eq!(normalize_whitespace(&format!("a{}{}b", c, c)), "a b");
    }
    for c in ['\u{8}', '\u{e}', '\u{180e}', '\u{1fff}', '\u{200b}', '\u{feff}'] {
        let line = format!("a{}b", c);
        assert_eq!(normalize_whitespace(&line), line);
    }
}

#[test]
fn ordinary_files_can_be_diffed() {
    assert!(can_diff(&[], &[]));
    assert!(can_diff(&lines("a\nb\n"), &lines("a\nc\nd\n")));
    for ignore_whitespace in [false, true] {
        assert!(can_compute_ops(&lines("a b\n"), &lines("a  b\nc\n"), ignore_whitespace));
    }
}

#[test]
fn lines_are_counted() {
    let old = lines("a\nb\na\nc\n");
    let new = lines("a\nd\nc\n");
    assert_eq!(count_distinct(&old, &new), 4);
    assert_eq!(count_distinct(&[], &[]), 0);
    assert_eq!(count_shared_start(&old, &new), 1);
    assert_eq!(count_shared_end(&old, &new, 1), 1);
    assert_eq!(count_shared_end(&old, &old, 4), 0);
    assert!(can_take(&old, &new));
    let times = |n: usize| -> Vec<String> { vec!["x".to_string(); n] };
    for (n, places) in [(1, 0), (2, 4), (4, 4), (5, 12), (9, 28), (17, 60), (33, 124), (99, 124)] {
        assert_eq!(count_places(&times(n)), places);
    }
    assert_eq!(count_places(&old), 4);
    assert!(can_take(&times(200), &times(100)));
}

#[test]
fn a_zero_byte_near_the_start_makes_a_file_binary() {
    assert!(looks_binary(&[1, 0, 2]));
    assert!(!looks_binary(b"text"));
    let mut bytes = vec![1u8; 8192];
    bytes.push(0);
    assert!(!looks_binary(&bytes));
    bytes[8191] = 0;
    assert!(looks_binary(&bytes));
}

#[test]
fn numbers_are_written_in_decimal() {
    assert_eq!(to_decimal(0), "0");
    assert_eq!(to_decimal(1907), "1907");
    assert_eq!(right_aligned(42, 5), "   42");
    assert_eq!(right_aligned(123456, 3), "123456");
    assert_eq!(blank(3), "   ");
}
