//! The diff of one file.

use crate::align::{self, Op, MAX_LINES, NO_LINE};
use crate::align_laws;
use crate::diff_laws;
use crate::limits;
use crate::path::{self, ComponentView, FilePath, PartView, Rel};
use crate::status::{ChangeView, FileChange};
use crate::text;
use std::ops::Range;
use vstd::prelude::*;
use vstd::string::*;
use vstd::utf8;

verus! {

/// Files with more changed lines than this start out collapsed.
pub const AUTO_COLLAPSE_CHANGES: usize = 2000;

/// Most characters that a line may have.
pub const MAX_LINE_LEN: usize = usize::MAX / 4;

#[derive(Debug, Clone, Copy, PartialEq, Eq, Structural)]
pub enum FileStatus {
    Added,
    Modified,
    Deleted,
    Renamed,
    Conflict,
}

impl FileStatus {
    /// The letter that marks the status in a file header.
    pub open spec fn letter_text(self) -> Seq<char> {
        match self {
            FileStatus::Added => "A"@,
            FileStatus::Modified => "M"@,
            FileStatus::Deleted => "D"@,
            FileStatus::Renamed => "R"@,
            FileStatus::Conflict => "C"@,
        }
    }

    /// The theme scope in which the status is drawn.
    pub open spec fn scope_text(self) -> Seq<char> {
        match self {
            FileStatus::Added => "diff.plus"@,
            FileStatus::Modified => "diff.delta"@,
            FileStatus::Deleted => "diff.minus"@,
            FileStatus::Renamed => "diff.delta.moved"@,
            FileStatus::Conflict => "diff.delta.conflict"@,
        }
    }

    pub fn letter(self) -> (r: &'static str)
        ensures
            r@ == self.letter_text(),
    {
        match self {
            FileStatus::Added => "A",
            FileStatus::Modified => "M",
            FileStatus::Deleted => "D",
            FileStatus::Renamed => "R",
            FileStatus::Conflict => "C",
        }
    }

    pub fn theme_scope(self) -> (r: &'static str)
        ensures
            r@ == self.scope_text(),
    {
        match self {
            FileStatus::Added => "diff.plus",
            FileStatus::Modified => "diff.delta",
            FileStatus::Deleted => "diff.minus",
            FileStatus::Renamed => "diff.delta.moved",
            FileStatus::Conflict => "diff.delta.conflict",
        }
    }
}

/// The status under which a change is shown.
pub open spec fn status_of(change: ChangeView) -> FileStatus {
    match change {
        ChangeView::Untracked { path } => FileStatus::Added,
        ChangeView::Modified { path } => FileStatus::Modified,
        ChangeView::Conflict { path } => FileStatus::Conflict,
        ChangeView::Deleted { path } => FileStatus::Deleted,
        ChangeView::Renamed { from_path, to_path } => FileStatus::Renamed,
    }
}

/// The diff of one file: both versions, their alignment and the displayed
/// hunks.
pub struct FileDiff {
    pub abs_path: FilePath,
    pub display_path: String,
    pub old_display_path: Option<String>,
    pub status: FileStatus,
    pub binary: bool,
    pub old_lines: Vec<String>,
    pub new_lines: Vec<String>,
    /// Full alignment of the two files, in order.
    pub ops: Vec<Op>,
    /// Displayed hunks as disjoint, sorted ranges into `ops` (changes plus
    /// surrounding context; grows when context is expanded).
    pub hunks: Vec<Range<usize>>,
    pub additions: usize,
    pub deletions: usize,
    pub collapsed: bool,
}

/// The diff of one file, with its collections as sequences.
#[verifier::ext_equal]
pub struct FileView {
    pub path: Seq<PartView>,
    pub display_path: Seq<char>,
    pub old_display_path: Option<Seq<char>>,
    pub status: FileStatus,
    pub binary: bool,
    pub old_lines: Seq<Seq<char>>,
    pub new_lines: Seq<Seq<char>>,
    pub ops: Seq<Op>,
    pub hunks: Seq<Range<usize>>,
    pub additions: int,
    pub deletions: int,
    pub collapsed: bool,
}

/// The content of an optional string.
pub open spec fn opt_text(s: Option<String>) -> Option<Seq<char>> {
    match s {
        Some(s) => Some(s@),
        None => None,
    }
}

impl View for FileDiff {
    type V = FileView;

    open spec fn view(&self) -> FileView {
        FileView {
            path: self.abs_path@,
            display_path: self.display_path@,
            old_display_path: opt_text(self.old_display_path),
            status: self.status,
            binary: self.binary,
            old_lines: text::texts(self.old_lines@),
            new_lines: text::texts(self.new_lines@),
            ops: self.ops@,
            hunks: self.hunks@,
            additions: self.additions as int,
            deletions: self.deletions as int,
            collapsed: self.collapsed,
        }
    }
}

impl FileView {
    /// The components of the path, by which files are told apart and ordered.
    pub open spec fn key(self) -> Seq<ComponentView> {
        path::components(self.path)
    }

    /// The ops align existing lines, and the hunks are ordered ranges of ops.
    pub open spec fn wf(self) -> bool {
        &&& self.old_lines.len() <= MAX_LINES
        &&& self.new_lines.len() <= MAX_LINES
        &&& lines_fit(self.old_lines)
        &&& lines_fit(self.new_lines)
        &&& self.ops.len() <= self.old_lines.len() + self.new_lines.len()
        &&& forall|k: int|
            0 <= k < self.ops.len() ==> align_laws::op_fits(
                #[trigger] self.ops[k],
                self.old_lines.len(),
                self.new_lines.len(),
            )
        &&& align_laws::hunks_ordered(self.hunks, self.ops.len())
        &&& 0 <= self.additions <= self.new_lines.len()
        &&& 0 <= self.deletions <= self.old_lines.len()
    }

    /// The ops name the lines of the new version, each once and in order, as
    /// those of every diff do.
    pub open spec fn ops_name_new_lines(self) -> bool {
        align_laws::new_side(self.ops) == align_laws::upto(0, self.new_lines.len() as int)
    }

    /// The file with the diff of its two versions computed anew.
    pub open spec fn rediffed(self, ignore_whitespace: bool) -> FileView {
        let a = align::alignment(
            self.old_lines,
            self.new_lines,
            align::changes_between(self.old_lines, self.new_lines, ignore_whitespace),
        );
        FileView {
            ops: a.ops,
            hunks: a.hunks,
            additions: a.additions,
            deletions: a.deletions,
            ..self
        }
    }

    /// The file with its diff computed anew, unless there is none: a binary file
    /// has none, nor has one with too many lines.
    pub open spec fn recomputed(self, ignore_whitespace: bool) -> FileView {
        if self.binary || !align::comparable(self.old_lines, self.new_lines, ignore_whitespace) {
            self
        } else {
            self.rediffed(ignore_whitespace)
        }
    }

    /// Where the hunk before `hunk` ends.
    pub open spec fn end_above(self, hunk: int) -> int {
        if hunk <= 0 {
            0
        } else {
            self.hunks[hunk - 1].end as int
        }
    }

    /// Number of hidden lines above a hunk.
    pub open spec fn gap_above(self, hunk: int) -> int {
        self.hunks[hunk].start - self.end_above(hunk)
    }

    /// Number of hidden lines below the last hunk.
    pub open spec fn gap_below(self) -> int {
        if self.hunks.len() == 0 {
            0
        } else {
            self.ops.len() - self.hunks.last().end
        }
    }
}

/// The first line (1-based) of a list of line indices, and how many there
/// are; 0 and 0 for none.
pub open spec fn line_info(side: Seq<int>) -> (int, int) {
    if side.len() == 0 {
        (0, 0)
    } else {
        (side[0] + 1, side.len() as int)
    }
}

impl FileDiff {
    /// `(first old line, old line count, first new line, new line count)` of a
    /// hunk, 1-based, as shown in `@@ -a,b +c,d @@` headers.
    pub fn hunk_line_info(&self, hunk: &Range<usize>) -> (r: (usize, usize, usize, usize))
        requires
            self@.wf(),
            hunk.start <= hunk.end <= self@.ops.len(),
        ensures
            ({
                let ops = self@.ops.subrange(hunk.start as int, hunk.end as int);
                &&& (r.0 as int, r.1 as int) == line_info(align_laws::old_side(ops))
                &&& (r.2 as int, r.3 as int) == line_info(align_laws::new_side(ops))
            }),
    {
        let mut old_start: usize = 0;
        let mut old_count: usize = 0;
        let mut new_start: usize = 0;
        let mut new_count: usize = 0;
        let ghost all = self@.ops;
        let mut i: usize = hunk.start;
        assert(all.subrange(i as int, i as int) =~= Seq::empty());
        while i < hunk.end
            invariant
                self@.wf(),
                all == self@.ops,
                hunk.start <= i <= hunk.end <= all.len(),
                old_count <= i - hunk.start,
                new_count <= i - hunk.start,
                (old_start as int, old_count as int) == line_info(
                    align_laws::old_side(all.subrange(hunk.start as int, i as int)),
                ),
                (new_start as int, new_count as int) == line_info(
                    align_laws::new_side(all.subrange(hunk.start as int, i as int)),
                ),
            decreases hunk.end - i,
        {
            let op = &self.ops[i];
            proof {
                assert(align_laws::op_fits(
                    all[i as int],
                    self@.old_lines.len(),
                    self@.new_lines.len(),
                ));
                let next = all.subrange(hunk.start as int, i + 1);
                assert(next.drop_last() =~= all.subrange(hunk.start as int, i as int));
                assert(next.last() == all[i as int]);
            }
            if op.old != NO_LINE {
                if old_count == 0 {
                    old_start = op.old + 1;
                }
                old_count += 1;
            }
            if op.new != NO_LINE {
                if new_count == 0 {
                    new_start = op.new + 1;
                }
                new_count += 1;
            }
            i += 1;
        }
        (old_start, old_count, new_start, new_count)
    }

    /// Number of hidden lines above the given hunk.
    pub fn gap_above(&self, hunk_idx: usize) -> (gap: usize)
        requires
            self@.wf(),
            hunk_idx < self@.hunks.len(),
        ensures
            gap == self@.gap_above(hunk_idx as int),
    {
        assert(self@.hunks[hunk_idx as int].start >= 0);
        let prev_end: usize = if hunk_idx == 0 {
            0
        } else {
            assert(self@.hunks[hunk_idx - 1].end < self@.hunks[hunk_idx as int].start);
            self.hunks[hunk_idx - 1].end
        };
        self.hunks[hunk_idx].start - prev_end
    }

    /// Number of hidden lines below the last hunk.
    pub fn gap_below(&self) -> (gap: usize)
        requires
            self@.wf(),
        ensures
            gap == self@.gap_below(),
    {
        let n = self.hunks.len();
        if n == 0 {
            0
        } else {
            assert(self@.hunks[n - 1].end <= self@.ops.len());
            self.ops.len() - self.hunks[n - 1].end
        }
    }
}

/// The total length of the first `n` hunks and of the gaps above them.
pub open spec fn shown_and_hidden(file: FileView, n: int) -> int
    decreases n,
{
    if n <= 0 {
        0
    } else {
        shown_and_hidden(file, n - 1) + file.gap_above(n - 1) + (file.hunks[n - 1].end
            - file.hunks[n - 1].start)
    }
}

/// Shown and hidden lines account for the whole alignment: the gaps above the
/// hunks, the hunks and the gap below the last one add up to all ops.
pub proof fn law_gaps_and_hunks_partition(file: FileView)
    requires
        file.wf(),
        file.hunks.len() > 0,
    ensures
        shown_and_hidden(file, file.hunks.len() as int) + file.gap_below() == file.ops.len(),
{
    lemma_partition(file, file.hunks.len() as int);
}

proof fn lemma_partition(file: FileView, n: int)
    requires
        0 <= n <= file.hunks.len(),
    ensures
        shown_and_hidden(file, n) == file.end_above(n),
    decreases n,
{
    if n > 0 {
        lemma_partition(file, n - 1);
    }
}

/// The status under which a change is shown.
pub fn change_status(change: &FileChange) -> (status: FileStatus)
    ensures
        status == status_of(change@),
{
    match change {
        FileChange::Untracked { path: _ } => FileStatus::Added,
        FileChange::Modified { path: _ } => FileStatus::Modified,
        FileChange::Conflict { path: _ } => FileStatus::Conflict,
        FileChange::Deleted { path: _ } => FileStatus::Deleted,
        FileChange::Renamed { from_path: _, to_path: _ } => FileStatus::Renamed,
    }
}

/// The file whose base version the diff of a change needs: none for an added
/// file, the old path of a renamed one.
pub fn base_path(change: &FileChange) -> (r: Option<&FilePath>)
    ensures
        match r {
            Some(p) => !(status_of(change@) is Added) && p@ == change@.base_path(),
            None => status_of(change@) is Added,
        },
{
    match (change_status(change), change.old_path()) {
        (FileStatus::Added, _) => None,
        (_, Some(path)) => Some(path),
        (_, None) => Some(change.path()),
    }
}

/// The file in the working tree that the diff of a change needs: none for a
/// deleted file.
pub fn contents_path(change: &FileChange) -> (r: Option<&FilePath>)
    ensures
        match r {
            Some(p) => !(status_of(change@) is Deleted) && p@ == change@.path(),
            None => status_of(change@) is Deleted,
        },
{
    match change_status(change) {
        FileStatus::Deleted => None,
        _ => Some(change.path()),
    }
}

/// The bytes that were read, none where nothing was.
pub open spec fn bytes_or_empty(bytes: Option<Vec<u8>>) -> Seq<u8> {
    match bytes {
        Some(bytes) => bytes@,
        None => Seq::empty(),
    }
}

/// The base version that is diffed: an added file has none.
pub open spec fn old_bytes(change: ChangeView, base: Option<Vec<u8>>) -> Seq<u8> {
    if status_of(change) is Added {
        Seq::empty()
    } else {
        bytes_or_empty(base)
    }
}

/// The working-tree version that is diffed: a deleted file has none.
pub open spec fn new_bytes(change: ChangeView, contents: Option<Vec<u8>>) -> Seq<u8> {
    if status_of(change) is Deleted {
        Seq::empty()
    } else {
        bytes_or_empty(contents)
    }
}

/// The diff of a changed file without anything read: names and status only.
pub open spec fn bare_file(
    change: ChangeView,
    cwd: Seq<PartView>,
    binary: bool,
) -> FileView {
    FileView {
        path: change.path(),
        display_path: path::shown_path(change.path(), cwd),
        old_display_path: match change.old_path() {
            Some(p) => Some(path::shown_path(p, cwd)),
            None => None,
        },
        status: status_of(change),
        binary,
        old_lines: Seq::empty(),
        new_lines: Seq::empty(),
        ops: Seq::empty(),
        hunks: Seq::empty(),
        additions: 0,
        deletions: 0,
        collapsed: false,
    }
}

/// The diff of a changed text file. Large ones start out collapsed.
pub open spec fn text_file(
    change: ChangeView,
    cwd: Seq<PartView>,
    old: Seq<Seq<char>>,
    new: Seq<Seq<char>>,
    ignore_whitespace: bool,
) -> FileView {
    let file = FileView {
        old_lines: old,
        new_lines: new,
        ..bare_file(change, cwd, false)
    }.rediffed(ignore_whitespace);
    FileView { collapsed: file.additions + file.deletions > AUTO_COLLAPSE_CHANGES, ..file }
}

/// No line has too many characters.
pub open spec fn lines_fit(lines: Seq<Seq<char>>) -> bool {
    forall|i: int| 0 <= i < lines.len() ==> (#[trigger] lines[i]).len() <= MAX_LINE_LEN
}

/// The two texts can be diffed: they have neither too many lines nor lines that
/// are too long.
pub open spec fn texts_fit(old: Seq<char>, new: Seq<char>, ignore_whitespace: bool) -> bool {
    &&& lines_fit(text::lines_of(old))
    &&& lines_fit(text::lines_of(new))
    &&& align::comparable(text::lines_of(old), text::lines_of(new), ignore_whitespace)
}

/// The diff of a changed file, given the bytes of its two versions as far as
/// they could be read: without contents for a binary file, none for texts that
/// are too long.
pub open spec fn built(
    change: ChangeView,
    cwd: Seq<PartView>,
    base: Option<Vec<u8>>,
    contents: Option<Vec<u8>>,
    ignore_whitespace: bool,
) -> Option<FileView> {
    let old = old_bytes(change, base);
    let new = new_bytes(change, contents);
    let old_text = text::utf8_lossy(old);
    let new_text = text::utf8_lossy(new);
    if text::is_binary(old) || text::is_binary(new) {
        Some(bare_file(change, cwd, true))
    } else if texts_fit(old_text, new_text, ignore_whitespace) {
        Some(
            text_file(
                change,
                cwd,
                text::lines_of(old_text),
                text::lines_of(new_text),
                ignore_whitespace,
            ),
        )
    } else {
        None
    }
}

/// The names and status of a changed file, with no contents.
fn start_file(change: &FileChange, cwd: &FilePath, binary: bool) -> (file:
    FileDiff)
    ensures
        file@ == bare_file(change@, cwd@, binary),
        shows_path(file@.display_path, change@.path(), cwd@),
        change@.old_path() matches Some(p) ==> file@.old_display_path is Some && shows_path(
            file@.old_display_path.unwrap(),
            p,
            cwd@,
        ),
{
    let old_display_path = match change.old_path() {
        Some(p) => Some(path::display_path(p, cwd)),
        None => None,
    };
    let file = FileDiff {
        abs_path: change.path().clone(),
        display_path: path::display_path(change.path(), cwd),
        old_display_path,
        status: change_status(change),
        binary,
        old_lines: Vec::new(),
        new_lines: Vec::new(),
        ops: Vec::new(),
        hunks: Vec::new(),
        additions: 0,
        deletions: 0,
        collapsed: false,
    };
    assert(file@ =~= bare_file(change@, cwd@, binary));
    file
}

/// Builds the diff of a changed text file from its two versions' lines.
pub fn diff_text_file(
    change: &FileChange,
    cwd: &FilePath,
    old_lines: Vec<String>,
    new_lines: Vec<String>,
    ignore_whitespace: bool,
) -> (file: FileDiff)
    requires
        align::comparable(text::texts(old_lines@), text::texts(new_lines@), ignore_whitespace),
        lines_fit(text::texts(old_lines@)),
        lines_fit(text::texts(new_lines@)),
    ensures
        file@ == text_file(
            change@,
            cwd@,
            text::texts(old_lines@),
            text::texts(new_lines@),
            ignore_whitespace,
        ),
        shows_path(file@.display_path, change@.path(), cwd@),
        change@.old_path() matches Some(p) ==> file@.old_display_path is Some && shows_path(
            file@.old_display_path.unwrap(),
            p,
            cwd@,
        ),
        diff_laws::shows_diff(file@, ignore_whitespace),
        file@.wf(),
{
    let ghost old = text::texts(old_lines@);
    let ghost new = text::texts(new_lines@);
    let (ops, hunks, additions, deletions) = align::compute_ops(
        &old_lines,
        &new_lines,
        ignore_whitespace,
    );
    proof {
        let changes = align::changes_between(old, new, ignore_whitespace);
        align_laws::law_hunks_show_changes_with_context(old, new, changes);
    }
    proof {
        reveal(diff_laws::shows_diff);
    }
    let mut file = start_file(change, cwd, false);
    file.old_lines = old_lines;
    file.new_lines = new_lines;
    file.ops = ops;
    file.hunks = hunks;
    file.additions = additions;
    file.deletions = deletions;
    file.collapsed = additions + deletions > AUTO_COLLAPSE_CHANGES;
    assert(file@ =~= text_file(change@, cwd@, old, new, ignore_whitespace));
    file
}

/// The bytes that were read, none where nothing was.
fn bytes_read(bytes: Option<Vec<u8>>) -> (r: Vec<u8>)
    ensures
        r@ == bytes_or_empty(bytes),
{
    match bytes {
        Some(bytes) => bytes,
        None => Vec::new(),
    }
}

/// Whether no line has too many characters.
fn are_short(lines: &Vec<String>) -> (r: bool)
    ensures
        r == lines_fit(text::texts(lines@)),
{
    let mut i: usize = 0;
    while i < lines.len()
        invariant
            i <= lines@.len(),
            forall|k: int| 0 <= k < i ==> (#[trigger] lines@[k])@.len() <= MAX_LINE_LEN,
        decreases lines@.len() - i,
    {
        if lines[i].as_str().unicode_len() > MAX_LINE_LEN {
            assert(text::texts(lines@)[i as int].len() > MAX_LINE_LEN);
            return false;
        }
        i += 1;
    }
    true
}

/// What is valid text is shown as it is: the paths of a changed file, and the
/// lines of its versions.
pub open spec fn shows_text(
    file: FileView,
    change: ChangeView,
    cwd: Seq<PartView>,
    base: Option<Vec<u8>>,
    contents: Option<Vec<u8>>,
) -> bool {
    let old = old_bytes(change, base);
    let new = new_bytes(change, contents);
    &&& shows_path(file.display_path, change.path(), cwd)
    &&& change.old_path() matches Some(p) ==> file.old_display_path is Some && shows_path(
        file.old_display_path.unwrap(),
        p,
        cwd,
    )
    &&& !file.binary && utf8::valid_utf8(old) ==> file.old_lines == text::lines_of(
        utf8::decode_utf8(old),
    )
    &&& !file.binary && utf8::valid_utf8(new) ==> file.new_lines == text::lines_of(
        utf8::decode_utf8(new),
    )
    &&& file.status is Added ==> file.old_lines.len() == 0
    &&& file.status is Deleted ==> file.new_lines.len() == 0
}

/// A path whose shown part is valid text is shown as that text.
pub open spec fn shows_path(shown: Seq<char>, path: Seq<PartView>, cwd: Seq<PartView>) -> bool {
    let bytes = path::spelling(path::shown_part(path, cwd));
    utf8::valid_utf8(bytes) ==> shown == utf8::decode_utf8(bytes)
}

/// Builds the diff of a changed file from the bytes of its two versions, as
/// far as they could be read. Binary contents are not shown. `None` only for
/// texts that are too long to be diffed.
pub fn build_file_diff(
    change: &FileChange,
    cwd: &FilePath,
    base: Option<Vec<u8>>,
    contents: Option<Vec<u8>>,
    ignore_whitespace: bool,
) -> (file: Option<FileDiff>)
    ensures
        match file {
            Some(file) => {
                &&& file@.wf()
                &&& Some(file@) == built(
                    change@,
                    cwd@,
                    base,
                    contents,
                    ignore_whitespace,
                )
                &&& shows_text(file@, change@, cwd@, base, contents)
                &&& diff_laws::shows_diff(file@, ignore_whitespace)
            },
            None => built(change@, cwd@, base, contents, ignore_whitespace) is None,
        },
        old_bytes(change@, base).len() <= 0x400_0000 && new_bytes(change@, contents).len()
            <= 0x400_0000 ==> file is Some,
{
    let status = change_status(change);
    let old: Vec<u8> = match status {
        FileStatus::Added => Vec::new(),
        _ => bytes_read(base),
    };
    let new: Vec<u8> = match status {
        FileStatus::Deleted => Vec::new(),
        _ => bytes_read(contents),
    };
    assert(old@ =~= old_bytes(change@, base));
    assert(new@ =~= new_bytes(change@, contents));
    if text::looks_binary(&old) || text::looks_binary(&new) {
        proof {
            reveal(diff_laws::shows_diff);
        }
        return Some(start_file(change, cwd, true));
    }
    let old_text = text::decode_lossy(&old);
    let new_text = text::decode_lossy(&new);
    let old_lines = text::split_lines(old_text.as_str());
    let new_lines = text::split_lines(new_text.as_str());
    proof {
        text::law_lines_fit(old_text@);
        text::law_lines_fit(new_text@);
        if old@.len() <= 0x400_0000 && new@.len() <= 0x400_0000 {
            limits::law_few_lines_are_diffable(
                align::compared(text::texts(old_lines@), ignore_whitespace),
                align::compared(text::texts(new_lines@), ignore_whitespace),
            );
        }
    }
    if !are_short(&old_lines) || !are_short(&new_lines) || !align::can_compute_ops(
        &old_lines,
        &new_lines,
        ignore_whitespace,
    ) {
        return None;
    }
    proof {
        text::lemma_empty_text();
    }
    Some(diff_text_file(change, cwd, old_lines, new_lines, ignore_whitespace))
}

/// The contents of a list of file diffs.
pub open spec fn file_views(files: Seq<FileDiff>) -> Seq<FileView> {
    files.map_values(|f: FileDiff| f@)
}

/// The diffs of a workspace: no path occurs twice, and the paths are in order.
pub open spec fn paths_ordered(files: Seq<FileView>) -> bool {
    forall|i: int, j: int|
        0 <= i < j < files.len() ==> path::path_before(
            (#[trigger] files[i]).key(),
            (#[trigger] files[j]).key(),
        )
}

/// Of two entries for one path, `i` is kept rather than `j`: it carries rename
/// information and `j` does not, or neither differs in that and it comes first.
pub open spec fn preferred(files: Seq<FileView>, i: int, j: int) -> bool {
    if files[i].old_display_path is Some <==> files[j].old_display_path is Some {
        i < j
    } else {
        files[i].old_display_path is Some
    }
}

/// Entry `i` is the one kept for its path among the entries from `from` on.
pub open spec fn kept_from(files: Seq<FileView>, from: int, i: int) -> bool {
    &&& from <= i < files.len()
    &&& forall|j: int|
        from <= j < files.len() && j != i && (#[trigger] files[j]).key() == files[i].key()
            ==> preferred(files, i, j)
}

/// Entry `i` is the one kept for its path.
pub open spec fn is_kept(files: Seq<FileView>, i: int) -> bool {
    kept_from(files, 0, i)
}

/// `file` is one of the kept entries.
pub open spec fn is_kept_entry(files: Seq<FileView>, file: FileView) -> bool {
    exists|i: int| #[trigger] is_kept(files, i) && files[i] == file
}

/// `kept` holds exactly the kept entries of `files`, ordered by path.
pub open spec fn is_dedup(kept: Seq<FileView>, files: Seq<FileView>) -> bool {
    &&& paths_ordered(kept)
    &&& forall|k: int| 0 <= k < kept.len() ==> is_kept_entry(files, #[trigger] kept[k])
    &&& forall|i: int| #[trigger] is_kept(files, i) ==> kept.contains(files[i])
}

/// Where a path stands in an ordered list of files, and whether it does; or
/// else where it would have to be inserted.
fn find_path(files: &Vec<FileDiff>, path: &FilePath) -> (r: (usize, bool))
    requires
        paths_ordered(file_views(files@)),
    ensures
        r.0 <= files@.len(),
        r.1 ==> r.0 < files@.len() && files@[r.0 as int]@.key() == path::components(path@),
        forall|k: int|
            0 <= k < r.0 ==> path::path_before(
                (#[trigger] files@[k])@.key(),
                path::components(path@),
            ),
        forall|k: int|
            r.0 <= k < files@.len() && !(r.1 && k == r.0) ==> path::path_before(
                path::components(path@),
                (#[trigger] files@[k])@.key(),
            ),
{
    let ghost key = path::components(path@);
    let ghost views = file_views(files@);
    let mut low: usize = 0;
    let mut high: usize = files.len();
    while low < high
        invariant
            views == file_views(files@),
            key == path::components(path@),
            paths_ordered(views),
            low <= high <= files@.len(),
            forall|k: int| 0 <= k < low ==> path::path_before((#[trigger] files@[k])@.key(), key),
            forall|k: int|
                high <= k < files@.len() ==> path::path_before(key, (#[trigger] files@[k])@.key()),
        decreases high - low,
    {
        let mid: usize = low + (high - low) / 2;
        let ghost at = views[mid as int].key();
        let order = files[mid].abs_path.relate(path);
        proof {
            assert(at == files@[mid as int]@.key());
            assert forall|k: int| 0 <= k < mid implies path::path_before(
                (#[trigger] files@[k])@.key(),
                at,
            ) by {
                assert(views[k] == files@[k]@);
            }
            assert forall|k: int| mid < k < files@.len() implies path::path_before(
                at,
                (#[trigger] files@[k])@.key(),
            ) by {
                assert(views[k] == files@[k]@);
            }
            assert forall|k: int| 0 <= k < mid && path::path_before(at, key) implies
                path::path_before((#[trigger] files@[k])@.key(), key) by {
                path::law_path_order_is_total(files@[k]@.key(), at, key);
            }
            assert forall|k: int|
                mid < k < files@.len() && path::path_before(key, at) implies path::path_before(
                key,
                (#[trigger] files@[k])@.key(),
            ) by {
                path::law_path_order_is_total(key, at, files@[k]@.key());
            }
        }
        match order {
            Rel::Before => {
                low = mid + 1;
            },
            Rel::Same => {
                return (mid, true);
            },
            Rel::After => {
                high = mid;
            },
        }
    }
    (low, false)
}

/// Orders the files of a workspace by path and keeps one entry per path: a
/// file changed both in the index and the worktree is reported twice. The
/// entry carrying rename information is preferred.
pub fn dedup_files(files: Vec<FileDiff>) -> (kept: Vec<FileDiff>)
    ensures
        is_dedup(file_views(kept@), file_views(files@)),
        (forall|i: int| 0 <= i < files@.len() ==> (#[trigger] files@[i])@.wf()) ==> (forall|k: int|
            0 <= k < kept@.len() ==> (#[trigger] kept@[k])@.wf()),
{
    let ghost all = file_views(files@);
    let mut rest = files;
    let mut kept: Vec<FileDiff> = Vec::new();
    let ghost mut source: Seq<int> = Seq::empty();
    while rest.len() > 0
        invariant
            rest@.len() <= all.len(),
            forall|i: int| 0 <= i < rest@.len() ==> (#[trigger] rest@[i])@ == all[i],
            source.len() == kept@.len(),
            paths_ordered(file_views(kept@)),
            forall|k: int|
                0 <= k < kept@.len() ==> kept_from(all, rest@.len() as int, #[trigger] source[k])
                    && all[source[k]] == kept@[k]@,
            forall|j: int|
                rest@.len() <= j < all.len() ==> exists|k: int|
                    0 <= k < kept@.len() && (#[trigger] kept@[k])@.key() == (
                    #[trigger] all[j]).key(),
        decreases rest@.len(),
    {
        let ghost n = rest@.len() as int;
        let ghost before = kept@;
        let ghost from = source;
        let next = rest.pop();
        if let Some(file) = next {
            let ghost m = n - 1;
            assert(file@ == all[m]);
            let (pos, found) = find_path(&kept, &file.abs_path);
            proof {
                assert forall|k: int| 0 <= k < before.len() && !(found && k == pos) implies (
                #[trigger] before[k])@.key() != file@.key() by {
                    path::law_path_order_is_total(file@.key(), file@.key(), file@.key());
                }
            }
            if found {
                let keeps = kept[pos].old_display_path.is_some() && file.old_display_path.is_none();
                if !keeps {
                    kept.set(pos, file);
                    proof {
                        source = source.update(pos as int, m);
                    }
                }
                proof {
                    assert forall|k: int| 0 <= k < kept@.len() implies kept_from(
                        all,
                        m,
                        #[trigger] source[k],
                    ) && all[source[k]] == kept@[k]@ by {
                        assert(kept_from(all, n, from[k]) && all[from[k]] == before[k]@);
                    }
                    assert forall|j: int| m <= j < all.len() implies exists|k: int|
                        0 <= k < kept@.len() && (#[trigger] kept@[k])@.key() == (
                        #[trigger] all[j]).key() by {
                        let k = if j == m {
                            pos as int
                        } else {
                            choose|k: int|
                                0 <= k < before.len() && (#[trigger] before[k])@.key()
                                    == all[j].key()
                        };
                        assert(kept@[k]@.key() == before[k]@.key());
                    }
                    assert forall|k: int| 0 <= k < kept@.len() implies (
                    #[trigger] file_views(kept@)[k]).key() == file_views(before)[k].key() by {}
                }
            } else {
                proof {
                    source = source.insert(pos as int, m);
                }
                kept.insert(pos, file);
                proof {
                    let views = file_views(kept@);
                    let old_views = file_views(before);
                    assert forall|i: int, j: int| 0 <= i < j < views.len() implies
                        path::path_before((#[trigger] views[i]).key(), (#[trigger] views[j]).key()) by {
                        let a = if i < pos {
                            i
                        } else {
                            i - 1
                        };
                        let b = if j < pos {
                            j
                        } else {
                            j - 1
                        };
                        if i != pos {
                            assert(views[i] == old_views[a] && old_views[a] == before[a]@);
                        }
                        if j != pos {
                            assert(views[j] == old_views[b] && old_views[b] == before[b]@);
                        }
                    }
                    assert forall|k: int| 0 <= k < kept@.len() implies kept_from(
                        all,
                        m,
                        #[trigger] source[k],
                    ) && all[source[k]] == kept@[k]@ by {
                        let a = if k < pos {
                            k
                        } else {
                            k - 1
                        };
                        if k != pos {
                            assert(source[k] == from[a]);
                            assert(kept_from(all, n, from[a]) && all[from[a]] == before[a]@);
                        } else {
                            assert forall|j: int|
                                m <= j < all.len() && j != m && (#[trigger] all[j]).key()
                                    == all[m].key() implies preferred(all, m, j) by {
                                let b = choose|b: int|
                                    0 <= b < before.len() && (#[trigger] before[b])@.key()
                                        == all[j].key();
                                assert(before[b]@.key() != file@.key());
                            }
                        }
                    }
                    assert forall|j: int| m <= j < all.len() implies exists|k: int|
                        0 <= k < kept@.len() && (#[trigger] kept@[k])@.key() == (
                        #[trigger] all[j]).key() by {
                        if j == m {
                            assert(kept@[pos as int]@.key() == all[j].key());
                        } else {
                            let b = choose|b: int|
                                0 <= b < before.len() && (#[trigger] before[b])@.key()
                                    == all[j].key();
                            let k = if b < pos {
                                b
                            } else {
                                b + 1
                            };
                            assert(kept@[k] == before[b]);
                        }
                    }
                }
            }
        }
    }
    proof {
        let views = file_views(kept@);
        assert forall|k: int| 0 <= k < views.len() implies is_kept_entry(
            all,
            #[trigger] views[k],
        ) by {
            assert(is_kept(all, source[k]) && all[source[k]] == views[k]);
        }
        assert forall|i: int| #[trigger] is_kept(all, i) implies views.contains(
            all[i],
        ) by {
            let k = choose|k: int| 0 <= k < kept@.len() && (#[trigger] kept@[k])@.key() == all[i].key();
            assert(kept_from(all, 0, source[k]));
            assert(views[k] == all[source[k]]);
            assert(source[k] == i);
        }
        assert forall|k: int|
            (forall|i: int| 0 <= i < files@.len() ==> (#[trigger] files@[i])@.wf()) && 0 <= k
                < kept@.len() implies (#[trigger] kept@[k])@.wf() by {
            assert(kept_from(all, 0, source[k]));
            assert(all[source[k]] == files@[source[k]]@);
        }
    }
    kept
}

/// The entry preferred over all others of one path.
proof fn lemma_some_entry_is_kept(files: Seq<FileView>, j: int, n: int) -> (best: int)
    requires
        0 <= j < n <= files.len(),
    ensures
        0 <= best < n,
        files[best].key() == files[j].key(),
        forall|k: int|
            0 <= k < n && k != best && (#[trigger] files[k]).key() == files[j].key() ==> preferred(
                files,
                best,
                k,
            ),
    decreases n,
{
    if n == j + 1 && (forall|k: int| 0 <= k < j ==> (#[trigger] files[k]).key() != files[j].key()) {
        j
    } else {
        let other = if j < n - 1 {
            j
        } else {
            choose|k: int| 0 <= k < j && (#[trigger] files[k]).key() == files[j].key()
        };
        let best = lemma_some_entry_is_kept(files, other, n - 1);
        if files[n - 1].key() == files[j].key() && preferred(files, n - 1, best) {
            n - 1
        } else {
            best
        }
    }
}

/// No path is lost and none is listed twice: every path that was reported has
/// exactly one entry, and that entry carries rename information if any report
/// of the path did.
pub proof fn law_dedup_keeps_every_path(kept: Seq<FileView>, files: Seq<FileView>, j: int)
    requires
        is_dedup(kept, files),
        0 <= j < files.len(),
    ensures
        exists|k: int|
            0 <= k < kept.len() && (#[trigger] kept[k]).key() == files[j].key() && (
            files[j].old_display_path is Some ==> kept[k].old_display_path is Some),
        forall|a: int, b: int|
            0 <= a < b < kept.len() ==> (#[trigger] kept[a]).key() != (#[trigger] kept[b]).key(),
{
    let i = lemma_some_entry_is_kept(files, j, files.len() as int);
    assert(is_kept(files, i));
    assert(kept.contains(files[i]));
    let k = choose|k: int| 0 <= k < kept.len() && kept[k] == files[i];
    assert(kept[k].key() == files[j].key());
    assert forall|a: int, b: int| 0 <= a < b < kept.len() implies (#[trigger] kept[a]).key() != (
    #[trigger] kept[b]).key() by {
        path::law_path_order_is_total(kept[a].key(), kept[a].key(), kept[a].key());
    }
}

/// What the diff of a changed file holds. It is binary where one of the two
/// versions is, and then has no contents and starts out open. Otherwise it is
/// the line diff of the two versions, and starts out collapsed where more lines
/// changed than a limit.
pub proof fn law_built_diff(
    change: ChangeView,
    cwd: Seq<PartView>,
    base: Option<Vec<u8>>,
    contents: Option<Vec<u8>>,
    ignore_whitespace: bool,
)
    ensures
        built(change, cwd, base, contents, ignore_whitespace) matches Some(file) ==> {
            let old = old_bytes(change, base);
            let new = new_bytes(change, contents);
            let diff = align::alignment(
                file.old_lines,
                file.new_lines,
                align::changes_between(file.old_lines, file.new_lines, ignore_whitespace),
            );
            &&& file.binary <==> text::is_binary(old) || text::is_binary(new)
            &&& file.binary ==> {
                &&& file.old_lines.len() == 0 && file.new_lines.len() == 0
                &&& file.ops.len() == 0 && file.hunks.len() == 0
                &&& file.additions == 0 && file.deletions == 0
                &&& !file.collapsed
            }
            &&& !file.binary ==> {
                &&& file.old_lines == text::lines_of(text::utf8_lossy(old))
                &&& file.new_lines == text::lines_of(text::utf8_lossy(new))
                &&& file.ops == diff.ops && file.hunks == diff.hunks
                &&& file.additions == diff.additions && file.deletions == diff.deletions
            }
            &&& file.collapsed <==> file.additions + file.deletions > AUTO_COLLAPSE_CHANGES
        },
{
}

/// There is a diff of every changed file whose versions are not too long.
pub proof fn law_diff_is_built(
    change: ChangeView,
    cwd: Seq<PartView>,
    base: Option<Vec<u8>>,
    contents: Option<Vec<u8>>,
    ignore_whitespace: bool,
)
    requires
        texts_fit(
            text::utf8_lossy(old_bytes(change, base)),
            text::utf8_lossy(new_bytes(change, contents)),
            ignore_whitespace,
        ),
    ensures
        built(change, cwd, base, contents, ignore_whitespace) is Some,
{
}

} // verus!
