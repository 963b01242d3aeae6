# diff_viewer

A full-screen view of every change in a workspace, like a pull-request diff:
per-file sections with change counts, unified or side-by-side hunks, highlights
within changed lines, and context that can be expanded. Any line can be opened
in the editor at its position.

- `src/` is the library. Verus proves that it does what its contracts say.
  - `text`, `intraline`, `limits`, `align`, `align_laws`: lines, changed parts of
    lines, how many lines can be diffed, the alignment of two versions of a file
    and the hunks that are displayed.
  - `path`, `status`, `file_diff`, `gather`: changed files and their diffs.
  - `rows`, `input`, `geometry`, `state`, `state_laws`, `viewer`: the viewer as
    a state machine.
  - `columns`, `theme`, `render`, `frame`, `frame_laws`: what is drawn where.
  - `vcs`, `git`, `git_laws`, `changes`, `reports`: what is asked of version
    control, what is made of the answers, and what is reported of them.
- `tests/` runs the library on examples.
- `app/` connects it to repositories on disk, background tasks and a terminal.

A file named `*_laws.rs` holds statements about several functions at once; so
does every proof function whose name begins with `law_`.
