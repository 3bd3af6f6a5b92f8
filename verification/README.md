# diffviewer

The core of a desktop diff tool for Git, Perforce, patch files and two-file
comparisons, written in Verus. The functions in `src/` carry contracts that
Verus proves, except the few marked `#[verifier::external_body]`: those make
one call into `std`, `serde_json`, `sha2` or `url`, and their contracts (or
the lack of one, for the `std::path` calls in `src/paths.rs`) are trusted.

- `src/diff_engine/` reads unified diffs, computes line diffs (LCS) and their
  hunks, aligns two texts side by side, groups rows into navigation blocks,
  and applies hunks to a merge buffer.
- `src/providers/` reads the output of `git` and `p4` and decides the paths,
  statuses and titles of imported file diffs.
- `src/scm.rs` and `src/scm/` decide where each side of an imported file diff
  comes from and where a merge result is written, read `.p4config` files,
  and name GitHub/GitLab repositories and their pull-request listings.
- `src/services/` holds saved workspace locations, merge-buffer decisions,
  open requests and the folder picker's script.
- `src/content_source.rs`, `src/json.rs` and `src/workspace_controller.rs`
  write and read the small JSON records that are stored.
- `src/io.rs` decodes file bytes and line endings and hashes content.

`app/` is the command-line front end around the library: SQLite storage,
the file system, running `git` and `p4`, HTTP requests, and the serde forms of
the library's types.
