//! Turning the parsed diff of a source-control import into stored file diffs:
//! the texts a diff itself holds, where each side's text comes from, where a
//! merge result is written, and what a refresh re-imports.
use vstd::prelude::*;
use crate::content_source::{TargetV, WriteTarget};
use crate::diff_engine::merge::{join, join_exec, texts_for_exec};
use crate::diff_engine::unified_parser::{dev_null, file_views, texts_for, FileV, HunkV, PatchFileDiff};
use crate::json::{field_views, json_object, json_str_field, object_json, JsonScalar, ScalarV};
use crate::content_source::required_field_of;
use crate::paths::{joined, path_join};
use crate::providers::ImportTarget;
use crate::providers::p4::{local_path_rules, lookup, lookup_exec, opt_view, pair_views, pending_local_path, strip_p4_rev, strip_rev_spec};
use crate::scm::p4_config::P4Config;
use crate::text::{chars_of, concat, has_prefix, owned, starts_with, str_eq, views};

pub mod p4_config;
pub mod pr_api;
pub mod process;

verus! {

/// How the files of an import are read and written back.
#[derive(Debug, Clone)]
pub enum WriteTargetMode {
    /// A git working tree: the right side is the file in the tree.
    GitWorkingTree { repo_path: String },
    /// A git commit (or fetched pull request): both sides read-only.
    GitCommit { repo_path: String, rev: String },
    /// A Perforce pending changelist: the right side is the local file.
    P4Pending { cwd: Option<String>, config: P4Config },
    /// A shelved or submitted Perforce changelist: read-only.
    P4ReadOnly { cwd: Option<String>, config: P4Config },
}

// ---------------------------------------------------------------------------
// The texts a diff holds
// ---------------------------------------------------------------------------

/// The lines of all hunks that belong to `source` ("left": context and
/// deleted lines, "right": context and added lines), hunk after hunk.
pub open spec fn side_lines(hs: Seq<HunkV>, source: Seq<char>) -> Seq<Seq<char>>
    decreases hs.len(),
{
    if hs.len() == 0 {
        seq![]
    } else {
        side_lines(hs.drop_last(), source) + texts_for(hs.last().lines, source)
    }
}

/// The old text as far as the diff shows it: its context and deleted lines,
/// joined by newlines.
pub open spec fn old_text_spec(f: FileV) -> Seq<char> {
    join(side_lines(f.hunks, "left"@), "\n"@)
}

/// The new text as far as the diff shows it: its context and added lines,
/// joined by newlines.
pub open spec fn new_text_spec(f: FileV) -> Seq<char> {
    join(side_lines(f.hunks, "right"@), "\n"@)
}

fn side_text(pf: &PatchFileDiff, source: &str) -> (r: String)
    ensures
        r@ == join(side_lines(pf@.hunks, source@), "\n"@),
{
    let mut all: Vec<String> = Vec::new();
    let mut i: usize = 0;
    let ghost hs = pf@.hunks;
    assert(hs.take(0) =~= Seq::<HunkV>::empty());
    assert(views(all@) =~= seq![]);
    while i < pf.hunks.len()
        invariant
            i <= pf.hunks.len(),
            hs == pf@.hunks,
            views(all@) == side_lines(hs.take(i as int), source@),
        decreases pf.hunks.len() - i,
    {
        let part = texts_for_exec(&pf.hunks[i], source);
        let ghost before = views(all@);
        let mut k: usize = 0;
        while k < part.len()
            invariant
                k <= part.len(),
                views(all@) == before + views(part@).take(k as int),
            decreases part.len() - k,
        {
            let ghost prev = all@;
            all.push(part[k].clone());
            assert(views(all@) =~= views(prev).push(part@[k as int]@));
            assert(views(part@).take(k + 1) =~= views(part@).take(k as int).push(part@[k as int]@));
            assert(views(all@) =~= before + views(part@).take(k + 1));
            k = k + 1;
        }
        assert(views(part@).take(part.len() as int) == views(part@));
        let ghost t = hs.take(i + 1);
        assert(t.drop_last() == hs.take(i as int));
        assert(t.last() == pf.hunks@[i as int]@);
        i = i + 1;
    }
    assert(hs.take(pf.hunks.len() as int) == hs);
    join_exec(&all)
}

/// The old text that the diff shows (see `old_text_spec`).
pub fn reconstruct_old_text(pf: &PatchFileDiff) -> (r: String)
    ensures
        r@ == old_text_spec(pf@),
{
    side_text(pf, "left")
}

/// The new text that the diff shows (see `new_text_spec`).
pub fn reconstruct_new_text(pf: &PatchFileDiff) -> (r: String)
    ensures
        r@ == new_text_spec(pf@),
{
    side_text(pf, "right")
}

// ---------------------------------------------------------------------------
// Where each side's text comes from
// ---------------------------------------------------------------------------

/// Where the text of one side of a file diff comes from.
#[derive(Debug, Clone, PartialEq, Eq)]
pub enum SidePlan {
    /// This text.
    Text(String),
    /// `git show <rev>:<path>` in the repository.
    GitShow { rev: String, path: String },
    /// `p4 print` of this depot path (or what was fetched of it before).
    P4Print(String),
    /// The file at `path` where it exists, else the text `fallback`.
    FileOr { path: String, fallback: String },
}

pub open spec fn is_text(p: SidePlan, t: Seq<char>) -> bool {
    p matches SidePlan::Text(x) && x@ == t
}

pub open spec fn is_show(p: SidePlan, rev: Seq<char>, path: Seq<char>) -> bool {
    p matches SidePlan::GitShow { rev: r, path: q } && r@ == rev && q@ == path
}

pub open spec fn is_print(p: SidePlan, path: Seq<char>) -> bool {
    p matches SidePlan::P4Print(x) && x@ == path
}

pub open spec fn is_file_or(p: SidePlan, fallback: Seq<char>) -> bool {
    p matches SidePlan::FileOr { fallback: f, .. } && f@ == fallback
}

/// A side that Perforce may hold: nothing for `/dev/null`, the depot file
/// for a depot path, else the text the diff shows.
pub open spec fn p4_side(path: Seq<char>, shown: Seq<char>, p: SidePlan) -> bool {
    if path == dev_null() {
        is_text(p, seq![])
    } else if has_prefix(path, "//"@) {
        is_print(p, path)
    } else {
        is_text(p, shown)
    }
}

fn p4_side_plan(path: &String, shown: String) -> (r: SidePlan)
    ensures
        p4_side(path@, shown@, r),
{
    proof {
        reveal_strlit("//");
        reveal_strlit("");
        assert(""@ =~= Seq::<char>::empty());
    }
    if str_eq(path.as_str(), "/dev/null") {
        SidePlan::Text(owned(""))
    } else if starts_with(&chars_of(path.as_str()), "//") {
        SidePlan::P4Print(path.clone())
    } else {
        SidePlan::Text(shown)
    }
}

/// Where the left and right texts of the file diff `pf`, shown under
/// `display_path`, come from:
/// - a git working tree: the file at `HEAD` (nothing for an added file); the
///   file in the tree where it exists, else the text the diff shows;
/// - a git commit: the file at the commit's parent and at the commit (nothing
///   for an added or deleted file);
/// - a pending changelist: the depot file (nothing for an added file, the
///   text the diff shows for a non-depot path); the local file where it
///   exists, else the text the diff shows;
/// - a read-only changelist: the depot files, or the texts the diff shows.
pub fn content_plan(mode: &WriteTargetMode, pf: &PatchFileDiff, display_path: &str) -> (r: (
    SidePlan,
    SidePlan,
))
    ensures
        match mode {
            WriteTargetMode::GitWorkingTree { repo_path } => {
                &&& (if pf@.old_path == dev_null() {
                    is_text(r.0, seq![])
                } else {
                    is_show(r.0, "HEAD"@, pf@.old_path)
                })
                &&& (if pf@.new_path == dev_null() {
                    is_text(r.1, new_text_spec(pf@))
                } else {
                    &&& is_file_or(r.1, new_text_spec(pf@))
                    &&& r.1 matches SidePlan::FileOr { path, .. } && joined(
                        repo_path@,
                        display_path@,
                        path@,
                    )
                })
            },
            WriteTargetMode::GitCommit { rev, .. } => {
                &&& (if pf@.old_path == dev_null() {
                    is_text(r.0, seq![])
                } else {
                    is_show(r.0, rev@ + "^"@, pf@.old_path)
                })
                &&& (if pf@.new_path == dev_null() {
                    is_text(r.1, seq![])
                } else {
                    is_show(r.1, rev@, pf@.new_path)
                })
            },
            WriteTargetMode::P4Pending { cwd, .. } => {
                &&& p4_side(pf@.old_path, old_text_spec(pf@), r.0)
                &&& match r.1 {
                    SidePlan::FileOr { path, fallback } => {
                        &&& fallback@ == new_text_spec(pf@)
                        &&& local_path_rules(pf@, opt_view(*cwd), Some(path@))
                    },
                    _ => {
                        &&& is_text(r.1, new_text_spec(pf@))
                        &&& local_path_rules(pf@, opt_view(*cwd), None)
                    },
                }
            },
            WriteTargetMode::P4ReadOnly { .. } => {
                &&& p4_side(pf@.old_path, old_text_spec(pf@), r.0)
                &&& p4_side(pf@.new_path, new_text_spec(pf@), r.1)
            },
        },
{
    proof {
        reveal_strlit("");
        assert(""@ =~= Seq::<char>::empty());
    }
    let old_null = str_eq(pf.old_path.as_str(), "/dev/null");
    let new_null = str_eq(pf.new_path.as_str(), "/dev/null");
    match mode {
        WriteTargetMode::GitWorkingTree { repo_path } => {
            let left = if old_null {
                SidePlan::Text(owned(""))
            } else {
                SidePlan::GitShow { rev: owned("HEAD"), path: pf.old_path.clone() }
            };
            let right = if new_null {
                SidePlan::Text(reconstruct_new_text(pf))
            } else {
                SidePlan::FileOr {
                    path: path_join(repo_path.as_str(), display_path),
                    fallback: reconstruct_new_text(pf),
                }
            };
            (left, right)
        },
        WriteTargetMode::GitCommit { rev, .. } => {
            let left = if old_null {
                SidePlan::Text(owned(""))
            } else {
                SidePlan::GitShow { rev: concat(rev.as_str(), "^"), path: pf.old_path.clone() }
            };
            let right = if new_null {
                SidePlan::Text(owned(""))
            } else {
                SidePlan::GitShow { rev: rev.clone(), path: pf.new_path.clone() }
            };
            (left, right)
        },
        WriteTargetMode::P4Pending { cwd, .. } => {
            let left = p4_side_plan(&pf.old_path, reconstruct_old_text(pf));
            let c: Option<&str> = match cwd {
                Some(c) => Some(c.as_str()),
                None => None,
            };
            let right = match pending_local_path(pf, c) {
                Some(lp) => SidePlan::FileOr { path: lp, fallback: reconstruct_new_text(pf) },
                None => SidePlan::Text(reconstruct_new_text(pf)),
            };
            (left, right)
        },
        WriteTargetMode::P4ReadOnly { .. } => {
            let left = p4_side_plan(&pf.old_path, reconstruct_old_text(pf));
            let right = p4_side_plan(&pf.new_path, reconstruct_new_text(pf));
            (left, right)
        },
    }
}

/// The depot files of a changelist import whose text is fetched ahead: the
/// old depot paths of a pending changelist, the old and new ones of a
/// read-only changelist, none for git.
pub open spec fn prefetch_spec(read_only: bool, fs: Seq<FileV>) -> Seq<Seq<char>>
    decreases fs.len(),
{
    if fs.len() == 0 {
        seq![]
    } else {
        let f = fs.last();
        prefetch_spec(read_only, fs.drop_last()) + (if has_prefix(f.old_path, "//"@) {
            seq![f.old_path]
        } else {
            Seq::<Seq<char>>::empty()
        }) + (if read_only && has_prefix(f.new_path, "//"@) {
            seq![f.new_path]
        } else {
            Seq::<Seq<char>>::empty()
        })
    }
}

/// See `prefetch_spec`.
pub fn prefetch_p4_paths(mode: &WriteTargetMode, parsed: &Vec<PatchFileDiff>) -> (r: Vec<String>)
    ensures
        views(r@) == match mode {
            WriteTargetMode::P4Pending { .. } => prefetch_spec(false, file_views(parsed@)),
            WriteTargetMode::P4ReadOnly { .. } => prefetch_spec(true, file_views(parsed@)),
            _ => Seq::<Seq<char>>::empty(),
        },
{
    proof {
        reveal_strlit("//");
    }
    let read_only = match mode {
        WriteTargetMode::P4Pending { .. } => false,
        WriteTargetMode::P4ReadOnly { .. } => true,
        _ => {
            let r: Vec<String> = Vec::new();
            assert(views(r@) =~= Seq::<Seq<char>>::empty());
            return r;
        },
    };
    let mut out: Vec<String> = Vec::new();
    let ghost fv = file_views(parsed@);
    let mut i: usize = 0;
    assert(fv.take(0) =~= Seq::<FileV>::empty());
    assert(views(out@) =~= seq![]);
    while i < parsed.len()
        invariant
            i <= parsed.len(),
            fv == file_views(parsed@),
            views(out@) == prefetch_spec(read_only, fv.take(i as int)),
        decreases parsed.len() - i,
    {
        let ghost before = views(out@);
        let pf = &parsed[i];
        let ghost t = fv.take(i + 1);
        assert(t.drop_last() == fv.take(i as int));
        assert(t.last() == pf@);
        if starts_with(&chars_of(pf.old_path.as_str()), "//") {
            out.push(pf.old_path.clone());
        }
        let ghost mid = views(out@);
        assert(mid =~= before + (if has_prefix(pf@.old_path, "//"@) {
            seq![pf@.old_path]
        } else {
            Seq::<Seq<char>>::empty()
        }));
        if read_only && starts_with(&chars_of(pf.new_path.as_str()), "//") {
            out.push(pf.new_path.clone());
        }
        assert(views(out@) =~= mid + (if read_only && has_prefix(pf@.new_path, "//"@) {
            seq![pf@.new_path]
        } else {
            Seq::<Seq<char>>::empty()
        }));
        i = i + 1;
    }
    assert(fv.take(parsed.len() as int) == fv);
    out
}

// ---------------------------------------------------------------------------
// Where a merge result is written
// ---------------------------------------------------------------------------

/// Where a merge result of a file diff is written: into the working tree for
/// a git working tree, to the local file of a pending changelist (or wherever
/// the user chooses where it has none), nowhere for commits and read-only
/// changelists.
pub fn derive_write_target(mode: &WriteTargetMode, pf: &PatchFileDiff, display_path: &str) -> (r:
    WriteTarget)
    ensures
        match mode {
            WriteTargetMode::GitWorkingTree { repo_path } => r@ matches TargetV::Path(p) && joined(
                repo_path@,
                display_path@,
                p,
            ),
            WriteTargetMode::GitCommit { .. } => r@ == TargetV::ReadOnly,
            WriteTargetMode::P4Pending { cwd, .. } => match r@ {
                TargetV::Path(p) => local_path_rules(pf@, opt_view(*cwd), Some(p)),
                TargetV::SaveAsRequired => local_path_rules(pf@, opt_view(*cwd), None),
                TargetV::ReadOnly => false,
            },
            WriteTargetMode::P4ReadOnly { .. } => r@ == TargetV::ReadOnly,
        },
{
    match mode {
        WriteTargetMode::GitWorkingTree { repo_path } => WriteTarget::path(
            path_join(repo_path.as_str(), display_path),
        ),
        WriteTargetMode::GitCommit { .. } => WriteTarget::ReadOnly,
        WriteTargetMode::P4Pending { cwd, .. } => {
            let c: Option<&str> = match cwd {
                Some(c) => Some(c.as_str()),
                None => None,
            };
            match pending_local_path(pf, c) {
                Some(p) => WriteTarget::path(p),
                None => WriteTarget::SaveAsRequired,
            }
        },
        WriteTargetMode::P4ReadOnly { .. } => WriteTarget::ReadOnly,
    }
}

// ---------------------------------------------------------------------------
// The stored fields of a file diff
// ---------------------------------------------------------------------------

/// The status of a file diff: the action recorded for its path (without
/// revision) where there is one, else the status the diff gives.
pub open spec fn status_spec(
    f: FileV,
    display_path: Seq<char>,
    actions: Option<Seq<(Seq<char>, Seq<char>)>>,
) -> Seq<char> {
    match actions {
        Some(m) => match lookup(m, strip_rev_spec(display_path)) {
            Some(a) => a,
            None => f.status,
        },
        None => f.status,
    }
}

/// A side's label: the import's label, or the diff's path where that is
/// empty.
pub open spec fn label_spec(label: Seq<char>, path: Seq<char>) -> Seq<char> {
    if label.len() == 0 {
        path
    } else {
        label
    }
}

/// The status and the two labels of a file diff (see `status_spec` and
/// `label_spec`).
pub fn filediff_fields(
    pf: &PatchFileDiff,
    display_path: &str,
    left_label: &str,
    right_label: &str,
    action_by_path: Option<&Vec<(String, String)>>,
) -> (r: (String, String, String))
    ensures
        r.0@ == status_spec(
            pf@,
            display_path@,
            match action_by_path {
                Some(m) => Some(pair_views(m@)),
                None => None,
            },
        ),
        r.1@ == label_spec(left_label@, pf@.old_path),
        r.2@ == label_spec(right_label@, pf@.new_path),
{
    let status = match action_by_path {
        Some(m) => {
            let key = strip_p4_rev(display_path);
            match lookup_exec(m, key.as_str()) {
                Some(a) => a,
                None => pf.status.clone(),
            }
        },
        None => pf.status.clone(),
    };
    let left = if chars_of(left_label).len() == 0 {
        pf.old_path.clone()
    } else {
        owned(left_label)
    };
    let right = if chars_of(right_label).len() == 0 {
        pf.new_path.clone()
    } else {
        owned(right_label)
    };
    (status, left, right)
}

// ---------------------------------------------------------------------------
// Refreshing an import
// ---------------------------------------------------------------------------

/// What refreshing a stored diff set re-imports, from its kind and the JSON
/// of its source metadata: a git working tree (its `repo_path`), a pending
/// changelist (its `change`, and `cwd` where given), or nothing for other
/// kinds. Metadata that is not JSON, or lacks the field needed, is an error.
pub enum RefreshV {
    GitWorkingTree(Seq<char>),
    P4Pending(Seq<char>, Option<Seq<char>>),
}

pub open spec fn refresh_spec(kind: Seq<char>, meta: Seq<char>) -> Result<Option<RefreshV>, Seq<char>> {
    if kind == "gitWorkingTree"@ {
        match json_str_field(meta, "repo_path"@) {
            Err(e) => Err(e),
            Ok(None) => Err("Missing repo_path for git working tree diffset"@),
            Ok(Some(p)) => Ok(Some(RefreshV::GitWorkingTree(p))),
        }
    } else if kind == "p4Pending"@ || kind == "p4PendingDefault"@ {
        match json_str_field(meta, "change"@) {
            Err(e) => Err(e),
            Ok(None) => Err("Missing change for p4 pending diffset"@),
            Ok(Some(c)) => match json_str_field(meta, "cwd"@) {
                Err(e) => Err(e),
                Ok(w) => Ok(Some(RefreshV::P4Pending(c, w))),
            },
        }
    } else {
        // the metadata must still be JSON
        match json_str_field(meta, "cwd"@) {
            Err(e) => Err(e),
            Ok(_) => Ok(None),
        }
    }
}

/// What refreshing a diff set of kind `kind` with metadata `source_meta_json`
/// re-imports (see `refresh_spec`); `Ok(None)` where its kind cannot be
/// refreshed.
pub fn refresh_diffset(kind: &str, source_meta_json: &str) -> (r: Result<Option<ImportTarget>, String>)
    ensures
        match (r, refresh_spec(kind@, source_meta_json@)) {
            (Ok(Some(ImportTarget::GitWorkingTree { repo_path })), Ok(Some(RefreshV::GitWorkingTree(p)))) =>
                repo_path@ == p,
            (Ok(Some(ImportTarget::P4Pending { change, cwd })), Ok(Some(RefreshV::P4Pending(c, w)))) =>
                change@ == c && opt_view(cwd) == w,
            (Ok(None), Ok(None)) => true,
            (Err(x), Err(y)) => x@ == y,
            _ => false,
        },
{
    if str_eq(kind, "gitWorkingTree") {
        match required_field_of(
            source_meta_json,
            "repo_path",
            owned("Missing repo_path for git working tree diffset"),
        ) {
            Ok(p) => Ok(Some(ImportTarget::GitWorkingTree { repo_path: p })),
            Err(e) => Err(e),
        }
    } else if str_eq(kind, "p4Pending") || str_eq(kind, "p4PendingDefault") {
        match required_field_of(source_meta_json, "change", owned("Missing change for p4 pending diffset")) {
            Ok(c) => match crate::json::json_string_field(source_meta_json, "cwd") {
                Ok(w) => Ok(Some(ImportTarget::P4Pending { change: c, cwd: w })),
                Err(e) => Err(e),
            },
            Err(e) => Err(e),
        }
    } else {
        match crate::json::json_string_field(source_meta_json, "cwd") {
            Ok(_) => Ok(None),
            Err(e) => Err(e),
        }
    }
}


// ---------------------------------------------------------------------------
// Source metadata
// ---------------------------------------------------------------------------

/// The metadata of a git working-tree import: how many files and which
/// repository.
pub fn git_working_tree_meta(repo_path: &str, file_count: usize) -> (r: String)
    ensures
        r@ == object_json(
            seq![("file_count"@, ScalarV::Num(file_count as nat)), ("repo_path"@, ScalarV::Str(repo_path@))],
        ),
{
    let f = vec![("file_count", JsonScalar::Num(file_count as u64)), ("repo_path", JsonScalar::Str(owned(repo_path)))];
    assert(field_views(f@) =~= seq![
        ("file_count"@, ScalarV::Num(file_count as nat)),
        ("repo_path"@, ScalarV::Str(repo_path@)),
    ]);
    json_object(&f)
}

/// The metadata of a git commit import: how many files, which repository and
/// which revision.
pub fn git_commit_meta(repo_path: &str, rev: &str, file_count: usize) -> (r: String)
    ensures
        r@ == object_json(
            seq![
                ("file_count"@, ScalarV::Num(file_count as nat)),
                ("repo_path"@, ScalarV::Str(repo_path@)),
                ("rev"@, ScalarV::Str(rev@)),
            ],
        ),
{
    let f = vec![
        ("file_count", JsonScalar::Num(file_count as u64)),
        ("repo_path", JsonScalar::Str(owned(repo_path))),
        ("rev", JsonScalar::Str(owned(rev))),
    ];
    assert(field_views(f@) =~= seq![
        ("file_count"@, ScalarV::Num(file_count as nat)),
        ("repo_path"@, ScalarV::Str(repo_path@)),
        ("rev"@, ScalarV::Str(rev@)),
    ]);
    json_object(&f)
}

/// The metadata of a pull request import.
pub fn git_pull_request_meta(
    repo_path: &str,
    pr_id: &str,
    target_branch: &str,
    pr_type: &str,
    file_count: usize,
) -> (r: String)
    ensures
        r@ == object_json(
            seq![
                ("file_count"@, ScalarV::Num(file_count as nat)),
                ("pr_id"@, ScalarV::Str(pr_id@)),
                ("pr_type"@, ScalarV::Str(pr_type@)),
                ("repo_path"@, ScalarV::Str(repo_path@)),
                ("target_branch"@, ScalarV::Str(target_branch@)),
            ],
        ),
{
    let f = vec![
        ("file_count", JsonScalar::Num(file_count as u64)),
        ("pr_id", JsonScalar::Str(owned(pr_id))),
        ("pr_type", JsonScalar::Str(owned(pr_type))),
        ("repo_path", JsonScalar::Str(owned(repo_path))),
        ("target_branch", JsonScalar::Str(owned(target_branch))),
    ];
    assert(field_views(f@) =~= seq![
        ("file_count"@, ScalarV::Num(file_count as nat)),
        ("pr_id"@, ScalarV::Str(pr_id@)),
        ("pr_type"@, ScalarV::Str(pr_type@)),
        ("repo_path"@, ScalarV::Str(repo_path@)),
        ("target_branch"@, ScalarV::Str(target_branch@)),
    ]);
    json_object(&f)
}

/// The metadata of a Perforce changelist import: the change, the working
/// directory (null where none), how many files, and the changelist's status.
pub fn p4_change_meta(change: &str, status: &str, file_count: usize, cwd: Option<&str>) -> (r: String)
    ensures
        r@ == object_json(
            seq![
                ("change"@, ScalarV::Str(change@)),
                (
                    "cwd"@,
                    match cwd {
                        Some(c) => ScalarV::Str(c@),
                        None => ScalarV::Null,
                    },
                ),
                ("file_count"@, ScalarV::Num(file_count as nat)),
                ("status"@, ScalarV::Str(status@)),
            ],
        ),
{
    let w = match cwd {
        Some(c) => JsonScalar::Str(owned(c)),
        None => JsonScalar::Null,
    };
    let f = vec![
        ("change", JsonScalar::Str(owned(change))),
        ("cwd", w),
        ("file_count", JsonScalar::Num(file_count as u64)),
        ("status", JsonScalar::Str(owned(status))),
    ];
    assert(field_views(f@) =~= seq![
        ("change"@, ScalarV::Str(change@)),
        (
            "cwd"@,
            match cwd {
                Some(c) => ScalarV::Str(c@),
                None => ScalarV::Null,
            },
        ),
        ("file_count"@, ScalarV::Num(file_count as nat)),
        ("status"@, ScalarV::Str(status@)),
    ]);
    json_object(&f)
}

} // verus!
