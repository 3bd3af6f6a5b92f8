//! Perforce: reading the output of `p4 opened`, `p4 describe`, `p4 changes`
//! and `p4 where`, and the paths and statuses of Perforce file diffs.
use vstd::prelude::*;
use crate::content_source::{source_json, ContentSource, SourceV, TargetV, WriteTarget};
use crate::diff_engine::unified_parser::{dev_null, hunk_views, FileV, PatchFileDiff};
use crate::paths::{joined, path_is_absolute, path_join, path_parent, plain_relative};
use crate::scm::p4_config::{set_value, P4Config};
use crate::text::{
    all_digits, all_digits_exec, chars_of, concat, contains, contains_lit, first_piece,
    first_piece_of, has_prefix, lines, lines_of, numbered, owned, parse_nat, parse_number,
    rsplit_once, rsplit_once_char, slice_of, split, split_lit, split_once, split_once_lit,
    starts_with, str_eq, string_from, strip_prefix, trim, trim_of, views, vviews, words, words_of,
    decimal,
};

verus! {

/// A file opened in a pending changelist.
#[derive(Debug, Clone, PartialEq, Eq)]
pub struct P4OpenedFile {
    pub depot_path: String,
    pub action: String,
    pub change: String,
    pub local_path: Option<String>,
}

/// A file listed by `p4 describe`.
#[derive(Debug, Clone, PartialEq, Eq)]
pub struct P4DescribeFile {
    pub depot_path: String,
    pub rev: Option<u32>,
    pub action: String,
}

/// A pending changelist.
#[derive(Debug, Clone)]
pub struct P4PendingChangeSummary {
    pub change: String,
    pub description: String,
    pub client: Option<String>,
    pub user: Option<String>,
    pub is_default: bool,
}

pub struct OpenedV {
    pub depot_path: Seq<char>,
    pub action: Seq<char>,
    pub change: Seq<char>,
    pub local_path: Option<Seq<char>>,
}

pub struct DescribedV {
    pub depot_path: Seq<char>,
    pub rev: Option<nat>,
    pub action: Seq<char>,
}

pub struct PendingV {
    pub change: Seq<char>,
    pub description: Seq<char>,
    pub client: Option<Seq<char>>,
    pub user: Option<Seq<char>>,
    pub is_default: bool,
}

pub open spec fn str_opt(o: Option<&str>) -> Option<Seq<char>> {
    match o {
        Some(s) => Some(s@),
        None => None,
    }
}

pub open spec fn opt_view(o: Option<String>) -> Option<Seq<char>> {
    match o {
        Some(s) => Some(s@),
        None => None,
    }
}

impl View for P4OpenedFile {
    type V = OpenedV;

    open spec fn view(&self) -> OpenedV {
        OpenedV {
            depot_path: self.depot_path@,
            action: self.action@,
            change: self.change@,
            local_path: opt_view(self.local_path),
        }
    }
}

impl P4OpenedFile {
    /// A copy of this entry.
    pub fn duplicate(&self) -> (r: Self)
        ensures
            r@ == self@,
    {
        P4OpenedFile {
            depot_path: self.depot_path.clone(),
            action: self.action.clone(),
            change: self.change.clone(),
            local_path: match &self.local_path {
                Some(p) => Some(p.clone()),
                None => None,
            },
        }
    }
}

impl View for P4DescribeFile {
    type V = DescribedV;

    open spec fn view(&self) -> DescribedV {
        DescribedV {
            depot_path: self.depot_path@,
            rev: match self.rev {
                Some(r) => Some(r as nat),
                None => None,
            },
            action: self.action@,
        }
    }
}

impl View for P4PendingChangeSummary {
    type V = PendingV;

    open spec fn view(&self) -> PendingV {
        PendingV {
            change: self.change@,
            description: self.description@,
            client: opt_view(self.client),
            user: opt_view(self.user),
            is_default: self.is_default,
        }
    }
}

pub open spec fn opened_views(v: Seq<P4OpenedFile>) -> Seq<OpenedV> {
    v.map_values(|f: P4OpenedFile| f@)
}

pub open spec fn described_views(v: Seq<P4DescribeFile>) -> Seq<DescribedV> {
    v.map_values(|f: P4DescribeFile| f@)
}

// ---------------------------------------------------------------------------
// Specifications
// ---------------------------------------------------------------------------

/// The first word of `s`, or `d` where it has none.
pub open spec fn first_word_or(s: Seq<char>, d: Seq<char>) -> Seq<char> {
    if words(s).len() > 0 {
        words(s)[0]
    } else {
        d
    }
}

/// One line of `p4 opened`: `//depot/path#rev - action change N (type)` or
/// `... - action default change (type)`.
pub open spec fn opened_line(l: Seq<char>) -> Option<OpenedV> {
    match split_once(l, " - "@) {
        None => None,
        Some((left, right)) => {
            let change = if contains(right, " default change"@) {
                "default"@
            } else {
                let parts = split(right, " change "@);
                if parts.len() > 1 {
                    first_word_or(parts[1], "default"@)
                } else {
                    "default"@
                }
            };
            Some(
                OpenedV {
                    depot_path: trim(first_piece(left, "#"@)),
                    action: first_word_or(right, "edit"@),
                    change,
                    local_path: None,
                },
            )
        },
    }
}

/// The opened files of `p4 opened` output, one per line that has ` - `.
pub open spec fn parse_opened_spec(ls: Seq<Seq<char>>) -> Seq<OpenedV>
    decreases ls.len(),
{
    if ls.len() == 0 {
        seq![]
    } else {
        parse_opened_spec(ls.drop_last()) + match opened_line(ls.last()) {
            Some(f) => seq![f],
            None => Seq::<OpenedV>::empty(),
        }
    }
}

/// A depot path and the revision after its last `#`, where that is a `u32`.
pub open spec fn split_rev_spec(p: Seq<char>) -> (Seq<char>, Option<nat>) {
    match rsplit_once(p, '#') {
        Some((before, after)) => match parse_nat(after, u32::MAX as nat) {
            Some(r) => (before, Some(r)),
            None => (p, None),
        },
        None => (p, None),
    }
}

/// One line of `p4 describe`'s file list: `... //depot/path#rev action`.
pub open spec fn described_line(l: Seq<char>) -> Option<DescribedV> {
    match strip_prefix(trim(l), "... "@) {
        None => None,
        Some(rest) => {
            let w = words(rest);
            if w.len() < 2 {
                None
            } else {
                let (d, r) = split_rev_spec(w[0]);
                Some(DescribedV { depot_path: d, rev: r, action: w[1] })
            }
        },
    }
}

pub open spec fn parse_described_spec(ls: Seq<Seq<char>>) -> Seq<DescribedV>
    decreases ls.len(),
{
    if ls.len() == 0 {
        seq![]
    } else {
        parse_described_spec(ls.drop_last()) + match described_line(ls.last()) {
            Some(f) => seq![f],
            None => Seq::<DescribedV>::empty(),
        }
    }
}

/// A depot path (after trimming) without a final `#digits`.
pub open spec fn strip_rev_spec(p: Seq<char>) -> Seq<char> {
    let t = trim(p);
    if has_prefix(t, "//"@) {
        match rsplit_once(t, '#') {
            Some((before, after)) => if all_digits(after) {
                before
            } else {
                t
            },
            None => t,
        }
    } else {
        t
    }
}

pub open spec fn is_added_action(a: Seq<char>) -> bool {
    a == "add"@ || a == "branch"@ || a == "move/add"@
}

pub open spec fn is_deleted_action(a: Seq<char>) -> bool {
    a == "delete"@ || a == "move/delete"@
}

/// The file-diff status of a Perforce action.
pub open spec fn describe_status_spec(a: Seq<char>) -> Seq<char> {
    if is_added_action(a) {
        "added"@
    } else if is_deleted_action(a) {
        "deleted"@
    } else {
        "modified"@
    }
}

pub open spec fn with_rev(path: Seq<char>, rev: nat) -> Seq<char> {
    path + "#"@ + decimal(rev)
}

pub open spec fn file_with_rev_spec(f: DescribedV) -> Option<Seq<char>> {
    match f.rev {
        Some(r) => Some(with_rev(f.depot_path, r)),
        None => None,
    }
}

pub open spec fn previous_rev_spec(f: DescribedV) -> Option<Seq<char>> {
    match f.rev {
        Some(r) => if r >= 1 {
            Some(with_rev(f.depot_path, (r - 1) as nat))
        } else {
            None
        },
        None => None,
    }
}

pub open spec fn or_path(o: Option<Seq<char>>, p: Seq<char>) -> Seq<char> {
    match o {
        Some(x) => x,
        None => p,
    }
}

/// The (left, right) content paths of a described file: a shelved file's right
/// side is the shelf (`path@=change`), a submitted file's its revision; the
/// left side is the previous revision (the revision itself for a shelf).
pub open spec fn content_paths_spec(f: DescribedV, kind: Seq<char>, change: Seq<char>) -> (Seq<char>, Seq<char>) {
    if kind == "p4Shelved"@ {
        if is_added_action(f.action) {
            (dev_null(), f.depot_path + "@="@ + change)
        } else if is_deleted_action(f.action) {
            (or_path(file_with_rev_spec(f), f.depot_path), dev_null())
        } else {
            (or_path(file_with_rev_spec(f), f.depot_path), f.depot_path + "@="@ + change)
        }
    } else {
        if is_added_action(f.action) {
            (dev_null(), or_path(file_with_rev_spec(f), f.depot_path))
        } else if is_deleted_action(f.action) {
            (or_path(previous_rev_spec(f), f.depot_path), dev_null())
        } else {
            (or_path(previous_rev_spec(f), f.depot_path), or_path(file_with_rev_spec(f), f.depot_path))
        }
    }
}

/// In a submitted (not shelved) changelist, a file that was not added is
/// compared from its previous revision: the left side of revision `r >= 1` is
/// `#r-1`; the right side is `#r` for an edit and nothing for a deletion. An
/// added file has nothing on the left and its revision on the right.
pub proof fn law_submitted_sides_are_consecutive_revisions(
    f: DescribedV,
    kind: Seq<char>,
    change: Seq<char>,
    r: nat,
)
    requires
        kind != "p4Shelved"@,
        f.rev == Some(r),
    ensures
        !is_added_action(f.action) && r >= 1 ==> content_paths_spec(f, kind, change).0 == f.depot_path
            + "#"@ + decimal((r - 1) as nat),
        !is_added_action(f.action) && !is_deleted_action(f.action) ==> content_paths_spec(
            f,
            kind,
            change,
        ).1 == f.depot_path + "#"@ + decimal(r),
        is_deleted_action(f.action) ==> content_paths_spec(f, kind, change).1 == "/dev/null"@,
        is_added_action(f.action) ==> content_paths_spec(f, kind, change) == ("/dev/null"@, f.depot_path
            + "#"@ + decimal(r)),
{
    if is_deleted_action(f.action) {
        reveal_strlit("delete");
        reveal_strlit("move/delete");
        reveal_strlit("add");
        reveal_strlit("branch");
        reveal_strlit("move/add");
        assert("delete"@[0] != "branch"@[0]);
        assert("delete"@ != "branch"@);
        assert("delete"@.len() != "add"@.len() && "delete"@.len() != "move/add"@.len());
        assert("move/delete"@.len() != "add"@.len() && "move/delete"@.len() != "branch"@.len()
            && "move/delete"@.len() != "move/add"@.len());
        assert(!is_added_action(f.action));
    }
}

/// In a shelved changelist, a file that was not added is compared from the
/// revision the shelf was made against (`#r`) to the shelf (`path@=change`).
pub proof fn law_shelved_sides(f: DescribedV, change: Seq<char>, r: nat)
    requires
        f.rev == Some(r),
    ensures
        !is_added_action(f.action) ==> content_paths_spec(f, "p4Shelved"@, change).0 == f.depot_path
            + "#"@ + decimal(r),
        !is_added_action(f.action) && !is_deleted_action(f.action) ==> content_paths_spec(
            f,
            "p4Shelved"@,
            change,
        ).1 == f.depot_path + "@="@ + change,
{
}

/// The path a file diff is shown under: the depot side where there is one,
/// else the new path (the old one for a deletion), without a revision.
pub open spec fn display_path_spec(f: FileV) -> Seq<char> {
    if has_prefix(f.old_path, "//"@) {
        strip_rev_spec(f.old_path)
    } else if has_prefix(f.new_path, "//"@) {
        strip_rev_spec(f.new_path)
    } else if f.new_path == dev_null() {
        strip_rev_spec(f.old_path)
    } else {
        strip_rev_spec(f.new_path)
    }
}

/// The description line of `p4 describe` or `p4 change -o` output: the first
/// non-blank line after `Description:`, unless the file list comes first.
pub open spec fn description_from(ls: Seq<Seq<char>>, in_desc: bool) -> Option<Seq<char>>
    decreases ls.len(),
{
    if ls.len() == 0 {
        None
    } else {
        let t = trim(ls[0]);
        if t == "Description:"@ {
            description_from(ls.drop_first(), true)
        } else if in_desc {
            if t.len() == 0 {
                description_from(ls.drop_first(), true)
            } else if t == "Affected files ..."@ || t == "Files:"@ {
                None
            } else {
                Some(t)
            }
        } else {
            description_from(ls.drop_first(), false)
        }
    }
}

/// One line of `p4 changes`: `Change N on DATE by USER@CLIENT *pending* 'DESC'`.
pub open spec fn pending_line(raw: Seq<char>) -> Option<PendingV> {
    let line = trim(raw);
    match strip_prefix(line, "Change "@) {
        None => None,
        Some(rest) => {
            let by = split(line, " by "@);
            if words(rest).len() == 0 || by.len() < 2 {
                None
            } else {
                let uc = first_piece(by[1], " on "@);
                let (user, client) = match split_once(uc, "@"@) {
                    Some((u, c)) => (Some(trim(u)), Some(trim(c))),
                    None => (None, None),
                };
                let q = split(line, "'"@);
                let description = if q.len() > 1 && trim(q[1]).len() > 0 {
                    trim(q[1])
                } else {
                    "Pending changelist"@
                };
                Some(
                    PendingV {
                        change: words(rest)[0],
                        description,
                        client,
                        user,
                        is_default: false,
                    },
                )
            }
        },
    }
}


// ---------------------------------------------------------------------------
// Executable readers
// ---------------------------------------------------------------------------

fn first_word_or_exec(v: &Vec<char>, d: &str) -> (r: String)
    ensures
        r@ == first_word_or(v@, d@),
{
    let w = words_of(v);
    if w.len() > 0 {
        assert(vviews(w@)[0] == w@[0]@);
        string_from(&w[0])
    } else {
        owned(d)
    }
}

fn opened_line_exec(l: &Vec<char>) -> (r: Option<P4OpenedFile>)
    ensures
        match r {
            Some(f) => opened_line(l@) == Some(f@),
            None => opened_line(l@) is None,
        },
{
    proof {
        reveal_strlit(" - ");
        reveal_strlit(" default change");
        reveal_strlit(" change ");
        reveal_strlit("#");
    }
    match split_once_lit(l, " - ") {
        None => None,
        Some((left, right)) => {
            let change = if contains_lit(&right, " default change") {
                owned("default")
            } else {
                let parts = split_lit(&right, " change ");
                if parts.len() > 1 {
                    assert(vviews(parts@)[1] == parts@[1]@);
                    first_word_or_exec(&parts[1], "default")
                } else {
                    owned("default")
                }
            };
            let piece = first_piece_of(&left, "#");
            let depot = trim_of(&piece);
            Some(
                P4OpenedFile {
                    depot_path: string_from(&depot),
                    action: first_word_or_exec(&right, "edit"),
                    change,
                    local_path: None,
                },
            )
        },
    }
}

/// Read `p4 opened` output: one opened file for each line that has ` - `.
pub fn parse_p4_opened(output: &str) -> (files: Vec<P4OpenedFile>)
    ensures
        opened_views(files@) == parse_opened_spec(lines(output@)),
{
    let ls = lines_of(output);
    let ghost lv = views(ls@);
    let mut out: Vec<P4OpenedFile> = Vec::new();
    let mut i: usize = 0;
    assert(lv.take(0) =~= Seq::<Seq<char>>::empty());
    while i < ls.len()
        invariant
            i <= ls.len(),
            lv == views(ls@),
            opened_views(out@) == parse_opened_spec(lv.take(i as int)),
        decreases ls.len() - i,
    {
        let l = chars_of(ls[i].as_str());
        proof {
            assert(lv.take(i + 1).drop_last() == lv.take(i as int));
            assert(lv.take(i + 1).last() == l@);
        }
        let ghost prev = out@;
        match opened_line_exec(&l) {
            Some(f) => {
                out.push(f);
                assert(opened_views(out@) =~= opened_views(prev) + seq![f@]);
            },
            None => {
                assert(opened_views(out@) =~= opened_views(prev) + Seq::<OpenedV>::empty());
            },
        }
        i = i + 1;
    }
    assert(lv.take(ls.len() as int) == lv);
    out
}

fn split_rev_exec(p: &Vec<char>) -> (r: (String, Option<u32>))
    ensures
        r.0@ == split_rev_spec(p@).0,
        match r.1 {
            Some(x) => split_rev_spec(p@).1 == Some(x as nat),
            None => split_rev_spec(p@).1 is None,
        },
{
    match rsplit_once_char(p, '#') {
        Some((before, after)) => match parse_number(&after, u32::MAX as u64) {
            Some(r) => (string_from(&before), Some(r as u32)),
            None => (string_from(p), None),
        },
        None => (string_from(p), None),
    }
}

/// A depot path and the revision number after its last `#`.
pub fn split_p4_path_rev(path: &str) -> (r: (String, Option<u32>))
    ensures
        r.0@ == split_rev_spec(path@).0,
        match r.1 {
            Some(x) => split_rev_spec(path@).1 == Some(x as nat),
            None => split_rev_spec(path@).1 is None,
        },
{
    let v = chars_of(path);
    split_rev_exec(&v)
}

fn described_line_exec(l: &Vec<char>) -> (r: Option<P4DescribeFile>)
    ensures
        match r {
            Some(f) => described_line(l@) == Some(f@),
            None => described_line(l@) is None,
        },
{
    proof {
        reveal_strlit("... ");
    }
    let t = trim_of(l);
    if !starts_with(&t, "... ") {
        return None;
    }
    let rest = slice_of(&t, 4, t.len());
    let w = words_of(&rest);
    if w.len() < 2 {
        return None;
    }
    assert(vviews(w@)[0] == w@[0]@);
    assert(vviews(w@)[1] == w@[1]@);
    let (d, r) = split_rev_exec(&w[0]);
    Some(P4DescribeFile { depot_path: d, rev: r, action: string_from(&w[1]) })
}

/// Read the file list of `p4 describe` output.
pub fn parse_p4_describe_files(output: &str) -> (files: Vec<P4DescribeFile>)
    ensures
        described_views(files@) == parse_described_spec(lines(output@)),
{
    let ls = lines_of(output);
    let ghost lv = views(ls@);
    let mut out: Vec<P4DescribeFile> = Vec::new();
    let mut i: usize = 0;
    assert(lv.take(0) =~= Seq::<Seq<char>>::empty());
    while i < ls.len()
        invariant
            i <= ls.len(),
            lv == views(ls@),
            described_views(out@) == parse_described_spec(lv.take(i as int)),
        decreases ls.len() - i,
    {
        let l = chars_of(ls[i].as_str());
        proof {
            assert(lv.take(i + 1).drop_last() == lv.take(i as int));
            assert(lv.take(i + 1).last() == l@);
        }
        let ghost prev = out@;
        match described_line_exec(&l) {
            Some(f) => {
                out.push(f);
                assert(described_views(out@) =~= described_views(prev) + seq![f@]);
            },
            None => {
                assert(described_views(out@) =~= described_views(prev) + Seq::<DescribedV>::empty());
            },
        }
        i = i + 1;
    }
    assert(lv.take(ls.len() as int) == lv);
    out
}

/// A depot path (trimmed) without a final `#digits`; other paths trimmed only.
pub fn strip_p4_rev(path: &str) -> (r: String)
    ensures
        r@ == strip_rev_spec(path@),
{
    proof {
        reveal_strlit("//");
    }
    let v = chars_of(path);
    let t = trim_of(&v);
    if starts_with(&t, "//") {
        match rsplit_once_char(&t, '#') {
            Some((before, after)) => {
                if all_digits_exec(&after) {
                    return string_from(&before);
                }
            },
            None => {},
        }
    }
    string_from(&t)
}

fn is_added_action_exec(a: &str) -> (b: bool)
    ensures
        b == is_added_action(a@),
{
    str_eq(a, "add") || str_eq(a, "branch") || str_eq(a, "move/add")
}

fn is_deleted_action_exec(a: &str) -> (b: bool)
    ensures
        b == is_deleted_action(a@),
{
    str_eq(a, "delete") || str_eq(a, "move/delete")
}

/// The file-diff status of a Perforce action: added, deleted or modified.
pub fn describe_status(action: &str) -> (r: String)
    ensures
        r@ == describe_status_spec(action@),
{
    if is_added_action_exec(action) {
        owned("added")
    } else if is_deleted_action_exec(action) {
        owned("deleted")
    } else {
        owned("modified")
    }
}

fn with_rev_exec(path: &String, rev: u32) -> (r: String)
    ensures
        r@ == with_rev(path@, rev as nat),
{
    let p = concat(path.as_str(), "#");
    numbered(p.as_str(), rev as u64)
}

/// `path#rev`, where the file has a revision.
pub fn file_with_rev(file: &P4DescribeFile) -> (r: Option<String>)
    ensures
        opt_view(r) == file_with_rev_spec(file@),
{
    match file.rev {
        Some(r) => Some(with_rev_exec(&file.depot_path, r)),
        None => None,
    }
}

/// `path#(rev-1)`, where the file has a revision of at least 1.
pub fn previous_rev_path(file: &P4DescribeFile) -> (r: Option<String>)
    ensures
        opt_view(r) == previous_rev_spec(file@),
{
    match file.rev {
        Some(r) => if r >= 1 {
            Some(with_rev_exec(&file.depot_path, r - 1))
        } else {
            None
        },
        None => None,
    }
}

fn or_path_exec(o: Option<String>, p: &String) -> (r: String)
    ensures
        r@ == or_path(opt_view(o), p@),
{
    match o {
        Some(x) => x,
        None => p.clone(),
    }
}

/// The (left, right) content paths of a described file.
pub fn describe_content_paths(file: &P4DescribeFile, kind: &str, change: &str) -> (r: (String, String))
    ensures
        (r.0@, r.1@) == content_paths_spec(file@, kind@, change@),
{
    let added = is_added_action_exec(file.action.as_str());
    let deleted = is_deleted_action_exec(file.action.as_str());
    if str_eq(kind, "p4Shelved") {
        let shelf = concat(concat(file.depot_path.as_str(), "@=").as_str(), change);
        if added {
            (owned("/dev/null"), shelf)
        } else if deleted {
            (or_path_exec(file_with_rev(file), &file.depot_path), owned("/dev/null"))
        } else {
            (or_path_exec(file_with_rev(file), &file.depot_path), shelf)
        }
    } else {
        if added {
            (owned("/dev/null"), or_path_exec(file_with_rev(file), &file.depot_path))
        } else if deleted {
            (or_path_exec(previous_rev_path(file), &file.depot_path), owned("/dev/null"))
        } else {
            (
                or_path_exec(previous_rev_path(file), &file.depot_path),
                or_path_exec(file_with_rev(file), &file.depot_path),
            )
        }
    }
}

/// A file diff for a described file that the diff text does not show.
pub fn synthetic_describe_patch_file(file: &P4DescribeFile, kind: &str, change: &str) -> (r: PatchFileDiff)
    ensures
        r@ == (FileV {
            old_path: content_paths_spec(file@, kind@, change@).0,
            new_path: content_paths_spec(file@, kind@, change@).1,
            hunks: Seq::empty(),
            status: describe_status_spec(file@.action),
        }),
{
    let (old_path, new_path) = describe_content_paths(file, kind, change);
    let r = PatchFileDiff {
        old_path,
        new_path,
        hunks: Vec::new(),
        status: describe_status(file.action.as_str()),
    };
    assert(hunk_views(r.hunks@) =~= Seq::empty());
    r
}

/// The path a file diff is shown under (see `display_path_spec`).
pub fn display_path_for_patch(pf: &PatchFileDiff) -> (r: String)
    ensures
        r@ == display_path_spec(pf@),
{
    proof {
        reveal_strlit("//");
    }
    let old = chars_of(pf.old_path.as_str());
    let new = chars_of(pf.new_path.as_str());
    if starts_with(&old, "//") {
        strip_p4_rev(pf.old_path.as_str())
    } else if starts_with(&new, "//") {
        strip_p4_rev(pf.new_path.as_str())
    } else if str_eq(pf.new_path.as_str(), "/dev/null") {
        strip_p4_rev(pf.old_path.as_str())
    } else {
        strip_p4_rev(pf.new_path.as_str())
    }
}

/// The description line of `p4 describe` or `p4 change -o` output.
pub fn first_p4_description_line(output: &str) -> (r: Option<String>)
    ensures
        opt_view(r) == description_from(lines(output@), false),
{
    let ls = lines_of(output);
    let ghost lv = views(ls@);
    let mut in_desc = false;
    let mut i: usize = 0;
    assert(lv.skip(0) == lv);
    while i < ls.len()
        invariant
            i <= ls.len(),
            lv == views(ls@),
            lv == lines(output@),
            description_from(lv, false) == description_from(lv.skip(i as int), in_desc),
        decreases ls.len() - i,
    {
        let l = chars_of(ls[i].as_str());
        let t = trim_of(&l);
        let ts = string_from(&t);
        proof {
            assert(lv.skip(i as int)[0] == l@);
            assert(lv.skip(i as int).drop_first() == lv.skip(i + 1));
        }
        let ghost cur = lv.skip(i as int);
        if str_eq(ts.as_str(), "Description:") {
            in_desc = true;
        } else if in_desc {
            if t.len() > 0 {
                assert(trim(cur[0]) == ts@);
                assert(ts@.len() > 0);
                if str_eq(ts.as_str(), "Affected files ...") || str_eq(ts.as_str(), "Files:") {
                    assert(description_from(cur, true) is None);
                    return None;
                }
                assert(description_from(cur, true) == Some(ts@));
                return Some(ts);
            }
        }
        i = i + 1;
    }
    assert(lv.skip(ls.len() as int) =~= Seq::<Seq<char>>::empty());
    None
}

fn opt_trim_string(v: &Vec<char>) -> (r: String)
    ensures
        r@ == trim(v@),
{
    let t = trim_of(v);
    string_from(&t)
}

/// One line of `p4 changes`, read as a pending changelist.
pub fn parse_p4_pending_change_line(raw_line: &str) -> (r: Option<P4PendingChangeSummary>)
    ensures
        match r {
            Some(s) => pending_line(raw_line@) == Some(s@),
            None => pending_line(raw_line@) is None,
        },
{
    proof {
        reveal_strlit("Change ");
        reveal_strlit(" by ");
        reveal_strlit(" on ");
        reveal_strlit("@");
        reveal_strlit("'");
    }
    let raw = chars_of(raw_line);
    let line = trim_of(&raw);
    if !starts_with(&line, "Change ") {
        return None;
    }
    let rest = slice_of(&line, 7, line.len());
    let rw = words_of(&rest);
    let by = split_lit(&line, " by ");
    if rw.len() == 0 || by.len() < 2 {
        return None;
    }
    assert(vviews(rw@)[0] == rw@[0]@);
    assert(vviews(by@)[1] == by@[1]@);
    let uc = first_piece_of(&by[1], " on ");
    let (user, client) = match split_once_lit(&uc, "@") {
        Some((u, c)) => (Some(opt_trim_string(&u)), Some(opt_trim_string(&c))),
        None => (None, None),
    };
    let q = split_lit(&line, "'");
    let description = if q.len() > 1 {
        assert(vviews(q@)[1] == q@[1]@);
        let d = trim_of(&q[1]);
        if d.len() > 0 {
            string_from(&d)
        } else {
            owned("Pending changelist")
        }
    } else {
        owned("Pending changelist")
    };
    Some(
        P4PendingChangeSummary {
            change: string_from(&rw[0]),
            description,
            client,
            user,
            is_default: false,
        },
    )
}


// ---------------------------------------------------------------------------
// Perforce file diffs
// ---------------------------------------------------------------------------

/// The path a described file diff is matched under (the display path).
pub fn describe_display_path(pf: &PatchFileDiff) -> (r: String)
    ensures
        r@ == display_path_spec(pf@),
{
    display_path_for_patch(pf)
}

pub open spec fn pair_views(v: Seq<(String, String)>) -> Seq<(Seq<char>, Seq<char>)> {
    v.map_values(|p: (String, String)| (p.0@, p.1@))
}

/// The value of the last pair whose key is `k` (a map built by inserting the
/// pairs in order).
pub open spec fn lookup(m: Seq<(Seq<char>, Seq<char>)>, k: Seq<char>) -> Option<Seq<char>>
    decreases m.len(),
{
    if m.len() == 0 {
        None
    } else if m.last().0 == k {
        Some(m.last().1)
    } else {
        lookup(m.drop_last(), k)
    }
}

/// Looks up the last pair with key `k`.
pub fn lookup_exec(m: &Vec<(String, String)>, k: &str) -> (r: Option<String>)
    ensures
        opt_view(r) == lookup(pair_views(m@), k@),
{
    let ghost pv = pair_views(m@);
    let mut i = m.len();
    assert(pv.take(i as int) == pv);
    while i > 0
        invariant
            i <= m.len(),
            pv == pair_views(m@),
            lookup(pv, k@) == lookup(pv.take(i as int), k@),
        decreases i,
    {
        let ghost t = pv.take(i as int);
        assert(t.last() == (m@[i - 1].0@, m@[i - 1].1@));
        assert(t.drop_last() == pv.take(i - 1));
        if str_eq(m[i - 1].0.as_str(), k) {
            return Some(m[i - 1].1.clone());
        }
        i = i - 1;
    }
    None
}

/// Depot path to action, for the files that `p4 describe` lists.
pub fn describe_action_map(files: &Vec<P4DescribeFile>) -> (m: Vec<(String, String)>)
    ensures
        pair_views(m@) == described_views(files@).map_values(|f: DescribedV| (f.depot_path, f.action)),
{
    let mut m: Vec<(String, String)> = Vec::new();
    let mut i: usize = 0;
    while i < files.len()
        invariant
            i <= files.len(),
            pair_views(m@) == described_views(files@).take(i as int).map_values(
                |f: DescribedV| (f.depot_path, f.action),
            ),
        decreases files.len() - i,
    {
        let ghost prev = m@;
        m.push((files[i].depot_path.clone(), files[i].action.clone()));
        assert(pair_views(m@) =~= pair_views(prev).push((files@[i as int].depot_path@, files@[i as int].action@)));
        assert(described_views(files@).take(i + 1) =~= described_views(files@).take(i as int).push(files@[i as int]@));
        assert(pair_views(m@) =~= described_views(files@).take(i + 1).map_values(
            |f: DescribedV| (f.depot_path, f.action),
        ));
        i = i + 1;
    }
    assert(described_views(files@).take(files.len() as int) == described_views(files@));
    m
}

/// The described file for a depot path: the last one listed.
pub open spec fn described_for(fs: Seq<DescribedV>, k: Seq<char>) -> Option<DescribedV>
    decreases fs.len(),
{
    if fs.len() == 0 {
        None
    } else if fs.last().depot_path == k {
        Some(fs.last())
    } else {
        described_for(fs.drop_last(), k)
    }
}

pub open spec fn is_depot(o: Option<DescribedV>, p: Seq<char>) -> bool {
    match o {
        Some(d) => d.depot_path == p,
        None => false,
    }
}

/// Whether some parsed file matched the described file of depot path `p`.
pub open spec fn any_depot_path(fs: Seq<FileV>, ds: Seq<DescribedV>, p: Seq<char>) -> bool {
    exists|j: int| 0 <= j < fs.len() && is_depot(#[trigger] described_for(ds, display_path_spec(fs[j])), p)
}

/// A parsed file diff with the paths and status of its described file.
pub open spec fn normalize_one(f: FileV, ds: Seq<DescribedV>, kind: Seq<char>, change: Seq<char>) -> FileV {
    match described_for(ds, display_path_spec(f)) {
        Some(d) => FileV {
            old_path: content_paths_spec(d, kind, change).0,
            new_path: content_paths_spec(d, kind, change).1,
            status: describe_status_spec(d.action),
            ..f
        },
        None => f,
    }
}

/// A file without hunks for a described file.
pub open spec fn synthetic_spec(d: DescribedV, kind: Seq<char>, change: Seq<char>) -> FileV {
    FileV {
        old_path: content_paths_spec(d, kind, change).0,
        new_path: content_paths_spec(d, kind, change).1,
        hunks: Seq::empty(),
        status: describe_status_spec(d.action),
    }
}

/// A file without hunks for each of the described files `part` that no parsed
/// file matched.
pub open spec fn extra_files(
    fs: Seq<FileV>,
    ds: Seq<DescribedV>,
    part: Seq<DescribedV>,
    kind: Seq<char>,
    change: Seq<char>,
) -> Seq<FileV>
    decreases part.len(),
{
    if part.len() == 0 {
        seq![]
    } else {
        extra_files(fs, ds, part.drop_last(), kind, change) + if !any_depot_path(
            fs,
            ds,
            part.last().depot_path,
        ) {
            seq![synthetic_spec(part.last(), kind, change)]
        } else {
            Seq::<FileV>::empty()
        }
    }
}

/// The parsed files, each with its described file's paths and status, then a
/// file without hunks for each described file that no parsed file matched.
pub open spec fn normalize_spec(fs: Seq<FileV>, ds: Seq<DescribedV>, kind: Seq<char>, change: Seq<char>) -> Seq<FileV> {
    fs.map_values(|f: FileV| normalize_one(f, ds, kind, change)) + extra_files(fs, ds, ds, kind, change)
}

proof fn lemma_any_depot_step(fs: Seq<FileV>, ds: Seq<DescribedV>, i: int, p: Seq<char>)
    requires
        0 <= i < fs.len(),
    ensures
        any_depot_path(fs.take(i + 1), ds, p) <==> (any_depot_path(fs.take(i), ds, p) || is_depot(
            described_for(ds, display_path_spec(fs[i])),
            p,
        )),
{
    let a = fs.take(i + 1);
    let b = fs.take(i);
    if any_depot_path(a, ds, p) {
        let w = choose|w: int| 0 <= w < a.len() && is_depot(#[trigger] described_for(ds, display_path_spec(a[w])), p);
        if w < i {
            assert(b[w] == a[w]);
            assert(is_depot(described_for(ds, display_path_spec(b[w])), p));
        } else {
            assert(a[w] == fs[i]);
        }
    }
    if any_depot_path(b, ds, p) {
        let w = choose|w: int| 0 <= w < b.len() && is_depot(#[trigger] described_for(ds, display_path_spec(b[w])), p);
        assert(a[w] == b[w]);
        assert(is_depot(described_for(ds, display_path_spec(a[w])), p));
    }
    if is_depot(described_for(ds, display_path_spec(fs[i])), p) {
        assert(a[i] == fs[i]);
        assert(is_depot(described_for(ds, display_path_spec(a[i])), p));
    }
}

proof fn lemma_contains_push(s: Seq<Seq<char>>, x: Seq<char>, p: Seq<char>)
    ensures
        s.push(x).contains(p) <==> (s.contains(p) || x == p),
{
    let t = s.push(x);
    if t.contains(p) {
        let j = choose|j: int| 0 <= j < t.len() && t[j] == p;
        if j < s.len() {
            assert(s[j] == p);
        }
    }
    if s.contains(p) {
        let j = choose|j: int| 0 <= j < s.len() && s[j] == p;
        assert(t[j] == p);
    }
    if x == p {
        assert(t[s.len() as int] == p);
    }
}

fn described_for_exec(ds: &Vec<P4DescribeFile>, k: &String) -> (r: Option<usize>)
    ensures
        match r {
            Some(i) => i < ds.len() && described_for(described_views(ds@), k@) == Some(ds@[i as int]@),
            None => described_for(described_views(ds@), k@) is None,
        },
{
    let ghost dv = described_views(ds@);
    let mut i = ds.len();
    assert(dv.take(i as int) == dv);
    while i > 0
        invariant
            i <= ds.len(),
            dv == described_views(ds@),
            described_for(dv, k@) == described_for(dv.take(i as int), k@),
        decreases i,
    {
        let ghost t = dv.take(i as int);
        assert(t.last() == ds@[i - 1]@);
        assert(t.drop_last() == dv.take(i - 1));
        if str_eq(ds[i - 1].depot_path.as_str(), k.as_str()) {
            return Some(i - 1);
        }
        i = i - 1;
    }
    None
}

fn contains_str(v: &Vec<String>, k: &String) -> (b: bool)
    ensures
        b == views(v@).contains(k@),
{
    let mut i: usize = 0;
    while i < v.len()
        invariant
            i <= v.len(),
            forall|j: int| 0 <= j < i ==> v@[j]@ != k@,
        decreases v.len() - i,
    {
        if str_eq(v[i].as_str(), k.as_str()) {
            assert(views(v@)[i as int] == k@);
            return true;
        }
        i = i + 1;
    }
    proof {
        if views(v@).contains(k@) {
            let j = choose|j: int| 0 <= j < views(v@).len() && views(v@)[j] == k@;
            assert(v@[j]@ == k@);
        }
    }
    false
}

/// The parsed diff of `p4 describe` output with each file's described paths
/// and status, and a file for each described file that the diff leaves out.
pub fn normalize_p4_describe_files(
    parsed: Vec<PatchFileDiff>,
    described_files: &Vec<P4DescribeFile>,
    kind: &str,
    change: &str,
) -> (r: Vec<PatchFileDiff>)
    ensures
        crate::diff_engine::unified_parser::file_views(r@) == normalize_spec(
            crate::diff_engine::unified_parser::file_views(parsed@),
            described_views(described_files@),
            kind@,
            change@,
        ),
{
    let ghost fs = crate::diff_engine::unified_parser::file_views(parsed@);
    let ghost ds = described_views(described_files@);
    let mut out: Vec<PatchFileDiff> = Vec::new();
    let mut seen: Vec<String> = Vec::new();
    let mut i: usize = 0;
    let n = parsed.len();
    let mut parsed = parsed;
    let ghost orig = parsed@;
    while i < n
        invariant
            i <= n == orig.len(),
            fs == crate::diff_engine::unified_parser::file_views(orig),
            ds == described_views(described_files@),
            parsed@.len() == n,
            forall|j: int| i <= j < n ==> parsed@[j] == orig[j],
            crate::diff_engine::unified_parser::file_views(out@) == fs.take(i as int).map_values(
                |f: FileV| normalize_one(f, ds, kind@, change@),
            ),
            forall|p: Seq<char>|
                #[trigger] views(seen@).contains(p) <==> any_depot_path(fs.take(i as int), ds, p),
        decreases n - i,
    {
        let mut pf = PatchFileDiff {
            old_path: String::new(),
            new_path: String::new(),
            hunks: Vec::new(),
            status: String::new(),
        };
        std::mem::swap(&mut pf, &mut parsed[i]);
        let dp = describe_display_path(&pf);
        let ghost prev = out@;
        let ghost prev_seen = views(seen@);
        assert(pf@ == fs[i as int]);
        let found = described_for_exec(described_files, &dp);
        let newf = match found {
            Some(k) => {
                let d = &described_files[k];
                let (o, nw) = describe_content_paths(d, kind, change);
                let PatchFileDiff { old_path: _, new_path: _, hunks, status: _ } = pf;
                seen.push(d.depot_path.clone());
                PatchFileDiff { old_path: o, new_path: nw, hunks, status: describe_status(d.action.as_str()) }
            },
            None => pf,
        };
        let ghost nv = newf@;
        out.push(newf);
        proof {
            assert(nv == normalize_one(fs[i as int], ds, kind@, change@));
            assert(crate::diff_engine::unified_parser::file_views(out@) =~= crate::diff_engine::unified_parser::file_views(prev).push(nv));
            assert(fs.take(i + 1) =~= fs.take(i as int).push(fs[i as int]));
            assert(crate::diff_engine::unified_parser::file_views(out@) =~= fs.take(i + 1).map_values(
                |f: FileV| normalize_one(f, ds, kind@, change@),
            ));
            assert forall|p: Seq<char>| views(seen@).contains(p) <==> any_depot_path(fs.take(i + 1), ds, p) by {
                lemma_any_depot_step(fs, ds, i as int, p);
                match found {
                    Some(k) => {
                        assert(views(seen@) =~= prev_seen.push(described_files@[k as int].depot_path@));
                        lemma_contains_push(prev_seen, described_files@[k as int].depot_path@, p);
                    },
                    None => {
                        assert(views(seen@) =~= prev_seen);
                    },
                }
            }
        }
        i = i + 1;
    }
    assert(fs.take(n as int) == fs);
    let ghost mid = out@;
    let mut k: usize = 0;
    assert(extra_files(fs, ds, ds.take(0), kind@, change@) =~= Seq::<FileV>::empty());
    while k < described_files.len()
        invariant
            k <= described_files.len(),
            ds == described_views(described_files@),
            forall|p: Seq<char>| views(seen@).contains(p) <==> any_depot_path(fs, ds, p),
            crate::diff_engine::unified_parser::file_views(out@) == crate::diff_engine::unified_parser::file_views(mid) + extra_files(fs, ds, ds.take(k as int), kind@, change@),
        decreases described_files.len() - k,
    {
        let d = &described_files[k];
        let ghost prev = out@;
        proof {
            assert(ds.take(k + 1).drop_last() == ds.take(k as int));
            assert(ds.take(k + 1).last() == d@);
        }
        let present = contains_str(&seen, &d.depot_path);
        if !present {
            let f = synthetic_describe_patch_file(d, kind, change);
            out.push(f);
            assert(crate::diff_engine::unified_parser::file_views(out@) =~= crate::diff_engine::unified_parser::file_views(prev).push(f@));
        } else {
            assert(crate::diff_engine::unified_parser::file_views(out@) =~= crate::diff_engine::unified_parser::file_views(prev) + Seq::<FileV>::empty());
        }
        k = k + 1;
    }
    assert(ds.take(described_files.len() as int) == ds);
    out
}


// ---------------------------------------------------------------------------
// Pending changelists
// ---------------------------------------------------------------------------

/// The Perforce provider.
pub struct P4Provider;

impl P4Provider {
    pub fn name(&self) -> (r: &'static str)
        ensures
            r@ == "p4"@,
    {
        "p4"
    }
}

pub open spec fn strs(v: Seq<&str>) -> Seq<Seq<char>> {
    v.map_values(|s: &str| s@)
}

/// The arguments of `p4 opened` for `change`: all clients (`-a`) unless the
/// change is the default one or a client is configured.
pub open spec fn opened_args_spec(change: Seq<char>, has_client: bool) -> Seq<Seq<char>> {
    if change == "default"@ || has_client {
        seq!["opened"@, "-c"@, change]
    } else {
        seq!["opened"@, "-a"@, "-c"@, change]
    }
}

/// The arguments of `p4 opened` (see `opened_args_spec`).
pub fn opened_args<'a>(change: &'a str, p4_config: &P4Config) -> (r: Vec<&'a str>)
    ensures
        strs(r@) == opened_args_spec(change@, p4_config.client is Some),
{
    let r = if str_eq(change, "default") || p4_config.client.is_some() {
        vec!["opened", "-c", change]
    } else {
        vec!["opened", "-a", "-c", change]
    };
    assert(strs(r@) =~= opened_args_spec(change@, p4_config.client is Some));
    r
}

/// How many depot paths one `p4 where` is given.
pub const WHERE_BATCH: usize = 32;

/// How many depot paths one `p4 diff` is given.
pub const DIFF_BATCH: usize = 24;

/// `paths` cut into runs of `size`, in order; the last run may be shorter.
pub open spec fn batches(paths: Seq<Seq<char>>, size: nat) -> Seq<Seq<Seq<char>>>
    decreases paths.len(),
{
    if paths.len() == 0 || size == 0 {
        seq![]
    } else if paths.len() <= size {
        seq![paths]
    } else {
        seq![paths.take(size as int)] + batches(paths.skip(size as int), size)
    }
}

/// The arguments of one command per batch: `prefix`, then the batch.
pub open spec fn batch_args(prefix: Seq<Seq<char>>, paths: Seq<Seq<char>>, size: nat) -> Seq<Seq<Seq<char>>> {
    batches(paths, size).map_values(|b: Seq<Seq<char>>| prefix + b)
}

pub open spec fn arg_lists(v: Seq<Vec<String>>) -> Seq<Seq<Seq<char>>> {
    v.map_values(|a: Vec<String>| views(a@))
}

proof fn lemma_batches_step(paths: Seq<Seq<char>>, size: nat, start: int)
    requires
        size > 0,
        0 <= start < paths.len(),
    ensures
        batches(paths.skip(start), size) == seq![
            paths.subrange(start, if start + size < paths.len() {
                start + size
            } else {
                paths.len() as int
            }),
        ] + (if start + size < paths.len() {
            batches(paths.skip(start + size), size)
        } else {
            Seq::<Seq<Seq<char>>>::empty()
        }),
{
    let t = paths.skip(start);
    if start + size < paths.len() {
        assert(t.take(size as int) =~= paths.subrange(start, start + size));
        assert(t.skip(size as int) =~= paths.skip(start + size));
    } else {
        assert(t =~= paths.subrange(start, paths.len() as int));
        assert(seq![t] + Seq::<Seq<Seq<char>>>::empty() =~= seq![t]);
    }
}

/// One argument list per batch of `size` paths: `prefix`, then the batch (see
/// `batch_args`).
fn batched_args(prefix: &Vec<String>, paths: &Vec<String>, size: usize) -> (r: Vec<Vec<String>>)
    requires
        size > 0,
    ensures
        arg_lists(r@) == batch_args(views(prefix@), views(paths@), size as nat),
{
    let ghost pv = views(paths@);
    let ghost pre = views(prefix@);
    let mut out: Vec<Vec<String>> = Vec::new();
    let mut start: usize = 0;
    assert(pv.skip(0) =~= pv);
    while start < paths.len()
        invariant
            size > 0,
            start <= paths.len(),
            pv == views(paths@),
            pre == views(prefix@),
            arg_lists(out@) + batch_args(pre, pv.skip(start as int), size as nat) == batch_args(
                pre,
                pv,
                size as nat,
            ),
        decreases paths.len() - start,
    {
        let end: usize = if size < paths.len() - start {
            start + size
        } else {
            paths.len()
        };
        let mut args: Vec<String> = Vec::new();
        let mut k: usize = 0;
        while k < prefix.len()
            invariant
                k <= prefix.len(),
                pre == views(prefix@),
                views(args@) == pre.take(k as int),
            decreases prefix.len() - k,
        {
            let ghost prev = args@;
            let a = prefix[k].clone();
            args.push(a);
            assert(views(args@) =~= views(prev).push(a@));
            assert(pre.take(k + 1) =~= pre.take(k as int).push(pre[k as int]));
            assert(views(args@) =~= pre.take(k + 1));
            k = k + 1;
        }
        let mut j: usize = start;
        while j < end
            invariant
                start <= j <= end,
                end <= paths.len(),
                pv == views(paths@),
                views(args@) == pre + pv.subrange(start as int, j as int),
            decreases end - j,
        {
            let ghost prev = args@;
            let a = paths[j].clone();
            args.push(a);
            assert(views(args@) =~= views(prev).push(a@));
            assert(pv.subrange(start as int, j + 1) =~= pv.subrange(start as int, j as int).push(pv[j as int]));
            assert(views(args@) =~= pre + pv.subrange(start as int, j + 1));
            j = j + 1;
        }
        proof {
            lemma_batches_step(pv, size as nat, start as int);
            let rest = if start + size < pv.len() {
                batches(pv.skip(start + size), size as nat)
            } else {
                Seq::<Seq<Seq<char>>>::empty()
            };
            assert(batches(pv.skip(start as int), size as nat) == seq![pv.subrange(start as int, end as int)]
                + rest);
            let f = |b: Seq<Seq<char>>| pre + b;
            assert(batch_args(pre, pv.skip(start as int), size as nat) =~= seq![views(args@)]
                + rest.map_values(f));
            assert(arg_lists(out@.push(args)) =~= arg_lists(out@).push(views(args@)));
            if start + size < pv.len() {
                assert(end == start + size);
                assert(batch_args(pre, pv.skip(end as int), size as nat) =~= rest.map_values(f));
            } else {
                assert(end == pv.len());
                assert(pv.skip(end as int) =~= Seq::<Seq<char>>::empty());
                assert(batch_args(pre, pv.skip(end as int), size as nat) =~= rest.map_values(f));
            }
        }
        out.push(args);
        start = end;
    }
    assert(pv.skip(paths.len() as int) =~= Seq::<Seq<char>>::empty());
    assert(arg_lists(out@) + batch_args(pre, pv.skip(start as int), size as nat) =~= arg_lists(out@));
    out
}

/// The arguments of the `p4 where` runs that map `depot_paths` to local
/// paths, `WHERE_BATCH` paths each.
pub fn where_batches(depot_paths: &Vec<String>) -> (r: Vec<Vec<String>>)
    ensures
        arg_lists(r@) == batch_args(seq!["where"@], views(depot_paths@), WHERE_BATCH as nat),
{
    let prefix = vec![owned("where")];
    assert(views(prefix@) =~= seq!["where"@]);
    batched_args(&prefix, depot_paths, WHERE_BATCH)
}

/// The arguments of the `p4 diff -du` runs over `depot_paths`, `DIFF_BATCH`
/// paths each.
pub fn diff_batches(depot_paths: &Vec<String>) -> (r: Vec<Vec<String>>)
    ensures
        arg_lists(r@) == batch_args(seq!["diff"@, "-du"@], views(depot_paths@), DIFF_BATCH as nat),
{
    let prefix = vec![owned("diff"), owned("-du")];
    assert(views(prefix@) =~= seq!["diff"@, "-du"@]);
    batched_args(&prefix, depot_paths, DIFF_BATCH)
}

/// The arguments of `p4 changes` listing pending changelists, of the
/// configured client where one is set.
pub open spec fn changes_args_spec(client: Option<Seq<char>>) -> Seq<Seq<char>> {
    seq!["changes"@, "-s"@, "pending"@] + match set_value(client) {
        Some(c) => seq!["-c"@, c],
        None => seq![],
    }
}

/// The arguments of `p4 changes` (see `changes_args_spec`).
pub fn pending_changes_args(p4_config: &P4Config) -> (r: Vec<String>)
    ensures
        views(r@) == changes_args_spec(crate::scm::p4_config::opt_view(p4_config.client)),
{
    let mut r: Vec<String> = vec![owned("changes"), owned("-s"), owned("pending")];
    match &p4_config.client {
        Some(c) => {
            let t = trim_of(&chars_of(c.as_str()));
            if t.len() > 0 {
                r.push(owned("-c"));
                r.push(c.clone());
            }
        },
        None => {},
    }
    assert(views(r@) =~= changes_args_spec(crate::scm::p4_config::opt_view(p4_config.client)));
    r
}

/// The pending changelists of the lines `ls` of `p4 changes`.
pub open spec fn pending_lines_spec(ls: Seq<Seq<char>>) -> Seq<PendingV>
    decreases ls.len(),
{
    if ls.len() == 0 {
        seq![]
    } else {
        pending_lines_spec(ls.drop_last()) + match pending_line(ls.last()) {
            Some(c) => seq![c],
            None => Seq::<PendingV>::empty(),
        }
    }
}

/// The default changelist, of the configured client and user.
pub open spec fn default_change(c: crate::scm::p4_config::ConfigV) -> PendingV {
    PendingV {
        change: "default"@,
        description: "Default pending changelist"@,
        client: c.client,
        user: c.user,
        is_default: true,
    }
}

pub open spec fn pending_views(v: Seq<P4PendingChangeSummary>) -> Seq<PendingV> {
    v.map_values(|c: P4PendingChangeSummary| c@)
}

/// The pending changelists: the default one first, then those that the
/// output of `p4 changes` lists, in order.
pub fn pending_changes_from_output(p4_config: &P4Config, output: &str) -> (r: Vec<
    P4PendingChangeSummary,
>)
    ensures
        pending_views(r@) == seq![default_change(p4_config@)] + pending_lines_spec(lines(output@)),
{
    let mut out: Vec<P4PendingChangeSummary> = Vec::new();
    out.push(
        P4PendingChangeSummary {
            change: owned("default"),
            description: owned("Default pending changelist"),
            client: p4_config.client.clone(),
            user: p4_config.user.clone(),
            is_default: true,
        },
    );
    let ls = lines_of(output);
    let ghost lv = views(ls@);
    let mut i: usize = 0;
    assert(lv.take(0) =~= Seq::<Seq<char>>::empty());
    assert(pending_views(out@) =~= seq![default_change(p4_config@)] + pending_lines_spec(lv.take(0)));
    while i < ls.len()
        invariant
            i <= ls.len(),
            lv == views(ls@),
            pending_views(out@) == seq![default_change(p4_config@)] + pending_lines_spec(
                lv.take(i as int),
            ),
        decreases ls.len() - i,
    {
        let ghost prev = out@;
        let ghost t = lv.take(i + 1);
        assert(t.drop_last() == lv.take(i as int));
        assert(t.last() == ls@[i as int]@);
        match parse_p4_pending_change_line(ls[i].as_str()) {
            Some(c) => {
                out.push(c);
                assert(pending_views(out@) =~= pending_views(prev).push(c@));
            },
            None => {
                assert(pending_views(out@) =~= pending_views(prev));
            },
        }
        assert(pending_views(out@) =~= seq![default_change(p4_config@)] + pending_lines_spec(t));
        i = i + 1;
    }
    assert(lv.take(ls.len() as int) == lv);
    out
}

/// One line of `p4 where`: depot path and local path, from a line whose first
/// word is a depot path and that has at least three words; blank lines and
/// lines starting with `-` (unmapped files) give nothing.
pub open spec fn where_line(l: Seq<char>) -> Option<(Seq<char>, Seq<char>)> {
    let t = trim(l);
    if t.len() == 0 || t[0] == '-' {
        None
    } else {
        let p = words(t);
        if p.len() >= 3 && has_prefix(p[0], "//"@) {
            Some((p[0], p[2]))
        } else {
            None
        }
    }
}

pub open spec fn where_spec(ls: Seq<Seq<char>>) -> Seq<(Seq<char>, Seq<char>)>
    decreases ls.len(),
{
    if ls.len() == 0 {
        seq![]
    } else {
        where_spec(ls.drop_last()) + match where_line(ls.last()) {
            Some(e) => seq![e],
            None => Seq::<(Seq<char>, Seq<char>)>::empty(),
        }
    }
}

/// Depot path to local path, from the output of `p4 where` (a later line for
/// the same depot path wins, see `lookup`).
pub fn parse_p4_where(output: &str) -> (r: Vec<(String, String)>)
    ensures
        pair_views(r@) == where_spec(lines(output@)),
{
    proof {
        reveal_strlit("//");
    }
    let ls = lines_of(output);
    let ghost lv = views(ls@);
    let mut out: Vec<(String, String)> = Vec::new();
    let mut i: usize = 0;
    assert(lv.take(0) =~= Seq::<Seq<char>>::empty());
    assert(pair_views(out@) =~= seq![]);
    while i < ls.len()
        invariant
            i <= ls.len(),
            lv == views(ls@),
            pair_views(out@) == where_spec(lv.take(i as int)),
        decreases ls.len() - i,
    {
        let ghost prev = out@;
        let ghost t = lv.take(i + 1);
        assert(t.drop_last() == lv.take(i as int));
        assert(t.last() == ls@[i as int]@);
        let raw = chars_of(ls[i].as_str());
        let line = trim_of(&raw);
        if line.len() > 0 && line[0] != '-' {
            let p = words_of(&line);
            if p.len() >= 3 && starts_with(&p[0], "//") {
                let e = (string_from(&p[0]), string_from(&p[2]));
                out.push(e);
                assert(pair_views(out@) =~= pair_views(prev).push((vviews(p@)[0], vviews(p@)[2])));
            }
        }
        assert(pair_views(out@) =~= where_spec(t));
        i = i + 1;
    }
    assert(lv.take(ls.len() as int) == lv);
    out
}

/// The opened files with the local path that `mapping` gives their depot path.
pub open spec fn with_local_paths_spec(fs: Seq<OpenedV>, m: Seq<(Seq<char>, Seq<char>)>) -> Seq<OpenedV> {
    fs.map_values(|f: OpenedV| OpenedV { local_path: lookup(m, f.depot_path), ..f })
}

/// Gives each opened file its local path from `mapping` (none where the
/// mapping has no entry).
pub fn with_local_paths(files: Vec<P4OpenedFile>, mapping: &Vec<(String, String)>) -> (r: Vec<
    P4OpenedFile,
>)
    ensures
        opened_views(r@) == with_local_paths_spec(opened_views(files@), pair_views(mapping@)),
{
    let mut out: Vec<P4OpenedFile> = Vec::new();
    let mut i: usize = 0;
    let ghost fv = opened_views(files@);
    while i < files.len()
        invariant
            i <= files.len(),
            fv == opened_views(files@),
            opened_views(out@) == with_local_paths_spec(fv.take(i as int), pair_views(mapping@)),
        decreases files.len() - i,
    {
        let f = &files[i];
        let local = lookup_exec(mapping, f.depot_path.as_str());
        let ghost prev = out@;
        out.push(
            P4OpenedFile {
                depot_path: f.depot_path.clone(),
                action: f.action.clone(),
                change: f.change.clone(),
                local_path: local,
            },
        );
        assert(fv[i as int] == files@[i as int]@);
        assert(opened_views(out@) =~= opened_views(prev).push(
            OpenedV { local_path: lookup(pair_views(mapping@), fv[i as int].depot_path), ..fv[i as int] },
        ));
        assert(fv.take(i + 1) =~= fv.take(i as int).push(fv[i as int]));
        assert(opened_views(out@) =~= with_local_paths_spec(fv.take(i + 1), pair_views(mapping@)));
        i = i + 1;
    }
    assert(fv.take(files.len() as int) == fv);
    out
}

/// The diff text of a pending changelist: the outputs of `p4 diff` that are
/// not blank, joined by newlines.
pub open spec fn sections_spec(outs: Seq<Seq<char>>) -> Seq<Seq<char>>
    decreases outs.len(),
{
    if outs.len() == 0 {
        seq![]
    } else {
        sections_spec(outs.drop_last()) + if trim(outs.last()).len() > 0 {
            seq![outs.last()]
        } else {
            Seq::<Seq<char>>::empty()
        }
    }
}

/// Joins the non-blank outputs with newlines (see `sections_spec`).
pub fn join_diff_sections(outputs: &Vec<String>) -> (r: String)
    ensures
        r@ == crate::diff_engine::merge::join(sections_spec(views(outputs@)), "\n"@),
{
    let mut kept: Vec<String> = Vec::new();
    let ghost ov = views(outputs@);
    let mut i: usize = 0;
    assert(ov.take(0) =~= Seq::<Seq<char>>::empty());
    assert(views(kept@) =~= seq![]);
    while i < outputs.len()
        invariant
            i <= outputs.len(),
            ov == views(outputs@),
            views(kept@) == sections_spec(ov.take(i as int)),
        decreases outputs.len() - i,
    {
        let ghost prev = kept@;
        let ghost t = ov.take(i + 1);
        assert(t.drop_last() == ov.take(i as int));
        assert(t.last() == outputs@[i as int]@);
        let tr = trim_of(&chars_of(outputs[i].as_str()));
        if tr.len() > 0 {
            kept.push(outputs[i].clone());
            assert(views(kept@) =~= views(prev).push(outputs@[i as int]@));
        }
        assert(views(kept@) =~= sections_spec(t));
        i = i + 1;
    }
    assert(ov.take(outputs.len() as int) == ov);
    crate::diff_engine::merge::join_exec(&kept)
}

/// An opened file that `p4 diff` showed nothing for: its status, and the JSON
/// of its left and right content. Added files (`add`, `branch`,
/// `move/add`) show the local file on the right where it has one; others get
/// the status `<action> no-diff` and empty text on both sides.
pub open spec fn no_diff_payload_spec(f: OpenedV) -> (Seq<char>, Seq<char>, Seq<char>) {
    let empty = source_json(SourceV::Virtual(seq![]));
    if f.action == "add"@ || f.action == "branch"@ || f.action == "move/add"@ {
        (
            "added"@,
            empty,
            match f.local_path {
                Some(p) => source_json(SourceV::Path(p)),
                None => empty,
            },
        )
    } else {
        (f.action + " no-diff"@, empty, empty)
    }
}

/// See `no_diff_payload_spec`.
pub fn pending_no_diff_filediff_payload(file: &P4OpenedFile) -> (r: (String, String, String))
    ensures
        (r.0@, r.1@, r.2@) == no_diff_payload_spec(file@),
{
    proof {
        reveal_strlit("");
    }
    let empty_json = ContentSource::virtual_text(owned("")).to_json_string();
    let right_json = match &file.local_path {
        Some(p) => ContentSource::path(p.clone()).to_json_string(),
        None => empty_json.clone(),
    };
    let a = file.action.as_str();
    if str_eq(a, "add") || str_eq(a, "branch") || str_eq(a, "move/add") {
        (owned("added"), empty_json, right_json)
    } else {
        let empty2 = ContentSource::virtual_text(owned("")).to_json_string();
        (concat(a, " no-diff"), empty_json, empty2)
    }
}

/// Where a merge result for an opened file without a diff is written: its
/// local file, or wherever the user chooses.
pub fn pending_no_diff_write_target(file: &P4OpenedFile) -> (r: WriteTarget)
    ensures
        r@ == match file@.local_path {
            Some(p) => TargetV::Path(p),
            None => TargetV::SaveAsRequired,
        },
{
    match &file.local_path {
        Some(p) => WriteTarget::path(p.clone()),
        None => WriteTarget::SaveAsRequired,
    }
}

/// Whether `x` is among `v`.
pub open spec fn seq_has(v: Seq<Seq<char>>, x: Seq<char>) -> bool {
    exists|k: int| 0 <= k < v.len() && v[k] == x
}

/// The opened files that no existing file diff (by display path, without
/// revision) covers, in order.
pub open spec fn without_diffs_spec(fs: Seq<OpenedV>, existing: Seq<Seq<char>>) -> Seq<OpenedV>
    decreases fs.len(),
{
    if fs.len() == 0 {
        seq![]
    } else {
        without_diffs_spec(fs.drop_last(), existing) + if seq_has(
            existing.map_values(|p: Seq<char>| strip_rev_spec(p)),
            strip_rev_spec(fs.last().depot_path),
        ) {
            Seq::<OpenedV>::empty()
        } else {
            seq![fs.last()]
        }
    }
}

fn has_str(v: &Vec<String>, x: &str) -> (r: bool)
    ensures
        r == seq_has(views(v@), x@),
{
    let mut i: usize = 0;
    while i < v.len()
        invariant
            i <= v.len(),
            forall|k: int| 0 <= k < i ==> views(v@)[k] != x@,
        decreases v.len() - i,
    {
        if str_eq(v[i].as_str(), x) {
            assert(views(v@)[i as int] == x@);
            return true;
        }
        i = i + 1;
    }
    false
}

/// The opened files that none of the display paths `existing` covers (see
/// `without_diffs_spec`).
pub fn opened_files_without_diffs(files: &Vec<P4OpenedFile>, existing: &Vec<String>) -> (r: Vec<
    P4OpenedFile,
>)
    ensures
        opened_views(r@) == without_diffs_spec(opened_views(files@), views(existing@)),
{
    let mut stripped: Vec<String> = Vec::new();
    let mut j: usize = 0;
    while j < existing.len()
        invariant
            j <= existing.len(),
            views(stripped@) == views(existing@).take(j as int).map_values(
                |p: Seq<char>| strip_rev_spec(p),
            ),
        decreases existing.len() - j,
    {
        let ghost prev = stripped@;
        stripped.push(strip_p4_rev(existing[j].as_str()));
        assert(views(stripped@) =~= views(prev).push(strip_rev_spec(existing@[j as int]@)));
        assert(views(existing@).take(j + 1) =~= views(existing@).take(j as int).push(
            existing@[j as int]@,
        ));
        assert(views(stripped@) =~= views(existing@).take(j + 1).map_values(
            |p: Seq<char>| strip_rev_spec(p),
        ));
        j = j + 1;
    }
    assert(views(existing@).take(existing.len() as int) == views(existing@));
    let ghost ex = views(existing@).map_values(|p: Seq<char>| strip_rev_spec(p));
    let ghost fv = opened_views(files@);
    let mut out: Vec<P4OpenedFile> = Vec::new();
    let mut i: usize = 0;
    assert(fv.take(0) =~= Seq::<OpenedV>::empty());
    assert(opened_views(out@) =~= seq![]);
    while i < files.len()
        invariant
            i <= files.len(),
            fv == opened_views(files@),
            views(stripped@) == ex,
            ex == views(existing@).map_values(|p: Seq<char>| strip_rev_spec(p)),
            opened_views(out@) == without_diffs_spec(fv.take(i as int), views(existing@)),
        decreases files.len() - i,
    {
        let ghost prev = out@;
        let ghost t = fv.take(i + 1);
        assert(t.drop_last() == fv.take(i as int));
        assert(t.last() == files@[i as int]@);
        let p = strip_p4_rev(files[i].depot_path.as_str());
        if !has_str(&stripped, p.as_str()) {
            out.push(files[i].duplicate());
            assert(files@[i as int]@ == fv[i as int]);
            assert(opened_views(out@) =~= opened_views(prev).push(fv[i as int]));
        }
        assert(opened_views(out@) =~= without_diffs_spec(t, views(existing@)));
        i = i + 1;
    }
    assert(fv.take(files.len() as int) == fv);
    out
}

/// The title of a pending changelist import: the default changelist has a
/// fixed one; another shows its number and its description, or `Pending
/// changelist` where it has none.
pub open spec fn pending_title_spec(change: Seq<char>, desc: Option<Seq<char>>) -> Seq<char> {
    if change == "default"@ {
        "default - 'Default pending changelist'"@
    } else {
        change + " - '"@ + match desc {
            Some(d) => d,
            None => "Pending changelist"@,
        } + "'"@
    }
}

/// See `pending_title_spec`.
pub fn pending_title(change: &str, desc: Option<String>) -> (r: String)
    ensures
        r@ == pending_title_spec(change@, opt_view(desc)),
{
    if str_eq(change, "default") {
        owned("default - 'Default pending changelist'")
    } else {
        let d = match desc {
            Some(d) => d,
            None => owned("Pending changelist"),
        };
        let a = concat(change, " - '");
        let b = concat(a.as_str(), d.as_str());
        concat(b.as_str(), "'")
    }
}

/// The kind of a pending changelist import.
pub fn pending_kind(change: &str) -> (r: &'static str)
    ensures
        r@ == (if change@ == "default"@ {
            "p4PendingDefault"@
        } else {
            "p4Pending"@
        }),
{
    if str_eq(change, "default") {
        "p4PendingDefault"
    } else {
        "p4Pending"
    }
}

/// The status recorded for a pending changelist: `Default` for the default
/// changelist, else `Pending`.
pub fn pending_status(change: &str) -> (r: &'static str)
    ensures
        r@ == (if change@ == "default"@ {
            "Default"@
        } else {
            "Pending"@
        }),
{
    if str_eq(change, "default") {
        "Default"
    } else {
        "Pending"
    }
}

/// How a shelved or submitted changelist import is described: its kind, its
/// status, the title used where it has no description, and the labels of its
/// two sides.
pub struct DescribeLabels {
    pub kind: &'static str,
    pub status: &'static str,
    pub fallback: &'static str,
    pub left_label: String,
    pub right_label: String,
}

/// See `DescribeLabels`: a shelved changelist is compared from the depot's
/// previous or have revision to the shelf, a submitted one from each file's
/// previous revision to its revision in the change.
pub fn describe_labels(change: &str, shelved: bool) -> (r: DescribeLabels)
    ensures
        shelved ==> {
            &&& r.kind@ == "p4Shelved"@
            &&& r.status@ == "Shelved"@
            &&& r.fallback@ == "Shelved changelist"@
            &&& r.left_label@ == "depot previous/have"@
            &&& r.right_label@ == "shelf @="@ + change@
        },
        !shelved ==> {
            &&& r.kind@ == "p4Submitted"@
            &&& r.status@ == "Submitted"@
            &&& r.fallback@ == "Submitted changelist"@
            &&& r.left_label@ == "#rev-1"@
            &&& r.right_label@ == "#rev @"@ + change@
        },
{
    if shelved {
        DescribeLabels {
            kind: "p4Shelved",
            status: "Shelved",
            fallback: "Shelved changelist",
            left_label: owned("depot previous/have"),
            right_label: concat("shelf @=", change),
        }
    } else {
        DescribeLabels {
            kind: "p4Submitted",
            status: "Submitted",
            fallback: "Submitted changelist",
            left_label: owned("#rev-1"),
            right_label: concat("#rev @", change),
        }
    }
}

/// The title of a shelved or submitted changelist import: its number and the
/// first line of its description, or `fallback`.
pub fn describe_title(change: &str, desc: Option<String>, fallback: &str) -> (r: String)
    ensures
        r@ == change@ + " - '"@ + match desc {
            Some(d) => d@,
            None => fallback@,
        } + "'"@,
{
    let d = match desc {
        Some(d) => d,
        None => owned(fallback),
    };
    let a = concat(change, " - '");
    let b = concat(a.as_str(), d.as_str());
    concat(b.as_str(), "'")
}

/// What holds of the local file `r` of a pending file diff `f`, with working
/// directory `cwd`, on every platform:
/// - where the new path is not `/dev/null` and a directory is given, there is
///   one: the new path, or the new path joined to the directory (always the
///   latter for a plainly relative new path);
/// - otherwise it is the new path or the old path, never `/dev/null`;
/// - there is none where neither path can be absolute (each is `/dev/null`,
///   or plainly relative with no directory to join the new one to).
pub open spec fn local_path_rules(f: FileV, cwd: Option<Seq<char>>, r: Option<Seq<char>>) -> bool {
    let new_ok = f.new_path != dev_null();
    let old_ok = f.old_path != dev_null();
    &&& (new_ok && cwd is Some ==> (r matches Some(x) && (x == f.new_path || joined(
        cwd->0,
        f.new_path,
        x,
    )) && (plain_relative(f.new_path) ==> joined(cwd->0, f.new_path, x))))
    &&& (!(new_ok && cwd is Some) ==> (r matches Some(x) ==> (new_ok && x == f.new_path) || (
    old_ok && x == f.old_path)))
    &&& (!(new_ok && cwd is Some) && new_ok && plain_relative(f.new_path) ==> (r matches Some(x)
        ==> old_ok && x == f.old_path))
    &&& ((!new_ok || (cwd is None && plain_relative(f.new_path))) && (!old_ok || plain_relative(
        f.old_path,
    )) ==> r is None)
}

/// The local file of a pending file diff: the new path where it is absolute,
/// or joined to `cwd` where one is given; else the old path where it is
/// absolute. `/dev/null` is never one. What is absolute, and how paths join,
/// is the platform's (`std::path`).
pub fn pending_local_path(pf: &PatchFileDiff, cwd: Option<&str>) -> (r: Option<String>)
    ensures
        local_path_rules(pf@, str_opt(cwd), opt_view(r)),
{
    if !str_eq(pf.new_path.as_str(), "/dev/null") {
        if path_is_absolute(pf.new_path.as_str()) {
            return Some(pf.new_path.clone());
        }
        if let Some(c) = cwd {
            return Some(path_join(c, pf.new_path.as_str()));
        }
    }
    if !str_eq(pf.old_path.as_str(), "/dev/null") {
        if path_is_absolute(pf.old_path.as_str()) {
            return Some(pf.old_path.clone());
        }
    }
    None
}

/// Where `p4 add` of a backup file runs: the given directory where it is not
/// blank, else the backup's parent directory.
pub fn backup_working_cwd(backup: &str, cwd: Option<&str>) -> (r: Option<String>)
    ensures
        match cwd {
            Some(c) => trim(c@).len() > 0 ==> (r matches Some(x) && x@ == c@),
            None => true,
        },
{
    match cwd {
        Some(c) => {
            let t = trim_of(&chars_of(c));
            if t.len() > 0 {
                return Some(owned(c));
            }
        },
        None => {},
    }
    path_parent(backup)
}

/// Errors of `p4 add` that mean the file is already tracked.
pub open spec fn tolerated_add_error(err: Seq<char>) -> bool {
    contains(err, "already opened for add"@) || contains(err, "currently opened for add"@)
        || contains(err, "can't add existing file"@)
}

/// The outcome of adding a generated backup file to the changelist: success,
/// or an error other than one saying the file is already tracked.
pub fn backup_add_outcome(result: Result<String, String>) -> (r: Result<(), String>)
    ensures
        match result {
            Ok(_) => r is Ok,
            Err(e) => if tolerated_add_error(e@) {
                r is Ok
            } else {
                r matches Err(x) && x@ == e@
            },
        },
{
    match result {
        Ok(_) => Ok(()),
        Err(e) => {
            proof {
                reveal_strlit("already opened for add");
                reveal_strlit("currently opened for add");
                reveal_strlit("can't add existing file");
            }
            let v = chars_of(e.as_str());
            if contains_lit(&v, "already opened for add") || contains_lit(&v, "currently opened for add")
                || contains_lit(&v, "can't add existing file") {
                Ok(())
            } else {
                Err(e)
            }
        },
    }
}

} // verus!
