//! Git: reading the output of `git log`, `git for-each-ref` and
//! `git ls-files`, and the names and titles of git imports.
use vstd::prelude::*;
use crate::diff_engine::twoway::{compute_hunks, compute_spec};
use crate::diff_engine::unified_parser::{FileV, PatchFileDiff};
use crate::paths::path_file_name;
use crate::text::{
    chars_of, concat, has_prefix, lines, lines_of, numbered, owned, slice_of, split, split_lit,
    starts_with, string_from, string_of, trim, trim_of, views, vviews, decimal,
};

verus! {

/// A commit as `git log` lists it.
#[derive(Debug, Clone)]
pub struct GitCommitSummary {
    pub rev: String,
    pub short_rev: String,
    pub subject: String,
    pub relative_time: String,
}

pub struct CommitV {
    pub rev: Seq<char>,
    pub short_rev: Seq<char>,
    pub subject: Seq<char>,
    pub relative_time: Seq<char>,
}

impl View for GitCommitSummary {
    type V = CommitV;

    open spec fn view(&self) -> CommitV {
        CommitV {
            rev: self.rev@,
            short_rev: self.short_rev@,
            subject: self.subject@,
            relative_time: self.relative_time@,
        }
    }
}

pub open spec fn commit_views(v: Seq<GitCommitSummary>) -> Seq<CommitV> {
    v.map_values(|c: GitCommitSummary| c@)
}

/// The git provider.
pub struct GitProvider;

impl GitProvider {
    pub fn name(&self) -> (r: &'static str)
        ensures
            r@ == "git"@,
    {
        "git"
    }
}

/// The unit separator that the log format puts between fields.
pub open spec fn unit_sep() -> Seq<char> {
    seq!['\u{1f}']
}

/// One line of `git log --pretty=format:%H%x1f%h%x1f%s%x1f%cr`: four fields,
/// each trimmed, the first not empty.
pub open spec fn log_line(l: Seq<char>) -> Option<CommitV> {
    let p = split(l, unit_sep());
    if p.len() < 4 || trim(p[0]).len() == 0 {
        None
    } else {
        Some(CommitV { rev: trim(p[0]), short_rev: trim(p[1]), subject: trim(p[2]), relative_time: trim(p[3]) })
    }
}

pub open spec fn parse_log_spec(ls: Seq<Seq<char>>) -> Seq<CommitV>
    decreases ls.len(),
{
    if ls.len() == 0 {
        seq![]
    } else {
        parse_log_spec(ls.drop_last()) + match log_line(ls.last()) {
            Some(c) => seq![c],
            None => Seq::<CommitV>::empty(),
        }
    }
}

/// The commits in `git log` output.
pub fn parse_git_log(output: &str) -> (r: Vec<GitCommitSummary>)
    ensures
        commit_views(r@) == parse_log_spec(lines(output@)),
{
    let ls = lines_of(output);
    let ghost lv = views(ls@);
    let mut out: Vec<GitCommitSummary> = Vec::new();
    let mut i: usize = 0;
    assert(lv.take(0) =~= Seq::<Seq<char>>::empty());
    while i < ls.len()
        invariant
            i <= ls.len(),
            lv == views(ls@),
            commit_views(out@) == parse_log_spec(lv.take(i as int)),
        decreases ls.len() - i,
    {
        let l = chars_of(ls[i].as_str());
        proof {
            assert(lv.take(i + 1).drop_last() == lv.take(i as int));
            assert(lv.take(i + 1).last() == l@);
        }
        proof {
            reveal_strlit("\u{1f}");
            assert("\u{1f}"@ =~= unit_sep());
        }
        let p = split_lit(&l, "\u{1f}");
        let ghost prev = out@;
        if p.len() >= 4 {
            assert(vviews(p@)[0] == p@[0]@);
            assert(vviews(p@)[1] == p@[1]@);
            assert(vviews(p@)[2] == p@[2]@);
            assert(vviews(p@)[3] == p@[3]@);
            let rev = trim_of(&p[0]);
            if rev.len() > 0 {
                let c = GitCommitSummary {
                    rev: string_from(&rev),
                    short_rev: string_from(&trim_of(&p[1])),
                    subject: string_from(&trim_of(&p[2])),
                    relative_time: string_from(&trim_of(&p[3])),
                };
                out.push(c);
                assert(commit_views(out@) =~= commit_views(prev) + seq![c@]);
            } else {
                assert(commit_views(out@) =~= commit_views(prev) + Seq::<CommitV>::empty());
            }
        } else {
            assert(commit_views(out@) =~= commit_views(prev) + Seq::<CommitV>::empty());
        }
        i = i + 1;
    }
    assert(lv.take(ls.len() as int) == lv);
    out
}

/// The trimmed non-blank lines of `ls`, in order.
pub open spec fn nonblank_lines(ls: Seq<Seq<char>>) -> Seq<Seq<char>>
    decreases ls.len(),
{
    if ls.len() == 0 {
        seq![]
    } else {
        nonblank_lines(ls.drop_last()) + if trim(ls.last()).len() > 0 {
            seq![trim(ls.last())]
        } else {
            Seq::<Seq<char>>::empty()
        }
    }
}

/// The trimmed non-blank lines of a text (such as the paths that
/// `git ls-files --others` lists).
pub fn nonblank_trimmed_lines(output: &str) -> (r: Vec<String>)
    ensures
        views(r@) == nonblank_lines(lines(output@)),
{
    let ls = lines_of(output);
    let ghost lv = views(ls@);
    let mut out: Vec<String> = Vec::new();
    let mut i: usize = 0;
    assert(lv.take(0) =~= Seq::<Seq<char>>::empty());
    while i < ls.len()
        invariant
            i <= ls.len(),
            lv == views(ls@),
            views(out@) == nonblank_lines(lv.take(i as int)),
        decreases ls.len() - i,
    {
        let l = chars_of(ls[i].as_str());
        proof {
            assert(lv.take(i + 1).drop_last() == lv.take(i as int));
            assert(lv.take(i + 1).last() == l@);
        }
        let t = trim_of(&l);
        let ghost prev = out@;
        if t.len() > 0 {
            let s = string_from(&t);
            out.push(s);
            assert(views(out@) =~= views(prev) + seq![s@]);
        } else {
            assert(views(out@) =~= views(prev) + Seq::<Seq<char>>::empty());
        }
        i = i + 1;
    }
    assert(lv.take(ls.len() as int) == lv);
    out
}

/// Lexicographic order of character sequences by code point (the order of
/// `str`'s `Ord`).
pub open spec fn lex_lt(a: Seq<char>, b: Seq<char>) -> bool
    decreases a.len(),
{
    if b.len() == 0 {
        false
    } else if a.len() == 0 {
        true
    } else if a[0] != b[0] {
        a[0] < b[0]
    } else {
        lex_lt(a.drop_first(), b.drop_first())
    }
}

pub proof fn lemma_lex_total(a: Seq<char>, b: Seq<char>)
    ensures
        a != b ==> (lex_lt(a, b) || lex_lt(b, a)),
        !(lex_lt(a, b) && lex_lt(b, a)),
        !lex_lt(a, a),
    decreases a.len(),
{
    if a.len() > 0 && b.len() > 0 && a[0] == b[0] {
        lemma_lex_total(a.drop_first(), b.drop_first());
        if a != b {
            assert(a.drop_first() != b.drop_first()) by {
                if a.drop_first() == b.drop_first() {
                    assert forall|i: int| 0 <= i < a.len() implies a[i] == b[i] by {
                        if i > 0 {
                            assert(a[i] == a.drop_first()[i - 1]);
                            assert(b[i] == b.drop_first()[i - 1]);
                        }
                    }
                    assert(a =~= b);
                }
            }
        }
    } else if a.len() == 0 && b.len() == 0 {
        assert(a =~= b);
    }
    if a.len() > 0 {
        lemma_lex_total(a.drop_first(), a.drop_first());
    }
}

pub proof fn lemma_lex_trans(a: Seq<char>, b: Seq<char>, c: Seq<char>)
    requires
        lex_lt(a, b),
        lex_lt(b, c),
    ensures
        lex_lt(a, c),
    decreases a.len(),
{
    if a.len() > 0 && b.len() > 0 && c.len() > 0 && a[0] == b[0] && b[0] == c[0] {
        lemma_lex_trans(a.drop_first(), b.drop_first(), c.drop_first());
    }
}

fn lex_lt_exec(a: &Vec<char>, b: &Vec<char>) -> (r: bool)
    ensures
        r == lex_lt(a@, b@),
{
    let mut i: usize = 0;
    assert(a@.skip(0) == a@);
    assert(b@.skip(0) == b@);
    while i < a.len() && i < b.len() && a[i] == b[i]
        invariant
            i <= a.len(),
            i <= b.len(),
            lex_lt(a@, b@) == lex_lt(a@.skip(i as int), b@.skip(i as int)),
        decreases a.len() - i,
    {
        proof {
            assert(a@.skip(i as int).drop_first() == a@.skip(i + 1));
            assert(b@.skip(i as int).drop_first() == b@.skip(i + 1));
            assert(a@.skip(i as int)[0] == a@[i as int]);
            assert(b@.skip(i as int)[0] == b@[i as int]);
        }
        i = i + 1;
    }
    if i == b.len() {
        return false;
    }
    if i == a.len() {
        return true;
    }
    assert(a@.skip(i as int)[0] == a@[i as int]);
    assert(b@.skip(i as int)[0] == b@[i as int]);
    a[i] < b[i]
}

pub open spec fn strictly_sorted(s: Seq<Seq<char>>) -> bool {
    forall|i: int, j: int| 0 <= i < j < s.len() ==> lex_lt(#[trigger] s[i], #[trigger] s[j])
}

/// Branch names from `git for-each-ref` output: the trimmed non-blank lines,
/// sorted and without repeats.
pub fn parse_git_branches(output: &str) -> (r: Vec<String>)
    ensures
        strictly_sorted(views(r@)),
        forall|b: Seq<char>| views(r@).contains(b) <==> nonblank_lines(lines(output@)).contains(b),
{
    let names = nonblank_trimmed_lines(output);
    let ghost nv = views(names@);
    let mut out: Vec<String> = Vec::new();
    let mut outc: Vec<Vec<char>> = Vec::new();
    let mut i: usize = 0;
    while i < names.len()
        invariant
            i <= names.len(),
            nv == views(names@),
            nv == nonblank_lines(lines(output@)),
            views(out@) == vviews(outc@),
            strictly_sorted(views(out@)),
            forall|b: Seq<char>| views(out@).contains(b) <==> nv.take(i as int).contains(b),
        decreases names.len() - i,
    {
        let c = chars_of(names[i].as_str());
        let ghost ov = views(out@);
        // position of the first entry not below `c`
        let mut k: usize = 0;
        while k < outc.len() && lex_lt_exec(&outc[k], &c)
            invariant
                k <= outc.len(),
                ov == views(out@),
                ov == vviews(outc@),
                forall|j: int| 0 <= j < k ==> lex_lt(#[trigger] ov[j], c@),
            decreases outc.len() - k,
        {
            assert(vviews(outc@)[k as int] == outc@[k as int]@);
            k = k + 1;
        }
        let dup = k < outc.len() && crate::text::chars_eq(&outc[k], &c);
        proof {
            assert forall|b: Seq<char>| nv.take(i + 1).contains(b) <==> (nv.take(i as int).contains(b) || b == c@) by {
                assert(nv.take(i + 1) == nv.take(i as int).push(c@));
                let t = nv.take(i as int);
                let u = nv.take(i + 1);
                if u.contains(b) {
                    let j = choose|j: int| 0 <= j < u.len() && u[j] == b;
                    if j < t.len() {
                        assert(t[j] == b);
                    }
                }
                if t.contains(b) {
                    let j = choose|j: int| 0 <= j < t.len() && t[j] == b;
                    assert(u[j] == b);
                }
                if b == c@ {
                    assert(u[i as int] == b);
                }
            }
        }
        let ghost before = views(out@);
        if !dup {
            out.insert(k, names[i].clone());
            outc.insert(k, c);
            proof {
                let after = views(out@);
                assert(after =~= before.insert(k as int, c@));
                assert(vviews(outc@) =~= after);
                if k < before.len() {
                    assert(before[k as int] != c@);
                    lemma_lex_total(before[k as int], c@);
                    assert(lex_lt(c@, before[k as int]));
                }
                assert forall|x: int, y: int| 0 <= x < y < after.len() implies lex_lt(#[trigger] after[x], #[trigger] after[y]) by {
                    if y < k {
                        assert(after[x] == before[x] && after[y] == before[y]);
                    } else if y == k {
                        assert(after[x] == before[x]);
                    } else if x == k {
                        assert(after[y] == before[y - 1]);
                        if y - 1 > k {
                            lemma_lex_trans(c@, before[k as int], before[y - 1]);
                        }
                    } else if x < k {
                        assert(after[x] == before[x] && after[y] == before[y - 1]);
                    } else {
                        assert(after[x] == before[x - 1] && after[y] == before[y - 1]);
                    }
                }
                assert forall|b: Seq<char>| after.contains(b) <==> (before.contains(b) || b == c@) by {
                    if after.contains(b) {
                        let j = choose|j: int| 0 <= j < after.len() && after[j] == b;
                        if j < k {
                            assert(before[j] == b);
                        } else if j > k {
                            assert(before[j - 1] == b);
                        }
                    }
                    if before.contains(b) {
                        let j = choose|j: int| 0 <= j < before.len() && before[j] == b;
                        if j < k {
                            assert(after[j] == b);
                        } else {
                            assert(after[j + 1] == b);
                        }
                    }
                    if b == c@ {
                        assert(after[k as int] == b);
                    }
                }
            }
        } else {
            assert(vviews(outc@)[k as int] == c@);
            assert(views(out@)[k as int] == c@);
            assert(views(out@).contains(c@));
            assert forall|b: Seq<char>| views(out@).contains(b) <==> (before.contains(b) || b == c@) by {}
        }
        assert forall|b: Seq<char>| views(out@).contains(b) <==> nv.take(i + 1).contains(b) by {
            assert(views(out@).contains(b) <==> (before.contains(b) || b == c@));
            assert(before.contains(b) <==> nv.take(i as int).contains(b));
        }
        i = i + 1;
    }
    assert(nv.take(names.len() as int) == nv);
    out
}

/// The first twelve characters of a revision.
pub fn short_rev(rev: &str) -> (r: String)
    ensures
        r@ == rev@.take(if rev@.len() < 12 { rev@.len() as int } else { 12 }),
{
    let v = chars_of(rev);
    let n = if v.len() < 12 {
        v.len()
    } else {
        12
    };
    string_of(&v, 0, n)
}

/// The subject of a commit in `git show --format=medium` output: the first
/// line indented by four spaces, trimmed, where it is not blank.
pub open spec fn commit_subject_from(ls: Seq<Seq<char>>) -> Option<Seq<char>>
    decreases ls.len(),
{
    if ls.len() == 0 {
        None
    } else if has_prefix(ls[0], "    "@) {
        if trim(ls[0].skip(4)).len() > 0 {
            Some(trim(ls[0].skip(4)))
        } else {
            None
        }
    } else {
        commit_subject_from(ls.drop_first())
    }
}

/// The title of an imported commit: the first five characters of the
/// revision and the commit's subject (the revision where there is none).
pub open spec fn commit_title_spec(output: Seq<char>, rev: Seq<char>) -> Seq<char> {
    let subject = match commit_subject_from(lines(output)) {
        Some(s) => s,
        None => rev,
    };
    rev.take(if rev.len() < 5 { rev.len() as int } else { 5 }) + " - '"@ + subject + "'"@
}

fn find_subject(ls: &Vec<String>) -> (r: Option<String>)
    ensures
        match r {
            Some(x) => commit_subject_from(views(ls@)) == Some(x@),
            None => commit_subject_from(views(ls@)) is None,
        },
{
    let ghost lv = views(ls@);
    let mut i: usize = 0;
    assert(lv.skip(0) == lv);
    while i < ls.len()
        invariant
            i <= ls.len(),
            lv == views(ls@),
            commit_subject_from(lv) == commit_subject_from(lv.skip(i as int)),
        decreases ls.len() - i,
    {
        proof {
            reveal_strlit("    ");
        }
        let l = chars_of(ls[i].as_str());
        proof {
            assert(lv.skip(i as int)[0] == l@);
            assert(lv.skip(i as int).drop_first() == lv.skip(i + 1));
        }
        if starts_with(&l, "    ") {
            let rest = slice_of(&l, 4, l.len());
            let t = trim_of(&rest);
            if t.len() > 0 {
                return Some(string_from(&t));
            }
            return None;
        }
        i = i + 1;
    }
    assert(lv.skip(ls.len() as int) =~= Seq::<Seq<char>>::empty());
    None
}

/// The title of an imported commit (see `commit_title_spec`).
pub fn git_commit_title(output: &str, rev: &str) -> (r: String)
    ensures
        r@ == commit_title_spec(output@, rev@),
{
    let ls = lines_of(output);
    let s = match find_subject(&ls) {
        Some(s) => s,
        None => owned(rev),
    };
    let rv = chars_of(rev);
    let n = if rv.len() < 5 {
        rv.len()
    } else {
        5
    };
    let prefix = string_of(&rv, 0, n);
    let a = concat(prefix.as_str(), " - '");
    let b = concat(a.as_str(), s.as_str());
    let r = concat(b.as_str(), "'");
    assert(r@ =~= commit_title_spec(output@, rev@));
    r
}

/// A file diff that adds the untracked file `rel_path` with the text `text`.
pub fn synthetic_git_added_file_diff(rel_path: &str, text: &str) -> (r: PatchFileDiff)
    requires
        text@.len() + 4 < usize::MAX,
    ensures
        r@ == (FileV {
            old_path: "/dev/null"@,
            new_path: rel_path@,
            hunks: compute_spec(""@, text@),
            status: "added"@,
        }),
{
    proof {
        reveal_strlit("");
    }
    PatchFileDiff {
        old_path: owned("/dev/null"),
        new_path: owned(rel_path),
        hunks: compute_hunks("", text),
        status: owned("added"),
    }
}

/// The `git show` argument for a file at a revision: `rev:path`.
pub fn show_spec_arg(rev: &str, rel_path: &str) -> (r: String)
    ensures
        r@ == rev@ + ":"@ + rel_path@,
{
    let a = concat(rev, ":");
    concat(a.as_str(), rel_path)
}


/// How many commits a listing asks for: the requested number, at least one
/// and at most a hundred.
pub open spec fn commit_limit(limit: nat) -> nat {
    if limit < 1 {
        1
    } else if limit > 100 {
        100
    } else {
        limit
    }
}

/// The arguments of the `git log` that lists commits of `repo_path` (of
/// `branch` where one is given).
pub open spec fn log_args_spec(repo_path: Seq<char>, limit: nat, branch: Option<Seq<char>>) -> Seq<Seq<char>> {
    seq![
        "-C"@,
        repo_path,
        "log"@,
        "--max-count"@,
        decimal(commit_limit(limit)),
        "--pretty=format:%H%x1f%h%x1f%s%x1f%cr"@,
    ] + match branch {
        Some(b) => seq![b],
        None => seq![],
    }
}

/// The arguments of the `git log` that `list_git_commits` runs (see
/// `log_args_spec`); its output is read by `parse_git_log`.
pub fn list_git_commits_args(repo_path: &str, limit: usize, branch: Option<&str>) -> (r: Vec<String>)
    ensures
        views(r@) == log_args_spec(
            repo_path@,
            limit as nat,
            match branch {
                Some(b) => Some(b@),
                None => None,
            },
        ),
{
    proof {
        reveal_strlit("");
    }
    let n: usize = if limit < 1 {
        1
    } else if limit > 100 {
        100
    } else {
        limit
    };
    let count = numbered("", n as u64);
    assert(count@ =~= decimal(commit_limit(limit as nat)));
    let mut r: Vec<String> = vec![
        owned("-C"),
        owned(repo_path),
        owned("log"),
        owned("--max-count"),
        count,
        owned("--pretty=format:%H%x1f%h%x1f%s%x1f%cr"),
    ];
    match branch {
        Some(b) => r.push(owned(b)),
        None => {},
    }
    assert(views(r@) =~= log_args_spec(
        repo_path@,
        limit as nat,
        match branch {
            Some(b) => Some(b@),
            None => None,
        },
    ));
    r
}

/// The name shown for a repository: its directory's name where that is not
/// empty, else the whole path. What the directory's name is, is the
/// platform's (`Path::file_name`).
pub fn display_repo_name(repo_path: &str) -> (r: String)
    ensures
        r@ == repo_path@ || r@.len() > 0,
{
    match path_file_name(repo_path) {
        Some(n) => if chars_of(n.as_str()).len() > 0 {
            n
        } else {
            owned(repo_path)
        },
        None => owned(repo_path),
    }
}

/// The title of a working-tree import.
pub fn working_tree_title(repo_path: &str) -> (r: String)
    ensures
        exists|name: Seq<char>| (name == repo_path@ || name.len() > 0) && r@ == "Git working tree: "@
            + name,
{
    let name = display_repo_name(repo_path);
    concat("Git working tree: ", name.as_str())
}

/// Whether `x` is among `v`.
pub open spec fn listed(v: Seq<Seq<char>>, x: Seq<char>) -> bool {
    exists|k: int| 0 <= k < v.len() && v[k] == x
}

/// The untracked paths that no parsed file diff already shows, in order.
pub open spec fn untracked_to_add_spec(existing: Seq<Seq<char>>, untracked: Seq<Seq<char>>) -> Seq<Seq<char>>
    decreases untracked.len(),
{
    if untracked.len() == 0 {
        seq![]
    } else {
        untracked_to_add_spec(existing, untracked.drop_last()) + if listed(existing, untracked.last()) {
            Seq::<Seq<char>>::empty()
        } else {
            seq![untracked.last()]
        }
    }
}

/// The untracked paths that none of the display paths `existing` shows (see
/// `untracked_to_add_spec`).
pub fn untracked_to_add(existing: &Vec<String>, untracked: &Vec<String>) -> (r: Vec<String>)
    ensures
        views(r@) == untracked_to_add_spec(views(existing@), views(untracked@)),
{
    let mut out: Vec<String> = Vec::new();
    let ghost uv = views(untracked@);
    let mut i: usize = 0;
    assert(uv.take(0) =~= Seq::<Seq<char>>::empty());
    assert(views(out@) =~= seq![]);
    while i < untracked.len()
        invariant
            i <= untracked.len(),
            uv == views(untracked@),
            views(out@) == untracked_to_add_spec(views(existing@), uv.take(i as int)),
        decreases untracked.len() - i,
    {
        let ghost t = uv.take(i + 1);
        assert(t.drop_last() == uv.take(i as int));
        assert(t.last() == untracked@[i as int]@);
        let mut found = false;
        let mut j: usize = 0;
        while j < existing.len()
            invariant
                j <= existing.len(),
                i < untracked.len(),
                found == listed(views(existing@).take(j as int), untracked@[i as int]@),
            decreases existing.len() - j,
        {
            if crate::text::str_eq(existing[j].as_str(), untracked[i].as_str()) {
                found = true;
            }
            proof {
                let e = views(existing@);
                assert(e.take(j + 1)[j as int] == e[j as int]);
                if listed(e.take(j as int), untracked@[i as int]@) {
                    let k = choose|k: int| 0 <= k < j && #[trigger] e.take(j as int)[k] == untracked@[i as int]@;
                    assert(e.take(j + 1)[k] == e.take(j as int)[k]);
                }
                if listed(e.take(j + 1), untracked@[i as int]@) && !listed(e.take(j as int), untracked@[i as int]@) {
                    let k = choose|k: int| 0 <= k < j + 1 && #[trigger] e.take(j + 1)[k] == untracked@[i as int]@;
                    if k < j {
                        assert(e.take(j as int)[k] == e.take(j + 1)[k]);
                    }
                }
            }
            j = j + 1;
        }
        assert(views(existing@).take(existing.len() as int) == views(existing@));
        let ghost prev = out@;
        if !found {
            out.push(untracked[i].clone());
            assert(views(out@) =~= views(prev).push(untracked@[i as int]@));
        }
        assert(views(out@) =~= untracked_to_add_spec(views(existing@), t));
        i = i + 1;
    }
    assert(uv.take(untracked.len() as int) == uv);
    out
}

} // verus!
