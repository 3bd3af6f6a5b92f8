//! Reading unified diffs (git, Perforce or plain patch files) into file diffs
//! and hunks.
use vstd::prelude::*;
use crate::text::{
    chars_of, decimal, has_prefix, lines, lines_of, numbered, owned, parse_nat, parse_number, slice_of,
    split_once, split_once_lit, starts_with, str_eq, string_from, string_of, trim, trim_of,
    trim_start_char, trim_start_char_of, views, vviews, words, words_of,
};

verus! {

/// A single line in a hunk; `kind` is "context", "add" or "del".
#[derive(Debug, Clone)]
pub struct HunkLine {
    pub kind: String,
    pub text: String,
}

/// A hunk of a unified diff.
#[derive(Debug, Clone)]
pub struct Hunk {
    pub id: String,
    pub old_start: usize,
    pub old_count: usize,
    pub new_start: usize,
    pub new_count: usize,
    pub lines: Vec<HunkLine>,
}

/// One file entry of a unified diff; `status` is "modified", "added",
/// "deleted" or "renamed".
#[derive(Debug, Clone)]
pub struct PatchFileDiff {
    pub old_path: String,
    pub new_path: String,
    pub hunks: Vec<Hunk>,
    pub status: String,
}

/// Model of a hunk line.
pub struct LineV {
    pub kind: Seq<char>,
    pub text: Seq<char>,
}

/// Model of a hunk.
pub struct HunkV {
    pub id: Seq<char>,
    pub old_start: usize,
    pub old_count: usize,
    pub new_start: usize,
    pub new_count: usize,
    pub lines: Seq<LineV>,
}

/// Model of a file diff.
pub struct FileV {
    pub old_path: Seq<char>,
    pub new_path: Seq<char>,
    pub hunks: Seq<HunkV>,
    pub status: Seq<char>,
}

impl View for HunkLine {
    type V = LineV;

    open spec fn view(&self) -> LineV {
        LineV { kind: self.kind@, text: self.text@ }
    }
}

pub open spec fn line_views(v: Seq<HunkLine>) -> Seq<LineV> {
    v.map_values(|l: HunkLine| l@)
}

impl View for Hunk {
    type V = HunkV;

    open spec fn view(&self) -> HunkV {
        HunkV {
            id: self.id@,
            old_start: self.old_start,
            old_count: self.old_count,
            new_start: self.new_start,
            new_count: self.new_count,
            lines: line_views(self.lines@),
        }
    }
}

pub open spec fn hunk_views(v: Seq<Hunk>) -> Seq<HunkV> {
    v.map_values(|h: Hunk| h@)
}

impl View for PatchFileDiff {
    type V = FileV;

    open spec fn view(&self) -> FileV {
        FileV {
            old_path: self.old_path@,
            new_path: self.new_path@,
            hunks: hunk_views(self.hunks@),
            status: self.status@,
        }
    }
}

pub open spec fn file_views(v: Seq<PatchFileDiff>) -> Seq<FileV> {
    v.map_values(|f: PatchFileDiff| f@)
}

// ---------------------------------------------------------------------------
// Specification of the reader
// ---------------------------------------------------------------------------

pub open spec fn kind_context() -> Seq<char> {
    "context"@
}

pub open spec fn kind_add() -> Seq<char> {
    "add"@
}

pub open spec fn kind_del() -> Seq<char> {
    "del"@
}

pub open spec fn dev_null() -> Seq<char> {
    "/dev/null"@
}

pub open spec fn or_default(o: Option<nat>, d: nat) -> nat {
    match o {
        Some(n) => n,
        None => d,
    }
}

/// A path with a leading `a/` or `b/` removed.
pub open spec fn strip_ab(p: Seq<char>) -> Seq<char> {
    if has_prefix(p, "a/"@) || has_prefix(p, "b/"@) {
        p.skip(2)
    } else {
        p
    }
}

/// `start,count` or `start`: a missing or unreadable start is 1, an unreadable
/// count 0 and a missing count 1.
pub open spec fn range_of(r: Seq<char>) -> (nat, nat) {
    match split_once(r, ","@) {
        Some((a, b)) => (
            or_default(parse_nat(a, usize::MAX as nat), 1),
            or_default(parse_nat(b, usize::MAX as nat), 0),
        ),
        None => (or_default(parse_nat(r, usize::MAX as nat), 1), 1),
    }
}

/// The ranges of a `@@ -a,b +c,d @@` line: its second and third words, less
/// their leading `-` and `+`; `None` for a line of fewer than four words.
pub open spec fn header_of(l: Seq<char>) -> Option<(nat, nat, nat, nat)> {
    let w = words(l);
    if w.len() < 4 {
        None
    } else {
        let (os, oc) = range_of(trim_start_char(w[1], '-'));
        let (ns, nc) = range_of(trim_start_char(w[2], '+'));
        Some((os, oc, ns, nc))
    }
}

/// A line inside a hunk: `+` adds, `-` deletes, anything else is context
/// (less one leading space).
pub open spec fn classify(l: Seq<char>) -> LineV {
    if has_prefix(l, "+"@) {
        LineV { kind: kind_add(), text: l.skip(1) }
    } else if has_prefix(l, "-"@) {
        LineV { kind: kind_del(), text: l.skip(1) }
    } else if has_prefix(l, " "@) {
        LineV { kind: kind_context(), text: l.skip(1) }
    } else {
        LineV { kind: kind_context(), text: l }
    }
}

/// The status after a `+++` line: added from /dev/null, deleted to /dev/null,
/// renamed where the paths differ, else unchanged.
pub open spec fn status_after(old_path: Seq<char>, new_path: Seq<char>, prev: Seq<char>) -> Seq<char> {
    if old_path == dev_null() {
        "added"@
    } else if new_path == dev_null() {
        "deleted"@
    } else if old_path != new_path {
        "renamed"@
    } else {
        prev
    }
}

/// State of the reader between two lines.
pub struct ReadState {
    pub files: Seq<FileV>,
    pub file: Option<FileV>,
    pub hunk: Option<HunkV>,
    pub counter: nat,
}

pub open spec fn flush(f: FileV, h: Option<HunkV>) -> FileV {
    match h {
        Some(h) => FileV { hunks: f.hunks.push(h), ..f },
        None => f,
    }
}

pub open spec fn hunk_id(n: nat) -> Seq<char> {
    "hunk-"@ + decimal(n)
}

/// What one line does to the reader.
pub open spec fn step(st: ReadState, l: Seq<char>) -> ReadState {
    if has_prefix(l, "--- "@) {
        let files = match st.file {
            Some(f) => st.files.push(flush(f, st.hunk)),
            None => st.files,
        };
        let f = FileV {
            old_path: strip_ab(trim(l.skip(4))),
            new_path: Seq::empty(),
            hunks: Seq::empty(),
            status: "modified"@,
        };
        ReadState { files, file: Some(f), hunk: None, counter: st.counter }
    } else if has_prefix(l, "+++ "@) {
        match st.file {
            Some(f) => {
                let np = strip_ab(trim(l.skip(4)));
                let f2 = FileV { new_path: np, status: status_after(f.old_path, np, f.status), ..f };
                ReadState { file: Some(f2), ..st }
            },
            None => st,
        }
    } else if has_prefix(l, "@@ "@) {
        let (file, hunk) = match st.file {
            Some(f) => (Some(flush(f, st.hunk)), None),
            None => (None, st.hunk),
        };
        match header_of(l) {
            Some((os, oc, ns, nc)) => ReadState {
                files: st.files,
                file,
                hunk: Some(
                    HunkV {
                        id: hunk_id(st.counter + 1),
                        old_start: os as usize,
                        old_count: oc as usize,
                        new_start: ns as usize,
                        new_count: nc as usize,
                        lines: Seq::empty(),
                    },
                ),
                counter: st.counter + 1,
            },
            None => ReadState { files: st.files, file, hunk, counter: st.counter },
        }
    } else {
        match st.hunk {
            Some(h) => ReadState { hunk: Some(HunkV { lines: h.lines.push(classify(l)), ..h }), ..st },
            None => st,
        }
    }
}

pub open spec fn initial() -> ReadState {
    ReadState { files: Seq::empty(), file: None, hunk: None, counter: 0 }
}

/// The reader after the lines `ls`.
pub open spec fn run(ls: Seq<Seq<char>>) -> ReadState
    decreases ls.len(),
{
    if ls.len() == 0 {
        initial()
    } else {
        step(run(ls.drop_last()), ls.last())
    }
}

pub open spec fn finish(st: ReadState) -> Seq<FileV> {
    match st.file {
        Some(f) => st.files.push(flush(f, st.hunk)),
        None => st.files,
    }
}

/// The file diffs of a unified diff text.
pub open spec fn parse_spec(patch: Seq<char>) -> Seq<FileV> {
    finish(run(lines(patch)))
}

/// Whether a hunk line of kind `kind` belongs to the side `source`: "left"
/// takes context and deleted lines, "right" context and added lines, any other
/// source context lines only.
pub open spec fn takes(source: Seq<char>, kind: Seq<char>) -> bool {
    if source == "left"@ {
        kind == kind_del() || kind == kind_context()
    } else if source == "right"@ {
        kind == kind_add() || kind == kind_context()
    } else {
        kind == kind_context()
    }
}

/// The texts of the hunk lines that belong to `source`, in order.
pub open spec fn texts_for(ls: Seq<LineV>, source: Seq<char>) -> Seq<Seq<char>>
    decreases ls.len(),
{
    if ls.len() == 0 {
        seq![]
    } else {
        texts_for(ls.drop_last(), source) + if takes(source, ls.last().kind) {
            seq![ls.last().text]
        } else {
            Seq::<Seq<char>>::empty()
        }
    }
}

/// Number of lines that open a file entry.
pub open spec fn count_file_headers(ls: Seq<Seq<char>>) -> nat
    decreases ls.len(),
{
    if ls.len() == 0 {
        0
    } else {
        count_file_headers(ls.drop_last()) + if has_prefix(ls.last(), "--- "@) {
            1nat
        } else {
            0nat
        }
    }
}

pub open spec fn open_count(st: ReadState) -> nat {
    st.files.len() + if st.file is Some {
        1nat
    } else {
        0nat
    }
}

proof fn lemma_run_file_count(ls: Seq<Seq<char>>)
    ensures
        open_count(run(ls)) == count_file_headers(ls),
    decreases ls.len(),
{
    if ls.len() > 0 {
        lemma_run_file_count(ls.drop_last());
    }
}

/// A unified diff holds one file entry for each line that starts with `--- `.
pub proof fn law_one_file_per_header(patch: Seq<char>)
    ensures
        parse_spec(patch).len() == count_file_headers(lines(patch)),
{
    lemma_run_file_count(lines(patch));
}

/// The status a file entry has for its paths: deleted where only the new path
/// is `/dev/null`, added where the old path is `/dev/null` and a new path was
/// read, renamed where two real paths differ.
pub open spec fn status_fits_paths(f: FileV) -> bool {
    &&& (f.new_path == "/dev/null"@ && f.old_path != "/dev/null"@ ==> f.status == "deleted"@)
    &&& (f.old_path == "/dev/null"@ && f.new_path.len() > 0 ==> f.status == "added"@)
    &&& (f.old_path != "/dev/null"@ && f.new_path != "/dev/null"@ && f.new_path.len() > 0
        && f.old_path != f.new_path ==> f.status == "renamed"@)
}

pub open spec fn state_statuses_fit(st: ReadState) -> bool {
    &&& forall|i: int| 0 <= i < st.files.len() ==> status_fits_paths(#[trigger] st.files[i])
    &&& (st.file matches Some(f) ==> status_fits_paths(f))
}

proof fn lemma_run_statuses(ls: Seq<Seq<char>>)
    ensures
        state_statuses_fit(run(ls)),
    decreases ls.len(),
{
    reveal_strlit("/dev/null");
    if ls.len() > 0 {
        lemma_run_statuses(ls.drop_last());
        let st = run(ls.drop_last());
        let l = ls.last();
        let n = step(st, l);
        assert(n == run(ls));
        if has_prefix(l, "--- "@) {
            let nf = n.file->0;
            assert(nf.new_path.len() == 0);
            assert(nf.new_path != "/dev/null"@);
            assert(status_fits_paths(nf));
            match st.file {
                Some(f) => {
                    assert(n.files == st.files.push(flush(f, st.hunk)));
                    assert forall|i: int| 0 <= i < n.files.len() implies status_fits_paths(
                        #[trigger] n.files[i],
                    ) by {
                        if i < st.files.len() {
                            assert(n.files[i] == st.files[i]);
                        }
                    }
                },
                None => {},
            }
        } else if has_prefix(l, "+++ "@) {
            match st.file {
                Some(f) => {
                    let np = strip_ab(trim(l.skip(4)));
                    let f2 = FileV { new_path: np, status: status_after(f.old_path, np, f.status), ..f };
                    assert(n.file == Some(f2));
                    assert(status_fits_paths(f2));
                },
                None => {},
            }
        } else if has_prefix(l, "@@ "@) {
            match st.file {
                Some(f) => {
                    assert(status_fits_paths(flush(f, st.hunk)));
                },
                None => {},
            }
        } else {
        }
    }
}

/// The status of every file entry of a unified diff follows its paths: a
/// diff to `/dev/null` deletes the file, one from `/dev/null` adds it, and one
/// between two different real paths renames it.
pub proof fn law_status_follows_paths(patch: Seq<char>)
    ensures
        forall|i: int| 0 <= i < parse_spec(patch).len() ==> status_fits_paths(#[trigger] parse_spec(patch)[i]),
{
    let st = run(lines(patch));
    lemma_run_statuses(lines(patch));
    let fs = parse_spec(patch);
    match st.file {
        Some(f) => {
            assert forall|i: int| 0 <= i < fs.len() implies status_fits_paths(#[trigger] fs[i]) by {
                if i < st.files.len() {
                    assert(fs[i] == st.files[i]);
                } else {
                    assert(fs[i] == flush(f, st.hunk));
                }
            }
        },
        None => {},
    }
}

// ---------------------------------------------------------------------------
// Executable reader
// ---------------------------------------------------------------------------

struct Reader {
    files: Vec<PatchFileDiff>,
    file: Option<PatchFileDiff>,
    hunk: Option<Hunk>,
    counter: usize,
}

spec fn opt_file_view(o: Option<PatchFileDiff>) -> Option<FileV> {
    match o {
        Some(f) => Some(f@),
        None => None,
    }
}

spec fn opt_hunk_view(o: Option<Hunk>) -> Option<HunkV> {
    match o {
        Some(h) => Some(h@),
        None => None,
    }
}

impl Reader {
    spec fn model(&self) -> ReadState {
        ReadState {
            files: file_views(self.files@),
            file: opt_file_view(self.file),
            hunk: opt_hunk_view(self.hunk),
            counter: self.counter as nat,
        }
    }
}

fn flush_exec(f: PatchFileDiff, h: Option<Hunk>) -> (r: PatchFileDiff)
    ensures
        r@ == flush(f@, opt_hunk_view(h)),
{
    match h {
        Some(h) => {
            let mut f = f;
            let ghost prev = f.hunks@;
            f.hunks.push(h);
            assert(hunk_views(f.hunks@) =~= hunk_views(prev).push(h@));
            f
        },
        None => f,
    }
}

fn strip_ab_exec(p: Vec<char>) -> (r: Vec<char>)
    ensures
        r@ == strip_ab(p@),
{
    if starts_with(&p, "a/") || starts_with(&p, "b/") {
        proof {
            reveal_strlit("a/");
            reveal_strlit("b/");
        }
        slice_of(&p, 2, p.len())
    } else {
        p
    }
}

/// The path after a four-character marker such as `--- `.
fn header_path(line: &Vec<char>) -> (r: String)
    requires
        line.len() >= 4,
    ensures
        r@ == strip_ab(trim(line@.skip(4))),
{
    let rest = slice_of(line, 4, line.len());
    let t = trim_of(&rest);
    let p = strip_ab_exec(t);
    string_from(&p)
}

fn or_default_exec(o: Option<u64>, d: usize) -> (r: usize)
    requires
        o matches Some(n) ==> n <= usize::MAX,
    ensures
        r as nat == or_default(
            match o {
                Some(n) => Some(n as nat),
                None => None,
            },
            d as nat,
        ),
{
    match o {
        Some(n) => n as usize,
        None => d,
    }
}

fn range_exec(r: &Vec<char>) -> (res: (usize, usize))
    ensures
        res.0 as nat == range_of(r@).0,
        res.1 as nat == range_of(r@).1,
{
    proof {
        reveal_strlit(",");
    }
    let max = usize::MAX as u64;
    match split_once_lit(r, ",") {
        Some((a, b)) => {
            let s = or_default_exec(parse_number(&a, max), 1);
            let c = or_default_exec(parse_number(&b, max), 0);
            (s, c)
        },
        None => {
            let s = or_default_exec(parse_number(r, max), 1);
            (s, 1)
        },
    }
}

fn header_exec(line: &Vec<char>) -> (r: Option<(usize, usize, usize, usize)>)
    ensures
        match (r, header_of(line@)) {
            (Some((a, b, c, d)), Some((x, y, z, w))) => a as nat == x && b as nat == y && c as nat
                == z && d as nat == w,
            (None, None) => true,
            _ => false,
        },
{
    let w = words_of(line);
    if w.len() < 4 {
        return None;
    }
    assert(vviews(w@)[1] == w@[1]@);
    assert(vviews(w@)[2] == w@[2]@);
    let o = trim_start_char_of(&w[1], '-');
    let n = trim_start_char_of(&w[2], '+');
    let (os, oc) = range_exec(&o);
    let (ns, nc) = range_exec(&n);
    Some((os, oc, ns, nc))
}

fn classify_exec(line: &Vec<char>) -> (r: HunkLine)
    ensures
        r@ == classify(line@),
{
    proof {
        reveal_strlit("+");
        reveal_strlit("-");
        reveal_strlit(" ");
    }
    if starts_with(line, "+") {
        HunkLine { kind: owned("add"), text: string_of(line, 1, line.len()) }
    } else if starts_with(line, "-") {
        HunkLine { kind: owned("del"), text: string_of(line, 1, line.len()) }
    } else if starts_with(line, " ") {
        HunkLine { kind: owned("context"), text: string_of(line, 1, line.len()) }
    } else {
        HunkLine { kind: owned("context"), text: string_from(line) }
    }
}

fn status_after_exec(old_path: &String, new_path: &String, prev: String) -> (r: String)
    ensures
        r@ == status_after(old_path@, new_path@, prev@),
{
    if str_eq(old_path.as_str(), "/dev/null") {
        owned("added")
    } else if str_eq(new_path.as_str(), "/dev/null") {
        owned("deleted")
    } else if !str_eq(old_path.as_str(), new_path.as_str()) {
        owned("renamed")
    } else {
        prev
    }
}

fn step_exec(st: Reader, line: &Vec<char>) -> (r: Reader)
    requires
        st.counter < usize::MAX,
    ensures
        r.model() == step(st.model(), line@),
        r.counter <= st.counter + 1,
{
    proof {
        reveal_strlit("--- ");
        reveal_strlit("+++ ");
        reveal_strlit("@@ ");
    }
    let Reader { files, file, hunk, counter } = st;
    if starts_with(line, "--- ") {
        let mut files = files;
        let ghost prev = files@;
        match file {
            Some(f) => {
                let g = flush_exec(f, hunk);
                files.push(g);
                assert(file_views(files@) =~= file_views(prev).push(g@));
            },
            None => {},
        }
        let f = PatchFileDiff {
            old_path: header_path(line),
            new_path: String::new(),
            hunks: Vec::new(),
            status: owned("modified"),
        };
        assert(hunk_views(f.hunks@) =~= Seq::<HunkV>::empty());
        Reader { files, file: Some(f), hunk: None, counter }
    } else if starts_with(line, "+++ ") {
        match file {
            Some(f) => {
                let np = header_path(line);
                let PatchFileDiff { old_path, new_path: _, hunks, status } = f;
                let status = status_after_exec(&old_path, &np, status);
                let f2 = PatchFileDiff { old_path, new_path: np, hunks, status };
                Reader { files, file: Some(f2), hunk, counter }
            },
            None => Reader { files, file: None, hunk, counter },
        }
    } else if starts_with(line, "@@ ") {
        let (file, hunk) = match file {
            Some(f) => (Some(flush_exec(f, hunk)), None),
            None => (None, hunk),
        };
        match header_exec(line) {
            Some((os, oc, ns, nc)) => {
                let c = counter + 1;
                let h = Hunk {
                    id: numbered("hunk-", c as u64),
                    old_start: os,
                    old_count: oc,
                    new_start: ns,
                    new_count: nc,
                    lines: Vec::new(),
                };
                assert(line_views(h.lines@) =~= Seq::<LineV>::empty());
                Reader { files, file, hunk: Some(h), counter: c }
            },
            None => Reader { files, file, hunk, counter },
        }
    } else {
        match hunk {
            Some(h) => {
                let mut h = h;
                let hl = classify_exec(line);
                let ghost prev = h.lines@;
                h.lines.push(hl);
                assert(line_views(h.lines@) =~= line_views(prev).push(hl@));
                Reader { files, file, hunk: Some(h), counter }
            },
            None => Reader { files, file, hunk: None, counter },
        }
    }
}

/// Parse a unified diff / patch text into its file diffs.
pub fn parse_unified_diff(patch: &str) -> (files: Vec<PatchFileDiff>)
    ensures
        file_views(files@) == parse_spec(patch@),
        files@.len() == count_file_headers(lines(patch@)),
{
    proof {
        law_one_file_per_header(patch@);
    }
    let ls = lines_of(patch);
    let ghost lv = views(ls@);
    let mut st = Reader { files: Vec::new(), file: None, hunk: None, counter: 0 };
    assert(file_views(st.files@) =~= Seq::<FileV>::empty());
    assert(lv.take(0) =~= Seq::<Seq<char>>::empty());
    let mut i: usize = 0;
    while i < ls.len()
        invariant
            i <= ls.len(),
            lv == views(ls@),
            st.model() == run(lv.take(i as int)),
            st.counter <= i,
        decreases ls.len() - i,
    {
        let line = chars_of(ls[i].as_str());
        assert(line@ == lv[i as int]);
        assert(lv.take(i + 1).drop_last() =~= lv.take(i as int));
        assert(lv.take(i + 1).last() == lv[i as int]);
        st = step_exec(st, &line);
        i = i + 1;
    }
    assert(lv.take(ls.len() as int) =~= lv);
    let Reader { files, file, hunk, counter: _ } = st;
    match file {
        Some(f) => {
            let mut files = files;
            let ghost prev = files@;
            let g = flush_exec(f, hunk);
            files.push(g);
            assert(file_views(files@) =~= file_views(prev).push(g@));
            files
        },
        None => files,
    }
}

} // verus!
