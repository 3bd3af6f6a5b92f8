//! Two-way comparison: a line diff by longest common subsequence, its hunks,
//! and the side-by-side alignment rows.
use vstd::prelude::*;
use crate::text::{decimal, lines, lines_of, numbered, owned, str_eq, views};
use crate::diff_engine::unified_parser::{takes, texts_for, hunk_id, hunk_views, kind_add, kind_context, kind_del, line_views, Hunk, HunkLine, HunkV, LineV};

verus! {

// ---------------------------------------------------------------------------
// Edit scripts
// ---------------------------------------------------------------------------

/// One step of an edit script between two sequences of lines.
pub enum EditV {
    Keep(Seq<char>),
    Del(Seq<char>),
    Add(Seq<char>),
}

/// Length of a longest common subsequence of `a` and `b`.
pub open spec fn lcs(a: Seq<Seq<char>>, b: Seq<Seq<char>>) -> nat
    decreases a.len() + b.len(),
{
    if a.len() == 0 || b.len() == 0 {
        0
    } else if a.last() == b.last() {
        lcs(a.drop_last(), b.drop_last()) + 1
    } else {
        let x = lcs(a.drop_last(), b);
        let y = lcs(a, b.drop_last());
        if x >= y {
            x
        } else {
            y
        }
    }
}

/// The edit script chosen between `a` and `b`: built from the ends, it keeps
/// equal last lines, else adds the last line of `b` where that loses no common
/// line, else deletes the last line of `a`.
pub open spec fn edits(a: Seq<Seq<char>>, b: Seq<Seq<char>>) -> Seq<EditV>
    decreases a.len() + b.len(),
{
    if a.len() > 0 && b.len() > 0 && a.last() == b.last() {
        edits(a.drop_last(), b.drop_last()).push(EditV::Keep(a.last()))
    } else if b.len() > 0 && (a.len() == 0 || lcs(a, b.drop_last()) >= lcs(a.drop_last(), b)) {
        edits(a, b.drop_last()).push(EditV::Add(b.last()))
    } else if a.len() > 0 {
        edits(a.drop_last(), b).push(EditV::Del(a.last()))
    } else {
        seq![]
    }
}

/// The lines of the left side that a script walks through (kept and deleted).
pub open spec fn old_side(es: Seq<EditV>) -> Seq<Seq<char>>
    decreases es.len(),
{
    if es.len() == 0 {
        seq![]
    } else {
        old_side(es.drop_last()) + match es.last() {
            EditV::Keep(t) => seq![t],
            EditV::Del(t) => seq![t],
            EditV::Add(_) => seq![],
        }
    }
}

/// The lines of the right side that a script walks through (kept and added).
pub open spec fn new_side(es: Seq<EditV>) -> Seq<Seq<char>>
    decreases es.len(),
{
    if es.len() == 0 {
        seq![]
    } else {
        new_side(es.drop_last()) + match es.last() {
            EditV::Keep(t) => seq![t],
            EditV::Add(t) => seq![t],
            EditV::Del(_) => seq![],
        }
    }
}

/// Number of kept lines.
pub open spec fn keeps(es: Seq<EditV>) -> nat
    decreases es.len(),
{
    if es.len() == 0 {
        0
    } else {
        keeps(es.drop_last()) + if es.last() is Keep {
            1nat
        } else {
            0nat
        }
    }
}

pub open spec fn is_change(e: EditV) -> bool {
    !(e is Keep)
}

pub proof fn lemma_lcs_le(a: Seq<Seq<char>>, b: Seq<Seq<char>>)
    ensures
        lcs(a, b) <= a.len(),
        lcs(a, b) <= b.len(),
    decreases a.len() + b.len(),
{
    if a.len() == 0 || b.len() == 0 {
    } else if a.last() == b.last() {
        lemma_lcs_le(a.drop_last(), b.drop_last());
    } else {
        lemma_lcs_le(a.drop_last(), b);
        lemma_lcs_le(a, b.drop_last());
    }
}

pub proof fn lemma_sides_push(es: Seq<EditV>, e: EditV)
    ensures
        old_side(es.push(e)) == old_side(es) + match e {
            EditV::Keep(t) => seq![t],
            EditV::Del(t) => seq![t],
            EditV::Add(_) => Seq::<Seq<char>>::empty(),
        },
        new_side(es.push(e)) == new_side(es) + match e {
            EditV::Keep(t) => seq![t],
            EditV::Add(t) => seq![t],
            EditV::Del(_) => Seq::<Seq<char>>::empty(),
        },
        keeps(es.push(e)) == keeps(es) + if e is Keep {
            1nat
        } else {
            0nat
        },
{
    assert(es.push(e).drop_last() == es);
    assert(es.push(e).last() == e);
}

pub proof fn lemma_old_side_add(x: Seq<EditV>, y: Seq<EditV>)
    ensures
        old_side(x + y) == old_side(x) + old_side(y),
        new_side(x + y) == new_side(x) + new_side(y),
    decreases y.len(),
{
    if y.len() == 0 {
        assert(x + y == x);
        assert(old_side(x) + old_side(y) == old_side(x));
        assert(new_side(x) + new_side(y) == new_side(x));
    } else {
        lemma_old_side_add(x, y.drop_last());
        assert((x + y).drop_last() == x + y.drop_last());
        assert((x + y).last() == y.last());
    }
}

/// The script walks through all of `a` on its left side and all of `b` on its
/// right side, and keeps as many lines as a longest common subsequence has.
pub proof fn law_edits_sound(a: Seq<Seq<char>>, b: Seq<Seq<char>>)
    ensures
        old_side(edits(a, b)) == a,
        new_side(edits(a, b)) == b,
        keeps(edits(a, b)) == lcs(a, b),
    decreases a.len() + b.len(),
{
    if a.len() > 0 && b.len() > 0 && a.last() == b.last() {
        law_edits_sound(a.drop_last(), b.drop_last());
        lemma_sides_push(edits(a.drop_last(), b.drop_last()), EditV::Keep(a.last()));
        assert(a.drop_last().push(a.last()) == a);
        assert(b.drop_last().push(b.last()) == b);
    } else if b.len() > 0 && (a.len() == 0 || lcs(a, b.drop_last()) >= lcs(a.drop_last(), b)) {
        law_edits_sound(a, b.drop_last());
        lemma_sides_push(edits(a, b.drop_last()), EditV::Add(b.last()));
        assert(b.drop_last().push(b.last()) == b);
        assert(old_side(edits(a, b.drop_last())) + seq![] == a);
        if a.len() > 0 && b.len() > 0 {
            assert(a.last() != b.last());
        }
    } else if a.len() > 0 {
        law_edits_sound(a.drop_last(), b);
        lemma_sides_push(edits(a.drop_last(), b), EditV::Del(a.last()));
        assert(a.drop_last().push(a.last()) == a);
        assert(new_side(edits(a.drop_last(), b)) + seq![] == b);
        if b.len() > 0 {
            assert(a.last() != b.last());
        }
    } else {
        assert(a == Seq::<Seq<char>>::empty());
        assert(b == Seq::<Seq<char>>::empty());
    }
}

/// Comparing a text with itself keeps every line.
pub proof fn law_edits_identical(a: Seq<Seq<char>>)
    ensures
        forall|i: int| 0 <= i < edits(a, a).len() ==> !is_change(#[trigger] edits(a, a)[i]),
    decreases a.len(),
{
    if a.len() > 0 {
        law_edits_identical(a.drop_last());
        let p = edits(a.drop_last(), a.drop_last());
        assert(edits(a, a) == p.push(EditV::Keep(a.last())));
        assert forall|i: int| 0 <= i < edits(a, a).len() implies !is_change(#[trigger] edits(a, a)[i]) by {
            if i < p.len() {
                assert(edits(a, a)[i] == p[i]);
            }
        }
    }
}


// ---------------------------------------------------------------------------
// Hunks of an edit script
// ---------------------------------------------------------------------------

/// The hunk line that shows an edit.
pub open spec fn to_line(e: EditV) -> LineV {
    match e {
        EditV::Keep(t) => LineV { kind: kind_context(), text: t },
        EditV::Del(t) => LineV { kind: kind_del(), text: t },
        EditV::Add(t) => LineV { kind: kind_add(), text: t },
    }
}

/// Positions of the added and deleted lines in a script, in order.
pub open spec fn change_indices(es: Seq<EditV>) -> Seq<int>
    decreases es.len(),
{
    if es.len() == 0 {
        seq![]
    } else {
        change_indices(es.drop_last()) + if is_change(es.last()) {
            seq![es.len() - 1]
        } else {
            Seq::<int>::empty()
        }
    }
}

/// The edits within `ctx` of position `c` in a script of `n` edits.
pub open spec fn window(c: int, ctx: int, n: int) -> (int, int) {
    (if c - ctx < 0 {
        0
    } else {
        c - ctx
    }, if c + ctx < n - 1 {
        c + ctx
    } else {
        n - 1
    })
}

/// The windows of the changes `cs`, where a window that starts at most one
/// position after the previous one ends extends it.
pub open spec fn group(cs: Seq<int>, ctx: int, n: int) -> Seq<(int, int)>
    decreases cs.len(),
{
    if cs.len() == 0 {
        seq![]
    } else {
        let g = group(cs.drop_last(), ctx, n);
        let w = window(cs.last(), ctx, n);
        if g.len() > 0 && w.0 <= g.last().1 + 1 {
            g.drop_last().push((g.last().0, w.1))
        } else {
            g.push(w)
        }
    }
}

/// The hunk numbered `k` that shows the edits `es[s..=e]`.
pub open spec fn make_hunk(es: Seq<EditV>, s: int, e: int, k: nat) -> HunkV {
    let part = es.subrange(s, e + 1);
    HunkV {
        id: hunk_id(k),
        old_start: (1 + old_side(es.take(s)).len()) as usize,
        old_count: old_side(part).len() as usize,
        new_start: (1 + new_side(es.take(s)).len()) as usize,
        new_count: new_side(part).len() as usize,
        lines: part.map_values(|x: EditV| to_line(x)),
    }
}

/// The hunks of a script, with `ctx` lines of context around each change.
pub open spec fn hunks_of(es: Seq<EditV>, ctx: int) -> Seq<HunkV> {
    let g = group(change_indices(es), ctx, es.len() as int);
    Seq::new(g.len(), |k: int| make_hunk(es, g[k].0, g[k].1, (k + 1) as nat))
}

/// The hunks between two texts, compared line by line with three lines of context.
pub open spec fn compute_spec(left: Seq<char>, right: Seq<char>) -> Seq<HunkV> {
    hunks_of(edits(lines(left), lines(right)), 3)
}

pub proof fn lemma_len_sides(es: Seq<EditV>)
    ensures
        es.len() + keeps(es) == old_side(es).len() + new_side(es).len(),
        keeps(es) <= es.len(),
    decreases es.len(),
{
    if es.len() > 0 {
        lemma_len_sides(es.drop_last());
        lemma_sides_push(es.drop_last(), es.last());
        assert(es.drop_last().push(es.last()) == es);
    }
}

pub proof fn lemma_lines_len(s: Seq<char>)
    ensures
        lines(s).len() <= s.len(),
    decreases s.len(),
{
    if s.len() > 0 {
        let k = crate::text::lead(s, crate::text::not_char('\n'));
        if k < s.len() {
            lemma_lines_len(s.skip(k as int + 1));
        }
    }
}

/// The edit script has at most as many steps as the two sides have lines.
pub proof fn lemma_edits_len(a: Seq<Seq<char>>, b: Seq<Seq<char>>)
    ensures
        edits(a, b).len() <= a.len() + b.len(),
{
    law_edits_sound(a, b);
    lemma_len_sides(edits(a, b));
}


/// Hunk lines taken for the left side are the script's left lines, and those
/// taken for the right side its right lines.
pub proof fn lemma_texts_of_edits(es: Seq<EditV>)
    ensures
        texts_for(es.map_values(|x: EditV| to_line(x)), "left"@) == old_side(es),
        texts_for(es.map_values(|x: EditV| to_line(x)), "right"@) == new_side(es),
    decreases es.len(),
{
    reveal_strlit("left");
    reveal_strlit("right");
    reveal_strlit("context");
    reveal_strlit("add");
    reveal_strlit("del");
    assert("left"@ != "right"@) by {
        assert("left"@.len() != "right"@.len());
    }
    assert(kind_context() != kind_del() && kind_context() != kind_add()) by {
        assert(kind_context().len() != kind_del().len());
        assert(kind_context().len() != kind_add().len());
    }
    assert(kind_add() != kind_del()) by {
        assert(kind_add()[0] != kind_del()[0]);
    }
    if es.len() > 0 {
        let d = es.drop_last();
        lemma_texts_of_edits(d);
        let m = es.map_values(|x: EditV| to_line(x));
        assert(m.drop_last() =~= d.map_values(|x: EditV| to_line(x)));
        assert(m.last() == to_line(es.last()));
        lemma_sides_push(d, es.last());
        assert(d.push(es.last()) == es);
    }
}

/// Every hunk between two texts is consistent with both: its left lines are
/// the left text's lines from its old start for its old count, and its right
/// lines the right text's lines from its new start for its new count.
pub proof fn law_hunks_match_texts(left: Seq<char>, right: Seq<char>, k: int)
    requires
        left.len() + right.len() + 3 < usize::MAX,
        0 <= k < compute_spec(left, right).len(),
    ensures
        ({
            let h = compute_spec(left, right)[k];
            &&& 1 <= h.old_start
            &&& 1 <= h.new_start
            &&& h.old_start - 1 + h.old_count <= lines(left).len()
            &&& h.new_start - 1 + h.new_count <= lines(right).len()
            &&& texts_for(h.lines, "left"@) == lines(left).subrange(
                h.old_start - 1,
                h.old_start - 1 + h.old_count,
            )
            &&& texts_for(h.lines, "right"@) == lines(right).subrange(
                h.new_start - 1,
                h.new_start - 1 + h.new_count,
            )
        }),
{
    let a = lines(left);
    let b = lines(right);
    let es = edits(a, b);
    let n = es.len() as int;
    let cs = change_indices(es);
    let g = group(cs, 3, n);
    lemma_lines_len(left);
    lemma_lines_len(right);
    lemma_edits_len(a, b);
    law_edits_sound(a, b);
    lemma_change_indices_bounds(es);
    lemma_group_bounds(cs, 3, n);
    let (s, e) = g[k];
    assert(0 <= s <= e < n);
    let part = es.subrange(s, e + 1);
    let pre = es.take(s);
    let post = es.skip(e + 1);
    assert(es == pre + part + post);
    lemma_old_side_add(pre + part, post);
    lemma_old_side_add(pre, part);
    lemma_texts_of_edits(part);
    let h = compute_spec(left, right)[k];
    assert(h == make_hunk(es, s, e, (k + 1) as nat));
    let x = old_side(pre);
    let y = old_side(part);
    let z = old_side(post);
    assert(a == x + y + z);
    assert(y == a.subrange(x.len() as int, (x.len() + y.len()) as int));
    let x2 = new_side(pre);
    let y2 = new_side(part);
    let z2 = new_side(post);
    assert(b == x2 + y2 + z2);
    assert(y2 == b.subrange(x2.len() as int, (x2.len() + y2.len()) as int));
}

/// Texts without differences have no hunks.
pub proof fn law_identical_texts_no_hunks(t: Seq<char>)
    ensures
        compute_spec(t, t).len() == 0,
{
    let es = edits(lines(t), lines(t));
    law_edits_identical(lines(t));
    lemma_no_changes(es);
}


/// Two texts that differ only in one line break written as CRLF on one side
/// and LF on the other have no hunks between them.
pub proof fn law_crlf_and_lf_have_no_hunks(x: Seq<char>, y: Seq<char>)
    requires
        !(x.len() > 0 && x.last() == '\r'),
    ensures
        compute_spec(x + seq!['\r', '\n'] + y, x + seq!['\n'] + y).len() == 0,
{
    let b = x + seq!['\n'] + y;
    crate::text::law_crlf_is_a_line_break(x, y);
    law_identical_texts_no_hunks(b);
}

proof fn lemma_keeps_only_same_sides(es: Seq<EditV>)
    requires
        change_indices(es).len() == 0,
    ensures
        old_side(es) == new_side(es),
    decreases es.len(),
{
    if es.len() > 0 {
        let d = es.drop_last();
        if change_indices(d).len() > 0 {
            assert(change_indices(es).len() >= change_indices(d).len());
        }
        lemma_keeps_only_same_sides(d);
        assert(!is_change(es.last()));
    }
}

/// Texts whose lines differ have at least one hunk.
pub proof fn law_different_texts_have_hunks(left: Seq<char>, right: Seq<char>)
    requires
        lines(left) != lines(right),
    ensures
        compute_spec(left, right).len() > 0,
{
    let a = lines(left);
    let b = lines(right);
    let es = edits(a, b);
    law_edits_sound(a, b);
    let cs = change_indices(es);
    if cs.len() == 0 {
        lemma_keeps_only_same_sides(es);
        assert(false);
    }
    let g = group(cs, 3, es.len() as int);
    assert(g.len() > 0);
}

proof fn lemma_no_changes(es: Seq<EditV>)
    requires
        forall|i: int| 0 <= i < es.len() ==> !is_change(#[trigger] es[i]),
    ensures
        change_indices(es).len() == 0,
    decreases es.len(),
{
    if es.len() > 0 {
        let d = es.drop_last();
        assert forall|i: int| 0 <= i < d.len() implies !is_change(#[trigger] d[i]) by {
            assert(d[i] == es[i]);
        }
        lemma_no_changes(d);
        assert(!is_change(es[es.len() - 1]));
    }
}

// ---------------------------------------------------------------------------
// Executable LCS and edit script
// ---------------------------------------------------------------------------

enum Edit {
    Keep(String),
    Del(String),
    Add(String),
}

impl View for Edit {
    type V = EditV;

    closed spec fn view(&self) -> EditV {
        match self {
            Edit::Keep(t) => EditV::Keep(t@),
            Edit::Del(t) => EditV::Del(t@),
            Edit::Add(t) => EditV::Add(t@),
        }
    }
}

spec fn edit_views(v: Seq<Edit>) -> Seq<EditV> {
    v.map_values(|e: Edit| e@)
}

fn lcs_table(a: &Vec<String>, b: &Vec<String>) -> (dp: Vec<Vec<usize>>)
    requires
        a.len() < usize::MAX,
        b.len() < usize::MAX,
    ensures
        dp.len() == a.len() + 1,
        forall|i: int| 0 <= i <= a.len() ==> #[trigger] dp@[i].len() == b.len() + 1,
        forall|i: int, j: int|
            0 <= i <= a.len() && 0 <= j <= b.len() ==> #[trigger] dp@[i]@[j] == lcs(
                views(a@).take(i),
                views(b@).take(j),
            ),
{
    let ghost va = views(a@);
    let ghost vb = views(b@);
    let m = a.len();
    let n = b.len();
    let mut dp: Vec<Vec<usize>> = Vec::new();
    let mut row0: Vec<usize> = Vec::new();
    let mut j: usize = 0;
    while j <= n
        invariant
            j <= n + 1,
            n == b.len(),
            n < usize::MAX,
            row0.len() == j,
            forall|k: int| 0 <= k < j ==> row0@[k] == 0,
        decreases n + 1 - j,
    {
        row0.push(0);
        j = j + 1;
    }
    proof {
        assert forall|k: int| 0 <= k <= n implies row0@[k] == lcs(va.take(0), vb.take(k)) by {}
    }
    dp.push(row0);
    let mut i: usize = 1;
    while i <= m
        invariant
            1 <= i <= m + 1,
            m == a.len(),
            n == b.len(),
            m < usize::MAX,
            n < usize::MAX,
            va == views(a@),
            vb == views(b@),
            dp.len() == i,
            forall|r: int| 0 <= r < i ==> #[trigger] dp@[r].len() == n + 1,
            forall|r: int, k: int|
                0 <= r < i && 0 <= k <= n ==> #[trigger] dp@[r]@[k] == lcs(va.take(r), vb.take(k)),
        decreases m + 1 - i,
    {
        let mut row: Vec<usize> = Vec::new();
        row.push(0);
        let mut j: usize = 1;
        while j <= n
            invariant
                1 <= i <= m,
                1 <= j <= n + 1,
                m == a.len(),
                n == b.len(),
                n < usize::MAX,
                va == views(a@),
                vb == views(b@),
                dp.len() == i,
                forall|r: int| 0 <= r < i ==> #[trigger] dp@[r].len() == n + 1,
                forall|r: int, k: int|
                    0 <= r < i && 0 <= k <= n ==> #[trigger] dp@[r]@[k] == lcs(va.take(r), vb.take(k)),
                row.len() == j,
                forall|k: int| 0 <= k < j ==> #[trigger] row@[k] == lcs(va.take(i as int), vb.take(k)),
            decreases n + 1 - j,
        {
            let ghost x = va.take(i as int);
            let ghost y = vb.take(j as int);
            proof {
                assert(x.drop_last() == va.take(i - 1));
                assert(y.drop_last() == vb.take(j - 1));
                assert(x.last() == a@[i - 1]@);
                assert(y.last() == b@[j - 1]@);
                lemma_lcs_le(va.take(i - 1), vb.take(j - 1));
                assert(dp@[i - 1].len() == n + 1);
            }
            let v = if a[i - 1] == b[j - 1] {
                dp[i - 1][j - 1] + 1
            } else {
                let up = dp[i - 1][j];
                let left = row[j - 1];
                if up >= left {
                    up
                } else {
                    left
                }
            };
            row.push(v);
            j = j + 1;
        }
        dp.push(row);
        i = i + 1;
    }
    dp
}

#[verifier::rlimit(50)]
fn backtrack_edits(dp: &Vec<Vec<usize>>, a: &Vec<String>, b: &Vec<String>) -> (es: Vec<Edit>)
    requires
        dp.len() == a.len() + 1,
        forall|i: int| 0 <= i <= a.len() ==> #[trigger] dp@[i].len() == b.len() + 1,
        forall|i: int, j: int|
            0 <= i <= a.len() && 0 <= j <= b.len() ==> #[trigger] dp@[i]@[j] == lcs(
                views(a@).take(i),
                views(b@).take(j),
            ),
    ensures
        edit_views(es@) == edits(views(a@), views(b@)),
{
    let ghost va = views(a@);
    let ghost vb = views(b@);
    let mut i = a.len();
    let mut j = b.len();
    let mut rev: Vec<Edit> = Vec::new();
    assert(va.take(i as int) == va);
    assert(vb.take(j as int) == vb);
    while i > 0 || j > 0
        invariant
            i <= a.len(),
            j <= b.len(),
            dp.len() == a.len() + 1,
            forall|r: int| 0 <= r <= a.len() ==> #[trigger] dp@[r].len() == b.len() + 1,
            forall|r: int, k: int|
                0 <= r <= a.len() && 0 <= k <= b.len() ==> #[trigger] dp@[r]@[k] == lcs(
                    va.take(r),
                    vb.take(k),
                ),
            va == views(a@),
            vb == views(b@),
            edits(va, vb) == edits(va.take(i as int), vb.take(j as int)) + edit_views(rev@).reverse(),
        decreases i + j,
    {
        let ghost x = va.take(i as int);
        let ghost y = vb.take(j as int);
        let ghost prev = rev@;
        assert(dp@[i as int].len() == b.len() + 1);
        if i > 0 {
            assert(dp@[i - 1].len() == b.len() + 1);
        }
        if i > 0 && j > 0 && a[i - 1] == b[j - 1] {
            proof {
                assert(x.last() == a@[i - 1]@);
                assert(y.last() == b@[j - 1]@);
                assert(x.drop_last() == va.take(i - 1));
                assert(y.drop_last() == vb.take(j - 1));
            }
            rev.push(Edit::Keep(a[i - 1].clone()));
            i = i - 1;
            j = j - 1;
        } else if j > 0 && (i == 0 || dp[i][j - 1] >= dp[i - 1][j]) {
            proof {
                assert(y.last() == b@[j - 1]@);
                assert(y.drop_last() == vb.take(j - 1));
                if i > 0 {
                    assert(x.drop_last() == va.take(i - 1));
                    assert(x.last() == a@[i - 1]@);
                }
            }
            rev.push(Edit::Add(b[j - 1].clone()));
            j = j - 1;
        } else {
            proof {
                assert(x.last() == a@[i - 1]@);
                assert(x.drop_last() == va.take(i - 1));
                if j > 0 {
                    assert(y.last() == b@[j - 1]@);
                    assert(y.drop_last() == vb.take(j - 1));
                }
            }
            rev.push(Edit::Del(a[i - 1].clone()));
            i = i - 1;
        }
        proof {
            let e = rev@.last()@;
            assert(edit_views(rev@) =~= edit_views(prev).push(e));
            assert(edit_views(rev@).reverse() =~= seq![e] + edit_views(prev).reverse());
            assert(edits(x, y) == edits(va.take(i as int), vb.take(j as int)).push(e));
            assert(edits(va.take(i as int), vb.take(j as int)).push(e) + edit_views(prev).reverse()
                =~= edits(va.take(i as int), vb.take(j as int)) + edit_views(rev@).reverse());
        }
    }
    assert(va.take(0) == Seq::<Seq<char>>::empty());
    assert(vb.take(0) == Seq::<Seq<char>>::empty());
    let mut es: Vec<Edit> = Vec::new();
    let ghost total = edit_views(rev@).reverse();
    assert(edit_views(es@) =~= Seq::<EditV>::empty());
    while rev.len() > 0
        invariant
            total == edit_views(es@) + edit_views(rev@).reverse(),
        decreases rev.len(),
    {
        let ghost before = rev@;
        let ghost done = es@;
        let e = rev.pop().unwrap();
        proof {
            assert(before == rev@.push(e));
            assert(edit_views(before) =~= edit_views(rev@).push(e@));
            assert(edit_views(before).reverse() =~= seq![e@] + edit_views(rev@).reverse());
        }
        es.push(e);
        assert(edit_views(es@) =~= edit_views(done).push(e@));
        assert(edit_views(es@) + edit_views(rev@).reverse() =~= edit_views(done) + (seq![e@]
            + edit_views(rev@).reverse()));
    }
    assert(edit_views(rev@).reverse() =~= Seq::<EditV>::empty());
    assert(edit_views(es@) + Seq::<EditV>::empty() == edit_views(es@));
    es
}


fn to_line_exec(e: &Edit) -> (l: HunkLine)
    ensures
        l@ == to_line(e@),
{
    match e {
        Edit::Keep(t) => HunkLine { kind: owned("context"), text: t.clone() },
        Edit::Del(t) => HunkLine { kind: owned("del"), text: t.clone() },
        Edit::Add(t) => HunkLine { kind: owned("add"), text: t.clone() },
    }
}

proof fn lemma_side_step(es: Seq<EditV>, t: int)
    requires
        0 <= t < es.len(),
    ensures
        old_side(es.take(t + 1)).len() == old_side(es.take(t)).len() + if es[t] is Add {
            0int
        } else {
            1int
        },
        new_side(es.take(t + 1)).len() == new_side(es.take(t)).len() + if es[t] is Del {
            0int
        } else {
            1int
        },
{
    assert(es.take(t + 1) == es.take(t).push(es[t]));
    lemma_sides_push(es.take(t), es[t]);
}

proof fn lemma_side_step_range(es: Seq<EditV>, s: int, t: int)
    requires
        0 <= s <= t < es.len(),
    ensures
        old_side(es.subrange(s, t + 1)).len() == old_side(es.subrange(s, t)).len() + if es[t] is Add {
            0int
        } else {
            1int
        },
        new_side(es.subrange(s, t + 1)).len() == new_side(es.subrange(s, t)).len() + if es[t] is Del {
            0int
        } else {
            1int
        },
{
    assert(es.subrange(s, t + 1) == es.subrange(s, t).push(es[t]));
    lemma_sides_push(es.subrange(s, t), es[t]);
}

fn make_hunk_exec(es: &Vec<Edit>, s: usize, e: usize, k: usize) -> (h: Hunk)
    requires
        s <= e < es.len(),
        es.len() < usize::MAX,
    ensures
        h@ == make_hunk(edit_views(es@), s as int, e as int, k as nat),
{
    let ghost ev = edit_views(es@);
    let mut old_before: usize = 0;
    let mut new_before: usize = 0;
    let mut t: usize = 0;
    while t < s
        invariant
            t <= s <= e < es.len(),
            ev == edit_views(es@),
            old_before == old_side(ev.take(t as int)).len(),
            new_before == new_side(ev.take(t as int)).len(),
            old_before <= t,
            new_before <= t,
        decreases s - t,
    {
        proof {
            lemma_side_step(ev, t as int);
        }
        match &es[t] {
            Edit::Keep(_) => {
                old_before = old_before + 1;
                new_before = new_before + 1;
            },
            Edit::Del(_) => {
                old_before = old_before + 1;
            },
            Edit::Add(_) => {
                new_before = new_before + 1;
            },
        }
        t = t + 1;
    }
    let mut lines: Vec<HunkLine> = Vec::new();
    let mut old_count: usize = 0;
    let mut new_count: usize = 0;
    let mut t: usize = s;
    assert(ev.subrange(s as int, s as int) =~= Seq::<EditV>::empty());
    while t <= e
        invariant
            s <= t <= e + 1,
            e < es.len(),
            ev == edit_views(es@),
            old_count == old_side(ev.subrange(s as int, t as int)).len(),
            new_count == new_side(ev.subrange(s as int, t as int)).len(),
            old_count <= t - s,
            new_count <= t - s,
            line_views(lines@) == ev.subrange(s as int, t as int).map_values(|x: EditV| to_line(x)),
        decreases e + 1 - t,
    {
        proof {
            lemma_side_step_range(ev, s as int, t as int);
        }
        let l = to_line_exec(&es[t]);
        match &es[t] {
            Edit::Keep(_) => {
                old_count = old_count + 1;
                new_count = new_count + 1;
            },
            Edit::Del(_) => {
                old_count = old_count + 1;
            },
            Edit::Add(_) => {
                new_count = new_count + 1;
            },
        }
        let ghost prev = lines@;
        lines.push(l);
        proof {
            assert(ev.subrange(s as int, t + 1) == ev.subrange(s as int, t as int).push(ev[t as int]));
            assert(line_views(lines@) =~= line_views(prev).push(l@));
            assert(ev.subrange(s as int, t + 1).map_values(|x: EditV| to_line(x)) =~= ev.subrange(
                s as int,
                t as int,
            ).map_values(|x: EditV| to_line(x)).push(to_line(ev[t as int])));
        }
        t = t + 1;
    }
    Hunk {
        id: numbered("hunk-", k as u64),
        old_start: old_before + 1,
        old_count,
        new_start: new_before + 1,
        new_count,
        lines,
    }
}

proof fn lemma_change_indices_bounds(es: Seq<EditV>)
    ensures
        forall|i: int|
            0 <= i < change_indices(es).len() ==> 0 <= #[trigger] change_indices(es)[i] < es.len(),
        forall|i: int, j: int|
            0 <= i < j < change_indices(es).len() ==> #[trigger] change_indices(es)[i]
                < #[trigger] change_indices(es)[j],
    decreases es.len(),
{
    if es.len() > 0 {
        let d = es.drop_last();
        lemma_change_indices_bounds(d);
        let p = change_indices(d);
        assert forall|i: int|
            0 <= i < change_indices(es).len() implies 0 <= #[trigger] change_indices(es)[i] < es.len() by {
            if i < p.len() {
                assert(change_indices(es)[i] == p[i]);
            }
        }
        assert forall|i: int, j: int|
            0 <= i < j < change_indices(es).len() implies #[trigger] change_indices(es)[i]
                < #[trigger] change_indices(es)[j] by {
            assert(change_indices(es)[i] == p[i]);
            if j < p.len() {
                assert(change_indices(es)[j] == p[j]);
            }
        }
    }
}

proof fn lemma_group_bounds(cs: Seq<int>, ctx: int, n: int)
    requires
        ctx >= 0,
        forall|i: int| 0 <= i < cs.len() ==> 0 <= #[trigger] cs[i] < n,
        forall|i: int, j: int| 0 <= i < j < cs.len() ==> #[trigger] cs[i] < #[trigger] cs[j],
    ensures
        forall|k: int|
            0 <= k < group(cs, ctx, n).len() ==> 0 <= (#[trigger] group(cs, ctx, n)[k]).0
                <= group(cs, ctx, n)[k].1 < n,
        cs.len() > 0 ==> group(cs, ctx, n).len() > 0 && group(cs, ctx, n).last().1 == window(
            cs.last(),
            ctx,
            n,
        ).1,
    decreases cs.len(),
{
    if cs.len() > 0 {
        let d = cs.drop_last();
        assert forall|i: int| 0 <= i < d.len() implies 0 <= #[trigger] d[i] < n by {
            assert(d[i] == cs[i]);
        }
        assert forall|i: int, j: int| 0 <= i < j < d.len() implies #[trigger] d[i] < #[trigger] d[j] by {
            assert(d[i] == cs[i]);
            assert(d[j] == cs[j]);
        }
        lemma_group_bounds(d, ctx, n);
        if d.len() > 0 {
            assert(d.last() == cs[cs.len() - 2]);
            assert(d.last() < cs.last());
        }
        assert(0 <= cs.last() < n);
        let g = group(d, ctx, n);
        let w = window(cs.last(), ctx, n);
        assert(0 <= w.0 <= w.1 < n);
        let r = group(cs, ctx, n);
        if g.len() > 0 && w.0 <= g.last().1 + 1 {
            assert(r == g.drop_last().push((g.last().0, w.1)));
            assert(0 <= g[g.len() - 1].0 <= g[g.len() - 1].1);
            assert forall|k: int| 0 <= k < r.len() implies 0 <= (#[trigger] r[k]).0 <= r[k].1 < n by {
                if k < r.len() - 1 {
                    assert(r[k] == g[k]);
                }
            }
        } else {
            assert(r == g.push(w));
            assert forall|k: int| 0 <= k < r.len() implies 0 <= (#[trigger] r[k]).0 <= r[k].1 < n by {
                if k < r.len() - 1 {
                    assert(r[k] == g[k]);
                }
            }
        }
    }
}

fn build_hunks_from_edits(es: &Vec<Edit>, context: usize) -> (hs: Vec<Hunk>)
    requires
        es.len() + context < usize::MAX,
    ensures
        hunk_views(hs@) == hunks_of(edit_views(es@), context as int),
{
    let ghost ev = edit_views(es@);
    let n = es.len();
    let mut ci: Vec<usize> = Vec::new();
    let mut i: usize = 0;
    while i < n
        invariant
            i <= n == es.len(),
            ev == edit_views(es@),
            ci@.map_values(|x: usize| x as int) == change_indices(ev.take(i as int)),
        decreases n - i,
    {
        let ghost prev = ci@;
        proof {
            assert(ev.take(i + 1).drop_last() == ev.take(i as int));
            assert(ev.take(i + 1).last() == ev[i as int]);
        }
        match &es[i] {
            Edit::Keep(_) => {
                assert(change_indices(ev.take(i + 1)) == change_indices(ev.take(i as int)) + Seq::<int>::empty());
            },
            _ => {
                ci.push(i);
                assert(ci@.map_values(|x: usize| x as int) =~= prev.map_values(|x: usize| x as int).push(i as int));
            },
        }
        i = i + 1;
    }
    assert(ev.take(n as int) == ev);
    let ghost cs = change_indices(ev);
    proof {
        lemma_change_indices_bounds(ev);
    }
    let mut ranges: Vec<(usize, usize)> = Vec::new();
    let mut k: usize = 0;
    assert(cs.take(0) =~= Seq::<int>::empty());
    while k < ci.len()
        invariant
            k <= ci.len(),
            n == es.len(),
            n + context < usize::MAX,
            cs == ci@.map_values(|x: usize| x as int),
            forall|i: int| 0 <= i < cs.len() ==> 0 <= #[trigger] cs[i] < n,
            ranges@.map_values(|r: (usize, usize)| (r.0 as int, r.1 as int)) == group(
                cs.take(k as int),
                context as int,
                n as int,
            ),
            forall|j: int| 0 <= j < ranges.len() ==> #[trigger] ranges@[j].1 < n,
        decreases ci.len() - k,
    {
        let c = ci[k];
        assert(cs[k as int] == c as int);
        let ns = if c >= context {
            c - context
        } else {
            0
        };
        let ne = if c + context < n - 1 {
            c + context
        } else {
            n - 1
        };
        let ghost g = group(cs.take(k as int), context as int, n as int);
        let ghost prev = ranges@;
        proof {
            assert(cs.take(k + 1).drop_last() == cs.take(k as int));
            assert(cs.take(k + 1).last() == c as int);
        }
        if ranges.len() > 0 && ns <= ranges[ranges.len() - 1].1 + 1 {
            let last = ranges.pop().unwrap();
            ranges.push((last.0, ne));
            assert(ranges@.map_values(|r: (usize, usize)| (r.0 as int, r.1 as int)) =~= g.drop_last().push((g.last().0, ne as int)));
        } else {
            ranges.push((ns, ne));
            assert(ranges@.map_values(|r: (usize, usize)| (r.0 as int, r.1 as int)) =~= g.push((ns as int, ne as int)));
        }
        k = k + 1;
    }
    assert(cs.take(ci.len() as int) == cs);
    let ghost g = group(cs, context as int, n as int);
    proof {
        lemma_group_bounds(cs, context as int, n as int);
    }
    let mut hs: Vec<Hunk> = Vec::new();
    let mut k: usize = 0;
    while k < ranges.len()
        invariant
            k <= ranges.len(),
            n == es.len(),
            n + context < usize::MAX,
            ev == edit_views(es@),
            g == group(cs, context as int, n as int),
            g == ranges@.map_values(|r: (usize, usize)| (r.0 as int, r.1 as int)),
            forall|j: int| 0 <= j < g.len() ==> 0 <= (#[trigger] g[j]).0 <= g[j].1 < n,
            hunk_views(hs@) == Seq::new(
                k as nat,
                |j: int| make_hunk(ev, g[j].0, g[j].1, (j + 1) as nat),
            ),
        decreases ranges.len() - k,
    {
        let (s, e) = ranges[k];
        assert(g[k as int] == (s as int, e as int));
        let h = make_hunk_exec(es, s, e, k + 1);
        let ghost prev = hs@;
        hs.push(h);
        assert(hunk_views(hs@) =~= hunk_views(prev).push(h@));
        assert(hunk_views(hs@) =~= Seq::new(
            (k + 1) as nat,
            |j: int| make_hunk(ev, g[j].0, g[j].1, (j + 1) as nat),
        ));
        k = k + 1;
    }
    hs
}

/// Compute hunks by comparing two texts line by line (a longest-common-subsequence
/// diff with three lines of context).
pub fn compute_hunks(left: &str, right: &str) -> (hs: Vec<Hunk>)
    requires
        left@.len() + right@.len() + 3 < usize::MAX,
    ensures
        hunk_views(hs@) == compute_spec(left@, right@),
{
    let left_lines = lines_of(left);
    let right_lines = lines_of(right);
    proof {
        lemma_lines_len(left@);
        lemma_lines_len(right@);
        lemma_edits_len(views(left_lines@), views(right_lines@));
    }
    let dp = lcs_table(&left_lines, &right_lines);
    let es = backtrack_edits(&dp, &left_lines, &right_lines);
    build_hunks_from_edits(&es, 3)
}


// ---------------------------------------------------------------------------
// Side-by-side alignment
// ---------------------------------------------------------------------------

/// Alignment row for side-by-side rendering.
#[derive(Debug, Clone)]
pub struct AlignmentRow {
    pub row_id: String,
    pub left: Option<AlignmentCell>,
    pub right: Option<AlignmentCell>,
    pub hunk_id: Option<String>,
}

/// One side of an alignment row; `kind` is "context", "del", "add" or "empty".
#[derive(Debug, Clone)]
pub struct AlignmentCell {
    pub line_no: usize,
    pub text: String,
    pub kind: String,
}

pub struct CellV {
    pub line_no: nat,
    pub text: Seq<char>,
    pub kind: Seq<char>,
}

pub struct RowV {
    pub row_id: Seq<char>,
    pub left: Option<CellV>,
    pub right: Option<CellV>,
    pub hunk_id: Option<Seq<char>>,
}

impl View for AlignmentCell {
    type V = CellV;

    open spec fn view(&self) -> CellV {
        CellV { line_no: self.line_no as nat, text: self.text@, kind: self.kind@ }
    }
}

pub open spec fn opt_cell(o: Option<AlignmentCell>) -> Option<CellV> {
    match o {
        Some(c) => Some(c@),
        None => None,
    }
}

pub open spec fn opt_str(o: Option<String>) -> Option<Seq<char>> {
    match o {
        Some(s) => Some(s@),
        None => None,
    }
}

impl View for AlignmentRow {
    type V = RowV;

    open spec fn view(&self) -> RowV {
        RowV {
            row_id: self.row_id@,
            left: opt_cell(self.left),
            right: opt_cell(self.right),
            hunk_id: opt_str(self.hunk_id),
        }
    }
}

pub open spec fn row_views(v: Seq<AlignmentRow>) -> Seq<RowV> {
    v.map_values(|r: AlignmentRow| r@)
}

/// The aligner between two rows: rows so far, the row counter, the next left
/// and right line indexes, and the deleted and added texts not yet paired.
pub struct AlignV {
    pub rows: Seq<RowV>,
    pub counter: nat,
    pub li: nat,
    pub ri: nat,
    pub dels: Seq<Seq<char>>,
    pub adds: Seq<Seq<char>>,
}

pub open spec fn row_name(n: nat) -> Seq<char> {
    "row-"@ + decimal(n)
}

pub open spec fn cell(n: nat, t: Seq<char>, kind: Seq<char>) -> CellV {
    CellV { line_no: n, text: t, kind }
}

/// The line at `i`, or an empty text past the end.
pub open spec fn text_at(ls: Seq<Seq<char>>, i: nat) -> Seq<char> {
    if i < ls.len() {
        ls[i as int]
    } else {
        Seq::empty()
    }
}

/// A context row before a hunk, outside any hunk.
pub open spec fn push_context(st: AlignV, l: Seq<Seq<char>>, r: Seq<Seq<char>>) -> AlignV {
    AlignV {
        rows: st.rows.push(
            RowV {
                row_id: row_name(st.counter + 1),
                left: Some(cell(st.li + 1, text_at(l, st.li), kind_context())),
                right: Some(cell(st.ri + 1, text_at(r, st.ri), kind_context())),
                hunk_id: None,
            },
        ),
        counter: st.counter + 1,
        li: st.li + 1,
        ri: st.ri + 1,
        ..st
    }
}

/// Context rows up to the hunk's starts (both sides advance together).
pub open spec fn pre_context(st: AlignV, l: Seq<Seq<char>>, r: Seq<Seq<char>>, os: nat, ns: nat) -> AlignV
    decreases os - st.li,
{
    if st.li < os && st.ri < ns {
        pre_context(push_context(st, l, r), l, r, os, ns)
    } else {
        st
    }
}

pub open spec fn empty_cell() -> CellV {
    cell(0, Seq::empty(), "empty"@)
}

pub open spec fn max_nat(a: nat, b: nat) -> nat {
    if a >= b {
        a
    } else {
        b
    }
}

/// The `i`-th row that pairs pending deleted and added lines.
pub open spec fn paired_row(st: AlignV, i: nat, hid: Seq<char>) -> AlignV {
    let left = if i < st.dels.len() {
        cell(st.li + 1, st.dels[i as int], kind_del())
    } else {
        empty_cell()
    };
    let right = if i < st.adds.len() {
        cell(st.ri + 1, st.adds[i as int], kind_add())
    } else {
        empty_cell()
    };
    AlignV {
        rows: st.rows.push(
            RowV {
                row_id: row_name(st.counter + 1),
                left: Some(left),
                right: Some(right),
                hunk_id: Some(hid),
            },
        ),
        counter: st.counter + 1,
        li: if i < st.dels.len() {
            st.li + 1
        } else {
            st.li
        },
        ri: if i < st.adds.len() {
            st.ri + 1
        } else {
            st.ri
        },
        ..st
    }
}

pub open spec fn emit_from(st: AlignV, i: nat, hid: Seq<char>) -> AlignV
    decreases max_nat(st.dels.len(), st.adds.len()) - i,
{
    if i < max_nat(st.dels.len(), st.adds.len()) {
        emit_from(paired_row(st, i, hid), i + 1, hid)
    } else {
        st
    }
}

/// Pending deleted and added lines paired side by side, then cleared.
pub open spec fn emit(st: AlignV, hid: Seq<char>) -> AlignV {
    let s = emit_from(st, 0, hid);
    AlignV { dels: Seq::empty(), adds: Seq::empty(), ..s }
}

pub open spec fn pending(st: AlignV) -> bool {
    st.dels.len() > 0 || st.adds.len() > 0
}

/// What one hunk line does to the aligner.
pub open spec fn line_step(st: AlignV, ln: LineV, hid: Seq<char>) -> AlignV {
    if ln.kind == kind_del() {
        let s = if st.adds.len() > 0 {
            emit(st, hid)
        } else {
            st
        };
        AlignV { dels: s.dels.push(ln.text), ..s }
    } else if ln.kind == kind_add() {
        AlignV { adds: st.adds.push(ln.text), ..st }
    } else {
        let s = if pending(st) {
            emit(st, hid)
        } else {
            st
        };
        AlignV {
            rows: s.rows.push(
                RowV {
                    row_id: row_name(s.counter + 1),
                    left: Some(cell(s.li + 1, ln.text, kind_context())),
                    right: Some(cell(s.ri + 1, ln.text, kind_context())),
                    hunk_id: Some(hid),
                },
            ),
            counter: s.counter + 1,
            li: s.li + 1,
            ri: s.ri + 1,
            ..s
        }
    }
}

pub open spec fn lines_fold(st: AlignV, ls: Seq<LineV>, hid: Seq<char>) -> AlignV
    decreases ls.len(),
{
    if ls.len() == 0 {
        st
    } else {
        line_step(lines_fold(st, ls.drop_last(), hid), ls.last(), hid)
    }
}

pub open spec fn start0(n: usize) -> nat {
    if n > 0 {
        (n - 1) as nat
    } else {
        0
    }
}

/// What one hunk does to the aligner.
pub open spec fn hunk_step(st: AlignV, h: HunkV, l: Seq<Seq<char>>, r: Seq<Seq<char>>) -> AlignV {
    let s1 = pre_context(st, l, r, start0(h.old_start), start0(h.new_start));
    let s2 = lines_fold(s1, h.lines, h.id);
    if pending(s2) {
        emit(s2, h.id)
    } else {
        s2
    }
}

pub open spec fn hunks_fold(st: AlignV, hs: Seq<HunkV>, l: Seq<Seq<char>>, r: Seq<Seq<char>>) -> AlignV
    decreases hs.len(),
{
    if hs.len() == 0 {
        st
    } else {
        hunk_step(hunks_fold(st, hs.drop_last(), l, r), hs.last(), l, r)
    }
}

/// A context row after the last hunk: each side shows its next line, if any.
pub open spec fn tail_row(st: AlignV, l: Seq<Seq<char>>, r: Seq<Seq<char>>) -> AlignV {
    AlignV {
        rows: st.rows.push(
            RowV {
                row_id: row_name(st.counter + 1),
                left: if st.li < l.len() {
                    Some(cell(st.li + 1, l[st.li as int], kind_context()))
                } else {
                    None
                },
                right: if st.ri < r.len() {
                    Some(cell(st.ri + 1, r[st.ri as int], kind_context()))
                } else {
                    None
                },
                hunk_id: None,
            },
        ),
        counter: st.counter + 1,
        li: if st.li < l.len() {
            st.li + 1
        } else {
            st.li
        },
        ri: if st.ri < r.len() {
            st.ri + 1
        } else {
            st.ri
        },
        ..st
    }
}

pub open spec fn remaining(st: AlignV, l: Seq<Seq<char>>, r: Seq<Seq<char>>) -> nat {
    (if st.li < l.len() {
        (l.len() - st.li) as nat
    } else {
        0nat
    }) + (if st.ri < r.len() {
        (r.len() - st.ri) as nat
    } else {
        0nat
    })
}

pub open spec fn tail(st: AlignV, l: Seq<Seq<char>>, r: Seq<Seq<char>>) -> AlignV
    decreases remaining(st, l, r),
{
    if st.li < l.len() || st.ri < r.len() {
        tail(tail_row(st, l, r), l, r)
    } else {
        st
    }
}

pub open spec fn align_init() -> AlignV {
    AlignV { rows: Seq::empty(), counter: 0, li: 0, ri: 0, dels: Seq::empty(), adds: Seq::empty() }
}

/// The side-by-side rows of two texts and their hunks.
pub open spec fn align_spec(left: Seq<char>, right: Seq<char>, hs: Seq<HunkV>) -> Seq<RowV> {
    tail(hunks_fold(align_init(), hs, lines(left), lines(right)), lines(left), lines(right)).rows
}


/// Each row is named by its position: the `k`-th row (from 0) is `row-<k+1>`,
/// and the counter is the number of rows.
pub open spec fn rows_numbered(st: AlignV) -> bool {
    &&& st.rows.len() == st.counter
    &&& forall|k: int| 0 <= k < st.rows.len() ==> #[trigger] st.rows[k].row_id == row_name((k + 1) as nat)
}

proof fn lemma_rows_numbered_push(st: AlignV, next: AlignV, row: RowV)
    requires
        rows_numbered(st),
        next.rows == st.rows.push(row),
        next.counter == st.counter + 1,
        row.row_id == row_name(st.counter + 1),
    ensures
        rows_numbered(next),
{
    assert forall|k: int| 0 <= k < next.rows.len() implies #[trigger] next.rows[k].row_id == row_name(
        (k + 1) as nat,
    ) by {
        if k < st.rows.len() {
            assert(next.rows[k] == st.rows[k]);
        }
    }
}

proof fn lemma_rows_numbered_pre_context(st: AlignV, l: Seq<Seq<char>>, r: Seq<Seq<char>>, os: nat, ns: nat)
    requires
        rows_numbered(st),
    ensures
        rows_numbered(pre_context(st, l, r, os, ns)),
    decreases os - st.li,
{
    if st.li < os && st.ri < ns {
        let n = push_context(st, l, r);
        lemma_rows_numbered_push(st, n, n.rows.last());
        lemma_rows_numbered_pre_context(n, l, r, os, ns);
    }
}

proof fn lemma_rows_numbered_emit_from(st: AlignV, i: nat, hid: Seq<char>)
    requires
        rows_numbered(st),
    ensures
        rows_numbered(emit_from(st, i, hid)),
    decreases max_nat(st.dels.len(), st.adds.len()) - i,
{
    if i < max_nat(st.dels.len(), st.adds.len()) {
        let n = paired_row(st, i, hid);
        lemma_rows_numbered_push(st, n, n.rows.last());
        lemma_rows_numbered_emit_from(n, i + 1, hid);
    }
}

proof fn lemma_rows_numbered_emit(st: AlignV, hid: Seq<char>)
    requires
        rows_numbered(st),
    ensures
        rows_numbered(emit(st, hid)),
{
    lemma_rows_numbered_emit_from(st, 0, hid);
}

proof fn lemma_rows_numbered_lines_fold(st: AlignV, ls: Seq<LineV>, hid: Seq<char>)
    requires
        rows_numbered(st),
    ensures
        rows_numbered(lines_fold(st, ls, hid)),
    decreases ls.len(),
{
    if ls.len() > 0 {
        lemma_rows_numbered_lines_fold(st, ls.drop_last(), hid);
        let p = lines_fold(st, ls.drop_last(), hid);
        let ln = ls.last();
        if ln.kind == kind_del() {
            if p.adds.len() > 0 {
                lemma_rows_numbered_emit(p, hid);
            }
        } else if ln.kind == kind_add() {
        } else {
            let q = if pending(p) {
                emit(p, hid)
            } else {
                p
            };
            if pending(p) {
                lemma_rows_numbered_emit(p, hid);
            }
            let n = line_step(p, ln, hid);
            lemma_rows_numbered_push(q, n, n.rows.last());
        }
    }
}

proof fn lemma_rows_numbered_hunks_fold(st: AlignV, hs: Seq<HunkV>, l: Seq<Seq<char>>, r: Seq<Seq<char>>)
    requires
        rows_numbered(st),
    ensures
        rows_numbered(hunks_fold(st, hs, l, r)),
    decreases hs.len(),
{
    if hs.len() > 0 {
        lemma_rows_numbered_hunks_fold(st, hs.drop_last(), l, r);
        let p = hunks_fold(st, hs.drop_last(), l, r);
        let h = hs.last();
        lemma_rows_numbered_pre_context(p, l, r, start0(h.old_start), start0(h.new_start));
        let s1 = pre_context(p, l, r, start0(h.old_start), start0(h.new_start));
        lemma_rows_numbered_lines_fold(s1, h.lines, h.id);
        let s2 = lines_fold(s1, h.lines, h.id);
        if pending(s2) {
            lemma_rows_numbered_emit(s2, h.id);
        }
    }
}

proof fn lemma_rows_numbered_tail(st: AlignV, l: Seq<Seq<char>>, r: Seq<Seq<char>>)
    requires
        rows_numbered(st),
    ensures
        rows_numbered(tail(st, l, r)),
    decreases remaining(st, l, r),
{
    if st.li < l.len() || st.ri < r.len() {
        let n = tail_row(st, l, r);
        lemma_rows_numbered_push(st, n, n.rows.last());
        lemma_rows_numbered_tail(n, l, r);
    }
}

/// The alignment rows are numbered in order: the `k`-th row (from 0) has the
/// id `row-<k+1>`.
pub proof fn law_rows_numbered_in_order(left: Seq<char>, right: Seq<char>, hs: Seq<HunkV>)
    ensures
        forall|k: int|
            0 <= k < align_spec(left, right, hs).len() ==> #[trigger] align_spec(left, right, hs)[k].row_id
                == row_name((k + 1) as nat),
{
    let l = lines(left);
    let r = lines(right);
    assert(rows_numbered(align_init()));
    lemma_rows_numbered_hunks_fold(align_init(), hs, l, r);
    lemma_rows_numbered_tail(hunks_fold(align_init(), hs, l, r), l, r);
}


// ---------------------------------------------------------------------------
// What the rows show of each text
// ---------------------------------------------------------------------------

/// The text a cell shows: none for an absent or empty cell.
pub open spec fn shown(c: Option<CellV>) -> Seq<Seq<char>> {
    match c {
        Some(x) => if x.kind == "empty"@ {
            Seq::<Seq<char>>::empty()
        } else {
            seq![x.text]
        },
        None => Seq::<Seq<char>>::empty(),
    }
}

/// The texts that the left cells of `rows` show, top to bottom.
pub open spec fn left_texts(rows: Seq<RowV>) -> Seq<Seq<char>>
    decreases rows.len(),
{
    if rows.len() == 0 {
        seq![]
    } else {
        left_texts(rows.drop_last()) + shown(rows.last().left)
    }
}

/// The texts that the right cells of `rows` show, top to bottom.
pub open spec fn right_texts(rows: Seq<RowV>) -> Seq<Seq<char>>
    decreases rows.len(),
{
    if rows.len() == 0 {
        seq![]
    } else {
        right_texts(rows.drop_last()) + shown(rows.last().right)
    }
}

/// The line number and text a cell shows: none for an absent or empty cell.
pub open spec fn shown_cell(c: Option<CellV>) -> Seq<(nat, Seq<char>)> {
    match c {
        Some(x) => if x.kind == "empty"@ {
            Seq::<(nat, Seq<char>)>::empty()
        } else {
            seq![(x.line_no, x.text)]
        },
        None => Seq::<(nat, Seq<char>)>::empty(),
    }
}

/// The numbered lines that the left cells of `rows` show, top to bottom.
pub open spec fn left_cells(rows: Seq<RowV>) -> Seq<(nat, Seq<char>)>
    decreases rows.len(),
{
    if rows.len() == 0 {
        seq![]
    } else {
        left_cells(rows.drop_last()) + shown_cell(rows.last().left)
    }
}

/// The numbered lines that the right cells of `rows` show, top to bottom.
pub open spec fn right_cells(rows: Seq<RowV>) -> Seq<(nat, Seq<char>)>
    decreases rows.len(),
{
    if rows.len() == 0 {
        seq![]
    } else {
        right_cells(rows.drop_last()) + shown_cell(rows.last().right)
    }
}

/// Lines numbered from 1.
pub open spec fn from_one(ts: Seq<Seq<char>>) -> Seq<(nat, Seq<char>)> {
    Seq::new(ts.len(), |i: int| ((i + 1) as nat, ts[i]))
}

/// Each shown cell of `rows` carries its line's 1-based number on its side.
pub open spec fn cells_numbered(rows: Seq<RowV>) -> bool {
    &&& left_cells(rows) == from_one(left_texts(rows))
    &&& right_cells(rows) == from_one(right_texts(rows))
}

/// The number a shown cell carries, where it is the next line of its side.
pub open spec fn next_on_side(c: Option<CellV>, before: nat) -> bool {
    shown(c).len() > 0 ==> (c matches Some(x) && x.line_no == before + 1)
}

proof fn lemma_shown_cell(c: Option<CellV>)
    ensures
        shown_cell(c).len() == shown(c).len(),
        shown(c).len() <= 1,
        shown(c).len() == 1 ==> (c matches Some(x) && shown_cell(c)[0] == (x.line_no, shown(c)[0])),
{
}

proof fn lemma_push_numbered(rows: Seq<RowV>, row: RowV)
    requires
        cells_numbered(rows),
        next_on_side(row.left, left_texts(rows).len()),
        next_on_side(row.right, right_texts(rows).len()),
    ensures
        cells_numbered(rows.push(row)),
{
    let n = rows.push(row);
    assert(n.drop_last() == rows);
    lemma_shown_cell(row.left);
    lemma_shown_cell(row.right);
    assert(left_cells(n) =~= from_one(left_texts(n)));
    assert(right_cells(n) =~= from_one(right_texts(n)));
}

proof fn lemma_kinds_differ()
    ensures
        kind_context() != "empty"@,
        kind_del() != "empty"@,
        kind_add() != "empty"@,
        kind_del() != kind_add(),
        kind_del() != kind_context(),
        kind_add() != kind_context(),
{
    reveal_strlit("empty");
    reveal_strlit("context");
    reveal_strlit("del");
    reveal_strlit("add");
    assert(kind_context().len() != "empty"@.len());
    assert(kind_del().len() != "empty"@.len());
    assert(kind_add().len() != "empty"@.len());
    assert(kind_del()[0] != kind_add()[0]);
    assert(kind_del().len() != kind_context().len());
    assert(kind_add().len() != kind_context().len());
}

/// The aligner has shown `a` on the left and `b` on the right, counting the
/// pending deleted and added lines, and its indexes count what it has shown.
pub open spec fn shows(st: AlignV, a: Seq<Seq<char>>, b: Seq<Seq<char>>) -> bool {
    &&& cells_numbered(st.rows)
    &&& left_texts(st.rows) + st.dels == a
    &&& right_texts(st.rows) + st.adds == b
    &&& left_texts(st.rows).len() == st.li
    &&& right_texts(st.rows).len() == st.ri
}

proof fn lemma_emit_from_shows(st: AlignV, i: nat, hid: Seq<char>)
    requires
        i <= st.dels.len() || i <= st.adds.len(),
        left_texts(st.rows).len() == st.li,
        right_texts(st.rows).len() == st.ri,
        cells_numbered(st.rows),
    ensures
        ({
            let r = emit_from(st, i, hid);
            &&& cells_numbered(r.rows)
            &&& left_texts(r.rows) == left_texts(st.rows) + (if i < st.dels.len() {
                st.dels.skip(i as int)
            } else {
                Seq::<Seq<char>>::empty()
            })
            &&& right_texts(r.rows) == right_texts(st.rows) + (if i < st.adds.len() {
                st.adds.skip(i as int)
            } else {
                Seq::<Seq<char>>::empty()
            })
            &&& left_texts(r.rows).len() == r.li
            &&& right_texts(r.rows).len() == r.ri
            &&& r.dels == st.dels
            &&& r.adds == st.adds
        }),
    decreases max_nat(st.dels.len(), st.adds.len()) - i,
{
    lemma_kinds_differ();
    if i < max_nat(st.dels.len(), st.adds.len()) {
        let n = paired_row(st, i, hid);
        let row = n.rows.last();
        assert(n.rows.drop_last() == st.rows);
        assert(n.rows == st.rows.push(row));
        lemma_push_numbered(st.rows, row);
        assert(left_texts(n.rows) == left_texts(st.rows) + shown(row.left));
        assert(right_texts(n.rows) == right_texts(st.rows) + shown(row.right));
        lemma_emit_from_shows(n, i + 1, hid);
        if i < st.dels.len() {
            assert(shown(row.left) == seq![st.dels[i as int]]);
            assert(st.dels.skip(i as int) == seq![st.dels[i as int]] + (if i + 1 < st.dels.len() {
                st.dels.skip((i + 1) as int)
            } else {
                Seq::<Seq<char>>::empty()
            }));
        } else {
            assert(shown(row.left) =~= Seq::<Seq<char>>::empty());
        }
        if i < st.adds.len() {
            assert(shown(row.right) == seq![st.adds[i as int]]);
            assert(st.adds.skip(i as int) == seq![st.adds[i as int]] + (if i + 1 < st.adds.len() {
                st.adds.skip((i + 1) as int)
            } else {
                Seq::<Seq<char>>::empty()
            }));
        } else {
            assert(shown(row.right) =~= Seq::<Seq<char>>::empty());
        }
    } else {
        if i < st.dels.len() {
            assert(false);
        }
        if i < st.adds.len() {
            assert(false);
        }
    }
}

proof fn lemma_emit_shows(st: AlignV, hid: Seq<char>, a: Seq<Seq<char>>, b: Seq<Seq<char>>)
    requires
        shows(st, a, b),
    ensures
        shows(emit(st, hid), a, b),
        emit(st, hid).dels.len() == 0,
        emit(st, hid).adds.len() == 0,
{
    lemma_emit_from_shows(st, 0, hid);
    assert(st.dels.skip(0) == st.dels);
    assert(st.adds.skip(0) == st.adds);
    if st.dels.len() == 0 {
        assert(st.dels =~= Seq::<Seq<char>>::empty());
    }
    if st.adds.len() == 0 {
        assert(st.adds =~= Seq::<Seq<char>>::empty());
    }
    let r = emit(st, hid);
    assert(left_texts(r.rows) + r.dels =~= left_texts(r.rows));
    assert(right_texts(r.rows) + r.adds =~= right_texts(r.rows));
}

/// A hunk line of one of the three kinds that hunks hold.
pub open spec fn known_kind(ln: LineV) -> bool {
    ln.kind == kind_context() || ln.kind == kind_del() || ln.kind == kind_add()
}

proof fn lemma_line_step_shows(st: AlignV, ln: LineV, hid: Seq<char>, a: Seq<Seq<char>>, b: Seq<Seq<char>>)
    requires
        shows(st, a, b),
        known_kind(ln),
    ensures
        shows(
            line_step(st, ln, hid),
            a + (if takes("left"@, ln.kind) {
                seq![ln.text]
            } else {
                Seq::<Seq<char>>::empty()
            }),
            b + (if takes("right"@, ln.kind) {
                seq![ln.text]
            } else {
                Seq::<Seq<char>>::empty()
            }),
        ),
{
    lemma_kinds_differ();
    reveal_strlit("left");
    reveal_strlit("right");
    assert("left"@ != "right"@) by {
        assert("left"@.len() != "right"@.len());
    }
    let r = line_step(st, ln, hid);
    if ln.kind == kind_del() {
        let s2 = if st.adds.len() > 0 {
            emit(st, hid)
        } else {
            st
        };
        if st.adds.len() > 0 {
            lemma_emit_shows(st, hid, a, b);
        }
        assert(r.rows == s2.rows);
        assert(left_texts(r.rows) + r.dels =~= (left_texts(s2.rows) + s2.dels).push(ln.text));
        assert(a + seq![ln.text] =~= a.push(ln.text));
        assert(right_texts(r.rows) + r.adds =~= right_texts(s2.rows) + s2.adds);
        assert(b + Seq::<Seq<char>>::empty() =~= b);
    } else if ln.kind == kind_add() {
        assert(left_texts(r.rows) + r.dels =~= left_texts(st.rows) + st.dels);
        assert(a + Seq::<Seq<char>>::empty() =~= a);
        assert(right_texts(r.rows) + r.adds =~= (right_texts(st.rows) + st.adds).push(ln.text));
        assert(b + seq![ln.text] =~= b.push(ln.text));
    } else {
        let s2 = if pending(st) {
            emit(st, hid)
        } else {
            st
        };
        if pending(st) {
            lemma_emit_shows(st, hid, a, b);
        } else {
            assert(st.dels =~= Seq::<Seq<char>>::empty());
            assert(st.adds =~= Seq::<Seq<char>>::empty());
        }
        assert(s2.dels.len() == 0 && s2.adds.len() == 0);
        assert(r.rows.drop_last() == s2.rows);
        let row = r.rows.last();
        assert(r.rows == s2.rows.push(row));
        lemma_push_numbered(s2.rows, row);
        assert(shown(row.left) == seq![ln.text]);
        assert(shown(row.right) == seq![ln.text]);
        assert(left_texts(s2.rows) + s2.dels =~= left_texts(s2.rows));
        assert(right_texts(s2.rows) + s2.adds =~= right_texts(s2.rows));
        assert(left_texts(r.rows) + r.dels =~= left_texts(r.rows));
        assert(right_texts(r.rows) + r.adds =~= right_texts(r.rows));
    }
}

proof fn lemma_lines_fold_shows(st: AlignV, ls: Seq<LineV>, hid: Seq<char>, a: Seq<Seq<char>>, b: Seq<Seq<char>>)
    requires
        shows(st, a, b),
        forall|j: int| 0 <= j < ls.len() ==> known_kind(#[trigger] ls[j]),
    ensures
        shows(lines_fold(st, ls, hid), a + texts_for(ls, "left"@), b + texts_for(ls, "right"@)),
    decreases ls.len(),
{
    if ls.len() == 0 {
        assert(a + texts_for(ls, "left"@) =~= a);
        assert(b + texts_for(ls, "right"@) =~= b);
    } else {
        let d = ls.drop_last();
        assert forall|j: int| 0 <= j < d.len() implies known_kind(#[trigger] d[j]) by {
            assert(d[j] == ls[j]);
        }
        lemma_lines_fold_shows(st, d, hid, a, b);
        assert(known_kind(ls[ls.len() - 1]));
        lemma_line_step_shows(
            lines_fold(st, d, hid),
            ls.last(),
            hid,
            a + texts_for(d, "left"@),
            b + texts_for(d, "right"@),
        );
        assert(a + texts_for(d, "left"@) + (if takes("left"@, ls.last().kind) {
            seq![ls.last().text]
        } else {
            Seq::<Seq<char>>::empty()
        }) =~= a + texts_for(ls, "left"@));
        assert(b + texts_for(d, "right"@) + (if takes("right"@, ls.last().kind) {
            seq![ls.last().text]
        } else {
            Seq::<Seq<char>>::empty()
        }) =~= b + texts_for(ls, "right"@));
    }
}

proof fn lemma_pre_context_shows(st: AlignV, l: Seq<Seq<char>>, r: Seq<Seq<char>>, os: nat, ns: nat)
    requires
        shows(st, l.take(st.li as int), r.take(st.ri as int)),
        st.dels.len() == 0,
        st.adds.len() == 0,
        st.li <= os <= l.len(),
        st.ri <= ns <= r.len(),
        os - st.li == ns - st.ri,
    ensures
        ({
            let q = pre_context(st, l, r, os, ns);
            &&& shows(q, l.take(os as int), r.take(ns as int))
            &&& q.li == os
            &&& q.ri == ns
            &&& q.dels.len() == 0
            &&& q.adds.len() == 0
        }),
    decreases os - st.li,
{
    lemma_kinds_differ();
    if st.li < os && st.ri < ns {
        let n = push_context(st, l, r);
        assert(n.rows.drop_last() == st.rows);
        let row = n.rows.last();
        assert(n.rows == st.rows.push(row));
        lemma_push_numbered(st.rows, row);
        assert(shown(row.left) == seq![l[st.li as int]]);
        assert(shown(row.right) == seq![r[st.ri as int]]);
        assert(st.dels =~= Seq::<Seq<char>>::empty());
        assert(st.adds =~= Seq::<Seq<char>>::empty());
        assert(left_texts(st.rows) =~= l.take(st.li as int));
        assert(right_texts(st.rows) =~= r.take(st.ri as int));
        assert(left_texts(n.rows) =~= l.take(n.li as int));
        assert(right_texts(n.rows) =~= r.take(n.ri as int));
        assert(left_texts(n.rows) + n.dels =~= left_texts(n.rows));
        assert(right_texts(n.rows) + n.adds =~= right_texts(n.rows));
        lemma_pre_context_shows(n, l, r, os, ns);
    } else {
        assert(st.li == os && st.ri == ns);
    }
}

proof fn lemma_tail_shows(st: AlignV, l: Seq<Seq<char>>, r: Seq<Seq<char>>)
    requires
        shows(st, l.take(st.li as int), r.take(st.ri as int)),
        st.dels.len() == 0,
        st.adds.len() == 0,
        st.li <= l.len(),
        st.ri <= r.len(),
    ensures
        left_texts(tail(st, l, r).rows) == l,
        right_texts(tail(st, l, r).rows) == r,
        cells_numbered(tail(st, l, r).rows),
    decreases remaining(st, l, r),
{
    lemma_kinds_differ();
    assert(st.dels =~= Seq::<Seq<char>>::empty());
    assert(st.adds =~= Seq::<Seq<char>>::empty());
    assert(left_texts(st.rows) =~= l.take(st.li as int));
    assert(right_texts(st.rows) =~= r.take(st.ri as int));
    if st.li < l.len() || st.ri < r.len() {
        let n = tail_row(st, l, r);
        assert(n.rows.drop_last() == st.rows);
        let row = n.rows.last();
        assert(n.rows == st.rows.push(row));
        lemma_push_numbered(st.rows, row);
        if st.li < l.len() {
            assert(shown(row.left) == seq![l[st.li as int]]);
        } else {
            assert(shown(row.left) =~= Seq::<Seq<char>>::empty());
        }
        if st.ri < r.len() {
            assert(shown(row.right) == seq![r[st.ri as int]]);
        } else {
            assert(shown(row.right) =~= Seq::<Seq<char>>::empty());
        }
        assert(left_texts(n.rows) =~= l.take(n.li as int));
        assert(right_texts(n.rows) =~= r.take(n.ri as int));
        assert(left_texts(n.rows) + n.dels =~= left_texts(n.rows));
        assert(right_texts(n.rows) + n.adds =~= right_texts(n.rows));
        lemma_tail_shows(n, l, r);
    } else {
        assert(l.take(st.li as int) =~= l);
        assert(r.take(st.ri as int) =~= r);
    }
}


proof fn lemma_hunk_step_shows(st: AlignV, h: HunkV, l: Seq<Seq<char>>, r: Seq<Seq<char>>)
    requires
        shows(st, l.take(st.li as int), r.take(st.ri as int)),
        st.dels.len() == 0,
        st.adds.len() == 0,
        st.li <= start0(h.old_start),
        st.ri <= start0(h.new_start),
        start0(h.old_start) - st.li == start0(h.new_start) - st.ri,
        start0(h.old_start) + h.old_count <= l.len(),
        start0(h.new_start) + h.new_count <= r.len(),
        texts_for(h.lines, "left"@) == l.subrange(
            start0(h.old_start) as int,
            start0(h.old_start) + h.old_count,
        ),
        texts_for(h.lines, "right"@) == r.subrange(
            start0(h.new_start) as int,
            start0(h.new_start) + h.new_count,
        ),
        forall|j: int| 0 <= j < h.lines.len() ==> known_kind(#[trigger] h.lines[j]),
    ensures
        ({
            let q = hunk_step(st, h, l, r);
            let oe = start0(h.old_start) + h.old_count;
            let ne = start0(h.new_start) + h.new_count;
            &&& shows(q, l.take(oe), r.take(ne))
            &&& q.li == oe
            &&& q.ri == ne
            &&& q.dels.len() == 0
            &&& q.adds.len() == 0
        }),
{
    let os = start0(h.old_start);
    let ns = start0(h.new_start);
    let oe = os + h.old_count;
    let ne = ns + h.new_count;
    lemma_pre_context_shows(st, l, r, os, ns);
    let s1 = pre_context(st, l, r, os, ns);
    lemma_lines_fold_shows(s1, h.lines, h.id, l.take(os as int), r.take(ns as int));
    assert(l.take(os as int) + texts_for(h.lines, "left"@) =~= l.take(oe));
    assert(r.take(ns as int) + texts_for(h.lines, "right"@) =~= r.take(ne));
    let s2 = lines_fold(s1, h.lines, h.id);
    if pending(s2) {
        lemma_emit_shows(s2, h.id, l.take(oe), r.take(ne));
    }
    let q = hunk_step(st, h, l, r);
    assert(q.dels.len() == 0 && q.adds.len() == 0);
    assert(left_texts(q.rows) + q.dels =~= left_texts(q.rows));
    assert(right_texts(q.rows) + q.adds =~= right_texts(q.rows));
}

proof fn lemma_group_structure(cs: Seq<int>, ctx: int, n: int)
    requires
        ctx >= 0,
        forall|i: int| 0 <= i < cs.len() ==> 0 <= #[trigger] cs[i] < n,
        forall|i: int, j: int| 0 <= i < j < cs.len() ==> #[trigger] cs[i] < #[trigger] cs[j],
    ensures
        forall|j: int, k: int|
            0 <= j < k < group(cs, ctx, n).len() ==> (#[trigger] group(cs, ctx, n)[j]).1 + 1 < (
            #[trigger] group(cs, ctx, n)[k]).0,
        forall|m: int|
            0 <= m < cs.len() ==> exists|k: int|
                0 <= k < group(cs, ctx, n).len() && (#[trigger] group(cs, ctx, n)[k]).0 <= #[trigger] cs[m]
                    <= group(cs, ctx, n)[k].1,
        cs.len() > 0 ==> group(cs, ctx, n).last().0 <= cs.last(),
    decreases cs.len(),
{
    lemma_group_bounds(cs, ctx, n);
    if cs.len() > 0 {
        let d = cs.drop_last();
        assert forall|i: int| 0 <= i < d.len() implies 0 <= #[trigger] d[i] < n by {
            assert(d[i] == cs[i]);
        }
        assert forall|i: int, j: int| 0 <= i < j < d.len() implies #[trigger] d[i] < #[trigger] d[j] by {
            assert(d[i] == cs[i]);
            assert(d[j] == cs[j]);
        }
        lemma_group_structure(d, ctx, n);
        lemma_group_bounds(d, ctx, n);
        let g = group(d, ctx, n);
        let c = cs.last();
        let w = window(c, ctx, n);
        let res = group(cs, ctx, n);
        assert(0 <= c < n);
        if d.len() > 0 {
            assert(d.last() == cs[cs.len() - 2]);
            assert(d.last() < c);
        }
        if g.len() > 0 && w.0 <= g.last().1 + 1 {
            assert(res == g.drop_last().push((g.last().0, w.1)));
            assert(d.len() > 0);
            assert(g.last().1 == window(d.last(), ctx, n).1);
            assert(w.1 >= g.last().1);
            assert forall|j: int, k: int| 0 <= j < k < res.len() implies (#[trigger] res[j]).1 + 1 < (
            #[trigger] res[k]).0 by {
                assert(res[j] == g[j]);
                if k < res.len() - 1 {
                    assert(res[k] == g[k]);
                } else {
                    assert(res[k].0 == g[k].0);
                }
            }
            assert forall|m: int| 0 <= m < cs.len() implies exists|k: int|
                0 <= k < res.len() && (#[trigger] res[k]).0 <= #[trigger] cs[m] <= res[k].1 by {
                if m < d.len() {
                    assert(cs[m] == d[m]);
                    let k = choose|k: int| 0 <= k < g.len() && (#[trigger] g[k]).0 <= d[m] <= g[k].1;
                    if k < res.len() - 1 {
                        assert(res[k] == g[k]);
                    } else {
                        assert(res[k].0 == g[k].0 && res[k].1 == w.1);
                    }
                } else {
                    let k = res.len() - 1;
                    assert(res[k].0 == g.last().0);
                    assert(g.last().0 <= d.last());
                    assert(w.1 >= c);
                }
            }
        } else {
            assert(res == g.push(w));
            assert forall|j: int, k: int| 0 <= j < k < res.len() implies (#[trigger] res[j]).1 + 1 < (
            #[trigger] res[k]).0 by {
                assert(res[j] == g[j]);
                if k < res.len() - 1 {
                    assert(res[k] == g[k]);
                } else {
                    assert(res[k] == w);
                    if j < g.len() - 1 {
                        assert(g[j].1 + 1 < g[g.len() - 1].0);
                        assert(g[g.len() - 1].0 <= g[g.len() - 1].1);
                    }
                }
            }
            assert forall|m: int| 0 <= m < cs.len() implies exists|k: int|
                0 <= k < res.len() && (#[trigger] res[k]).0 <= #[trigger] cs[m] <= res[k].1 by {
                if m < d.len() {
                    assert(cs[m] == d[m]);
                    let k = choose|k: int| 0 <= k < g.len() && (#[trigger] g[k]).0 <= d[m] <= g[k].1;
                    assert(res[k] == g[k]);
                } else {
                    let k = res.len() - 1;
                    assert(res[k] == w);
                }
            }
        }
    }
}

proof fn lemma_change_positions(es: Seq<EditV>)
    ensures
        forall|i: int|
            0 <= i < es.len() && is_change(#[trigger] es[i]) ==> exists|m: int|
                0 <= m < change_indices(es).len() && #[trigger] change_indices(es)[m] == i,
    decreases es.len(),
{
    if es.len() > 0 {
        let d = es.drop_last();
        lemma_change_positions(d);
        let p = change_indices(d);
        let c = change_indices(es);
        assert forall|i: int| 0 <= i < es.len() && is_change(#[trigger] es[i]) implies exists|m: int|
            0 <= m < c.len() && #[trigger] c[m] == i by {
            if i < d.len() {
                assert(d[i] == es[i]);
                let m = choose|m: int| 0 <= m < p.len() && #[trigger] p[m] == i;
                assert(c[m] == p[m]);
            } else {
                assert(c[c.len() - 1] == es.len() - 1);
            }
        }
    }
}

/// The edits before the `k`-th window and after the previous one are kept
/// lines.
proof fn lemma_gap_keeps(es: Seq<EditV>, k: int)
    requires
        0 <= k < group(change_indices(es), 3, es.len() as int).len(),
    ensures
        ({
            let g = group(change_indices(es), 3, es.len() as int);
            let lo = if k == 0 {
                0
            } else {
                g[k - 1].1 + 1
            };
            &&& 0 <= lo <= g[k].0
            &&& forall|i: int| lo <= i < g[k].0 ==> !is_change(#[trigger] es[i])
        }),
{
    let n = es.len() as int;
    let cs = change_indices(es);
    lemma_change_indices_bounds(es);
    lemma_group_bounds(cs, 3, n);
    lemma_group_structure(cs, 3, n);
    lemma_change_positions(es);
    let g = group(cs, 3, n);
    let lo = if k == 0 {
        0
    } else {
        g[k - 1].1 + 1
    };
    if k > 0 {
        assert(g[k - 1].1 + 1 < g[k].0);
        assert(0 <= g[k - 1].0);
    }
    assert forall|i: int| lo <= i < g[k].0 implies !is_change(#[trigger] es[i]) by {
        if is_change(es[i]) {
            assert(0 <= i < n);
            let m = choose|m: int| 0 <= m < cs.len() && #[trigger] cs[m] == i;
            let j = choose|j: int| 0 <= j < g.len() && (#[trigger] g[j]).0 <= cs[m] <= g[j].1;
            if j < k {
                if j < k - 1 {
                    assert(g[j].1 + 1 < g[k - 1].0);
                    assert(g[k - 1].0 <= g[k - 1].1);
                }
                assert(false);
            } else if j > k {
                assert(g[k].1 + 1 < g[j].0);
                assert(g[k].0 <= g[k].1);
                assert(false);
            } else {
                assert(false);
            }
        }
    }
}

proof fn lemma_keeps_sides(seg: Seq<EditV>)
    requires
        forall|i: int| 0 <= i < seg.len() ==> !is_change(#[trigger] seg[i]),
    ensures
        old_side(seg) == new_side(seg),
{
    lemma_no_changes(seg);
    lemma_keeps_only_same_sides(seg);
}

/// Where the aligner stands after the first `k` hunks between two texts: at
/// the end of the `k`-th window on both sides.
pub open spec fn after_hunks(es: Seq<EditV>, k: int) -> (nat, nat) {
    let g = group(change_indices(es), 3, es.len() as int);
    if k == 0 {
        (0, 0)
    } else {
        (old_side(es.take(g[k - 1].1 + 1)).len(), new_side(es.take(g[k - 1].1 + 1)).len())
    }
}

proof fn lemma_hunks_fold_shows(left: Seq<char>, right: Seq<char>, k: int)
    requires
        left.len() + right.len() + 3 < usize::MAX,
        0 <= k <= compute_spec(left, right).len(),
    ensures
        ({
            let l = lines(left);
            let r = lines(right);
            let es = edits(l, r);
            let q = hunks_fold(align_init(), compute_spec(left, right).take(k), l, r);
            let (p, m) = after_hunks(es, k);
            &&& shows(q, l.take(p as int), r.take(m as int))
            &&& q.li == p
            &&& q.ri == m
            &&& q.dels.len() == 0
            &&& q.adds.len() == 0
            &&& p <= l.len()
            &&& m <= r.len()
        }),
    decreases k,
{
    let l = lines(left);
    let r = lines(right);
    let es = edits(l, r);
    let hs = compute_spec(left, right);
    law_edits_sound(l, r);
    if k == 0 {
        assert(hs.take(0) =~= Seq::<HunkV>::empty());
        assert(left_cells(align_init().rows) =~= from_one(left_texts(align_init().rows)));
        assert(right_cells(align_init().rows) =~= from_one(right_texts(align_init().rows)));
        assert(left_texts(align_init().rows) =~= l.take(0));
        assert(right_texts(align_init().rows) =~= r.take(0));
        assert(left_texts(align_init().rows) + align_init().dels =~= l.take(0));
        assert(right_texts(align_init().rows) + align_init().adds =~= r.take(0));
    } else {
        lemma_hunks_fold_shows(left, right, k - 1);
        let n = es.len() as int;
        let cs = change_indices(es);
        let g = group(cs, 3, n);
        lemma_lines_len(left);
        lemma_lines_len(right);
        lemma_edits_len(l, r);
        lemma_change_indices_bounds(es);
        lemma_group_bounds(cs, 3, n);
        assert(hs.take(k).drop_last() =~= hs.take(k - 1));
        assert(hs.take(k).last() == hs[k - 1]);
        let q0 = hunks_fold(align_init(), hs.take(k - 1), l, r);
        let h = hs[k - 1];
        let (s, e) = g[k - 1];
        assert(h == make_hunk(es, s, e, k as nat));
        assert(0 <= s <= e < n);
        law_hunks_match_texts(left, right, k - 1);
        lemma_gap_keeps(es, k - 1);
        let lo = if k - 1 == 0 {
            0
        } else {
            g[k - 2].1 + 1
        };
        let gap = es.subrange(lo, s);
        assert forall|i: int| 0 <= i < gap.len() implies !is_change(#[trigger] gap[i]) by {
            assert(gap[i] == es[lo + i]);
        }
        lemma_keeps_sides(gap);
        assert(es.take(s) =~= es.take(lo) + gap);
        lemma_old_side_add(es.take(lo), gap);
        assert(es.take(e + 1) =~= es.take(s) + es.subrange(s, e + 1));
        lemma_old_side_add(es.take(s), es.subrange(s, e + 1));
        assert(es =~= es.take(e + 1) + es.skip(e + 1));
        lemma_old_side_add(es.take(e + 1), es.skip(e + 1));
        if k - 1 == 0 {
            assert(es.take(0) =~= Seq::<EditV>::empty());
        }
        let part = es.subrange(s, e + 1);
        assert forall|j: int| 0 <= j < h.lines.len() implies known_kind(#[trigger] h.lines[j]) by {
            assert(h.lines[j] == to_line(part[j]));
        }
        lemma_hunk_step_shows(q0, h, l, r);
        assert(hunks_fold(align_init(), hs.take(k), l, r) == hunk_step(q0, h, l, r));
    }
}

/// The side-by-side rows of two texts show every line of each, in order: the
/// non-empty left cells, top to bottom, are the left text's lines, and the
/// non-empty right cells the right text's lines.
pub proof fn law_alignment_shows_both_texts(left: Seq<char>, right: Seq<char>)
    requires
        left.len() + right.len() + 3 < usize::MAX,
    ensures
        left_texts(align_spec(left, right, compute_spec(left, right))) == lines(left),
        right_texts(align_spec(left, right, compute_spec(left, right))) == lines(right),
{
    let l = lines(left);
    let r = lines(right);
    let hs = compute_spec(left, right);
    lemma_hunks_fold_shows(left, right, hs.len() as int);
    assert(hs.take(hs.len() as int) =~= hs);
    let q = hunks_fold(align_init(), hs, l, r);
    lemma_tail_shows(q, l, r);
}


/// Every shown cell of the side-by-side rows carries its line's 1-based
/// number: the non-empty left cells, top to bottom, are `(i + 1, L[i])` for
/// each line `L[i]` of the left text, and likewise on the right.
pub proof fn law_alignment_numbers_lines(left: Seq<char>, right: Seq<char>)
    requires
        left.len() + right.len() + 3 < usize::MAX,
    ensures
        left_cells(align_spec(left, right, compute_spec(left, right))) == from_one(lines(left)),
        right_cells(align_spec(left, right, compute_spec(left, right))) == from_one(lines(right)),
        forall|i: int|
            0 <= i < lines(left).len() ==> #[trigger] left_cells(
                align_spec(left, right, compute_spec(left, right)),
            )[i] == ((i + 1) as nat, lines(left)[i]),
        forall|i: int|
            0 <= i < lines(right).len() ==> #[trigger] right_cells(
                align_spec(left, right, compute_spec(left, right)),
            )[i] == ((i + 1) as nat, lines(right)[i]),
{
    let l = lines(left);
    let r = lines(right);
    let hs = compute_spec(left, right);
    lemma_hunks_fold_shows(left, right, hs.len() as int);
    assert(hs.take(hs.len() as int) =~= hs);
    let q = hunks_fold(align_init(), hs, l, r);
    lemma_tail_shows(q, l, r);
}


/// The hunks between two texts are numbered `hunk-1`, `hunk-2`, ... in order,
/// come in the order of the texts, and are separated by at least one unchanged
/// line, the same number on both sides.
pub proof fn law_hunks_ordered(left: Seq<char>, right: Seq<char>)
    requires
        left.len() + right.len() + 3 < usize::MAX,
    ensures
        forall|k: int|
            0 <= k < compute_spec(left, right).len() ==> (#[trigger] compute_spec(left, right)[k]).id
                == hunk_id((k + 1) as nat),
        forall|k: int|
            0 <= k < compute_spec(left, right).len() - 1 ==> {
                let h = #[trigger] compute_spec(left, right)[k];
                let n = compute_spec(left, right)[k + 1];
                &&& h.old_start + h.old_count < n.old_start
                &&& h.new_start + h.new_count < n.new_start
                &&& n.old_start - (h.old_start + h.old_count) == n.new_start - (h.new_start
                    + h.new_count)
            },
{
    let l = lines(left);
    let r = lines(right);
    let es = edits(l, r);
    let n = es.len() as int;
    let cs = change_indices(es);
    let g = group(cs, 3, n);
    let hs = compute_spec(left, right);
    lemma_lines_len(left);
    lemma_lines_len(right);
    lemma_edits_len(l, r);
    lemma_change_indices_bounds(es);
    lemma_group_bounds(cs, 3, n);
    lemma_group_structure(cs, 3, n);
    assert forall|k: int| 0 <= k < hs.len() - 1 implies {
        let h = #[trigger] hs[k];
        let m = hs[k + 1];
        &&& h.old_start + h.old_count < m.old_start
        &&& h.new_start + h.new_count < m.new_start
        &&& m.old_start - (h.old_start + h.old_count) == m.new_start - (h.new_start + h.new_count)
    } by {
        let (s, e) = g[k];
        let (s2, e2) = g[k + 1];
        assert(0 <= s <= e < n);
        assert(0 <= s2 <= e2 < n);
        assert(e + 1 < s2);
        lemma_gap_keeps(es, k + 1);
        let gap = es.subrange(e + 1, s2);
        assert forall|i: int| 0 <= i < gap.len() implies !is_change(#[trigger] gap[i]) by {
            assert(gap[i] == es[e + 1 + i]);
        }
        lemma_keeps_sides(gap);
        lemma_len_sides(gap);
        lemma_keeps_count(gap);
        assert(es.take(e + 1) =~= es.take(s) + es.subrange(s, e + 1));
        lemma_old_side_add(es.take(s), es.subrange(s, e + 1));
        assert(es.take(s2) =~= es.take(e + 1) + gap);
        lemma_old_side_add(es.take(e + 1), gap);
        let h = hs[k];
        let m = hs[k + 1];
        assert(h == make_hunk(es, s, e, (k + 1) as nat));
        assert(m == make_hunk(es, s2, e2, (k + 2) as nat));
        lemma_len_sides(es.take(s2));
        lemma_len_sides(es);
        assert(es =~= es.take(s2) + es.skip(s2));
        lemma_old_side_add(es.take(s2), es.skip(s2));
        law_edits_sound(l, r);
    }
}

/// A script of kept lines keeps every one of them.
proof fn lemma_keeps_count(seg: Seq<EditV>)
    requires
        forall|i: int| 0 <= i < seg.len() ==> !is_change(#[trigger] seg[i]),
    ensures
        keeps(seg) == seg.len(),
    decreases seg.len(),
{
    if seg.len() > 0 {
        let d = seg.drop_last();
        assert forall|i: int| 0 <= i < d.len() implies !is_change(#[trigger] d[i]) by {
            assert(d[i] == seg[i]);
        }
        lemma_keeps_count(d);
        assert(!is_change(seg[seg.len() - 1]));
        lemma_sides_push(d, seg.last());
        assert(d.push(seg.last()) == seg);
    }
}

/// Total number of hunk lines.
pub open spec fn total_lines(hs: Seq<HunkV>) -> nat
    decreases hs.len(),
{
    if hs.len() == 0 {
        0
    } else {
        total_lines(hs.drop_last()) + hs.last().lines.len()
    }
}

/// The largest hunk start.
pub open spec fn max_start(hs: Seq<HunkV>) -> nat
    decreases hs.len(),
{
    if hs.len() == 0 {
        0
    } else {
        max_nat(max_nat(max_start(hs.drop_last()), hs.last().old_start as nat), hs.last().new_start as nat)
    }
}

/// A bound on every line number and row number that the alignment reaches.
pub open spec fn align_bound(left: Seq<char>, right: Seq<char>, hs: Seq<HunkV>) -> nat {
    max_start(hs) + lines(left).len() + lines(right).len() + total_lines(hs)
}


/// The aligner's indexes stay within `m`, and it has made no more rows than it
/// has advanced lines.
pub open spec fn fits(st: AlignV, m: int) -> bool {
    &&& st.li + st.dels.len() <= m
    &&& st.ri + st.adds.len() <= m
    &&& st.counter <= st.li + st.ri
    &&& 2 * m + 2 < usize::MAX
}

proof fn lemma_starts_le_max(hs: Seq<HunkV>, k: int)
    requires
        0 <= k < hs.len(),
    ensures
        hs[k].old_start <= max_start(hs),
        hs[k].new_start <= max_start(hs),
        total_lines(hs.take(k)) + hs[k].lines.len() <= total_lines(hs),
    decreases hs.len(),
{
    let d = hs.drop_last();
    if k < hs.len() - 1 {
        lemma_starts_le_max(d, k);
        assert(d[k] == hs[k]);
        assert(hs.take(k) == d.take(k));
    } else {
        assert(hs.take(k) == d);
    }
}

struct Aligner {
    rows: Vec<AlignmentRow>,
    counter: usize,
    li: usize,
    ri: usize,
    dels: Vec<String>,
    adds: Vec<String>,
}

impl Aligner {
    spec fn model(&self) -> AlignV {
        AlignV {
            rows: row_views(self.rows@),
            counter: self.counter as nat,
            li: self.li as nat,
            ri: self.ri as nat,
            dels: views(self.dels@),
            adds: views(self.adds@),
        }
    }

    fn push_row(&mut self, left: Option<AlignmentCell>, right: Option<AlignmentCell>, hunk_id: Option<String>)
        requires
            old(self).counter + 1 < usize::MAX,
        ensures
            final(self).model() == (AlignV {
                rows: old(self).model().rows.push(
                    RowV {
                        row_id: row_name((old(self).counter + 1) as nat),
                        left: opt_cell(left),
                        right: opt_cell(right),
                        hunk_id: opt_str(hunk_id),
                    },
                ),
                counter: (old(self).counter + 1) as nat,
                ..old(self).model()
            }),
            final(self).li == old(self).li,
            final(self).ri == old(self).ri,
            final(self).counter == old(self).counter + 1,
    {
        let c = self.counter + 1;
        let row = AlignmentRow { row_id: numbered("row-", c as u64), left, right, hunk_id };
        let ghost prev = self.rows@;
        self.rows.push(row);
        assert(row_views(self.rows@) =~= row_views(prev).push(row@));
        self.counter = c;
    }

    fn emit_exec(&mut self, hid: &String, Ghost(m): Ghost<int>)
        requires
            fits(old(self).model(), m),
        ensures
            final(self).model() == emit(old(self).model(), hid@),
            fits(final(self).model(), m),
    {
        let ghost st0 = self.model();
        let d = self.dels.len();
        let a = self.adds.len();
        let n = if d >= a {
            d
        } else {
            a
        };
        let ghost li0 = self.li;
        let ghost ri0 = self.ri;
        let mut i: usize = 0;
        while i < n
            invariant
                i <= n,
                n == max_nat(d as nat, a as nat),
                d == self.dels.len(),
                a == self.adds.len(),
                views(self.dels@) == st0.dels,
                views(self.adds@) == st0.adds,
                emit_from(st0, 0, hid@) == emit_from(self.model(), i as nat, hid@),
                self.li == li0 + if i < d {
                    i as int
                } else {
                    d as int
                },
                self.ri == ri0 + if i < a {
                    i as int
                } else {
                    a as int
                },
                li0 + d <= m,
                ri0 + a <= m,
                self.counter <= self.li + self.ri,
                2 * m + 2 < usize::MAX,
            decreases n - i,
        {
            let ghost before = self.model();
            let left = if i < d {
                self.li = self.li + 1;
                AlignmentCell { line_no: self.li, text: self.dels[i].clone(), kind: owned("del") }
            } else {
                AlignmentCell { line_no: 0, text: String::new(), kind: owned("empty") }
            };
            let right = if i < a {
                self.ri = self.ri + 1;
                AlignmentCell { line_no: self.ri, text: self.adds[i].clone(), kind: owned("add") }
            } else {
                AlignmentCell { line_no: 0, text: String::new(), kind: owned("empty") }
            };
            let h = hid.clone();
            self.push_row(Some(left), Some(right), Some(h));
            proof {
                if i < d {
                    assert(before.dels[i as int] == self.dels@[i as int]@);
                }
                if i < a {
                    assert(before.adds[i as int] == self.adds@[i as int]@);
                }
                assert(self.model() == paired_row(before, i as nat, hid@));
            }
            i = i + 1;
        }
        self.dels = Vec::new();
        self.adds = Vec::new();
        assert(views(self.dels@) =~= Seq::<Seq<char>>::empty());
        assert(views(self.adds@) =~= Seq::<Seq<char>>::empty());
    }
}


impl Aligner {
    fn line_step_exec(&mut self, hl: &HunkLine, hid: &String, Ghost(m): Ghost<int>)
        requires
            fits(old(self).model(), m),
            2 * (m + 1) + 2 < usize::MAX,
        ensures
            final(self).model() == line_step(old(self).model(), hl@, hid@),
            fits(final(self).model(), m + 1),
    {
        let ghost st0 = self.model();
        if str_eq(hl.kind.as_str(), "del") {
            if self.adds.len() > 0 {
                self.emit_exec(hid, Ghost(m));
            }
            let ghost prev = self.dels@;
            self.dels.push(hl.text.clone());
            assert(views(self.dels@) =~= views(prev).push(hl.text@));
        } else if str_eq(hl.kind.as_str(), "add") {
            let ghost prev = self.adds@;
            self.adds.push(hl.text.clone());
            assert(views(self.adds@) =~= views(prev).push(hl.text@));
        } else {
            if self.dels.len() > 0 || self.adds.len() > 0 {
                self.emit_exec(hid, Ghost(m));
            }
            self.li = self.li + 1;
            self.ri = self.ri + 1;
            let left = AlignmentCell { line_no: self.li, text: hl.text.clone(), kind: owned("context") };
            let right = AlignmentCell { line_no: self.ri, text: hl.text.clone(), kind: owned("context") };
            self.push_row(Some(left), Some(right), Some(hid.clone()));
        }
    }

    fn push_context_exec(&mut self, l: &Vec<String>, r: &Vec<String>)
        requires
            old(self).counter + 1 < usize::MAX,
            old(self).li + 1 < usize::MAX,
            old(self).ri + 1 < usize::MAX,
        ensures
            final(self).model() == push_context(old(self).model(), views(l@), views(r@)),
    {
        let lt = if self.li < l.len() {
            l[self.li].clone()
        } else {
            String::new()
        };
        let rt = if self.ri < r.len() {
            r[self.ri].clone()
        } else {
            String::new()
        };
        self.li = self.li + 1;
        self.ri = self.ri + 1;
        let left = AlignmentCell { line_no: self.li, text: lt, kind: owned("context") };
        let right = AlignmentCell { line_no: self.ri, text: rt, kind: owned("context") };
        self.push_row(Some(left), Some(right), None);
    }

    fn hunk_exec(&mut self, h: &Hunk, l: &Vec<String>, r: &Vec<String>, Ghost(m): Ghost<int>)
        requires
            fits(old(self).model(), m),
            old(self).dels.len() == 0,
            old(self).adds.len() == 0,
            h.old_start <= m,
            h.new_start <= m,
            2 * (m + h.lines.len()) + 2 < usize::MAX,
        ensures
            final(self).model() == hunk_step(old(self).model(), h@, views(l@), views(r@)),
            fits(final(self).model(), m + h.lines.len()),
            final(self).dels.len() == 0,
            final(self).adds.len() == 0,
    {
        let ghost st0 = self.model();
        let ghost lv = views(l@);
        let ghost rv = views(r@);
        let os = if h.old_start > 0 {
            h.old_start - 1
        } else {
            0
        };
        let ns = if h.new_start > 0 {
            h.new_start - 1
        } else {
            0
        };
        while self.li < os && self.ri < ns
            invariant
                pre_context(st0, lv, rv, start0(h.old_start), start0(h.new_start)) == pre_context(
                    self.model(),
                    lv,
                    rv,
                    start0(h.old_start),
                    start0(h.new_start),
                ),
                os == start0(h.old_start),
                ns == start0(h.new_start),
                os <= m,
                ns <= m,
                lv == views(l@),
                rv == views(r@),
                fits(self.model(), m),
                self.dels.len() == 0,
                self.adds.len() == 0,
            decreases os - self.li,
        {
            self.push_context_exec(l, r);
        }
        let ghost s1 = self.model();
        let mut i: usize = 0;
        let ghost ls = h@.lines;
        assert(ls.take(0) =~= Seq::<LineV>::empty());
        while i < h.lines.len()
            invariant
                i <= h.lines.len(),
                ls == h@.lines,
                self.model() == lines_fold(s1, ls.take(i as int), h.id@),
                fits(self.model(), m + i),
                2 * (m + h.lines.len()) + 2 < usize::MAX,
            decreases h.lines.len() - i,
        {
            proof {
                assert(ls.take(i + 1).drop_last() == ls.take(i as int));
                assert(ls.take(i + 1).last() == h.lines@[i as int]@);
            }
            self.line_step_exec(&h.lines[i], &h.id, Ghost(m + i));
            i = i + 1;
        }
        assert(ls.take(h.lines.len() as int) == ls);
        if self.dels.len() > 0 || self.adds.len() > 0 {
            self.emit_exec(&h.id, Ghost(m + h.lines.len()));
        }
    }

    fn tail_exec(&mut self, l: &Vec<String>, r: &Vec<String>, Ghost(m): Ghost<int>)
        requires
            fits(old(self).model(), m),
            l.len() <= m,
            r.len() <= m,
            old(self).dels.len() == 0,
            old(self).adds.len() == 0,
        ensures
            final(self).model() == tail(old(self).model(), views(l@), views(r@)),
    {
        let ghost st0 = self.model();
        let ghost lv = views(l@);
        let ghost rv = views(r@);
        while self.li < l.len() || self.ri < r.len()
            invariant
                tail(st0, lv, rv) == tail(self.model(), lv, rv),
                lv == views(l@),
                rv == views(r@),
                fits(self.model(), m),
                l.len() <= m,
                r.len() <= m,
                self.dels.len() == 0,
                self.adds.len() == 0,
            decreases remaining(self.model(), lv, rv),
        {
            let left = if self.li < l.len() {
                let t = l[self.li].clone();
                self.li = self.li + 1;
                Some(AlignmentCell { line_no: self.li, text: t, kind: owned("context") })
            } else {
                None
            };
            let right = if self.ri < r.len() {
                let t = r[self.ri].clone();
                self.ri = self.ri + 1;
                Some(AlignmentCell { line_no: self.ri, text: t, kind: owned("context") })
            } else {
                None
            };
            self.push_row(left, right, None);
        }
    }
}

/// Build alignment rows from hunks (for side-by-side display): context rows
/// up to each hunk, the hunk's lines with each run of deleted lines paired
/// with the added lines that follow it, and context rows after the last hunk.
pub fn build_alignment_rows(left_text: &str, right_text: &str, hunks: &Vec<Hunk>) -> (rows: Vec<AlignmentRow>)
    requires
        2 * align_bound(left_text@, right_text@, hunk_views(hunks@)) + 2 < usize::MAX,
    ensures
        row_views(rows@) == align_spec(left_text@, right_text@, hunk_views(hunks@)),
{
    let l = lines_of(left_text);
    let r = lines_of(right_text);
    let ghost hs = hunk_views(hunks@);
    let ghost base: int = max_start(hs) + l.len() + r.len();
    let mut st = Aligner {
        rows: Vec::new(),
        counter: 0,
        li: 0,
        ri: 0,
        dels: Vec::new(),
        adds: Vec::new(),
    };
    assert(st.model() == align_init()) by {
        assert(row_views(st.rows@) =~= Seq::<RowV>::empty());
        assert(views(st.dels@) =~= Seq::<Seq<char>>::empty());
        assert(views(st.adds@) =~= Seq::<Seq<char>>::empty());
    }
    let mut k: usize = 0;
    assert(hs.take(0) =~= Seq::<HunkV>::empty());
    while k < hunks.len()
        invariant
            k <= hunks.len(),
            hs == hunk_views(hunks@),
            base == max_start(hs) + l.len() + r.len(),
            st.model() == hunks_fold(align_init(), hs.take(k as int), views(l@), views(r@)),
            fits(st.model(), base + total_lines(hs.take(k as int))),
            st.dels.len() == 0,
            st.adds.len() == 0,
            2 * align_bound(left_text@, right_text@, hs) + 2 < usize::MAX,
            views(l@) == lines(left_text@),
            views(r@) == lines(right_text@),
        decreases hunks.len() - k,
    {
        proof {
            lemma_starts_le_max(hs, k as int);
            assert(hs[k as int] == hunks@[k as int]@);
            assert(hs.take(k + 1).drop_last() == hs.take(k as int));
            assert(hs.take(k + 1).last() == hs[k as int]);
        }
        let ghost m = base + total_lines(hs.take(k as int));
        st.hunk_exec(&hunks[k], &l, &r, Ghost(m));
        k = k + 1;
    }
    assert(hs.take(hunks.len() as int) == hs);
    st.tail_exec(&l, &r, Ghost(base + total_lines(hs)));
    st.rows
}

} // verus!
