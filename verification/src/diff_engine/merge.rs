//! The merge buffer: it starts as the right-hand text, and a hunk applied from
//! one side replaces the lines that the hunk covers.
use vstd::prelude::*;
use crate::text::{chars_of, lines, lines_of, str_eq, string_from, views};
use crate::diff_engine::twoway::{compute_spec, law_hunks_match_texts};
use crate::diff_engine::unified_parser::{takes, texts_for, Hunk, HunkV, LineV};

verus! {

/// The lines `ls` joined by `sep`.
pub open spec fn join(ls: Seq<Seq<char>>, sep: Seq<char>) -> Seq<char>
    decreases ls.len(),
{
    if ls.len() == 0 {
        seq![]
    } else if ls.len() == 1 {
        ls[0]
    } else {
        join(ls.drop_last(), sep) + sep + ls.last()
    }
}

/// Where a hunk starts in the merged lines (its new start, counted from 1).
pub open spec fn hunk_start(h: HunkV) -> int {
    if h.new_start > 0 {
        h.new_start - 1
    } else {
        0
    }
}

/// The merged lines after applying `h` from `source` to the lines `ms`.
pub open spec fn apply_lines(ms: Seq<Seq<char>>, h: HunkV, source: Seq<char>) -> Seq<Seq<char>> {
    let start = hunk_start(h);
    let end = if start + h.new_count < ms.len() {
        start + h.new_count
    } else {
        ms.len() as int
    };
    ms.take(start) + texts_for(h.lines, source) + ms.skip(end)
}

/// The merged text after applying `h` from `source` to `merged`.
pub open spec fn apply_spec(merged: Seq<char>, h: HunkV, source: Seq<char>) -> Seq<char> {
    join(apply_lines(lines(merged), h, source), "\n"@)
}

/// A hunk between `left` and `right`, applied to the initial merge buffer
/// (the right text): taken from the right side it leaves the right text's
/// lines as they are, and taken from the left side it puts the left text's
/// lines in place of the right text's lines that the hunk covers.
pub proof fn law_apply_hunk_to_initial_buffer(left: Seq<char>, right: Seq<char>, k: int)
    requires
        left.len() + right.len() + 3 < usize::MAX,
        0 <= k < compute_spec(left, right).len(),
    ensures
        ({
            let h = compute_spec(left, right)[k];
            let rl = lines(right);
            &&& apply_lines(rl, h, "right"@) == rl
            &&& apply_spec(right, h, "right"@) == join(rl, "\n"@)
            &&& apply_lines(rl, h, "left"@) == rl.take(h.new_start - 1) + lines(left).subrange(
                h.old_start - 1,
                h.old_start - 1 + h.old_count,
            ) + rl.skip(h.new_start - 1 + h.new_count)
        }),
{
    law_hunks_match_texts(left, right, k);
    let h = compute_spec(left, right)[k];
    let rl = lines(right);
    let s = h.new_start - 1;
    let e = s + h.new_count;
    assert(hunk_start(h) == s);
    assert(rl.take(s) + rl.subrange(s, e) + rl.skip(e) =~= rl);
}

/// Initialize a merged buffer from the right-side text (baseline).
pub fn init_merge_buffer(right_text: &str) -> (merged: String)
    ensures
        merged@ == right_text@,
{
    let v = chars_of(right_text);
    string_from(&v)
}

pub fn join_exec(ls: &Vec<String>) -> (r: String)
    ensures
        r@ == join(views(ls@), "\n"@),
{
    let mut out: Vec<char> = Vec::new();
    let ghost vs = views(ls@);
    let mut i: usize = 0;
    proof {
        reveal_strlit("\n");
    }
    assert(vs.take(0) =~= Seq::<Seq<char>>::empty());
    while i < ls.len()
        invariant
            i <= ls.len(),
            vs == views(ls@),
            out@ == join(vs.take(i as int), "\n"@),
            "\n"@ == seq!['\n'],
        decreases ls.len() - i,
    {
        let piece = chars_of(ls[i].as_str());
        let ghost before = out@;
        if i > 0 {
            out.push('\n');
        }
        let mut k: usize = 0;
        let ghost mid = out@;
        while k < piece.len()
            invariant
                k <= piece.len(),
                out@ == mid + piece@.take(k as int),
            decreases piece.len() - k,
        {
            out.push(piece[k]);
            assert(piece@.take(k + 1) == piece@.take(k as int).push(piece[k as int]));
            k = k + 1;
        }
        proof {
            assert(piece@.take(piece.len() as int) == piece@);
            let t = vs.take(i + 1);
            assert(t.drop_last() == vs.take(i as int));
            assert(t.last() == piece@);
            if i == 0 {
                assert(before == Seq::<char>::empty());
                assert(out@ =~= piece@);
                assert(t.len() == 1);
                assert(t[0] == piece@);
            } else {
                assert(out@ =~= before + seq!['\n'] + piece@);
            }
        }
        i = i + 1;
    }
    assert(vs.take(ls.len() as int) == vs);
    string_from(&out)
}

pub fn texts_for_exec(h: &Hunk, source: &str) -> (r: Vec<String>)
    ensures
        views(r@) == texts_for(h@.lines, source@),
{
    let left = str_eq(source, "left");
    let right = str_eq(source, "right");
    let mut out: Vec<String> = Vec::new();
    let mut i: usize = 0;
    let ghost ls = h@.lines;
    assert(ls.take(0) =~= Seq::<LineV>::empty());
    while i < h.lines.len()
        invariant
            i <= h.lines.len(),
            ls == h@.lines,
            left == (source@ == "left"@),
            right == (source@ == "right"@),
            views(out@) == texts_for(ls.take(i as int), source@),
        decreases h.lines.len() - i,
    {
        let l = &h.lines[i];
        let is_ctx = str_eq(l.kind.as_str(), "context");
        let keep = if left {
            str_eq(l.kind.as_str(), "del") || is_ctx
        } else if right {
            str_eq(l.kind.as_str(), "add") || is_ctx
        } else {
            is_ctx
        };
        proof {
            let t = ls.take(i + 1);
            assert(t.drop_last() == ls.take(i as int));
            assert(t.last() == l@);
            assert(keep == takes(source@, l.kind@));
        }
        let ghost prev = out@;
        if keep {
            out.push(l.text.clone());
            assert(views(out@) =~= views(prev) + seq![l.text@]);
        } else {
            assert(views(out@) =~= views(prev) + Seq::<Seq<char>>::empty());
        }
        i = i + 1;
    }
    assert(ls.take(h.lines.len() as int) == ls);
    out
}

/// Apply a hunk from a given source ("left" or "right") onto the merged
/// buffer: the merged lines that the hunk covers on its right side are
/// replaced by the hunk lines of that source, and the lines are joined by
/// `\n`.
pub fn apply_hunk_to_buffer(merged: &str, hunk: &Hunk, source: &str) -> (r: Result<String, String>)
    requires
        hunk_start(hunk@) <= lines(merged@).len(),
        hunk_start(hunk@) + hunk@.new_count <= usize::MAX,
    ensures
        r == Ok::<String, String>(r->Ok_0),
        r->Ok_0@ == apply_spec(merged@, hunk@, source@),
{
    let merged_lines = lines_of(merged);
    let insert = texts_for_exec(hunk, source);
    let start = if hunk.new_start > 0 {
        hunk.new_start - 1
    } else {
        0
    };
    let end = if start + hunk.new_count < merged_lines.len() {
        start + hunk.new_count
    } else {
        merged_lines.len()
    };
    let ghost ms = views(merged_lines@);
    let mut result: Vec<String> = Vec::new();
    let mut i: usize = 0;
    while i < start
        invariant
            i <= start <= merged_lines.len(),
            ms == views(merged_lines@),
            views(result@) == ms.take(i as int),
        decreases start - i,
    {
        let ghost prev = result@;
        result.push(merged_lines[i].clone());
        assert(views(result@) =~= views(prev).push(ms[i as int]));
        assert(ms.take(i + 1) == ms.take(i as int).push(ms[i as int]));
        i = i + 1;
    }
    let mut k: usize = 0;
    let ghost base = views(result@);
    let ghost ins = views(insert@);
    while k < insert.len()
        invariant
            k <= insert.len(),
            ins == views(insert@),
            views(result@) == base + ins.take(k as int),
        decreases insert.len() - k,
    {
        let ghost prev = result@;
        result.push(insert[k].clone());
        assert(views(result@) =~= views(prev).push(ins[k as int]));
        assert(ins.take(k + 1) == ins.take(k as int).push(ins[k as int]));
        k = k + 1;
    }
    assert(ins.take(insert.len() as int) == ins);
    let mut i: usize = end;
    let ghost mid = views(result@);
    assert(ms.subrange(end as int, end as int) =~= Seq::<Seq<char>>::empty());
    while i < merged_lines.len()
        invariant
            end <= i <= merged_lines.len(),
            ms == views(merged_lines@),
            views(result@) == mid + ms.subrange(end as int, i as int),
        decreases merged_lines.len() - i,
    {
        let ghost prev = result@;
        result.push(merged_lines[i].clone());
        assert(views(result@) =~= views(prev).push(ms[i as int]));
        assert(ms.subrange(end as int, i + 1) == ms.subrange(end as int, i as int).push(ms[i as int]));
        i = i + 1;
    }
    assert(ms.subrange(end as int, ms.len() as int) == ms.skip(end as int));
    assert(views(result@) =~= apply_lines(ms, hunk@, source@));
    Ok(join_exec(&result))
}

} // verus!
