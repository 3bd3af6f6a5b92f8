//! The rendered diff model: the alignment rows and the navigation blocks of
//! changed rows.
use vstd::prelude::*;
use crate::diff_engine::twoway::{opt_cell, row_views, AlignmentCell, AlignmentRow, CellV, RowV};
use crate::diff_engine::unified_parser::{kind_add, kind_del};
use crate::text::{chars_of, decimal, push_decimal, str_eq, string_from};

verus! {

/// The rendered diff model sent to the UI.
#[derive(Debug, Clone)]
pub struct RenderedDiffModel {
    pub filediff_id: String,
    pub rows: Vec<AlignmentRow>,
    pub hunks: Vec<RenderedHunkRef>,
}

/// A navigation block: the rows `start_row..=end_row`.
#[derive(Debug, Clone)]
pub struct RenderedHunkRef {
    pub hunk_id: String,
    pub start_row: usize,
    pub end_row: usize,
}

pub struct RefV {
    pub hunk_id: Seq<char>,
    pub start_row: nat,
    pub end_row: nat,
}

impl View for RenderedHunkRef {
    type V = RefV;

    open spec fn view(&self) -> RefV {
        RefV { hunk_id: self.hunk_id@, start_row: self.start_row as nat, end_row: self.end_row as nat }
    }
}

pub open spec fn ref_views(v: Seq<RenderedHunkRef>) -> Seq<RefV> {
    v.map_values(|r: RenderedHunkRef| r@)
}

/// A cell that shows a change: added, deleted or an empty filler.
pub open spec fn changed_kind(k: Seq<char>) -> bool {
    k == kind_add() || k == kind_del() || k == "empty"@
}

pub open spec fn changed_cell(c: Option<CellV>) -> bool {
    match c {
        Some(c) => changed_kind(c.kind),
        None => false,
    }
}

/// A row that shows a change on either side.
pub open spec fn is_changed(r: RowV) -> bool {
    changed_cell(r.left) || changed_cell(r.right)
}

/// The block builder between two rows.
pub struct BlockState {
    pub refs: Seq<RefV>,
    pub cur: Option<(Seq<char>, nat)>,
    pub block: nat,
}

pub open spec fn block_ref(cid: Seq<char>, block: nat, start: nat, end: nat) -> RefV {
    RefV { hunk_id: cid + "-block-"@ + decimal(block), start_row: start, end_row: end }
}

/// What row `i` does to the block builder: a changed row of a hunk opens a
/// block, or closes the open block of another hunk and opens its own; an
/// unchanged row closes the open block.
pub open spec fn block_step(st: BlockState, i: nat, r: RowV) -> BlockState {
    match (r.hunk_id, st.cur) {
        (Some(h), None) => if is_changed(r) {
            BlockState { cur: Some((h, i)), ..st }
        } else {
            st
        },
        (Some(h), Some((c, s))) => if is_changed(r) && h != c {
            BlockState {
                refs: st.refs.push(block_ref(c, st.block + 1, s, (i - 1) as nat)),
                cur: Some((h, i)),
                block: st.block + 1,
            }
        } else if !is_changed(r) {
            BlockState {
                refs: st.refs.push(block_ref(c, st.block + 1, s, (i - 1) as nat)),
                cur: None,
                block: st.block + 1,
            }
        } else {
            st
        },
        (None, Some((c, s))) => if !is_changed(r) {
            BlockState {
                refs: st.refs.push(block_ref(c, st.block + 1, s, (i - 1) as nat)),
                cur: None,
                block: st.block + 1,
            }
        } else {
            st
        },
        (None, None) => st,
    }
}

pub open spec fn blocks_fold(rows: Seq<RowV>) -> BlockState
    decreases rows.len(),
{
    if rows.len() == 0 {
        BlockState { refs: Seq::empty(), cur: None, block: 0 }
    } else {
        block_step(blocks_fold(rows.drop_last()), (rows.len() - 1) as nat, rows.last())
    }
}

/// The navigation blocks of a sequence of rows.
pub open spec fn blocks_spec(rows: Seq<RowV>) -> Seq<RefV> {
    let st = blocks_fold(rows);
    match st.cur {
        Some((c, s)) => st.refs.push(
            block_ref(
                c,
                st.block + 1,
                s,
                if rows.len() > 0 {
                    (rows.len() - 1) as nat
                } else {
                    0
                },
            ),
        ),
        None => st.refs,
    }
}

/// Every block lies within the rows, is not empty, and comes after the
/// previous one.
pub open spec fn blocks_well_formed(refs: Seq<RefV>, n: nat) -> bool {
    &&& forall|j: int| 0 <= j < refs.len() ==> (#[trigger] refs[j]).start_row <= refs[j].end_row < n
    &&& forall|j: int| 0 <= j < refs.len() - 1 ==> (#[trigger] refs[j]).end_row < refs[j + 1].start_row
}

proof fn lemma_blocks_fold_wf(rows: Seq<RowV>)
    ensures
        blocks_well_formed(blocks_fold(rows).refs, rows.len()),
        blocks_fold(rows).block == blocks_fold(rows).refs.len(),
        blocks_fold(rows).refs.len() + (if blocks_fold(rows).cur is Some {
            1int
        } else {
            0int
        }) <= rows.len(),
        blocks_fold(rows).cur matches Some((_, s)) ==> s < rows.len() && (blocks_fold(rows).refs.len()
            > 0 ==> blocks_fold(rows).refs.last().end_row < s),
        blocks_fold(rows).cur is None ==> (blocks_fold(rows).refs.len() > 0 ==> blocks_fold(
            rows,
        ).refs.last().end_row < rows.len()),
    decreases rows.len(),
{
    if rows.len() > 0 {
        lemma_blocks_fold_wf(rows.drop_last());
    }
}

/// The navigation blocks are well formed.
pub proof fn law_blocks_well_formed(rows: Seq<RowV>)
    ensures
        blocks_well_formed(blocks_spec(rows), rows.len()),
{
    lemma_blocks_fold_wf(rows);
}


/// Every row inside a block shows a change.
pub open spec fn blocks_changed(refs: Seq<RefV>, rows: Seq<RowV>) -> bool {
    forall|j: int, i: int|
        0 <= j < refs.len() && (#[trigger] refs[j]).start_row <= i <= refs[j].end_row ==> is_changed(
            #[trigger] rows[i],
        )
}

/// Row `i` lies inside one of the blocks.
pub open spec fn in_some_block(refs: Seq<RefV>, i: int) -> bool {
    exists|j: int| 0 <= j < refs.len() && (#[trigger] refs[j]).start_row <= i <= refs[j].end_row
}

proof fn lemma_blocks_fold_runs(rows: Seq<RowV>)
    ensures
        ({
            let st = blocks_fold(rows);
            &&& blocks_changed(st.refs, rows)
            &&& st.cur matches Some((_, s)) ==> s < rows.len() && forall|i: int|
                s <= i < rows.len() ==> is_changed(#[trigger] rows[i])
            &&& forall|i: int|
                0 <= i < rows.len() && (#[trigger] rows[i]).hunk_id is Some && is_changed(rows[i])
                    ==> in_some_block(st.refs, i) || (st.cur matches Some((_, s)) && s <= i)
        }),
    decreases rows.len(),
{
    if rows.len() > 0 {
        let d = rows.drop_last();
        lemma_blocks_fold_runs(d);
        lemma_blocks_fold_wf(d);
        let p = blocks_fold(d);
        let st = blocks_fold(rows);
        let i = (rows.len() - 1) as nat;
        let r = rows.last();
        assert forall|x: int| 0 <= x < d.len() implies #[trigger] rows[x] == d[x] by {}
        // the blocks already closed stay as they were
        assert forall|j: int| 0 <= j < p.refs.len() implies #[trigger] st.refs[j] == p.refs[j] by {
            assert(st.refs.len() >= p.refs.len());
        }
        assert forall|j: int, x: int|
            0 <= j < st.refs.len() && (#[trigger] st.refs[j]).start_row <= x <= st.refs[j].end_row implies is_changed(
            #[trigger] rows[x],
        ) by {
            if j < p.refs.len() {
                assert(st.refs[j] == p.refs[j]);
                assert(p.refs[j].end_row < d.len());
                assert(rows[x] == d[x]);
            } else {
                // the block just closed ran from the open block's start to the row before
                let (c, s0) = p.cur->0;
                assert(st.refs[j].start_row == s0);
                assert(st.refs[j].end_row == i - 1);
                assert(rows[x] == d[x]);
            }
        }
        assert forall|x: int|
            0 <= x < rows.len() && (#[trigger] rows[x]).hunk_id is Some && is_changed(rows[x]) implies in_some_block(
            st.refs,
            x,
        ) || (st.cur matches Some((_, s)) && s <= x) by {
            if x < d.len() {
                assert(rows[x] == d[x]);
                if in_some_block(p.refs, x) {
                    let j = choose|j: int| 0 <= j < p.refs.len() && (#[trigger] p.refs[j]).start_row <= x <= p.refs[j].end_row;
                    assert(st.refs[j] == p.refs[j]);
                } else {
                    let (c, s0) = p.cur->0;
                    if st.refs.len() > p.refs.len() {
                        let j = p.refs.len() as int;
                        assert(st.refs[j].start_row == s0 && st.refs[j].end_row == i - 1);
                    }
                }
            }
        }
    }
}

/// The navigation blocks are the runs of changed rows: every row inside a
/// block shows a change, and every changed row of a hunk lies inside a block.
pub proof fn law_blocks_are_change_runs(rows: Seq<RowV>)
    ensures
        blocks_changed(blocks_spec(rows), rows),
        forall|i: int|
            0 <= i < rows.len() && (#[trigger] rows[i]).hunk_id is Some && is_changed(rows[i])
                ==> in_some_block(blocks_spec(rows), i),
{
    lemma_blocks_fold_runs(rows);
    lemma_blocks_fold_wf(rows);
    let st = blocks_fold(rows);
    let b = blocks_spec(rows);
    assert forall|j: int| 0 <= j < st.refs.len() implies #[trigger] b[j] == st.refs[j] by {}
    assert forall|j: int, x: int|
        0 <= j < b.len() && (#[trigger] b[j]).start_row <= x <= b[j].end_row implies is_changed(#[trigger] rows[x]) by {
        if j < st.refs.len() {
            assert(b[j] == st.refs[j]);
        }
    }
    assert forall|x: int|
        0 <= x < rows.len() && (#[trigger] rows[x]).hunk_id is Some && is_changed(rows[x]) implies in_some_block(b, x) by {
        if in_some_block(st.refs, x) {
            let j = choose|j: int| 0 <= j < st.refs.len() && (#[trigger] st.refs[j]).start_row <= x <= st.refs[j].end_row;
            assert(b[j] == st.refs[j]);
        } else {
            let j = st.refs.len() as int;
            assert(b[j].end_row == rows.len() - 1);
        }
    }
}

fn clone_cell(c: &Option<AlignmentCell>) -> (r: Option<AlignmentCell>)
    ensures
        opt_cell(r) == opt_cell(*c),
{
    match c {
        Some(c) => Some(AlignmentCell { line_no: c.line_no, text: c.text.clone(), kind: c.kind.clone() }),
        None => None,
    }
}

fn clone_row(r: &AlignmentRow) -> (o: AlignmentRow)
    ensures
        o@ == r@,
{
    let hunk_id = match &r.hunk_id {
        Some(h) => Some(h.clone()),
        None => None,
    };
    AlignmentRow {
        row_id: r.row_id.clone(),
        left: clone_cell(&r.left),
        right: clone_cell(&r.right),
        hunk_id,
    }
}

fn changed_cell_exec(c: &Option<AlignmentCell>) -> (b: bool)
    ensures
        b == changed_cell(opt_cell(*c)),
{
    match c {
        Some(c) => {
            let k = c.kind.as_str();
            str_eq(k, "add") || str_eq(k, "del") || str_eq(k, "empty")
        },
        None => false,
    }
}

fn is_changed_row(row: &AlignmentRow) -> (b: bool)
    ensures
        b == is_changed(row@),
{
    changed_cell_exec(&row.left) || changed_cell_exec(&row.right)
}

fn block_ref_exec(cid: &String, block: usize, start: usize, end: usize) -> (r: RenderedHunkRef)
    ensures
        r@ == block_ref(cid@, block as nat, start as nat, end as nat),
{
    let mut v = chars_of(cid.as_str());
    let suffix = chars_of("-block-");
    let ghost v0 = v@;
    let mut k: usize = 0;
    while k < suffix.len()
        invariant
            k <= suffix.len(),
            v@ == v0 + suffix@.take(k as int),
        decreases suffix.len() - k,
    {
        v.push(suffix[k]);
        assert(suffix@.take(k + 1) == suffix@.take(k as int).push(suffix[k as int]));
        k = k + 1;
    }
    assert(suffix@.take(suffix.len() as int) == suffix@);
    push_decimal(&mut v, block as u64);
    RenderedHunkRef { hunk_id: string_from(&v), start_row: start, end_row: end }
}

/// Build a rendered model from alignment rows, with a navigation block for
/// each run of changed rows of one hunk.
#[verifier::rlimit(60)]
pub fn build_rendered_model(filediff_id: &str, rows: &Vec<AlignmentRow>) -> (m: RenderedDiffModel)
    ensures
        m.filediff_id@ == filediff_id@,
        row_views(m.rows@) == row_views(rows@),
        ref_views(m.hunks@) == blocks_spec(row_views(rows@)),
        blocks_well_formed(ref_views(m.hunks@), rows.len() as nat),
{
    let ghost rv = row_views(rows@);
    let mut refs: Vec<RenderedHunkRef> = Vec::new();
    let mut cur: Option<(String, usize)> = None;
    let mut block: usize = 0;
    let mut copy: Vec<AlignmentRow> = Vec::new();
    let mut i: usize = 0;
    assert(rv.take(0) =~= Seq::<RowV>::empty());
    assert(ref_views(refs@) =~= Seq::<RefV>::empty());
    while i < rows.len()
        invariant
            i <= rows.len(),
            rv == row_views(rows@),
            row_views(copy@) == rv.take(i as int),
            ({
                let st = blocks_fold(rv.take(i as int));
                &&& ref_views(refs@) == st.refs
                &&& block == st.block
                &&& match cur {
                    Some((c, s)) => st.cur == Some((c@, s as nat)),
                    None => st.cur is None,
                }
            }),
        decreases rows.len() - i,
    {
        proof {
            lemma_blocks_fold_wf(rv.take(i as int));
            assert(rv.take(i + 1).drop_last() == rv.take(i as int));
            assert(rv.take(i + 1).last() == rows@[i as int]@);
        }
        let row = &rows[i];
        let changed = is_changed_row(row);
        let ghost prev = refs@;
        match (&row.hunk_id, &cur) {
            (Some(h), None) => {
                if changed {
                    cur = Some((h.clone(), i));
                }
            },
            (Some(h), Some((c, s))) => {
                if changed && *h != *c {
                    let r = block_ref_exec(c, block + 1, *s, i - 1);
                    refs.push(r);
                    assert(ref_views(refs@) =~= ref_views(prev).push(r@));
                    block = block + 1;
                    cur = Some((h.clone(), i));
                } else if !changed {
                    let r = block_ref_exec(c, block + 1, *s, i - 1);
                    refs.push(r);
                    assert(ref_views(refs@) =~= ref_views(prev).push(r@));
                    block = block + 1;
                    cur = None;
                }
            },
            (None, Some((c, s))) => {
                if !changed {
                    let r = block_ref_exec(c, block + 1, *s, i - 1);
                    refs.push(r);
                    assert(ref_views(refs@) =~= ref_views(prev).push(r@));
                    block = block + 1;
                    cur = None;
                }
            },
            (None, None) => {},
        }
        let ghost cprev = copy@;
        let rc = clone_row(row);
        copy.push(rc);
        assert(row_views(copy@) =~= row_views(cprev).push(rv[i as int]));
        i = i + 1;
    }
    assert(rv.take(rows.len() as int) == rv);
    proof {
        lemma_blocks_fold_wf(rv);
        law_blocks_well_formed(rv);
    }
    match cur {
        Some((c, s)) => {
            let end = if rows.len() > 0 {
                rows.len() - 1
            } else {
                0
            };
            let r = block_ref_exec(&c, block + 1, s, end);
            let ghost prev = refs@;
            refs.push(r);
            assert(ref_views(refs@) =~= ref_views(prev).push(r@));
        },
        None => {},
    }
    RenderedDiffModel { filediff_id: string_from(&chars_of(filediff_id)), rows: copy, hunks: refs }
}

} // verus!
