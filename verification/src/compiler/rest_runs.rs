//! Collapsing runs of consecutive all-rest measures into single
//! `MultiMeasureRest` blocks.

use super::types::{
    BlockView, ColumnElement, ContentView, ElementContent, ElementView, MeasureBlock, MeasureRow,
    RowView, MULTI_MEASURE_REST_WIDTH, blocks_view, elements_view, first_note_id_of, lemma_rows_view,
    rows_view,
};
use super::{is_rest_filled, part_rest_filled};
use super::types::{RowId, clone_rows};
use crate::desugar::lines::clone_opt_string;
use crate::ast::grouped::MultiPartMeasure;
use crate::error::Span;
use vstd::prelude::*;

verus! {

/// Shortest run of all-rest measures that gets collapsed.
pub const MIN_REST_RUN_LENGTH: usize = 2;

/// The measure carries no time, tempo or key directive (the first measure's
/// implied signature does not count).
pub open spec fn carries_no_directive(m: MultiPartMeasure, i: int) -> bool {
    i == 0 || !(m.time_signature is Some || m.bpm is Some || m.key is Some)
}

/// A measure can join a rest run: every part only rests, it changes no
/// directive, and it has no diagnostics.
pub open spec fn collapsible(m: MultiPartMeasure, i: int, b: BlockView) -> bool {
    &&& forall|p: int| 0 <= p < m.parts@.len() ==> #[trigger] part_rest_filled(m, p)
    &&& carries_no_directive(m, i)
    &&& b.diagnostics.len() == 0
}

/// Run ids handed out over a prefix of the measures.
pub struct RunScan {
    pub next_id: int,
    pub in_run: bool,
    pub prev: Option<(bool, bool)>,
    pub ids: Seq<Option<usize>>,
}

/// One measure's run id: none when it cannot collapse; otherwise the
/// current run's, or a fresh one when it carries a label or a system break,
/// or changes the merge/hide settings of the run it follows.
pub open spec fn scan_step(s: RunScan, m: MultiPartMeasure, i: int, b: BlockView) -> RunScan {
    if !collapsible(m, i, b) {
        RunScan { next_id: s.next_id, in_run: false, prev: None, ids: s.ids.push(None) }
    } else {
        let settings = (m.merge_duplicate_measures_across_parts, m.hide_resting_parts);
        let next = if s.in_run && (m.label is Some || m.system_break || s.prev != Some(settings)) {
            s.next_id + 1
        } else {
            s.next_id
        };
        RunScan { next_id: next, in_run: true, prev: Some(settings), ids: s.ids.push(Some(next as usize)) }
    }
}

pub open spec fn scan_upto(ms: Seq<MultiPartMeasure>, bs: Seq<BlockView>, n: int) -> RunScan
    decreases n,
{
    if n <= 0 {
        RunScan { next_id: 0, in_run: false, prev: None, ids: Seq::empty() }
    } else {
        scan_step(scan_upto(ms, bs, n - 1), ms[n - 1], n - 1, bs[n - 1])
    }
}

pub open spec fn run_ids(ms: Seq<MultiPartMeasure>, bs: Seq<BlockView>) -> Seq<Option<usize>> {
    scan_upto(ms, bs, ms.len() as int).ids
}

/// The end (exclusive) of the maximal run of equal ids starting at `i`.
pub open spec fn run_end(ids: Seq<Option<usize>>, i: int) -> int
    decreases ids.len() - i,
{
    if i + 1 < ids.len() && ids[i + 1] == ids[i] {
        run_end(ids, i + 1)
    } else {
        i + 1
    }
}

pub proof fn lemma_run_end(ids: Seq<Option<usize>>, i: int)
    requires
        0 <= i < ids.len(),
    ensures
        i < run_end(ids, i) <= ids.len(),
        forall|k: int| i <= k < run_end(ids, i) ==> #[trigger] ids[k] == ids[i],
        run_end(ids, i) < ids.len() ==> ids[run_end(ids, i)] != ids[i],
    decreases ids.len() - i,
{
    if i + 1 < ids.len() && ids[i + 1] == ids[i] {
        lemma_run_end(ids, i + 1);
    }
}

/// A run of equal ids from `i` to `e` that cannot be extended ends at
/// `run_end(ids, i)`.
proof fn lemma_run_end_unique(ids: Seq<Option<usize>>, i: int, e: int)
    requires
        0 <= i < e <= ids.len(),
        forall|k: int| i <= k < e ==> #[trigger] ids[k] == ids[i],
        e < ids.len() ==> ids[e] != ids[i],
    ensures
        run_end(ids, i) == e,
    decreases e - i,
{
    if i + 1 < e {
        assert(ids[i + 1] == ids[i]);
        lemma_run_end_unique(ids, i + 1, e);
    }
}

pub open spec fn span_union(run: Seq<BlockView>) -> Span
    decreases run.len(),
{
    if run.len() == 0 {
        Span { start: 0, end: 0 }
    } else if run.len() == 1 {
        run[0].source_span
    } else {
        let a = span_union(run.drop_last());
        let b = run.last().source_span;
        Span {
            start: if a.start <= b.start {
                a.start
            } else {
                b.start
            },
            end: if a.end >= b.end {
                a.end
            } else {
                b.end
            },
        }
    }
}

/// A row of a collapsed run: one multi-measure rest glyph at column 0,
/// keeping the row's first note id, and a bar line at the collapsed width.
pub open spec fn merged_row(r: RowView, count: usize) -> RowView {
    RowView {
        elements: seq![
            ElementView {
                column: 0,
                content: ContentView::MultiMeasureRest { count },
                note_id: first_note_id_of(r.elements),
            },
            ElementView { column: MULTI_MEASURE_REST_WIDTH, content: ContentView::BarLine, note_id: None },
        ],
        ..r
    }
}

/// The block standing for a run of measures: the first block's rows
/// collapsed, its decorations and settings, no diagnostics, and the source
/// span covering the whole run.
pub open spec fn merged_block(run: Seq<BlockView>) -> BlockView {
    let first = run[0];
    BlockView {
        rows: first.rows.map_values(|r: RowView| merged_row(r, run.len() as usize)),
        decorations: first.decorations,
        diagnostics: Seq::empty(),
        represents_measures: run.len() as usize,
        merge_duplicate_measures_across_parts: first.merge_duplicate_measures_across_parts,
        system_break: first.system_break,
        source_span: span_union(run),
    }
}

/// Blocks and measure-to-block map from position `p` on: a run of two or
/// more collapsible measures becomes one merged block; any other run keeps
/// its blocks.
pub open spec fn merge_from(
    ids: Seq<Option<usize>>,
    bs: Seq<BlockView>,
    p: int,
    out: Seq<BlockView>,
    map: Seq<usize>,
) -> (Seq<BlockView>, Seq<usize>)
    decreases ids.len() - p,
{
    if p < 0 || p >= ids.len() {
        (out, map)
    } else {
        proof {
            lemma_run_end(ids, p);
        }
        let e = run_end(ids, p);
        let run = bs.subrange(p, e);
        if ids[p] is Some && e - p >= MIN_REST_RUN_LENGTH {
            merge_from(
                ids,
                bs,
                e,
                out.push(merged_block(run)),
                map + Seq::new((e - p) as nat, |k: int| out.len() as usize),
            )
        } else {
            merge_from(
                ids,
                bs,
                e,
                out + run,
                map + Seq::new((e - p) as nat, |k: int| (out.len() + k) as usize),
            )
        }
    }
}

pub open spec fn merged_runs(ms: Seq<MultiPartMeasure>, bs: Seq<BlockView>) -> (Seq<BlockView>, Seq<usize>) {
    merge_from(run_ids(ms, bs), bs, 0, Seq::empty(), Seq::empty())
}

/// The concatenation of groups.
pub open spec fn flatten_groups(g: Seq<Seq<Option<usize>>>) -> Seq<Option<usize>>
    decreases g.len(),
{
    if g.len() == 0 {
        Seq::empty()
    } else {
        flatten_groups(g.drop_last()) + g.last()
    }
}

/// `Itertools::chunk_by` over the run ids, keyed by the id itself, each
/// group collected. Per its documentation, consecutive elements with the
/// same key form one group: the groups are non-empty, concatenate back to
/// the input, hold one key each, and neighbouring groups have different
/// keys.
#[verifier::external_body]
fn chunk_run_ids(ids: &Vec<Option<usize>>) -> (groups: Vec<Vec<Option<usize>>>)
    ensures
        flatten_groups(groups@.map_values(|g: Vec<Option<usize>>| g@)) == ids@,
        forall|g: int| 0 <= g < groups@.len() ==> #[trigger] groups@[g]@.len() > 0,
        forall|g: int, a: int|
            0 <= g < groups@.len() && 0 <= a < groups@[g]@.len() ==> #[trigger] groups@[g]@[a]
                == groups@[g]@[0],
        forall|g: int|
            0 <= g < groups@.len() - 1 ==> #[trigger] groups@[g]@[0] != groups@[g + 1]@[0],
{
    let chunks = itertools::Itertools::chunk_by(ids.iter(), |id: &&Option<usize>| **id);
    let groups = (&chunks).into_iter().map(|(_, group)| group.copied().collect()).collect();
    groups
}

/// Concatenating groups splits at every group boundary.
proof fn lemma_flatten_split(g: Seq<Seq<Option<usize>>>, k: int)
    requires
        0 <= k <= g.len(),
    ensures
        flatten_groups(g) == flatten_groups(g.take(k)) + flatten_groups(g.skip(k)),
    decreases g.len(),
{
    if k == g.len() {
        assert(g.take(k) =~= g);
        assert(g.skip(k) =~= Seq::<Seq<Option<usize>>>::empty());
        assert(flatten_groups(g) + Seq::<Option<usize>>::empty() =~= flatten_groups(g));
    } else {
        let d = g.drop_last();
        lemma_flatten_split(d, k);
        assert(d.take(k) =~= g.take(k));
        assert(g.skip(k).drop_last() =~= d.skip(k));
        assert(g.skip(k).last() == g.last());
        assert(flatten_groups(g.skip(k)) == flatten_groups(d.skip(k)) + g.last());
        assert(flatten_groups(g) == flatten_groups(d) + g.last());
        assert((flatten_groups(g.take(k)) + flatten_groups(d.skip(k))) + g.last() =~= flatten_groups(
            g.take(k),
        ) + (flatten_groups(d.skip(k)) + g.last()));
    }
}

/// Group `k` sits in the concatenation right after the groups before it.
proof fn lemma_group_position(g: Seq<Seq<Option<usize>>>, k: int)
    requires
        0 <= k < g.len(),
    ensures
        flatten_groups(g.take(k + 1)) == flatten_groups(g.take(k)) + g[k],
        flatten_groups(g).subrange(
            flatten_groups(g.take(k)).len() as int,
            (flatten_groups(g.take(k)).len() + g[k].len()) as int,
        ) == g[k],
        flatten_groups(g.take(k)).len() + g[k].len() <= flatten_groups(g).len(),
{
    assert(g.take(k + 1).drop_last() =~= g.take(k));
    lemma_flatten_split(g, k + 1);
    let a = flatten_groups(g.take(k));
    let b = flatten_groups(g.skip(k + 1));
    assert(flatten_groups(g) == (a + g[k]) + b);
    assert(flatten_groups(g).subrange(a.len() as int, (a.len() + g[k].len()) as int) =~= g[k]);
}

fn is_collapsible(measure: &MultiPartMeasure, measure_index: usize, block: &MeasureBlock) -> (b: bool)
    ensures
        b == collapsible(*measure, measure_index as int, block@),
{
    let mut all_rest = true;
    for p in 0..measure.parts.len()
        invariant
            all_rest == forall|q: int| 0 <= q < p ==> #[trigger] part_rest_filled(*measure, q),
    {
        let rf = is_rest_filled(&measure.parts[p]);
        assert(rf == part_rest_filled(*measure, p as int));
        if !rf {
            all_rest = false;
        }
    }
    all_rest && measure_carries_no_directive(measure, measure_index) && block.diagnostics.len() == 0
}

/// The first measure's implied signature does not keep it from collapsing;
/// any other measure's time, tempo or key directive does.
fn measure_carries_no_directive(measure: &MultiPartMeasure, measure_index: usize) -> (b: bool)
    ensures
        b == carries_no_directive(*measure, measure_index as int),
{
    let carries_initial_signature = measure.time_signature.is_some() || measure.bpm.is_some()
        || measure.key.is_some();
    measure_index == 0 || !carries_initial_signature
}

fn measure_run_ids(measures: &Vec<MultiPartMeasure>, blocks: &Vec<MeasureBlock>) -> (ids: Vec<Option<usize>>)
    requires
        measures@.len() == blocks@.len(),
    ensures
        ids@ == run_ids(measures@, blocks_view(blocks@)),
        ids@.len() == measures@.len(),
{
    let ghost bs = blocks_view(blocks@);
    let mut next_run_id: usize = 0;
    let mut in_run = false;
    let mut prev_settings: Option<(bool, bool)> = None;
    let mut ids: Vec<Option<usize>> = Vec::new();
    for i in 0..measures.len()
        invariant
            measures@.len() == blocks@.len(),
            bs == blocks_view(blocks@),
            next_run_id <= i,
            ({
                let s = scan_upto(measures@, bs, i as int);
                &&& s.next_id == next_run_id
                &&& s.in_run == in_run
                &&& s.prev == prev_settings
                &&& s.ids == ids@
            }),
            ids@.len() == i,
    {
        assert(bs[i as int] == blocks@[i as int]@);
        let measure = &measures[i];
        if !is_collapsible(measure, i, &blocks[i]) {
            in_run = false;
            prev_settings = None;
            ids.push(None);
        } else {
            let settings = (measure.merge_duplicate_measures_across_parts, measure.hide_resting_parts);
            let changed = match prev_settings {
                Some(p) => p.0 != settings.0 || p.1 != settings.1,
                None => true,
            };
            if in_run && (measure.label.is_some() || measure.system_break || changed) {
                next_run_id = next_run_id + 1;
            }
            in_run = true;
            prev_settings = Some(settings);
            ids.push(Some(next_run_id));
        }
    }
    ids
}

fn empty_block() -> (b: MeasureBlock)
    ensures
        b.rows@.len() == 0,
        b.decorations@.len() == 0,
        b.diagnostics@.len() == 0,
        b.represents_measures == 0,
        !b.merge_duplicate_measures_across_parts,
        !b.system_break,
        b.source_span.start == 0 && b.source_span.end == 0,
{
    MeasureBlock {
        rows: Vec::new(),
        decorations: Vec::new(),
        diagnostics: Vec::new(),
        represents_measures: 0,
        merge_duplicate_measures_across_parts: false,
        system_break: false,
        source_span: Span::new(0, 0),
    }
}

/// Moves block `i` out, leaving an empty block in its place.
fn take_block(blocks: &mut Vec<MeasureBlock>, i: usize) -> (b: MeasureBlock)
    requires
        i < old(blocks)@.len(),
    ensures
        b == old(blocks)@[i as int],
        final(blocks)@.len() == old(blocks)@.len(),
        forall|k: int| 0 <= k < old(blocks)@.len() && k != i ==> final(blocks)@[k] == old(blocks)@[k],
{
    let mut b = empty_block();
    std::mem::swap(&mut b, &mut blocks[i]);
    b
}

fn merged_row_of(row: &MeasureRow, count: usize) -> (r: MeasureRow)
    ensures
        r@ == merged_row(row@, count),
{
    let elements = vec![
        ColumnElement {
            column: 0,
            content: ElementContent::MultiMeasureRest { count },
            note_id: row.first_note_id(),
        },
        ColumnElement { column: MULTI_MEASURE_REST_WIDTH, content: ElementContent::BarLine, note_id: None },
    ];
    let r = MeasureRow {
        id: RowId(row.id.0.clone()),
        label: row.label.clone(),
        elements,
        source_part_index: row.source_part_index,
        group_provenance: clone_opt_string(&row.group_provenance),
        absorbed_rows: clone_rows(&row.absorbed_rows),
    };
    assert(elements_view(r.elements@) =~= merged_row(row@, count).elements);
    r
}

/// The block standing for `blocks[p .. p + count]`, the first of which is
/// moved out.
fn merge_rest_run(blocks: &mut Vec<MeasureBlock>, p: usize, count: usize) -> (b: MeasureBlock)
    requires
        count >= 1,
        p + count <= old(blocks)@.len(),
    ensures
        b@ == merged_block(blocks_view(old(blocks)@).subrange(p as int, p + count)),
        final(blocks)@.len() == old(blocks)@.len(),
        forall|k: int| 0 <= k < old(blocks)@.len() && k != p ==> final(blocks)@[k] == old(blocks)@[k],
{
    let ghost run = blocks_view(blocks@).subrange(p as int, p + count);
    let mut source_span = blocks[p].source_span;
    let n = blocks.len();
    let mut i: usize = 1;
    assert(run.take(1) =~= seq![run[0]]);
    while i < count
        invariant
            1 <= i <= count,
            p + count <= blocks@.len(),
            n == blocks@.len(),
            run == blocks_view(blocks@).subrange(p as int, p + count),
            source_span == span_union(run.take(i as int)),
        decreases count - i,
    {
        let s = blocks[p + i].source_span;
        assert(run.take(i + 1).drop_last() =~= run.take(i as int));
        assert(run[i as int] == blocks@[p + i]@);
        source_span = Span::new(
            if source_span.start <= s.start {
                source_span.start
            } else {
                s.start
            },
            if source_span.end >= s.end {
                source_span.end
            } else {
                s.end
            },
        );
        i = i + 1;
    }
    assert(run.take(count as int) =~= run);
    let first = take_block(blocks, p);
    assert(run[0] == first@);
    let mut rows: Vec<MeasureRow> = Vec::new();
    proof {
        lemma_rows_view(first.rows@);
    }
    for j in 0..first.rows.len()
        invariant
            rows_view(rows@) == rows_view(first.rows@).take(j as int).map_values(
                |r: RowView| merged_row(r, count),
            ),
            rows_view(first.rows@).len() == first.rows@.len(),
            forall|k: int| 0 <= k < first.rows@.len() ==> #[trigger] rows_view(first.rows@)[k] == first.rows@[k]@,
    {
        let ghost before = rows@;
        rows.push(merged_row_of(&first.rows[j], count));
        proof {
            lemma_rows_view(rows@);
            lemma_rows_view(before);
            assert(rows_view(rows@) =~= rows_view(before).push(merged_row(first.rows@[j as int]@, count)));
            assert(rows_view(first.rows@).take(j + 1) =~= rows_view(first.rows@).take(j as int).push(
                first.rows@[j as int]@,
            ));
            assert(rows_view(first.rows@).take(j + 1).map_values(|r: RowView| merged_row(r, count))
                =~= rows_view(first.rows@).take(j as int).map_values(|r: RowView| merged_row(r, count)).push(
                merged_row(first.rows@[j as int]@, count),
            ));
        }
    }
    assert(rows_view(first.rows@).take(first.rows@.len() as int) =~= rows_view(first.rows@));
    let b = MeasureBlock {
        rows,
        decorations: first.decorations,
        diagnostics: Vec::new(),
        represents_measures: count,
        merge_duplicate_measures_across_parts: first.merge_duplicate_measures_across_parts,
        system_break: first.system_break,
        source_span,
    };
    assert(b@.diagnostics =~= Seq::<crate::error::DiagnosticView>::empty());
    b
}

pub open spec fn groups_view(g: Seq<Vec<Option<usize>>>) -> Seq<Seq<Option<usize>>> {
    g.map_values(|v: Vec<Option<usize>>| v@)
}

/// Collapses runs of two or more consecutive collapsible measures (split by
/// labels and by changes of the merge/hide settings) into single blocks.
/// Returns the blocks and, for each measure, the index of the block it
/// ended up in.
pub fn merge_rest_runs(measures: &Vec<MultiPartMeasure>, blocks: Vec<MeasureBlock>) -> (r: (
    Vec<MeasureBlock>,
    Vec<usize>,
))
    requires
        measures@.len() == blocks@.len(),
    ensures
        (blocks_view(r.0@), r.1@) == merged_runs(measures@, blocks_view(blocks@)),
{
    let ghost bs = blocks_view(blocks@);
    let ghost orig = blocks@;
    let ids = measure_run_ids(measures, &blocks);
    let groups = chunk_run_ids(&ids);
    let ghost gv = groups_view(groups@);
    let ghost ids_v = ids@;
    let ghost total = merge_from(ids_v, bs, 0, Seq::empty(), Seq::empty());
    let n = blocks.len();
    let mut blocks = blocks;
    let mut merged: Vec<MeasureBlock> = Vec::new();
    let mut map: Vec<usize> = Vec::new();
    let mut p: usize = 0;
    proof {
        assert(gv.take(0) =~= Seq::<Seq<Option<usize>>>::empty());
        assert(blocks_view(merged@) =~= Seq::<BlockView>::empty());
    }
    for g in 0..groups.len()
        invariant
            gv == groups_view(groups@),
            flatten_groups(gv) == ids_v,
            forall|x: int| 0 <= x < groups@.len() ==> #[trigger] groups@[x]@.len() > 0,
            forall|x: int, a: int|
                0 <= x < groups@.len() && 0 <= a < groups@[x]@.len() ==> #[trigger] groups@[x]@[a]
                    == groups@[x]@[0],
            forall|x: int| 0 <= x < groups@.len() - 1 ==> #[trigger] groups@[x]@[0] != groups@[x + 1]@[0],
            ids_v == ids@,
            ids_v.len() == orig.len(),
            n == orig.len(),
            merged@.len() <= p,
            bs == blocks_view(orig),
            p == flatten_groups(gv.take(g as int)).len(),
            blocks@.len() == orig.len(),
            forall|k: int| p <= k < orig.len() ==> #[trigger] blocks@[k] == orig[k],
            merge_from(ids_v, bs, p as int, blocks_view(merged@), map@) == total,
    {
        proof {
            lemma_group_position(gv, g as int);
        }
        let len = groups[g].len();
        assert(gv[g as int] == groups@[g as int]@);
        let ghost e = p + len;
        proof {
            assert(ids_v.subrange(p as int, e) == groups@[g as int]@);
            assert forall|k: int| p <= k < e implies #[trigger] ids_v[k] == ids_v[p as int] by {
                assert(ids_v[k] == groups@[g as int]@[k - p]);
                assert(ids_v[p as int] == groups@[g as int]@[0]);
            }
            if e < ids_v.len() {
                assert(g + 1 < groups@.len()) by {
                    if g + 1 == groups@.len() {
                        assert(gv.take(g + 1) =~= gv);
                    }
                }
                lemma_group_position(gv, g + 1);
                assert(flatten_groups(gv.take(g + 1)).len() == e);
                assert(ids_v[e] == groups@[g + 1]@[0]);
                assert(ids_v[p as int] == groups@[g as int]@[0]);
            }
            lemma_run_end_unique(ids_v, p as int, e);
            lemma_run_end(ids_v, p as int);
        }
        let block_index = merged.len();
        let ghost out = blocks_view(merged@);
        let ghost mp = map@;
        let ghost run = bs.subrange(p as int, e);
        assert(blocks_view(blocks@).subrange(p as int, e) =~= run);
        if groups[g][0].is_some() && len >= MIN_REST_RUN_LENGTH {
            assert(ids_v[p as int] == groups@[g as int]@[0]);
            let block = merge_rest_run(&mut blocks, p, len);
            merged.push(block);
            assert(blocks_view(merged@) =~= out.push(merged_block(run)));
            let mut c: usize = 0;
            while c < len
                invariant
                    c <= len,
                    map@ == mp + Seq::new(c as nat, |k: int| block_index),
                decreases len - c,
            {
                map.push(block_index);
                assert(map@ =~= mp + Seq::new((c + 1) as nat, |k: int| block_index));
                c = c + 1;
            }
            assert(out.len() == block_index);
        } else {
            assert(!(ids_v[p as int] is Some && len >= MIN_REST_RUN_LENGTH));
            let mut c: usize = 0;
            while c < len
                invariant
                    c <= len,
                    p + len <= orig.len(),
                    n == orig.len(),
                    block_index == out.len(),
                    block_index <= p,
                    blocks@.len() == orig.len(),
                    forall|k: int| p + c <= k < orig.len() ==> #[trigger] blocks@[k] == orig[k],
                    blocks_view(merged@) == out + run.take(c as int),
                    map@ == mp + Seq::new(c as nat, |k: int| (out.len() + k) as usize),
                    run == bs.subrange(p as int, p + len),
                    bs == blocks_view(orig),
                decreases len - c,
            {
                let ghost mb = blocks_view(merged@);
                let b = take_block(&mut blocks, p + c);
                assert(b@ == run[c as int]);
                merged.push(b);
                assert(blocks_view(merged@) =~= mb.push(run[c as int]));
                assert(run.take(c + 1) =~= run.take(c as int).push(run[c as int]));
                assert(blocks_view(merged@) =~= out + run.take(c + 1));
                map.push(block_index + c);
                assert(map@ =~= mp + Seq::new((c + 1) as nat, |k: int| (out.len() + k) as usize));
                c = c + 1;
            }
            assert(run.take(len as int) =~= run);
        }
        p = p + len;
    }
    proof {
        assert(gv.take(groups@.len() as int) =~= gv);
    }
    (merged, map)
}

/// The number of source measures a sequence of blocks stands for.
pub open spec fn represented(bs: Seq<BlockView>) -> int
    decreases bs.len(),
{
    if bs.len() == 0 {
        0
    } else {
        represented(bs.drop_last()) + bs.last().represents_measures
    }
}

proof fn lemma_represented_add(a: Seq<BlockView>, b: Seq<BlockView>)
    ensures
        represented(a + b) == represented(a) + represented(b),
    decreases b.len(),
{
    if b.len() > 0 {
        lemma_represented_add(a, b.drop_last());
        assert((a + b).drop_last() =~= a + b.drop_last());
    } else {
        assert(a + b =~= a);
    }
}

proof fn lemma_represented_ones(bs: Seq<BlockView>)
    requires
        forall|i: int| 0 <= i < bs.len() ==> #[trigger] bs[i].represents_measures == 1,
    ensures
        represented(bs) == bs.len(),
    decreases bs.len(),
{
    if bs.len() > 0 {
        lemma_represented_ones(bs.drop_last());
    }
}

/// Every map entry points at an existing block, and entries never decrease.
pub open spec fn map_ok(map: Seq<usize>, blocks: int) -> bool {
    &&& forall|i: int| 0 <= i < map.len() ==> #[trigger] map[i] < blocks
    &&& forall|i: int, j: int| 0 <= i <= j < map.len() ==> #[trigger] map[i] <= #[trigger] map[j]
}

proof fn lemma_merge_from_accounts(
    ids: Seq<Option<usize>>,
    bs: Seq<BlockView>,
    p: int,
    out: Seq<BlockView>,
    map: Seq<usize>,
)
    requires
        ids.len() == bs.len(),
        bs.len() <= usize::MAX,
        0 <= p <= ids.len(),
        forall|i: int| 0 <= i < bs.len() ==> #[trigger] bs[i].represents_measures == 1,
        represented(out) == p,
        map.len() == p,
        out.len() <= p,
        map_ok(map, out.len() as int),
    ensures
        ({
            let (o, m) = merge_from(ids, bs, p, out, map);
            &&& represented(o) == ids.len()
            &&& m.len() == ids.len()
            &&& o.len() <= ids.len()
            &&& map_ok(m, o.len() as int)
        }),
    decreases ids.len() - p,
{
    if p < ids.len() {
        lemma_run_end(ids, p);
        let e = run_end(ids, p);
        let run = bs.subrange(p, e);
        assert forall|i: int| 0 <= i < run.len() implies #[trigger] run[i].represents_measures == 1 by {
            assert(run[i] == bs[p + i]);
        }
        lemma_represented_ones(run);
        if ids[p] is Some && e - p >= MIN_REST_RUN_LENGTH {
            let out2 = out.push(merged_block(run));
            let map2 = map + Seq::new((e - p) as nat, |k: int| out.len() as usize);
            assert(out2.drop_last() == out);
            assert(map_ok(map2, out2.len() as int)) by {
                assert forall|i: int, j: int| 0 <= i <= j < map2.len() implies #[trigger] map2[i]
                    <= #[trigger] map2[j] by {
                    if j >= map.len() {
                        assert(map2[j] == out.len());
                    }
                }
            }
            lemma_merge_from_accounts(ids, bs, e, out2, map2);
        } else {
            let out2 = out + run;
            let map2 = map + Seq::new((e - p) as nat, |k: int| (out.len() + k) as usize);
            lemma_represented_add(out, run);
            assert(map_ok(map2, out2.len() as int)) by {
                assert forall|i: int, j: int| 0 <= i <= j < map2.len() implies #[trigger] map2[i]
                    <= #[trigger] map2[j] by {
                    if i >= map.len() {
                        assert(map2[i] == out.len() + (i - map.len()));
                        assert(map2[j] == out.len() + (j - map.len()));
                    } else if j >= map.len() {
                        assert(map2[j] == out.len() + (j - map.len()));
                    }
                }
            }
            lemma_merge_from_accounts(ids, bs, e, out2, map2);
        }
    }
}

/// Collapsing rest runs loses no measure: the blocks stand for exactly the
/// measures there were, there are no more blocks than measures, and every
/// measure maps, in order, to an existing block.
pub proof fn lemma_rest_runs_account_for_measures(ms: Seq<MultiPartMeasure>, bs: Seq<BlockView>)
    requires
        ms.len() == bs.len(),
        bs.len() <= usize::MAX,
        forall|i: int| 0 <= i < bs.len() ==> #[trigger] bs[i].represents_measures == 1,
    ensures
        ({
            let (o, m) = merged_runs(ms, bs);
            &&& represented(o) == ms.len()
            &&& o.len() <= ms.len()
            &&& m.len() == ms.len()
            &&& map_ok(m, o.len() as int)
        }),
{
    lemma_scan_len(ms, bs, ms.len() as int);
    lemma_merge_from_accounts(run_ids(ms, bs), bs, 0, Seq::empty(), Seq::empty());
}

proof fn lemma_scan_len(ms: Seq<MultiPartMeasure>, bs: Seq<BlockView>, n: int)
    requires
        0 <= n,
    ensures
        scan_upto(ms, bs, n).ids.len() == n,
    decreases n,
{
    if n > 0 {
        lemma_scan_len(ms, bs, n - 1);
    }
}

} // verus!
