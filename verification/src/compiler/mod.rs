//! Compilation of a grouped score into measure blocks: rows of
//! column-positioned glyphs per visible part, with slur/tie and tuplet spans,
//! and collapsing of runs of all-rest measures.

pub mod types;
mod beam;
mod slur_chains;
mod tuplet_spans;
mod part_slice_unit;
mod timed_unit;
pub mod part_slice;
mod rest_runs;


pub use types::{
    ArcKind, BlockView, ColumnElement, CompileResult, ContentView, Decoration, DecorationView,
    ElementContent, ElementView, MeasureBlock, MeasureRow, RowId, RowView, SlurSpan, TupletSpan,
    TupletSpanView, MULTI_MEASURE_REST_WIDTH,
};

use crate::ast::grouped::{MultiPartMeasure, NoteEvent, PartRow, PartSlice, Score, row_slice};
use crate::ast::grouped_notes::accidental_text;
use crate::ast::parsed::{Accidental, KeyChange, NoteName};
use crate::desugar::lines::{clone_opt_string, opt_str_view};
use crate::text::{decimal, push_decimal};
use part_slice::{
    PartSliceInput, SliceInputView, compile_part_slice, events_fit, lemma_slice_compiled,
    lemma_slice_spans_in_measure, slice_compiled, slice_grid_ok, slice_ok,
};
use rest_runs::{lemma_rest_runs_account_for_measures, map_ok, merge_rest_runs, merged_runs, represented};
use slur_chains::{CrossModel, PartCrossState, initial_cross, opens_before, spans_end_at};
use tuplet_spans::tuplets_at;
use types::{
    blocks_view, clone_diagnostics, diagnostics_view, elements_view, rows_view, tuplets_view,
    lemma_rows_view,
};
use vstd::prelude::*;

verus! {

/// Every event of the slice is a rest, and there is at least one.
pub open spec fn rest_filled(slice: PartSlice) -> bool {
    &&& slice.notes.events@.len() > 0
    &&& forall|i: int| 0 <= i < slice.notes.events@.len() ==> #[trigger] slice.notes.events@[i] is Rest
}

pub open spec fn part_rest_filled(m: MultiPartMeasure, i: int) -> bool {
    rest_filled(row_slice(m.parts@[i]))
}

/// Some part of the measure has content other than rests.
pub open spec fn has_sounding_part(m: MultiPartMeasure) -> bool {
    exists|i: int| 0 <= i < m.parts@.len() && !part_rest_filled(m, i)
}

/// A part is hidden when the measure hides resting parts, the part only
/// rests, and some other part has real content.
pub open spec fn part_hidden(m: MultiPartMeasure, i: int) -> bool {
    m.hide_resting_parts && has_sounding_part(m) && part_rest_filled(m, i)
}

/// The indices of the measure's parts that are not hidden, in order, among
/// the first `n`.
pub open spec fn visible_upto(m: MultiPartMeasure, n: int) -> Seq<usize>
    decreases n,
{
    if n <= 0 {
        Seq::empty()
    } else if part_hidden(m, n - 1) {
        visible_upto(m, n - 1)
    } else {
        visible_upto(m, n - 1).push((n - 1) as usize)
    }
}

pub open spec fn visible_parts(m: MultiPartMeasure) -> Seq<usize> {
    visible_upto(m, m.parts@.len() as int)
}

pub(crate) fn is_rest_filled(part_row: &PartRow) -> (b: bool)
    ensures
        b == rest_filled(row_slice(*part_row)),
{
    let events = &part_row.slice().notes.events;
    if events.len() == 0 {
        return false;
    }
    let mut i: usize = 0;
    while i < events.len()
        invariant
            i <= events@.len(),
            *events == row_slice(*part_row).notes.events,
            forall|j: int| 0 <= j < i ==> #[trigger] events@[j] is Rest,
        decreases events@.len() - i,
    {
        match events[i] {
            NoteEvent::Rest(_) => {},
            _ => {
                return false;
            },
        }
        i = i + 1;
    }
    true
}

/// The indices of the parts compiled for this measure: all of them, less
/// the all-rest parts when `hide_resting_parts` is on and some part has
/// real content.
pub fn visible_part_indices(measure: &MultiPartMeasure) -> (v: Vec<usize>)
    ensures
        v@ == visible_parts(*measure),
{
    let n = measure.parts.len();
    let mut sounding = false;
    for i in 0..n
        invariant
            n == measure.parts@.len(),
            sounding == exists|j: int| 0 <= j < i && !part_rest_filled(*measure, j),
    {
        if !is_rest_filled(&measure.parts[i]) {
            assert(!part_rest_filled(*measure, i as int));
            sounding = true;
        }
    }
    let hiding = measure.hide_resting_parts && sounding;
    let mut v: Vec<usize> = Vec::new();
    for i in 0..n
        invariant
            n == measure.parts@.len(),
            hiding == (measure.hide_resting_parts && has_sounding_part(*measure)),
            v@ == visible_upto(*measure, i as int),
    {
        if !(hiding && is_rest_filled(&measure.parts[i])) {
            v.push(i);
        }
    }
    v
}

pub open spec fn note_name_char(n: NoteName) -> char {
    match n {
        NoteName::A => 'A',
        NoteName::B => 'B',
        NoteName::C => 'C',
        NoteName::D => 'D',
        NoteName::E => 'E',
        NoteName::F => 'F',
        NoteName::G => 'G',
    }
}

/// A key as displayed: `1=` then the note name and its accidental glyph.
pub open spec fn key_text(key: KeyChange) -> Seq<char> {
    "1="@ + seq![note_name_char(key.note.name)] + accidental_text(key.note.accidental)
}

fn format_key(key: &KeyChange) -> (s: String)
    ensures
        s@ == key_text(*key),
{
    let name = match key.note.name {
        NoteName::A => 'A',
        NoteName::B => 'B',
        NoteName::C => 'C',
        NoteName::D => 'D',
        NoteName::E => 'E',
        NoteName::F => 'F',
        NoteName::G => 'G',
    };
    let accidental = match key.note.accidental {
        Accidental::Natural => "",
        Accidental::Sharp => "\u{266f}",
        Accidental::Flat => "\u{266d}",
    };
    let mut s = String::from_str("1=");
    crate::text::push_char(&mut s, name);
    s.append(accidental);
    proof {
        reveal_strlit("1=");
        reveal_strlit("");
        reveal_strlit("\u{266f}");
        reveal_strlit("\u{266d}");
        reveal_strlit("♯");
        reveal_strlit("♭");
        assert(s@ =~= key_text(*key));
    }
    s
}

/// The directive line shown above a measure.
pub open spec fn directive_line(m: MultiPartMeasure, bar_number: usize) -> DecorationView {
    DecorationView {
        label: opt_str_view(m.label),
        bar_number: Some(bar_number as u32),
        key: match m.key {
            Some(k) => Some(key_text(k)),
            None => None,
        },
        bpm: m.bpm,
        time_signature: match m.time_signature {
            Some(ts) => Some((ts.numerator as u32, ts.denominator as u32)),
            None => None,
        },
    }
}

fn collect_decorations(measure: &MultiPartMeasure, bar_number: usize) -> (v: Vec<Decoration>)
    ensures
        v@.map_values(|d: Decoration| d@) == seq![directive_line(*measure, bar_number)],
{
    let d = Decoration::DirectiveLine {
        label: clone_opt_string(&measure.label),
        bar_number: Some(bar_number as u32),
        key: match &measure.key {
            Some(k) => Some(format_key(k)),
            None => None,
        },
        bpm: measure.bpm,
        time_signature: match &measure.time_signature {
            Some(ts) => Some((ts.numerator as u32, ts.denominator as u32)),
            None => None,
        },
    };
    let v = vec![d];
    assert(v@.map_values(|d: Decoration| d@) =~= seq![directive_line(*measure, bar_number)]);
    v
}

/// The incoming state a part slice compiles with: a slice with errors drops
/// any incoming tie and open slurs (keeping its note ids running).
pub open spec fn slice_input(slice: PartSlice, cs: CrossModel) -> CrossModel {
    if slice.has_error {
        CrossModel {
            opens: Seq::empty(),
            prev_tie: false,
            prev_tie_column: None,
            prev_tie_measure: None,
            prev_tie_note_id: None,
            next_note_id: cs.next_note_id,
        }
    } else {
        cs
    }
}

/// The outgoing cross-measure state of a compiled slice.
pub open spec fn cross_after(s: part_slice_unit::PartModel) -> CrossModel {
    CrossModel {
        opens: s.opens,
        prev_tie: s.prev_tie,
        prev_tie_column: s.prev_tie_column,
        prev_tie_measure: s.prev_tie_measure,
        prev_tie_note_id: s.prev_tie_note_id,
        next_note_id: s.next_note_id,
    }
}

/// A part's row id: its name, or `__anon_` and its index.
pub open spec fn row_id_text(slice: PartSlice, part_idx: usize) -> Seq<char> {
    match slice.name {
        Some(n) => n@,
        None => "__anon_"@ + decimal(part_idx as nat),
    }
}

pub open spec fn row_label_text(slice: PartSlice) -> Seq<char> {
    match slice.name {
        Some(n) => n@,
        None => Seq::empty(),
    }
}

/// Rows, part states and spans accumulated over a measure's visible parts.
pub struct MeasureAcc {
    pub rows: Seq<RowView>,
    pub cross: Seq<CrossModel>,
    pub slurs: Seq<SlurSpan>,
    pub tuplets: Seq<TupletSpanView>,
}

/// Compiling part `part_idx` of a measure into its row.
pub open spec fn part_step(acc: MeasureAcc, m: MultiPartMeasure, measure_index: usize, part_idx: usize) -> MeasureAcc {
    let slice = row_slice(m.parts@[part_idx as int]);
    let s = slice_compiled(
        slice,
        SliceInputView {
            cross: slice_input(slice, acc.cross[part_idx as int]),
            measure_index,
            part_index: part_idx,
        },
    );
    MeasureAcc {
        rows: acc.rows.push(
            RowView {
                id: row_id_text(slice, part_idx),
                label: row_label_text(slice),
                elements: s.elements,
                source_part_index: part_idx,
                group_provenance: None,
                absorbed: Seq::empty(),
            },
        ),
        cross: acc.cross.update(part_idx as int, cross_after(s)),
        slurs: acc.slurs + s.slurs,
        tuplets: acc.tuplets + s.tuplets,
    }
}

/// Compiling the first `n` visible parts.
pub open spec fn parts_run(acc: MeasureAcc, m: MultiPartMeasure, measure_index: usize, n: int) -> MeasureAcc
    decreases n,
{
    if n <= 0 {
        acc
    } else {
        part_step(parts_run(acc, m, measure_index, n - 1), m, measure_index, visible_parts(m)[n - 1])
    }
}

/// Part states padded with fresh ones to cover every part.
pub open spec fn padded_cross(cross: Seq<CrossModel>, n: int) -> Seq<CrossModel> {
    Seq::new(
        if cross.len() >= n {
            cross.len()
        } else {
            n as nat
        },
        |i: int| if i < cross.len() { cross[i] } else { initial_cross() },
    )
}

/// A compiled measure: the block (rows of its visible parts, its directive
/// line, its diagnostics) and the updated part states and spans.
#[verifier::opaque]
pub open spec fn measure_compiled(
    m: MultiPartMeasure,
    bar_number: usize,
    measure_index: usize,
    cross: Seq<CrossModel>,
) -> (BlockView, MeasureAcc) {
    let acc = parts_run(
        MeasureAcc {
            rows: Seq::empty(),
            cross: padded_cross(cross, m.parts@.len() as int),
            slurs: Seq::empty(),
            tuplets: Seq::empty(),
        },
        m,
        measure_index,
        visible_parts(m).len() as int,
    );
    (
        BlockView {
            rows: acc.rows,
            decorations: seq![directive_line(m, bar_number)],
            diagnostics: diagnostics_view(m.diagnostics@),
            represents_measures: 1,
            merge_duplicate_measures_across_parts: m.merge_duplicate_measures_across_parts,
            system_break: m.system_break,
            source_span: m.source_span,
        },
        acc,
    )
}

pub open spec fn cross_view(v: Seq<PartCrossState>) -> Seq<CrossModel> {
    v.map_values(|c: PartCrossState| c@)
}

/// Every visible part's slice compiles from the part's state.
pub open spec fn measure_ok(m: MultiPartMeasure, cross: Seq<CrossModel>) -> bool {
    forall|j: int|
        0 <= j < visible_parts(m).len() ==> {
            let i = #[trigger] visible_parts(m)[j];
            slice_ok(
                row_slice(m.parts@[i as int]),
                padded_cross(cross, m.parts@.len() as int)[i as int].next_note_id,
            )
        }
}

pub open spec fn start_acc(m: MultiPartMeasure, cross: Seq<CrossModel>) -> MeasureAcc {
    MeasureAcc {
        rows: Seq::empty(),
        cross: padded_cross(cross, m.parts@.len() as int),
        slurs: Seq::empty(),
        tuplets: Seq::empty(),
    }
}

/// Compiling visible parts only changes those parts' states.
proof fn lemma_parts_run_frame(acc: MeasureAcc, m: MultiPartMeasure, mi: usize, n: int)
    requires
        0 <= n <= visible_parts(m).len(),
        acc.cross.len() >= m.parts@.len(),
        m.parts@.len() <= usize::MAX,
    ensures
        parts_run(acc, m, mi, n).cross.len() == acc.cross.len(),
        parts_run(acc, m, mi, n).rows.len() == acc.rows.len() + n,
        forall|x: int|
            0 <= x < acc.cross.len() && (forall|j: int| 0 <= j < n ==> visible_parts(m)[j] != x)
                ==> #[trigger] parts_run(
                acc,
                m,
                mi,
                n,
            ).cross[x] == acc.cross[x],
    decreases n,
{
    lemma_visible_upto(m, m.parts@.len() as int);
    if n > 0 {
        lemma_parts_run_frame(acc, m, mi, n - 1);
        let prev = parts_run(acc, m, mi, n - 1);
        assert forall|x: int|
            0 <= x < acc.cross.len() && (forall|j: int| 0 <= j < n ==> visible_parts(m)[j] != x)
                implies #[trigger] parts_run(
                acc,
                m,
                mi,
                n,
            ).cross[x] == acc.cross[x] by {
            assert(visible_parts(m)[n - 1] != x);
            assert(forall|j: int| 0 <= j < n - 1 ==> visible_parts(m)[j] != x);
            assert(prev.cross[x] == acc.cross[x]);
        }
    }
}

proof fn lemma_visible_upto(m: MultiPartMeasure, n: int)
    requires
        0 <= n <= m.parts@.len(),
        n <= usize::MAX,
    ensures
        forall|j: int| 0 <= j < visible_upto(m, n).len() ==> #[trigger] visible_upto(m, n)[j] < n,
        forall|a: int, b: int|
            0 <= a < b < visible_upto(m, n).len() ==> visible_upto(m, n)[a] < visible_upto(m, n)[b],
        visible_upto(m, n).len() <= n,
    decreases n,
{
    if n > 0 {
        lemma_visible_upto(m, n - 1);
        let prev = visible_upto(m, n - 1);
        assert forall|a: int, b: int|
            0 <= a < b < visible_upto(m, n).len() implies visible_upto(m, n)[a] < visible_upto(m, n)[b] by {
            if part_hidden(m, n - 1) {
                assert(visible_upto(m, n) == prev);
            } else if b < prev.len() {
                assert(visible_upto(m, n)[a] == prev[a]);
                assert(visible_upto(m, n)[b] == prev[b]);
            } else {
                assert(visible_upto(m, n) == prev.push((n - 1) as usize));
                assert(visible_upto(m, n)[a] == prev[a]);
                assert(prev[a] < n - 1);
            }
        }
    }
}

fn anon_row_id(part_idx: usize) -> (s: String)
    ensures
        s@ == "__anon_"@ + decimal(part_idx as nat),
{
    let mut s = String::from_str("__anon_");
    proof {
        reveal_strlit("__anon_");
    }
    push_decimal(&mut s, part_idx);
    s
}

fn update_cross_state(cs: &mut PartCrossState, result: &mut part_slice::PartSliceResult)
    ensures
        final(cs).pending_slur_opens@ == old(result).final_pending_opens@,
        final(cs).prev_tie == old(result).final_tie,
        final(cs).prev_tie_column == old(result).final_tie_column,
        final(cs).prev_tie_measure == old(result).final_tie_measure,
        final(cs).prev_tie_note_id == old(result).final_tie_note_id,
        final(cs).next_note_id == old(result).final_next_note_id,
        final(result).elements == old(result).elements,
{
    let mut opens: Vec<Option<slur_chains::PendingSlurOpen>> = Vec::new();
    std::mem::swap(&mut opens, &mut result.final_pending_opens);
    cs.pending_slur_opens = opens;
    cs.prev_tie = result.final_tie;
    cs.prev_tie_column = result.final_tie_column;
    cs.prev_tie_measure = result.final_tie_measure;
    cs.prev_tie_note_id = result.final_tie_note_id;
    cs.next_note_id = result.final_next_note_id;
}

fn part_input(slice: &PartSlice, cs: &PartCrossState, measure_index: usize, part_index: usize) -> (i: PartSliceInput)
    ensures
        i@ == (SliceInputView { cross: slice_input(*slice, cs@), measure_index, part_index }),
{
    if slice.has_error {
        let i = PartSliceInput {
            pending_opens: Vec::new(),
            prev_tie: false,
            prev_tie_column: None,
            prev_tie_measure: None,
            prev_tie_note_id: None,
            next_note_id: cs.next_note_id,
            measure_index,
            part_index,
        };
        assert(i@.cross.opens =~= Seq::<Option<slur_chains::PendingSlurOpen>>::empty());
        i
    } else {
        PartSliceInput {
            pending_opens: cs.clone_pending_opens(),
            prev_tie: cs.prev_tie,
            prev_tie_column: cs.prev_tie_column,
            prev_tie_measure: cs.prev_tie_measure,
            prev_tie_note_id: cs.prev_tie_note_id,
            next_note_id: cs.next_note_id,
            measure_index,
            part_index,
        }
    }
}

fn compile_measure(
    measure: &MultiPartMeasure,
    bar_number: usize,
    measure_index: usize,
    cross_states: &mut Vec<PartCrossState>,
    slur_spans: &mut Vec<SlurSpan>,
    tuplet_spans: &mut Vec<TupletSpan>,
) -> (b: MeasureBlock)
    requires
        measure_ok(*measure, cross_view(old(cross_states)@)),
    ensures
        ({
            let (bv, acc) = measure_compiled(
                *measure,
                bar_number,
                measure_index,
                cross_view(old(cross_states)@),
            );
            &&& b@ == bv
            &&& cross_view(final(cross_states)@) == acc.cross
            &&& final(slur_spans)@ == old(slur_spans)@ + acc.slurs
            &&& tuplets_view(final(tuplet_spans)@) == tuplets_view(old(tuplet_spans)@) + acc.tuplets
        }),
{
    reveal(measure_compiled);
    let ghost c0 = cross_view(cross_states@);
    let ghost s0 = slur_spans@;
    let ghost t0 = tuplets_view(tuplet_spans@);
    let n = measure.parts.len();
    while cross_states.len() < n
        invariant
            cross_view(cross_states@) == padded_cross(c0, cross_states@.len() as int),
            c0.len() <= cross_states@.len(),
            cross_states@.len() == c0.len() || cross_states@.len() <= n,
        decreases n - cross_states@.len(),
    {
        let ghost before = cross_states@;
        cross_states.push(PartCrossState::new());
        assert(cross_view(cross_states@) =~= padded_cross(c0, cross_states@.len() as int)) by {
            assert forall|k: int| 0 <= k < cross_states@.len() implies #[trigger] cross_view(
                cross_states@,
            )[k] == padded_cross(c0, cross_states@.len() as int)[k] by {
                if k < before.len() {
                    assert(cross_states@[k] == before[k]);
                    assert(cross_view(before)[k] == padded_cross(c0, before.len() as int)[k]);
                }
            }
        }
    }
    assert(cross_view(cross_states@) =~= padded_cross(c0, n as int));
    let ghost acc0 = start_acc(*measure, c0);
    let visible = visible_part_indices(measure);
    proof {
        lemma_visible_upto(*measure, n as int);
    }
    let decorations = collect_decorations(measure, bar_number);
    let mut rows: Vec<MeasureRow> = Vec::new();
    for j in 0..visible.len()
        invariant
            n == measure.parts@.len(),
            visible@ == visible_parts(*measure),
            measure_ok(*measure, c0),
            acc0 == start_acc(*measure, c0),
            acc0.cross.len() >= n,
            forall|a: int| 0 <= a < visible@.len() ==> #[trigger] visible@[a] < n,
            forall|a: int, b: int| 0 <= a < b < visible@.len() ==> visible@[a] < visible@[b],
            ({
                let acc = parts_run(acc0, *measure, measure_index, j as int);
                &&& rows_view(rows@) == acc.rows
                &&& cross_view(cross_states@) == acc.cross
                &&& slur_spans@ == s0 + acc.slurs
                &&& tuplets_view(tuplet_spans@) == t0 + acc.tuplets
            }),
    {
        let part_idx = visible[j];
        let ghost acc = parts_run(acc0, *measure, measure_index, j as int);
        proof {
            lemma_parts_run_frame(acc0, *measure, measure_index, j as int);
            assert forall|jj: int| 0 <= jj < j implies visible_parts(*measure)[jj] != part_idx by {
                assert(visible@[jj] < visible@[j as int]);
            }
            assert(acc.cross[part_idx as int] == acc0.cross[part_idx as int]);
            assert(slice_ok(
                row_slice(measure.parts@[part_idx as int]),
                acc0.cross[part_idx as int].next_note_id,
            ));
        }
        let part_row = &measure.parts[part_idx];
        let slice = part_row.slice();
        let input = part_input(slice, &cross_states[part_idx], measure_index, part_idx);
        assert(cross_states@[part_idx as int]@ == acc.cross[part_idx as int]);
        let ghost sc = slice_compiled(*slice, input@);
        let ghost sl0 = slur_spans@;
        let ghost tl0 = tuplets_view(tuplet_spans@);
        let mut result = compile_part_slice(slice, input, slur_spans, tuplet_spans);
        let ghost cb = cross_states@;
        update_cross_state(&mut cross_states[part_idx], &mut result);
        assert(cross_view(cross_states@) =~= acc.cross.update(part_idx as int, cross_after(sc))) by {
            assert forall|k: int| 0 <= k < cross_states@.len() implies #[trigger] cross_view(
                cross_states@,
            )[k] == acc.cross.update(part_idx as int, cross_after(sc))[k] by {
                if k != part_idx {
                    assert(cross_states@[k] == cb[k]);
                    assert(cross_view(cb)[k] == acc.cross[k]);
                }
            }
        }
        let name = part_row.name();
        let label = match name {
            Some(s) => s.clone(),
            None => String::new(),
        };
        let id = match name {
            Some(s) => RowId(s.clone()),
            None => RowId(anon_row_id(part_idx)),
        };
        let ghost rb = rows@;
        let row = MeasureRow {
            id,
            label,
            elements: result.elements,
            source_part_index: part_idx,
            group_provenance: None,
            absorbed_rows: Vec::new(),
        };
        proof {
            lemma_rows_view(row.absorbed_rows@);
            assert(rows_view(row.absorbed_rows@) =~= Seq::<RowView>::empty());
            assert(row@.label == row_label_text(*slice));
            assert(row@.id == row_id_text(*slice, part_idx));
        }
        rows.push(row);
        assert(rows@.drop_last() == rb);
        assert(slur_spans@ =~= s0 + (acc.slurs + sc.slurs));
        assert(tuplets_view(tuplet_spans@) =~= t0 + (acc.tuplets + sc.tuplets));
    }
    let block = MeasureBlock {
        rows,
        decorations,
        diagnostics: clone_diagnostics(&measure.diagnostics),
        represents_measures: 1,
        merge_duplicate_measures_across_parts: measure.merge_duplicate_measures_across_parts,
        system_break: measure.system_break,
        source_span: measure.source_span,
    };
    block
}

/// Every visible part's slice of the measure has usable grid constants and
/// events that fit in the column range.
pub open spec fn slices_fit(m: MultiPartMeasure) -> bool {
    forall|j: int|
        0 <= j < visible_parts(m).len() ==> {
            let s = row_slice(m.parts@[#[trigger] visible_parts(m)[j] as int]);
            slice_grid_ok(s) && events_fit(s.notes.events@)
        }
}

pub open spec fn part_event_count(m: MultiPartMeasure, i: int) -> nat {
    row_slice(m.parts@[i]).notes.events@.len()
}

/// The number of events of the first `n` parts of a measure.
pub open spec fn measure_event_count(m: MultiPartMeasure, n: int) -> nat
    decreases n,
{
    if n <= 0 {
        0
    } else {
        measure_event_count(m, n - 1) + part_event_count(m, n - 1)
    }
}

/// The number of events of the first `n` measures.
pub open spec fn score_event_count(ms: Seq<MultiPartMeasure>, n: int) -> nat
    decreases n,
{
    if n <= 0 {
        0
    } else {
        score_event_count(ms, n - 1) + measure_event_count(ms[n - 1], ms[n - 1].parts@.len() as int)
    }
}

/// The score compiles: every visible slice fits, and the score's events can
/// be numbered with `usize` note ids.
pub open spec fn score_compiles(score: Score) -> bool {
    &&& forall|i: int| 0 <= i < score.measures@.len() ==> slices_fit(#[trigger] score.measures@[i])
    &&& score_event_count(score.measures@, score.measures@.len() as int) <= usize::MAX
}

proof fn lemma_part_events_bounded(m: MultiPartMeasure, i: int, n: int)
    requires
        0 <= i < n,
    ensures
        part_event_count(m, i) <= measure_event_count(m, n),
    decreases n,
{
    if i < n - 1 {
        lemma_part_events_bounded(m, i, n - 1);
    }
}

proof fn lemma_score_events_monotone(ms: Seq<MultiPartMeasure>, a: int, b: int)
    requires
        0 <= a <= b,
    ensures
        score_event_count(ms, a) <= score_event_count(ms, b),
    decreases b - a,
{
    if a < b {
        lemma_score_events_monotone(ms, a, b - 1);
    }
}

pub open spec fn ids_bounded(cross: Seq<CrossModel>, bound: int) -> bool {
    forall|p: int| 0 <= p < cross.len() ==> #[trigger] cross[p].next_note_id <= bound
}

/// Note ids below `e` before a fitting measure stay below `e` plus the
/// measure's event count after it, and the measure compiles.
proof fn lemma_measure_ids(m: MultiPartMeasure, cross: Seq<CrossModel>, mi: usize, e: int)
    requires
        slices_fit(m),
        ids_bounded(cross, e),
        e + measure_event_count(m, m.parts@.len() as int) <= usize::MAX,
        m.parts@.len() <= usize::MAX,
        e >= 0,
    ensures
        measure_ok(m, cross),
        ids_bounded(
            parts_run(start_acc(m, cross), m, mi, visible_parts(m).len() as int).cross,
            e + measure_event_count(m, m.parts@.len() as int),
        ),
{
    let n = m.parts@.len() as int;
    let big = e + measure_event_count(m, n);
    let acc0 = start_acc(m, cross);
    lemma_visible_upto(m, n);
    assert(ids_bounded(acc0.cross, e));
    assert forall|j: int| 0 <= j < visible_parts(m).len() implies {
        let i = #[trigger] visible_parts(m)[j];
        slice_ok(row_slice(m.parts@[i as int]), padded_cross(cross, n)[i as int].next_note_id)
    } by {
        let i = visible_parts(m)[j];
        lemma_part_events_bounded(m, i as int, n);
        assert(padded_cross(cross, n)[i as int].next_note_id <= e);
    }
    lemma_measure_ids_upto(m, cross, mi, e, visible_parts(m).len() as int);
}

proof fn lemma_measure_ids_upto(m: MultiPartMeasure, cross: Seq<CrossModel>, mi: usize, e: int, j: int)
    requires
        0 <= j <= visible_parts(m).len(),
        ids_bounded(cross, e),
        e >= 0,
        m.parts@.len() <= usize::MAX,
        measure_ok(m, cross),
    ensures
        ids_bounded(
            parts_run(start_acc(m, cross), m, mi, j).cross,
            e + measure_event_count(m, m.parts@.len() as int),
        ),
    decreases j,
{
    let n = m.parts@.len() as int;
    let acc0 = start_acc(m, cross);
    lemma_visible_upto(m, n);
    assert(ids_bounded(acc0.cross, e));
    if j > 0 {
        lemma_measure_ids_upto(m, cross, mi, e, j - 1);
        let i = visible_parts(m)[j - 1];
        lemma_parts_run_frame(acc0, m, mi, j - 1);
        assert forall|jj: int| 0 <= jj < j - 1 implies visible_parts(m)[jj] != i by {
            assert(visible_parts(m)[jj] < visible_parts(m)[j - 1]);
        }
        let acc = parts_run(acc0, m, mi, j - 1);
        assert(acc.cross[i as int] == acc0.cross[i as int]);
        let slice = row_slice(m.parts@[i as int]);
        let input = SliceInputView { cross: slice_input(slice, acc.cross[i as int]), measure_index: mi, part_index: i };
        assert(slice_ok(slice, acc0.cross[i as int].next_note_id));
        lemma_slice_compiled(slice, input);
        lemma_part_events_bounded(m, i as int, n);
    }
}

proof fn lemma_measure_compiled_cross(m: MultiPartMeasure, bar_number: usize, mi: usize, cross: Seq<CrossModel>)
    ensures
        measure_compiled(m, bar_number, mi, cross).1 == parts_run(
            start_acc(m, cross),
            m,
            mi,
            visible_parts(m).len() as int,
        ),
{
    reveal(measure_compiled);
}

/// Blocks, part states and spans over a prefix of the measures.
pub struct CompileAcc {
    pub blocks: Seq<BlockView>,
    pub cross: Seq<CrossModel>,
    pub slurs: Seq<SlurSpan>,
    pub tuplets: Seq<TupletSpanView>,
}

pub open spec fn measures_run(ms: Seq<MultiPartMeasure>, n: int) -> CompileAcc
    decreases n,
{
    if n <= 0 {
        CompileAcc { blocks: Seq::empty(), cross: Seq::empty(), slurs: Seq::empty(), tuplets: Seq::empty() }
    } else {
        let a = measures_run(ms, n - 1);
        let (bv, macc) = measure_compiled(ms[n - 1], n as usize, (n - 1) as usize, a.cross);
        CompileAcc {
            blocks: a.blocks.push(bv),
            cross: macc.cross,
            slurs: a.slurs + macc.slurs,
            tuplets: a.tuplets + macc.tuplets,
        }
    }
}

/// A span's measures mapped to the blocks they ended up in.
pub open spec fn remap_slur(s: SlurSpan, map: Seq<usize>) -> SlurSpan {
    if s.from_measure < map.len() && s.to_measure < map.len() {
        SlurSpan {
            from_measure: map[s.from_measure as int],
            to_measure: map[s.to_measure as int],
            ..s
        }
    } else {
        s
    }
}

pub open spec fn remap_tuplet(t: TupletSpanView, map: Seq<usize>) -> TupletSpanView {
    if t.measure_index < map.len() {
        TupletSpanView { measure_index: map[t.measure_index as int], ..t }
    } else {
        t
    }
}

/// The compiled score: every measure compiled in order (bar numbers from 1),
/// all-rest runs collapsed, and span measure indices mapped to blocks.
pub open spec fn compiled_score(score: Score) -> (Seq<BlockView>, Seq<SlurSpan>, Seq<TupletSpanView>) {
    let a = measures_run(score.measures@, score.measures@.len() as int);
    let (blocks, map) = merged_runs(score.measures@, a.blocks);
    (
        blocks,
        a.slurs.map_values(|s: SlurSpan| remap_slur(s, map)),
        a.tuplets.map_values(|t: TupletSpanView| remap_tuplet(t, map)),
    )
}

/// Compiles a grouped score into measure blocks, slur/tie spans and tuplet
/// spans.
pub fn compile(score: &Score) -> (r: CompileResult)
    requires
        score_compiles(*score),
    ensures
        ({
            let (blocks, slurs, tuplets) = compiled_score(*score);
            &&& blocks_view(r.blocks@) == blocks
            &&& r.slur_spans@ == slurs
            &&& tuplets_view(r.tuplet_spans@) == tuplets
        }),
{
    let ghost ms = score.measures@;
    let mut cross_states: Vec<PartCrossState> = Vec::new();
    let mut slur_spans: Vec<SlurSpan> = Vec::new();
    let mut tuplet_spans: Vec<TupletSpan> = Vec::new();
    let mut blocks: Vec<MeasureBlock> = Vec::new();
    let n = score.measures.len();
    proof {
        assert(tuplets_view(tuplet_spans@) =~= Seq::<TupletSpanView>::empty());
        assert(blocks_view(blocks@) =~= Seq::<BlockView>::empty());
        assert(cross_view(cross_states@) =~= Seq::<CrossModel>::empty());
    }
    for mi in 0..n
        invariant
            n == ms.len(),
            ms == score.measures@,
            score_compiles(*score),
            ({
                let a = measures_run(ms, mi as int);
                &&& blocks_view(blocks@) == a.blocks
                &&& cross_view(cross_states@) == a.cross
                &&& slur_spans@ == a.slurs
                &&& tuplets_view(tuplet_spans@) == a.tuplets
            }),
            blocks@.len() == mi,
            ids_bounded(cross_view(cross_states@), score_event_count(ms, mi as int) as int),
    {
        let measure = &score.measures[mi];
        let np = measure.parts.len();
        proof {
            lemma_score_events_monotone(ms, mi + 1, n as int);
            assert(slices_fit(ms[mi as int]));
            lemma_measure_ids(*measure, cross_view(cross_states@), mi, score_event_count(ms, mi as int) as int);
            lemma_measure_compiled_cross(*measure, (mi + 1) as usize, mi, cross_view(cross_states@));
        }
        let ghost bb = blocks@;
        let block = compile_measure(measure, mi + 1, mi, &mut cross_states, &mut slur_spans, &mut tuplet_spans);
        blocks.push(block);
        assert(blocks_view(blocks@) =~= blocks_view(bb).push(block@));
    }
    let (blocks, measure_to_block) = merge_rest_runs(&score.measures, blocks);
    let ghost a = measures_run(ms, n as int);
    let ghost map = measure_to_block@;
    let ns = slur_spans.len();
    for i in 0..ns
        invariant
            ns == slur_spans@.len(),
            map == measure_to_block@,
            slur_spans@.len() == a.slurs.len(),
            forall|k: int| 0 <= k < i ==> #[trigger] slur_spans@[k] == remap_slur(a.slurs[k], map),
            forall|k: int| i <= k < a.slurs.len() ==> #[trigger] slur_spans@[k] == a.slurs[k],
    {
        let s = slur_spans[i];
        if s.from_measure < measure_to_block.len() && s.to_measure < measure_to_block.len() {
            slur_spans[i] = SlurSpan {
                from_measure: measure_to_block[s.from_measure],
                to_measure: measure_to_block[s.to_measure],
                ..s
            };
        }
    }
    assert(slur_spans@ =~= a.slurs.map_values(|s: SlurSpan| remap_slur(s, map)));
    let nt = tuplet_spans.len();
    for i in 0..nt
        invariant
            nt == tuplet_spans@.len(),
            map == measure_to_block@,
            tuplet_spans@.len() == a.tuplets.len(),
            forall|k: int| 0 <= k < i ==> #[trigger] tuplet_spans@[k]@ == remap_tuplet(a.tuplets[k], map),
            forall|k: int| i <= k < a.tuplets.len() ==> #[trigger] tuplet_spans@[k]@ == a.tuplets[k],
    {
        let mi = tuplet_spans[i].measure_index;
        let ghost before = tuplet_spans@;
        assert(before[i as int]@ == a.tuplets[i as int]);
        if mi < measure_to_block.len() {
            let t = &tuplet_spans[i];
            let moved = TupletSpan {
                part_index: t.part_index,
                measure_index: measure_to_block[mi],
                from_column: t.from_column,
                to_column: t.to_column,
                label: t.label.clone(),
            };
            tuplet_spans[i] = moved;
            assert(tuplet_spans@[i as int]@ == remap_tuplet(a.tuplets[i as int], map));
        }
        assert forall|k: int| 0 <= k < tuplet_spans@.len() && k != i implies #[trigger] tuplet_spans@[k]
            == before[k] by {}
    }
    assert(tuplets_view(tuplet_spans@) =~= a.tuplets.map_values(|t: TupletSpanView| remap_tuplet(t, map)));
    CompileResult { blocks, slur_spans, tuplet_spans }
}

proof fn lemma_measures_run_blocks(ms: Seq<MultiPartMeasure>, n: int)
    requires
        0 <= n,
    ensures
        measures_run(ms, n).blocks.len() == n,
        forall|i: int| 0 <= i < n ==> #[trigger] measures_run(ms, n).blocks[i].represents_measures == 1,
    decreases n,
{
    reveal(measure_compiled);
    if n > 0 {
        lemma_measures_run_blocks(ms, n - 1);
    }
}

/// Compilation accounts for every measure exactly once: the blocks stand for
/// as many measures as the score has, and there are no more blocks than
/// measures.
pub proof fn lemma_compile_accounts_for_measures(score: Score)
    requires
        score.measures@.len() <= usize::MAX,
    ensures
        represented(compiled_score(score).0) == score.measures@.len(),
        compiled_score(score).0.len() <= score.measures@.len(),
{
    let ms = score.measures@;
    lemma_measures_run_blocks(ms, ms.len() as int);
    lemma_rest_runs_account_for_measures(ms, measures_run(ms, ms.len() as int).blocks);
}

proof fn lemma_visible_upto_content(m: MultiPartMeasure, n: int)
    requires
        0 <= n <= m.parts@.len(),
        n <= usize::MAX,
    ensures
        forall|j: int| 0 <= j < visible_upto(m, n).len() ==> !part_hidden(m, #[trigger] visible_upto(m, n)[j] as int),
        forall|i: int| 0 <= i < n && !part_hidden(m, i) ==> visible_upto(m, n).contains(i as usize),
        !(m.hide_resting_parts && has_sounding_part(m)) ==> visible_upto(m, n) == Seq::new(
            n as nat,
            |i: int| i as usize,
        ),
    decreases n,
{
    if n > 0 {
        lemma_visible_upto_content(m, n - 1);
        let prev = visible_upto(m, n - 1);
        if !part_hidden(m, n - 1) {
            let cur = prev.push((n - 1) as usize);
            assert(cur[cur.len() - 1] == (n - 1) as usize);
            assert forall|i: int| 0 <= i < n && !part_hidden(m, i) implies cur.contains(i as usize) by {
                if i < n - 1 {
                    let k = choose|k: int| 0 <= k < prev.len() && prev[k] == i as usize;
                    assert(cur[k] == prev[k]);
                } else {
                    assert(cur[cur.len() - 1] == i as usize);
                }
            }
            if !(m.hide_resting_parts && has_sounding_part(m)) {
                assert(cur =~= Seq::new(n as nat, |i: int| i as usize));
            }
        }
    }
}

/// Which parts a measure shows: with `hide_resting_parts` on and some part
/// sounding, exactly the parts that do not only rest; otherwise all of them.
pub proof fn lemma_visible_parts(m: MultiPartMeasure)
    requires
        m.parts@.len() <= usize::MAX,
    ensures
        (m.hide_resting_parts && has_sounding_part(m)) ==> (forall|j: int|
            0 <= j < visible_parts(m).len() ==> !part_rest_filled(m, #[trigger] visible_parts(m)[j] as int)),
        forall|i: int|
            0 <= i < m.parts@.len() && !part_rest_filled(m, i) ==> visible_parts(m).contains(i as usize),
        !(m.hide_resting_parts && has_sounding_part(m)) ==> visible_parts(m) == Seq::new(
            m.parts@.len(),
            |i: int| i as usize,
        ),
{
    lemma_visible_upto_content(m, m.parts@.len() as int);
    assert forall|i: int| 0 <= i < m.parts@.len() && !part_rest_filled(m, i) implies visible_parts(m).contains(
        i as usize,
    ) by {
        assert(!part_hidden(m, i));
    }
}

/// A part's carried-over slur openings and open tie come from measure `mi`
/// or an earlier one.
pub open spec fn cross_ok(c: CrossModel, mi: int) -> bool {
    &&& opens_before(c.opens, mi)
    &&& (c.prev_tie_measure matches Some(fm) ==> fm <= mi)
}

pub open spec fn all_cross_ok(cs: Seq<CrossModel>, mi: int) -> bool {
    forall|p: int| 0 <= p < cs.len() ==> cross_ok(#[trigger] cs[p], mi)
}

/// Every slur or tie span starts no later than it ends, before measure `n`.
pub open spec fn slurs_before(slurs: Seq<SlurSpan>, n: int) -> bool {
    forall|k: int|
        0 <= k < slurs.len() ==> (#[trigger] slurs[k]).from_measure <= slurs[k].to_measure && slurs[k].to_measure < n
}

pub open spec fn tuplets_before(tuplets: Seq<TupletSpanView>, n: int) -> bool {
    forall|k: int| 0 <= k < tuplets.len() ==> (#[trigger] tuplets[k]).measure_index < n
}

proof fn lemma_all_cross_ok_later(cs: Seq<CrossModel>, a: int, b: int)
    requires
        all_cross_ok(cs, a),
        a <= b,
    ensures
        all_cross_ok(cs, b),
{
    assert forall|p: int| 0 <= p < cs.len() implies cross_ok(#[trigger] cs[p], b) by {
        assert(cross_ok(cs[p], a));
        let o = cs[p].opens;
        assert forall|i: int| 0 <= i < o.len() && (#[trigger] o[i]) is Some implies o[i]->0.measure_index <= b by {
            assert(opens_before(o, a));
        }
    }
}

proof fn lemma_parts_run_bounded(acc: MeasureAcc, m: MultiPartMeasure, mi: usize, n: int)
    requires
        0 <= n <= visible_parts(m).len(),
        acc.cross.len() >= m.parts@.len(),
        m.parts@.len() <= usize::MAX,
        all_cross_ok(acc.cross, mi as int),
        spans_end_at(acc.slurs, mi as int),
        tuplets_at(acc.tuplets, mi as int),
    ensures
        all_cross_ok(parts_run(acc, m, mi, n).cross, mi as int),
        spans_end_at(parts_run(acc, m, mi, n).slurs, mi as int),
        tuplets_at(parts_run(acc, m, mi, n).tuplets, mi as int),
    decreases n,
{
    if n > 0 {
        lemma_parts_run_bounded(acc, m, mi, n - 1);
        lemma_parts_run_frame(acc, m, mi, n - 1);
        lemma_visible_upto(m, m.parts@.len() as int);
        let prev = parts_run(acc, m, mi, n - 1);
        let p = visible_parts(m)[n - 1];
        assert(p < m.parts@.len());
        let slice = row_slice(m.parts@[p as int]);
        let input = SliceInputView { cross: slice_input(slice, prev.cross[p as int]), measure_index: mi, part_index: p };
        assert(cross_ok(prev.cross[p as int], mi as int));
        lemma_slice_spans_in_measure(slice, input);
        let sc = slice_compiled(slice, input);
        let next = parts_run(acc, m, mi, n);
        assert forall|q: int| 0 <= q < next.cross.len() implies cross_ok(#[trigger] next.cross[q], mi as int) by {
            if q != p {
                assert(next.cross[q] == prev.cross[q]);
            }
        }
        assert forall|k: int| 0 <= k < next.slurs.len() implies (#[trigger] next.slurs[k]).from_measure
            <= next.slurs[k].to_measure && next.slurs[k].to_measure == mi by {
            if k < prev.slurs.len() {
                assert(next.slurs[k] == prev.slurs[k]);
            } else {
                assert(next.slurs[k] == sc.slurs[k - prev.slurs.len()]);
            }
        }
        assert forall|k: int| 0 <= k < next.tuplets.len() implies (#[trigger] next.tuplets[k]).measure_index == mi by {
            if k < prev.tuplets.len() {
                assert(next.tuplets[k] == prev.tuplets[k]);
            } else {
                assert(next.tuplets[k] == sc.tuplets[k - prev.tuplets.len()]);
            }
        }
    }
}

proof fn lemma_measure_compiled_bounded(m: MultiPartMeasure, bar_number: usize, mi: usize, cross: Seq<CrossModel>)
    requires
        all_cross_ok(cross, mi as int),
        m.parts@.len() <= usize::MAX,
    ensures
        all_cross_ok(measure_compiled(m, bar_number, mi, cross).1.cross, mi as int),
        spans_end_at(measure_compiled(m, bar_number, mi, cross).1.slurs, mi as int),
        tuplets_at(measure_compiled(m, bar_number, mi, cross).1.tuplets, mi as int),
{
    reveal(measure_compiled);
    let start = start_acc(m, cross);
    let padded = padded_cross(cross, m.parts@.len() as int);
    assert forall|p: int| 0 <= p < padded.len() implies cross_ok(#[trigger] padded[p], mi as int) by {
        if p < cross.len() {
            assert(padded[p] == cross[p]);
        } else {
            assert(padded[p] == initial_cross());
        }
    }
    lemma_parts_run_bounded(start, m, mi, visible_parts(m).len() as int);
    lemma_visible_upto(m, m.parts@.len() as int);
}

proof fn lemma_measures_run_bounded(ms: Seq<MultiPartMeasure>, n: int)
    requires
        0 <= n <= ms.len(),
        ms.len() <= usize::MAX,
        forall|i: int| 0 <= i < ms.len() ==> (#[trigger] ms[i]).parts@.len() <= usize::MAX,
    ensures
        all_cross_ok(measures_run(ms, n).cross, n - 1),
        slurs_before(measures_run(ms, n).slurs, n),
        tuplets_before(measures_run(ms, n).tuplets, n),
    decreases n,
{
    if n > 0 {
        lemma_measures_run_bounded(ms, n - 1);
        let a = measures_run(ms, n - 1);
        let mi = (n - 1) as usize;
        if n >= 2 {
            lemma_all_cross_ok_later(a.cross, n - 2, n - 1);
        }
        lemma_measure_compiled_bounded(ms[n - 1], n as usize, mi, a.cross);
        let macc = measure_compiled(ms[n - 1], n as usize, mi, a.cross).1;
        let r = measures_run(ms, n);
        assert forall|k: int| 0 <= k < r.slurs.len() implies (#[trigger] r.slurs[k]).from_measure
            <= r.slurs[k].to_measure && r.slurs[k].to_measure < n by {
            if k < a.slurs.len() {
                assert(r.slurs[k] == a.slurs[k]);
            } else {
                assert(r.slurs[k] == macc.slurs[k - a.slurs.len()]);
            }
        }
        assert forall|k: int| 0 <= k < r.tuplets.len() implies (#[trigger] r.tuplets[k]).measure_index < n by {
            if k < a.tuplets.len() {
                assert(r.tuplets[k] == a.tuplets[k]);
            } else {
                assert(r.tuplets[k] == macc.tuplets[k - a.tuplets.len()]);
            }
        }
    }
}

/// Span measure indices refer to blocks after rest runs are collapsed: every
/// slur or tie span starts no later than it ends and ends in an existing
/// block, and every tuplet span lies in an existing block.
pub proof fn lemma_spans_within_blocks(score: Score)
    ensures
        ({
            let (blocks, slurs, tuplets) = compiled_score(score);
            &&& forall|k: int|
                0 <= k < slurs.len() ==> (#[trigger] slurs[k]).from_measure <= slurs[k].to_measure
                    && slurs[k].to_measure < blocks.len()
            &&& forall|k: int| 0 <= k < tuplets.len() ==> (#[trigger] tuplets[k]).measure_index < blocks.len()
        }),
{
    let ms = score.measures@;
    let n = ms.len() as int;
    assert(ms.len() <= usize::MAX) by {
        assert(score.measures.len() == ms.len());
    }
    assert forall|i: int| 0 <= i < ms.len() implies (#[trigger] ms[i]).parts@.len() <= usize::MAX by {
        assert(ms[i].parts.len() == ms[i].parts@.len());
    }
    lemma_measures_run_bounded(ms, n);
    lemma_measures_run_blocks(ms, n);
    let a = measures_run(ms, n);
    lemma_rest_runs_account_for_measures(ms, a.blocks);
    let (blocks, map) = merged_runs(ms, a.blocks);
    let (b2, slurs, tuplets) = compiled_score(score);
    assert(b2 == blocks);
    assert forall|k: int| 0 <= k < slurs.len() implies (#[trigger] slurs[k]).from_measure <= slurs[k].to_measure
        && slurs[k].to_measure < blocks.len() by {
        let s0 = a.slurs[k];
        assert(slurs[k] == remap_slur(s0, map));
        assert(s0.from_measure <= s0.to_measure && s0.to_measure < n);
        assert(map[s0.from_measure as int] <= map[s0.to_measure as int]);
        assert(map[s0.to_measure as int] < blocks.len());
    }
    assert forall|k: int| 0 <= k < tuplets.len() implies (#[trigger] tuplets[k]).measure_index < blocks.len() by {
        let t0 = a.tuplets[k];
        assert(tuplets[k] == remap_tuplet(t0, map));
        assert(map[t0.measure_index as int] < blocks.len());
    }
}

} // verus!
