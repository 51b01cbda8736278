//! One part slice's compilation state and the compilation of one timed unit
//! (note, chord note or percussion hit) into it.

use super::beam::{
    BeamEntry, beam_fits, flush_beam_buffer, flushed, lemma_flushed_adds_underlines_only,
};
use super::slur_chains::{
    Chain, ChainState, PendingSlurOpen, SlurKey, chains_view, extend_note_chains, extended,
    lemma_extended_bounded, opens_before, spans_end_at,
};
use super::tuplet_spans::{
    PendingTupletSpan, TupletState, lemma_tuplets_stay_in_measure, record_tuplet_tag, tuplet_tagged,
    tuplets_at,
};
use super::types::{
    ColumnElement, ContentView, ElementContent, ElementView, SlurSpan, TupletSpan,
    TupletSpanView, elements_view, tuplets_view,
};
use crate::ast::parsed::TupletInfo;
use vstd::prelude::*;

verus! {

/// Everything one part slice's compilation reads and writes.
pub struct PartState {
    pub elements: Vec<ColumnElement>,
    pub beam_buf: Vec<BeamEntry>,
    pub pending_chains: Vec<Vec<(u32, SlurKey)>>,
    pub pending_slur_opens: Vec<Option<PendingSlurOpen>>,
    pub slur_spans: Vec<SlurSpan>,
    /// The tuplet run being accumulated; never carried across measures.
    pub current_tuplet: Option<PendingTupletSpan>,
    pub tuplet_spans: Vec<TupletSpan>,
    pub col: u32,
    pub prev_tie: bool,
    pub prev_tie_column: Option<u32>,
    pub prev_tie_measure: Option<usize>,
    pub prev_tie_note_id: Option<usize>,
    pub next_note_id: usize,
    pub measure_index: usize,
    pub part_index: usize,
    /// The measure's tuplet rescale factor; every quarter-beat grid constant
    /// is scaled by it.
    pub multiplier: u32,
    /// Width of one beam group in quarter-beats: 4 simple, 6 compound.
    pub beat_group_size: u32,
}

/// The value of a `PartState`.
pub struct PartModel {
    pub elements: Seq<ElementView>,
    pub beam: Seq<BeamEntry>,
    pub chains: Seq<Chain>,
    pub opens: Seq<Option<PendingSlurOpen>>,
    pub slurs: Seq<SlurSpan>,
    pub tuplet: Option<PendingTupletSpan>,
    pub tuplets: Seq<TupletSpanView>,
    pub col: u32,
    pub prev_tie: bool,
    pub prev_tie_column: Option<u32>,
    pub prev_tie_measure: Option<usize>,
    pub prev_tie_note_id: Option<usize>,
    pub next_note_id: usize,
    pub measure_index: usize,
    pub part_index: usize,
    pub multiplier: u32,
    pub beat_group_size: u32,
}

impl View for PartState {
    type V = PartModel;

    open spec fn view(&self) -> PartModel {
        PartModel {
            elements: elements_view(self.elements@),
            beam: self.beam_buf@,
            chains: chains_view(self.pending_chains@),
            opens: self.pending_slur_opens@,
            slurs: self.slur_spans@,
            tuplet: self.current_tuplet,
            tuplets: tuplets_view(self.tuplet_spans@),
            col: self.col,
            prev_tie: self.prev_tie,
            prev_tie_column: self.prev_tie_column,
            prev_tie_measure: self.prev_tie_measure,
            prev_tie_note_id: self.prev_tie_note_id,
            next_note_id: self.next_note_id,
            measure_index: self.measure_index,
            part_index: self.part_index,
            multiplier: self.multiplier,
            beat_group_size: self.beat_group_size,
        }
    }
}

/// The grid constants are usable: a positive multiplier and group size whose
/// scaled values fit in `u32`.
pub open spec fn grid_ok(m: PartModel) -> bool {
    &&& m.multiplier >= 1
    &&& m.beat_group_size >= 1
    &&& 7 * m.multiplier <= u32::MAX
    &&& m.beat_group_size * m.multiplier <= u32::MAX
    &&& beam_fits(m.beam)
}

/// One timed unit, as its compilation reads it.
pub struct CompiledUnit {
    pub duration: u32,
    pub dotted: bool,
    pub double_dotted: bool,
    pub group_membership: u8,
    pub group_continuation: u8,
    pub slur_close_at: Option<u32>,
    pub slur_key: SlurKey,
    pub tuplet: Option<TupletInfo>,
    pub head: ElementContent,
}

pub struct UnitView {
    pub duration: u32,
    pub dotted: bool,
    pub double_dotted: bool,
    pub group_membership: u8,
    pub group_continuation: u8,
    pub slur_close_at: Option<u32>,
    pub slur_key: SlurKey,
    pub tuplet: Option<TupletInfo>,
    pub head: ContentView,
}

impl View for CompiledUnit {
    type V = UnitView;

    open spec fn view(&self) -> UnitView {
        UnitView {
            duration: self.duration,
            dotted: self.dotted,
            double_dotted: self.double_dotted,
            group_membership: self.group_membership,
            group_continuation: self.group_continuation,
            slur_close_at: self.slur_close_at,
            slur_key: self.slur_key,
            tuplet: self.tuplet,
            head: self.head@,
        }
    }
}

/// A unit's written duration on the multiplier-scaled grid: a tuplet-tagged
/// unit's `* den / num` compression is undone.
pub open spec fn written_duration(duration: u32, tuplet: Option<TupletInfo>) -> int {
    match tuplet {
        Some(t) => (duration / t.den) * t.num,
        None => duration as int,
    }
}

/// The tuplet tag, if any, can be undone without dividing by zero or
/// overflowing.
pub open spec fn tuplet_ok(duration: u32, tuplet: Option<TupletInfo>) -> bool {
    match tuplet {
        Some(t) => t.den > 0 && (duration / t.den) * t.num <= u32::MAX,
        None => true,
    }
}

/// Underlines under a timed unit: two for a sixteenth, one for an eighth or
/// dotted eighth, none otherwise (by written duration).
pub open spec fn unit_underline_count(duration: u32, tuplet: Option<TupletInfo>, m: u32) -> u32 {
    let w = written_duration(duration, tuplet);
    if w == m {
        2
    } else if w == 2 * m || w == 3 * m {
        1
    } else {
        0
    }
}

pub fn written_underline_count(duration: u32, tuplet: Option<TupletInfo>, multiplier: u32) -> (n: u32)
    requires
        tuplet_ok(duration, tuplet),
        3 * multiplier <= u32::MAX,
    ensures
        n == unit_underline_count(duration, tuplet, multiplier),
{
    let scaled_written_duration = match tuplet {
        Some(t) => duration / t.den * t.num,
        None => duration,
    };
    if scaled_written_duration == multiplier {
        2
    } else if scaled_written_duration == 2 * multiplier || scaled_written_duration == 3 * multiplier {
        1
    } else {
        0
    }
}

/// Dashes at `from, from + step, ...` below `end`.
pub open spec fn dash_run(from: int, end: int, step: int, content: ContentView, note_id: usize) -> Seq<
    ElementView,
>
    decreases (if from < end {
        end - from
    } else {
        0
    }),
{
    if from < end && step > 0 {
        seq![ElementView { column: from as u32, content, note_id: Some(note_id) }] + dash_run(
            from + step,
            end,
            step,
            content,
            note_id,
        )
    } else {
        Seq::empty()
    }
}

proof fn lemma_dash_run_step(from: int, end: int, step: int, content: ContentView, note_id: usize)
    requires
        from < end,
        step > 0,
    ensures
        dash_run(from, end, step, content, note_id) == seq![
            ElementView { column: from as u32, content, note_id: Some(note_id) },
        ] + dash_run(from + step, end, step, content, note_id),
{
}

/// Appends the dashes `from, from + step, ...` below `end`.
pub fn push_dashes(
    elements: &mut Vec<ColumnElement>,
    from: u64,
    end: u32,
    step: u32,
    content: &ElementContent,
    note_id: usize,
)
    requires
        step > 0,
    ensures
        elements_view(final(elements)@) == elements_view(old(elements)@) + dash_run(
            from as int,
            end as int,
            step as int,
            content@,
            note_id,
        ),
{
    let ghost e0 = elements_view(elements@);
    let mut d: u64 = from;
    while d < end as u64
        invariant
            step > 0,
            elements_view(elements@) + dash_run(d as int, end as int, step as int, content@, note_id)
                == e0 + dash_run(from as int, end as int, step as int, content@, note_id),
        decreases (if d < end {
            end - d
        } else {
            0
        }),
    {
        proof {
            lemma_dash_run_step(d as int, end as int, step as int, content@, note_id);
        }
        let ghost before = elements_view(elements@);
        elements.push(ColumnElement { column: d as u32, content: content.clone(), note_id: Some(note_id) });
        assert(elements_view(elements@) =~= before.push(
            ElementView { column: d as u32, content: content@, note_id: Some(note_id) },
        ));
        assert(before + dash_run(d as int, end as int, step as int, content@, note_id) =~= elements_view(
            elements@,
        ) + dash_run(d + step, end as int, step as int, content@, note_id));
        d = d + step as u64;
    }
    assert(elements_view(elements@) + dash_run(d as int, end as int, step as int, content@, note_id)
        =~= elements_view(elements@));
}

pub open spec fn chain_state(m: PartModel) -> ChainState {
    ChainState { chains: m.chains, opens: m.opens, slurs: m.slurs }
}

pub open spec fn tuplet_state(m: PartModel) -> TupletState {
    TupletState { current: m.tuplet, spans: m.tuplets }
}

pub open spec fn with_chains(m: PartModel, c: ChainState) -> PartModel {
    PartModel { chains: c.chains, opens: c.opens, slurs: c.slurs, ..m }
}

pub open spec fn with_tuplets(m: PartModel, t: TupletState) -> PartModel {
    PartModel { tuplet: t.current, tuplets: t.spans, ..m }
}

/// The beam buffer flushed into the elements.
pub open spec fn beam_flushed(m: PartModel) -> PartModel {
    let (e, b) = flushed(m.elements, m.beam);
    PartModel { elements: e, beam: b, ..m }
}

/// The dash glyph of a timed unit.
pub open spec fn unit_dash(u: UnitView) -> ContentView {
    ContentView::NoteDash { dotted: u.dotted, double_dotted: u.double_dotted }
}

/// The beat a unit's extension dashes fall on: one full (dotted, double
/// dotted) beat.
pub open spec fn unit_beat(u: UnitView, multiplier: u32) -> int {
    if u.double_dotted {
        7 * multiplier
    } else if u.dotted {
        6 * multiplier
    } else {
        4 * multiplier
    }
}

/// Compiling one timed unit with identity `note_id` at the current column:
/// its tuplet tag is recorded; its head is placed; a unit without
/// underlines closes the beam group before it; it joins its slur chains
/// (and those it closes mid-duration); a dash goes on each later beat of its
/// duration; an underlined unit joins the beam group, which closes when the
/// unit ends on a beam-group boundary; the column advances by its duration.
pub open spec fn unit_compiled(m: PartModel, u: UnitView, note_id: usize) -> PartModel {
    let m1 = with_tuplets(m, tuplet_tagged(tuplet_state(m), m.measure_index, m.part_index, m.col, u.tuplet));
    let uc = unit_underline_count(u.duration, u.tuplet, m.multiplier);
    let m2 = PartModel {
        elements: m1.elements.push(ElementView { column: m.col, content: u.head, note_id: Some(note_id) }),
        ..m1
    };
    let m3 = if uc == 0 {
        beam_flushed(m2)
    } else {
        m2
    };
    let c1 = extended(
        chain_state(m3),
        u.group_membership,
        u.group_continuation,
        m.col,
        u.slur_key,
        m.measure_index,
        m.part_index,
    );
    let c2 = match u.slur_close_at {
        Some(off) => if u.group_membership > 0 {
            extended(c1, u.group_membership, 0, (m.col + off) as u32, SlurKey::Rest, m.measure_index, m.part_index)
        } else {
            c1
        },
        None => c1,
    };
    let m4 = with_chains(m3, c2);
    let beat = unit_beat(u, m.multiplier);
    let m5 = PartModel {
        elements: m4.elements + dash_run(m.col + beat, m.col + u.duration, beat, unit_dash(u), note_id),
        ..m4
    };
    let m6 = if uc > 0 {
        PartModel {
            beam: m5.beam.push(BeamEntry { column: m.col, underline_count: uc, duration: u.duration }),
            ..m5
        }
    } else {
        m5
    };
    let col = (m.col + u.duration) as u32;
    let m7 = PartModel { col, ..m6 };
    if uc > 0 && col as int % (m.beat_group_size * m.multiplier) == 0 {
        beam_flushed(m7)
    } else {
        m7
    }
}

/// The unit can be compiled at the current column without overflow.
pub open spec fn unit_fits(m: PartModel, u: UnitView) -> bool {
    &&& m.col + u.duration <= u32::MAX
    &&& tuplet_ok(u.duration, u.tuplet)
    &&& match u.slur_close_at {
        Some(off) => m.col + off <= u32::MAX,
        None => true,
    }
}

pub fn flush_beam(st: &mut PartState)
    requires
        grid_ok(old(st)@),
    ensures
        final(st)@ == beam_flushed(old(st)@),
{
    flush_beam_buffer(&mut st.beam_buf, &mut st.elements);
}

pub fn compile_unit(st: &mut PartState, unit: CompiledUnit, note_id: usize)
    requires
        grid_ok(old(st)@),
        unit_fits(old(st)@, unit@),
    ensures
        final(st)@ == unit_compiled(old(st)@, unit@, note_id),
        grid_ok(final(st)@),
{
    let ghost m = st@;
    let ghost u = unit@;
    record_tuplet_tag(
        &mut st.current_tuplet,
        &mut st.tuplet_spans,
        st.measure_index,
        st.part_index,
        st.col,
        unit.tuplet,
    );
    let multiplier = st.multiplier;
    let underline_count = written_underline_count(unit.duration, unit.tuplet, multiplier);
    let col = st.col;
    let ghost e0 = st.elements@;
    st.elements.push(ColumnElement { column: col, content: unit.head, note_id: Some(note_id) });
    assert(elements_view(st.elements@) =~= elements_view(e0).push(
        ElementView { column: m.col, content: u.head, note_id: Some(note_id) },
    ));
    if underline_count == 0 {
        flush_beam(st);
    }
    extend_note_chains(
        &mut st.pending_chains,
        &mut st.pending_slur_opens,
        &mut st.slur_spans,
        st.measure_index,
        st.part_index,
        unit.group_membership,
        unit.group_continuation,
        col,
        unit.slur_key,
    );
    if let Some(close_offset) = unit.slur_close_at {
        if unit.group_membership > 0 {
            extend_note_chains(
                &mut st.pending_chains,
                &mut st.pending_slur_opens,
                &mut st.slur_spans,
                st.measure_index,
                st.part_index,
                unit.group_membership,
                0,
                col + close_offset,
                SlurKey::Rest,
            );
        }
    }
    let beat = if unit.double_dotted {
        7 * multiplier
    } else if unit.dotted {
        6 * multiplier
    } else {
        4 * multiplier
    };
    let dash = ElementContent::NoteDash { dotted: unit.dotted, double_dotted: unit.double_dotted };
    push_dashes(&mut st.elements, col as u64 + beat as u64, col + unit.duration, beat, &dash, note_id);
    if underline_count > 0 {
        st.beam_buf.push(BeamEntry { column: col, underline_count, duration: unit.duration });
    }
    st.col = col + unit.duration;
    assert(st.beat_group_size * multiplier >= 1) by (nonlinear_arith)
        requires
            st.beat_group_size >= 1,
            multiplier >= 1,
    ;
    if underline_count > 0 && st.col % (st.beat_group_size * multiplier) == 0 {
        flush_beam(st);
    }
}

/// The extension dashes among the elements, in order.
pub open spec fn dashes_of(s: Seq<ElementView>) -> Seq<ElementView>
    decreases s.len(),
{
    if s.len() == 0 {
        s
    } else if s.last().content is NoteDash {
        dashes_of(s.drop_last()).push(s.last())
    } else {
        dashes_of(s.drop_last())
    }
}

proof fn lemma_dashes_of_add(a: Seq<ElementView>, b: Seq<ElementView>)
    ensures
        dashes_of(a + b) == dashes_of(a) + dashes_of(b),
    decreases b.len(),
{
    if b.len() == 0 {
        assert(a + b =~= a);
        assert(dashes_of(a) + dashes_of(b) =~= dashes_of(a));
    } else {
        lemma_dashes_of_add(a, b.drop_last());
        assert((a + b).drop_last() =~= a + b.drop_last());
        assert((a + b).last() == b.last());
        if b.last().content is NoteDash {
            assert(dashes_of(a) + dashes_of(b.drop_last()).push(b.last()) =~= (dashes_of(a) + dashes_of(
                b.drop_last(),
            )).push(b.last()));
        }
    }
}

proof fn lemma_dashes_of_none(s: Seq<ElementView>)
    requires
        forall|i: int| 0 <= i < s.len() ==> !((#[trigger] s[i]).content is NoteDash),
    ensures
        dashes_of(s) == Seq::<ElementView>::empty(),
    decreases s.len(),
{
    if s.len() > 0 {
        assert(s.last() == s[s.len() - 1]);
        lemma_dashes_of_none(s.drop_last());
    }
}

/// The column `k` steps after `from`.
pub open spec fn step_column(from: int, step: int, k: int) -> int {
    from + k * step
}

/// The offset of the `k + 1`-th beat after a unit's start.
pub open spec fn later_beat(k: int, beat: int) -> int {
    (k + 1) * beat
}

proof fn lemma_dash_run_shape(from: int, end: int, step: int, content: ContentView, note_id: usize)
    requires
        step > 0,
        content is NoteDash,
    ensures
        dashes_of(dash_run(from, end, step, content, note_id)) == dash_run(from, end, step, content, note_id),
        forall|k: int|
            0 <= k ==> (k < dash_run(from, end, step, content, note_id).len() <==> #[trigger] step_column(from, step, k) < end),
        forall|k: int|
            0 <= k < dash_run(from, end, step, content, note_id).len() ==> #[trigger] dash_run(
                from,
                end,
                step,
                content,
                note_id,
            )[k] == (ElementView { column: step_column(from, step, k) as u32, content, note_id: Some(note_id) }),
    decreases (if from < end {
        end - from
    } else {
        0
    }),
{
    let d = dash_run(from, end, step, content, note_id);
    if from < end {
        lemma_dash_run_shape(from + step, end, step, content, note_id);
        let rest = dash_run(from + step, end, step, content, note_id);
        let first = ElementView { column: from as u32, content, note_id: Some(note_id) };
        assert(d == seq![first] + rest);
        lemma_dashes_of_add(seq![first], rest);
        assert(dashes_of(seq![first]) =~= seq![first]) by {
            let one = seq![first];
            assert(one.drop_last() =~= Seq::<ElementView>::empty());
            assert(one.last() == first);
            assert(first.content is NoteDash);
            assert(dashes_of(one.drop_last()) =~= Seq::<ElementView>::empty());
            assert(Seq::<ElementView>::empty().push(first) =~= one);
        }
        assert forall|k: int| 0 <= k implies (k < d.len() <==> #[trigger] step_column(from, step, k) < end) by {
            if k > 0 {
                assert((k - 1) * step + step == k * step) by (nonlinear_arith);
                assert(k - 1 < rest.len() <==> step_column(from + step, step, k - 1) < end);
            }
        }
        assert forall|k: int| 0 <= k < d.len() implies #[trigger] d[k] == (ElementView {
            column: step_column(from, step, k) as u32,
            content,
            note_id: Some(note_id),
        }) by {
            if k > 0 {
                assert((k - 1) * step + step == k * step) by (nonlinear_arith);
                assert(d[k] == rest[k - 1]);
            }
        }
    } else {
        assert forall|k: int| 0 <= k implies !(#[trigger] step_column(from, step, k) < end) by {
            assert(k * step >= 0) by (nonlinear_arith)
                requires
                    k >= 0,
                    step > 0,
            ;
        }
    }
}

/// Compiling a timed unit keeps what was there, adds its head at the current
/// column, and adds one extension dash, carrying the unit's id, on each later
/// beat the unit still sounds on: at `col + k * beat` for every `k >= 1`
/// with `k * beat` below the duration, and no other dash. The column then
/// moves on by the unit's duration.
pub proof fn lemma_unit_dashes(m: PartModel, u: UnitView, note_id: usize)
    requires
        m.multiplier >= 1,
        m.col + u.duration <= u32::MAX,
    ensures
        ({
            let r = unit_compiled(m, u, note_id);
            let n = m.elements.len() as int;
            let beat = unit_beat(u, m.multiplier);
            let dashes = dashes_of(r.elements.subrange(n + 1, r.elements.len() as int));
            &&& r.elements.len() > n
            &&& r.elements.subrange(0, n) == m.elements
            &&& r.elements[n] == (ElementView { column: m.col, content: u.head, note_id: Some(note_id) })
            &&& r.col == m.col + u.duration
            &&& forall|k: int| 0 <= k ==> (k < dashes.len() <==> #[trigger] later_beat(k, beat) < u.duration)
            &&& forall|k: int|
                0 <= k < dashes.len() ==> #[trigger] dashes[k] == (ElementView {
                    column: (m.col + later_beat(k, beat)) as u32,
                    content: unit_dash(u),
                    note_id: Some(note_id),
                })
        }),
{
    let n = m.elements.len() as int;
    let head = ElementView { column: m.col, content: u.head, note_id: Some(note_id) };
    let m1 = with_tuplets(m, tuplet_tagged(tuplet_state(m), m.measure_index, m.part_index, m.col, u.tuplet));
    let uc = unit_underline_count(u.duration, u.tuplet, m.multiplier);
    let m2 = PartModel { elements: m1.elements.push(head), ..m1 };
    let m3 = if uc == 0 {
        beam_flushed(m2)
    } else {
        m2
    };
    lemma_flushed_adds_underlines_only(m2.elements, m2.beam);
    let c1 = extended(chain_state(m3), u.group_membership, u.group_continuation, m.col, u.slur_key, m.measure_index, m.part_index);
    let c2 = match u.slur_close_at {
        Some(off) => if u.group_membership > 0 {
            extended(c1, u.group_membership, 0, (m.col + off) as u32, SlurKey::Rest, m.measure_index, m.part_index)
        } else {
            c1
        },
        None => c1,
    };
    let m4 = with_chains(m3, c2);
    let beat = unit_beat(u, m.multiplier);
    let run = dash_run(m.col + beat, m.col + u.duration, beat, unit_dash(u), note_id);
    lemma_dash_run_shape(m.col + beat, m.col + u.duration, beat, unit_dash(u), note_id);
    let m5 = PartModel { elements: m4.elements + run, ..m4 };
    let m6 = if uc > 0 {
        PartModel { beam: m5.beam.push(BeamEntry { column: m.col, underline_count: uc, duration: u.duration }), ..m5 }
    } else {
        m5
    };
    let col = (m.col + u.duration) as u32;
    let m7 = PartModel { col, ..m6 };
    lemma_flushed_adds_underlines_only(m7.elements, m7.beam);
    let r = unit_compiled(m, u, note_id);
    assert(r.elements == m7.elements || r.elements == flushed(m7.elements, m7.beam).0);
    // The added elements: the head, then underlines, then the dash run, then underlines.
    let e3 = m3.elements;
    let u1 = e3.subrange(n + 1, e3.len() as int);
    let u2 = r.elements.subrange(m7.elements.len() as int, r.elements.len() as int);
    assert(m2.elements.subrange(0, m2.elements.len() as int) =~= m2.elements);
    assert(e3.subrange(0, n + 1) =~= m2.elements);
    assert(r.elements.subrange(0, m7.elements.len() as int) == m7.elements) by {
        if r.elements != m7.elements {
        } else {
            assert(r.elements.subrange(0, m7.elements.len() as int) =~= m7.elements);
        }
    }
    assert(m7.elements == e3 + run);
    assert forall|i: int| 0 <= i < u1.len() implies !((#[trigger] u1[i]).content is NoteDash) by {
        assert(u1[i] == e3[n + 1 + i]);
    }
    assert forall|i: int| 0 <= i < u2.len() implies !((#[trigger] u2[i]).content is NoteDash) by {
        assert(u2[i] == r.elements[m7.elements.len() + i]);
    }
    lemma_dashes_of_none(u1);
    lemma_dashes_of_none(u2);
    let tail = r.elements.subrange(n + 1, r.elements.len() as int);
    assert(tail =~= u1 + run + u2) by {
        assert(r.elements =~= r.elements.subrange(0, m7.elements.len() as int) + u2);
    }
    lemma_dashes_of_add(u1 + run, u2);
    lemma_dashes_of_add(u1, run);
    assert(dashes_of(tail) =~= run);
    assert(r.elements.subrange(0, n) =~= m.elements) by {
        assert(r.elements.subrange(0, n) =~= e3.subrange(0, n + 1).subrange(0, n));
    }
    assert(r.elements[n] == head) by {
        assert(r.elements[n] == e3[n]);
        assert(e3[n] == m2.elements[n]);
    }
    assert forall|k: int| 0 <= k implies step_column(m.col + beat, beat, k) == m.col + #[trigger] later_beat(k, beat) by {
        assert((k + 1) * beat == beat + k * beat) by (nonlinear_arith);
    }
    assert forall|k: int| 0 <= k implies (k < run.len() <==> #[trigger] later_beat(k, beat) < u.duration) by {
        assert(step_column(m.col + beat, beat, k) == m.col + later_beat(k, beat));
        assert(k < run.len() <==> step_column(m.col + beat, beat, k) < m.col + u.duration);
    }
    assert forall|k: int| 0 <= k < run.len() implies #[trigger] run[k] == (ElementView {
        column: (m.col + later_beat(k, beat)) as u32,
        content: unit_dash(u),
        note_id: Some(note_id),
    }) by {
        assert(step_column(m.col + beat, beat, k) == m.col + later_beat(k, beat));
    }
}

/// Everything emitted so far in the slice lies in its measure, and what is
/// carried between measures (slur openings, an open tie) comes from it or
/// from an earlier one.
pub open spec fn spans_bounded(m: PartModel) -> bool {
    &&& opens_before(m.opens, m.measure_index as int)
    &&& spans_end_at(m.slurs, m.measure_index as int)
    &&& tuplets_at(m.tuplets, m.measure_index as int)
    &&& (m.prev_tie_measure matches Some(fm) ==> fm <= m.measure_index)
}

/// Compiling a timed unit keeps the slice's spans within its measure.
pub proof fn lemma_unit_compiled_bounded(m: PartModel, u: UnitView, note_id: usize)
    requires
        spans_bounded(m),
    ensures
        spans_bounded(unit_compiled(m, u, note_id)),
        unit_compiled(m, u, note_id).measure_index == m.measure_index,
        unit_compiled(m, u, note_id).prev_tie_measure == m.prev_tie_measure,
{
    lemma_tuplets_stay_in_measure(tuplet_state(m), m.measure_index, m.part_index, m.col, u.tuplet);
    let m1 = with_tuplets(m, tuplet_tagged(tuplet_state(m), m.measure_index, m.part_index, m.col, u.tuplet));
    let uc = unit_underline_count(u.duration, u.tuplet, m.multiplier);
    let m2 = PartModel {
        elements: m1.elements.push(ElementView { column: m.col, content: u.head, note_id: Some(note_id) }),
        ..m1
    };
    let m3 = if uc == 0 {
        beam_flushed(m2)
    } else {
        m2
    };
    lemma_extended_bounded(chain_state(m3), u.group_membership, u.group_continuation, m.col, u.slur_key, m.measure_index, m.part_index);
    let c1 = extended(chain_state(m3), u.group_membership, u.group_continuation, m.col, u.slur_key, m.measure_index, m.part_index);
    match u.slur_close_at {
        Some(off) => if u.group_membership > 0 {
            lemma_extended_bounded(c1, u.group_membership, 0, (m.col + off) as u32, SlurKey::Rest, m.measure_index, m.part_index);
        },
        None => {},
    }
}

/// Underlines go by a unit's written length, in grid steps of `m` per
/// sixteenth: a sixteenth gets two, an eighth and a dotted eighth one each
/// (the dot adds no underline), and a quarter or anything longer none.
pub proof fn lemma_underlines_follow_written_length(duration: u32, tuplet: Option<TupletInfo>, m: u32)
    requires
        m >= 1,
    ensures
        written_duration(duration, tuplet) == m ==> unit_underline_count(duration, tuplet, m) == 2,
        written_duration(duration, tuplet) == 2 * m ==> unit_underline_count(duration, tuplet, m) == 1,
        written_duration(duration, tuplet) == 3 * m ==> unit_underline_count(duration, tuplet, m) == 1,
        written_duration(duration, tuplet) >= 4 * m ==> unit_underline_count(duration, tuplet, m) == 0,
{
}

/// A dotted eighth is underlined exactly as an eighth is, whatever the
/// grid multiplier and tuplet tags.
pub proof fn lemma_dotted_eighth_underlined_as_eighth(
    dotted: u32,
    dotted_tuplet: Option<TupletInfo>,
    plain: u32,
    plain_tuplet: Option<TupletInfo>,
    m: u32,
)
    requires
        m >= 1,
        written_duration(dotted, dotted_tuplet) == 3 * m,
        written_duration(plain, plain_tuplet) == 2 * m,
    ensures
        unit_underline_count(dotted, dotted_tuplet, m) == unit_underline_count(plain, plain_tuplet, m),
        unit_underline_count(dotted, dotted_tuplet, m) == 1,
{
}

} // verus!
