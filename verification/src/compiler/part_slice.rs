//! Compilation of one part's slice of one measure: its events, in order,
//! into column elements, slur/tie spans and tuplet spans, ending in a bar
//! line at the column the events' durations add up to.

use super::beam::{beam_fits, flushed};
use super::part_slice_unit::{
    CompiledUnit, PartModel, PartState, UnitView, beam_flushed, chain_state, compile_unit,
    dash_run, flush_beam, grid_ok, push_dashes, tuplet_ok, tuplet_state, unit_compiled,
    unit_underline_count, spans_bounded, lemma_unit_compiled_bounded,
    unit_fits, with_chains, with_tuplets, written_duration,
};
use super::slur_chains::{
    CrossModel, PendingSlurOpen, SlurKey, chains_view, extend_note_chains, extended,
    lemma_extended_keeps_slurs, preserve_cross_measure_slur_opens, preserved_upto,
    lemma_extended_bounded, lemma_preserved_bounded, opens_before, spans_end_at,
};
use super::timed_unit::{TimedUnit, chord_unit, compiled_unit, hit_unit, note_unit};
use super::tuplet_spans::{
    flush, lemma_tuplets_stay_in_measure, record_tuplet_tag, tuplet_flushed, tuplet_tagged, tuplets_at,
};
use super::types::{
    ArcKind, ColumnElement, ContentView, ElementContent, ElementView, SlurSpan, TupletSpan,
    elements_view, tuplets_view,
};
use crate::ast::grouped::{GroupedRest, Lyrics, NoteEvent, PartSlice};
use crate::ast::parsed::{PartKind, Syllable};
use vstd::prelude::*;

verus! {

/// A part slice's incoming cross-measure state and position.
pub struct PartSliceInput {
    pub pending_opens: Vec<Option<PendingSlurOpen>>,
    pub prev_tie: bool,
    pub prev_tie_column: Option<u32>,
    pub prev_tie_measure: Option<usize>,
    pub prev_tie_note_id: Option<usize>,
    pub next_note_id: usize,
    pub measure_index: usize,
    pub part_index: usize,
}

pub struct SliceInputView {
    pub cross: CrossModel,
    pub measure_index: usize,
    pub part_index: usize,
}

impl View for PartSliceInput {
    type V = SliceInputView;

    open spec fn view(&self) -> SliceInputView {
        SliceInputView {
            cross: CrossModel {
                opens: self.pending_opens@,
                prev_tie: self.prev_tie,
                prev_tie_column: self.prev_tie_column,
                prev_tie_measure: self.prev_tie_measure,
                prev_tie_note_id: self.prev_tie_note_id,
                next_note_id: self.next_note_id,
            },
            measure_index: self.measure_index,
            part_index: self.part_index,
        }
    }
}

/// A part slice's elements and outgoing cross-measure state.
pub struct PartSliceResult {
    pub elements: Vec<ColumnElement>,
    pub final_pending_opens: Vec<Option<PendingSlurOpen>>,
    pub final_tie: bool,
    pub final_tie_column: Option<u32>,
    pub final_tie_measure: Option<usize>,
    pub final_tie_note_id: Option<usize>,
    pub final_next_note_id: usize,
}

pub open spec fn event_duration(ev: NoteEvent) -> u32 {
    match ev {
        NoteEvent::Note(n) => n.duration,
        NoteEvent::Rest(r) => r.duration,
        NoteEvent::Chord(c) => c.duration,
        NoteEvent::Percussion(p) => p.duration,
    }
}

/// The summed duration of the first `n` events.
pub open spec fn prefix_duration(evs: Seq<NoteEvent>, n: int) -> int
    decreases n,
{
    if n <= 0 {
        0
    } else {
        prefix_duration(evs, n - 1) + event_duration(evs[n - 1])
    }
}

pub open spec fn unit_fits_at(start: int, u: UnitView) -> bool {
    &&& start + u.duration <= u32::MAX
    &&& tuplet_ok(u.duration, u.tuplet)
    &&& match u.slur_close_at {
        Some(off) => start + off <= u32::MAX,
        None => true,
    }
}

/// An event starting at column `start` compiles without overflow or a
/// division by zero.
pub open spec fn event_fits(start: int, ev: NoteEvent) -> bool {
    &&& start + event_duration(ev) <= u32::MAX
    &&& match ev {
        NoteEvent::Note(n) => unit_fits_at(start, note_unit(n)),
        NoteEvent::Chord(c) => unit_fits_at(start, chord_unit(c)),
        NoteEvent::Percussion(p) => unit_fits_at(start, hit_unit(p)),
        NoteEvent::Rest(r) => tuplet_ok(r.duration, r.tuplet),
    }
}

/// Every event of the slice fits where it starts.
pub open spec fn events_fit(evs: Seq<NoteEvent>) -> bool {
    &&& prefix_duration(evs, evs.len() as int) <= u32::MAX
    &&& forall|i: int| 0 <= i < evs.len() ==> event_fits(prefix_duration(evs, i), #[trigger] evs[i])
}

/// The slice's grid constants are usable.
pub open spec fn slice_grid_ok(slice: PartSlice) -> bool {
    &&& slice.resolution_multiplier >= 1
    &&& slice.beat_group_size >= 1
    &&& 7 * slice.resolution_multiplier <= u32::MAX
    &&& slice.beat_group_size * slice.resolution_multiplier <= u32::MAX
}

/// The slice compiles: usable grid constants, fitting events, and note ids
/// that do not run out.
pub open spec fn slice_ok(slice: PartSlice, next_note_id: usize) -> bool {
    &&& slice_grid_ok(slice)
    &&& events_fit(slice.notes.events@)
    &&& next_note_id + slice.notes.events@.len() <= usize::MAX
}

pub open spec fn tie_reset(m: PartModel) -> PartModel {
    PartModel {
        prev_tie: false,
        prev_tie_column: None,
        prev_tie_measure: None,
        prev_tie_note_id: None,
        ..m
    }
}

pub open spec fn contents_view(s: Seq<ElementContent>) -> Seq<ContentView> {
    s.map_values(|c: ElementContent| c@)
}

pub open spec fn lyric_elements(lyrics: Seq<ContentView>, col: u32) -> Seq<ElementView> {
    lyrics.map_values(|c: ContentView| ElementView { column: col, content: c, note_id: None })
}

/// Compiling a timed unit: a unit continuing a tie keeps the tied note's
/// identity and closes the tie with a tie span; its lyric syllables go at
/// its column; the unit is compiled; a unit tied to the next one opens a
/// tie at its column.
pub open spec fn timed_compiled(
    m: PartModel,
    u: UnitView,
    lyrics: Seq<ContentView>,
    note_id: usize,
    ties: bool,
) -> PartModel {
    let cont = m.prev_tie;
    let nid = if cont {
        match m.prev_tie_note_id {
            Some(x) => x,
            None => note_id,
        }
    } else {
        note_id
    };
    let m1 = if cont {
        let slurs = match (m.prev_tie_column, m.prev_tie_measure) {
            (Some(c), Some(fm)) => m.slurs.push(
                SlurSpan {
                    kind: ArcKind::Tie,
                    part_index: m.part_index,
                    from_measure: fm,
                    from_column: c,
                    to_measure: m.measure_index,
                    to_column: m.col,
                },
            ),
            _ => m.slurs,
        };
        tie_reset(PartModel { slurs, ..m })
    } else {
        m
    };
    let m2 = PartModel { elements: m1.elements + lyric_elements(lyrics, m.col), ..m1 };
    let m3 = unit_compiled(m2, u, nid);
    if ties {
        PartModel {
            prev_tie: true,
            prev_tie_column: Some(m.col),
            prev_tie_measure: Some(m.measure_index),
            prev_tie_note_id: Some(nid),
            ..m3
        }
    } else {
        tie_reset(m3)
    }
}

/// Underlines under a rest: two for a sixteenth rest, one for an eighth
/// rest, none otherwise (by written duration).
pub open spec fn rest_underline_count(r: GroupedRest, m: u32) -> u32 {
    let w = written_duration(r.duration, r.tuplet);
    if w == m {
        2
    } else if w == 2 * m {
        1
    } else {
        0
    }
}

pub open spec fn rest_content(r: GroupedRest) -> ContentView {
    ContentView::Rest { dotted: r.dotted, double_dotted: r.double_dotted, implicit_fill: r.implicit_fill }
}

/// Compiling a rest: like a timed unit, but the beam group closes before a
/// rest without underlines, a rest joins slur chains only inside a group,
/// an undotted rest gets a dash on each later beat, and any open tie ends
/// without a tie span.
pub open spec fn rest_compiled(m: PartModel, r: GroupedRest, note_id: usize) -> PartModel {
    let m1 = with_tuplets(m, tuplet_tagged(tuplet_state(m), m.measure_index, m.part_index, m.col, r.tuplet));
    let uc = rest_underline_count(r, m.multiplier);
    let m2 = if uc == 0 {
        beam_flushed(m1)
    } else {
        m1
    };
    let m3 = PartModel {
        elements: m2.elements.push(ElementView { column: m.col, content: rest_content(r), note_id: Some(note_id) }),
        ..m2
    };
    let m4 = if r.group_membership > 0 {
        with_chains(
            m3,
            extended(
                chain_state(m3),
                r.group_membership,
                r.group_continuation,
                m.col,
                SlurKey::Rest,
                m.measure_index,
                m.part_index,
            ),
        )
    } else {
        m3
    };
    let m5 = if uc > 0 {
        PartModel {
            beam: m4.beam.push(super::beam::BeamEntry { column: m.col, underline_count: uc, duration: r.duration }),
            ..m4
        }
    } else {
        m4
    };
    let beat = 4 * m.multiplier;
    let m6 = if !r.dotted {
        PartModel {
            elements: m5.elements + dash_run(
                m.col + beat,
                m.col + r.duration,
                beat,
                ContentView::NoteDash { dotted: false, double_dotted: false },
                note_id,
            ),
            ..m5
        }
    } else {
        m5
    };
    let col = (m.col + r.duration) as u32;
    let m7 = tie_reset(PartModel { col, ..m6 });
    if uc > 0 && col as int % (m.beat_group_size * m.multiplier) == 0 {
        beam_flushed(m7)
    } else {
        m7
    }
}

/// Verse `v`'s syllable number `k`, for every verse `v < n` that has one.
pub open spec fn lyric_contents(lyrics: Seq<Lyrics>, k: int, n: int) -> Seq<ContentView>
    decreases n,
{
    if n <= 0 {
        Seq::empty()
    } else {
        let rest = lyric_contents(lyrics, k, n - 1);
        let syl = lyrics[n - 1].syllables@;
        if 0 <= k < syl.len() {
            rest.push(ContentView::Lyric { text: syl[k].text@, verse: (n - 1) as usize })
        } else {
            rest
        }
    }
}

#[verifier::opaque]
/// One event: it takes the next note id; a note of a `notes+lyrics` part
/// that does not continue a tie takes the next syllable of every verse.
pub open spec fn event_step(m: PartModel, k: int, kind: PartKind, lyrics: Seq<Lyrics>, ev: NoteEvent) -> (
    PartModel,
    int,
) {
    let note_id = m.next_note_id;
    let m0 = PartModel { next_note_id: (m.next_note_id + 1) as usize, ..m };
    match ev {
        NoteEvent::Note(n) => {
            let takes = kind == PartKind::NotesWithLyrics && !m.prev_tie;
            let lyr = if takes {
                lyric_contents(lyrics, k, lyrics.len() as int)
            } else {
                Seq::empty()
            };
            (
                timed_compiled(m0, note_unit(n), lyr, note_id, n.tie_to_next_span is Some),
                if takes {
                    k + 1
                } else {
                    k
                },
            )
        },
        NoteEvent::Rest(r) => (rest_compiled(m0, r, note_id), k),
        NoteEvent::Chord(c) => (
            timed_compiled(m0, chord_unit(c), Seq::empty(), note_id, c.tie_to_next_span is Some),
            k,
        ),
        NoteEvent::Percussion(p) => (
            timed_compiled(m0, hit_unit(p), Seq::empty(), note_id, p.tie_to_next_span is Some),
            k,
        ),
    }
}

/// The state and syllable position after the first `n` events.
pub open spec fn events_run(m: PartModel, slice: PartSlice, n: int) -> (PartModel, int)
    decreases n,
{
    if n <= 0 {
        (m, 0)
    } else {
        let (m1, k1) = events_run(m, slice, n - 1);
        event_step(m1, k1, slice.kind, slice.lyrics@, slice.notes.events@[n - 1])
    }
}

/// A verse's syllables joined with single spaces.
pub open spec fn joined_syllables(s: Seq<Syllable>) -> Seq<char>
    decreases s.len(),
{
    if s.len() == 0 {
        Seq::empty()
    } else if s.len() == 1 {
        s[0].text@
    } else {
        joined_syllables(s.drop_last()) + seq![' '] + s.last().text@
    }
}

/// A standalone lyrics part's lines: one per verse, at column 0.
pub open spec fn lyric_line_elements(lyrics: Seq<Lyrics>) -> Seq<ElementView> {
    Seq::new(
        lyrics.len(),
        |v: int|
            ElementView {
                column: 0,
                content: ContentView::LyricLine {
                    text: joined_syllables(lyrics[v].syllables@),
                    verse: v as usize,
                },
                note_id: None,
            },
    )
}

pub open spec fn initial_model(slice: PartSlice, input: SliceInputView) -> PartModel {
    PartModel {
        elements: if slice.kind == PartKind::Lyrics {
            lyric_line_elements(slice.lyrics@)
        } else {
            Seq::empty()
        },
        beam: Seq::empty(),
        chains: Seq::empty(),
        opens: input.cross.opens,
        slurs: Seq::empty(),
        tuplet: None,
        tuplets: Seq::empty(),
        col: 0,
        prev_tie: input.cross.prev_tie,
        prev_tie_column: input.cross.prev_tie_column,
        prev_tie_measure: input.cross.prev_tie_measure,
        prev_tie_note_id: input.cross.prev_tie_note_id,
        next_note_id: input.cross.next_note_id,
        measure_index: input.measure_index,
        part_index: input.part_index,
        multiplier: slice.resolution_multiplier,
        beat_group_size: slice.beat_group_size,
    }
}

pub open spec fn bar_line_at(col: u32) -> ElementView {
    ElementView { column: col, content: ContentView::BarLine, note_id: None }
}

/// A compiled part slice: every event, the last beam group and tuplet run
/// closed, the openings of slurs still open kept for the next measure, and
/// a bar line at the final column.
pub open spec fn slice_compiled(slice: PartSlice, input: SliceInputView) -> PartModel {
    let (m1, _) = events_run(initial_model(slice, input), slice, slice.notes.events@.len() as int);
    let m2 = beam_flushed(m1);
    let m3 = with_tuplets(m2, tuplet_flushed(tuplet_state(m2), m2.measure_index, m2.part_index));
    PartModel {
        opens: preserved_upto(m3.chains, m3.opens, m3.chains.len() as int, m3.measure_index),
        elements: m3.elements.push(bar_line_at(m3.col)),
        ..m3
    }
}

fn push_lyrics(st: &mut PartState, lyrics: Vec<ElementContent>)
    ensures
        final(st)@ == (PartModel {
            elements: old(st)@.elements + lyric_elements(contents_view(lyrics@), old(st)@.col),
            ..old(st)@
        }),
{
    let ghost m0 = st@;
    let col = st.col;
    for i in 0..lyrics.len()
        invariant
            col == m0.col,
            st@ == (PartModel {
                elements: m0.elements + lyric_elements(contents_view(lyrics@), col).take(i as int),
                ..m0
            }),
    {
        let ghost before = st@.elements;
        st.elements.push(ColumnElement { column: col, content: lyrics[i].clone(), note_id: None });
        assert(st@.elements =~= before.push(
            ElementView { column: col, content: lyrics@[i as int]@, note_id: None },
        ));
        assert(lyric_elements(contents_view(lyrics@), col).take(i + 1) =~= lyric_elements(
            contents_view(lyrics@),
            col,
        ).take(i as int).push(ElementView { column: col, content: lyrics@[i as int]@, note_id: None }));
    }
    assert(lyric_elements(contents_view(lyrics@), col).take(lyrics@.len() as int) =~= lyric_elements(
        contents_view(lyrics@),
        col,
    ));
}

fn reset_tie(st: &mut PartState)
    ensures
        final(st)@ == tie_reset(old(st)@),
{
    st.prev_tie = false;
    st.prev_tie_column = None;
    st.prev_tie_measure = None;
    st.prev_tie_note_id = None;
}

fn compile_timed_unit<T: TimedUnit>(st: &mut PartState, unit: &T, lyrics: Vec<ElementContent>, note_id: usize)
    requires
        grid_ok(old(st)@),
        unit_fits(old(st)@, unit.unit_spec()),
    ensures
        final(st)@ == timed_compiled(
            old(st)@,
            unit.unit_spec(),
            contents_view(lyrics@),
            note_id,
            unit.tie_spec(),
        ),
        grid_ok(final(st)@),
{
    let ghost m = st@;
    let is_tie_continuation = st.prev_tie;
    let note_id = if is_tie_continuation {
        match st.prev_tie_note_id {
            Some(x) => x,
            None => note_id,
        }
    } else {
        note_id
    };
    if is_tie_continuation {
        if let (Some(from_col), Some(from_measure)) = (st.prev_tie_column, st.prev_tie_measure) {
            st.slur_spans.push(
                SlurSpan {
                    kind: ArcKind::Tie,
                    part_index: st.part_index,
                    from_measure,
                    from_column: from_col,
                    to_measure: st.measure_index,
                    to_column: st.col,
                },
            );
        }
        reset_tie(st);
    }
    push_lyrics(st, lyrics);
    let event_col = st.col;
    compile_unit(st, compiled_unit(unit), note_id);
    if unit.tie_to_next() {
        st.prev_tie = true;
        st.prev_tie_column = Some(event_col);
        st.prev_tie_measure = Some(st.measure_index);
        st.prev_tie_note_id = Some(note_id);
    } else {
        reset_tie(st);
    }
}

fn rest_underlines(rest: &GroupedRest, multiplier: u32) -> (n: u32)
    requires
        tuplet_ok(rest.duration, rest.tuplet),
        2 * multiplier <= u32::MAX,
    ensures
        n == rest_underline_count(*rest, multiplier),
{
    let written = match rest.tuplet {
        Some(t) => rest.duration / t.den * t.num,
        None => rest.duration,
    };
    if written == multiplier {
        2
    } else if written == 2 * multiplier {
        1
    } else {
        0
    }
}

fn compile_rest(st: &mut PartState, rest: &GroupedRest, note_id: usize)
    requires
        grid_ok(old(st)@),
        old(st)@.col + rest.duration <= u32::MAX,
        tuplet_ok(rest.duration, rest.tuplet),
    ensures
        final(st)@ == rest_compiled(old(st)@, *rest, note_id),
        grid_ok(final(st)@),
{
    let ghost m = st@;
    record_tuplet_tag(
        &mut st.current_tuplet,
        &mut st.tuplet_spans,
        st.measure_index,
        st.part_index,
        st.col,
        rest.tuplet,
    );
    let multiplier = st.multiplier;
    let underline_count = rest_underlines(rest, multiplier);
    if underline_count == 0 {
        flush_beam(st);
    }
    let col = st.col;
    let ghost e0 = st@.elements;
    st.elements.push(
        ColumnElement {
            column: col,
            content: ElementContent::Rest {
                dotted: rest.dotted,
                double_dotted: rest.double_dotted,
                implicit_fill: rest.implicit_fill,
            },
            note_id: Some(note_id),
        },
    );
    assert(st@.elements =~= e0.push(
        ElementView { column: col, content: rest_content(*rest), note_id: Some(note_id) },
    ));
    if rest.group_membership > 0 {
        extend_note_chains(
            &mut st.pending_chains,
            &mut st.pending_slur_opens,
            &mut st.slur_spans,
            st.measure_index,
            st.part_index,
            rest.group_membership,
            rest.group_continuation,
            col,
            SlurKey::Rest,
        );
    }
    if underline_count > 0 {
        st.beam_buf.push(
            super::beam::BeamEntry { column: col, underline_count, duration: rest.duration },
        );
    }
    if !rest.dotted {
        let beat = 4 * multiplier;
        let dash = ElementContent::NoteDash { dotted: false, double_dotted: false };
        push_dashes(&mut st.elements, col as u64 + beat as u64, col + rest.duration, beat, &dash, note_id);
    }
    st.col = col + rest.duration;
    reset_tie(st);
    assert(st.beat_group_size * multiplier >= 1) by (nonlinear_arith)
        requires
            st.beat_group_size >= 1,
            multiplier >= 1,
    ;
    if underline_count > 0 && st.col % (st.beat_group_size * multiplier) == 0 {
        flush_beam(st);
    }
}

/// Verse `v`'s syllable number `k` as a lyric element content, for every
/// verse that has one.
fn note_lyrics(lyrics: &Vec<Lyrics>, k: usize) -> (r: Vec<ElementContent>)
    ensures
        contents_view(r@) == lyric_contents(lyrics@, k as int, lyrics@.len() as int),
{
    let mut r: Vec<ElementContent> = Vec::new();
    for v in 0..lyrics.len()
        invariant
            contents_view(r@) == lyric_contents(lyrics@, k as int, v as int),
    {
        let ghost before = r@;
        if k < lyrics[v].syllables.len() {
            r.push(ElementContent::Lyric { text: lyrics[v].syllables[k].text.clone(), verse: v });
            assert(contents_view(r@) =~= contents_view(before).push(
                ContentView::Lyric { text: lyrics@[v as int].syllables@[k as int].text@, verse: v },
            ));
        }
    }
    r
}

fn join_syllables(s: &Vec<Syllable>) -> (r: String)
    ensures
        r@ == joined_syllables(s@),
{
    let mut r = String::new();
    proof {
        assert(r@ =~= joined_syllables(s@.take(0)));
    }
    for i in 0..s.len()
        invariant
            r@ == joined_syllables(s@.take(i as int)),
    {
        assert(s@.take(i + 1).drop_last() =~= s@.take(i as int));
        if i > 0 {
            r.append(" ");
            proof {
                reveal_strlit(" ");
            }
        }
        r.append(s[i].text.as_str());
    }
    assert(s@.take(s@.len() as int) =~= s@);
    r
}

fn lyric_lines(lyrics: &Vec<Lyrics>) -> (r: Vec<ColumnElement>)
    ensures
        elements_view(r@) == lyric_line_elements(lyrics@),
{
    let mut r: Vec<ColumnElement> = Vec::new();
    for v in 0..lyrics.len()
        invariant
            elements_view(r@) == lyric_line_elements(lyrics@).take(v as int),
    {
        let ghost before = r@;
        let text = join_syllables(&lyrics[v].syllables);
        let ghost ev = ElementView {
            column: 0,
            content: ContentView::LyricLine { text: text@, verse: v },
            note_id: None,
        };
        r.push(ColumnElement { column: 0, content: ElementContent::LyricLine { text, verse: v }, note_id: None });
        assert(elements_view(r@) =~= elements_view(before).push(ev));
        assert(lyric_line_elements(lyrics@).take(v + 1) =~= lyric_line_elements(lyrics@).take(
            v as int,
        ).push(ev));
    }
    assert(lyric_line_elements(lyrics@).take(lyrics@.len() as int) =~= lyric_line_elements(lyrics@));
    r
}

proof fn lemma_prefix_monotone(evs: Seq<NoteEvent>, i: int, j: int)
    requires
        0 <= i <= j <= evs.len(),
    ensures
        prefix_duration(evs, i) <= prefix_duration(evs, j),
    decreases j - i,
{
    if i < j {
        lemma_prefix_monotone(evs, i, j - 1);
    }
}

/// The fields an event leaves alone, and the column and note id it
/// advances.
proof fn lemma_event_step_fields(m: PartModel, k: int, kind: PartKind, lyrics: Seq<Lyrics>, ev: NoteEvent)
    requires
        event_fits(m.col as int, ev),
        m.next_note_id < usize::MAX,
    ensures
        ({
            let (m2, k2) = event_step(m, k, kind, lyrics, ev);
            &&& m2.col == m.col + event_duration(ev)
            &&& m2.next_note_id == m.next_note_id + 1
            &&& m2.multiplier == m.multiplier
            &&& m2.beat_group_size == m.beat_group_size
            &&& m2.measure_index == m.measure_index
            &&& m2.part_index == m.part_index
            &&& k <= k2 <= k + 1
        }),
{
    reveal(event_step);
}

fn compile_event(st: &mut PartState, slice: &PartSlice, i: usize, k: usize) -> (k2: usize)
    requires
        grid_ok(old(st)@),
        i < slice.notes.events@.len(),
        event_fits(old(st)@.col as int, slice.notes.events@[i as int]),
        old(st)@.next_note_id < usize::MAX,
        k < usize::MAX,
    ensures
        (final(st)@, k2 as int) == event_step(
            old(st)@,
            k as int,
            slice.kind,
            slice.lyrics@,
            slice.notes.events@[i as int],
        ),
        grid_ok(final(st)@),
{
    reveal(event_step);
    let note_id = st.next_note_id;
    st.next_note_id = note_id + 1;
    let ev = slice.notes.events[i];
    match ev {
        NoteEvent::Note(note) => {
            let takes = slice.kind == PartKind::NotesWithLyrics && !st.prev_tie;
            let lyrics = if takes {
                note_lyrics(&slice.lyrics, k)
            } else {
                let v: Vec<ElementContent> = Vec::new();
                assert(contents_view(v@) =~= Seq::<ContentView>::empty());
                v
            };
            compile_timed_unit(st, &note, lyrics, note_id);
            if takes {
                k + 1
            } else {
                k
            }
        },
        NoteEvent::Rest(rest) => {
            compile_rest(st, &rest, note_id);
            k
        },
        NoteEvent::Chord(chord) => {
            let v: Vec<ElementContent> = Vec::new();
            assert(contents_view(v@) =~= Seq::<ContentView>::empty());
            compile_timed_unit(st, &chord, v, note_id);
            k
        },
        NoteEvent::Percussion(hit) => {
            let v: Vec<ElementContent> = Vec::new();
            assert(contents_view(v@) =~= Seq::<ContentView>::empty());
            compile_timed_unit(st, &hit, v, note_id);
            k
        },
    }
}

/// Running the first `n` events advances the column by their durations and
/// the note ids by their number, and leaves the grid constants and position
/// alone.
proof fn lemma_events_run(slice: PartSlice, input: SliceInputView, n: int)
    requires
        slice_ok(slice, input.cross.next_note_id),
        0 <= n <= slice.notes.events@.len(),
    ensures
        ({
            let init = initial_model(slice, input);
            let (m, k) = events_run(init, slice, n);
            &&& m.col == prefix_duration(slice.notes.events@, n)
            &&& m.next_note_id == input.cross.next_note_id + n
            &&& m.multiplier == init.multiplier
            &&& m.beat_group_size == init.beat_group_size
            &&& m.measure_index == input.measure_index
            &&& m.part_index == input.part_index
            &&& 0 <= k <= n
        }),
    decreases n,
{
    if n > 0 {
        lemma_events_run(slice, input, n - 1);
        let evs = slice.notes.events@;
        lemma_prefix_monotone(evs, n, evs.len() as int);
        assert(event_fits(prefix_duration(evs, n - 1), evs[n - 1]));
        let (m1, k1) = events_run(initial_model(slice, input), slice, n - 1);
        lemma_event_step_fields(m1, k1, slice.kind, slice.lyrics@, evs[n - 1]);
    }
}

/// A compiled slice ends in a bar line at the column its events' durations
/// add up to, and uses one note id per event.
pub proof fn lemma_slice_compiled(slice: PartSlice, input: SliceInputView)
    requires
        slice_ok(slice, input.cross.next_note_id),
    ensures
        slice_compiled(slice, input).elements.last() == bar_line_at(
            prefix_duration(slice.notes.events@, slice.notes.events@.len() as int) as u32,
        ),
        slice_compiled(slice, input).elements.len() >= 1,
        slice_compiled(slice, input).next_note_id == input.cross.next_note_id
            + slice.notes.events@.len(),
        slice_compiled(slice, input).measure_index == input.measure_index,
        slice_compiled(slice, input).part_index == input.part_index,
{
    lemma_events_run(slice, input, slice.notes.events@.len() as int);
}

/// Compiles every event of the slice in order, then closes the last beam
/// group.
fn process_events(st: &mut PartState, slice: &PartSlice, Ghost(iv): Ghost<SliceInputView>)
    requires
        old(st)@ == initial_model(*slice, iv),
        slice_ok(*slice, iv.cross.next_note_id),
    ensures
        final(st)@ == beam_flushed(events_run(initial_model(*slice, iv), *slice, slice.notes.events@.len() as int).0),
        grid_ok(final(st)@),
{
    let ghost init = st@;
    let ghost evs = slice.notes.events@;
    let n = slice.notes.events.len();
    let mut k: usize = 0;
    for i in 0..n
        invariant
            n == evs.len(),
            evs == slice.notes.events@,
            slice_ok(*slice, iv.cross.next_note_id),
            init == initial_model(*slice, iv),
            (st@, k as int) == events_run(init, *slice, i as int),
            grid_ok(st@),
            st@.col == prefix_duration(evs, i as int),
            st@.next_note_id == iv.cross.next_note_id + i,
            st@.multiplier == slice.resolution_multiplier,
            st@.beat_group_size == slice.beat_group_size,
            k <= i,
    {
        proof {
            lemma_prefix_monotone(evs, i + 1, n as int);
        }
        assert(event_fits(prefix_duration(evs, i as int), evs[i as int]));
        let ghost m_before = st@;
        let ghost k_before = k as int;
        k = compile_event(st, slice, i, k);
        proof {
            lemma_event_step_fields(m_before, k_before, slice.kind, slice.lyrics@, evs[i as int]);
        }
    }
    flush_beam(st);
}

/// Closes a tuplet run still open at the end of the slice.
fn finish_tuplet_spans(st: &mut PartState)
    ensures
        final(st)@ == with_tuplets(old(st)@, tuplet_flushed(tuplet_state(old(st)@), old(st)@.measure_index, old(st)@.part_index)),
{
    flush(&mut st.current_tuplet, &mut st.tuplet_spans, st.measure_index, st.part_index);
}

proof fn lemma_flushed_extends(m: PartModel)
    ensures
        beam_flushed(m).elements.len() >= m.elements.len(),
        forall|i: int| 0 <= i < m.elements.len() ==> #[trigger] beam_flushed(m).elements[i] == m.elements[i],
        beam_flushed(m).slurs == m.slurs,
{
}

/// A note continuing a tie is the same sounding note: its head takes the
/// tied note's id, the tie span runs from the tied note to it, and it takes
/// no lyric syllable.
pub proof fn lemma_tie_continuation_keeps_identity(
    m: PartModel,
    k: int,
    kind: PartKind,
    lyrics: Seq<Lyrics>,
    n: crate::ast::grouped::GroupedNote,
    tied_id: usize,
    from_column: u32,
    from_measure: usize,
)
    requires
        m.prev_tie,
        m.prev_tie_note_id == Some(tied_id),
        m.prev_tie_column == Some(from_column),
        m.prev_tie_measure == Some(from_measure),
    ensures
        ({
            let (m2, k2) = event_step(m, k, kind, lyrics, NoteEvent::Note(n));
            &&& k2 == k
            &&& m2.elements.len() > m.elements.len()
            &&& m2.elements[m.elements.len() as int] == (ElementView {
                column: m.col,
                content: note_unit(n).head,
                note_id: Some(tied_id),
            })
            &&& m2.slurs.len() > m.slurs.len()
            &&& m2.slurs[m.slurs.len() as int] == (SlurSpan {
                kind: ArcKind::Tie,
                part_index: m.part_index,
                from_measure,
                from_column,
                to_measure: m.measure_index,
                to_column: m.col,
            })
        }),
{
    reveal(event_step);
    let m0 = PartModel { next_note_id: (m.next_note_id + 1) as usize, ..m };
    let u = note_unit(n);
    let slurs = m0.slurs.push(
        SlurSpan {
            kind: ArcKind::Tie,
            part_index: m.part_index,
            from_measure,
            from_column,
            to_measure: m.measure_index,
            to_column: m.col,
        },
    );
    let m1 = tie_reset(PartModel { slurs, ..m0 });
    let m2 = PartModel { elements: m1.elements + lyric_elements(Seq::empty(), m.col), ..m1 };
    assert(m2.elements =~= m.elements);
    let t = tuplet_tagged(tuplet_state(m2), m2.measure_index, m2.part_index, m2.col, u.tuplet);
    let a1 = with_tuplets(m2, t);
    let a2 = PartModel {
        elements: a1.elements.push(ElementView { column: m.col, content: u.head, note_id: Some(tied_id) }),
        ..a1
    };
    let uc = unit_underline_count(u.duration, u.tuplet, m.multiplier);
    let a3 = if uc == 0 {
        beam_flushed(a2)
    } else {
        a2
    };
    lemma_flushed_extends(a2);
    assert(a3.elements[m.elements.len() as int] == a2.elements[m.elements.len() as int]);
    let c1 = extended(chain_state(a3), u.group_membership, u.group_continuation, m.col, u.slur_key, m.measure_index, m.part_index);
    lemma_extended_keeps_slurs(chain_state(a3), u.group_membership, u.group_continuation, m.col, u.slur_key, m.measure_index, m.part_index);
    let c2 = match u.slur_close_at {
        Some(off) => if u.group_membership > 0 {
            extended(c1, u.group_membership, 0, (m.col + off) as u32, SlurKey::Rest, m.measure_index, m.part_index)
        } else {
            c1
        },
        None => c1,
    };
    match u.slur_close_at {
        Some(off) => if u.group_membership > 0 {
            lemma_extended_keeps_slurs(c1, u.group_membership, 0, (m.col + off) as u32, SlurKey::Rest, m.measure_index, m.part_index);
        },
        None => {},
    }
    let a4 = with_chains(a3, c2);
    let beat = super::part_slice_unit::unit_beat(u, m.multiplier);
    let a5 = PartModel {
        elements: a4.elements + dash_run(m.col + beat, m.col + u.duration, beat, super::part_slice_unit::unit_dash(u), tied_id),
        ..a4
    };
    assert(a5.elements[m.elements.len() as int] == a4.elements[m.elements.len() as int]);
    let a6 = if uc > 0 {
        PartModel { beam: a5.beam.push(super::beam::BeamEntry { column: m.col, underline_count: uc, duration: u.duration }), ..a5 }
    } else {
        a5
    };
    let col = (m.col + u.duration) as u32;
    let a7 = PartModel { col, ..a6 };
    lemma_flushed_extends(a7);
    assert(unit_compiled(m2, u, tied_id) == if uc > 0 && col as int % (m.beat_group_size * m.multiplier) == 0 {
        beam_flushed(a7)
    } else {
        a7
    });
}

/// Compiles one part's slice of one measure. The spans it produces are
/// appended to `slur_spans` and `tuplet_spans`.
pub fn compile_part_slice(
    slice: &PartSlice,
    input: PartSliceInput,
    slur_spans: &mut Vec<SlurSpan>,
    tuplet_spans: &mut Vec<TupletSpan>,
) -> (r: PartSliceResult)
    requires
        slice_ok(*slice, input.next_note_id),
    ensures
        ({
            let s = slice_compiled(*slice, input@);
            &&& elements_view(r.elements@) == s.elements
            &&& r.final_pending_opens@ == s.opens
            &&& r.final_tie == s.prev_tie
            &&& r.final_tie_column == s.prev_tie_column
            &&& r.final_tie_measure == s.prev_tie_measure
            &&& r.final_tie_note_id == s.prev_tie_note_id
            &&& r.final_next_note_id == s.next_note_id
            &&& final(slur_spans)@ == old(slur_spans)@ + s.slurs
            &&& tuplets_view(final(tuplet_spans)@) == tuplets_view(old(tuplet_spans)@) + s.tuplets
        }),
{
    let ghost iv = input@;
    let initial_elements = if slice.kind == PartKind::Lyrics {
        lyric_lines(&slice.lyrics)
    } else {
        Vec::new()
    };
    let mut st = PartState {
        elements: initial_elements,
        beam_buf: Vec::new(),
        pending_chains: Vec::new(),
        pending_slur_opens: input.pending_opens,
        slur_spans: Vec::new(),
        current_tuplet: None,
        tuplet_spans: Vec::new(),
        col: 0,
        prev_tie: input.prev_tie,
        prev_tie_column: input.prev_tie_column,
        prev_tie_measure: input.prev_tie_measure,
        prev_tie_note_id: input.prev_tie_note_id,
        next_note_id: input.next_note_id,
        measure_index: input.measure_index,
        part_index: input.part_index,
        multiplier: slice.resolution_multiplier,
        beat_group_size: slice.beat_group_size,
    };
    let ghost init = st@;
    assert(init.beam =~= Seq::<super::beam::BeamEntry>::empty());
    assert(init.slurs =~= Seq::<SlurSpan>::empty());
    if slice.kind != PartKind::Lyrics {
        assert(init.elements =~= Seq::<ElementView>::empty());
    }
    assert(init.chains =~= Seq::<Seq<(u32, SlurKey)>>::empty());
    assert(init.tuplets =~= Seq::<super::types::TupletSpanView>::empty());
    assert(init == initial_model(*slice, iv));
    process_events(&mut st, slice, Ghost(iv));
    finish_tuplet_spans(&mut st);
    preserve_cross_measure_slur_opens(&st.pending_chains, &mut st.pending_slur_opens, st.measure_index);
    let ghost e0 = st@.elements;
    st.elements.push(ColumnElement { column: st.col, content: ElementContent::BarLine, note_id: None });
    assert(st@.elements =~= e0.push(bar_line_at(st.col)));
    let ghost ts = tuplets_view(st.tuplet_spans@);
    slur_spans.append(&mut st.slur_spans);
    let ghost t0 = tuplets_view(tuplet_spans@);
    tuplet_spans.append(&mut st.tuplet_spans);
    assert(tuplets_view(tuplet_spans@) =~= t0 + ts);
    PartSliceResult {
        elements: st.elements,
        final_pending_opens: st.pending_slur_opens,
        final_tie: st.prev_tie,
        final_tie_column: st.prev_tie_column,
        final_tie_measure: st.prev_tie_measure,
        final_tie_note_id: st.prev_tie_note_id,
        final_next_note_id: st.next_note_id,
    }
}

proof fn lemma_timed_compiled_bounded(m: PartModel, u: UnitView, lyrics: Seq<ContentView>, note_id: usize, ties: bool)
    requires
        spans_bounded(m),
    ensures
        spans_bounded(timed_compiled(m, u, lyrics, note_id, ties)),
        timed_compiled(m, u, lyrics, note_id, ties).measure_index == m.measure_index,
{
    let cont = m.prev_tie;
    let nid = if cont {
        match m.prev_tie_note_id {
            Some(x) => x,
            None => note_id,
        }
    } else {
        note_id
    };
    let m1 = if cont {
        let slurs = match (m.prev_tie_column, m.prev_tie_measure) {
            (Some(c), Some(fm)) => m.slurs.push(
                SlurSpan {
                    kind: ArcKind::Tie,
                    part_index: m.part_index,
                    from_measure: fm,
                    from_column: c,
                    to_measure: m.measure_index,
                    to_column: m.col,
                },
            ),
            _ => m.slurs,
        };
        assert forall|k: int| 0 <= k < slurs.len() implies (#[trigger] slurs[k]).from_measure <= slurs[k].to_measure
            && slurs[k].to_measure == m.measure_index by {
            if k < m.slurs.len() {
                assert(slurs[k] == m.slurs[k]);
            }
        }
        tie_reset(PartModel { slurs, ..m })
    } else {
        m
    };
    let m2 = PartModel { elements: m1.elements + lyric_elements(lyrics, m.col), ..m1 };
    lemma_unit_compiled_bounded(m2, u, nid);
}

proof fn lemma_rest_compiled_bounded(m: PartModel, r: GroupedRest, note_id: usize)
    requires
        spans_bounded(m),
    ensures
        spans_bounded(rest_compiled(m, r, note_id)),
        rest_compiled(m, r, note_id).measure_index == m.measure_index,
{
    lemma_tuplets_stay_in_measure(tuplet_state(m), m.measure_index, m.part_index, m.col, r.tuplet);
    let m1 = with_tuplets(m, tuplet_tagged(tuplet_state(m), m.measure_index, m.part_index, m.col, r.tuplet));
    let uc = rest_underline_count(r, m.multiplier);
    let m2 = if uc == 0 {
        beam_flushed(m1)
    } else {
        m1
    };
    let m3 = PartModel {
        elements: m2.elements.push(ElementView { column: m.col, content: rest_content(r), note_id: Some(note_id) }),
        ..m2
    };
    if r.group_membership > 0 {
        lemma_extended_bounded(chain_state(m3), r.group_membership, r.group_continuation, m.col, SlurKey::Rest, m.measure_index, m.part_index);
    }
}

proof fn lemma_event_step_bounded(m: PartModel, k: int, kind: PartKind, lyrics: Seq<Lyrics>, ev: NoteEvent)
    requires
        spans_bounded(m),
    ensures
        spans_bounded(event_step(m, k, kind, lyrics, ev).0),
        event_step(m, k, kind, lyrics, ev).0.measure_index == m.measure_index,
{
    reveal(event_step);
    let note_id = m.next_note_id;
    let m0 = PartModel { next_note_id: (m.next_note_id + 1) as usize, ..m };
    match ev {
        NoteEvent::Note(n) => {
            let takes = kind == PartKind::NotesWithLyrics && !m.prev_tie;
            let lyr = if takes {
                lyric_contents(lyrics, k, lyrics.len() as int)
            } else {
                Seq::empty()
            };
            lemma_timed_compiled_bounded(m0, note_unit(n), lyr, note_id, n.tie_to_next_span is Some);
        },
        NoteEvent::Rest(r) => lemma_rest_compiled_bounded(m0, r, note_id),
        NoteEvent::Chord(c) => lemma_timed_compiled_bounded(m0, chord_unit(c), Seq::empty(), note_id, c.tie_to_next_span is Some),
        NoteEvent::Percussion(p) => lemma_timed_compiled_bounded(m0, hit_unit(p), Seq::empty(), note_id, p.tie_to_next_span is Some),
    }
}

proof fn lemma_events_run_bounded(m: PartModel, slice: PartSlice, n: int)
    requires
        spans_bounded(m),
    ensures
        spans_bounded(events_run(m, slice, n).0),
        events_run(m, slice, n).0.measure_index == m.measure_index,
    decreases n,
{
    if n > 0 {
        lemma_events_run_bounded(m, slice, n - 1);
        let (m1, k1) = events_run(m, slice, n - 1);
        lemma_event_step_bounded(m1, k1, slice.kind, slice.lyrics@, slice.notes.events@[n - 1]);
    }
}

/// The slurs, ties and tuplet spans a slice emits all end in its measure and
/// start no later, and the slur openings and open tie it hands on come from
/// its measure or an earlier one, given that those it was handed did.
pub proof fn lemma_slice_spans_in_measure(slice: PartSlice, input: SliceInputView)
    requires
        opens_before(input.cross.opens, input.measure_index as int),
        input.cross.prev_tie_measure matches Some(fm) ==> fm <= input.measure_index,
    ensures
        spans_bounded(slice_compiled(slice, input)),
        slice_compiled(slice, input).measure_index == input.measure_index,
{
    let m0 = initial_model(slice, input);
    assert(spans_bounded(m0));
    lemma_events_run_bounded(m0, slice, slice.notes.events@.len() as int);
    let (m1, _) = events_run(m0, slice, slice.notes.events@.len() as int);
    let m2 = beam_flushed(m1);
    lemma_tuplets_stay_in_measure(tuplet_state(m2), m2.measure_index, m2.part_index, 0, None);
    let m3 = with_tuplets(m2, tuplet_flushed(tuplet_state(m2), m2.measure_index, m2.part_index));
    lemma_preserved_bounded(m3.chains, m3.opens, m3.chains.len() as int, m3.measure_index);
}

} // verus!
